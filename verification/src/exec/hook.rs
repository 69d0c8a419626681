//! The window of addresses at which the host takes over.

use vstd::prelude::*;

use crate::bitmap::{bit_set, get_bit};

verus! {

/// A range of addresses and a stop bit for each of them. Without a bitmap every
/// address of the range stops.
#[derive(Debug)]
pub struct HookWindow {
    /// First address.
    pub begin: u64,
    /// Last address.
    pub end: u64,
    /// One bit per address; set means stop.
    pub stop_bitmap: Vec<u8>,
}

/// How many addresses a window has.
pub open spec fn window_len(begin: u64, end: u64) -> int {
    if end < begin {
        1
    } else if end - begin == u64::MAX {
        u64::MAX as int
    } else {
        end - begin + 1
    }
}

/// Whether execution stops for the host at `address`. An address of the range
/// that the bitmap is too short for stops.
pub open spec fn stops_at(begin: u64, end: u64, bitmap: Seq<u8>, address: u64) -> bool {
    if bitmap.len() == 0 {
        begin <= address <= end
    } else {
        let offset = address - begin;
        let index = if offset <= usize::MAX {
            offset
        } else {
            usize::MAX as int
        };
        &&& begin <= address
        &&& offset < window_len(begin, end)
        &&& (index / 8 >= bitmap.len() || bit_set(bitmap, index))
    }
}

/// Whether execution stops for the host at `address`, with an optional window.
pub open spec fn stopped(hook: Option<&HookWindow>, address: u64) -> bool {
    match hook {
        Some(h) => stops_at(h.begin, h.end, h.stop_bitmap@, address),
        None => false,
    }
}

impl HookWindow {
    /// Whether execution stops for the host at `address`.
    #[must_use]
    pub fn should_host_stop(&self, address: u64) -> (r: bool)
        ensures
            r == stops_at(self.begin, self.end, self.stop_bitmap@, address),
    {
        if self.stop_bitmap.len() == 0 {
            return address >= self.begin && address <= self.end;
        }
        if address < self.begin {
            return false;
        }
        let range_len: u64 = self.end.saturating_sub(self.begin).saturating_add(1);
        let offset: u64 = address - self.begin;
        if offset >= range_len {
            return false;
        }
        let index: usize = if offset <= usize::MAX as u64 {
            offset as usize
        } else {
            usize::MAX
        };
        if index / 8 < self.stop_bitmap.len() {
            get_bit(self.stop_bitmap.as_slice(), index)
        } else {
            true
        }
    }
}

} // verus!
