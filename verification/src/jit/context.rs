//! Registers on their way to and from compiled code.

use vstd::prelude::*;

use crate::exec::model::InvalidMem;
use crate::jit::compile::joined_xmm;
use crate::jit::ir::half_of;
use crate::jit::state::xmm_join;
use crate::regs::{RegFile, Regs};

verus! {

/// The halves of the vector registers, low half first.
pub fn split_xmm(regs: &RegFile) -> (halves: [u64; 32])
    ensures
        halves@ == Seq::new(32, |h: int| half_of(regs@.xmm, h)),
{
    let mut halves: [u64; 32] = [0u64;32];
    let mut k: usize = 0;
    while k < 16
        invariant
            k <= 16,
            forall|h: int| 0 <= h < 2 * k ==> #[trigger] halves@[h] == half_of(regs@.xmm, h),
        decreases 16 - k,
    {
        let v: u128 = regs.xmm(k);
        halves[2 * k] = (v % 0x1_0000_0000_0000_0000) as u64;
        halves[2 * k + 1] = (v / 0x1_0000_0000_0000_0000) as u64;
        k = k + 1;
    }
    assert(halves@ =~= Seq::new(32, |h: int| half_of(regs@.xmm, h)));
    halves
}

/// Takes the registers that compiled code left.
pub fn join_regs(regs: &mut RegFile, gpr: &[u64; 16], halves: &[u64; 32], rip: u64, rflags: u64)
    ensures
        final(regs)@ == (Regs { gpr: gpr@, xmm: joined_xmm(halves@), rip, rflags }),
{
    let mut k: usize = 0;
    while k < 16
        invariant
            k <= 16,
            forall|j: int| 0 <= j < k ==> #[trigger] regs.gpr@[j] == gpr@[j],
            forall|j: int| 0 <= j < k ==> #[trigger] regs.xmm@[j] == xmm_join(
                halves@[2 * j],
                halves@[2 * j + 1],
            ),
        decreases 16 - k,
    {
        regs.gpr[k] = gpr[k];
        let low: u128 = halves[2 * k] as u128;
        let high: u128 = halves[2 * k + 1] as u128;
        regs.xmm[k] = low + high * 0x1_0000_0000_0000_0000;
        k = k + 1;
    }
    regs.rip = rip;
    regs.rflags = rflags;
    assert(regs@.gpr =~= gpr@);
    assert(regs@.xmm =~= joined_xmm(halves@));
}

/// The access that failed, as compiled code describes it: a flag that is not zero,
/// the kind of access, the address and the size.
pub fn fault_of(fault: u64, access: u64, address: u64, size: u64) -> (r: Option<InvalidMem>)
    ensures
        r == (if fault == 0 {
            None
        } else {
            Some(
                InvalidMem {
                    access_type: if access <= i32::MAX {
                        access as i32
                    } else {
                        0
                    },
                    address,
                    size: if size <= i32::MAX {
                        size as i32
                    } else {
                        0
                    },
                    value: 0,
                },
            )
        }),
{
    if fault == 0 {
        return None;
    }
    let access_type: i32 = if access <= 0x7fff_ffff {
        access as i32
    } else {
        0
    };
    let shown: i32 = if size <= 0x7fff_ffff {
        size as i32
    } else {
        0
    };
    Some(InvalidMem { access_type, address, size: shown, value: 0 })
}

/// Splitting the vector registers and joining them again changes nothing.
pub proof fn split_and_joined(xmm: Seq<u128>)
    requires
        xmm.len() == 16,
    ensures
        joined_xmm(Seq::new(32, |h: int| half_of(xmm, h))) == xmm,
{
    let halves = Seq::new(32, |h: int| half_of(xmm, h));
    assert forall|k: int| 0 <= k < 16 implies #[trigger] joined_xmm(halves)[k] == xmm[k] by {
        let x = xmm[k];
        assert(halves[2 * k] == (x % 0x1_0000_0000_0000_0000) as u64);
        assert(halves[2 * k + 1] == (x / 0x1_0000_0000_0000_0000) as u64);
    }
    assert(joined_xmm(halves) =~= xmm);
}

} // verus!
