//! Memory protection bits of map requests.

use vstd::prelude::*;

verus! {

/// Read access.
pub const READ: u32 = 1;

/// Write access.
pub const WRITE: u32 = 2;

/// Execute access.
pub const EXEC: u32 = 4;

/// Read, write and execute.
pub const ALL: u32 = 7;

} // verus!
