//! Operand kinds and memory operand sizes, by the codes that the decoder gives
//! them.

use vstd::prelude::*;

verus! {

/// A register.
pub const REGISTER: u8 = 0;

/// A near branch target of a 16-bit operand size.
pub const NEAR_BRANCH16: u8 = 1;

/// A near branch target of a 32-bit operand size.
pub const NEAR_BRANCH32: u8 = 2;

/// A near branch target of a 64-bit operand size.
pub const NEAR_BRANCH64: u8 = 3;

/// An 8-bit immediate.
pub const IMMEDIATE8: u8 = 6;

/// The second 8-bit immediate.
pub const IMMEDIATE8_2ND: u8 = 7;

/// A 16-bit immediate.
pub const IMMEDIATE16: u8 = 8;

/// A 32-bit immediate.
pub const IMMEDIATE32: u8 = 9;

/// A 64-bit immediate.
pub const IMMEDIATE64: u8 = 10;

/// An 8-bit immediate sign-extended to 16 bits.
pub const IMMEDIATE8TO16: u8 = 11;

/// An 8-bit immediate sign-extended to 32 bits.
pub const IMMEDIATE8TO32: u8 = 12;

/// An 8-bit immediate sign-extended to 64 bits.
pub const IMMEDIATE8TO64: u8 = 13;

/// A 32-bit immediate sign-extended to 64 bits.
pub const IMMEDIATE32TO64: u8 = 14;

/// A memory operand with base, index and displacement.
pub const MEMORY: u8 = 24;

/// An unsigned byte in memory.
pub const SIZE_UINT8: u8 = 1;

/// An unsigned word in memory.
pub const SIZE_UINT16: u8 = 2;

/// An unsigned double word in memory.
pub const SIZE_UINT32: u8 = 3;

/// An unsigned quad word in memory.
pub const SIZE_UINT64: u8 = 5;

/// A signed byte in memory.
pub const SIZE_INT8: u8 = 9;

/// A signed word in memory.
pub const SIZE_INT16: u8 = 10;

/// A signed double word in memory.
pub const SIZE_INT32: u8 = 11;

/// A signed quad word in memory.
pub const SIZE_INT64: u8 = 12;

/// A segment and a 64-bit offset in memory.
pub const SIZE_SEG_PTR64: u8 = 18;

/// A 64-bit branch offset in memory.
pub const SIZE_QWORD_OFFSET: u8 = 21;

/// The immediate operand kinds.
pub open spec fn immediate(kind: u8) -> bool {
    IMMEDIATE8 <= kind <= IMMEDIATE32TO64
}

/// The near branch operand kinds.
pub open spec fn near_branch(kind: u8) -> bool {
    NEAR_BRANCH16 <= kind <= NEAR_BRANCH64
}

/// Whether `kind` is an immediate.
pub fn is_immediate(kind: u8) -> (r: bool)
    ensures
        r == immediate(kind),
{
    matches!(
        kind,
        IMMEDIATE8 | IMMEDIATE8_2ND | IMMEDIATE16 | IMMEDIATE32 | IMMEDIATE64 | IMMEDIATE8TO16
            | IMMEDIATE8TO32 | IMMEDIATE8TO64 | IMMEDIATE32TO64
    )
}

/// Whether `kind` is a near branch target.
pub fn is_near_branch(kind: u8) -> (r: bool)
    ensures
        r == near_branch(kind),
{
    matches!(kind, NEAR_BRANCH16 | NEAR_BRANCH32 | NEAR_BRANCH64)
}

/// The size in bytes of an immediate of the given kind, once extended.
pub open spec fn immediate_bytes(kind: u8) -> int {
    if kind == IMMEDIATE8 || kind == IMMEDIATE8_2ND {
        1
    } else if kind == IMMEDIATE16 || kind == IMMEDIATE8TO16 {
        2
    } else if kind == IMMEDIATE32 || kind == IMMEDIATE8TO32 {
        4
    } else {
        8
    }
}

/// The size in bytes of an integer memory operand; none for other sizes.
pub open spec fn integer_bytes(size: u8) -> Option<int> {
    if size == SIZE_UINT8 || size == SIZE_INT8 {
        Some(1)
    } else if size == SIZE_UINT16 || size == SIZE_INT16 {
        Some(2)
    } else if size == SIZE_UINT32 || size == SIZE_INT32 {
        Some(4)
    } else if size == SIZE_UINT64 || size == SIZE_INT64 || size == SIZE_QWORD_OFFSET || size
        == SIZE_SEG_PTR64 {
        Some(8)
    } else {
        None
    }
}

/// The size in bytes of an integer memory operand.
pub fn integer_size(size: u8) -> (r: Option<usize>)
    ensures
        match r {
            Some(n) => integer_bytes(size) == Some(n as int),
            None => integer_bytes(size) is None,
        },
{
    match size {
        SIZE_UINT8 | SIZE_INT8 => Some(1),
        SIZE_UINT16 | SIZE_INT16 => Some(2),
        SIZE_UINT32 | SIZE_INT32 => Some(4),
        SIZE_UINT64 | SIZE_INT64 | SIZE_QWORD_OFFSET | SIZE_SEG_PTR64 => Some(8),
        _ => None,
    }
}

} // verus!
