//! Shifts and rotates.

use vstd::arithmetic::power2::pow2;
use vstd::prelude::*;

use crate::exec::alu::lemma_trunc_narrow;
use crate::exec::logic::power_of_two;
use crate::exec::model::{machine, reaches, same_layout, Machine, Next, StepExecError};
use crate::exec::operand::{
    after_operand, op_size_bytes, operand_bytes, operand_value, read_op, write_op,
};
use crate::insn::instr::Instr;
use crate::mem::guest::GuestMemory;
use crate::regs::{
    even_parity, modulus, parity, sign_set, signed, trunc, truncate, with_flag, RegFile, CF, OF, PF,
    SF, ZF,
};

verus! {

/// Shifts and rotates.
#[derive(Debug, Clone, Copy, PartialEq, Eq, Structural)]
pub enum ShiftKind {
    /// Shift left.
    Shl,
    /// Shift right, zeros coming in.
    Shr,
    /// Shift right, the sign coming in.
    Sar,
    /// Rotate left.
    Rol,
    /// Rotate right.
    Ror,
}

/// The width in bits of an operand of `size` bytes.
pub open spec fn width(size: int) -> int {
    if size == 1 {
        8
    } else if size == 2 {
        16
    } else if size == 4 {
        32
    } else {
        64
    }
}

/// How far a count moves an operand: its low six bits, modulo the width.
pub open spec fn shift_count(count: u64, size: int) -> int {
    (count as int % 64) % width(size)
}

/// Two to the power of `k`, as an integer.
pub open spec fn p2(k: int) -> int {
    pow2(k as nat) as int
}

/// The result of moving `d`, an operand of `size` bytes, by `c` places.
pub open spec fn shifted(kind: ShiftKind, d: int, c: int, size: int) -> int {
    match kind {
        ShiftKind::Shl => trunc(d * p2(c), size),
        ShiftKind::Shr => d / p2(c),
        ShiftKind::Sar => trunc(signed(d, size) / p2(c), size),
        ShiftKind::Rol => trunc(d * p2(c), size) + d / p2(width(size) - c),
        ShiftKind::Ror => d / p2(c) + trunc(d * p2(width(size) - c), size),
    }
}

/// The carry flag after moving `d` by `c` places: the last bit that left the
/// operand, or for a rotate the bit that it came back to.
pub open spec fn shift_carry(kind: ShiftKind, d: int, c: int, size: int) -> bool {
    match kind {
        ShiftKind::Shl => (d / p2(width(size) - c)) % 2 == 1,
        ShiftKind::Shr => (d / p2(c - 1)) % 2 == 1,
        ShiftKind::Sar => (d / p2(c - 1)) % 2 == 1,
        ShiftKind::Rol => shifted(kind, d, c, size) % 2 == 1,
        ShiftKind::Ror => 2 * shifted(kind, d, c, size) >= modulus(size),
    }
}

/// The overflow flag after a move by one place.
pub open spec fn shift_overflow(kind: ShiftKind, d: int, size: int) -> bool {
    let r = shifted(kind, d, 1, size);
    let top = 2 * r >= modulus(size);
    match kind {
        ShiftKind::Shl => top != (2 * d >= modulus(size)),
        ShiftKind::Shr => 2 * d >= modulus(size),
        ShiftKind::Sar => false,
        ShiftKind::Rol => top != (r % 2 == 1),
        ShiftKind::Ror => top != ((4 * r / modulus(size)) % 2 == 1),
    }
}

/// The flags after moving `d` by `c` places: rotates leave the zero, sign and
/// parity flags alone, and the overflow flag changes for a move by one only.
pub open spec fn shift_rflags(kind: ShiftKind, rflags: u64, d: int, c: int, size: int) -> u64 {
    let r = shifted(kind, d, c, size);
    let f0 = with_flag(rflags, CF, shift_carry(kind, d, c, size));
    let f1 = if kind == ShiftKind::Rol || kind == ShiftKind::Ror {
        f0
    } else {
        with_flag(
            with_flag(with_flag(f0, ZF, r == 0), SF, 2 * r >= modulus(size)),
            PF,
            even_parity(r),
        )
    };
    if c == 1 {
        with_flag(f1, OF, shift_overflow(kind, d, size))
    } else {
        f1
    }
}

/// Shifts and rotates. A count of zero changes nothing, not even a flag.
pub open spec fn after_shift(s: Machine, i: Instr, kind: ShiftKind) -> Next {
    match operand_bytes(i, 0) {
        Err(f) => s.failed(f),
        Ok(size) => match operand_value(s, i, 0) {
            Err(f) => s.failed(f),
            Ok(v) => match operand_value(s, i, 1) {
                Err(f) => s.failed(f),
                Ok(count) => {
                    let d = trunc(v as int, size);
                    let c = shift_count(count, size);
                    if c == 0 {
                        s.done()
                    } else {
                        after_operand(
                            s.with_regs(
                                s.regs.flags(shift_rflags(kind, s.regs.rflags, d, c, size)),
                            ),
                            i,
                            0,
                            shifted(kind, d, c, size) as u64,
                        )
                    }
                },
            },
        },
    }
}

/// A number that fits an operand is not cut down.
proof fn lemma_fits(x: int, size: int)
    requires
        0 <= x < modulus(size),
    ensures
        trunc(x, size) == x,
{
}

/// The width in bits of an operand of `size` bytes.
fn width_of(size: usize) -> (w: u32)
    ensures
        w == width(size as int),
{
    match size {
        1 => 8,
        2 => 16,
        4 => 32,
        _ => 64,
    }
}

/// The number of values of an operand is two to the power of its width.
pub proof fn lemma_width(size: int)
    ensures
        p2(width(size)) == modulus(size),
{
    vstd::arithmetic::power2::lemma2_to64();
}

/// `2^(w-c) * 2^c == 2^w`.
pub proof fn lemma_p2_split(size: int, c: int)
    requires
        0 <= c <= width(size),
    ensures
        p2(width(size) - c) * p2(c) == modulus(size),
        p2(c) > 0,
        p2(width(size) - c) > 0,
{
    lemma_width(size);
    vstd::arithmetic::power2::lemma_pow2_adds((width(size) - c) as nat, c as nat);
    vstd::arithmetic::power2::lemma_pow2_pos(c as nat);
    vstd::arithmetic::power2::lemma_pow2_pos((width(size) - c) as nat);
}

/// A quotient by `q` of a number below `q * p` lies below `p`.
pub proof fn lemma_quotient_bound(d: int, q: int, p: int)
    requires
        0 <= d < q * p,
        0 < q,
        0 < p,
    ensures
        0 <= d / q < p,
        0 <= d / q <= d,
{
    vstd::arithmetic::div_mod::lemma_fundamental_div_mod(d, q);
    let t = d / q;
    assert(0 <= t < p && t <= d) by (nonlinear_arith)
        requires
            d == q * t + d % q,
            0 <= d % q < q,
            0 <= d < q * p,
            0 < q,
            0 < p,
    ;
}

/// The parts that a rotate puts together do not overlap.
pub proof fn lemma_rotate_bound(d: int, size: int, c: int)
    requires
        0 <= d < modulus(size),
        0 < c < width(size),
    ensures
        0 <= trunc(d * p2(c), size) + d / p2(width(size) - c) < modulus(size),
        0 <= d / p2(width(size) - c) < p2(c),
        trunc(d * p2(c), size) % p2(c) == 0,
{
    lemma_p2_split(size, c);
    let p = p2(c);
    let q = p2(width(size) - c);
    lemma_quotient_bound(d, q, p);
    assert(q * p == p * q) by (nonlinear_arith);
    vstd::arithmetic::div_mod::lemma_truncate_middle(d, p, q);
    assert((p * d) % (p * q) == p * (d % q));
    assert(d * p == p * d) by (nonlinear_arith);
    let m = d % q;
    assert(p * m + p <= p * q) by (nonlinear_arith)
        requires
            0 <= m < q,
            p > 0,
    ;
    assert((p * m) % p == 0) by {
        vstd::arithmetic::div_mod::lemma_mod_multiples_basic(m, p);
        assert(m * p == p * m) by (nonlinear_arith);
    }
    assert(0 <= p * m) by (nonlinear_arith)
        requires
            0 <= m,
            p > 0,
    ;
}

/// Moves `d` by `c` places to the left, at `size` bytes.
fn shift_left(d: u64, c: u32, size: usize) -> (r: u64)
    requires
        c < 64,
    ensures
        r == trunc(d * p2(c as int), size as int),
{
    let p: u64 = power_of_two(c);
    proof {
        lemma_trunc_narrow(d * p2(c as int), size as int);
        assert(d as nat * p as nat == d * p2(c as int));
    }
    truncate(d.wrapping_mul(p), size)
}

/// The signed reading of `d` divided by `2^c`, rounded down.
fn shift_right_signed(d: u64, c: u32, size: usize) -> (r: u64)
    requires
        d < modulus(size as int),
        c < 64,
    ensures
        r == trunc(signed(d as int, size as int) / p2(c as int), size as int),
{
    let p: u64 = power_of_two(c);
    assert(trunc(d as int, size as int) == d);
    if sign_set(d, size) {
        let magnitude: u64 = match size {
            1 => 0x100 - d,
            2 => 0x1_0000 - d,
            4 => 0x1_0000_0000 - d,
            _ => 0xffff_ffff_ffff_ffff - d + 1,
        };
        let down: u64 = (magnitude - 1) / p;
        let ghost n = signed(d as int, size as int);
        proof {
            assert(n == -(magnitude as int));
            lemma_negative_floor(magnitude as int, p as int);
            assert(n / p as int == -(down as int) - 1);
            lemma_trunc_narrow(-(down as int) - 1, size as int);
            assert(down <= magnitude) by {
                lemma_quotient_le(magnitude - 1, p as int);
            }
        }
        truncate(0xffff_ffff_ffff_ffff - down, size)
    } else {
        proof {
            lemma_quotient_le(d as int, p as int);
        }
        truncate(d / p, size)
    }
}

/// Dividing a negative number and rounding down.
proof fn lemma_negative_floor(m: int, p: int)
    requires
        m > 0,
        p > 0,
    ensures
        (-m) / p == -((m - 1) / p) - 1,
{
    let k = (m - 1) / p;
    let r = (m - 1) % p;
    vstd::arithmetic::div_mod::lemma_fundamental_div_mod(m - 1, p);
    assert(-m == p * (-k - 1) + (p - 1 - r)) by (nonlinear_arith)
        requires
            m - 1 == p * k + r,
    ;
    vstd::arithmetic::div_mod::lemma_fundamental_div_mod_converse(-m, p, -k - 1, p - 1 - r);
}

/// A quotient is no larger than what was divided.
proof fn lemma_quotient_le(d: int, p: int)
    requires
        0 <= d,
        0 < p,
    ensures
        0 <= d / p <= d,
{
    vstd::arithmetic::div_mod::lemma_fundamental_div_mod(d, p);
    let t = d / p;
    assert(0 <= t <= d) by (nonlinear_arith)
        requires
            d == p * t + d % p,
            0 <= d % p < p,
            0 <= d,
            0 < p,
    ;
}

/// Moves `d` by `c` places.
pub fn shift_value(kind: ShiftKind, d: u64, c: u32, size: usize) -> (r: u64)
    requires
        d < modulus(size as int),
        0 < c < width(size as int),
    ensures
        r == shifted(kind, d as int, c as int, size as int),
        r < modulus(size as int),
{
    let w: u32 = width_of(size);
    proof {
        lemma_rotate_bound(d as int, size as int, c as int);
        lemma_rotate_bound(d as int, size as int, width(size as int) - c);
        lemma_quotient_le(d as int, p2(c as int));
        vstd::arithmetic::power2::lemma_pow2_pos(c as nat);
    }
    match kind {
        ShiftKind::Shl => shift_left(d, c, size),
        ShiftKind::Shr => {
            proof {
                vstd::arithmetic::power2::lemma_pow2_pos(c as nat);
                lemma_quotient_le(d as int, p2(c as int));
            }
            d / power_of_two(c)
        },
        ShiftKind::Sar => shift_right_signed(d, c, size),
        ShiftKind::Rol => shift_left(d, c, size) + d / power_of_two(w - c),
        ShiftKind::Ror => d / power_of_two(c) + shift_left(d, w - c, size),
    }
}

/// The carry flag after moving `d` by `c` places to the result `r`.
fn carry_of(kind: ShiftKind, d: u64, c: u32, size: usize, r: u64) -> (carry: bool)
    requires
        d < modulus(size as int),
        0 < c < width(size as int),
        r == shifted(kind, d as int, c as int, size as int),
        r < modulus(size as int),
    ensures
        carry == shift_carry(kind, d as int, c as int, size as int),
{
    let w: u32 = width_of(size);
    assert(trunc(r as int, size as int) == r);
    match kind {
        ShiftKind::Shl => (d / power_of_two(w - c)) % 2 == 1,
        ShiftKind::Shr => (d / power_of_two(c - 1)) % 2 == 1,
        ShiftKind::Sar => (d / power_of_two(c - 1)) % 2 == 1,
        ShiftKind::Rol => r % 2 == 1,
        ShiftKind::Ror => sign_set(r, size),
    }
}

/// The overflow flag after moving `d` by one place to the result `r`.
fn overflow_of(kind: ShiftKind, d: u64, size: usize, r: u64) -> (overflow: bool)
    requires
        d < modulus(size as int),
        r == shifted(kind, d as int, 1, size as int),
        r < modulus(size as int),
    ensures
        overflow == shift_overflow(kind, d as int, size as int),
{
    assert(trunc(r as int, size as int) == r);
    assert(trunc(d as int, size as int) == d);
    let top: bool = sign_set(r, size);
    match kind {
        ShiftKind::Shl => top != sign_set(d, size),
        ShiftKind::Shr => sign_set(d, size),
        ShiftKind::Sar => false,
        ShiftKind::Rol => top != (r % 2 == 1),
        ShiftKind::Ror => {
            let second: bool = match size {
                1 => (r / 0x40) % 2 == 1,
                2 => (r / 0x4000) % 2 == 1,
                4 => (r / 0x4000_0000) % 2 == 1,
                _ => (r / 0x4000_0000_0000_0000) % 2 == 1,
            };
            assert(second == ((4 * r / modulus(size as int)) % 2 == 1));
            top != second
        },
    }
}

/// Sets the flags of a shift or rotate of `d` by `c` places and returns its
/// result.
pub fn shift(regs: &mut RegFile, kind: ShiftKind, d: u64, c: u32, size: usize) -> (r: u64)
    requires
        d < modulus(size as int),
        0 < c < width(size as int),
    ensures
        r == shifted(kind, d as int, c as int, size as int),
        r < modulus(size as int),
        final(regs)@ == old(regs)@.flags(
            shift_rflags(kind, old(regs)@.rflags, d as int, c as int, size as int),
        ),
{
    let r: u64 = shift_value(kind, d, c, size);
    regs.set_flag(CF, carry_of(kind, d, c, size, r));
    proof {
        lemma_fits(r as int, size as int);
    }
    match kind {
        ShiftKind::Rol | ShiftKind::Ror => {},
        _ => {
            regs.set_flag(ZF, r == 0);
            regs.set_flag(SF, sign_set(r, size));
            regs.set_flag(PF, parity(r));
        },
    }
    if c == 1 {
        regs.set_flag(OF, overflow_of(kind, d, size, r));
    }
    r
}

/// Shifts and rotates.
pub fn exec_shift(mem: &mut GuestMemory, regs: &mut RegFile, i: &Instr, kind: ShiftKind) -> (r:
    Result<(), StepExecError>)
    requires
        old(mem).wf(),
        i.wf(),
    ensures
        same_layout(*old(mem), *final(mem)),
        reaches(after_shift(machine(*old(mem), old(regs)@), *i, kind), *final(mem), final(regs)@, r),
{
    let size: usize = match op_size_bytes(i, 0) {
        Ok(n) => n,
        Err(e) => {
            return Err(e);
        },
    };
    let d: u64 = match read_op(mem, regs, i, 0) {
        Ok(v) => truncate(v, size),
        Err(e) => {
            return Err(e);
        },
    };
    let count: u64 = match read_op(mem, regs, i, 1) {
        Ok(v) => v,
        Err(e) => {
            return Err(e);
        },
    };
    let c: u32 = ((count % 64) as u32) % width_of(size);
    if c == 0 {
        return Ok(());
    }
    let r: u64 = shift(regs, kind, d, c, size);
    write_op(mem, regs, i, 0, r)
}

} // verus!
