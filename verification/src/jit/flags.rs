//! Expressions for the flags.

use vstd::prelude::*;

use crate::jit::ir::{bin, iconst, select, truth, value, BinOp, Expr, Live};
use crate::regs::{
    add_flags, even_parity, modulus, sub_flags, trunc, with_alu_flags, with_flag, with_logic_flags,
    AF, CF, OF, PF, SF, ZF,
};

verus! {

/// Masks cut numbers down.
pub proof fn lemma_masks(x: u64)
    by (bit_vector)
    ensures
        x & 0xff == x % 0x100,
        x & 0xffff == x % 0x1_0000,
        x & 0xffff_ffff == x % 0x1_0000_0000,
        x & 0x3f == x % 64,
        x & 1 == x % 2,
{
}

/// `x` cut down to `size` bytes.
pub fn mask_width(x: Expr, size: u8) -> (r: Expr)
    requires
        size == 1 || size == 2 || size == 4 || size == 8,
    ensures
        forall|vals: Seq<u64>|
            #[trigger] r.eval(vals) == trunc(x.eval(vals) as int, size as int),
        forall|n: int, l: Live| #[trigger] r.uses(n, l) == x.uses(n, l),
{
    if size >= 8 {
        return x;
    }
    let mask: u64 = if size == 4 {
        0xffff_ffff
    } else if size == 2 {
        0xffff
    } else {
        0xff
    };
    let ghost before = x;
    let r = bin(BinOp::And, x, iconst(mask));
    proof {
        assert forall|vals: Seq<u64>|
            #[trigger] r.eval(vals) == trunc(before.eval(vals) as int, size as int) by {
            lemma_masks(before.eval(vals));
        }
    }
    r
}

/// The sign bit of an integer of `size` bytes.
pub open spec fn sign_mask(size: int) -> u64 {
    (modulus(size) / 2) as u64
}

/// The sign bit of an integer of `size` bytes.
pub fn sign_bit(size: u8) -> (b: u64)
    requires
        size == 1 || size == 2 || size == 4 || size == 8,
    ensures
        b == sign_mask(size as int),
{
    match size {
        1 => 0x80,
        2 => 0x8000,
        4 => 0x8000_0000,
        _ => 0x8000_0000_0000_0000,
    }
}

/// A flag bit of `flags`, in its place.
pub fn flag_bit(flags: Expr, bit: u64) -> (r: Expr)
    ensures
        forall|vals: Seq<u64>| #[trigger] r.eval(vals) == flags.eval(vals) & bit,
        forall|n: int, l: Live| #[trigger] r.uses(n, l) == flags.uses(n, l),
{
    bin(BinOp::And, flags, iconst(bit))
}

/// One if the flag `bit` is set, else zero.
pub fn flag_set(flags: Expr, bit: u64) -> (r: Expr)
    ensures
        forall|vals: Seq<u64>| #[trigger] r.eval(vals) == truth(flags.eval(vals) & bit != 0),
        forall|n: int, l: Live| #[trigger] r.uses(n, l) == flags.uses(n, l),
{
    bin(BinOp::Differ, flag_bit(flags, bit), iconst(0))
}

/// The bit `bit` if the condition holds, else zero.
pub fn select_flag(cond: Expr, bit: u64) -> (r: Expr)
    ensures
        forall|vals: Seq<u64>|
            #[trigger] r.eval(vals) == (if cond.eval(vals) != 0 {
                bit
            } else {
                0
            }),
        forall|n: int, l: Live| #[trigger] r.uses(n, l) == cond.uses(n, l),
{
    select(cond, iconst(bit), iconst(0))
}

/// `flags` without the bits `bits`.
pub fn clear_flags(flags: Expr, bits: u64) -> (r: Expr)
    ensures
        forall|vals: Seq<u64>| #[trigger] r.eval(vals) == flags.eval(vals) & !bits,
        forall|n: int, l: Live| #[trigger] r.uses(n, l) == flags.uses(n, l),
{
    bin(BinOp::And, flags, iconst(!bits))
}

/// Clearing a bit and setting it anew.
proof fn lemma_replace(flags: u64, bit: u64, on: bool)
    by (bit_vector)
    ensures
        (flags & !bit) | (if on {
            bit
        } else {
            0u64
        }) == (if on {
            flags | bit
        } else {
            flags & !bit
        }),
{
}

/// `flags` with the bit `bit` set if the condition holds, and cleared otherwise.
pub fn set_flag(flags: Expr, bit: u64, cond: Expr) -> (r: Expr)
    ensures
        forall|vals: Seq<u64>|
            #[trigger] r.eval(vals) == with_flag(
                flags.eval(vals),
                bit,
                cond.eval(vals) != 0,
            ),
        forall|n: int, l: Live|
            #[trigger] r.uses(n, l) == (flags.uses(n, l) && cond.uses(n, l)),
{
    let ghost f = flags;
    let ghost c = cond;
    let r = bin(BinOp::Or, clear_flags(flags, bit), select_flag(cond, bit));
    proof {
        assert forall|vals: Seq<u64>|
            #[trigger] r.eval(vals) == with_flag(f.eval(vals), bit, c.eval(vals) != 0) by {
            lemma_replace(f.eval(vals), bit, c.eval(vals) != 0);
        }
    }
    r
}

/// Folding a byte onto itself leaves its parity in the lowest bit.
proof fn lemma_parity(x: u64)
    by (bit_vector)
    ensures
        ({
            let y: u64 = x & 0xff;
            let y1: u64 = y ^ (y >> 4);
            let y2: u64 = y1 ^ (y1 >> 2);
            let y3: u64 = y2 ^ (y2 >> 1);
            (y3 & 1 == 0) == ((x % 2 + (x / 2) % 2 + (x / 4) % 2 + (x / 8) % 2 + (x / 16) % 2 + (x
                / 32) % 2 + (x / 64) % 2 + (x / 128) % 2) % 2 == 0)
        }),
{
}

/// Shifts right divide.
proof fn lemma_small_shifts(x: u64)
    by (bit_vector)
    ensures
        x >> 1 == x / 2,
        x >> 2 == x / 4,
        x >> 4 == x / 16,
{
}

/// `x` with `x` shifted right by `by` folded onto it.
fn fold(x: Expr, copy: Expr, by: u64) -> (r: Expr)
    requires
        by == 1 || by == 2 || by == 4,
        forall|vals: Seq<u64>| #[trigger] copy.eval(vals) == x.eval(vals),
        forall|n: int, l: Live| #[trigger] copy.uses(n, l) == x.uses(n, l),
    ensures
        forall|vals: Seq<u64>|
            #[trigger] r.eval(vals) == x.eval(vals) ^ (x.eval(vals) >> by),
        forall|n: int, l: Live| #[trigger] r.uses(n, l) == x.uses(n, l),
{
    let ghost x0 = x;
    let r = bin(BinOp::Xor, x, bin(BinOp::Ushr, copy, iconst(by)));
    proof {
        vstd::arithmetic::power2::lemma2_to64();
        assert forall|vals: Seq<u64>|
            #[trigger] r.eval(vals) == x0.eval(vals) ^ (x0.eval(vals) >> by) by {
            lemma_small_shifts(x0.eval(vals));
        }
    }
    r
}

/// The low byte of the value `v`, folded once onto itself.
fn fold4(v: usize) -> (r: Expr)
    ensures
        forall|vals: Seq<u64>|
            #[trigger] r.eval(vals) == ({
                let y = vals[v as int] & 0xff;
                y ^ (y >> 4)
            }),
        forall|n: int, l: Live| #[trigger] r.uses(n, l) == (v < n && l.allows(v as int)),
{
    fold(bin(BinOp::And, value(v), iconst(0xff)), bin(BinOp::And, value(v), iconst(0xff)), 4)
}

/// The low byte of the value `v`, folded twice onto itself.
fn fold2(v: usize) -> (r: Expr)
    ensures
        forall|vals: Seq<u64>|
            #[trigger] r.eval(vals) == ({
                let y = vals[v as int] & 0xff;
                let y1 = y ^ (y >> 4);
                y1 ^ (y1 >> 2)
            }),
        forall|n: int, l: Live| #[trigger] r.uses(n, l) == (v < n && l.allows(v as int)),
{
    fold(fold4(v), fold4(v), 2)
}

/// One if the low byte of the value `v` has an even number of ones, else zero.
pub fn even_byte(v: usize) -> (r: Expr)
    ensures
        forall|vals: Seq<u64>|
            #[trigger] r.eval(vals) == truth(even_parity(vals[v as int] as int)),
        forall|n: int, l: Live| #[trigger] r.uses(n, l) == (v < n && l.allows(v as int)),
{
    let odd = bin(BinOp::And, fold(fold2(v), fold2(v), 1), iconst(1));
    let r = bin(BinOp::Equal, odd, iconst(0));
    proof {
        assert forall|vals: Seq<u64>|
            #[trigger] r.eval(vals) == truth(even_parity(vals[v as int] as int)) by {
            lemma_parity(vals[v as int]);
        }
    }
    r
}

/// Sign bits, and how the signs of operands and results compare.
proof fn lemma_signs(d: u64, s: u64, r: u64)
    by (bit_vector)
    ensures
        r < 0x100 ==> (r & 0x80 != 0) == (r >= 0x80),
        r < 0x1_0000 ==> (r & 0x8000 != 0) == (r >= 0x8000),
        r < 0x1_0000_0000 ==> (r & 0x8000_0000 != 0) == (r >= 0x8000_0000),
        (r & 0x8000_0000_0000_0000 != 0) == (r >= 0x8000_0000_0000_0000),
        d < 0x100 && s < 0x100 && r < 0x100 ==> (((d ^ r) & (s ^ r)) & 0x80 != 0) == ((d >= 0x80)
            == (s >= 0x80) && (r >= 0x80) != (d >= 0x80)),
        d < 0x1_0000 && s < 0x1_0000 && r < 0x1_0000 ==> (((d ^ r) & (s ^ r)) & 0x8000 != 0) == ((d
            >= 0x8000) == (s >= 0x8000) && (r >= 0x8000) != (d >= 0x8000)),
        d < 0x1_0000_0000 && s < 0x1_0000_0000 && r < 0x1_0000_0000 ==> (((d ^ r) & (s ^ r))
            & 0x8000_0000 != 0) == ((d >= 0x8000_0000) == (s >= 0x8000_0000) && (r >= 0x8000_0000)
            != (d >= 0x8000_0000)),
        (((d ^ r) & (s ^ r)) & 0x8000_0000_0000_0000 != 0) == ((d >= 0x8000_0000_0000_0000) == (s
            >= 0x8000_0000_0000_0000) && (r >= 0x8000_0000_0000_0000) != (d
            >= 0x8000_0000_0000_0000)),
        d < 0x100 && s < 0x100 && r < 0x100 ==> (((d ^ s) & (d ^ r)) & 0x80 != 0) == ((d >= 0x80)
            != (s >= 0x80) && (r >= 0x80) != (d >= 0x80)),
        d < 0x1_0000 && s < 0x1_0000 && r < 0x1_0000 ==> (((d ^ s) & (d ^ r)) & 0x8000 != 0) == ((d
            >= 0x8000) != (s >= 0x8000) && (r >= 0x8000) != (d >= 0x8000)),
        d < 0x1_0000_0000 && s < 0x1_0000_0000 && r < 0x1_0000_0000 ==> (((d ^ s) & (d ^ r))
            & 0x8000_0000 != 0) == ((d >= 0x8000_0000) != (s >= 0x8000_0000) && (r >= 0x8000_0000)
            != (d >= 0x8000_0000)),
        (((d ^ s) & (d ^ r)) & 0x8000_0000_0000_0000 != 0) == ((d >= 0x8000_0000_0000_0000) != (s
            >= 0x8000_0000_0000_0000) && (r >= 0x8000_0000_0000_0000) != (d
            >= 0x8000_0000_0000_0000)),
{
}

/// How the sign bit of a difference of bits compares two signs.
proof fn lemma_sign_differs(d: u64, r: u64)
    by (bit_vector)
    ensures
        d < 0x100 && r < 0x100 ==> ((r ^ d) & 0x80 != 0) == ((r >= 0x80) != (d >= 0x80)),
        d < 0x1_0000 && r < 0x1_0000 ==> ((r ^ d) & 0x8000 != 0) == ((r >= 0x8000) != (d
            >= 0x8000)),
        d < 0x1_0000_0000 && r < 0x1_0000_0000 ==> ((r ^ d) & 0x8000_0000 != 0) == ((r
            >= 0x8000_0000) != (d >= 0x8000_0000)),
        ((r ^ d) & 0x8000_0000_0000_0000 != 0) == ((r >= 0x8000_0000_0000_0000) != (d
            >= 0x8000_0000_0000_0000)),
{
}

/// The carry out of bit 3.
proof fn lemma_adjust(d: u64, s: u64, r: u64)
    by (bit_vector)
    ensures
        (r % 32 == d % 32 + s % 32 || r % 32 + 32 == d % 32 + s % 32) ==> (((d ^ s) ^ r) & 0x10
            != 0) == (d % 16 + s % 16 >= 16),
        (d % 32 == r % 32 + s % 32 || d % 32 + 32 == r % 32 + s % 32) ==> (((d ^ s) ^ r) & 0x10
            != 0) == (d % 16 < s % 16),
{
}

/// One if the sign bit of the value `v`, an integer of `size` bytes, is set.
pub fn sign_of(v: usize, size: u8) -> (r: Expr)
    requires
        size == 1 || size == 2 || size == 4 || size == 8,
    ensures
        forall|vals: Seq<u64>|
            vals[v as int] < modulus(size as int) ==> #[trigger] r.eval(vals) == truth(
                2 * vals[v as int] >= modulus(size as int),
            ),
        forall|n: int, l: Live| #[trigger] r.uses(n, l) == (v < n && l.allows(v as int)),
{
    let r = bin(BinOp::Differ, bin(BinOp::And, value(v), iconst(sign_bit(size))), iconst(0));
    proof {
        assert forall|vals: Seq<u64>| vals[v as int] < modulus(size as int) implies #[trigger] r.eval(
            vals,
        ) == truth(2 * vals[v as int] >= modulus(size as int)) by {
            lemma_signs(0, 0, vals[v as int]);
        }
    }
    r
}

/// One if the signs of two values, integers of `size` bytes, differ.
pub fn signs_differ(a: usize, b: usize, size: u8) -> (r: Expr)
    requires
        size == 1 || size == 2 || size == 4 || size == 8,
    ensures
        forall|vals: Seq<u64>|
            vals[a as int] < modulus(size as int) && vals[b as int] < modulus(size as int)
                ==> #[trigger] r.eval(vals) == truth(
                (2 * vals[a as int] >= modulus(size as int)) != (2 * vals[b as int] >= modulus(
                    size as int,
                )),
            ),
        forall|n: int, l: Live|
            #[trigger] r.uses(n, l) == (a < n && l.allows(a as int) && b < n && l.allows(b as int)),
{
    let x = bin(BinOp::Xor, value(a), value(b));
    let r = bin(BinOp::Differ, bin(BinOp::And, x, iconst(sign_bit(size))), iconst(0));
    proof {
        assert forall|vals: Seq<u64>|
            vals[a as int] < modulus(size as int) && vals[b as int] < modulus(
                size as int,
            ) implies #[trigger] r.eval(vals) == truth(
            (2 * vals[a as int] >= modulus(size as int)) != (2 * vals[b as int] >= modulus(
                size as int,
            )),
        ) by {
            lemma_sign_differs(vals[b as int], vals[a as int]);
        }
    }
    r
}

/// `flags` with the zero, sign and parity flags of the result `r`.
pub open spec fn with_result_flags(rflags: u64, r: int, size: int) -> u64 {
    with_flag(
        with_flag(with_flag(rflags, ZF, r == 0), SF, 2 * r >= modulus(size)),
        PF,
        even_parity(r),
    )
}

/// `flags` with the zero, sign and parity flags of the value `v`, an integer of
/// `size` bytes.
pub fn flags_zs_pf(flags: Expr, v: usize, size: u8) -> (r: Expr)
    requires
        size == 1 || size == 2 || size == 4 || size == 8,
    ensures
        forall|vals: Seq<u64>|
            vals[v as int] < modulus(size as int) ==> #[trigger] r.eval(vals) == with_result_flags(
                flags.eval(vals),
                vals[v as int] as int,
                size as int,
            ),
        forall|n: int, l: Live|
            #[trigger] r.uses(n, l) == (flags.uses(n, l) && v < n && l.allows(v as int)),
{
    let zero = bin(BinOp::Equal, value(v), iconst(0));
    let f = set_flag(flags, ZF, zero);
    let f = set_flag(f, SF, sign_of(v, size));
    set_flag(f, PF, even_byte(v))
}

/// The order in which flags are replaced does not matter.
pub proof fn lemma_flag_order(f: u64, c: bool, p: bool, a: bool, z: bool, s: bool, o: bool)
    by (bit_vector)
    ensures
        with_flag(
            with_flag(with_flag(with_flag(with_flag(f, CF, c), OF, o), ZF, z), SF, s),
            PF,
            p,
        ) == with_flag(
            with_flag(with_flag(with_flag(with_flag(f, CF, c), PF, p), ZF, z), SF, s),
            OF,
            o,
        ),
        with_flag(
            with_flag(
                with_flag(with_flag(with_flag(with_flag(f, CF, c), ZF, z), SF, s), PF, p),
                OF,
                o,
            ),
            AF,
            a,
        ) == with_flag(
            with_flag(
                with_flag(with_flag(with_flag(with_flag(f, CF, c), PF, p), AF, a), ZF, z),
                SF,
                s,
            ),
            OF,
            o,
        ),
        with_flag(
            with_flag(with_flag(with_flag(with_flag(f, CF, c), OF, o), ZF, z), SF, s),
            PF,
            p,
        ) == with_flag(
            with_flag(with_flag(with_flag(with_flag(f, CF, c), ZF, z), SF, s), PF, p),
            OF,
            o,
        ),
        with_flag(f, OF, f & OF != 0) == f,
        with_flag(f, CF, f & CF != 0) == f,
{
}

/// The flags after a bitwise operation whose result is the value `v`.
pub fn flags_logic(flags: Expr, v: usize, size: u8) -> (r: Expr)
    requires
        size == 1 || size == 2 || size == 4 || size == 8,
    ensures
        forall|vals: Seq<u64>|
            vals[v as int] < modulus(size as int) ==> #[trigger] r.eval(vals) == with_logic_flags(
                flags.eval(vals),
                vals[v as int] as int,
                size as int,
            ),
        forall|n: int, l: Live|
            #[trigger] r.uses(n, l) == (flags.uses(n, l) && v < n && l.allows(v as int)),
{
    let ghost f0 = flags;
    let f = set_flag(flags, CF, iconst(0));
    let f = set_flag(f, OF, iconst(0));
    let r = flags_zs_pf(f, v, size);
    proof {
        assert forall|vals: Seq<u64>| vals[v as int] < modulus(size as int) implies #[trigger] r.eval(
            vals,
        ) == with_logic_flags(f0.eval(vals), vals[v as int] as int, size as int) by {
            let x = vals[v as int] as int;
            lemma_flag_order(
                f0.eval(vals),
                false,
                even_parity(x),
                false,
                x == 0,
                2 * x >= modulus(size as int),
                false,
            );
        }
    }
    r
}

/// What is known of a sum or difference cut down to the operand size.
proof fn lemma_low_bits(x: int, size: int)
    requires
        size == 1 || size == 2 || size == 4 || size == 8,
    ensures
        trunc(x, size) % 32 == x % 32,
{
    if size == 1 {
        vstd::arithmetic::div_mod::lemma_mod_mod(x, 32, 8);
    } else if size == 2 {
        vstd::arithmetic::div_mod::lemma_mod_mod(x, 32, 0x800);
    } else if size == 4 {
        vstd::arithmetic::div_mod::lemma_mod_mod(x, 32, 0x800_0000);
    } else {
        vstd::arithmetic::div_mod::lemma_mod_mod(x, 32, 0x800_0000_0000_0000);
    }
}

/// The adjust flag of a sum, from bits.
proof fn lemma_add_adjust(d: u64, s: u64, r: u64, size: int)
    requires
        size == 1 || size == 2 || size == 4 || size == 8,
        r == trunc(d + s, size),
    ensures
        (((d ^ s) ^ r) & 0x10 != 0) == (d % 16 + s % 16 >= 16),
{
    lemma_low_bits(d + s, size);
    assert(r % 32 == (d + s) % 32);
    assert(r % 32 == d % 32 + s % 32 || r % 32 + 32 == d % 32 + s % 32);
    lemma_adjust(d, s, r);
}

/// The adjust flag of a difference, from bits.
proof fn lemma_sub_adjust(d: u64, s: u64, r: u64, size: int)
    requires
        size == 1 || size == 2 || size == 4 || size == 8,
        r == trunc(d - s, size),
    ensures
        (((d ^ s) ^ r) & 0x10 != 0) == (d % 16 < s % 16),
{
    lemma_low_bits(d - s, size);
    assert(r % 32 == (d - s) % 32);
    assert(d % 32 == r % 32 + s % 32 || d % 32 + 32 == r % 32 + s % 32);
    lemma_adjust(d, s, r);
}

/// The overflow flag of a sum, from signs.
proof fn lemma_add_overflow(d: int, s: int, r: int, m: int)
    requires
        m % 2 == 0,
        0 <= d < m,
        0 <= s < m,
        r == d + s || r == d + s - m,
        0 <= r < m,
    ensures
        ((2 * d >= m) == (2 * s >= m) && (2 * r >= m) != (2 * d >= m)) == ((if 2 * d >= m {
            d - m
        } else {
            d
        }) + (if 2 * s >= m {
            s - m
        } else {
            s
        }) != (if 2 * r >= m {
            r - m
        } else {
            r
        })),
{
}

/// The carry, overflow and adjust flags of a sum, from bits.
proof fn lemma_add_bits(d: u64, s: u64, r: u64, size: int)
    requires
        size == 1 || size == 2 || size == 4 || size == 8,
        d < modulus(size),
        s < modulus(size),
        r == trunc(d + s, size),
    ensures
        (((d ^ r) & (s ^ r)) & sign_mask(size) != 0) == add_flags(d as int, s as int, size).of,
        (((d ^ s) ^ r) & 0x10 != 0) == add_flags(d as int, s as int, size).af,
        (r < d) == add_flags(d as int, s as int, size).cf,
{
    lemma_add_adjust(d, s, r, size);
    let m = modulus(size);
    assert(r == d + s || r == d + s - m);
    assert(trunc(r as int, size) == r && trunc(d as int, size) == d && trunc(s as int, size) == s);
    lemma_add_overflow(d as int, s as int, r as int, m);
    assert((((d ^ r) & (s ^ r)) & sign_mask(size) != 0) == ((2 * d >= m) == (2 * s >= m) && (2 * r
        >= m) != (2 * d >= m))) by {
        lemma_signs(d, s, r);
    }
}

/// The overflow and adjust flags of a difference, from bits.
proof fn lemma_sub_bits(d: u64, s: u64, r: u64, size: int)
    requires
        size == 1 || size == 2 || size == 4 || size == 8,
        d < modulus(size),
        s < modulus(size),
        r == trunc(d - s, size),
    ensures
        (((d ^ s) & (d ^ r)) & sign_mask(size) != 0) == sub_flags(d as int, s as int, size).of,
        (((d ^ s) ^ r) & 0x10 != 0) == sub_flags(d as int, s as int, size).af,
{
    lemma_sub_adjust(d, s, r, size);
    let m = modulus(size);
    assert(r == d - s || r == d - s + m);
    assert(trunc(r as int, size) == r && trunc(d as int, size) == d && trunc(s as int, size) == s);
    assert((((d ^ s) & (d ^ r)) & sign_mask(size) != 0) == ((2 * d >= m) != (2 * s >= m) && (2 * r
        >= m) != (2 * d >= m))) by {
        lemma_signs(d, s, r);
    }
}

/// `flags` with all six flags, given the conditions for carry, overflow and
/// adjust, and the result.
fn flags_all(flags: Expr, cf: Expr, of: Expr, af: Expr, v: usize, size: u8) -> (r: Expr)
    requires
        size == 1 || size == 2 || size == 4 || size == 8,
    ensures
        forall|vals: Seq<u64>|
            vals[v as int] < modulus(size as int) ==> #[trigger] r.eval(vals) == with_alu_flags(
                flags.eval(vals),
                (crate::regs::AluFlags {
                    cf: cf.eval(vals) != 0,
                    pf: even_parity(vals[v as int] as int),
                    af: af.eval(vals) != 0,
                    zf: vals[v as int] == 0,
                    sf: 2 * vals[v as int] >= modulus(size as int),
                    of: of.eval(vals) != 0,
                }),
            ),
        forall|n: int, l: Live|
            #[trigger] r.uses(n, l) == (flags.uses(n, l) && cf.uses(n, l) && of.uses(n, l)
                && af.uses(n, l) && v < n && l.allows(v as int)),
{
    let ghost f0 = flags;
    let ghost c = cf;
    let ghost o = of;
    let ghost a = af;
    let f = set_flag(flags, CF, cf);
    let f = flags_zs_pf(f, v, size);
    let f = set_flag(f, OF, of);
    let r = set_flag(f, AF, af);
    proof {
        assert forall|vals: Seq<u64>| vals[v as int] < modulus(size as int) implies #[trigger] r.eval(
            vals,
        ) == with_alu_flags(
            f0.eval(vals),
            (crate::regs::AluFlags {
                cf: c.eval(vals) != 0,
                pf: even_parity(vals[v as int] as int),
                af: a.eval(vals) != 0,
                zf: vals[v as int] == 0,
                sf: 2 * vals[v as int] >= modulus(size as int),
                of: o.eval(vals) != 0,
            }),
        ) by {
            let x = vals[v as int] as int;
            lemma_flag_order(
                f0.eval(vals),
                c.eval(vals) != 0,
                even_parity(x),
                a.eval(vals) != 0,
                x == 0,
                2 * x >= modulus(size as int),
                o.eval(vals) != 0,
            );
        }
    }
    r
}

/// The operands and the result of a sum at `size` bytes.
pub open spec fn is_sum(vals: Seq<u64>, d: usize, s: usize, r: usize, size: int) -> bool {
    &&& vals[d as int] < modulus(size)
    &&& vals[s as int] < modulus(size)
    &&& vals[r as int] == trunc(vals[d as int] + vals[s as int], size)
}

/// The operands and the result of a difference at `size` bytes.
pub open spec fn is_difference(vals: Seq<u64>, d: usize, s: usize, r: usize, size: int) -> bool {
    &&& vals[d as int] < modulus(size)
    &&& vals[s as int] < modulus(size)
    &&& vals[r as int] == trunc(vals[d as int] - vals[s as int], size)
}

/// The condition for the adjust flag, for operands `d` and `s` and the result `v`.
fn adjust(d: usize, s: usize, v: usize) -> (r: Expr)
    ensures
        forall|vals: Seq<u64>|
            #[trigger] r.eval(vals) == truth(
                ((vals[d as int] ^ vals[s as int]) ^ vals[v as int]) & 0x10 != 0,
            ),
        forall|n: int, l: Live|
            #[trigger] r.uses(n, l) == (d < n && l.allows(d as int) && s < n && l.allows(s as int)
                && v < n && l.allows(v as int)),
{
    let x = bin(BinOp::Xor, bin(BinOp::Xor, value(d), value(s)), value(v));
    bin(BinOp::Differ, bin(BinOp::And, x, iconst(0x10)), iconst(0))
}

/// The flags after the sum of the values `d` and `s` with the result `v`.
pub fn flags_add(flags: Expr, d: usize, s: usize, v: usize, size: u8) -> (r: Expr)
    requires
        size == 1 || size == 2 || size == 4 || size == 8,
    ensures
        forall|vals: Seq<u64>|
            is_sum(vals, d, s, v, size as int) ==> #[trigger] r.eval(vals) == with_alu_flags(
                flags.eval(vals),
                add_flags(vals[d as int] as int, vals[s as int] as int, size as int),
            ),
        forall|n: int, l: Live|
            #[trigger] r.uses(n, l) == (flags.uses(n, l) && d < n && l.allows(d as int) && s < n
                && l.allows(s as int) && v < n && l.allows(v as int)),
{
    let ghost f0 = flags;
    let carry = bin(BinOp::Below, value(v), value(d));
    let dr = bin(BinOp::Xor, value(d), value(v));
    let sr = bin(BinOp::Xor, value(s), value(v));
    let both = bin(BinOp::And, bin(BinOp::And, dr, sr), iconst(sign_bit(size)));
    let overflow = bin(BinOp::Differ, both, iconst(0));
    let r = flags_all(flags, carry, overflow, adjust(d, s, v), v, size);
    proof {
        assert forall|vals: Seq<u64>| is_sum(vals, d, s, v, size as int) implies #[trigger] r.eval(
            vals,
        ) == with_alu_flags(
            f0.eval(vals),
            add_flags(vals[d as int] as int, vals[s as int] as int, size as int),
        ) by {
            lemma_add_bits(vals[d as int], vals[s as int], vals[v as int], size as int);
        }
    }
    r
}

/// The flags after the difference of the values `d` and `s` with the result `v`.
pub fn flags_sub(flags: Expr, d: usize, s: usize, v: usize, size: u8) -> (r: Expr)
    requires
        size == 1 || size == 2 || size == 4 || size == 8,
    ensures
        forall|vals: Seq<u64>|
            is_difference(vals, d, s, v, size as int) ==> #[trigger] r.eval(vals)
                == with_alu_flags(
                flags.eval(vals),
                sub_flags(vals[d as int] as int, vals[s as int] as int, size as int),
            ),
        forall|n: int, l: Live|
            #[trigger] r.uses(n, l) == (flags.uses(n, l) && d < n && l.allows(d as int) && s < n
                && l.allows(s as int) && v < n && l.allows(v as int)),
{
    let ghost f0 = flags;
    let carry = bin(BinOp::Below, value(d), value(s));
    let ds = bin(BinOp::Xor, value(d), value(s));
    let dr = bin(BinOp::Xor, value(d), value(v));
    let both = bin(BinOp::And, bin(BinOp::And, ds, dr), iconst(sign_bit(size)));
    let overflow = bin(BinOp::Differ, both, iconst(0));
    let r = flags_all(flags, carry, overflow, adjust(d, s, v), v, size);
    proof {
        assert forall|vals: Seq<u64>|
            is_difference(vals, d, s, v, size as int) implies #[trigger] r.eval(vals)
            == with_alu_flags(
            f0.eval(vals),
            sub_flags(vals[d as int] as int, vals[s as int] as int, size as int),
        ) by {
            lemma_sub_bits(vals[d as int], vals[s as int], vals[v as int], size as int);
        }
    }
    r
}

} // verus!
