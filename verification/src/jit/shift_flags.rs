//! Expressions for the flags of shifts and rotates.

use vstd::prelude::*;

use crate::exec::alu::sign_extended;
use crate::exec::shift::{
    p2, shift_carry, shift_overflow, shift_rflags, shifted, width, ShiftKind,
};
use crate::jit::flags::{
    flag_set, flags_zs_pf, lemma_flag_order, lemma_masks, set_flag, sign_of, signs_differ,
};
use crate::jit::ir::{bin, iconst, select, un, value, BinOp, Expr, Live, UnOp};
use crate::regs::{even_parity, flag_of, modulus, trunc, with_flag, CF, OF, PF, SF, ZF};

verus! {

/// The width in bits of an operand of `size` bytes.
pub fn width_bits(size: u8) -> (w: u64)
    requires
        size == 1 || size == 2 || size == 4 || size == 8,
    ensures
        w == width(size as int),
{
    match size {
        1 => 8,
        2 => 16,
        4 => 32,
        _ => 64,
    }
}

/// The value `v` sign-extended from `size` bytes.
pub fn sext_to_i64(v: usize, size: u8) -> (r: Expr)
    requires
        size == 1 || size == 2 || size == 4 || size == 8,
    ensures
        forall|vals: Seq<u64>|
            #[trigger] r.eval(vals) == sign_extended(vals[v as int] as int, size as int),
        forall|n: int, l: Live| #[trigger] r.uses(n, l) == (v < n && l.allows(v as int)),
{
    match size {
        1 => un(UnOp::Sext8, value(v)),
        2 => un(UnOp::Sext16, value(v)),
        4 => un(UnOp::Sext32, value(v)),
        _ => value(v),
    }
}

/// Powers of two up to the width of an operand.
pub proof fn lemma_powers(size: int, c: int)
    requires
        size == 1 || size == 2 || size == 4 || size == 8,
        0 <= c <= width(size),
    ensures
        p2(width(size)) == modulus(size),
        p2(width(size) - c) * p2(c) == modulus(size),
        p2(c) > 0,
        p2(width(size) - c) > 0,
        p2(width(size) - 1) * 2 == modulus(size),
        p2(width(size) - 2) * 4 == modulus(size),
        p2(0) == 1,
        p2(1) == 2,
        p2(64) == 0x1_0000_0000_0000_0000,
{
    vstd::arithmetic::power2::lemma2_to64();
    vstd::arithmetic::power2::lemma2_to64_rest();
    vstd::arithmetic::power2::lemma_pow2_adds((width(size) - c) as nat, c as nat);
    vstd::arithmetic::power2::lemma_pow2_pos(c as nat);
    vstd::arithmetic::power2::lemma_pow2_pos((width(size) - c) as nat);
    vstd::arithmetic::power2::lemma_pow2_adds((width(size) - 1) as nat, 1);
    vstd::arithmetic::power2::lemma_pow2_adds((width(size) - 2) as nat, 2);
}

/// A number that fits is not cut down.
pub proof fn lemma_trunc_fits(x: int, size: int)
    requires
        0 <= x < modulus(size),
    ensures
        trunc(x, size) == x,
{
    vstd::arithmetic::div_mod::lemma_small_mod(x as nat, modulus(size) as nat);
}

/// The bit `h` of a number, where `h` is a power of two.
proof fn lemma_bit_of_remainder(x: int, h: int)
    requires
        0 <= x,
        0 < h,
    ensures
        (x % (2 * h)) / h == (x / h) % 2,
{
    let q = x / (2 * h);
    let r = x % (2 * h);
    vstd::arithmetic::div_mod::lemma_fundamental_div_mod(x, 2 * h);
    assert(x == r + (2 * q) * h) by (nonlinear_arith)
        requires
            x == (2 * h) * q + r,
    ;
    vstd::arithmetic::div_mod::lemma_hoist_over_denominator(r, 2 * q, h as nat);
    vstd::arithmetic::div_mod::lemma_fundamental_div_mod(r, h);
    let t = r / h;
    assert(0 <= t < 2) by (nonlinear_arith)
        requires
            r == h * t + r % h,
            0 <= r % h < h,
            0 <= r < 2 * h,
            0 < h,
    ;
}

/// The last bit that a shift left moves out.
proof fn lemma_shl_carry(d: int, c: int, size: int)
    requires
        size == 1 || size == 2 || size == 4 || size == 8,
        0 <= d < modulus(size),
        0 < c < width(size),
    ensures
        (trunc(d * p2(c - 1), 8) / p2(width(size) - 1)) % 2 == (d / p2(width(size) - c)) % 2,
{
    let w = width(size);
    lemma_powers(size, c - 1);
    lemma_powers(size, c);
    let p = p2(c - 1);
    let q = p2(w - c);
    vstd::arithmetic::power2::lemma_pow2_adds((w - c) as nat, (c - 1) as nat);
    assert(p2(w - 1) == q * p);
    let x = d * p;
    let h = q * p;
    assert(q * p == p * q && d * p == p * d) by (nonlinear_arith);
    vstd::arithmetic::div_mod::lemma_div_multiples_vanish_quotient(p, d, q);
    assert(x / h == d / q);
    assert(0 <= x) by (nonlinear_arith)
        requires
            x == d * p,
            0 <= d,
            0 < p,
    ;
    if size == 8 {
        lemma_bit_of_remainder(x, h);
        assert(trunc(x, 8) == x % (2 * h));
        assert(((x / h) % 2) % 2 == (x / h) % 2);
    } else {
        assert(x < 0x1_0000_0000_0000_0000) by {
            lemma_powers(4, 0);
            vstd::arithmetic::power2::lemma_pow2_strictly_increases((c - 1) as nat, 32);
            assert(p < 0x1_0000_0000) by {
                vstd::arithmetic::power2::lemma2_to64();
            }
            assert(d < 0x1_0000_0000);
            assert(d * p < 0x1_0000_0000_0000_0000) by (nonlinear_arith)
                requires
                    0 <= d < 0x1_0000_0000,
                    0 < p < 0x1_0000_0000,
            ;
        }
    }
}

/// The low bits of a sign-extended number are those of the number.
proof fn lemma_sar_carry(d: int, c: int, size: int)
    requires
        size == 1 || size == 2 || size == 4 || size == 8,
        0 <= d < modulus(size),
        0 < c < width(size),
    ensures
        (sign_extended(d, size) as int / p2(c - 1)) % 2 == (d / p2(c - 1)) % 2,
{
    let w = width(size);
    let m = modulus(size);
    let x = sign_extended(d, size) as int;
    lemma_powers(size, c - 1);
    lemma_powers(size, c);
    let p = p2(c - 1);
    lemma_trunc_fits(d, size);
    if 2 * d >= m && size != 8 {
        let k = 0x1_0000_0000_0000_0000int / m - 1;
        assert(x == d + k * m);
        // `m` is `p` times an even number.
        let q = p2(w - c);
        assert(p2(c) == 2 * p) by {
            vstd::arithmetic::power2::lemma_pow2_adds(1, (c - 1) as nat);
        }
        assert(m == q * (2 * p));
        let j = k * q * 2;
        assert(k * m == j * p) by (nonlinear_arith)
            requires
                m == q * (2 * p),
                j == k * q * 2,
        ;
        vstd::arithmetic::div_mod::lemma_hoist_over_denominator(d, j, p as nat);
        assert(x / p == d / p + j);
        assert(j % 2 == 0) by {
            vstd::arithmetic::div_mod::lemma_mod_multiples_basic(k * q, 2);
        }
        assert((d / p + j) % 2 == (d / p) % 2);
    } else {
        assert(x == d);
    }
}

/// The two highest bits of a number.
proof fn lemma_top_bits(r: int, size: int)
    requires
        size == 1 || size == 2 || size == 4 || size == 8,
        0 <= r < modulus(size),
    ensures
        (r / p2(width(size) - 1)) % 2 == 1 <==> 2 * r >= modulus(size),
        r / p2(width(size) - 2) == 4 * r / modulus(size),
{
    lemma_powers(size, 0);
    let h = p2(width(size) - 1);
    let g = p2(width(size) - 2);
    vstd::arithmetic::div_mod::lemma_fundamental_div_mod(r, h);
    let t = r / h;
    assert(0 <= t < 2 && (t == 1 <==> 2 * r >= 2 * h)) by (nonlinear_arith)
        requires
            r == h * t + r % h,
            0 <= r % h < h,
            0 <= r < 2 * h,
            0 < h,
    ;
    vstd::arithmetic::div_mod::lemma_div_multiples_vanish_quotient(4, r, g);
    assert(4 * g == g * 4) by (nonlinear_arith);
}

/// The lowest bit of the value of `x` shifted right by the constant `by`.
fn bit_at(x: Expr, by: u64) -> (r: Expr)
    requires
        by < 64,
    ensures
        forall|vals: Seq<u64>|
            #[trigger] r.eval(vals) == (x.eval(vals) as int / p2(by as int)) % 2,
        forall|n: int, l: Live| #[trigger] r.uses(n, l) == x.uses(n, l),
{
    let ghost x0 = x;
    let r = bin(BinOp::And, bin(BinOp::Ushr, x, iconst(by)), iconst(1));
    proof {
        assert forall|vals: Seq<u64>|
            #[trigger] r.eval(vals) == (x0.eval(vals) as int / p2(by as int)) % 2 by {
            let y = x0.eval(vals) as int;
            vstd::arithmetic::power2::lemma_pow2_pos(by as nat);
            lemma_quotient_fits(y, p2(by as int));
            lemma_masks((y / p2(by as int)) as u64);
        }
    }
    r
}

/// A quotient of a 64-bit number fits 64 bits.
pub proof fn lemma_quotient_fits(x: int, p: int)
    requires
        0 <= x <= u64::MAX,
        0 < p,
    ensures
        0 <= x / p <= u64::MAX,
{
    vstd::arithmetic::div_mod::lemma_div_is_ordered_by_denominator(x, 1, p);
    vstd::arithmetic::div_mod::lemma_div_basics(x);
    vstd::arithmetic::div_mod::lemma_div_pos_is_pos(x, p);
}

/// The condition for the carry flag, for a count that is not zero.
fn carry(kind: ShiftKind, dst: usize, res: usize, count: usize, size: u8) -> (r: Expr)
    requires
        size == 1 || size == 2 || size == 4 || size == 8,
    ensures
        forall|vals: Seq<u64>|
            #![trigger r.eval(vals)]
            ({
                let d = vals[dst as int] as int;
                let c = vals[count as int] as int;
                d < modulus(size as int) && 0 < c < width(size as int) && vals[res as int]
                    == shifted(kind, d, c, size as int) && vals[res as int] < modulus(size as int)
                    ==> (r.eval(vals) != 0) == shift_carry(kind, d, c, size as int)
            }),
        forall|n: int, l: Live|
            #[trigger] r.uses(n, l) <== (dst < n && l.allows(dst as int) && res < n && l.allows(
                res as int,
            ) && count < n && l.allows(count as int)),
{
    let less = bin(BinOp::Sub, value(count), iconst(1));
    let top: u64 = width_bits(size) - 1;
    match kind {
        ShiftKind::Shl => {
            let r = bit_at(bin(BinOp::Shl, value(dst), less), top);
            proof {
                assert forall|vals: Seq<u64>|
                    #![trigger r.eval(vals)]
                    ({
                        let d = vals[dst as int] as int;
                        let c = vals[count as int] as int;
                        d < modulus(size as int) && 0 < c < width(size as int) ==> (r.eval(vals)
                            != 0) == shift_carry(kind, d, c, size as int)
                    }) by {
                    let d = vals[dst as int] as int;
                    let c = vals[count as int] as int;
                    if d < modulus(size as int) && 0 < c < width(size as int) {
                        lemma_shl_carry(d, c, size as int);
                        lemma_trunc_fits(c - 1, 8);
                    }
                }
            }
            r
        },
        ShiftKind::Shr => {
            let r = bin(BinOp::And, bin(BinOp::Ushr, value(dst), less), iconst(1));
            proof {
                assert forall|vals: Seq<u64>|
                    #![trigger r.eval(vals)]
                    ({
                        let d = vals[dst as int] as int;
                        let c = vals[count as int] as int;
                        d < modulus(size as int) && 0 < c < width(size as int) ==> (r.eval(vals)
                            != 0) == shift_carry(kind, d, c, size as int)
                    }) by {
                    let d = vals[dst as int] as int;
                    let c = vals[count as int] as int;
                    if d < modulus(size as int) && 0 < c < width(size as int) {
                        lemma_trunc_fits(c - 1, 8);
                        lemma_powers(size as int, c - 1);
                        lemma_quotient_fits(d, p2(c - 1));
                        lemma_masks((d / p2(c - 1)) as u64);
                    }
                }
            }
            r
        },
        ShiftKind::Sar => {
            let r = bin(BinOp::And, bin(BinOp::Ushr, sext_to_i64(dst, size), less), iconst(1));
            proof {
                assert forall|vals: Seq<u64>|
                    #![trigger r.eval(vals)]
                    ({
                        let d = vals[dst as int] as int;
                        let c = vals[count as int] as int;
                        d < modulus(size as int) && 0 < c < width(size as int) ==> (r.eval(vals)
                            != 0) == shift_carry(kind, d, c, size as int)
                    }) by {
                    let d = vals[dst as int] as int;
                    let c = vals[count as int] as int;
                    if d < modulus(size as int) && 0 < c < width(size as int) {
                        lemma_trunc_fits(c - 1, 8);
                        lemma_powers(size as int, c - 1);
                        let x = sign_extended(d, size as int) as int;
                        lemma_quotient_fits(x, p2(c - 1));
                        lemma_masks((x / p2(c - 1)) as u64);
                        lemma_sar_carry(d, c, size as int);
                    }
                }
            }
            r
        },
        ShiftKind::Rol => {
            let r = bin(BinOp::And, value(res), iconst(1));
            proof {
                assert forall|vals: Seq<u64>| #[trigger] r.eval(vals) == vals[res as int] % 2 by {
                    lemma_masks(vals[res as int]);
                }
            }
            r
        },
        ShiftKind::Ror => {
            let r = bit_at(value(res), top);
            proof {
                assert forall|vals: Seq<u64>| vals[res as int] < modulus(size as int) implies (
                #[trigger] r.eval(vals) != 0) == (2 * vals[res as int] >= modulus(size as int)) by {
                    lemma_top_bits(vals[res as int] as int, size as int);
                }
            }
            r
        },
    }
}

/// The condition for the overflow flag, for a move by one place.
fn overflow(kind: ShiftKind, dst: usize, res: usize, size: u8) -> (r: Expr)
    requires
        size == 1 || size == 2 || size == 4 || size == 8,
    ensures
        forall|vals: Seq<u64>|
            #![trigger r.eval(vals)]
            ({
                let d = vals[dst as int] as int;
                d < modulus(size as int) && vals[res as int] == shifted(kind, d, 1, size as int)
                    && vals[res as int] < modulus(size as int) ==> (r.eval(vals) != 0)
                    == shift_overflow(kind, d, size as int)
            }),
        forall|n: int, l: Live|
            #[trigger] r.uses(n, l) <== (dst < n && l.allows(dst as int) && res < n && l.allows(
                res as int,
            )),
{
    let top: u64 = width_bits(size) - 1;
    match kind {
        ShiftKind::Shl => signs_differ(res, dst, size),
        ShiftKind::Shr => sign_of(dst, size),
        ShiftKind::Sar => iconst(0),
        ShiftKind::Rol => {
            let low = bin(BinOp::And, value(res), iconst(1));
            let r = bin(BinOp::Differ, bit_at(value(res), top), low);
            proof {
                assert forall|vals: Seq<u64>| vals[res as int] < modulus(size as int) implies (
                #[trigger] r.eval(vals) != 0) == ((2 * vals[res as int] >= modulus(size as int))
                    != (vals[res as int] % 2 == 1)) by {
                    lemma_top_bits(vals[res as int] as int, size as int);
                    lemma_masks(vals[res as int]);
                }
            }
            r
        },
        ShiftKind::Ror => {
            let r = bin(BinOp::Differ, bit_at(value(res), top), bit_at(value(res), top - 1));
            proof {
                assert forall|vals: Seq<u64>| vals[res as int] < modulus(size as int) implies (
                #[trigger] r.eval(vals) != 0) == ((2 * vals[res as int] >= modulus(size as int))
                    != ((4 * vals[res as int] / modulus(size as int)) % 2 == 1)) by {
                    lemma_top_bits(vals[res as int] as int, size as int);
                }
            }
            r
        },
    }
}

/// A moved operand fits its size.
pub proof fn lemma_shifted_fits(kind: ShiftKind, d: int, c: int, size: int)
    requires
        size == 1 || size == 2 || size == 4 || size == 8,
        0 <= d < modulus(size),
        0 < c < width(size),
    ensures
        0 <= shifted(kind, d, c, size) < modulus(size),
{
    lemma_powers(size, c);
    match kind {
        ShiftKind::Rol => {
            crate::exec::shift::lemma_rotate_bound(d, size, c);
        },
        ShiftKind::Ror => {
            crate::exec::shift::lemma_rotate_bound(d, size, width(size) - c);
        },
        ShiftKind::Shr => {
            vstd::arithmetic::div_mod::lemma_div_is_ordered_by_denominator(d, 1, p2(c));
            vstd::arithmetic::div_mod::lemma_div_basics(d);
            vstd::arithmetic::div_mod::lemma_div_pos_is_pos(d, p2(c));
        },
        _ => {},
    }
}

/// The flags of a move of the value `dst` by `count` places with the result
/// `res`. A count of zero changes nothing.
pub fn materialize_shift_flags(
    flags: usize,
    kind: ShiftKind,
    dst: usize,
    res: usize,
    count: usize,
    size: u8,
) -> (r: Expr)
    requires
        size == 1 || size == 2 || size == 4 || size == 8,
    ensures
        forall|vals: Seq<u64>|
            #![trigger r.eval(vals)]
            ({
                let d = vals[dst as int] as int;
                let c = vals[count as int] as int;
                d < modulus(size as int) && c < width(size as int) && (c > 0 ==> vals[res as int]
                    == shifted(kind, d, c, size as int)) ==> r.eval(vals) == if c == 0 {
                    vals[flags as int]
                } else {
                    shift_rflags(kind, vals[flags as int], d, c, size as int)
                }
            }),
        forall|n: int, l: Live|
            #[trigger] r.uses(n, l) <== (flags < n && l.allows(flags as int) && dst < n && l.allows(
                dst as int,
            ) && res < n && l.allows(res as int) && count < n && l.allows(count as int)),
{
    let f = set_flag(value(flags), CF, carry(kind, dst, res, count, size));
    let of = select(
        bin(BinOp::Equal, value(count), iconst(1)),
        overflow(kind, dst, res, size),
        flag_set(value(flags), OF),
    );
    let ghost of0 = of;
    let f = set_flag(f, OF, of);
    let rotate = matches!(kind, ShiftKind::Rol | ShiftKind::Ror);
    let f = if rotate {
        f
    } else {
        flags_zs_pf(f, res, size)
    };
    let zero = bin(BinOp::Equal, value(count), iconst(0));
    let ghost f1 = f;
    let r = select(zero, value(flags), f);
    proof {
        assert forall|vals: Seq<u64>|
            #![trigger r.eval(vals)]
            ({
                let d = vals[dst as int] as int;
                let c = vals[count as int] as int;
                d < modulus(size as int) && 0 < c < width(size as int) && vals[res as int]
                    == shifted(kind, d, c, size as int) ==> r.eval(vals) == shift_rflags(
                    kind,
                    vals[flags as int],
                    d,
                    c,
                    size as int,
                )
            }) by {
            let d = vals[dst as int] as int;
            let c = vals[count as int] as int;
            let rf = vals[flags as int];
            if d < modulus(size as int) && 0 < c < width(size as int) && vals[res as int]
                == shifted(kind, d, c, size as int) {
                lemma_shifted_fits(kind, d, c, size as int);
                let x = vals[res as int] as int;
                let cf = shift_carry(kind, d, c, size as int);
                let o = of0.eval(vals) != 0;
                let fc = with_flag(rf, CF, cf);
                lemma_flag_order(
                    rf,
                    cf,
                    even_parity(x),
                    false,
                    x == 0,
                    2 * x >= modulus(size as int),
                    o,
                );
                lemma_overflow_stays(rf, cf, x == 0, 2 * x >= modulus(size as int), even_parity(x));
                assert(r.eval(vals) == f1.eval(vals));
                if c == 1 {
                    assert(o == shift_overflow(kind, d, size as int));
                } else {
                    assert(o == flag_of(rf, OF));
                }
            }
        }
    }
    r
}

/// Replacing other flags and then the overflow flag by itself changes only the
/// others.
proof fn lemma_overflow_stays(f: u64, c: bool, z: bool, s: bool, p: bool)
    by (bit_vector)
    ensures
        with_flag(with_flag(f, CF, c), OF, f & OF != 0) == with_flag(f, CF, c),
        with_flag(
            with_flag(with_flag(with_flag(with_flag(f, CF, c), OF, f & OF != 0), ZF, z), SF, s),
            PF,
            p,
        ) == with_flag(with_flag(with_flag(with_flag(f, CF, c), ZF, z), SF, s), PF, p),
{
}

} // verus!
