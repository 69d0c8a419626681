//! What shifts and rotates compute, and what their flags say.

use vstd::arithmetic::power2::pow2;
use vstd::prelude::*;

use crate::exec::alu_laws::{flags_of_result, result, works_on, wrote};
use crate::exec::laws::{
    adjust, carry, lemma_bits, operand_size, overflow, parity, parity_counts_ones, sign, zero,
};
use crate::exec::model::Machine;
use crate::exec::operand::after_operand;
use crate::exec::operand_laws::operands_read_back;
use crate::exec::shift::{
    after_shift, lemma_p2_split, lemma_quotient_bound, lemma_rotate_bound, p2, shift_carry,
    shift_count, shift_overflow, shift_rflags, shifted, width, ShiftKind,
};
use crate::exec::step::executed;
use crate::insn::instr::Instr;
use crate::insn::mnemonic;
use crate::jit::laws::lemma_reads_frame;
use crate::regs::{even_parity, flag_of, modulus, signed, trunc, with_flag, AF, CF, DF, OF, PF, SF, ZF};

verus! {

/// By how many places an operand of `n` bytes is moved: the low six bits of the count,
/// modulo the bits of the operand.
pub open spec fn places(y: u64, n: int) -> nat {
    (y as int % 64 % (8 * n)) as nat
}

/// Setting the flags of a shift.
proof fn lemma_shift_flags(f: u64, c: bool, z: bool, s: bool, p: bool)
    by (bit_vector)
    ensures
        ({
            let g = with_flag(with_flag(with_flag(with_flag(f, CF, c), ZF, z), SF, s), PF, p);
            &&& flag_of(g, CF) == c
            &&& flag_of(g, PF) == p
            &&& flag_of(g, AF) == flag_of(f, AF)
            &&& flag_of(g, ZF) == z
            &&& flag_of(g, SF) == s
            &&& flag_of(g, DF) == flag_of(f, DF)
            &&& flag_of(g, OF) == flag_of(f, OF)
        }),
{
}

/// Setting the overflow flag.
proof fn lemma_overflow_flag(f: u64, o: bool)
    by (bit_vector)
    ensures
        ({
            let g = with_flag(f, OF, o);
            &&& flag_of(g, CF) == flag_of(f, CF)
            &&& flag_of(g, PF) == flag_of(f, PF)
            &&& flag_of(g, AF) == flag_of(f, AF)
            &&& flag_of(g, ZF) == flag_of(f, ZF)
            &&& flag_of(g, SF) == flag_of(f, SF)
            &&& flag_of(g, DF) == flag_of(f, DF)
            &&& flag_of(g, OF) == o
        }),
{
}

/// The kinds of shift by their mnemonics.
spec fn kind_of(m: u16) -> Option<ShiftKind> {
    if m == mnemonic::SHL || m == mnemonic::SAL {
        Some(ShiftKind::Shl)
    } else if m == mnemonic::SHR {
        Some(ShiftKind::Shr)
    } else if m == mnemonic::SAR {
        Some(ShiftKind::Sar)
    } else if m == mnemonic::ROL {
        Some(ShiftKind::Rol)
    } else if m == mnemonic::ROR {
        Some(ShiftKind::Ror)
    } else {
        None
    }
}

/// Rotates leave the flags of the result alone.
spec fn rotates(kind: ShiftKind) -> bool {
    kind == ShiftKind::Rol || kind == ShiftKind::Ror
}

/// Moved numbers fit their operand.
proof fn lemma_shifted_fits(kind: ShiftKind, d: int, c: int, n: int)
    requires
        operand_size(n),
        0 <= d < modulus(n),
        0 < c < width(n),
    ensures
        0 <= shifted(kind, d, c, n) < modulus(n),
{
    lemma_p2_split(n, c);
    lemma_rotate_bound(d, n, c);
    lemma_rotate_bound(d, n, width(n) - c);
    assert(p2(c) * p2(width(n) - c) == modulus(n)) by (nonlinear_arith)
        requires
            p2(width(n) - c) * p2(c) == modulus(n),
    ;
    lemma_quotient_bound(d, p2(c), p2(width(n) - c));
    assert(d / p2(c) <= d);
}

/// What a shift by some places does in one step.
proof fn lemma_shift(
    s: Machine,
    i: Instr,
    ip: u64,
    tsc: u64,
    n: int,
    x: u64,
    y: u64,
    kind: ShiftKind,
)
    requires
        works_on(s, i, ip, tsc, n, x, y),
        kind_of(i.mnemonic) == Some(kind),
    ensures
        ({
            let t = executed(s, i, ip, tsc).0;
            let k = places(y, n) as int;
            let a = trunc(x as int, n);
            let v = shifted(kind, a, k, n);
            &&& k < 8 * n
            &&& width(n) == 8 * n
            &&& k == 0 ==> t == s.with_regs(s.regs.at(ip))
            &&& k > 0 ==> {
                &&& 0 <= v < modulus(n)
                &&& result(s, i, ip, tsc) == v
                &&& wrote(s, t, i, ip, n)
                &&& carry(t) == shift_carry(kind, a, k, n)
                &&& adjust(t) == adjust(s)
                &&& rotates(kind) ==> zero(t) == zero(s) && sign(t) == sign(s) && parity(t)
                    == parity(s)
                &&& !rotates(kind) ==> flags_of_result(t, v, n)
                &&& overflow(t) == if k == 1 {
                    shift_overflow(kind, a, n)
                } else {
                    overflow(s)
                }
            }
        }),
{
    let u = s.with_regs(s.regs.at(ip));
    lemma_reads_frame(s, i, 0, ip);
    lemma_reads_frame(s, i, 1, ip);
    assert(executed(s, i, ip, tsc) == after_shift(u, i, kind));
    let k = places(y, n) as int;
    assert(shift_count(y, n) == k);
    let a = trunc(x as int, n);
    let v = shifted(kind, a, k, n);
    if k > 0 {
        lemma_shifted_fits(kind, a, k, n);
        let f = s.regs.rflags;
        let g = shift_rflags(kind, f, a, k, n);
        let w = u.with_regs(u.regs.flags(g));
        assert(executed(s, i, ip, tsc) == after_operand(w, i, 0, v as u64));
        operands_read_back(w, i, 0, v as u64, n);
        vstd::arithmetic::div_mod::lemma_small_mod(v as nat, modulus(n) as nat);
        let c = shift_carry(kind, a, k, n);
        let o = shift_overflow(kind, a, n);
        crate::exec::laws::lemma_one(f, c);
        lemma_shift_flags(f, c, v == 0, 2 * v >= modulus(n), even_parity(v));
        let f1 = if rotates(kind) {
            with_flag(f, CF, c)
        } else {
            with_flag(
                with_flag(with_flag(with_flag(f, CF, c), ZF, v == 0), SF, 2 * v >= modulus(n)),
                PF,
                even_parity(v),
            )
        };
        lemma_overflow_flag(f1, o);
        lemma_bits(f);
        lemma_bits(f1);
        lemma_bits(g);
        parity_counts_ones(v);
    }
}

/// A shift to the left multiplies by a power of two: the product is the result and what
/// has left the operand, whose last bit is the carry. On a shift by one place overflow
/// says that the sign has changed.
pub proof fn left_shifts_multiply(s: Machine, i: Instr, ip: u64, tsc: u64, n: int, x: u64, y: u64)
    requires
        works_on(s, i, ip, tsc, n, x, y),
        i.mnemonic == mnemonic::SHL || i.mnemonic == mnemonic::SAL,
    ensures
        ({
            let t = executed(s, i, ip, tsc).0;
            let a = x as int % modulus(n);
            let r = result(s, i, ip, tsc);
            let k = places(y, n);
            let product = a * pow2(k);
            &&& k == 0 ==> t == s.with_regs(s.regs.at(ip))
            &&& k > 0 ==> {
                &&& product == product / modulus(n) * modulus(n) + r
                &&& carry(t) == (product / modulus(n) % 2 == 1)
                &&& overflow(t) == if k == 1 {
                    (signed(r, n) < 0) != (signed(a, n) < 0)
                } else {
                    overflow(s)
                }
                &&& adjust(t) == adjust(s)
                &&& flags_of_result(t, r, n)
                &&& wrote(s, t, i, ip, n)
            }
        }),
{
    lemma_shift(s, i, ip, tsc, n, x, y, ShiftKind::Shl);
    let k = places(y, n) as int;
    let a = trunc(x as int, n);
    if k > 0 {
        let m = modulus(n);
        let product = a * p2(k);
        vstd::arithmetic::div_mod::lemma_fundamental_div_mod(product, m);
        vstd::arithmetic::mul::lemma_mul_is_commutative(m, product / m);
        lemma_p2_split(n, k);
        lemma_cancel(a, p2(width(n) - k), p2(k));
        vstd::arithmetic::div_mod::lemma_small_mod(a as nat, m as nat);
        let r = shifted(ShiftKind::Shl, a, k, n);
        vstd::arithmetic::div_mod::lemma_small_mod(r as nat, m as nat);
    }
}

/// A common factor cancels.
proof fn lemma_cancel(a: int, q: int, p: int)
    requires
        a >= 0,
        q > 0,
        p > 0,
    ensures
        (a * p) / (q * p) == a / q,
{
    vstd::arithmetic::div_mod::lemma_fundamental_div_mod(a, q);
    let h = a / q;
    let l = a % q;
    assert(a * p == h * (q * p) + l * p) by (nonlinear_arith)
        requires
            a == q * h + l,
    ;
    assert(0 <= l * p < q * p) by (nonlinear_arith)
        requires
            0 <= l < q,
            p > 0,
    ;
    vstd::arithmetic::div_mod::lemma_fundamental_div_mod_converse(a * p, q * p, h, l * p);
}

/// The last bit that a shift to the right drops.
proof fn lemma_dropped(d: int, k: int)
    requires
        k > 0,
    ensures
        ((d / p2(k - 1)) % 2 == 1) == (2 * (d % p2(k)) >= p2(k)),
        p2(k) > 0,
{
    let p = p2(k - 1);
    vstd::arithmetic::power2::lemma_pow2_unfold(k as nat);
    vstd::arithmetic::power2::lemma_pow2_pos((k - 1) as nat);
    assert(p2(k) == 2 * p);
    vstd::arithmetic::div_mod::lemma_fundamental_div_mod(d, p);
    let q = d / p;
    let l = d % p;
    let h = q / 2;
    let b = q % 2;
    assert(d == (2 * p) * h + (b * p + l)) by (nonlinear_arith)
        requires
            d == p * q + l,
            q == 2 * h + b,
    ;
    assert(b == 0 || b == 1);
    assert(0 <= b * p + l < 2 * p) by (nonlinear_arith)
        requires
            b == 0 || b == 1,
            0 <= l < p,
    ;
    vstd::arithmetic::div_mod::lemma_fundamental_div_mod_converse(d, 2 * p, h, b * p + l);
}

/// Low bits do not depend on the sign.
proof fn lemma_signed_low(a: int, k: int, n: int)
    requires
        operand_size(n),
        0 <= a < modulus(n),
        0 < k < width(n),
    ensures
        signed(a, n) % p2(k) == a % p2(k),
{
    lemma_p2_split(n, k);
    vstd::arithmetic::div_mod::lemma_small_mod(a as nat, modulus(n) as nat);
    if signed(a, n) != a {
        let q = p2(width(n) - k);
        vstd::arithmetic::div_mod::lemma_mod_multiples_vanish(-q, a, p2(k));
        assert(p2(k) * (-q) + a == a - modulus(n)) by (nonlinear_arith)
            requires
                q * p2(k) == modulus(n),
        ;
    }
}

/// A shift to the right divides by a power of two and rounds down, an arithmetic one the
/// signed number. The carry says whether the remainder is half of the divisor or more.
pub proof fn right_shifts_divide(s: Machine, i: Instr, ip: u64, tsc: u64, n: int, x: u64, y: u64)
    requires
        works_on(s, i, ip, tsc, n, x, y),
        i.mnemonic == mnemonic::SHR || i.mnemonic == mnemonic::SAR,
    ensures
        ({
            let t = executed(s, i, ip, tsc).0;
            let a = x as int % modulus(n);
            let r = result(s, i, ip, tsc);
            let k = places(y, n);
            let (from, to) = if i.mnemonic == mnemonic::SHR {
                (a, r)
            } else {
                (signed(a, n), signed(r, n))
            };
            let rest = from - to * pow2(k);
            &&& k == 0 ==> t == s.with_regs(s.regs.at(ip))
            &&& k > 0 ==> {
                &&& 0 <= rest < pow2(k)
                &&& carry(t) == (2 * rest >= pow2(k))
                &&& overflow(t) == if k == 1 {
                    i.mnemonic == mnemonic::SHR && signed(a, n) < 0
                } else {
                    overflow(s)
                }
                &&& adjust(t) == adjust(s)
                &&& flags_of_result(t, r, n)
                &&& wrote(s, t, i, ip, n)
            }
        }),
{
    let kind = if i.mnemonic == mnemonic::SHR {
        ShiftKind::Shr
    } else {
        ShiftKind::Sar
    };
    lemma_shift(s, i, ip, tsc, n, x, y, kind);
    let k = places(y, n) as int;
    let a = trunc(x as int, n);
    if k > 0 {
        vstd::arithmetic::div_mod::lemma_small_mod(a as nat, modulus(n) as nat);
        lemma_dropped(a, k);
        let p = p2(k);
        let from = if kind == ShiftKind::Shr {
            a
        } else {
            signed(a, n)
        };
        lemma_signed_low(a, k, n);
        vstd::arithmetic::div_mod::lemma_fundamental_div_mod(from, p);
        vstd::arithmetic::mul::lemma_mul_is_commutative(p, from / p);
        let q = from / p;
        if kind == ShiftKind::Sar {
            let m = modulus(n);
            assert(-m <= 2 * q < m) by (nonlinear_arith)
                requires
                    -m <= 2 * from < m,
                    from == p * q + from % p,
                    0 <= from % p < p,
                    p >= 1,
            ;
            lemma_signed_again(q, n);
        }
    }
}

/// A signed number that fits is what its low bytes read as signed.
proof fn lemma_signed_again(q: int, n: int)
    requires
        operand_size(n),
        -modulus(n) <= 2 * q < modulus(n),
    ensures
        signed(trunc(q, n), n) == q,
{
    let m = modulus(n);
    if q >= 0 {
        vstd::arithmetic::div_mod::lemma_small_mod(q as nat, m as nat);
    } else {
        vstd::arithmetic::div_mod::lemma_fundamental_div_mod_converse(q, m, -1, q + m);
        vstd::arithmetic::div_mod::lemma_small_mod((q + m) as nat, m as nat);
    }
}

/// What a rotate by `k` places to the left makes of a number of `n` bytes: what leaves
/// it at the top comes back at the bottom.
pub open spec fn turned(a: int, k: nat, n: int) -> int {
    a * pow2(k) % modulus(n) + a * pow2(k) / modulus(n)
}

/// Rotating is done around the operand: to the left what leaves at the top comes back at
/// the bottom, and a rotate to the right is undone by one to the left. The carry is the
/// bit that came around last. No flag of the result is set.
pub proof fn rotates_turn_around(s: Machine, i: Instr, ip: u64, tsc: u64, n: int, x: u64, y: u64)
    requires
        works_on(s, i, ip, tsc, n, x, y),
        i.mnemonic == mnemonic::ROL || i.mnemonic == mnemonic::ROR,
    ensures
        ({
            let t = executed(s, i, ip, tsc).0;
            let a = x as int % modulus(n);
            let r = result(s, i, ip, tsc);
            let k = places(y, n);
            let top = 2 * r >= modulus(n);
            &&& k == 0 ==> t == s.with_regs(s.regs.at(ip))
            &&& k > 0 && i.mnemonic == mnemonic::ROL ==> {
                &&& r == turned(a, k, n)
                &&& carry(t) == (r % 2 == 1)
                &&& overflow(t) == if k == 1 {
                    top != (r % 2 == 1)
                } else {
                    overflow(s)
                }
            }
            &&& k > 0 && i.mnemonic == mnemonic::ROR ==> {
                &&& turned(r, k, n) == a
                &&& carry(t) == top
                &&& overflow(t) == if k == 1 {
                    top != (4 * r % (2 * modulus(n)) >= modulus(n))
                } else {
                    overflow(s)
                }
            }
            &&& k > 0 ==> {
                &&& adjust(t) == adjust(s)
                &&& zero(t) == zero(s)
                &&& sign(t) == sign(s)
                &&& parity(t) == parity(s)
                &&& wrote(s, t, i, ip, n)
            }
        }),
{
    let k = places(y, n) as int;
    let a = trunc(x as int, n);
    let m = modulus(n);
    if i.mnemonic == mnemonic::ROL {
        lemma_shift(s, i, ip, tsc, n, x, y, ShiftKind::Rol);
        if k > 0 {
            lemma_p2_split(n, k);
            lemma_cancel(a, p2(width(n) - k), p2(k));
        }
    } else {
        lemma_shift(s, i, ip, tsc, n, x, y, ShiftKind::Ror);
        if k > 0 {
            let r = shifted(ShiftKind::Ror, a, k, n);
            lemma_turned_back(a, k, n);
            let q = 4 * r / m;
            vstd::arithmetic::div_mod::lemma_fundamental_div_mod(4 * r, m);
            let l = 4 * r % m;
            let h = q / 2;
            let b = q % 2;
            assert(4 * r == (2 * m) * h + (b * m + l)) by (nonlinear_arith)
                requires
                    4 * r == m * q + l,
                    q == 2 * h + b,
            ;
            assert(0 <= b * m + l < 2 * m) by (nonlinear_arith)
                requires
                    b == 0 || b == 1,
                    0 <= l < m,
            ;
            vstd::arithmetic::div_mod::lemma_fundamental_div_mod_converse(
                4 * r,
                2 * m,
                h,
                b * m + l,
            );
        }
    }
}

/// A rotate to the left undoes one to the right.
proof fn lemma_turned_back(a: int, k: int, n: int)
    requires
        operand_size(n),
        0 <= a < modulus(n),
        0 < k < width(n),
    ensures
        turned(shifted(ShiftKind::Ror, a, k, n), k as nat, n) == a,
{
    let m = modulus(n);
    let p = p2(k);
    let q = p2(width(n) - k);
    lemma_p2_split(n, k);
    lemma_p2_split(n, width(n) - k);
    assert(p * q == m) by (nonlinear_arith)
        requires
            q * p == m,
    ;
    vstd::arithmetic::div_mod::lemma_fundamental_div_mod(a, p);
    let h = a / p;
    let l = a % p;
    assert(a * q == h * m + l * q) by (nonlinear_arith)
        requires
            a == p * h + l,
            p * q == m,
    ;
    assert(0 <= l * q < m) by (nonlinear_arith)
        requires
            0 <= l < p,
            p * q == m,
            q > 0,
    ;
    vstd::arithmetic::div_mod::lemma_fundamental_div_mod_converse(a * q, m, h, l * q);
    let r = h + l * q;
    assert(shifted(ShiftKind::Ror, a, k, n) == r);
    assert(r * p == l * m + h * p) by (nonlinear_arith)
        requires
            r == h + l * q,
            p * q == m,
    ;
    assert(h * p == p * h) by (nonlinear_arith);
    vstd::arithmetic::div_mod::lemma_fundamental_div_mod_converse(r * p, m, l, h * p);
}

} // verus!
