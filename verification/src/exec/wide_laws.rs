//! Products and quotients of double width, single bits, and sign extension of the
//! accumulator.

use vstd::arithmetic::power2::pow2;
use vstd::prelude::*;

use crate::exec::access::{after_store, loaded};
use crate::exec::alu_laws::{result, too_large, works_on, works_on_one, wrote};
use crate::exec::laws::{
    adjust, carry, direction, lemma_bits, operand_size, overflow, parity, sign, zero,
};
use crate::exec::logic::{after_bit, bit_changed, BitOp};
use crate::exec::model::{Fault, Machine};
use crate::exec::muldiv::{
    abs, after_div, after_imul, after_mul, dividend, division_identity, quotient, remainder,
    signed_overflow, signed_wide, with_carry_overflow, with_division, with_product,
};
use crate::exec::operand::{address_of, after_operand, operand_value};
use crate::exec::operand_laws::{operands_read_back, registers_read_back, stored_numbers_load};
use crate::exec::step::executed;
use crate::insn::instr::Instr;
use crate::insn::{kind, mnemonic};
use crate::jit::laws::lemma_reads_frame;
use crate::regs::{
    flag_of, modulus, signed, trunc, with_flag, Reg, Regs, AF, CF, DF, OF, PF, SF, ZF,
};

verus! {

/// The number of `2n` bytes that the accumulator and the data register hold together; one
/// of two bytes is in the accumulator alone.
pub open spec fn double(regs: Regs, n: int) -> int {
    if n == 1 {
        regs.gpr[0] as int % 0x1_0000
    } else {
        regs.gpr[2] as int % modulus(n) * modulus(n) + regs.gpr[0] as int % modulus(n)
    }
}

/// Only the accumulator and the data register differ, and flags.
pub open spec fn pair_changed(s: Machine, t: Machine, ip: u64) -> bool {
    &&& t.mem == s.mem
    &&& t.regs.rip == ip
    &&& t.regs.xmm == s.regs.xmm
    &&& t.regs.gpr.len() == 16
    &&& forall|k: int| 0 <= k < 16 && k != 0 && k != 2 ==> #[trigger] t.regs.gpr[k] == s.regs.gpr[k]
}

/// The other flags of arithmetic stay.
pub open spec fn other_flags_stay(s: Machine, t: Machine) -> bool {
    &&& zero(t) == zero(s)
    &&& sign(t) == sign(s)
    &&& parity(t) == parity(s)
    &&& adjust(t) == adjust(s)
    &&& direction(t) == direction(s)
}

/// Setting the carry and the overflow flag.
proof fn lemma_two_flags(f: u64, on: bool)
    by (bit_vector)
    ensures
        ({
            let g = with_flag(with_flag(f, CF, on), OF, on);
            &&& flag_of(g, CF) == on
            &&& flag_of(g, OF) == on
            &&& flag_of(g, PF) == flag_of(f, PF)
            &&& flag_of(g, AF) == flag_of(f, AF)
            &&& flag_of(g, ZF) == flag_of(f, ZF)
            &&& flag_of(g, SF) == flag_of(f, SF)
            &&& flag_of(g, DF) == flag_of(f, DF)
        }),
{
}

/// The accumulator and the data register after both were written.
proof fn lemma_pair(regs: Regs, low: u64, high: u64, n: int)
    requires
        regs.gpr.len() == 16,
        n == 2 || n == 4 || n == 8,
        low < modulus(n),
        high < modulus(n),
    ensures
        ({
            let after = if n == 2 {
                regs.set_reg(Reg::Word(0), low)->0.set_reg(Reg::Word(2), high)->0
            } else if n == 4 {
                regs.set_reg(Reg::Dword(0), low)->0.set_reg(Reg::Dword(2), high)->0
            } else {
                regs.set(0, low).set(2, high)
            };
            &&& after.gpr[0] as int % modulus(n) == low
            &&& after.gpr[2] as int % modulus(n) == high
            &&& after.gpr.len() == 16
            &&& after.rip == regs.rip
            &&& after.xmm == regs.xmm
            &&& after.rflags == regs.rflags
            &&& forall|k: int|
                0 <= k < 16 && k != 0 && k != 2 ==> #[trigger] after.gpr[k] == regs.gpr[k]
        }),
{
    vstd::arithmetic::div_mod::lemma_small_mod(low as nat, modulus(n) as nat);
    vstd::arithmetic::div_mod::lemma_small_mod(high as nat, modulus(n) as nat);
    let (a, d) = if n == 2 {
        (Reg::Word(0), Reg::Word(2))
    } else if n == 4 {
        (Reg::Dword(0), Reg::Dword(2))
    } else {
        (Reg::Qword(0), Reg::Qword(2))
    };
    registers_read_back(regs, a, low, 0);
    let mid = regs.set_reg(a, low)->0;
    registers_read_back(mid, d, high, 0);
    registers_read_back(mid, d, high, 2);
    let after = mid.set_reg(d, high)->0;
    assert forall|k: int| 0 <= k < 16 && k != 0 && k != 2 implies #[trigger] after.gpr[k]
        == regs.gpr[k] by {
        registers_read_back(regs, a, low, k);
        registers_read_back(mid, d, high, k);
    }
}

/// What the pair of registers holds after a product was written to it.
proof fn lemma_product(regs: Regs, product: int, n: int)
    requires
        regs.gpr.len() == 16,
        operand_size(n),
    ensures
        ({
            let after = with_product(regs, product, n);
            &&& after.gpr.len() == 16
            &&& after.rip == regs.rip
            &&& after.xmm == regs.xmm
            &&& after.rflags == regs.rflags
            &&& forall|k: int|
                0 <= k < 16 && k != 0 && k != 2 ==> #[trigger] after.gpr[k] == regs.gpr[k]
            &&& double(after, n) == product % (modulus(n) * modulus(n))
            &&& n > 1 ==> after.gpr[0] as int % modulus(n) == product % modulus(n)
            &&& n > 1 ==> after.gpr[2] as int % modulus(n) == product / modulus(n) % modulus(n)
        }),
{
    let m = modulus(n);
    if n == 1 {
        registers_read_back(regs, Reg::Word(0), trunc(product, 2) as u64, 0);
        let after = with_product(regs, product, n);
        assert forall|k: int| 0 <= k < 16 && k != 0 && k != 2 implies #[trigger] after.gpr[k]
            == regs.gpr[k] by {
            registers_read_back(regs, Reg::Word(0), trunc(product, 2) as u64, k);
        }
        assert(m * m == 0x1_0000);
    } else {
        lemma_pair(regs, trunc(product, n) as u64, trunc(product / m, n) as u64, n);
        vstd::arithmetic::div_mod::lemma_fundamental_div_mod(product, m);
        vstd::arithmetic::div_mod::lemma_fundamental_div_mod(product / m, m);
        let q = product / m;
        let h = q / m;
        let w = q % m * m + product % m;
        assert(product == h * (m * m) + w) by (nonlinear_arith)
            requires
                product == m * q + product % m,
                q == m * h + q % m,
                w == q % m * m + product % m,
        ;
        assert(0 <= w < m * m) by (nonlinear_arith)
            requires
                0 <= q % m < m,
                0 <= product % m < m,
                w == q % m * m + product % m,
        ;
        vstd::arithmetic::div_mod::lemma_fundamental_div_mod_converse(product, m * m, h, w);
    }
}

/// An unsigned product is in the accumulator and the data register together; carry and
/// overflow say that it does not fit the accumulator alone.
pub proof fn products_are_whole(s: Machine, i: Instr, ip: u64, tsc: u64, n: int, x: u64)
    requires
        works_on_one(s, i, ip, tsc, n, x),
        i.mnemonic == mnemonic::MUL,
    ensures
        ({
            let t = executed(s, i, ip, tsc).0;
            let product = (s.regs.gpr[0] as int % modulus(n)) * (x as int % modulus(n));
            &&& double(t.regs, n) == product
            &&& carry(t) == (product >= modulus(n))
            &&& overflow(t) == carry(t)
            &&& other_flags_stay(s, t)
            &&& pair_changed(s, t, ip)
        }),
{
    let u = s.with_regs(s.regs.at(ip));
    let m = modulus(n);
    lemma_reads_frame(s, i, 0, ip);
    let a = trunc(s.regs.gpr[0] as int, n);
    let b = trunc(x as int, n);
    let product = a * b;
    assert(executed(s, i, ip, tsc) == after_mul(u, i));
    lemma_product(u.regs, product, n);
    assert(0 <= product < m * m) by (nonlinear_arith)
        requires
            0 <= a < m,
            0 <= b < m,
            product == a * b,
    ;
    vstd::arithmetic::div_mod::lemma_small_mod(product as nat, (m * m) as nat);
    lemma_two_flags(s.regs.rflags, product >= m);
    lemma_bits(s.regs.rflags);
    lemma_bits(executed(s, i, ip, tsc).0.regs.rflags);
}

/// A signed product is in the accumulator and the data register together, read as one
/// signed number; carry and overflow say that it does not fit the accumulator alone.
pub proof fn signed_products_are_whole(s: Machine, i: Instr, ip: u64, tsc: u64, n: int, x: u64)
    requires
        works_on_one(s, i, ip, tsc, n, x),
        i.mnemonic == mnemonic::IMUL,
        i.op_count == 1,
    ensures
        ({
            let t = executed(s, i, ip, tsc).0;
            let product = signed(s.regs.gpr[0] as int, n) * signed(x as int, n);
            &&& double(t.regs, n) == if product < 0 {
                product + modulus(n) * modulus(n)
            } else {
                product
            }
            &&& carry(t) == too_large(product, n)
            &&& overflow(t) == carry(t)
            &&& other_flags_stay(s, t)
            &&& pair_changed(s, t, ip)
        }),
{
    let u = s.with_regs(s.regs.at(ip));
    let m = modulus(n);
    lemma_reads_frame(s, i, 0, ip);
    let a = signed(s.regs.gpr[0] as int, n);
    let b = signed(x as int, n);
    let product = a * b;
    assert(executed(s, i, ip, tsc) == after_imul(u, i));
    lemma_product(u.regs, product, n);
    assert(-(m * m) <= product < m * m) by (nonlinear_arith)
        requires
            -m <= 2 * a < m,
            -m <= 2 * b < m,
            product == a * b,
    ;
    if product < 0 {
        vstd::arithmetic::div_mod::lemma_fundamental_div_mod_converse(
            product,
            m * m,
            -1,
            product + m * m,
        );
    } else {
        vstd::arithmetic::div_mod::lemma_small_mod(product as nat, (m * m) as nat);
    }
    lemma_two_flags(s.regs.rflags, signed_overflow(product, n));
    lemma_bits(s.regs.rflags);
    lemma_bits(executed(s, i, ip, tsc).0.regs.rflags);
}

/// The forms of the signed product that write their first operand: it is the product cut
/// down to `n` bytes, of the first operand and the second, or of the second and the third;
/// carry and overflow say that the product does not fit.
pub proof fn signed_products_are_cut(
    s: Machine,
    i: Instr,
    ip: u64,
    tsc: u64,
    n: int,
    x: u64,
    y: u64,
    z: u64,
)
    requires
        works_on(s, i, ip, tsc, n, x, y),
        i.mnemonic == mnemonic::IMUL,
        i.op_count == 2 || (i.op_count == 3 && operand_value(s, i, 2) == Ok::<u64, Fault>(z)),
    ensures
        ({
            let t = executed(s, i, ip, tsc).0;
            let product = if i.op_count == 2 {
                signed(x as int, n) * signed(y as int, n)
            } else {
                signed(y as int, n) * signed(z as int, n)
            };
            &&& result(s, i, ip, tsc) == product % modulus(n)
            &&& carry(t) == too_large(product, n)
            &&& overflow(t) == carry(t)
            &&& other_flags_stay(s, t)
            &&& wrote(s, t, i, ip, n)
        }),
{
    let u = s.with_regs(s.regs.at(ip));
    lemma_reads_frame(s, i, 0, ip);
    lemma_reads_frame(s, i, 1, ip);
    lemma_reads_frame(s, i, 2, ip);
    assert(executed(s, i, ip, tsc) == after_imul(u, i));
    let product = if i.op_count == 2 {
        signed(x as int, n) * signed(y as int, n)
    } else {
        signed(y as int, n) * signed(z as int, n)
    };
    let v = trunc(product, n) as u64;
    let w = after_operand(u, i, 0, v).0;
    operands_read_back(u, i, 0, v, n);
    vstd::arithmetic::div_mod::lemma_small_mod(v as nat, modulus(n) as nat);
    let t = executed(s, i, ip, tsc).0;
    assert(t == w.with_regs(with_carry_overflow(w.regs, signed_overflow(product, n))));
    lemma_reads_flags(w, i, t.regs.rflags);
    lemma_two_flags(s.regs.rflags, signed_overflow(product, n));
    lemma_bits(s.regs.rflags);
    lemma_bits(t.regs.rflags);
}

/// Reading an operand does not depend on the flags.
proof fn lemma_reads_flags(s: Machine, i: Instr, f: u64)
    ensures
        operand_value(s.with_regs(s.regs.flags(f)), i, 0) == operand_value(s, i, 0),
{
}

/// What the pair of registers holds after a division.
proof fn lemma_divided(regs: Regs, q: int, r: int, n: int)
    requires
        regs.gpr.len() == 16,
        operand_size(n),
    ensures
        ({
            let after = with_division(regs, q, r, n);
            &&& after.gpr.len() == 16
            &&& after.rip == regs.rip
            &&& after.xmm == regs.xmm
            &&& after.rflags == regs.rflags
            &&& forall|k: int|
                0 <= k < 16 && k != 0 && k != 2 ==> #[trigger] after.gpr[k] == regs.gpr[k]
            &&& after.gpr[0] as int % modulus(n) == q % modulus(n)
            &&& n > 1 ==> after.gpr[2] as int % modulus(n) == r % modulus(n)
            &&& n == 1 ==> after.gpr[0] as int / 0x100 % 0x100 == r % 0x100 && after.gpr[2]
                == regs.gpr[2]
        }),
{
    if n == 1 {
        let v = (trunc(r, 1) * 0x100 + trunc(q, 1)) as u64;
        registers_read_back(regs, Reg::Word(0), v, 0);
        registers_read_back(regs, Reg::Word(0), v, 2);
        let after = with_division(regs, q, r, n);
        assert forall|k: int| 0 <= k < 16 && k != 0 && k != 2 implies #[trigger] after.gpr[k]
            == regs.gpr[k] by {
            registers_read_back(regs, Reg::Word(0), v, k);
        }
        let g = after.gpr[0] as int;
        assert(g % 0x1_0000 == v);
        let h = g / 0x1_0000;
        assert(g == 0x1_0000 * h + v);
        assert(g % 0x100 == v % 0x100);
        assert(g / 0x100 == 0x100 * h + v / 0x100);
    } else {
        lemma_pair(regs, trunc(q, n) as u64, trunc(r, n) as u64, n);
    }
}

/// The remainder of a division: in the data register, or for bytes in the high byte of
/// the accumulator.
pub open spec fn rest(regs: Regs, n: int) -> int {
    if n == 1 {
        regs.gpr[0] as int / 0x100 % 0x100
    } else {
        regs.gpr[2] as int % modulus(n)
    }
}

/// Division: the dividend is quotient times divisor and the remainder, which is less than
/// the divisor. It is refused exactly if the divisor is zero or the quotient does not fit.
pub proof fn divisions_divide(s: Machine, i: Instr, ip: u64, tsc: u64, n: int, x: u64)
    requires
        s.regs.gpr.len() == 16,
        operand_size(n),
        crate::exec::operand::operand_bytes(i, 0) == Ok::<int, Fault>(n),
        operand_value(s, i, 0) == Ok::<u64, Fault>(x),
        i.mnemonic == mnemonic::DIV,
    ensures
        ({
            let (t, f) = executed(s, i, ip, tsc);
            let d = x as int % modulus(n);
            let q = t.regs.gpr[0] as int % modulus(n);
            let r = rest(t.regs, n);
            &&& f is Some == (d == 0 || double(s.regs, n) >= modulus(n) * d)
            &&& f is None ==> {
                &&& double(s.regs, n) == q * d + r
                &&& 0 <= r < d
                &&& t.regs.rflags == s.regs.rflags
                &&& pair_changed(s, t, ip)
            }
        }),
{
    let u = s.with_regs(s.regs.at(ip));
    let m = modulus(n);
    lemma_reads_frame(s, i, 0, ip);
    assert(executed(s, i, ip, tsc) == after_div(u, i, false));
    let d = trunc(x as int, n);
    let whole = dividend(u.regs, n);
    assert(whole == double(s.regs, n));
    assert(whole >= 0) by (nonlinear_arith)
        requires
            whole == s.regs.gpr[2] as int % m * m + s.regs.gpr[0] as int % m || whole
                == s.regs.gpr[0] as int % 0x1_0000,
            m > 0,
            s.regs.gpr[2] as int % m >= 0,
            s.regs.gpr[0] as int % m >= 0,
            s.regs.gpr[0] as int % 0x1_0000 >= 0,
    ;
    if d != 0 {
        vstd::arithmetic::div_mod::lemma_fundamental_div_mod(whole, d);
        let q = whole / d;
        let r = whole % d;
        assert((q >= m) == (whole >= m * d)) by (nonlinear_arith)
            requires
                whole == d * q + r,
                0 <= r < d,
        ;
        assert(q >= 0) by (nonlinear_arith)
            requires
                whole == d * q + r,
                0 <= r < d,
                whole >= 0,
        ;
        if q < m {
            lemma_divided(u.regs, q, r, n);
            vstd::arithmetic::div_mod::lemma_small_mod(q as nat, m as nat);
            vstd::arithmetic::div_mod::lemma_small_mod(r as nat, m as nat);
            assert(q * d == d * q) by (nonlinear_arith);
        }
    }
}

/// The signed reading of a number of `2n` bytes.
pub open spec fn signed_double(regs: Regs, n: int) -> int {
    if 2 * double(regs, n) >= modulus(n) * modulus(n) {
        double(regs, n) - modulus(n) * modulus(n)
    } else {
        double(regs, n)
    }
}

/// Division that rounds toward zero: quotient times divisor and the remainder make up the
/// dividend; the remainder is smaller than the divisor and has the dividend's sign.
pub open spec fn toward_zero(whole: int, d: int, q: int, r: int) -> bool {
    &&& whole == q * d + r
    &&& r < d || r < -d
    &&& -r < d || -r < -d
    &&& whole >= 0 ==> r >= 0
    &&& whole <= 0 ==> r <= 0
}

/// Signed division of two bytes or more rounds toward zero. It is refused where the divisor
/// is zero or the quotient does not fit.
pub proof fn signed_divisions_divide(s: Machine, i: Instr, ip: u64, tsc: u64, n: int, x: u64)
    requires
        s.regs.gpr.len() == 16,
        n == 2 || n == 4 || n == 8,
        crate::exec::operand::operand_bytes(i, 0) == Ok::<int, Fault>(n),
        operand_value(s, i, 0) == Ok::<u64, Fault>(x),
        i.mnemonic == mnemonic::IDIV,
    ensures
        ({
            let (t, f) = executed(s, i, ip, tsc);
            let d = signed(x as int, n);
            let q = signed(t.regs.gpr[0] as int, n);
            let r = signed(t.regs.gpr[2] as int, n);
            let whole = signed_double(s.regs, n);
            &&& d == 0 ==> f is Some
            &&& f is None ==> {
                &&& toward_zero(whole, d, q, r)
                &&& t.regs.rflags == s.regs.rflags
                &&& pair_changed(s, t, ip)
            }
            &&& f is Some && d != 0 ==> forall|q: int, r: int| #[trigger]
                toward_zero(whole, d, q, r) ==> too_large(q, n)
        }),
{
    let u = s.with_regs(s.regs.at(ip));
    let m = modulus(n);
    lemma_reads_frame(s, i, 0, ip);
    assert(executed(s, i, ip, tsc) == after_div(u, i, true));
    let d0 = trunc(x as int, n);
    vstd::arithmetic::div_mod::lemma_small_mod(d0 as nat, m as nat);
    let d = signed(x as int, n);
    assert(signed(d0, n) == d);
    let whole = signed_wide(dividend(u.regs, n), n);
    assert(whole == signed_double(s.regs, n));
    if d != 0 {
        division_identity(whole, d);
        let q = quotient(whole, d);
        let r = remainder(whole, d);
        vstd::arithmetic::div_mod::lemma_fundamental_div_mod(abs(whole), abs(d));
        assert(whole == 0 ==> r == 0) by {
            if whole == 0 {
                vstd::arithmetic::div_mod::lemma_small_mod(0, abs(d) as nat);
            }
        }
        if !too_large(q, n) {
            lemma_divided(u.regs, q, r, n);
            lemma_signed_same(q, n);
            lemma_signed_same(r, n);
            let t = executed(s, i, ip, tsc).0;
            assert(signed(t.regs.gpr[0] as int, n) == signed(q, n));
            assert(signed(t.regs.gpr[2] as int, n) == signed(r, n));
        } else {
            assert forall|q1: int, r1: int| #[trigger] toward_zero(whole, d, q1, r1) implies too_large(
                q1,
                n,
            ) by {
                lemma_one_quotient(whole, d, q, r, q1, r1);
            }
        }
    }
}

/// Signed division of a word by a byte: the low bytes of quotient and remainder go to the
/// two bytes of the accumulator. It is refused where the divisor is zero or the quotient
/// does not fit a word.
pub proof fn signed_byte_divisions_divide(
    s: Machine,
    i: Instr,
    ip: u64,
    tsc: u64,
    x: u64,
    q: int,
    r: int,
)
    requires
        s.regs.gpr.len() == 16,
        crate::exec::operand::operand_bytes(i, 0) == Ok::<int, Fault>(1),
        operand_value(s, i, 0) == Ok::<u64, Fault>(x),
        i.mnemonic == mnemonic::IDIV,
        signed(x as int, 1) != 0 ==> toward_zero(
            signed(s.regs.gpr[0] as int, 2),
            signed(x as int, 1),
            q,
            r,
        ),
    ensures
        ({
            let (t, f) = executed(s, i, ip, tsc);
            &&& f is Some == (signed(x as int, 1) == 0 || q > 0x7fff)
            &&& f is None ==> {
                &&& t.regs.gpr[0] as int % 0x100 == q % 0x100
                &&& t.regs.gpr[0] as int / 0x100 % 0x100 == r % 0x100
                &&& t.regs.gpr[2] == s.regs.gpr[2]
                &&& t.regs.rflags == s.regs.rflags
                &&& pair_changed(s, t, ip)
            }
        }),
{
    let u = s.with_regs(s.regs.at(ip));
    lemma_reads_frame(s, i, 0, ip);
    assert(executed(s, i, ip, tsc) == after_div(u, i, true));
    let d0 = trunc(x as int, 1);
    let d = signed(x as int, 1);
    assert(signed(d0, 1) == d);
    let whole = signed_wide(dividend(u.regs, 1), 1);
    assert(whole == signed(s.regs.gpr[0] as int, 2));
    if d != 0 {
        lemma_rounds(whole, d, q, r);
        if q <= 0x7fff {
            lemma_divided(u.regs, q, r, 1);
        }
    }
}

/// Division that rounds toward zero gives one quotient and one remainder.
proof fn lemma_rounds(whole: int, d: int, q: int, r: int)
    requires
        d != 0,
        toward_zero(whole, d, q, r),
    ensures
        quotient(whole, d) == q,
        remainder(whole, d) == r,
{
    division_identity(whole, d);
    let q1 = quotient(whole, d);
    let r1 = remainder(whole, d);
    vstd::arithmetic::div_mod::lemma_fundamental_div_mod(abs(whole), abs(d));
    if whole == 0 {
        vstd::arithmetic::div_mod::lemma_small_mod(0, abs(d) as nat);
    }
    lemma_one_quotient(whole, d, q1, r1, q, r);
}

/// A signed number that fits reads as itself.
proof fn lemma_signed_same(q: int, n: int)
    requires
        operand_size(n),
        !too_large(q, n),
    ensures
        signed(q, n) == q,
{
    let m = modulus(n);
    if q >= 0 {
        vstd::arithmetic::div_mod::lemma_small_mod(q as nat, m as nat);
    } else {
        vstd::arithmetic::div_mod::lemma_fundamental_div_mod_converse(q, m, -1, q + m);
    }
}

/// There is one quotient that rounds toward zero.
proof fn lemma_one_quotient(n: int, d: int, q: int, r: int, q1: int, r1: int)
    requires
        d != 0,
        n == q * d + r,
        n == q1 * d + r1,
        -abs(d) < r < abs(d),
        -abs(d) < r1 < abs(d),
        n >= 0 ==> r >= 0 && r1 >= 0,
        n <= 0 ==> r <= 0 && r1 <= 0,
    ensures
        q == q1,
{
    assert(q == q1) by (nonlinear_arith)
        requires
            d != 0,
            q * d + r == q1 * d + r1,
            -abs(d) < r - r1 < abs(d),
            abs(d) == d || abs(d) == -d,
    ;
}

/// Bit `k` of a number.
pub open spec fn digit(x: int, k: nat) -> int {
    x / (pow2(k) as int) % 2
}

/// Instructions on one bit of a register: the bit that the second operand numbers, modulo
/// the bits of the register, goes to the carry flag, and is then kept, set, cleared or
/// turned over; no other bit or flag changes.
pub proof fn single_bits(s: Machine, i: Instr, ip: u64, tsc: u64, n: int, x: u64, y: u64)
    requires
        works_on(s, i, ip, tsc, n, x, y),
        i.op0.kind == kind::REGISTER,
        i.mnemonic == mnemonic::BT || i.mnemonic == mnemonic::BTS || i.mnemonic == mnemonic::BTR
            || i.mnemonic == mnemonic::BTC,
    ensures
        ({
            let t = executed(s, i, ip, tsc).0;
            let k = (y as int % (8 * n)) as nat;
            let b = digit(x as int, k);
            let r = result(s, i, ip, tsc);
            &&& b == 0 || b == 1
            &&& carry(t) == (b == 1)
            &&& overflow(t) == overflow(s)
            &&& other_flags_stay(s, t)
            &&& t.mem == s.mem
            &&& i.mnemonic == mnemonic::BT ==> t.regs.gpr == s.regs.gpr
            &&& i.mnemonic == mnemonic::BTS ==> r == x + (1 - b) * pow2(k)
            &&& i.mnemonic == mnemonic::BTR ==> r == x - b * pow2(k)
            &&& i.mnemonic == mnemonic::BTC ==> r == x + (1 - 2 * b) * pow2(k)
        }),
{
    let u = s.with_regs(s.regs.at(ip));
    lemma_reads_frame(s, i, 0, ip);
    lemma_reads_frame(s, i, 1, ip);
    let op = if i.mnemonic == mnemonic::BT {
        BitOp::Bt
    } else if i.mnemonic == mnemonic::BTS {
        BitOp::Bts
    } else if i.mnemonic == mnemonic::BTR {
        BitOp::Btr
    } else {
        BitOp::Btc
    };
    assert(executed(s, i, ip, tsc) == after_bit(u, i, op));
    let k = (y as int % (8 * n)) as nat;
    let p = pow2(k) as int;
    let b = digit(x as int, k);
    crate::exec::laws::lemma_one(s.regs.rflags, b == 1);
    lemma_bits(s.regs.rflags);
    lemma_bits(with_flag(s.regs.rflags, CF, b == 1));
    crate::exec::operand_laws::registers_are_parts(s.regs, i.op0.reg);
    lemma_digit(x as int, k, n);
    let v = bit_changed(op, x, k);
    assert(v == match op {
        BitOp::Bt => x as int,
        BitOp::Bts => x + (1 - b) * p,
        BitOp::Btr => x - b * p,
        BitOp::Btc => x + (1 - 2 * b) * p,
    }) by {
        if b == 1 {
            assert((1 - b) * p == 0 && b * p == p && (1 - 2 * b) * p == -p) by (nonlinear_arith)
                requires
                    b == 1,
            ;
        } else {
            assert((1 - b) * p == p && b * p == 0 && (1 - 2 * b) * p == p) by (nonlinear_arith)
                requires
                    b == 0,
            ;
        }
    }
    if op != BitOp::Bt {
        let w = u.with_regs(u.regs.flag_set(CF, b == 1));
        assert(executed(s, i, ip, tsc) == after_operand(w, i, 0, v));
        operands_read_back(w, i, 0, v, n);
        vstd::arithmetic::div_mod::lemma_small_mod(v as nat, modulus(n) as nat);
    }
}

/// A bit of a number can be taken out of it where it is set, and put in where it is not.
proof fn lemma_digit(x: int, k: nat, n: int)
    requires
        operand_size(n),
        0 <= x < modulus(n),
        k < 8 * n,
    ensures
        digit(x, k) == 0 || digit(x, k) == 1,
        digit(x, k) == 1 ==> 0 <= x - pow2(k),
        digit(x, k) == 0 ==> x + pow2(k) < modulus(n),
        pow2(k) > 0,
{
    let p = pow2(k) as int;
    let rest = (8 * n - k) as nat;
    vstd::arithmetic::power2::lemma_pow2_pos(k);
    vstd::arithmetic::power2::lemma_pow2_adds(k, rest);
    vstd::arithmetic::power2::lemma_pow2_unfold(rest);
    crate::exec::operand_laws::numbers_of_some_bytes(x, n);
    vstd::arithmetic::div_mod::lemma_fundamental_div_mod(x, p);
    let q = x / p;
    let h = pow2((rest - 1) as nat) as int;
    assert(p * (2 * h) == modulus(n));
    assert(0 <= q < 2 * h) by (nonlinear_arith)
        requires
            x == p * q + x % p,
            0 <= x % p < p,
            0 <= x < p * (2 * h),
    ;
    assert(q % 2 == 1 ==> x >= p) by (nonlinear_arith)
        requires
            q % 2 == 1 ==> q >= 1,
            x == p * q + x % p,
            x % p >= 0,
            p > 0,
    ;
    if q % 2 == 0 {
        assert(q + 2 <= 2 * h);
        assert(x + p < p * (2 * h)) by (nonlinear_arith)
            requires
                q + 2 <= 2 * h,
                x == p * q + x % p,
                x % p < p,
                p > 0,
        ;
    }
}

/// The same for a bit string in memory: the byte lies the second operand's signed number
/// of bits, divided by eight and rounded down, after the address.
pub proof fn bits_in_memory(s: Machine, i: Instr, ip: u64, tsc: u64, y: u64, base: u64, x: u64)
    requires
        s.regs.gpr.len() == 16,
        i.op0.kind == kind::MEMORY,
        operand_value(s, i, 1) == Ok::<u64, Fault>(y),
        address_of(s.regs, i) == Ok::<u64, Fault>(base),
        i.mnemonic == mnemonic::BT || i.mnemonic == mnemonic::BTS || i.mnemonic == mnemonic::BTR
            || i.mnemonic == mnemonic::BTC,
        loaded(
            s.mem,
            ((base + signed(y as int, 8) / 8) % 0x1_0000_0000_0000_0000) as u64,
            1,
        ) == Ok::<u64, Fault>(x),
        x < 0x100,
    ensures
        ({
            let (t, f) = executed(s, i, ip, tsc);
            let a = ((base + signed(y as int, 8) / 8) % 0x1_0000_0000_0000_0000) as u64;
            let k = (y as int % 8) as nat;
            let b = digit(x as int, k);
            let r = loaded(t.mem, a, 1)->Ok_0;
            &&& f is None
            &&& carry(t) == (b == 1)
            &&& overflow(t) == overflow(s)
            &&& other_flags_stay(s, t)
            &&& t.regs.gpr == s.regs.gpr
            &&& t.regs.rip == ip
            &&& i.mnemonic == mnemonic::BT ==> t.mem == s.mem
            &&& i.mnemonic == mnemonic::BTS ==> r == x + (1 - b) * pow2(k)
            &&& i.mnemonic == mnemonic::BTR ==> r == x - b * pow2(k)
            &&& i.mnemonic == mnemonic::BTC ==> r == x + (1 - 2 * b) * pow2(k)
        }),
{
    let u = s.with_regs(s.regs.at(ip));
    lemma_reads_frame(s, i, 0, ip);
    lemma_reads_frame(s, i, 1, ip);
    let op = if i.mnemonic == mnemonic::BT {
        BitOp::Bt
    } else if i.mnemonic == mnemonic::BTS {
        BitOp::Bts
    } else if i.mnemonic == mnemonic::BTR {
        BitOp::Btr
    } else {
        BitOp::Btc
    };
    assert(executed(s, i, ip, tsc) == after_bit(u, i, op));
    let a = ((base + signed(y as int, 8) / 8) % 0x1_0000_0000_0000_0000) as u64;
    let k = (y as int % 8) as nat;
    let p = pow2(k) as int;
    let b = digit(x as int, k);
    crate::exec::laws::lemma_one(s.regs.rflags, b == 1);
    lemma_bits(s.regs.rflags);
    lemma_bits(with_flag(s.regs.rflags, CF, b == 1));
    lemma_digit(x as int, k, 1);
    let v = bit_changed(op, x, k);
    if b == 1 {
        assert((1 - b) * p == 0 && b * p == p && (1 - 2 * b) * p == -p) by (nonlinear_arith)
            requires
                b == 1,
        ;
    } else {
        assert((1 - b) * p == p && b * p == 0 && (1 - 2 * b) * p == p) by (nonlinear_arith)
            requires
                b == 0,
        ;
    }
    if op != BitOp::Bt {
        let w = u.with_regs(u.regs.flag_set(CF, b == 1));
        assert(executed(s, i, ip, tsc) == after_store(w, a, v, 1));
        crate::mem::model::lemma_mapped_run(s.mem, a as int, 1);
        stored_numbers_load(s.mem, a, v, 1, 0);
        vstd::arithmetic::div_mod::lemma_small_mod(v as nat, 0x100);
    }
}

/// Sign extension of the accumulator within itself: byte to word, word to double word,
/// double word to quad word, the number stays the same.
pub proof fn accumulators_extend(s: Machine, i: Instr, ip: u64, tsc: u64)
    requires
        s.regs.gpr.len() == 16,
    ensures
        ({
            let (t, f) = executed(s, i, ip, tsc);
            let from = s.regs.gpr[0] as int;
            let to = t.regs.gpr[0] as int;
            &&& i.mnemonic == mnemonic::CBW ==> signed(to, 2) == signed(from, 1) && to / 0x1_0000
                == from / 0x1_0000
            &&& i.mnemonic == mnemonic::CWDE ==> signed(to, 4) == signed(from, 2) && to
                < 0x1_0000_0000
            &&& i.mnemonic == mnemonic::CDQE ==> signed(to, 8) == signed(from, 4)
            &&& i.mnemonic == mnemonic::CBW || i.mnemonic == mnemonic::CWDE || i.mnemonic
                == mnemonic::CDQE ==> f is None && t == s.with_regs(
                s.regs.at(ip).set(0, t.regs.gpr[0]),
            )
        }),
{
    let u = s.with_regs(s.regs.at(ip));
    let from = s.regs.gpr[0] as int;
    if i.mnemonic == mnemonic::CBW {
        assert(executed(s, i, ip, tsc) == crate::exec::step::after_simple(u, i, tsc));
        let v = trunc(signed(from, 1), 2) as u64;
        registers_read_back(u.regs, Reg::Word(0), v, 0);
        lemma_signed_at(from, 1, 2);
    } else if i.mnemonic == mnemonic::CWDE {
        assert(executed(s, i, ip, tsc) == crate::exec::step::after_simple(u, i, tsc));
        let v = trunc(signed(from, 2), 4) as u64;
        registers_read_back(u.regs, Reg::Dword(0), v, 0);
        lemma_signed_at(from, 2, 4);
    } else if i.mnemonic == mnemonic::CDQE {
        assert(executed(s, i, ip, tsc) == crate::exec::step::after_simple(u, i, tsc));
        lemma_signed_at(from, 4, 8);
    }
}

/// A signed number of `m` bytes at `n` bytes.
proof fn lemma_signed_at(x: int, m: int, n: int)
    requires
        operand_size(m),
        operand_size(n),
        m < n,
    ensures
        signed(trunc(signed(x, m), n), n) == signed(x, m),
        trunc(trunc(signed(x, m), n), n) == trunc(signed(x, m), n),
{
    let v = signed(x, m);
    let k = modulus(n);
    if v < 0 {
        vstd::arithmetic::div_mod::lemma_fundamental_div_mod_converse(v, k, -1, v + k);
        vstd::arithmetic::div_mod::lemma_small_mod((v + k) as nat, k as nat);
    } else {
        vstd::arithmetic::div_mod::lemma_small_mod(v as nat, k as nat);
    }
}

/// Sign extension of the accumulator into the data register: both together are the same
/// signed number.
pub proof fn accumulators_extend_into_pairs(s: Machine, i: Instr, ip: u64, tsc: u64)
    requires
        s.regs.gpr.len() == 16,
        i.mnemonic == mnemonic::CWD || i.mnemonic == mnemonic::CDQ || i.mnemonic == mnemonic::CQO,
    ensures
        ({
            let (t, f) = executed(s, i, ip, tsc);
            let n = if i.mnemonic == mnemonic::CWD {
                2int
            } else if i.mnemonic == mnemonic::CDQ {
                4
            } else {
                8
            };
            &&& f is None
            &&& signed_double(t.regs, n) == signed(s.regs.gpr[0] as int, n)
            &&& t == s.with_regs(s.regs.at(ip).set(2, t.regs.gpr[2]))
            &&& n == 2 ==> t.regs.gpr[2] / 0x1_0000 == s.regs.gpr[2] / 0x1_0000
            &&& n == 4 ==> t.regs.gpr[2] < 0x1_0000_0000
        }),
{
    let u = s.with_regs(s.regs.at(ip));
    assert(executed(s, i, ip, tsc) == crate::exec::step::after_simple(u, i, tsc));
    let t = executed(s, i, ip, tsc).0;
    if i.mnemonic == mnemonic::CWD {
        let v = if signed(s.regs.gpr[0] as int, 2) < 0 {
            0xffffu64
        } else {
            0
        };
        registers_read_back(u.regs, Reg::Word(2), v, 2);
    }
}

/// Flag instructions set, clear and turn over the flag that they are named for, and no
/// other.
pub proof fn flags_are_set(s: Machine, i: Instr, ip: u64, tsc: u64)
    requires
        i.mnemonic == mnemonic::CLC || i.mnemonic == mnemonic::STC || i.mnemonic == mnemonic::CMC
            || i.mnemonic == mnemonic::CLD || i.mnemonic == mnemonic::STD,
    ensures
        ({
            let (t, f) = executed(s, i, ip, tsc);
            &&& f is None
            &&& t == s.with_regs(s.regs.at(ip).flags(t.regs.rflags))
            &&& zero(t) == zero(s)
            &&& sign(t) == sign(s)
            &&& parity(t) == parity(s)
            &&& adjust(t) == adjust(s)
            &&& overflow(t) == overflow(s)
            &&& carry(t) == if i.mnemonic == mnemonic::CLC {
                false
            } else if i.mnemonic == mnemonic::STC {
                true
            } else if i.mnemonic == mnemonic::CMC {
                !carry(s)
            } else {
                carry(s)
            }
            &&& direction(t) == if i.mnemonic == mnemonic::CLD {
                false
            } else if i.mnemonic == mnemonic::STD {
                true
            } else {
                direction(s)
            }
        }),
{
    let u = s.with_regs(s.regs.at(ip));
    assert(executed(s, i, ip, tsc) == crate::exec::step::after_simple(u, i, tsc));
    let f = s.regs.rflags;
    let t = executed(s, i, ip, tsc).0;
    lemma_bits(f);
    lemma_bits(t.regs.rflags);
    crate::exec::laws::lemma_one(f, i.mnemonic == mnemonic::STC || (i.mnemonic == mnemonic::CMC
        && !flag_of(f, CF)));
    lemma_direction_flag(f, i.mnemonic == mnemonic::STD);
}

/// Setting the direction flag.
proof fn lemma_direction_flag(f: u64, on: bool)
    by (bit_vector)
    ensures
        ({
            let g = with_flag(f, DF, on);
            &&& flag_of(g, CF) == flag_of(f, CF)
            &&& flag_of(g, PF) == flag_of(f, PF)
            &&& flag_of(g, AF) == flag_of(f, AF)
            &&& flag_of(g, ZF) == flag_of(f, ZF)
            &&& flag_of(g, SF) == flag_of(f, SF)
            &&& flag_of(g, OF) == flag_of(f, OF)
            &&& flag_of(g, DF) == on
        }),
{
}

/// Instructions that do nothing, and those that read what is not there: no memory
/// changes, no flag, and ports and processor information read zero.
pub proof fn nothing_and_zero(s: Machine, i: Instr, ip: u64, tsc: u64)
    requires
        s.regs.gpr.len() == 16,
    ensures
        ({
            let n = executed(s, i, ip, tsc);
            let u = s.with_regs(s.regs.at(ip));
            let m = i.mnemonic;
            &&& m == mnemonic::NOP || m == mnemonic::FNCLEX || m == mnemonic::FNINIT || m
                == mnemonic::FINIT || m == mnemonic::ENDBR64 || m == mnemonic::ENDBR32 || m
                == mnemonic::OUT || m == mnemonic::OUTSB || m == mnemonic::OUTSW || m
                == mnemonic::OUTSD ==> n == u.done()
            &&& m == mnemonic::CPUID ==> n == u.with_regs(
                Regs { gpr: s.regs.gpr.update(0, 0).update(1, 0).update(2, 0).update(3, 0), ..u.regs },
            ).done()
            &&& m == mnemonic::IN ==> n == u.with_regs(u.regs.set(0, 0)).done()
            &&& m == mnemonic::INSB || m == mnemonic::INSW || m == mnemonic::INSD ==> n
                == if i.rep {
                u.with_regs(u.regs.set(1, 0)).done()
            } else {
                u.done()
            }
            &&& m == mnemonic::RDTSC ==> n.0.regs.gpr[2] * 0x1_0000_0000 + n.0.regs.gpr[0] == tsc
                && n.0.regs.gpr[0] < 0x1_0000_0000 && n.1 is None
        }),
{
    if i.mnemonic == mnemonic::CPUID {
        let n = executed(s, i, ip, tsc);
        assert(n.0.regs.gpr =~= s.regs.gpr.update(0, 0).update(1, 0).update(2, 0).update(3, 0));
    }
}

} // verus!
