//! What instructions are for: comparisons and the conditions that follow them,
//! arithmetic and its flags.

use vstd::prelude::*;

use crate::exec::branch::{cmov_cond, holds, jcc_cond, setcc_cond};
use crate::exec::model::{Fault, Machine};
use crate::exec::operand::{address_of, operand_bytes, operand_value};
use crate::exec::step::executed;
use crate::insn::instr::Instr;
use crate::insn::mnemonic;
use crate::regs::{
    even_parity, flag_of, modulus, signed, trunc, with_flag, Regs, AF, CF, DF, OF, PF, SF, ZF,
};

verus! {

/// The bit of weight `w` is set.
pub open spec fn bit(x: u64, w: int) -> bool {
    (x as int / w) % 2 == 1
}

/// The carry flag.
pub open spec fn carry(s: Machine) -> bool {
    bit(s.regs.rflags, 0x1)
}

/// The parity flag.
pub open spec fn parity(s: Machine) -> bool {
    bit(s.regs.rflags, 0x4)
}

/// The adjust flag.
pub open spec fn adjust(s: Machine) -> bool {
    bit(s.regs.rflags, 0x10)
}

/// The zero flag.
pub open spec fn zero(s: Machine) -> bool {
    bit(s.regs.rflags, 0x40)
}

/// The sign flag.
pub open spec fn sign(s: Machine) -> bool {
    bit(s.regs.rflags, 0x80)
}

/// The direction flag.
pub open spec fn direction(s: Machine) -> bool {
    bit(s.regs.rflags, 0x400)
}

/// The overflow flag.
pub open spec fn overflow(s: Machine) -> bool {
    bit(s.regs.rflags, 0x800)
}

/// One for a flag that is set.
pub open spec fn unit(on: bool) -> int {
    if on {
        1
    } else {
        0
    }
}

/// Flags as bits of a number.
pub proof fn lemma_bits(x: u64)
    ensures
        flag_of(x, CF) == bit(x, 0x1),
        flag_of(x, PF) == bit(x, 0x4),
        flag_of(x, AF) == bit(x, 0x10),
        flag_of(x, ZF) == bit(x, 0x40),
        flag_of(x, SF) == bit(x, 0x80),
        flag_of(x, DF) == bit(x, 0x400),
        flag_of(x, OF) == bit(x, 0x800),
{
    assert((x & 0x1 != 0) == ((x / 0x1) % 2 == 1) && (x & 0x4 != 0) == ((x / 0x4) % 2 == 1) && (x
        & 0x10 != 0) == ((x / 0x10) % 2 == 1) && (x & 0x40 != 0) == ((x / 0x40) % 2 == 1) && (x
        & 0x80 != 0) == ((x / 0x80) % 2 == 1) && (x & 0x400 != 0) == ((x / 0x400) % 2 == 1) && (x
        & 0x800 != 0) == ((x / 0x800) % 2 == 1)) by (bit_vector);
}

/// Setting the six flags of arithmetic.
pub proof fn lemma_six(f: u64, c: bool, p: bool, a: bool, z: bool, s: bool, o: bool)
    by (bit_vector)
    ensures
        ({
            let g = with_flag(
                with_flag(with_flag(with_flag(with_flag(with_flag(f, CF, c), PF, p), AF, a), ZF, z), SF, s),
                OF,
                o,
            );
            &&& flag_of(g, CF) == c
            &&& flag_of(g, PF) == p
            &&& flag_of(g, AF) == a
            &&& flag_of(g, ZF) == z
            &&& flag_of(g, SF) == s
            &&& flag_of(g, OF) == o
            &&& flag_of(g, DF) == flag_of(f, DF)
        }),
{
}

/// Setting the five flags of a bitwise operation.
pub proof fn lemma_five(f: u64, p: bool, z: bool, s: bool)
    by (bit_vector)
    ensures
        ({
            let g = with_flag(
                with_flag(with_flag(with_flag(with_flag(f, CF, false), PF, p), ZF, z), SF, s),
                OF,
                false,
            );
            &&& !flag_of(g, CF)
            &&& flag_of(g, PF) == p
            &&& flag_of(g, AF) == flag_of(f, AF)
            &&& flag_of(g, ZF) == z
            &&& flag_of(g, SF) == s
            &&& !flag_of(g, OF)
            &&& flag_of(g, DF) == flag_of(f, DF)
        }),
{
}

/// Setting the carry flag.
pub proof fn lemma_one(f: u64, c: bool)
    by (bit_vector)
    ensures
        ({
            let g = with_flag(f, CF, c);
            &&& flag_of(g, CF) == c
            &&& flag_of(g, PF) == flag_of(f, PF)
            &&& flag_of(g, AF) == flag_of(f, AF)
            &&& flag_of(g, ZF) == flag_of(f, ZF)
            &&& flag_of(g, SF) == flag_of(f, SF)
            &&& flag_of(g, OF) == flag_of(f, OF)
            &&& flag_of(g, DF) == flag_of(f, DF)
        }),
{
}

/// Operands have 1, 2, 4 or 8 bytes.
pub open spec fn operand_size(n: int) -> bool {
    n == 1 || n == 2 || n == 4 || n == 8
}

/// The machine that an instruction is executed on: the instruction pointer is at the
/// next instruction already.
proof fn lemma_at(s: Machine, i: Instr, ip: u64)
    ensures
        ({
            let t = s.with_regs(s.regs.at(ip));
            &&& operand_value(t, i, 0) == operand_value(s, i, 0)
            &&& operand_value(t, i, 1) == operand_value(s, i, 1)
            &&& operand_value(t, i, 2) == operand_value(s, i, 2)
            &&& address_of(t.regs, i) == address_of(s.regs, i)
        }),
{
}

/// A number cut down to operand size, read as signed, and the difference of two of
/// them.
pub proof fn lemma_difference(a: int, b: int, n: int)
    requires
        operand_size(n),
        0 <= a < modulus(n),
        0 <= b < modulus(n),
    ensures
        trunc(a, n) == a,
        trunc(b, n) == b,
        ({
            let r = trunc(a - b, n);
            &&& (r == 0) == (a == b)
            &&& 0 <= r < modulus(n)
            &&& (2 * r >= modulus(n)) == (signed(r, n) < 0)
            &&& ((2 * r >= modulus(n)) != (signed(a, n) - signed(b, n) != signed(r, n))) == (signed(
                a,
                n,
            ) < signed(b, n))
            &&& (signed(a, n) == signed(b, n)) == (a == b)
            &&& (signed(a, n) - signed(b, n) != signed(r, n)) == (2 * (signed(a, n) - signed(b, n))
                < -modulus(n) || 2 * (signed(a, n) - signed(b, n)) >= modulus(n))
        }),
{
    if a >= b {
        assert(trunc(a - b, n) == a - b);
    } else {
        assert(trunc(a - b, n) == a - b + modulus(n)) by {
            vstd::arithmetic::div_mod::lemma_fundamental_div_mod_converse(
                a - b,
                modulus(n),
                -1,
                a - b + modulus(n),
            );
        }
    }
}

/// How many ones a number has in base two.
pub open spec fn ones(x: nat) -> nat
    decreases x,
{
    if x == 0 {
        0
    } else {
        x % 2 + ones(x / 2)
    }
}

/// The low byte of a number, halved again and again.
proof fn lemma_halves(x: int)
    requires
        x >= 0,
    ensures
        ({
            let y = x % 256;
            &&& x % 2 == y % 2
            &&& (x / 2) % 2 == (y / 2) % 2
            &&& (x / 4) % 2 == (y / 2 / 2) % 2
            &&& (x / 8) % 2 == (y / 2 / 2 / 2) % 2
            &&& (x / 16) % 2 == (y / 2 / 2 / 2 / 2) % 2
            &&& (x / 32) % 2 == (y / 2 / 2 / 2 / 2 / 2) % 2
            &&& (x / 64) % 2 == (y / 2 / 2 / 2 / 2 / 2 / 2) % 2
            &&& (x / 128) % 2 == (y / 2 / 2 / 2 / 2 / 2 / 2 / 2) % 2
            &&& y / 2 / 2 / 2 / 2 / 2 / 2 / 2 / 2 == 0
        }),
{
    let y = x % 256;
    let q = x / 256;
    lemma_eighths(x);
    lemma_half(x, y, 128 * q);
    lemma_half(x / 2, y / 2, 64 * q);
    lemma_half(x / 2 / 2, y / 2 / 2, 32 * q);
    lemma_half(x / 2 / 2 / 2, y / 2 / 2 / 2, 16 * q);
    lemma_half(x / 2 / 2 / 2 / 2, y / 2 / 2 / 2 / 2, 8 * q);
    lemma_half(x / 2 / 2 / 2 / 2 / 2, y / 2 / 2 / 2 / 2 / 2, 4 * q);
    lemma_half(x / 2 / 2 / 2 / 2 / 2 / 2, y / 2 / 2 / 2 / 2 / 2 / 2, 2 * q);
    lemma_half(x / 2 / 2 / 2 / 2 / 2 / 2 / 2, y / 2 / 2 / 2 / 2 / 2 / 2 / 2, q);
    lemma_eighths(y);
}

/// Two numbers that are an even number apart, and their halves.
proof fn lemma_half(x: int, y: int, q: int)
    requires
        x == y + 2 * q,
    ensures
        x / 2 == y / 2 + q,
        x % 2 == y % 2,
{
}

/// Halving again and again.
proof fn lemma_eighths(x: int)
    requires
        x >= 0,
    ensures
        x / 2 / 2 == x / 4,
        x / 2 / 2 / 2 == x / 8,
        x / 2 / 2 / 2 / 2 == x / 16,
        x / 2 / 2 / 2 / 2 / 2 == x / 32,
        x / 2 / 2 / 2 / 2 / 2 / 2 == x / 64,
        x / 2 / 2 / 2 / 2 / 2 / 2 / 2 == x / 128,
        x / 2 / 2 / 2 / 2 / 2 / 2 / 2 / 2 == x / 256,
{
    vstd::arithmetic::div_mod::lemma_div_denominator(x, 2, 2);
    vstd::arithmetic::div_mod::lemma_div_denominator(x, 4, 2);
    vstd::arithmetic::div_mod::lemma_div_denominator(x, 8, 2);
    vstd::arithmetic::div_mod::lemma_div_denominator(x, 16, 2);
    vstd::arithmetic::div_mod::lemma_div_denominator(x, 32, 2);
    vstd::arithmetic::div_mod::lemma_div_denominator(x, 64, 2);
    vstd::arithmetic::div_mod::lemma_div_denominator(x, 128, 2);
}

/// Eight bits of even sum.
spec fn even_sum(a: int, b: int, c: int, d: int, e: int, f: int, g: int, h: int) -> bool {
    (a + b + c + d + e + f + g + h) % 2 == 0
}

/// The parity flag is for an even number of ones in the low byte.
pub proof fn parity_counts_ones(x: int)
    requires
        x >= 0,
    ensures
        even_parity(x) == (ones((x % 256) as nat) % 2 == 0),
{
    let y = (x % 256) as nat;
    lemma_halves(x);
    let y1 = y / 2;
    let y2 = y1 / 2;
    let y3 = y2 / 2;
    let y4 = y3 / 2;
    let y5 = y4 / 2;
    let y6 = y5 / 2;
    let y7 = y6 / 2;
    assert(even_parity(x) == even_sum(
        x % 2,
        (x / 2) % 2,
        (x / 4) % 2,
        (x / 8) % 2,
        (x / 16) % 2,
        (x / 32) % 2,
        (x / 64) % 2,
        (x / 128) % 2,
    ));
    lemma_ones(y);
    lemma_ones(y1);
    lemma_ones(y2);
    lemma_ones(y3);
    lemma_ones(y4);
    lemma_ones(y5);
    lemma_ones(y6);
    lemma_ones(y7);
    assert(ones(0) == 0);
}

/// The ones of a number: its last digit and those of its half.
proof fn lemma_ones(x: nat)
    ensures
        ones(x) == x % 2 + ones(x / 2),
{
}

/// A comparison only sets flags: those of the difference.
proof fn lemma_compared(s: Machine, i: Instr, ip: u64, n: int, x: u64, y: u64)
    requires
        i.mnemonic == mnemonic::CMP,
        operand_size(n),
        operand_bytes(i, 0) == Ok::<int, Fault>(n),
        operand_value(s, i, 0) == Ok::<u64, Fault>(x),
        operand_value(s, i, 1) == Ok::<u64, Fault>(y),
    ensures
        ({
            let (t, f) = executed(s, i, ip, 0);
            let a = trunc(x as int, n);
            let b = trunc(y as int, n);
            let r = trunc(a - b, n);
            &&& f is None
            &&& t.mem == s.mem
            &&& t.regs == s.regs.at(ip).flags(t.regs.rflags)
            &&& flag_of(t.regs.rflags, CF) == (a < b)
            &&& flag_of(t.regs.rflags, ZF) == (a == b)
            &&& flag_of(t.regs.rflags, SF) == (signed(r, n) < 0)
            &&& flag_of(t.regs.rflags, OF) == (2 * (signed(a, n) - signed(b, n)) < -modulus(n) || 2
                * (signed(a, n) - signed(b, n)) >= modulus(n))
            &&& (flag_of(t.regs.rflags, SF) != flag_of(t.regs.rflags, OF)) == (signed(a, n)
                < signed(b, n))
            &&& flag_of(t.regs.rflags, PF) == even_parity(r)
            &&& flag_of(t.regs.rflags, DF) == flag_of(s.regs.rflags, DF)
        }),
{
    let a = trunc(x as int, n);
    let b = trunc(y as int, n);
    lemma_at(s, i, ip);
    lemma_difference(a, b, n);
    let g = crate::regs::sub_flags(a, b, n);
    lemma_six(s.regs.rflags, g.cf, g.pf, g.af, g.zf, g.sf, g.of);
}

/// A conditional jump goes to its target or to the next instruction, and changes
/// nothing else.
#[verifier::opaque]
pub open spec fn goes(s: Machine, i: Instr, next_ip: u64, taken: bool) -> bool {
    executed(s, i, next_ip, 0) == s.with_regs(
        s.regs.at(
            if taken {
                i.near_branch
            } else {
                next_ip
            },
        ),
    ).done()
}

/// A jump that follows a comparison of `a` with `b`, of `n` bytes each, is taken exactly
/// if the relation it is named for holds: below and above read them as unsigned, less
/// and greater as signed; overflow, sign and parity speak of the difference.
pub open spec fn jumps(t: Machine, j: Instr, ip: u64, n: int, a: int, b: int) -> bool {
    let (p, q) = (signed(a, n), signed(b, n));
    let m = j.mnemonic;
    &&& m == mnemonic::JE ==> goes(t, j, ip, a == b)
    &&& m == mnemonic::JNE ==> goes(t, j, ip, a != b)
    &&& m == mnemonic::JB ==> goes(t, j, ip, a < b)
    &&& m == mnemonic::JAE ==> goes(t, j, ip, a >= b)
    &&& m == mnemonic::JBE ==> goes(t, j, ip, a <= b)
    &&& m == mnemonic::JA ==> goes(t, j, ip, a > b)
    &&& m == mnemonic::JL ==> goes(t, j, ip, p < q)
    &&& m == mnemonic::JGE ==> goes(t, j, ip, p >= q)
    &&& m == mnemonic::JLE ==> goes(t, j, ip, p <= q)
    &&& m == mnemonic::JG ==> goes(t, j, ip, p > q)
    &&& m == mnemonic::JO ==> goes(t, j, ip, signed(p - q, n) != p - q)
    &&& m == mnemonic::JNO ==> goes(t, j, ip, signed(p - q, n) == p - q)
    &&& m == mnemonic::JS ==> goes(t, j, ip, signed(a - b, n) < 0)
    &&& m == mnemonic::JNS ==> goes(t, j, ip, signed(a - b, n) >= 0)
    &&& m == mnemonic::JP ==> goes(t, j, ip, ones(((a - b) % 256) as nat) % 2 == 0)
    &&& m == mnemonic::JNP ==> goes(t, j, ip, ones(((a - b) % 256) as nat) % 2 == 1)
}

/// A conditional jump is taken if its condition holds.
proof fn lemma_jump(t: Machine, j: Instr, ip: u64)
    ensures
        jcc_cond(j.mnemonic) matches Some(c) ==> goes(t, j, ip, holds(c, t.regs)),
{
    reveal(goes);
}

/// Jumps by the flags of a comparison.
proof fn lemma_jumps_by_flags(
    t: Machine,
    j: Instr,
    ip: u64,
    below: bool,
    equal: bool,
    less: bool,
    over: bool,
    minus: bool,
    even: bool,
)
    requires
        flag_of(t.regs.rflags, CF) == below,
        flag_of(t.regs.rflags, ZF) == equal,
        flag_of(t.regs.rflags, SF) == minus,
        flag_of(t.regs.rflags, OF) == over,
        flag_of(t.regs.rflags, PF) == even,
        (minus != over) == less,
    ensures
        j.mnemonic == mnemonic::JE ==> goes(t, j, ip, equal),
        j.mnemonic == mnemonic::JNE ==> goes(t, j, ip, !equal),
        j.mnemonic == mnemonic::JB ==> goes(t, j, ip, below),
        j.mnemonic == mnemonic::JAE ==> goes(t, j, ip, !below),
        j.mnemonic == mnemonic::JBE ==> goes(t, j, ip, below || equal),
        j.mnemonic == mnemonic::JA ==> goes(t, j, ip, !(below || equal)),
        j.mnemonic == mnemonic::JL ==> goes(t, j, ip, less),
        j.mnemonic == mnemonic::JGE ==> goes(t, j, ip, !less),
        j.mnemonic == mnemonic::JLE ==> goes(t, j, ip, less || equal),
        j.mnemonic == mnemonic::JG ==> goes(t, j, ip, !(less || equal)),
        j.mnemonic == mnemonic::JO ==> goes(t, j, ip, over),
        j.mnemonic == mnemonic::JNO ==> goes(t, j, ip, !over),
        j.mnemonic == mnemonic::JS ==> goes(t, j, ip, minus),
        j.mnemonic == mnemonic::JNS ==> goes(t, j, ip, !minus),
        j.mnemonic == mnemonic::JP ==> goes(t, j, ip, even),
        j.mnemonic == mnemonic::JNP ==> goes(t, j, ip, !even),
{
    lemma_jump(t, j, ip);
}

/// Jumps by flags that say how `a` and `b` compare.
proof fn lemma_jumps(t: Machine, j: Instr, ip: u64, n: int, a: int, b: int)
    requires
        operand_size(n),
        0 <= a < modulus(n),
        0 <= b < modulus(n),
        ({
            let f = t.regs.rflags;
            let r = trunc(a - b, n);
            &&& flag_of(f, CF) == (a < b)
            &&& flag_of(f, ZF) == (a == b)
            &&& flag_of(f, SF) == (signed(r, n) < 0)
            &&& flag_of(f, OF) == (2 * (signed(a, n) - signed(b, n)) < -modulus(n) || 2 * (signed(
                a,
                n,
            ) - signed(b, n)) >= modulus(n))
            &&& (flag_of(f, SF) != flag_of(f, OF)) == (signed(a, n) < signed(b, n))
            &&& flag_of(f, PF) == even_parity(r)
        }),
    ensures
        jumps(t, j, ip, n, a, b),
{
    let r = trunc(a - b, n);
    let (p, q) = (signed(a, n), signed(b, n));
    lemma_difference(a, b, n);
    lemma_wide_difference(a, b, n);
    parity_counts_ones(r);
    let odd = ones(((a - b) % 256) as nat) % 2 == 1;
    let over = signed(p - q, n) != p - q;
    let minus = signed(a - b, n) < 0;
    lemma_jumps_by_flags(t, j, ip, a < b, a == b, p < q, over, minus, !odd);
    assert((a >= b) == !(a < b));
    assert((a <= b) == (a < b || a == b));
    assert((a > b) == !(a < b || a == b));
    assert((p >= q) == !(p < q));
    assert((p <= q) == (p < q || a == b));
    assert((p > q) == !(p < q || a == b));
    assert((signed(p - q, n) == p - q) == !over);
    assert((signed(a - b, n) >= 0) == !minus);
    assert((ones(((a - b) % 256) as nat) % 2 == 0) == !odd);
}

/// Differences as signed numbers.
proof fn lemma_wide_difference(a: int, b: int, n: int)
    requires
        operand_size(n),
        0 <= a < modulus(n),
        0 <= b < modulus(n),
    ensures
        signed(a - b, n) == signed(trunc(a - b, n), n),
        trunc(a - b, n) % 256 == (a - b) % 256,
        ({
            let d = signed(a, n) - signed(b, n);
            (signed(d, n) != d) == (2 * d < -modulus(n) || 2 * d >= modulus(n))
        }),
{
    let d = signed(a, n) - signed(b, n);
    assert(trunc(trunc(a - b, n), n) == trunc(a - b, n));
    vstd::arithmetic::div_mod::lemma_mod_mod(a - b, 256, modulus(n) / 256);
    if 0 <= d < modulus(n) {
        vstd::arithmetic::div_mod::lemma_small_mod(d as nat, modulus(n) as nat);
    } else {
        vstd::arithmetic::div_mod::lemma_fundamental_div_mod_converse(
            d,
            modulus(n),
            -1,
            d + modulus(n),
        );
    }
}

/// After `cmp a, b` each conditional jump is taken exactly if the relation it is named
/// for holds between `a` and `b`.
pub proof fn jumps_follow_comparisons(
    s: Machine,
    i: Instr,
    ip: u64,
    j: Instr,
    next_ip: u64,
    n: int,
    x: u64,
    y: u64,
)
    requires
        i.mnemonic == mnemonic::CMP,
        operand_size(n),
        operand_bytes(i, 0) == Ok::<int, Fault>(n),
        operand_value(s, i, 0) == Ok::<u64, Fault>(x),
        operand_value(s, i, 1) == Ok::<u64, Fault>(y),
    ensures
        jumps(executed(s, i, ip, 0).0, j, next_ip, n, x as int % modulus(n), y as int % modulus(n)),
{
    lemma_compared(s, i, ip, n, x, y);
    lemma_jumps(executed(s, i, ip, 0).0, j, next_ip, n, trunc(x as int, n), trunc(y as int, n));
}

/// Whatever set the flags, each conditional jump goes by them: below is the carry, equal is
/// zero, less is that sign and overflow differ; the others are made of these, or are the
/// sign, overflow and parity flags themselves.
pub proof fn jumps_follow_flags(s: Machine, j: Instr, ip: u64)
    ensures
        j.mnemonic == mnemonic::JE ==> goes(s, j, ip, zero(s)),
        j.mnemonic == mnemonic::JNE ==> goes(s, j, ip, !zero(s)),
        j.mnemonic == mnemonic::JB ==> goes(s, j, ip, carry(s)),
        j.mnemonic == mnemonic::JAE ==> goes(s, j, ip, !carry(s)),
        j.mnemonic == mnemonic::JBE ==> goes(s, j, ip, carry(s) || zero(s)),
        j.mnemonic == mnemonic::JA ==> goes(s, j, ip, !(carry(s) || zero(s))),
        j.mnemonic == mnemonic::JL ==> goes(s, j, ip, sign(s) != overflow(s)),
        j.mnemonic == mnemonic::JGE ==> goes(s, j, ip, sign(s) == overflow(s)),
        j.mnemonic == mnemonic::JLE ==> goes(s, j, ip, sign(s) != overflow(s) || zero(s)),
        j.mnemonic == mnemonic::JG ==> goes(s, j, ip, !(sign(s) != overflow(s) || zero(s))),
        j.mnemonic == mnemonic::JO ==> goes(s, j, ip, overflow(s)),
        j.mnemonic == mnemonic::JNO ==> goes(s, j, ip, !overflow(s)),
        j.mnemonic == mnemonic::JS ==> goes(s, j, ip, sign(s)),
        j.mnemonic == mnemonic::JNS ==> goes(s, j, ip, !sign(s)),
        j.mnemonic == mnemonic::JP ==> goes(s, j, ip, parity(s)),
        j.mnemonic == mnemonic::JNP ==> goes(s, j, ip, !parity(s)),
{
    lemma_bits(s.regs.rflags);
    lemma_jumps_by_flags(
        s,
        j,
        ip,
        carry(s),
        zero(s),
        sign(s) != overflow(s),
        overflow(s),
        sign(s),
        parity(s),
    );
}

/// A condition by its name: the jump, the move and the setting of a byte that share a
/// suffix go by the same condition, and that of the negated suffix is the opposite.
pub open spec fn suffix(jump: u16, mv: u16, set: u16, jump_not: u16, mv_not: u16, set_not: u16) -> bool {
    &&& jcc_cond(jump) is Some
    &&& cmov_cond(mv) == jcc_cond(jump)
    &&& setcc_cond(set) == jcc_cond(jump)
    &&& cmov_cond(mv_not) == jcc_cond(jump_not)
    &&& setcc_cond(set_not) == jcc_cond(jump_not)
    &&& jcc_cond(jump_not) is Some
    &&& forall|r: Regs|
        #![trigger r.flag(CF)]
        holds(jcc_cond(jump)->0, r) != holds(jcc_cond(jump_not)->0, r)
}

/// Jumps, moves and byte settings of one suffix go by the same condition, and those of
/// the negated suffix by its opposite.
pub proof fn suffixes_name_conditions()
    ensures
        suffix(
            mnemonic::JE,
            mnemonic::CMOVE,
            mnemonic::SETE,
            mnemonic::JNE,
            mnemonic::CMOVNE,
            mnemonic::SETNE,
        ),
        suffix(
            mnemonic::JB,
            mnemonic::CMOVB,
            mnemonic::SETB,
            mnemonic::JAE,
            mnemonic::CMOVAE,
            mnemonic::SETAE,
        ),
        suffix(
            mnemonic::JBE,
            mnemonic::CMOVBE,
            mnemonic::SETBE,
            mnemonic::JA,
            mnemonic::CMOVA,
            mnemonic::SETA,
        ),
        suffix(
            mnemonic::JL,
            mnemonic::CMOVL,
            mnemonic::SETL,
            mnemonic::JGE,
            mnemonic::CMOVGE,
            mnemonic::SETGE,
        ),
        suffix(
            mnemonic::JLE,
            mnemonic::CMOVLE,
            mnemonic::SETLE,
            mnemonic::JG,
            mnemonic::CMOVG,
            mnemonic::SETG,
        ),
        suffix(
            mnemonic::JO,
            mnemonic::CMOVO,
            mnemonic::SETO,
            mnemonic::JNO,
            mnemonic::CMOVNO,
            mnemonic::SETNO,
        ),
        suffix(
            mnemonic::JS,
            mnemonic::CMOVS,
            mnemonic::SETS,
            mnemonic::JNS,
            mnemonic::CMOVNS,
            mnemonic::SETNS,
        ),
        suffix(
            mnemonic::JP,
            mnemonic::CMOVP,
            mnemonic::SETP,
            mnemonic::JNP,
            mnemonic::CMOVNP,
            mnemonic::SETNP,
        ),
{
}

} // verus!
