//! What arithmetic computes, and what its flags say of the result.

use vstd::prelude::*;

use crate::exec::alu::{
    after_arith, arith_result, arith_rflags, lemma_bitwise_bound, ArithOp,
};
use crate::exec::laws::{
    adjust, carry, direction, lemma_bits, lemma_five, lemma_one, lemma_six, ones, operand_size,
    overflow, parity, parity_counts_ones, sign, unit, zero,
};
use crate::exec::logic::{after_inc_dec, after_neg, after_not, after_test};
use crate::exec::model::{Fault, Machine};
use crate::exec::operand::{after_operand, operand_bytes, operand_value};
use crate::exec::operand_laws::{alike_but, operands_read_back};
use crate::exec::step::executed;
use crate::insn::instr::Instr;
use crate::insn::mnemonic;
use crate::regs::{
    add_flags, even_parity, modulus, signed, sub_flags, trunc, with_alu_flags, with_flag,
    with_logic_flags, AluFlags, CF,
};

verus! {

/// An instruction on operands of `n` bytes that completes: its first operand holds `x`
/// and its second `y`.
pub open spec fn works_on(
    s: Machine,
    i: Instr,
    ip: u64,
    tsc: u64,
    n: int,
    x: u64,
    y: u64,
) -> bool {
    &&& s.regs.gpr.len() == 16
    &&& i.wf()
    &&& operand_size(n)
    &&& operand_bytes(i, 0) == Ok::<int, Fault>(n)
    &&& operand_value(s, i, 0) == Ok::<u64, Fault>(x)
    &&& operand_value(s, i, 1) == Ok::<u64, Fault>(y)
    &&& executed(s, i, ip, tsc).1 is None
}

/// The first operand of the instruction, once it has completed.
pub open spec fn result(s: Machine, i: Instr, ip: u64, tsc: u64) -> int {
    operand_value(executed(s, i, ip, tsc).0, i, 0)->Ok_0 as int
}

/// The zero, sign and parity flags are those of the result.
pub open spec fn flags_of_result(t: Machine, r: int, n: int) -> bool {
    &&& zero(t) == (r == 0)
    &&& sign(t) == (signed(r, n) < 0)
    &&& parity(t) == (ones((r % 256) as nat) % 2 == 0)
}

/// A number does not fit `n` bytes as a signed number.
pub open spec fn too_large(v: int, n: int) -> bool {
    2 * v < -modulus(n) || 2 * v >= modulus(n)
}

/// The first operand was written and holds a number of `n` bytes; the direction flag
/// stays, and the instruction pointer is at the next instruction.
pub open spec fn wrote(s: Machine, t: Machine, i: Instr, ip: u64, n: int) -> bool {
    &&& operand_value(t, i, 0) is Ok
    &&& 0 <= operand_value(t, i, 0)->Ok_0 < modulus(n)
    &&& direction(t) == direction(s)
    &&& alike_but(s.with_regs(s.regs.at(ip).flags(t.regs.rflags)), t, i, 0)
}

/// Sums and differences at `n` bytes.
proof fn lemma_sum(a: int, b: int, c: int, n: int)
    requires
        operand_size(n),
        0 <= a < modulus(n),
        0 <= b < modulus(n),
        0 <= c <= 1,
    ensures
        trunc(a, n) == a,
        trunc(b, n) == b,
        a + b + c == trunc(a + b + c, n) + unit(a + b + c >= modulus(n)) * modulus(n),
        a - b - c == trunc(a - b - c, n) - unit(a < b + c) * modulus(n),
        trunc(a + trunc(b + c, n), n) == trunc(a + b + c, n),
        trunc(a - trunc(b + c, n), n) == trunc(a - b - c, n),
        (signed(a, n) + signed(b, n) != signed(trunc(a + b, n), n)) == too_large(
            signed(a, n) + signed(b, n),
            n,
        ),
        (signed(a, n) - signed(b, n) != signed(trunc(a - b, n), n)) == too_large(
            signed(a, n) - signed(b, n),
            n,
        ),
{
    let m = modulus(n);
    let u = a + b + c;
    let d = a - b - c;
    vstd::arithmetic::div_mod::lemma_small_mod(a as nat, m as nat);
    vstd::arithmetic::div_mod::lemma_small_mod(b as nat, m as nat);
    lemma_mod_near(u, m);
    lemma_mod_near(d, m);
    lemma_mod_near(a + b, m);
    lemma_mod_near(a - b, m);
    lemma_mod_near(b + c, m);
    lemma_mod_near(a + trunc(b + c, n), m);
    lemma_mod_near(a - trunc(b + c, n), m);
    lemma_mod_near(trunc(a + b, n), m);
    lemma_mod_near(trunc(a - b, n), m);
}

/// Remainders of numbers less than two multiples away.
proof fn lemma_mod_near(x: int, m: int)
    requires
        m > 1,
        -2 * m <= x < 2 * m,
    ensures
        x % m == if x >= m {
            x - m
        } else if x >= 0 {
            x
        } else if x >= -m {
            x + m
        } else {
            x + 2 * m
        },
{
    if x >= m {
        vstd::arithmetic::div_mod::lemma_fundamental_div_mod_converse(x, m, 1, x - m);
    } else if x >= 0 {
        vstd::arithmetic::div_mod::lemma_fundamental_div_mod_converse(x, m, 0, x);
    } else if x >= -m {
        vstd::arithmetic::div_mod::lemma_fundamental_div_mod_converse(x, m, -1, x + m);
    } else {
        vstd::arithmetic::div_mod::lemma_fundamental_div_mod_converse(x, m, -2, x + 2 * m);
    }
}

/// What the flags of arithmetic are, read as bits.
proof fn lemma_alu_bits(s: Machine, t: Machine, f: AluFlags, r: int, n: int)
    requires
        operand_size(n),
        0 <= r < modulus(n),
        t.regs.rflags == with_alu_flags(s.regs.rflags, f),
        f.zf == (r == 0),
        f.sf == (2 * r >= modulus(n)),
        f.pf == even_parity(r),
    ensures
        carry(t) == f.cf,
        adjust(t) == f.af,
        overflow(t) == f.of,
        direction(t) == direction(s),
        flags_of_result(t, r, n),
{
    lemma_six(s.regs.rflags, f.cf, f.pf, f.af, f.zf, f.sf, f.of);
    lemma_bits(s.regs.rflags);
    lemma_bits(t.regs.rflags);
    parity_counts_ones(r);
    vstd::arithmetic::div_mod::lemma_small_mod(r as nat, modulus(n) as nat);
}

/// The same with the carry flag replaced.
proof fn lemma_alu_carry_bits(s: Machine, t: Machine, f: AluFlags, c: bool, r: int, n: int)
    requires
        operand_size(n),
        0 <= r < modulus(n),
        t.regs.rflags == with_flag(with_alu_flags(s.regs.rflags, f), CF, c),
        f.zf == (r == 0),
        f.sf == (2 * r >= modulus(n)),
        f.pf == even_parity(r),
    ensures
        carry(t) == c,
        adjust(t) == f.af,
        overflow(t) == f.of,
        direction(t) == direction(s),
        flags_of_result(t, r, n),
{
    let u = s.with_regs(s.regs.flags(with_alu_flags(s.regs.rflags, f)));
    lemma_alu_bits(s, u, f, r, n);
    lemma_one(u.regs.rflags, c);
    lemma_bits(u.regs.rflags);
    lemma_bits(t.regs.rflags);
}

/// What the flags of a bitwise operation are, read as bits.
proof fn lemma_logic_bits(s: Machine, t: Machine, r: int, n: int)
    requires
        operand_size(n),
        0 <= r < modulus(n),
        t.regs.rflags == with_logic_flags(s.regs.rflags, r, n),
    ensures
        !carry(t),
        !overflow(t),
        adjust(t) == adjust(s),
        direction(t) == direction(s),
        flags_of_result(t, r, n),
{
    lemma_five(s.regs.rflags, even_parity(r), r == 0, 2 * r >= modulus(n));
    lemma_bits(s.regs.rflags);
    lemma_bits(t.regs.rflags);
    parity_counts_ones(r);
    vstd::arithmetic::div_mod::lemma_small_mod(r as nat, modulus(n) as nat);
}

/// The arithmetic that a mnemonic stands for.
spec fn stands_for(m: u16, op: ArithOp) -> bool {
    match op {
        ArithOp::Add => m == mnemonic::ADD,
        ArithOp::Adc => m == mnemonic::ADC,
        ArithOp::Sub => m == mnemonic::SUB,
        ArithOp::Sbb => m == mnemonic::SBB,
        ArithOp::Compare => m == mnemonic::CMP,
        ArithOp::Xor => m == mnemonic::XOR,
        ArithOp::Or => m == mnemonic::OR,
        ArithOp::And => m == mnemonic::AND,
    }
}

/// Arithmetic is executed as such.
proof fn lemma_is_arith(s: Machine, i: Instr, ip: u64, tsc: u64, op: ArithOp)
    requires
        stands_for(i.mnemonic, op),
    ensures
        executed(s, i, ip, tsc) == after_arith(s.with_regs(s.regs.at(ip)), i, op),
{
}

/// What executed arithmetic does in one step: it sets the flags and writes the result.
proof fn lemma_arith(
    s: Machine,
    i: Instr,
    ip: u64,
    tsc: u64,
    n: int,
    x: u64,
    y: u64,
    op: ArithOp,
)
    requires
        works_on(s, i, ip, tsc, n, x, y),
        stands_for(i.mnemonic, op),
        op != ArithOp::Compare,
    ensures
        ({
            let t = executed(s, i, ip, tsc).0;
            let a = trunc(x as int, n) as u64;
            let b = trunc(y as int, n) as u64;
            let c = unit(s.regs.flag(CF));
            let v = arith_result(op, a, b, c, n);
            &&& v < modulus(n)
            &&& operand_value(t, i, 0) == Ok::<u64, Fault>(v)
            &&& t.regs.rflags == arith_rflags(op, s.regs.rflags, a, b, c, n)
            &&& alike_but(s.with_regs(s.regs.at(ip).flags(t.regs.rflags)), t, i, 0)
        }),
{
    lemma_is_arith(s, i, ip, tsc, op);
    crate::jit::laws::lemma_reads_frame(s, i, 0, ip);
    crate::jit::laws::lemma_reads_frame(s, i, 1, ip);
    let a = trunc(x as int, n) as u64;
    let b = trunc(y as int, n) as u64;
    let c = unit(s.regs.flag(CF));
    lemma_bitwise_bound(a, b, n);
    let v = arith_result(op, a, b, c, n);
    let f = arith_rflags(op, s.regs.rflags, a, b, c, n);
    let u = s.with_regs(s.regs.at(ip).flags(f));
    assert(executed(s, i, ip, tsc) == after_operand(u, i, 0, v));
    operands_read_back(u, i, 0, v, n);
    vstd::arithmetic::div_mod::lemma_small_mod(v as nat, modulus(n) as nat);
}

/// Addition: the sum is the result and the carry together. Overflow says that the sum
/// of the signed numbers does not fit, adjust that the low halves of the low bytes
/// carry.
pub proof fn additions_add(s: Machine, i: Instr, ip: u64, tsc: u64, n: int, x: u64, y: u64)
    requires
        works_on(s, i, ip, tsc, n, x, y),
        i.mnemonic == mnemonic::ADD,
    ensures
        ({
            let t = executed(s, i, ip, tsc).0;
            let (a, b) = (x as int % modulus(n), y as int % modulus(n));
            let r = result(s, i, ip, tsc);
            &&& a + b == r + unit(carry(t)) * modulus(n)
            &&& overflow(t) == too_large(signed(a, n) + signed(b, n), n)
            &&& adjust(t) == (a % 16 + b % 16 >= 16)
            &&& flags_of_result(t, r, n)
            &&& wrote(s, t, i, ip, n)
        }),
{
    let t = executed(s, i, ip, tsc).0;
    let (a, b) = (trunc(x as int, n), trunc(y as int, n));
    lemma_arith(s, i, ip, tsc, n, x, y, ArithOp::Add);
    lemma_sum(a, b, 0, n);
    lemma_alu_bits(s, t, add_flags(a, b, n), trunc(a + b, n), n);
}

/// Subtraction: the difference is the result less the borrow. Overflow says that the
/// difference of the signed numbers does not fit, adjust that the low halves of the low
/// bytes borrow.
pub proof fn subtractions_subtract(s: Machine, i: Instr, ip: u64, tsc: u64, n: int, x: u64, y: u64)
    requires
        works_on(s, i, ip, tsc, n, x, y),
        i.mnemonic == mnemonic::SUB,
    ensures
        ({
            let t = executed(s, i, ip, tsc).0;
            let (a, b) = (x as int % modulus(n), y as int % modulus(n));
            let r = result(s, i, ip, tsc);
            &&& a - b == r - unit(carry(t)) * modulus(n)
            &&& overflow(t) == too_large(signed(a, n) - signed(b, n), n)
            &&& adjust(t) == (a % 16 < b % 16)
            &&& flags_of_result(t, r, n)
            &&& wrote(s, t, i, ip, n)
        }),
{
    let t = executed(s, i, ip, tsc).0;
    let (a, b) = (trunc(x as int, n), trunc(y as int, n));
    lemma_arith(s, i, ip, tsc, n, x, y, ArithOp::Sub);
    lemma_sum(a, b, 0, n);
    lemma_alu_bits(s, t, sub_flags(a, b, n), trunc(a - b, n), n);
}

/// Addition and subtraction with carry: the carry goes in and comes out, so that numbers
/// of several words can be added and subtracted. Overflow and adjust speak of the second
/// operand with the carry added and cut down to `n` bytes.
pub proof fn carries_go_through(s: Machine, i: Instr, ip: u64, tsc: u64, n: int, x: u64, y: u64)
    requires
        works_on(s, i, ip, tsc, n, x, y),
        i.mnemonic == mnemonic::ADC || i.mnemonic == mnemonic::SBB,
    ensures
        ({
            let t = executed(s, i, ip, tsc).0;
            let (a, b) = (x as int % modulus(n), y as int % modulus(n));
            let r = result(s, i, ip, tsc);
            let c = unit(carry(s));
            let d = (b + c) % modulus(n);
            &&& i.mnemonic == mnemonic::ADC ==> {
                &&& a + b + c == r + unit(carry(t)) * modulus(n)
                &&& overflow(t) == too_large(signed(a, n) + signed(d, n), n)
                &&& adjust(t) == (a % 16 + d % 16 >= 16)
            }
            &&& i.mnemonic == mnemonic::SBB ==> {
                &&& a - b - c == r - unit(carry(t)) * modulus(n)
                &&& overflow(t) == too_large(signed(a, n) - signed(d, n), n)
                &&& adjust(t) == (a % 16 < d % 16)
            }
            &&& flags_of_result(t, r, n)
            &&& wrote(s, t, i, ip, n)
        }),
{
    let t = executed(s, i, ip, tsc).0;
    let (a, b) = (trunc(x as int, n), trunc(y as int, n));
    lemma_bits(s.regs.rflags);
    let c = unit(carry(s));
    let d = trunc(b + c, n);
    lemma_sum(a, b, c, n);
    lemma_sum(a, d, 0, n);
    if i.mnemonic == mnemonic::ADC {
        lemma_arith(s, i, ip, tsc, n, x, y, ArithOp::Adc);
        lemma_alu_carry_bits(
            s,
            t,
            add_flags(a, d, n),
            a + b + c >= modulus(n),
            trunc(a + b + c, n),
            n,
        );
    } else {
        lemma_arith(s, i, ip, tsc, n, x, y, ArithOp::Sbb);
        lemma_alu_carry_bits(s, t, sub_flags(a, d, n), a < b + c, trunc(a - b - c, n), n);
    }
}

/// Bitwise operations: the result is that of the two operands, carry and overflow are
/// clear, adjust stays.
pub proof fn bitwise_operations(s: Machine, i: Instr, ip: u64, tsc: u64, n: int, x: u64, y: u64)
    requires
        works_on(s, i, ip, tsc, n, x, y),
        i.mnemonic == mnemonic::AND || i.mnemonic == mnemonic::OR || i.mnemonic == mnemonic::XOR,
    ensures
        ({
            let t = executed(s, i, ip, tsc).0;
            let (a, b) = ((x as int % modulus(n)) as u64, (y as int % modulus(n)) as u64);
            let r = result(s, i, ip, tsc);
            &&& i.mnemonic == mnemonic::AND ==> r == a & b
            &&& i.mnemonic == mnemonic::OR ==> r == a | b
            &&& i.mnemonic == mnemonic::XOR ==> r == a ^ b
            &&& !carry(t)
            &&& !overflow(t)
            &&& adjust(t) == adjust(s)
            &&& flags_of_result(t, r, n)
            &&& wrote(s, t, i, ip, n)
        }),
{
    let t = executed(s, i, ip, tsc).0;
    let op = if i.mnemonic == mnemonic::AND {
        ArithOp::And
    } else if i.mnemonic == mnemonic::OR {
        ArithOp::Or
    } else {
        ArithOp::Xor
    };
    lemma_arith(s, i, ip, tsc, n, x, y, op);
    lemma_logic_bits(s, t, result(s, i, ip, tsc), n);
}

/// A comparison sets the flags as a subtraction does, and changes nothing else.
pub proof fn comparisons_subtract(s: Machine, i: Instr, ip: u64, tsc: u64, n: int, x: u64, y: u64)
    requires
        works_on(s, i, ip, tsc, n, x, y),
        i.mnemonic == mnemonic::CMP,
    ensures
        ({
            let t = executed(s, i, ip, tsc).0;
            let (a, b) = (x as int % modulus(n), y as int % modulus(n));
            let r = a - b + unit(carry(t)) * modulus(n);
            &&& 0 <= r < modulus(n)
            &&& overflow(t) == too_large(signed(a, n) - signed(b, n), n)
            &&& adjust(t) == (a % 16 < b % 16)
            &&& flags_of_result(t, r, n)
            &&& direction(t) == direction(s)
            &&& t == s.with_regs(s.regs.at(ip).flags(t.regs.rflags))
        }),
{
    let t = executed(s, i, ip, tsc).0;
    let (a, b) = (trunc(x as int, n), trunc(y as int, n));
    lemma_is_arith(s, i, ip, tsc, ArithOp::Compare);
    crate::jit::laws::lemma_reads_frame(s, i, 0, ip);
    crate::jit::laws::lemma_reads_frame(s, i, 1, ip);
    lemma_sum(a, b, 0, n);
    lemma_alu_bits(s, t, sub_flags(a, b, n), trunc(a - b, n), n);
}

/// A test sets the flags as a bitwise and does, and changes nothing else.
pub proof fn tests_and(s: Machine, i: Instr, ip: u64, tsc: u64, n: int, x: u64, y: u64)
    requires
        works_on(s, i, ip, tsc, n, x, y),
        i.mnemonic == mnemonic::TEST,
    ensures
        ({
            let t = executed(s, i, ip, tsc).0;
            &&& !carry(t)
            &&& !overflow(t)
            &&& adjust(t) == adjust(s)
            &&& flags_of_result(t, (x & y) as int % modulus(n), n)
            &&& direction(t) == direction(s)
            &&& t == s.with_regs(s.regs.at(ip).flags(t.regs.rflags))
        }),
{
    let t = executed(s, i, ip, tsc).0;
    assert(executed(s, i, ip, tsc) == after_test(s.with_regs(s.regs.at(ip)), i));
    crate::jit::laws::lemma_reads_frame(s, i, 0, ip);
    crate::jit::laws::lemma_reads_frame(s, i, 1, ip);
    lemma_logic_bits(s, t, trunc((x & y) as int, n), n);
}

/// An instruction on one operand of `n` bytes that completes.
pub open spec fn works_on_one(s: Machine, i: Instr, ip: u64, tsc: u64, n: int, x: u64) -> bool {
    &&& s.regs.gpr.len() == 16
    &&& i.wf()
    &&& operand_size(n)
    &&& operand_bytes(i, 0) == Ok::<int, Fault>(n)
    &&& operand_value(s, i, 0) == Ok::<u64, Fault>(x)
    &&& executed(s, i, ip, tsc).1 is None
}

/// Counting up and down by one: as an addition or a subtraction of one, but the carry
/// flag stays.
pub proof fn counting_keeps_carry(s: Machine, i: Instr, ip: u64, tsc: u64, n: int, x: u64)
    requires
        works_on_one(s, i, ip, tsc, n, x),
        i.mnemonic == mnemonic::INC || i.mnemonic == mnemonic::DEC,
    ensures
        ({
            let t = executed(s, i, ip, tsc).0;
            let a = x as int % modulus(n);
            let r = result(s, i, ip, tsc);
            &&& i.mnemonic == mnemonic::INC ==> {
                &&& r == (a + 1) % modulus(n)
                &&& overflow(t) == too_large(signed(a, n) + 1, n)
                &&& adjust(t) == (a % 16 == 15)
            }
            &&& i.mnemonic == mnemonic::DEC ==> {
                &&& r == (a - 1) % modulus(n)
                &&& overflow(t) == too_large(signed(a, n) - 1, n)
                &&& adjust(t) == (a % 16 == 0)
            }
            &&& carry(t) == carry(s)
            &&& flags_of_result(t, r, n)
            &&& wrote(s, t, i, ip, n)
        }),
{
    let t = executed(s, i, ip, tsc).0;
    let inc = i.mnemonic == mnemonic::INC;
    let a = trunc(x as int, n);
    assert(executed(s, i, ip, tsc) == after_inc_dec(s.with_regs(s.regs.at(ip)), i, inc));
    crate::jit::laws::lemma_reads_frame(s, i, 0, ip);
    lemma_bits(s.regs.rflags);
    lemma_sum(a, 1, 0, n);
    let f = if inc {
        add_flags(a, 1, n)
    } else {
        sub_flags(a, 1, n)
    };
    let v = trunc(
        if inc {
            a + 1
        } else {
            a - 1
        },
        n,
    );
    let g = with_flag(with_alu_flags(s.regs.rflags, f), CF, s.regs.flag(CF));
    let u = s.with_regs(s.regs.at(ip).flags(g));
    assert(executed(s, i, ip, tsc) == after_operand(u, i, 0, v as u64));
    operands_read_back(u, i, 0, v as u64, n);
    vstd::arithmetic::div_mod::lemma_small_mod(v as nat, modulus(n) as nat);
    lemma_alu_carry_bits(s, t, f, s.regs.flag(CF), v, n);
}

/// Negation: operand and result add up to nothing; the carry flag says that the operand
/// was not zero.
pub proof fn negations_cancel(s: Machine, i: Instr, ip: u64, tsc: u64, n: int, x: u64)
    requires
        works_on_one(s, i, ip, tsc, n, x),
        i.mnemonic == mnemonic::NEG,
    ensures
        ({
            let t = executed(s, i, ip, tsc).0;
            let a = x as int % modulus(n);
            let r = result(s, i, ip, tsc);
            &&& a + r == unit(carry(t)) * modulus(n)
            &&& carry(t) == (a != 0)
            &&& overflow(t) == too_large(-signed(a, n), n)
            &&& adjust(t) == (a % 16 != 0)
            &&& flags_of_result(t, r, n)
            &&& wrote(s, t, i, ip, n)
        }),
{
    let t = executed(s, i, ip, tsc).0;
    let a = trunc(x as int, n);
    assert(executed(s, i, ip, tsc) == after_neg(s.with_regs(s.regs.at(ip)), i));
    crate::jit::laws::lemma_reads_frame(s, i, 0, ip);
    lemma_sum(0, a, 0, n);
    let v = trunc(-a, n);
    let f = sub_flags(0, a, n);
    let g = with_flag(with_alu_flags(s.regs.rflags, f), CF, a != 0);
    let u = s.with_regs(s.regs.at(ip).flags(g));
    assert(executed(s, i, ip, tsc) == after_operand(u, i, 0, v as u64));
    operands_read_back(u, i, 0, v as u64, n);
    vstd::arithmetic::div_mod::lemma_small_mod(v as nat, modulus(n) as nat);
    lemma_alu_carry_bits(s, t, f, a != 0, v, n);
}

/// Complement: operand and result add up to all ones, and no flag changes.
pub proof fn complements_fill(s: Machine, i: Instr, ip: u64, tsc: u64, n: int, x: u64)
    requires
        works_on_one(s, i, ip, tsc, n, x),
        i.mnemonic == mnemonic::NOT,
    ensures
        ({
            let t = executed(s, i, ip, tsc).0;
            let a = x as int % modulus(n);
            &&& a + result(s, i, ip, tsc) == modulus(n) - 1
            &&& t.regs.rflags == s.regs.rflags
            &&& wrote(s, t, i, ip, n)
        }),
{
    let a = trunc(x as int, n);
    let u = s.with_regs(s.regs.at(ip));
    assert(executed(s, i, ip, tsc) == after_not(u, i));
    crate::jit::laws::lemma_reads_frame(s, i, 0, ip);
    let v = modulus(n) - 1 - a;
    operands_read_back(u, i, 0, v as u64, n);
    vstd::arithmetic::div_mod::lemma_small_mod(v as nat, modulus(n) as nat);
}

} // verus!
