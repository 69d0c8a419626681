//! Moves, integer arithmetic and bitwise instructions.

use vstd::prelude::*;

use crate::exec::access::{after_pop, after_push, pop_n, popped, push_n};
use crate::exec::model::{machine, reaches, same_layout, Machine, Next, StepExecError};
use crate::exec::operand::{
    address_of, after_operand, after_operand_sized, after_register, effective_address,
    op_size_bytes, operand_bytes, operand_value, read_op, write_op, write_op_sized, write_register,
};
use crate::insn::instr::Instr;
use crate::insn::kind;
use crate::mem::guest::GuestMemory;
use crate::regs::{
    add_flags, modulus, set_add_flags, set_logic_flags, set_sub_flags, sign_set, signed, size_mask,
    sub_flags, trunc, truncate, with_alu_flags, with_flag, with_logic_flags, RegFile, CF,
};

verus! {

/// Two-operand arithmetic.
#[derive(Debug, Clone, Copy, PartialEq, Eq, Structural)]
pub enum ArithOp {
    /// Addition.
    Add,
    /// Addition with carry.
    Adc,
    /// Subtraction.
    Sub,
    /// Subtraction with borrow.
    Sbb,
    /// Exclusive or.
    Xor,
    /// Or.
    Or,
    /// And.
    And,
    /// Comparison: a subtraction that only sets flags.
    Compare,
}

/// The value of `x` sign-extended from `size` bytes to eight.
pub open spec fn sign_extended(x: int, size: int) -> u64 {
    trunc(signed(x, size), 8) as u64
}

/// Sign-extends the low `size` bytes of `x` to eight.
pub fn sign_extend(x: u64, size: usize) -> (r: u64)
    ensures
        r == sign_extended(x as int, size as int),
{
    let t: u64 = truncate(x, size);
    if sign_set(t, size) {
        let fill: u64 = 0xffff_ffff_ffff_ffff - size_mask(size);
        assert(trunc(t as int, size as int) == t);
        fill + t
    } else {
        assert(trunc(t as int, size as int) == t);
        t
    }
}

/// `mov`.
pub open spec fn after_mov(s: Machine, i: Instr) -> Next {
    match operand_value(s, i, 1) {
        Err(f) => s.failed(f),
        Ok(v) => after_operand(s, i, 0, v),
    }
}

/// `mov`.
pub fn exec_mov(mem: &mut GuestMemory, regs: &mut RegFile, i: &Instr) -> (r: Result<
    (),
    StepExecError,
>)
    requires
        old(mem).wf(),
        i.wf(),
    ensures
        same_layout(*old(mem), *final(mem)),
        reaches(after_mov(machine(*old(mem), old(regs)@), *i), *final(mem), final(regs)@, r),
{
    match read_op(mem, regs, i, 1) {
        Ok(v) => write_op(mem, regs, i, 0, v),
        Err(e) => Err(e),
    }
}

/// `movzx`, `movsx` and `movsxd`.
pub open spec fn after_movx(s: Machine, i: Instr, sign: bool) -> Next {
    match operand_bytes(i, 1) {
        Err(f) => s.failed(f),
        Ok(from) => match operand_bytes(i, 0) {
            Err(f) => s.failed(f),
            Ok(to) => match operand_value(s, i, 1) {
                Err(f) => s.failed(f),
                Ok(v) => after_operand_sized(
                    s,
                    i,
                    0,
                    if sign {
                        sign_extended(v as int, from)
                    } else {
                        trunc(v as int, from) as u64
                    },
                    to,
                ),
            },
        },
    }
}

/// `movzx`, `movsx` and `movsxd`.
pub fn exec_movzx(mem: &mut GuestMemory, regs: &mut RegFile, i: &Instr, sign: bool) -> (r: Result<
    (),
    StepExecError,
>)
    requires
        old(mem).wf(),
        i.wf(),
    ensures
        same_layout(*old(mem), *final(mem)),
        reaches(after_movx(machine(*old(mem), old(regs)@), *i, sign), *final(mem), final(regs)@, r),
{
    let from: usize = match op_size_bytes(i, 1) {
        Ok(n) => n,
        Err(e) => {
            return Err(e);
        },
    };
    let to: usize = match op_size_bytes(i, 0) {
        Ok(n) => n,
        Err(e) => {
            return Err(e);
        },
    };
    let raw: u64 = match read_op(mem, regs, i, 1) {
        Ok(v) => v,
        Err(e) => {
            return Err(e);
        },
    };
    let extended: u64 = if sign {
        sign_extend(raw, from)
    } else {
        truncate(raw, from)
    };
    write_op_sized(mem, regs, i, 0, extended, to)
}

/// `lea`.
pub open spec fn after_lea(s: Machine, i: Instr) -> Next {
    match address_of(s.regs, i) {
        Err(f) => s.failed(f),
        Ok(a) => after_register(s, i.op0.reg, a),
    }
}

/// `lea`: writes the address of the memory operand, cut down to the register.
pub fn exec_lea(mem: &GuestMemory, regs: &mut RegFile, i: &Instr) -> (r: Result<(), StepExecError>)
    requires
        i.wf(),
    ensures
        reaches(after_lea(machine(*mem, old(regs)@), *i), *mem, final(regs)@, r),
{
    match effective_address(regs, i) {
        Ok(a) => write_register(regs, i.op0.reg, a),
        Err(e) => Err(e),
    }
}

/// The size of a stack operand: eight bytes, or two for a word register.
pub open spec fn stack_bytes(i: Instr) -> int {
    if i.op0.kind == kind::REGISTER && i.op0.reg.bytes() == 2 {
        2
    } else {
        8
    }
}

/// The size of a stack operand.
fn stack_size(i: &Instr) -> (n: usize)
    ensures
        n == stack_bytes(*i),
{
    if i.op0.kind == kind::REGISTER && i.op0.reg.size() == 2 {
        2
    } else {
        8
    }
}

/// `push`.
pub open spec fn after_push_op(s: Machine, i: Instr) -> Next {
    match operand_value(s, i, 0) {
        Err(f) => s.failed(f),
        Ok(v) => after_push(s, v, stack_bytes(i)),
    }
}

/// `push`.
pub fn exec_push(mem: &mut GuestMemory, regs: &mut RegFile, i: &Instr) -> (r: Result<
    (),
    StepExecError,
>)
    requires
        old(mem).wf(),
        i.wf(),
    ensures
        same_layout(*old(mem), *final(mem)),
        reaches(after_push_op(machine(*old(mem), old(regs)@), *i), *final(mem), final(regs)@, r),
{
    match read_op(mem, regs, i, 0) {
        Ok(v) => push_n(mem, regs, v, stack_size(i)),
        Err(e) => Err(e),
    }
}

/// `pop`: the operand is written after the stack pointer has moved.
pub open spec fn after_pop_op(s: Machine, i: Instr) -> Next {
    match popped(s, stack_bytes(i)) {
        Err(f) => s.failed(f),
        Ok(v) => after_operand(after_pop(s, stack_bytes(i)), i, 0, v),
    }
}

/// `pop`.
pub fn exec_pop(mem: &mut GuestMemory, regs: &mut RegFile, i: &Instr) -> (r: Result<
    (),
    StepExecError,
>)
    requires
        old(mem).wf(),
        i.wf(),
    ensures
        same_layout(*old(mem), *final(mem)),
        reaches(after_pop_op(machine(*old(mem), old(regs)@), *i), *final(mem), final(regs)@, r),
{
    match pop_n(mem, regs, stack_size(i)) {
        Ok(v) => write_op(mem, regs, i, 0, v),
        Err(e) => Err(e),
    }
}

/// The result of two-operand arithmetic on operands of `size` bytes, with the
/// carry `c` coming in.
pub open spec fn arith_result(op: ArithOp, d: u64, s: u64, c: int, size: int) -> u64 {
    match op {
        ArithOp::Add => trunc(d + s, size) as u64,
        ArithOp::Adc => trunc(d + s + c, size) as u64,
        ArithOp::Sub => trunc(d - s, size) as u64,
        ArithOp::Compare => trunc(d - s, size) as u64,
        ArithOp::Sbb => trunc(d - s - c, size) as u64,
        ArithOp::Xor => d ^ s,
        ArithOp::Or => d | s,
        ArithOp::And => d & s,
    }
}

/// The flags after two-operand arithmetic. With a carry coming in, the carry flag
/// is that of the whole sum or difference; the other flags are those of the
/// operation on `s + c` cut down to the operand size.
pub open spec fn arith_rflags(
    op: ArithOp,
    rflags: u64,
    d: u64,
    s: u64,
    c: int,
    size: int,
) -> u64 {
    match op {
        ArithOp::Add => with_alu_flags(rflags, add_flags(d as int, s as int, size)),
        ArithOp::Adc => with_flag(
            with_alu_flags(rflags, add_flags(d as int, trunc(s + c, size), size)),
            CF,
            d + s + c >= modulus(size),
        ),
        ArithOp::Sub => with_alu_flags(rflags, sub_flags(d as int, s as int, size)),
        ArithOp::Compare => with_alu_flags(rflags, sub_flags(d as int, s as int, size)),
        ArithOp::Sbb => with_flag(
            with_alu_flags(rflags, sub_flags(d as int, trunc(s + c, size), size)),
            CF,
            d < s + c,
        ),
        _ => with_logic_flags(rflags, arith_result(op, d, s, c, size) as int, size),
    }
}

/// Two-operand arithmetic.
pub open spec fn after_arith(s: Machine, i: Instr, op: ArithOp) -> Next {
    match operand_bytes(i, 0) {
        Err(f) => s.failed(f),
        Ok(size) => match operand_value(s, i, 0) {
            Err(f) => s.failed(f),
            Ok(dst) => match operand_value(s, i, 1) {
                Err(f) => s.failed(f),
                Ok(src) => {
                    let d = trunc(dst as int, size) as u64;
                    let v = trunc(src as int, size) as u64;
                    let c = if s.regs.flag(CF) {
                        1int
                    } else {
                        0
                    };
                    let t = s.with_regs(
                        s.regs.flags(arith_rflags(op, s.regs.rflags, d, v, c, size)),
                    );
                    if op == ArithOp::Compare {
                        t.done()
                    } else {
                        after_operand(t, i, 0, arith_result(op, d, v, c, size))
                    }
                },
            },
        },
    }
}

/// Bitwise operations on operands of one size stay in that size.
pub proof fn lemma_bitwise_bound(d: u64, s: u64, size: int)
    requires
        d < modulus(size),
        s < modulus(size),
    ensures
        (d ^ s) < modulus(size),
        (d | s) < modulus(size),
        (d & s) < modulus(size),
{
    assert(d < 0x100 && s < 0x100 ==> (d ^ s) < 0x100 && (d | s) < 0x100 && (d & s) < 0x100)
        by (bit_vector);
    assert(d < 0x1_0000 && s < 0x1_0000 ==> (d ^ s) < 0x1_0000 && (d | s) < 0x1_0000 && (d & s)
        < 0x1_0000) by (bit_vector);
    assert(d < 0x1_0000_0000 && s < 0x1_0000_0000 ==> (d ^ s) < 0x1_0000_0000 && (d | s)
        < 0x1_0000_0000 && (d & s) < 0x1_0000_0000) by (bit_vector);
}

/// Cutting down twice is cutting down once, for sums and differences too.
pub proof fn lemma_trunc_sum(d: int, s: int, c: int, size: int)
    ensures
        trunc(d + trunc(s + c, size), size) == trunc(d + s + c, size),
        trunc(d - trunc(s + c, size), size) == trunc(d - s - c, size),
        trunc(trunc(d, 8), size) == trunc(d, size),
        trunc(trunc(d, size), size) == trunc(d, size),
{
    let m = modulus(size);
    let t = trunc(s + c, size);
    let q = (s + c) / m;
    assert(s + c == q * m + t) by {
        vstd::arithmetic::div_mod::lemma_fundamental_div_mod(s + c, m);
        assert(q * m == m * q) by (nonlinear_arith);
    }
    vstd::arithmetic::div_mod::lemma_mod_multiples_vanish(q, d + t, m);
    vstd::arithmetic::div_mod::lemma_mod_multiples_vanish(-q, d - t, m);
    assert(m * q + (d + t) == d + s + c) by (nonlinear_arith)
        requires
            s + c == q * m + t,
    ;
    assert(m * (-q) + (d - t) == d - s - c) by (nonlinear_arith)
        requires
            s + c == q * m + t,
    ;
    lemma_trunc_narrow(d, size);
}

/// Cutting down to eight bytes first changes nothing.
pub proof fn lemma_trunc_narrow(x: int, size: int)
    ensures
        trunc(trunc(x, 8), size) == trunc(x, size),
{
    if size == 1 {
        vstd::arithmetic::div_mod::lemma_mod_mod(x, 0x100, 0x100_0000_0000_0000);
    } else if size == 2 {
        vstd::arithmetic::div_mod::lemma_mod_mod(x, 0x1_0000, 0x1_0000_0000_0000);
    } else if size == 4 {
        vstd::arithmetic::div_mod::lemma_mod_mod(x, 0x1_0000_0000, 0x1_0000_0000);
    }
}

/// Sets the flags of two-operand arithmetic and returns its result.
pub fn arith(regs: &mut RegFile, op: ArithOp, d: u64, s: u64, size: usize) -> (result: u64)
    requires
        d < modulus(size as int),
        s < modulus(size as int),
    ensures
        ({
            let c = if old(regs)@.flag(CF) {
                1int
            } else {
                0
            };
            &&& result == arith_result(op, d, s, c, size as int)
            &&& final(regs)@ == old(regs)@.flags(
                arith_rflags(op, old(regs)@.rflags, d, s, c, size as int),
            )
        }),
{
    let c: u64 = if regs.flag(CF) {
        1
    } else {
        0
    };
    match op {
        ArithOp::Add => {
            proof {
                lemma_wrap(d, s, c);
                lemma_trunc_narrow(d + s, size as int);
            }
            let result: u64 = d.wrapping_add(s);
            set_add_flags(regs, d, s, result, size);
            truncate(result, size)
        },
        ArithOp::Adc => arith_carry(regs, d, s, c, size),
        ArithOp::Sub => {
            proof {
                lemma_wrap(d, s, c);
                lemma_trunc_narrow(d - s, size as int);
            }
            let result: u64 = d.wrapping_sub(s);
            set_sub_flags(regs, d, s, result, size);
            truncate(result, size)
        },
        ArithOp::Compare => {
            proof {
                lemma_wrap(d, s, c);
                lemma_trunc_narrow(d - s, size as int);
            }
            let result: u64 = d.wrapping_sub(s);
            set_sub_flags(regs, d, s, result, size);
            truncate(result, size)
        },
        ArithOp::Sbb => arith_borrow(regs, d, s, c, size),
        ArithOp::Xor => {
            proof {
                lemma_bitwise_bound(d, s, size as int);
            }
            let result: u64 = d ^ s;
            assert(trunc(result as int, size as int) == result);
            set_logic_flags(regs, result, size);
            result
        },
        ArithOp::Or => {
            proof {
                lemma_bitwise_bound(d, s, size as int);
            }
            let result: u64 = d | s;
            assert(trunc(result as int, size as int) == result);
            set_logic_flags(regs, result, size);
            result
        },
        ArithOp::And => {
            proof {
                lemma_bitwise_bound(d, s, size as int);
            }
            let result: u64 = d & s;
            assert(trunc(result as int, size as int) == result);
            set_logic_flags(regs, result, size);
            result
        },
    }
}

/// Addition with the carry `c`.
fn arith_carry(regs: &mut RegFile, d: u64, s: u64, c: u64, size: usize) -> (result: u64)
    requires
        d < modulus(size as int),
        s < modulus(size as int),
        c <= 1,
    ensures
        result == arith_result(ArithOp::Adc, d, s, c as int, size as int),
        final(regs)@ == old(regs)@.flags(
            arith_rflags(ArithOp::Adc, old(regs)@.rflags, d, s, c as int, size as int),
        ),
{
    proof {
        lemma_wrap(d, s, c);
        lemma_trunc_sum(d as int, s as int, c as int, size as int);
        lemma_trunc_narrow(s + c, size as int);
        lemma_trunc_narrow(d + s + c, size as int);
    }
    let result: u64 = d.wrapping_add(s).wrapping_add(c);
    let wide: u128 = d as u128 + s as u128 + c as u128;
    let t: u64 = truncate(s.wrapping_add(c), size);
    set_add_flags(regs, d, t, result, size);
    regs.set_flag(CF, wide > size_mask(size) as u128);
    truncate(result, size)
}

/// Subtraction with the borrow `c`.
fn arith_borrow(regs: &mut RegFile, d: u64, s: u64, c: u64, size: usize) -> (result: u64)
    requires
        d < modulus(size as int),
        s < modulus(size as int),
        c <= 1,
    ensures
        result == arith_result(ArithOp::Sbb, d, s, c as int, size as int),
        final(regs)@ == old(regs)@.flags(
            arith_rflags(ArithOp::Sbb, old(regs)@.rflags, d, s, c as int, size as int),
        ),
{
    proof {
        lemma_wrap(d, s, c);
        lemma_trunc_sum(d as int, s as int, c as int, size as int);
        lemma_trunc_narrow(s + c, size as int);
        lemma_trunc_narrow(d - s - c, size as int);
    }
    let result: u64 = d.wrapping_sub(s).wrapping_sub(c);
    let wide: u128 = s as u128 + c as u128;
    let t: u64 = truncate(s.wrapping_add(c), size);
    set_sub_flags(regs, d, t, result, size);
    regs.set_flag(CF, (d as u128) < wide);
    truncate(result, size)
}

/// Wrapping arithmetic is arithmetic cut down to eight bytes.
proof fn lemma_wrap(d: u64, s: u64, c: u64)
    requires
        c <= 1,
    ensures
        d.wrapping_add(s) == trunc(d + s, 8),
        d.wrapping_add(s).wrapping_add(c) == trunc(d + s + c, 8),
        d.wrapping_sub(s) == trunc(d - s, 8),
        d.wrapping_sub(s).wrapping_sub(c) == trunc(d - s - c, 8),
        s.wrapping_add(c) == trunc(s + c, 8),
{
}

/// Two-operand arithmetic.
pub fn exec_arith(mem: &mut GuestMemory, regs: &mut RegFile, i: &Instr, op: ArithOp) -> (r: Result<
    (),
    StepExecError,
>)
    requires
        old(mem).wf(),
        i.wf(),
    ensures
        same_layout(*old(mem), *final(mem)),
        reaches(after_arith(machine(*old(mem), old(regs)@), *i, op), *final(mem), final(regs)@, r),
{
    let size: usize = match op_size_bytes(i, 0) {
        Ok(n) => n,
        Err(e) => {
            return Err(e);
        },
    };
    let dst: u64 = match read_op(mem, regs, i, 0) {
        Ok(v) => v,
        Err(e) => {
            return Err(e);
        },
    };
    let src: u64 = match read_op(mem, regs, i, 1) {
        Ok(v) => v,
        Err(e) => {
            return Err(e);
        },
    };
    let d: u64 = truncate(dst, size);
    let s: u64 = truncate(src, size);
    let result: u64 = arith(regs, op, d, s, size);
    if op == ArithOp::Compare {
        return Ok(());
    }
    write_op(mem, regs, i, 0, result)
}

} // verus!
