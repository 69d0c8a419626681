//! Single-operand arithmetic, conditional moves, exchanges and bit instructions.

use vstd::arithmetic::power2::pow2;
use vstd::prelude::*;
use vstd::string::StringExecFns;

use crate::endian::{le_bytes, le_value, lemma_le_bytes_len, lemma_le_value_bound, lemma_pow256};
use crate::endian::{read_le, write_le};
use crate::error::CpuError;
use crate::exec::access::{after_store, loaded, read_mem_value, write_mem_value};
use crate::exec::model::{machine, reaches, same_layout, Fault, Machine, Next, StepExecError};
use crate::exec::operand::{
    address_of, after_operand, after_register, effective_address, op_size_bytes, operand_bytes,
    operand_value, read_op, read_register, register_value, write_op, write_register,
};
use crate::insn::decode::{iced_op_kind_name, op_kind_name};
use crate::insn::instr::Instr;
use crate::insn::kind;
use crate::mem::guest::GuestMemory;
use crate::regs::{
    add_flags, modulus, set_add_flags, set_logic_flags, set_sub_flags, signed, size_mask, sub_flags,
    trunc, truncate, with_alu_flags, with_flag, with_logic_flags, Reg, RegFile, CF, RAX,
};
use crate::text;

verus! {

/// `test`.
pub open spec fn after_test(s: Machine, i: Instr) -> Next {
    match operand_bytes(i, 0) {
        Err(f) => s.failed(f),
        Ok(size) => match operand_value(s, i, 0) {
            Err(f) => s.failed(f),
            Ok(a) => match operand_value(s, i, 1) {
                Err(f) => s.failed(f),
                Ok(b) => s.with_regs(
                    s.regs.flags(
                        with_logic_flags(s.regs.rflags, trunc((a & b) as int, size), size),
                    ),
                ).done(),
            },
        },
    }
}

/// `test`: the flags of a bitwise and.
pub fn exec_test(mem: &GuestMemory, regs: &mut RegFile, i: &Instr) -> (r: Result<(), StepExecError>)
    requires
        mem.wf(),
        i.wf(),
    ensures
        reaches(after_test(machine(*mem, old(regs)@), *i), *mem, final(regs)@, r),
{
    let size: usize = match op_size_bytes(i, 0) {
        Ok(n) => n,
        Err(e) => {
            return Err(e);
        },
    };
    let a: u64 = match read_op(mem, regs, i, 0) {
        Ok(v) => v,
        Err(e) => {
            return Err(e);
        },
    };
    let b: u64 = match read_op(mem, regs, i, 1) {
        Ok(v) => v,
        Err(e) => {
            return Err(e);
        },
    };
    set_logic_flags(regs, a & b, size);
    Ok(())
}

/// `inc` and `dec`: the flags of adding or subtracting one, but for the carry
/// flag, which stays.
pub open spec fn after_inc_dec(s: Machine, i: Instr, inc: bool) -> Next {
    match operand_bytes(i, 0) {
        Err(f) => s.failed(f),
        Ok(size) => match operand_value(s, i, 0) {
            Err(f) => s.failed(f),
            Ok(v) => {
                let d = trunc(v as int, size);
                let flags = if inc {
                    add_flags(d, 1, size)
                } else {
                    sub_flags(d, 1, size)
                };
                let rflags = with_flag(
                    with_alu_flags(s.regs.rflags, flags),
                    CF,
                    s.regs.flag(CF),
                );
                let result = trunc(
                    if inc {
                        d + 1
                    } else {
                        d - 1
                    },
                    size,
                ) as u64;
                after_operand(s.with_regs(s.regs.flags(rflags)), i, 0, result)
            },
        },
    }
}

/// `inc` and `dec`.
pub fn exec_inc_dec(mem: &mut GuestMemory, regs: &mut RegFile, i: &Instr, inc: bool) -> (r: Result<
    (),
    StepExecError,
>)
    requires
        old(mem).wf(),
        i.wf(),
    ensures
        same_layout(*old(mem), *final(mem)),
        reaches(
            after_inc_dec(machine(*old(mem), old(regs)@), *i, inc),
            *final(mem),
            final(regs)@,
            r,
        ),
{
    let size: usize = match op_size_bytes(i, 0) {
        Ok(n) => n,
        Err(e) => {
            return Err(e);
        },
    };
    let dst: u64 = match read_op(mem, regs, i, 0) {
        Ok(v) => truncate(v, size),
        Err(e) => {
            return Err(e);
        },
    };
    let carry: bool = regs.flag(CF);
    proof {
        crate::exec::alu::lemma_trunc_narrow(dst + 1, size as int);
        crate::exec::alu::lemma_trunc_narrow(dst - 1, size as int);
    }
    let result: u64 = if inc {
        let sum: u64 = dst.wrapping_add(1);
        set_add_flags(regs, dst, 1, sum, size);
        sum
    } else {
        let difference: u64 = dst.wrapping_sub(1);
        set_sub_flags(regs, dst, 1, difference, size);
        difference
    };
    regs.set_flag(CF, carry);
    write_op(mem, regs, i, 0, truncate(result, size))
}

/// `neg`.
pub open spec fn after_neg(s: Machine, i: Instr) -> Next {
    match operand_bytes(i, 0) {
        Err(f) => s.failed(f),
        Ok(size) => match operand_value(s, i, 0) {
            Err(f) => s.failed(f),
            Ok(v) => {
                let d = trunc(v as int, size);
                let rflags = with_flag(
                    with_alu_flags(s.regs.rflags, sub_flags(0, d, size)),
                    CF,
                    d != 0,
                );
                after_operand(s.with_regs(s.regs.flags(rflags)), i, 0, trunc(-d, size) as u64)
            },
        },
    }
}

/// `neg`: the difference from zero; the carry flag says that the operand was not
/// zero.
pub fn exec_neg(mem: &mut GuestMemory, regs: &mut RegFile, i: &Instr) -> (r: Result<
    (),
    StepExecError,
>)
    requires
        old(mem).wf(),
        i.wf(),
    ensures
        same_layout(*old(mem), *final(mem)),
        reaches(after_neg(machine(*old(mem), old(regs)@), *i), *final(mem), final(regs)@, r),
{
    let size: usize = match op_size_bytes(i, 0) {
        Ok(n) => n,
        Err(e) => {
            return Err(e);
        },
    };
    let dst: u64 = match read_op(mem, regs, i, 0) {
        Ok(v) => truncate(v, size),
        Err(e) => {
            return Err(e);
        },
    };
    proof {
        crate::exec::alu::lemma_trunc_narrow(0 - dst, size as int);
    }
    let zero: u64 = 0;
    let result: u64 = zero.wrapping_sub(dst);
    set_sub_flags(regs, 0, dst, result, size);
    regs.set_flag(CF, dst != 0);
    write_op(mem, regs, i, 0, truncate(result, size))
}

/// `not`: every bit of the operand flipped; no flag changes.
pub open spec fn after_not(s: Machine, i: Instr) -> Next {
    match operand_bytes(i, 0) {
        Err(f) => s.failed(f),
        Ok(size) => match operand_value(s, i, 0) {
            Err(f) => s.failed(f),
            Ok(v) => after_operand(
                s,
                i,
                0,
                (modulus(size) - 1 - trunc(v as int, size)) as u64,
            ),
        },
    }
}

/// `not`.
pub fn exec_not(mem: &mut GuestMemory, regs: &mut RegFile, i: &Instr) -> (r: Result<
    (),
    StepExecError,
>)
    requires
        old(mem).wf(),
        i.wf(),
    ensures
        same_layout(*old(mem), *final(mem)),
        reaches(after_not(machine(*old(mem), old(regs)@), *i), *final(mem), final(regs)@, r),
{
    let size: usize = match op_size_bytes(i, 0) {
        Ok(n) => n,
        Err(e) => {
            return Err(e);
        },
    };
    let dst: u64 = match read_op(mem, regs, i, 0) {
        Ok(v) => truncate(v, size),
        Err(e) => {
            return Err(e);
        },
    };
    write_op(mem, regs, i, 0, size_mask(size) - dst)
}

/// `cmovcc`: nothing at all happens if the condition does not hold.
pub open spec fn after_cmov(s: Machine, i: Instr, taken: bool) -> Next {
    if taken {
        match operand_value(s, i, 1) {
            Err(f) => s.failed(f),
            Ok(v) => after_operand(s, i, 0, v),
        }
    } else {
        s.done()
    }
}

/// `cmovcc`.
pub fn exec_cmov(mem: &mut GuestMemory, regs: &mut RegFile, i: &Instr, taken: bool) -> (r: Result<
    (),
    StepExecError,
>)
    requires
        old(mem).wf(),
        i.wf(),
    ensures
        same_layout(*old(mem), *final(mem)),
        reaches(after_cmov(machine(*old(mem), old(regs)@), *i, taken), *final(mem), final(regs)@, r),
{
    if taken {
        match read_op(mem, regs, i, 1) {
            Ok(v) => write_op(mem, regs, i, 0, v),
            Err(e) => Err(e),
        }
    } else {
        Ok(())
    }
}

/// `setcc`.
pub open spec fn after_setcc(s: Machine, i: Instr, taken: bool) -> Next {
    after_operand(
        s,
        i,
        0,
        if taken {
            1
        } else {
            0
        },
    )
}

/// `setcc`.
pub fn exec_setcc(mem: &mut GuestMemory, regs: &mut RegFile, i: &Instr, taken: bool) -> (r: Result<
    (),
    StepExecError,
>)
    requires
        old(mem).wf(),
        i.wf(),
    ensures
        same_layout(*old(mem), *final(mem)),
        reaches(
            after_setcc(machine(*old(mem), old(regs)@), *i, taken),
            *final(mem),
            final(regs)@,
            r,
        ),
{
    let value: u64 = if taken {
        1
    } else {
        0
    };
    write_op(mem, regs, i, 0, value)
}

/// The low `n` bytes of `v` in reverse order.
pub open spec fn byte_swapped(v: u64, n: nat) -> u64 {
    le_value(le_bytes(v as int, n).reverse()) as u64
}

/// The low `n` bytes of `v` in reverse order.
pub fn swap_bytes(v: u64, n: usize) -> (r: u64)
    requires
        n <= 8,
    ensures
        r == byte_swapped(v, n as nat),
        r == le_value(le_bytes(v as int, n as nat).reverse()),
{
    let bytes = write_le(v, n);
    let mut reversed: Vec<u8> = Vec::new();
    let mut k: usize = n;
    while k > 0
        invariant
            k <= n,
            bytes@.len() == n,
            reversed@.len() == n - k,
            forall|j: int| 0 <= j < n - k ==> #[trigger] reversed@[j] == bytes@[n - 1 - j],
        decreases k,
    {
        k = k - 1;
        reversed.push(bytes[k]);
    }
    assert(reversed@ =~= bytes@.reverse());
    read_le(reversed.as_slice())
}

/// `bswap`.
pub open spec fn after_bswap(s: Machine, i: Instr) -> Next {
    let reg = i.op0.reg;
    match register_value(s.regs, reg) {
        Err(f) => s.failed(f),
        Ok(v) => if reg.bytes() == 4 || reg.bytes() == 8 {
            after_register(s, reg, byte_swapped(v, reg.bytes() as nat))
        } else {
            s.failed(Fault::Cpu("bswap size "@ + text::dec(reg.bytes() as nat)))
        },
    }
}

/// `bswap`: reverses the bytes of a register.
pub fn exec_bswap(mem: &GuestMemory, regs: &mut RegFile, i: &Instr) -> (r: Result<
    (),
    StepExecError,
>)
    requires
        i.wf(),
    ensures
        reaches(after_bswap(machine(*mem, old(regs)@), *i), *mem, final(regs)@, r),
{
    let reg = i.op0.reg;
    let v: u64 = match read_register(regs, reg) {
        Ok(v) => v,
        Err(e) => {
            return Err(e);
        },
    };
    match reg.size() {
        4 => write_register(regs, reg, swap_bytes(v, 4)),
        8 => write_register(regs, reg, swap_bytes(v, 8)),
        n => Err(StepExecError::Cpu(CpuError::Message(text::with_dec("bswap size ", n as u64)))),
    }
}

/// Reversing the bytes of a number twice gives the number back.
pub proof fn byte_swap_is_involution(v: u64, n: nat)
    requires
        n == 4 || n == 8,
        v < crate::endian::pow256(n),
    ensures
        byte_swapped(byte_swapped(v, n), n) == v,
{
    let b = le_bytes(v as int, n);
    lemma_le_bytes_len(v as int, n);
    lemma_pow256();
    lemma_le_value_bound(b.reverse());
    crate::endian::value_round_trip(b.reverse());
    assert(b.reverse().reverse() =~= b);
    crate::endian::bytes_round_trip(v as int, n);
}

/// Bit instructions.
#[derive(Debug, Clone, Copy, PartialEq, Eq, Structural)]
pub enum BitOp {
    /// Test.
    Bt,
    /// Test and set.
    Bts,
    /// Test and reset.
    Btr,
    /// Test and complement.
    Btc,
}

/// Whether bit `k` of `v` is set.
pub open spec fn bit_at(v: u64, k: nat) -> bool {
    (v as int / pow2(k) as int) % 2 == 1
}

/// `v` with bit `k` changed as `op` says.
pub open spec fn bit_changed(op: BitOp, v: u64, k: nat) -> u64 {
    let p = pow2(k) as int;
    match op {
        BitOp::Bt => v,
        BitOp::Bts => if bit_at(v, k) {
            v
        } else {
            (v + p) as u64
        },
        BitOp::Btr => if bit_at(v, k) {
            (v - p) as u64
        } else {
            v
        },
        BitOp::Btc => if bit_at(v, k) {
            (v - p) as u64
        } else {
            (v + p) as u64
        },
    }
}

/// Two to the power of `k`.
pub fn power_of_two(k: u32) -> (p: u64)
    requires
        k < 64,
    ensures
        p == pow2(k as nat),
        p >= 1,
{
    proof {
        vstd::bits::lemma_u64_pow2_no_overflow(k as nat);
        vstd::bits::lemma_u64_shl_is_mul(1, k as u64);
        vstd::arithmetic::power2::lemma_pow2_pos(k as nat);
        assert(1u64 << (k as u64) == 1u64 << k);
    }
    1u64 << k
}

/// Setting a clear bit of a number below `2^n` stays below `2^n`.
proof fn lemma_bit_room(v: int, p: int, q: int)
    requires
        0 < p,
        0 < q,
        0 <= v < p * (2 * q),
    ensures
        (v / p) % 2 == 0 ==> v + p < p * (2 * q),
        (v / p) % 2 == 1 ==> v >= p,
{
    let d = v / p;
    vstd::arithmetic::div_mod::lemma_fundamental_div_mod(v, p);
    vstd::arithmetic::div_mod::lemma_div_is_ordered(0, v, p);
    assert(d < 2 * q) by (nonlinear_arith)
        requires
            v == p * d + v % p,
            0 <= v % p,
            v < p * (2 * q),
            0 < p,
    ;
    if d % 2 == 0 {
        assert(d + 1 < 2 * q) by {
            assert((2 * q) % 2 == 0);
        }
        assert(v + p < p * (2 * q)) by (nonlinear_arith)
            requires
                v == p * d + v % p,
                v % p < p,
                d + 1 < 2 * q,
                0 < p,
        ;
    } else {
        assert(v >= p) by (nonlinear_arith)
            requires
                v == p * d + v % p,
                0 <= v % p,
                d >= 1,
                0 < p,
        ;
    }
}

/// Tests bit `k` of `v` and changes it as `op` says.
pub fn bit_op(op: BitOp, v: u64, k: u32) -> (r: (bool, u64))
    requires
        k < 64,
    ensures
        r.0 == bit_at(v, k as nat),
        r.1 == bit_changed(op, v, k as nat),
{
    let p: u64 = power_of_two(k);
    proof {
        vstd::arithmetic::power2::lemma_pow2_adds(k as nat, (64 - k) as nat);
        vstd::arithmetic::power2::lemma_pow2_unfold((64 - k) as nat);
        vstd::arithmetic::power2::lemma_pow2_pos((63 - k) as nat);
        vstd::arithmetic::power2::lemma2_to64();
        lemma_bit_room(v as int, p as int, pow2((63 - k) as nat) as int);
    }
    let set: bool = (v / p) % 2 == 1;
    let changed: u64 = match op {
        BitOp::Bt => v,
        BitOp::Bts => if set {
            v
        } else {
            v + p
        },
        BitOp::Btr => if set {
            v - p
        } else {
            v
        },
        BitOp::Btc => if set {
            v - p
        } else {
            v + p
        },
    };
    (set, changed)
}

/// `bt`, `bts`, `btr` and `btc`. In a register the bit number counts modulo its
/// width; in memory it reaches bytes before and after the operand.
pub open spec fn after_bit(s: Machine, i: Instr, op: BitOp) -> Next {
    match operand_value(s, i, 1) {
        Err(f) => s.failed(f),
        Ok(offset) => if i.op0.kind == kind::REGISTER {
            match operand_value(s, i, 0) {
                Err(f) => s.failed(f),
                Ok(v) => {
                    let k = (offset as int % (8 * i.op0.reg.bytes())) as nat;
                    let t = s.with_regs(s.regs.flag_set(CF, bit_at(v, k)));
                    if op == BitOp::Bt {
                        t.done()
                    } else {
                        after_operand(t, i, 0, bit_changed(op, v, k))
                    }
                },
            }
        } else if i.op0.kind == kind::MEMORY {
            match address_of(s.regs, i) {
                Err(f) => s.failed(f),
                Ok(base) => {
                    let a = trunc(base + signed(offset as int, 8) / 8, 8) as u64;
                    match loaded(s.mem, a, 1) {
                        Err(f) => s.failed(f),
                        Ok(v) => {
                            let k = (offset as int % 8) as nat;
                            let t = s.with_regs(s.regs.flag_set(CF, bit_at(v, k)));
                            if op == BitOp::Bt {
                                t.done()
                            } else {
                                after_store(t, a, bit_changed(op, v, k), 1)
                            }
                        },
                    }
                },
            }
        } else {
            s.failed(Fault::Cpu("bt op0 kind "@ + iced_op_kind_name(i.op0.kind)))
        },
    }
}

/// `bt`, `bts`, `btr` and `btc`.
pub fn exec_bit(mem: &mut GuestMemory, regs: &mut RegFile, i: &Instr, op: BitOp) -> (r: Result<
    (),
    StepExecError,
>)
    requires
        old(mem).wf(),
        i.wf(),
    ensures
        same_layout(*old(mem), *final(mem)),
        reaches(after_bit(machine(*old(mem), old(regs)@), *i, op), *final(mem), final(regs)@, r),
{
    let offset: u64 = match read_op(mem, regs, i, 1) {
        Ok(v) => v,
        Err(e) => {
            return Err(e);
        },
    };
    match i.op0.kind {
        kind::REGISTER => {
            let v: u64 = match read_op(mem, regs, i, 0) {
                Ok(v) => v,
                Err(e) => {
                    return Err(e);
                },
            };
            let bits: u64 = 8 * i.op0.reg.size() as u64;
            let k: u32 = (offset % bits) as u32;
            let (carry, changed) = bit_op(op, v, k);
            regs.set_flag(CF, carry);
            if op == BitOp::Bt {
                return Ok(());
            }
            write_op(mem, regs, i, 0, changed)
        },
        kind::MEMORY => {
            let base: u64 = match effective_address(regs, i) {
                Ok(a) => a,
                Err(e) => {
                    return Err(e);
                },
            };
            let a: u64 = byte_of_bit(base, offset);
            let v: u64 = match read_mem_value(mem, a, 1) {
                Ok(v) => v,
                Err(e) => {
                    return Err(e);
                },
            };
            let (carry, changed) = bit_op(op, v, (offset % 8) as u32);
            regs.set_flag(CF, carry);
            if op == BitOp::Bt {
                return Ok(());
            }
            write_mem_value(mem, a, changed, 1)
        },
        other => {
            let name = op_kind_name(other);
            let mut m = "bt op0 kind ".to_owned();
            m.append(name.as_str());
            Err(StepExecError::Cpu(CpuError::Message(m)))
        },
    }
}

/// The address of the byte that holds bit `offset`, read as a signed number,
/// counted from `base`.
fn byte_of_bit(base: u64, offset: u64) -> (a: u64)
    ensures
        a == trunc(base + signed(offset as int, 8) / 8, 8),
{
    let step: u64 = offset / 8;
    assert(trunc(offset as int, 8) == offset);
    if offset >= 0x8000_0000_0000_0000 {
        let back: u64 = 0x2000_0000_0000_0000 - step;
        assert(signed(offset as int, 8) / 8 == -(back as int));
        assert(trunc(base - back, 8) == if base >= back {
            base - back
        } else {
            base - back + 0x1_0000_0000_0000_0000
        });
        base.wrapping_sub(back)
    } else {
        assert(signed(offset as int, 8) / 8 == step as int);
        assert(trunc(base + step, 8) == if base + step > u64::MAX {
            base + step - 0x1_0000_0000_0000_0000
        } else {
            base + step
        });
        base.wrapping_add(step)
    }
}

/// `xchg`.
pub open spec fn after_xchg(s: Machine, i: Instr) -> Next {
    match operand_value(s, i, 0) {
        Err(f) => s.failed(f),
        Ok(a) => match operand_value(s, i, 1) {
            Err(f) => s.failed(f),
            Ok(b) => match after_operand(s, i, 0, b) {
                (t, Some(f)) => t.failed(f),
                (t, None) => after_operand(t, i, 1, a),
            },
        },
    }
}

/// `xchg`: swaps two operands.
pub fn exec_xchg(mem: &mut GuestMemory, regs: &mut RegFile, i: &Instr) -> (r: Result<
    (),
    StepExecError,
>)
    requires
        old(mem).wf(),
        i.wf(),
    ensures
        same_layout(*old(mem), *final(mem)),
        reaches(after_xchg(machine(*old(mem), old(regs)@), *i), *final(mem), final(regs)@, r),
{
    let a: u64 = match read_op(mem, regs, i, 0) {
        Ok(v) => v,
        Err(e) => {
            return Err(e);
        },
    };
    let b: u64 = match read_op(mem, regs, i, 1) {
        Ok(v) => v,
        Err(e) => {
            return Err(e);
        },
    };
    match write_op(mem, regs, i, 0, b) {
        Ok(()) => write_op(mem, regs, i, 1, a),
        Err(e) => Err(e),
    }
}

/// The accumulator of `size` bytes.
pub open spec fn accumulator(size: int) -> Reg {
    if size == 1 {
        Reg::Low8(0)
    } else if size == 2 {
        Reg::Word(0)
    } else if size == 4 {
        Reg::Dword(0)
    } else {
        Reg::Qword(0)
    }
}

/// The accumulator of `size` bytes.
pub fn accumulator_reg(size: usize) -> (r: Reg)
    ensures
        r == accumulator(size as int),
        r.wf(),
        r.gpr_index() == Some(0int),
{
    match size {
        1 => Reg::Low8(0),
        2 => Reg::Word(0),
        4 => Reg::Dword(0),
        _ => Reg::Qword(0),
    }
}

/// `cmpxchg`: the flags are those of comparing the accumulator with the
/// destination. If they are equal the source goes to the destination, otherwise
/// the destination goes to the accumulator.
pub open spec fn after_compare_exchange(s: Machine, i: Instr) -> Next {
    match operand_bytes(i, 0) {
        Err(f) => s.failed(f),
        Ok(size) => match operand_value(s, i, 0) {
            Err(f) => s.failed(f),
            Ok(dst) => match operand_value(s, i, 1) {
                Err(f) => s.failed(f),
                Ok(src) => {
                    let d = trunc(dst as int, size);
                    let acc = trunc(s.regs.gpr[RAX as int] as int, size);
                    let t = s.with_regs(
                        s.regs.flags(with_alu_flags(s.regs.rflags, sub_flags(acc, d, size))),
                    );
                    if acc == d {
                        after_operand(t, i, 0, trunc(src as int, size) as u64)
                    } else {
                        after_register(t, accumulator(size), d as u64)
                    }
                },
            },
        },
    }
}

/// The compare-and-exchange instruction; a lock prefix is ignored.
pub fn exec_compare_exchange(mem: &mut GuestMemory, regs: &mut RegFile, i: &Instr) -> (r: Result<
    (),
    StepExecError,
>)
    requires
        old(mem).wf(),
        i.wf(),
    ensures
        same_layout(*old(mem), *final(mem)),
        reaches(
            after_compare_exchange(machine(*old(mem), old(regs)@), *i),
            *final(mem),
            final(regs)@,
            r,
        ),
{
    let size: usize = match op_size_bytes(i, 0) {
        Ok(n) => n,
        Err(e) => {
            return Err(e);
        },
    };
    let dest: u64 = match read_op(mem, regs, i, 0) {
        Ok(v) => truncate(v, size),
        Err(e) => {
            return Err(e);
        },
    };
    let src: u64 = match read_op(mem, regs, i, 1) {
        Ok(v) => truncate(v, size),
        Err(e) => {
            return Err(e);
        },
    };
    let acc: u64 = truncate(regs.gpr(RAX), size);
    proof {
        crate::exec::alu::lemma_trunc_narrow(acc - dest, size as int);
    }
    let result: u64 = acc.wrapping_sub(dest);
    set_sub_flags(regs, acc, dest, result, size);
    if acc == dest {
        write_op(mem, regs, i, 0, src)
    } else {
        write_register(regs, accumulator_reg(size), dest)
    }
}

/// `inc` and `dec` leave the carry flag alone.
pub proof fn counting_keeps_the_carry(s: Machine, i: Instr, inc: bool)
    ensures
        after_inc_dec(s, i, inc).0.regs.flag(CF) == s.regs.flag(CF),
{
    match (operand_bytes(i, 0), operand_value(s, i, 0)) {
        (Ok(size), Ok(v)) => {
            let d = trunc(v as int, size);
            let flags = if inc {
                add_flags(d, 1, size)
            } else {
                sub_flags(d, 1, size)
            };
            let mid = with_alu_flags(s.regs.rflags, flags);
            assert((mid | 1) & 1 != 0 && (mid & !1u64) & 1 == 0) by (bit_vector);
        },
        _ => {},
    }
}

} // verus!
