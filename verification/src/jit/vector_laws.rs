//! Compiled vector instructions and the interpreter agree.

use vstd::prelude::*;

use crate::endian::{
    bytes_round_trip, le_bytes, le_value, lemma_le_bytes_len, lemma_le_value_bound,
    lemma_le_value_split, lemma_pow256, pow256, value_round_trip,
};
use crate::exec::model::{Machine, Next};
use crate::exec::operand::address_of;
use crate::exec::sse::{
    after_sse_mov, after_sse_movd, after_sse_movq, after_sse_xor, sse_value, vector_movsd,
};
use crate::exec::step::{after_integer, after_vector, executed, is_simple};
use crate::insn::instr::{Instr, Operand};
use crate::insn::kind;
use crate::insn::mnemonic;
use crate::jit::block::SseBit;
use crate::jit::lower::{accepted, accepted_vector, compiled, compiled_vector, vector_move};
use crate::jit::state::xmm_join;
use crate::jit::vector::{
    after_transfer, after_vector_bit, after_vector_move, after_wide_store, lemma_halves,
    moved_into, transfer_source, vector_index, vector_source, wide_load, xmm_high, xmm_low,
};
use crate::jit::vector_ops::{transfer_readable, transfer_writable};
use crate::mem::model::{
    in_bounds, is_mapped, lemma_mapped_run, lemma_store_append, load, mapped_run, store, Bytes,
};

verus! {

/// What loading in halves gives.
proof fn lemma_wide_load(m: Bytes, a: u64, n: int)
    requires
        in_bounds(m),
        n == 4 || n == 8 || n == 16,
        wide_load(m, a, n) is Ok,
    ensures
        is_mapped(m, a as int, n as nat),
        ({
            let (low, high) = wide_load(m, a, n)->Ok_0;
            &&& le_value(load(m, a as int, n as nat)) == low + high * 0x1_0000_0000_0000_0000
            &&& n < 16 ==> high == 0 && low < pow256(n as nat)
        }),
{
    lemma_pow256();
    if n == 16 {
        assert(is_mapped(m, a as int, 8));
        assert(m.contains_key(a as int));
        assert(m.contains_key(a as int + 7));
        assert(a.wrapping_add(8) == a + 8);
        assert(is_mapped(m, a as int + 8, 8));
        assert forall|va: int| a <= va < a + 16 implies m.contains_key(va) by {
            if va < a + 8 {
                assert(m.contains_key(va));
            }
        }
        let s = load(m, a as int, 16);
        lemma_le_value_split(s, 8);
        assert(s.take(8) =~= load(m, a as int, 8));
        assert(s.skip(8) =~= load(m, a as int + 8, 8));
        lemma_le_value_bound(s.take(8));
        lemma_le_value_bound(s.skip(8));
    } else {
        lemma_le_value_bound(load(m, a as int, n as nat));
    }
}

/// The bytes of a vector are those of its halves.
proof fn lemma_wide_bytes(low: u64, high: u64)
    ensures
        le_bytes(xmm_join(low, high) as int, 16) == le_bytes(low as int, 8) + le_bytes(
            high as int,
            8,
        ),
{
    lemma_pow256();
    lemma_le_bytes_len(low as int, 8);
    lemma_le_bytes_len(high as int, 8);
    let b = le_bytes(low as int, 8) + le_bytes(high as int, 8);
    lemma_le_value_split(b, 8);
    assert(b.take(8) =~= le_bytes(low as int, 8));
    assert(b.skip(8) =~= le_bytes(high as int, 8));
    bytes_round_trip(low as int, 8);
    bytes_round_trip(high as int, 8);
    value_round_trip(b);
    lemma_halves(low, high);
}

/// What storing in halves does.
proof fn lemma_wide_store(s: Machine, a: u64, low: u64, high: u64, n: int)
    requires
        in_bounds(s.mem),
        n == 4 || n == 8 || n == 16,
        after_wide_store(s, a, low, high, n).1 is None,
    ensures
        mapped_run(s.mem, a as int, n as nat) == n,
        after_wide_store(s, a, low, high, n).0 == s.with_mem(
            store(
                s.mem,
                a as int,
                if n == 16 {
                    le_bytes(xmm_join(low, high) as int, 16)
                } else {
                    le_bytes(low as int, n as nat)
                },
            ),
        ),
{
    let m = s.mem;
    lemma_le_bytes_len(low as int, 8);
    lemma_le_bytes_len(high as int, 8);
    lemma_le_bytes_len(low as int, n as nat);
    if n == 16 {
        lemma_mapped_run(m, a as int, 8);
        assert(le_bytes(low as int, 8).take(8) =~= le_bytes(low as int, 8));
        assert(le_bytes(high as int, 8).take(8) =~= le_bytes(high as int, 8));
        let m1 = store(m, a as int, le_bytes(low as int, 8));
        assert(is_mapped(m, a as int, 8));
        assert(m.contains_key(a as int + 7));
        assert(a.wrapping_add(8) == a + 8);
        lemma_mapped_run(m1, a as int + 8, 8);
        lemma_store_append(m, a as int, le_bytes(low as int, 8), le_bytes(high as int, 8));
        lemma_wide_bytes(low, high);
        assert(is_mapped(m1, a as int + 8, 8));
        assert forall|va: int| a <= va < a + 16 implies m.contains_key(va) by {
            if va >= a + 8 {
                assert(m1.contains_key(va));
            }
        }
        lemma_mapped_run(m, a as int, 16);
    } else {
        lemma_mapped_run(m, a as int, n as nat);
        assert(le_bytes(low as int, n as nat).take(n) =~= le_bytes(low as int, n as nat));
    }
}

/// The bytes of a number depend on the number modulo their range only.
proof fn lemma_bytes_low(v: int, w: int, n: nat)
    requires
        0 <= v,
        0 <= w,
        v % pow256(n) == w % pow256(n),
    ensures
        le_bytes(v, n) == le_bytes(w, n),
{
    bytes_round_trip(v, n);
    bytes_round_trip(w, n);
    lemma_le_bytes_len(v, n);
    lemma_le_bytes_len(w, n);
    value_round_trip(le_bytes(v, n));
    value_round_trip(le_bytes(w, n));
}

/// An operand of a vector instruction: one of the sixteen vector registers, or in
/// memory.
pub open spec fn vector_operand(o: Operand) -> bool {
    o.kind == kind::MEMORY || (o.kind == kind::REGISTER && vector_index(o.reg) is Some)
}

/// The parts of a vector and of its low half.
proof fn lemma_parts(x: u128)
    ensures
        xmm_join(xmm_low(x), xmm_high(x)) == x,
        x as int % pow256(16) == x,
        x as int % pow256(8) == xmm_low(x),
        x as int % pow256(4) == xmm_low(x) as int % 0x1_0000_0000,
{
    lemma_pow256();
    assert(x as int % 0x1_0000_0000 == (x as int % 0x1_0000_0000_0000_0000) % 0x1_0000_0000) by {
        vstd::arithmetic::div_mod::lemma_mod_mod(x as int, 0x1_0000_0000, 0x1_0000_0000);
    }
}

/// What the interpreter reads is what compiled code reads.
proof fn lemma_source(s: Machine, i: Instr, op: int, n: int)
    requires
        in_bounds(s.mem),
        n == 4 || n == 8 || n == 16,
        vector_operand(i.operand(op)),
        vector_source(s, i, op, n) is Ok,
    ensures
        ({
            let (low, high) = vector_source(s, i, op, n)->Ok_0;
            &&& sse_value(s, i, op, n as nat) matches Ok(v) && v == xmm_join(low, high) as int
                % pow256(n as nat)
        }),
{
    lemma_pow256();
    let o = i.operand(op);
    let (low, high) = vector_source(s, i, op, n)->Ok_0;
    lemma_halves(low, high);
    if o.kind == kind::MEMORY {
        let a = address_of(s.regs, i)->Ok_0;
        lemma_wide_load(s.mem, a, n);
        lemma_parts(xmm_join(low, high));
        if n < 16 {
            assert(high == 0);
            assert(low as int % pow256(n as nat) == low) by {
                vstd::arithmetic::div_mod::lemma_small_mod(low as nat, pow256(n as nat) as nat);
            }
        }
    } else {
        lemma_parts(s.regs.xmm[vector_index(o.reg)->0]);
    }
}

/// A compiled vector move that reaches its end does what the interpreter does.
pub proof fn compiled_vector_move_matches_interpreter(s: Machine, i: Instr, n: int, merge: bool)
    requires
        in_bounds(s.mem),
        (n == 16 && !merge) || ((n == 4 || n == 8) && merge),
        vector_operand(i.op0),
        vector_operand(i.op1),
        after_vector_move(s, i, n, merge).1 is None,
    ensures
        after_sse_mov(s, i, n as nat, merge) == after_vector_move(s, i, n, merge),
{
    lemma_pow256();
    lemma_source(s, i, 1, n);
    let (low, high) = vector_source(s, i, 1, n)->Ok_0;
    let v = sse_value(s, i, 1, n as nat)->Ok_0;
    let x = xmm_join(low, high);
    lemma_halves(low, high);
    lemma_parts(x);
    if i.op0.kind == kind::MEMORY {
        let a = address_of(s.regs, i)->Ok_0;
        lemma_wide_store(s, a, low, high, n);
        lemma_le_bytes_len(v as int, n as nat);
        assert(le_bytes(v as int, n as nat).take(n) =~= le_bytes(v as int, n as nat));
        if n < 16 {
            assert(v as int % pow256(n as nat) == low as int % pow256(n as nat));
            lemma_bytes_low(v as int, low as int, n as nat);
        }
    } else {
        let k = vector_index(i.op0.reg)->0;
        let old = s.regs.xmm[k];
        lemma_parts(old);
        let (l, h) = moved_into(old, low, high, n, merge);
        lemma_halves(l, h);
        if n == 4 {
            assert(v as int % pow256(4) == low as int % 0x1_0000_0000);
            assert(xmm_join(l, h) == old as int - old as int % pow256(4) + v as int % pow256(4));
        } else if n == 8 {
            assert(v as int % pow256(8) == low);
            assert(xmm_join(l, h) == old as int - old as int % pow256(8) + v as int % pow256(8));
        } else {
            assert(v == x);
        }
    }
}

/// The halves of an exclusive or are those of its operands.
proof fn lemma_xor_halves(x: u128, y: u128)
    ensures
        xmm_low(x ^ y) == xmm_low(x) ^ xmm_low(y),
        xmm_high(x ^ y) == xmm_high(x) ^ xmm_high(y),
{
    assert(((x ^ y) % 0x1_0000_0000_0000_0000u128) as u64 == ((x % 0x1_0000_0000_0000_0000u128)
        as u64) ^ ((y % 0x1_0000_0000_0000_0000u128) as u64)) by (bit_vector);
    assert(((x ^ y) / 0x1_0000_0000_0000_0000u128) as u64 == ((x / 0x1_0000_0000_0000_0000u128)
        as u64) ^ ((y / 0x1_0000_0000_0000_0000u128) as u64)) by (bit_vector);
}

/// A compiled exclusive or that reaches its end does what the interpreter does.
pub proof fn compiled_vector_xor_matches_interpreter(s: Machine, i: Instr)
    requires
        in_bounds(s.mem),
        i.op0.kind == kind::REGISTER,
        vector_operand(i.op0),
        vector_operand(i.op1),
        after_vector_bit(s, i, SseBit::Xor).1 is None,
    ensures
        after_sse_xor(s, i) == after_vector_bit(s, i, SseBit::Xor),
{
    lemma_pow256();
    lemma_source(s, i, 1, 16);
    let (low, high) = vector_source(s, i, 1, 16)->Ok_0;
    let k = vector_index(i.op0.reg)->0;
    let x = s.regs.xmm[k];
    let y = xmm_join(low, high);
    lemma_halves(low, high);
    lemma_parts(x);
    lemma_parts(y);
    lemma_parts(x ^ y);
    lemma_xor_halves(x, y);
}

/// The operands of `movq` and `movd` are such as the decoder gives: a vector register
/// on one side; on the other one a general register of eight bytes (`movq`) or of four
/// or eight (`movd`), memory, or for `movq` a vector register. The interpreter does not
/// know `movq` into a general register.
pub open spec fn transfer_regular(i: Instr, n: int) -> bool {
    &&& i.op0.kind == kind::MEMORY ==> !(i.op0.reg is Xmm)
    &&& i.op1.kind == kind::MEMORY ==> !(i.op1.reg is Xmm)
    &&& if n == 8 {
        &&& i.op0.reg is Xmm || (i.op0.kind == kind::MEMORY && i.op1.reg is Xmm)
        &&& i.op1.kind == kind::REGISTER ==> i.op1.reg is Xmm || i.op1.reg is Qword
    } else {
        &&& i.op0.reg is Xmm != i.op1.reg is Xmm
        &&& i.op1.kind == kind::REGISTER ==> i.op1.reg is Xmm || i.op1.reg is Qword || i.op1.reg
            is Dword
    }
}

/// A compiled `movd` that reaches its end does what the interpreter does.
pub proof fn compiled_movd_matches_interpreter(s: Machine, i: Instr)
    requires
        transfer_readable(i, i.op1),
        transfer_writable(i, i.op0),
        transfer_regular(i, 4),
        after_transfer(s, i, 4).1 is None,
    ensures
        after_sse_movd(s, i) == after_transfer(s, i, 4),
{
    lemma_pow256();
    if i.op0.reg is Xmm {
        let v = transfer_source(s, i, 4)->Ok_0;
        let low = (v % 0x1_0000_0000) as u64;
        lemma_halves(low, 0);
    } else {
        let k = vector_index(i.op1.reg)->0;
        lemma_parts(s.regs.xmm[k]);
    }
}

/// A compiled `movq` that reaches its end does what the interpreter does.
pub proof fn compiled_movq_matches_interpreter(s: Machine, i: Instr)
    requires
        in_bounds(s.mem),
        transfer_readable(i, i.op1),
        transfer_writable(i, i.op0),
        transfer_regular(i, 8),
        after_transfer(s, i, 8).1 is None,
    ensures
        after_sse_movq(s, i) == after_transfer(s, i, 8),
{
    lemma_pow256();
    let v = transfer_source(s, i, 8)->Ok_0;
    if i.op1.kind == kind::MEMORY || i.op1.reg is Xmm {
        lemma_source(s, i, 1, 8);
        let (low, high) = vector_source(s, i, 1, 8)->Ok_0;
        lemma_halves(low, high);
        lemma_parts(xmm_join(low, high));
        assert(low == v);
    }
    let x = sse_value(s, i, 1, 8)->Ok_0;
    assert(x == v);
    if i.op0.kind == kind::MEMORY {
        let a = address_of(s.regs, i)->Ok_0;
        lemma_wide_store(s, a, v, 0, 8);
        lemma_le_bytes_len(v as int, 8);
        assert(le_bytes(v as int, 8).take(8) =~= le_bytes(v as int, 8));
    } else {
        let k = vector_index(i.op0.reg)->0;
        let old = s.regs.xmm[k];
        lemma_parts(old);
        lemma_halves(v, xmm_high(old));
    }
}

/// The vector instructions that both the compiler and the interpreter know.
pub open spec fn vector_instruction(i: Instr) -> bool {
    i.mnemonic == mnemonic::MOVSS || (i.mnemonic == mnemonic::MOVSD && vector_movsd(i))
        || i.mnemonic == mnemonic::MOVAPS || i.mnemonic == mnemonic::MOVUPS || i.mnemonic
        == mnemonic::MOVDQA || i.mnemonic == mnemonic::MOVDQU || i.mnemonic == mnemonic::XORPS
        || i.mnemonic == mnemonic::XORPD || i.mnemonic == mnemonic::PXOR || (i.mnemonic
        == mnemonic::MOVQ && transfer_regular(i, 8)) || (i.mnemonic == mnemonic::MOVD
        && transfer_regular(i, 4))
}

/// What the interpreter does with a vector instruction.
pub open spec fn interpreted_vector(s: Machine, i: Instr) -> Next {
    if i.mnemonic == mnemonic::MOVQ {
        after_sse_movq(s, i)
    } else if i.mnemonic == mnemonic::MOVD {
        after_sse_movd(s, i)
    } else if i.mnemonic == mnemonic::MOVSS {
        after_sse_mov(s, i, 4, true)
    } else if i.mnemonic == mnemonic::MOVSD {
        after_sse_mov(s, i, 8, true)
    } else if i.mnemonic == mnemonic::XORPS || i.mnemonic == mnemonic::XORPD || i.mnemonic
        == mnemonic::PXOR {
        after_sse_xor(s, i)
    } else {
        after_sse_mov(s, i, 16, false)
    }
}

/// Where the interpreter looks a vector instruction up.
#[verifier::rlimit(40)]
proof fn lemma_interpreted_vector(s: Machine, i: Instr, next_ip: u64, tsc: u64)
    requires
        vector_instruction(i),
    ensures
        executed(s, i, next_ip, tsc) == interpreted_vector(s.with_regs(s.regs.at(next_ip)), i),
{
    let t = s.with_regs(s.regs.at(next_ip));
    assert(after_vector(t, i) == Some(interpreted_vector(t, i)));
    assert(!is_simple(i.mnemonic));
    assert(after_integer(t, i, next_ip) is None);
}

/// Where the compiler looks a vector instruction up.
#[verifier::rlimit(40)]
proof fn lemma_compiled_vector(s: Machine, i: Instr, fp: spec_fn(u8, bool, u64, u64) -> u64)
    requires
        vector_instruction(i),
    ensures
        compiled(s, i, fp) == compiled_vector(s, i, fp),
        accepted(i) ==> accepted_vector(i),
{
}

/// A compiled vector instruction that reaches its end does what the interpreter does.
pub proof fn compiled_vector_instruction_matches_interpreter(
    s: Machine,
    i: Instr,
    next_ip: u64,
    tsc: u64,
    fp: spec_fn(u8, bool, u64, u64) -> u64,
)
    requires
        in_bounds(s.mem),
        vector_instruction(i),
        accepted(i),
        compiled(s.with_regs(s.regs.at(next_ip)), i, fp).1 is None,
    ensures
        executed(s, i, next_ip, tsc) == compiled(s.with_regs(s.regs.at(next_ip)), i, fp),
{
    let t = s.with_regs(s.regs.at(next_ip));
    lemma_interpreted_vector(s, i, next_ip, tsc);
    lemma_compiled_vector(t, i, fp);
    lemma_vector_agrees(t, i, fp);
}

/// The compiler and the interpreter agree on a vector instruction.
proof fn lemma_vector_agrees(s: Machine, i: Instr, fp: spec_fn(u8, bool, u64, u64) -> u64)
    requires
        in_bounds(s.mem),
        vector_instruction(i),
        accepted_vector(i),
        compiled_vector(s, i, fp).1 is None,
    ensures
        interpreted_vector(s, i) == compiled_vector(s, i, fp),
{
    if vector_move(i) is Some {
        let (n, merge) = vector_move(i).unwrap();
        compiled_vector_move_matches_interpreter(s, i, n as int, merge);
    } else if i.mnemonic == mnemonic::MOVQ {
        compiled_movq_matches_interpreter(s, i);
    } else if i.mnemonic == mnemonic::MOVD {
        compiled_movd_matches_interpreter(s, i);
    } else {
        compiled_vector_xor_matches_interpreter(s, i);
    }
}

} // verus!
