//! Which registers a block uses.

use vstd::prelude::*;

use crate::exec::branch::{cmov_cond, cmov_condition, setcc_cond, setcc_condition};
use crate::insn::instr::{Instr, Operand};
use crate::insn::{kind, mnemonic};
use crate::jit::access::{loads_address, loads_operand};
use crate::jit::block::{is_string_op, sse_fp, string_bytes, vector_fp, BlockTerm};
use crate::jit::ir::Live;
use crate::jit::vector::{loads_vector, vector_index, xmm_index};
use crate::regs::Reg;

verus! {

/// The instructions that use the stack pointer without naming it.
pub open spec fn uses_stack(m: u16) -> bool {
    m == mnemonic::PUSH || m == mnemonic::POP || m == mnemonic::CALL || m == mnemonic::RET
}

/// The register `reg` is a part of the general register `k`.
pub open spec fn part_of(reg: Reg, k: int) -> bool {
    reg.gpr_index() == Some(k)
}

/// An instruction with a memory operand, or one that computes an address.
pub open spec fn has_address(i: Instr) -> bool {
    i.op0.kind == kind::MEMORY || i.op1.kind == kind::MEMORY || i.op2.kind == kind::MEMORY
        || i.mnemonic == mnemonic::LEA
}

/// An instruction uses the general register `k`: it names it, or it is a stack or
/// string instruction, or the register is part of an address.
pub open spec fn uses_gpr(i: Instr, k: int) -> bool {
    ||| i.op0.kind == kind::REGISTER && part_of(i.op0.reg, k)
    ||| i.op1.kind == kind::REGISTER && part_of(i.op1.reg, k)
    ||| i.op2.kind == kind::REGISTER && part_of(i.op2.reg, k)
    ||| uses_stack(i.mnemonic) && k == 4
    ||| string_bytes(i) is Some && (k == 0 || k == 1 || k == 6 || k == 7)
    ||| has_address(i) && (part_of(i.base, k) || part_of(i.index, k))
}

/// An instruction names the vector register `k`.
pub open spec fn uses_xmm(i: Instr, k: int) -> bool {
    ||| i.op0.kind == kind::REGISTER && vector_index(i.op0.reg) == Some(k)
    ||| i.op1.kind == kind::REGISTER && vector_index(i.op1.reg) == Some(k)
    ||| i.op2.kind == kind::REGISTER && vector_index(i.op2.reg) == Some(k)
}

/// An instruction reads or sets flags.
pub open spec fn uses_flags(i: Instr) -> bool {
    match i.mnemonic {
        mnemonic::ADD => true,
        mnemonic::ADC => true,
        mnemonic::SUB => true,
        mnemonic::SBB => true,
        mnemonic::XOR => true,
        mnemonic::AND => true,
        mnemonic::OR => true,
        mnemonic::CMP => true,
        mnemonic::TEST => true,
        mnemonic::INC => true,
        mnemonic::DEC => true,
        mnemonic::NEG => true,
        mnemonic::IMUL => true,
        mnemonic::SHL => true,
        mnemonic::SAL => true,
        mnemonic::SHR => true,
        mnemonic::SAR => true,
        mnemonic::ROL => true,
        mnemonic::ROR => true,
        _ => cmov_cond(i.mnemonic) is Some || setcc_cond(i.mnemonic) is Some || string_bytes(i)
            is Some,
    }
}

/// Marks the general register that `reg` is a part of.
fn mark_reg(reg: Reg, live: &mut [bool; 16])
    requires
        reg.wf(),
    ensures
        forall|k: int|
            0 <= k < 16 ==> #[trigger] final(live)@[k] == (old(live)@[k] || part_of(reg, k)),
{
    match reg.index() {
        Some(k) => {
            live[k] = true;
        },
        None => {},
    }
}

/// Marks the registers of an address.
fn mark_mem_regs(i: &Instr, live: &mut [bool; 16])
    requires
        i.wf(),
    ensures
        forall|k: int|
            0 <= k < 16 ==> #[trigger] final(live)@[k] == (old(live)@[k] || part_of(i.base, k)
                || part_of(i.index, k)),
{
    mark_reg(i.base, live);
    mark_reg(i.index, live);
}

/// Marks the general registers that an instruction uses.
pub fn mark_insn_gprs(i: &Instr, live: &mut [bool; 16])
    requires
        i.wf(),
    ensures
        forall|k: int|
            0 <= k < 16 ==> #[trigger] final(live)@[k] == (old(live)@[k] || uses_gpr(*i, k)),
{
    if i.op0.kind == kind::REGISTER {
        mark_reg(i.op0.reg, live);
    }
    if i.op1.kind == kind::REGISTER {
        mark_reg(i.op1.reg, live);
    }
    if i.op2.kind == kind::REGISTER {
        mark_reg(i.op2.reg, live);
    }
    if matches!(i.mnemonic, mnemonic::PUSH | mnemonic::POP | mnemonic::CALL | mnemonic::RET) {
        live[4] = true;
    }
    if is_string_op(i) {
        live[0] = true;
        live[1] = true;
        live[6] = true;
        live[7] = true;
    }
    if i.op0.kind == kind::MEMORY || i.op1.kind == kind::MEMORY || i.op2.kind == kind::MEMORY
        || i.mnemonic == mnemonic::LEA {
        mark_mem_regs(i, live);
    }
}

/// Marks a vector register.
fn mark_xmm(o: Operand, live: &mut [bool; 16])
    ensures
        forall|k: int|
            0 <= k < 16 ==> #[trigger] final(live)@[k] == (old(live)@[k] || (o.kind
                == kind::REGISTER && vector_index(o.reg) == Some(k))),
{
    if o.kind == kind::REGISTER {
        match xmm_index(o.reg) {
            Some(k) => {
                live[k] = true;
            },
            None => {},
        }
    }
}

/// Marks the vector registers that an instruction names.
pub fn mark_insn_xmm(i: &Instr, live: &mut [bool; 16])
    ensures
        forall|k: int|
            0 <= k < 16 ==> #[trigger] final(live)@[k] == (old(live)@[k] || uses_xmm(*i, k)),
{
    mark_xmm(i.op0, live);
    mark_xmm(i.op1, live);
    mark_xmm(i.op2, live);
}

/// Some instruction uses the general register `k`.
pub open spec fn any_uses_gpr(insns: Seq<Instr>, k: int) -> bool {
    exists|j: int| 0 <= j < insns.len() && uses_gpr(#[trigger] insns[j], k)
}

/// Some instruction names the vector register `k`.
pub open spec fn any_uses_xmm(insns: Seq<Instr>, k: int) -> bool {
    exists|j: int| 0 <= j < insns.len() && uses_xmm(#[trigger] insns[j], k)
}

/// Some instruction reads or sets flags.
pub open spec fn any_uses_flags(insns: Seq<Instr>) -> bool {
    exists|j: int| 0 <= j < insns.len() && uses_flags(#[trigger] insns[j])
}

/// The general registers that a block uses.
pub fn analyze_live_gprs(insns: &[Instr]) -> (live: [bool; 16])
    requires
        forall|j: int| 0 <= j < insns@.len() ==> (#[trigger] insns@[j]).wf(),
    ensures
        forall|k: int| 0 <= k < 16 ==> #[trigger] live@[k] == any_uses_gpr(insns@, k),
{
    let mut live: [bool; 16] = [false;16];
    let mut n: usize = 0;
    while n < insns.len()
        invariant
            n <= insns@.len(),
            forall|j: int| 0 <= j < insns@.len() ==> (#[trigger] insns@[j]).wf(),
            forall|k: int| 0 <= k < 16 ==> #[trigger] live@[k] == any_uses_gpr(insns@.take(n as int), k),
        decreases insns@.len() - n,
    {
        let ghost before = live@;
        mark_insn_gprs(&insns[n], &mut live);
        proof {
            let s = insns@.take(n as int);
            let t = insns@.take(n + 1);
            assert forall|k: int| 0 <= k < 16 implies #[trigger] live@[k] == any_uses_gpr(t, k) by {
                assert(before[k] == any_uses_gpr(s, k));
                if any_uses_gpr(s, k) {
                    let j = choose|j: int| 0 <= j < s.len() && uses_gpr(#[trigger] s[j], k);
                    assert(t[j] == s[j]);
                }
                assert(t[n as int] == insns@[n as int]);
                if any_uses_gpr(t, k) {
                    let j = choose|j: int| 0 <= j < t.len() && uses_gpr(#[trigger] t[j], k);
                    if j < n {
                        assert(s[j] == t[j]);
                    }
                }
            }
        }
        n = n + 1;
    }
    assert(insns@.take(insns@.len() as int) =~= insns@);
    live
}

/// The vector registers that a block names.
pub fn analyze_live_xmm(insns: &[Instr]) -> (live: [bool; 16])
    ensures
        forall|k: int| 0 <= k < 16 ==> #[trigger] live@[k] == any_uses_xmm(insns@, k),
{
    let mut live: [bool; 16] = [false;16];
    let mut n: usize = 0;
    while n < insns.len()
        invariant
            n <= insns@.len(),
            forall|k: int| 0 <= k < 16 ==> #[trigger] live@[k] == any_uses_xmm(insns@.take(n as int), k),
        decreases insns@.len() - n,
    {
        let ghost before = live@;
        mark_insn_xmm(&insns[n], &mut live);
        proof {
            let s = insns@.take(n as int);
            let t = insns@.take(n + 1);
            assert forall|k: int| 0 <= k < 16 implies #[trigger] live@[k] == any_uses_xmm(t, k) by {
                assert(before[k] == any_uses_xmm(s, k));
                if any_uses_xmm(s, k) {
                    let j = choose|j: int| 0 <= j < s.len() && uses_xmm(#[trigger] s[j], k);
                    assert(t[j] == s[j]);
                }
                assert(t[n as int] == insns@[n as int]);
                if any_uses_xmm(t, k) {
                    let j = choose|j: int| 0 <= j < t.len() && uses_xmm(#[trigger] t[j], k);
                    if j < n {
                        assert(s[j] == t[j]);
                    }
                }
            }
        }
        n = n + 1;
    }
    assert(insns@.take(insns@.len() as int) =~= insns@);
    live
}

/// Whether an instruction reads or sets flags.
fn needs_flags(i: &Instr) -> (r: bool)
    ensures
        r == uses_flags(*i),
{
    match i.mnemonic {
        mnemonic::ADD | mnemonic::ADC | mnemonic::SUB | mnemonic::SBB | mnemonic::XOR
        | mnemonic::AND | mnemonic::OR | mnemonic::CMP | mnemonic::TEST | mnemonic::INC
        | mnemonic::DEC | mnemonic::NEG | mnemonic::IMUL | mnemonic::SHL | mnemonic::SAL
        | mnemonic::SHR | mnemonic::SAR | mnemonic::ROL | mnemonic::ROR => true,
        _ => cmov_condition(i.mnemonic).is_some() || setcc_condition(i.mnemonic).is_some()
            || is_string_op(i),
    }
}

/// Whether a block reads or sets flags.
pub fn block_needs_flags(insns: &[Instr], term: Option<BlockTerm>) -> (r: bool)
    ensures
        r == (term matches Some(BlockTerm::Jcc { .. }) || any_uses_flags(insns@)),
{
    if matches!(term, Some(BlockTerm::Jcc { .. })) {
        return true;
    }
    let mut n: usize = 0;
    while n < insns.len()
        invariant
            n <= insns@.len(),
            !(term matches Some(BlockTerm::Jcc { .. })),
            forall|j: int| 0 <= j < n ==> !uses_flags(#[trigger] insns@[j]),
        decreases insns@.len() - n,
    {
        if needs_flags(&insns[n]) {
            assert(uses_flags(insns@[n as int]));
            return true;
        }
        n = n + 1;
    }
    false
}

/// An instruction that goes to memory.
pub open spec fn uses_memory(i: Instr) -> bool {
    uses_stack(i.mnemonic) || string_bytes(i) is Some || (i.op_count > 0 && i.op0.kind
        == kind::MEMORY) || (i.op_count > 1 && i.op1.kind == kind::MEMORY) || (i.op_count > 2
        && i.op2.kind == kind::MEMORY)
}

/// Whether a block goes to memory.
pub fn block_has_mem(insns: &[Instr]) -> (r: bool)
    ensures
        r == (exists|j: int| 0 <= j < insns@.len() && uses_memory(#[trigger] insns@[j])),
{
    let mut n: usize = 0;
    while n < insns.len()
        invariant
            n <= insns@.len(),
            forall|j: int| 0 <= j < n ==> !uses_memory(#[trigger] insns@[j]),
        decreases insns@.len() - n,
    {
        let i = &insns[n];
        if matches!(i.mnemonic, mnemonic::PUSH | mnemonic::POP | mnemonic::CALL | mnemonic::RET)
            || is_string_op(i) || (i.op_count > 0 && i.op0.kind == kind::MEMORY) || (i.op_count > 1
            && i.op1.kind == kind::MEMORY) || (i.op_count > 2 && i.op2.kind == kind::MEMORY) {
            assert(uses_memory(insns@[n as int]));
            return true;
        }
        n = n + 1;
    }
    false
}

/// Whether a block has a string instruction.
pub fn block_has_string(insns: &[Instr]) -> (r: bool)
    ensures
        r == (exists|j: int| 0 <= j < insns@.len() && string_bytes(#[trigger] insns@[j]) is Some),
{
    let mut n: usize = 0;
    while n < insns.len()
        invariant
            n <= insns@.len(),
            forall|j: int| 0 <= j < n ==> string_bytes(#[trigger] insns@[j]) is None,
        decreases insns@.len() - n,
    {
        if is_string_op(&insns[n]) {
            assert(string_bytes(insns@[n as int]) is Some);
            return true;
        }
        n = n + 1;
    }
    false
}

/// Whether a block has a floating-point operation.
pub fn block_has_fp(insns: &[Instr]) -> (r: bool)
    ensures
        r == (exists|j: int|
            0 <= j < insns@.len() && vector_fp((#[trigger] insns@[j]).mnemonic) is Some),
{
    let mut n: usize = 0;
    while n < insns.len()
        invariant
            n <= insns@.len(),
            forall|j: int| 0 <= j < n ==> vector_fp((#[trigger] insns@[j]).mnemonic) is None,
        decreases insns@.len() - n,
    {
        if sse_fp(insns[n].mnemonic).is_some() {
            assert(vector_fp(insns@[n as int].mnemonic) is Some);
            return true;
        }
        n = n + 1;
    }
    false
}

/// The block loads all registers that an instruction uses.
pub open spec fn covers(live: Live, i: Instr) -> bool {
    &&& forall|k: int| 0 <= k < 16 && uses_gpr(i, k) ==> #[trigger] live.gpr@[k]
    &&& forall|k: int| 0 <= k < 16 && uses_xmm(i, k) ==> #[trigger] live.xmm@[k]
    &&& uses_flags(i) ==> live.flags
}

/// What it means for single operands.
pub proof fn lemma_covers(live: Live, i: Instr)
    requires
        covers(live, i),
        i.wf(),
    ensures
        loads_operand(live, i, i.op0),
        loads_operand(live, i, i.op1),
        loads_operand(live, i, i.op2),
        loads_vector(live, i, i.op0),
        loads_vector(live, i, i.op1),
        i.mnemonic == mnemonic::LEA ==> loads_address(live, i),
        uses_stack(i.mnemonic) ==> live.gpr@[4],
{
}

} // verus!
