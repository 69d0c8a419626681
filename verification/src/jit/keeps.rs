//! A block keeps the general registers that none of its instructions writes.

use vstd::prelude::*;

use crate::exec::model::Machine;
use crate::insn::instr::Instr;
use crate::insn::{kind, mnemonic};
use crate::jit::block::{does_nothing, string_bytes, BlockTerm};
use crate::jit::compile::{
    block_effect, body_effect, body_of, compilable, entry_machine, entry_wf, faithful,
    tail_effect, CompiledBlock,
};
use crate::jit::fast_api::FastApiKind;
use crate::jit::ir::Entry;
use crate::jit::liveness::part_of;
use crate::jit::lower::{
    accepted, compiled, compiled_move, compiled_pair, compiled_unary, compiled_vector, in_moves,
    in_pairs, in_unary,
};
use crate::jit::strings::{string_call, string_effect, string_op};

verus! {

/// A string instruction writes the general register `k`: the count, its pointers, and
/// for a load the accumulator.
pub open spec fn string_writes(i: Instr, k: int) -> bool {
    let op = string_op(i);
    ||| k == 1
    ||| k == 7 && op != 2
    ||| k == 6 && (op == 1 || op == 2 || op == 4)
    ||| k == 0 && op == 2
}

/// An instruction writes the general register `k`. Stack instructions, calls and
/// returns write the stack pointer.
pub open spec fn writes_gpr(i: Instr, k: int) -> bool {
    let m = i.mnemonic;
    if does_nothing(m) || m == mnemonic::CMP || m == mnemonic::TEST {
        false
    } else if m == mnemonic::PUSH || m == mnemonic::CALL || m == mnemonic::RET {
        k == 4
    } else if string_bytes(i) is Some {
        string_writes(i, k)
    } else {
        ||| m == mnemonic::POP && k == 4
        ||| i.op0.kind == kind::REGISTER && part_of(i.op0.reg, k)
        ||| m == mnemonic::XCHG && i.op1.kind == kind::REGISTER && part_of(i.op1.reg, k)
    }
}

/// The branch at the end of a block writes the general register `k`: a call or a return
/// writes the stack pointer.
pub open spec fn term_writes(term: Option<BlockTerm>, k: int) -> bool {
    k == 4 && (term matches Some(BlockTerm::Call { .. }) || term matches Some(BlockTerm::Ret))
}

/// The general register `k` has the value it had, and there are sixteen of them.
pub open spec fn keeps_gpr(before: Machine, after: Machine, k: int) -> bool {
    after.regs.gpr.len() == 16 && after.regs.gpr[k] == before.regs.gpr[k]
}

/// Compiled moves.
#[verifier::rlimit(40)]
proof fn lemma_move(s: Machine, i: Instr, k: int)
    requires
        i.wf(),
        s.regs.gpr.len() == 16,
        0 <= k < 16,
        in_moves(i.mnemonic),
        accepted(i),
        !writes_gpr(i, k),
    ensures
        keeps_gpr(s, compiled_move(s, i).0, k),
{
}

/// Compiled arithmetic on one operand.
#[verifier::rlimit(40)]
proof fn lemma_unary(s: Machine, i: Instr, k: int)
    requires
        i.wf(),
        s.regs.gpr.len() == 16,
        0 <= k < 16,
        in_unary(i.mnemonic),
        accepted(i),
        !writes_gpr(i, k),
    ensures
        keeps_gpr(s, compiled_unary(s, i).0, k),
{
}

/// Compiled arithmetic on two operands.
#[verifier::rlimit(40)]
proof fn lemma_pair(s: Machine, i: Instr, k: int)
    requires
        i.wf(),
        s.regs.gpr.len() == 16,
        0 <= k < 16,
        in_pairs(i.mnemonic),
        !writes_gpr(i, k),
    ensures
        keeps_gpr(s, compiled_pair(s, i).0, k),
{
}

/// Compiled vector instructions.
#[verifier::rlimit(40)]
proof fn lemma_vector(s: Machine, i: Instr, fp: spec_fn(u8, bool, u64, u64) -> u64, k: int)
    requires
        i.wf(),
        s.regs.gpr.len() == 16,
        0 <= k < 16,
        !in_moves(i.mnemonic),
        !in_unary(i.mnemonic),
        !in_pairs(i.mnemonic),
        accepted(i),
        !writes_gpr(i, k),
    ensures
        keeps_gpr(s, compiled_vector(s, i, fp).0, k),
{
}

/// A compiled instruction keeps the general registers that it does not write.
pub proof fn instructions_keep_registers(
    s: Machine,
    i: Instr,
    fp: spec_fn(u8, bool, u64, u64) -> u64,
    k: int,
)
    requires
        i.wf(),
        s.regs.gpr.len() == 16,
        0 <= k < 16,
        accepted(i),
        !writes_gpr(i, k),
    ensures
        keeps_gpr(s, compiled(s, i, fp).0, k),
{
    if in_moves(i.mnemonic) {
        lemma_move(s, i, k);
    } else if in_unary(i.mnemonic) {
        lemma_unary(s, i, k);
    } else if in_pairs(i.mnemonic) {
        lemma_pair(s, i, k);
    } else {
        lemma_vector(s, i, fp, k);
    }
}

/// Compiled instructions one after the other.
proof fn lemma_body(
    s: Machine,
    insns: Seq<Instr>,
    fp: spec_fn(u8, bool, u64, u64) -> u64,
    k: int,
)
    requires
        s.regs.gpr.len() == 16,
        0 <= k < 16,
        forall|j: int|
            0 <= j < insns.len() ==> (#[trigger] insns[j]).wf() && accepted(insns[j])
                && !writes_gpr(insns[j], k),
    ensures
        keeps_gpr(s, body_effect(s, insns, fp).0, k),
    decreases insns.len(),
{
    if insns.len() > 0 {
        let rest = insns.drop_last();
        assert(insns[insns.len() - 1].wf());
        assert forall|j: int| 0 <= j < rest.len() implies (#[trigger] rest[j]).wf() && accepted(
            rest[j],
        ) && !writes_gpr(rest[j], k) by {
            assert(rest[j] == insns[j]);
        }
        lemma_body(s, rest, fp, k);
        instructions_keep_registers(body_effect(s, rest, fp).0, insns.last(), fp, k);
    }
}

/// A string instruction at the end of a block.
#[verifier::rlimit(40)]
proof fn lemma_string(s: Machine, i: Instr, k: int)
    requires
        s.regs.gpr.len() == 16,
        0 <= k < 16,
        string_bytes(i) is Some,
        !string_writes(i, k),
    ensures
        keeps_gpr(s, string_effect(s, string_call(i)).0, k),
{
}

/// The end of a block.
proof fn lemma_tail(
    s: Machine,
    last: Instr,
    end_rip: u64,
    term: Option<BlockTerm>,
    host: Option<FastApiKind>,
    k: int,
)
    requires
        s.regs.gpr.len() == 16,
        0 <= k < 16,
        !writes_gpr(last, k),
        !term_writes(term, k),
    ensures
        keeps_gpr(s, tail_effect(s, last, end_rip, term, host).0, k),
{
    if term is None && string_bytes(last) is Some {
        lemma_string(s.with_regs(s.regs.at(last.next_ip)), last, k);
    }
}

/// A block that is compiled keeps every general register that none of its instructions
/// writes, whether it comes to its end or one of its instructions fails.
pub proof fn blocks_keep_registers(
    s: Machine,
    insns: Seq<Instr>,
    end_rip: u64,
    term: Option<BlockTerm>,
    host: Option<FastApiKind>,
    fp: spec_fn(u8, bool, u64, u64) -> u64,
    k: int,
)
    requires
        s.regs.gpr.len() == 16,
        0 <= k < 16,
        compilable(insns, term),
        forall|j: int|
            0 <= j < insns.len() ==> (#[trigger] insns[j]).wf() && !writes_gpr(insns[j], k),
        !term_writes(term, k),
    ensures
        keeps_gpr(s, block_effect(s, insns, end_rip, term, host, fp).0, k),
{
    let body = body_of(insns, term);
    assert forall|j: int| 0 <= j < body.len() implies (#[trigger] body[j]).wf() && accepted(body[j])
        && !writes_gpr(body[j], k) by {
        assert(body[j] == insns[j]);
    }
    lemma_body(s, body, fp, k);
    assert(!writes_gpr(insns[insns.len() - 1], k));
    lemma_tail(body_effect(s, body, fp).0, insns.last(), end_rip, term, host, k);
}

/// Running the code that a block was compiled to keeps every general register that
/// none of its instructions writes: no register is cleared because the block does not
/// use it.
pub proof fn compiled_code_keeps_registers(
    c: CompiledBlock,
    insns: Seq<Instr>,
    end_rip: u64,
    term: Option<BlockTerm>,
    host: Option<FastApiKind>,
    e: Entry,
    k: int,
)
    requires
        faithful(c, insns, end_rip, term, host),
        entry_wf(e),
        0 <= k < 16,
        compilable(insns, term),
        forall|j: int|
            0 <= j < insns.len() ==> (#[trigger] insns[j]).wf() && !writes_gpr(insns[j], k),
        !term_writes(term, k),
    ensures
        c.outcome(e).machine.regs.gpr[k] == e.regs.gpr[k],
{
    blocks_keep_registers(entry_machine(e), insns, end_rip, term, host, e.fp, k);
    let out = c.outcome(e);
}

} // verus!
