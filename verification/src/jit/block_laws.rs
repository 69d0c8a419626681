//! Whole compiled blocks and the interpreter agree.

use vstd::prelude::*;

use crate::exec::model::{Fault, Machine};
use crate::exec::operand::address_of;
use crate::exec::step::executed;
use crate::insn::instr::Instr;
use crate::insn::mnemonic;
use crate::jit::block::{
    string_bytes, terminator, vector_bit, vector_fp, BlockTerm, SseBit, SseFp,
};
use crate::jit::compile::{
    block_effect, body_effect, body_of, ended_as, entry_machine, entry_wf, faithful, term_effect,
    CompiledBlock,
};
use crate::jit::ir::Entry;
use crate::jit::laws::{
    compiled_branch_matches_interpreter, compiled_integer_instruction_matches_interpreter,
    compiled_string_matches_interpreter, exact_on, integer_instruction, lemma_exact_frame,
    lemma_move_frame, lemma_pair_frame, lemma_unary_frame, moved_to,
};
use crate::jit::lower::{
    accepted, compiled, compiled_move, compiled_pair, compiled_unary, compiled_vector, in_moves,
    in_pairs, in_unary, vector_move,
};
use crate::jit::vector::{
    after_transfer, after_vector_bit, after_vector_fp, after_vector_move, after_vector_operand,
    float_bytes, transfer_source, vector_source,
};
use crate::jit::vector_laws::{
    compiled_vector_instruction_matches_interpreter, vector_instruction,
};
use crate::mem::model::{in_bounds, Bytes};

verus! {

/// What the interpreter does with instructions one after the other. The first that
/// fails ends it, and is given with its address.
pub open spec fn interpreted(s: Machine, insns: Seq<Instr>) -> (Machine, Option<(Fault, u64)>)
    decreases insns.len(),
{
    if insns.len() == 0 {
        (s, None)
    } else {
        let (t, x) = interpreted(s, insns.drop_last());
        if x is Some {
            (t, x)
        } else {
            match executed(t, insns.last(), insns.last().next_ip, 0) {
                (u, None) => (u, None),
                (u, Some(f)) => (u, Some((f, insns.last().ip))),
            }
        }
    }
}

/// Two machines are the same but for the instruction pointer.
pub open spec fn same_but_rip(a: Machine, b: Machine) -> bool {
    a.mem == b.mem && a.regs.at(0) == b.regs.at(0)
}

/// Compiled code does on `s` what the instruction does: an integer instruction outside
/// the cases in which it does not, or a vector instruction that completes.
pub open spec fn agrees_on(
    s: Machine,
    i: Instr,
    fp: spec_fn(u8, bool, u64, u64) -> u64,
) -> bool {
    &&& i.wf()
    &&& accepted(i)
    &&& if integer_instruction(i.mnemonic) {
        exact_on(s, i)
    } else {
        vector_instruction(i) && compiled(s, i, fp).1 is None
    }
}

/// The same addresses are mapped.
pub open spec fn same_domain(a: Bytes, b: Bytes) -> bool {
    forall|va: int| #[trigger] a.contains_key(va) == b.contains_key(va)
}

/// Compiled moves keep the number of registers and what is mapped.
#[verifier::rlimit(40)]
proof fn lemma_move_keeps(s: Machine, i: Instr)
    requires
        i.wf(),
        s.regs.gpr.len() == 16,
        in_moves(i.mnemonic),
    ensures
        compiled_move(s, i).0.regs.gpr.len() == 16,
        same_domain(compiled_move(s, i).0.mem, s.mem),
{
}

/// Compiled arithmetic on one operand keeps the number of registers.
#[verifier::rlimit(40)]
proof fn lemma_unary_len(s: Machine, i: Instr)
    requires
        i.wf(),
        s.regs.gpr.len() == 16,
        in_unary(i.mnemonic),
    ensures
        compiled_unary(s, i).0.regs.gpr.len() == 16,
{
}

/// Compiled arithmetic on one operand keeps what is mapped.
#[verifier::rlimit(40)]
proof fn lemma_unary_domain(s: Machine, i: Instr)
    requires
        in_unary(i.mnemonic),
    ensures
        same_domain(compiled_unary(s, i).0.mem, s.mem),
{
}

/// Compiled arithmetic on two operands keeps the number of registers and what is
/// mapped.
#[verifier::rlimit(40)]
proof fn lemma_pair_keeps(s: Machine, i: Instr)
    requires
        i.wf(),
        s.regs.gpr.len() == 16,
        in_pairs(i.mnemonic),
    ensures
        compiled_pair(s, i).0.regs.gpr.len() == 16,
        same_domain(compiled_pair(s, i).0.mem, s.mem),
{
}

/// Compiled vector instructions keep the number of registers and what is mapped.
#[verifier::rlimit(40)]
proof fn lemma_vector_keeps(s: Machine, i: Instr, fp: spec_fn(u8, bool, u64, u64) -> u64)
    requires
        i.wf(),
        s.regs.gpr.len() == 16,
    ensures
        compiled_vector(s, i, fp).0.regs.gpr.len() == 16,
        same_domain(compiled_vector(s, i, fp).0.mem, s.mem),
{
}

/// Reading an operand of a vector instruction does not depend on the instruction
/// pointer.
proof fn lemma_source_frame(s: Machine, i: Instr, n: int, rip: u64)
    ensures
        vector_source(s.with_regs(s.regs.at(rip)), i, 1, n) == vector_source(s, i, 1, n),
        transfer_source(s.with_regs(s.regs.at(rip)), i, n) == transfer_source(s, i, n),
        address_of(s.regs.at(rip), i) == address_of(s.regs, i),
{
}

/// A vector move does not depend on the instruction pointer.
proof fn lemma_vector_move_frame(s: Machine, i: Instr, n: int, merge: bool, rip: u64)
    ensures
        after_vector_move(s.with_regs(s.regs.at(rip)), i, n, merge) == moved_to(
            after_vector_move(s, i, n, merge),
            rip,
        ),
{
    lemma_source_frame(s, i, n, rip);
    let t = s.with_regs(s.regs.at(rip));
    match vector_source(s, i, 1, n) {
        Ok((low, high)) => {
            let a = after_vector_operand(t, i, low, high, n, merge);
            let b = moved_to(after_vector_operand(s, i, low, high, n, merge), rip);
            assert(a.0 =~= b.0);
        },
        Err(_) => {},
    }
}

/// `movq` and `movd` do not depend on the instruction pointer.
proof fn lemma_transfer_frame(s: Machine, i: Instr, n: int, rip: u64)
    ensures
        after_transfer(s.with_regs(s.regs.at(rip)), i, n) == moved_to(
            after_transfer(s, i, n),
            rip,
        ),
{
    lemma_source_frame(s, i, n, rip);
    let a = after_transfer(s.with_regs(s.regs.at(rip)), i, n);
    let b = moved_to(after_transfer(s, i, n), rip);
    assert(a.0 =~= b.0);
}

/// Operations on vectors do not depend on the instruction pointer.
proof fn lemma_vector_op_frame(
    s: Machine,
    i: Instr,
    op: SseBit,
    f: SseFp,
    fp: spec_fn(u8, bool, u64, u64) -> u64,
    rip: u64,
)
    ensures
        after_vector_bit(s.with_regs(s.regs.at(rip)), i, op) == moved_to(
            after_vector_bit(s, i, op),
            rip,
        ),
        after_vector_fp(s.with_regs(s.regs.at(rip)), i, f, fp) == moved_to(
            after_vector_fp(s, i, f, fp),
            rip,
        ),
{
    lemma_source_frame(s, i, 16, rip);
    lemma_source_frame(s, i, float_bytes(f), rip);
}

/// A compiled vector instruction does not depend on the instruction pointer.
proof fn lemma_vector_frame(
    s: Machine,
    i: Instr,
    fp: spec_fn(u8, bool, u64, u64) -> u64,
    rip: u64,
)
    ensures
        compiled_vector(s.with_regs(s.regs.at(rip)), i, fp) == moved_to(
            compiled_vector(s, i, fp),
            rip,
        ),
{
    if vector_move(i) is Some {
        let (n, merge) = vector_move(i).unwrap();
        lemma_vector_move_frame(s, i, n as int, merge, rip);
    } else if i.mnemonic == mnemonic::MOVQ {
        lemma_transfer_frame(s, i, 8, rip);
    } else if i.mnemonic == mnemonic::MOVD {
        lemma_transfer_frame(s, i, 4, rip);
    } else if vector_bit(i.mnemonic) is Some {
        lemma_vector_op_frame(s, i, vector_bit(i.mnemonic)->0, arbitrary(), fp, rip);
    } else if vector_fp(i.mnemonic) is Some {
        lemma_vector_op_frame(s, i, arbitrary(), vector_fp(i.mnemonic)->0, fp, rip);
    }
}

/// A compiled instruction does not depend on the instruction pointer.
proof fn lemma_frame(s: Machine, i: Instr, fp: spec_fn(u8, bool, u64, u64) -> u64, rip: u64)
    ensures
        compiled(s.with_regs(s.regs.at(rip)), i, fp) == moved_to(compiled(s, i, fp), rip),
{
    if in_moves(i.mnemonic) {
        lemma_move_frame(s, i, rip);
    } else if in_unary(i.mnemonic) {
        lemma_unary_frame(s, i, rip);
    } else if in_pairs(i.mnemonic) {
        lemma_pair_frame(s, i, rip);
    } else {
        lemma_vector_frame(s, i, fp, rip);
    }
}

/// A compiled instruction keeps the number of registers and what is mapped.
proof fn lemma_keeps(s: Machine, i: Instr, fp: spec_fn(u8, bool, u64, u64) -> u64)
    requires
        i.wf(),
        s.regs.gpr.len() == 16,
        in_bounds(s.mem),
    ensures
        compiled(s, i, fp).0.regs.gpr.len() == 16,
        in_bounds(compiled(s, i, fp).0.mem),
{
    if in_moves(i.mnemonic) {
        lemma_move_keeps(s, i);
    } else if in_unary(i.mnemonic) {
        lemma_unary_len(s, i);
        lemma_unary_domain(s, i);
    } else if in_pairs(i.mnemonic) {
        lemma_pair_keeps(s, i);
    } else {
        lemma_vector_keeps(s, i, fp);
    }
    let m = compiled(s, i, fp).0.mem;
    assert(same_domain(m, s.mem));
    assert forall|va: int| #[trigger] m.contains_key(va) implies 0 <= va
        < crate::mem::model::VA_LIMIT by {
        assert(s.mem.contains_key(va));
    }
}

/// Compiled instructions keep the number of registers and what is mapped.
proof fn lemma_body_keeps(
    s: Machine,
    insns: Seq<Instr>,
    fp: spec_fn(u8, bool, u64, u64) -> u64,
)
    requires
        s.regs.gpr.len() == 16,
        in_bounds(s.mem),
        forall|k: int| 0 <= k < insns.len() ==> (#[trigger] insns[k]).wf(),
    ensures
        body_effect(s, insns, fp).0.regs.gpr.len() == 16,
        in_bounds(body_effect(s, insns, fp).0.mem),
    decreases insns.len(),
{
    if insns.len() > 0 {
        let rest = insns.drop_last();
        assert(insns[insns.len() - 1].wf());
        assert forall|k: int| 0 <= k < rest.len() implies (#[trigger] rest[k]).wf() by {
            assert(rest[k] == insns[k]);
        }
        lemma_body_keeps(s, rest, fp);
        lemma_keeps(body_effect(s, rest, fp).0, insns.last(), fp);
    }
}

/// Two machines that are the same but for the instruction pointer are the same once
/// it is set.
proof fn lemma_same_at(a: Machine, b: Machine, rip: u64)
    requires
        same_but_rip(a, b),
    ensures
        a.with_regs(a.regs.at(rip)) == b.with_regs(b.regs.at(rip)),
{
    assert(a.regs.at(rip) == a.regs.at(0).at(rip));
    assert(b.regs.at(rip) == b.regs.at(0).at(rip));
}

/// One instruction, executed where compiled code has come to the same machine but for
/// the instruction pointer.
proof fn lemma_one(
    a: Machine,
    b: Machine,
    i: Instr,
    fp: spec_fn(u8, bool, u64, u64) -> u64,
)
    requires
        same_but_rip(a, b),
        b.regs.gpr.len() == 16,
        in_bounds(b.mem),
        agrees_on(b, i, fp),
    ensures
        executed(a, i, i.next_ip, 0).1 == compiled(b, i, fp).1,
        same_but_rip(executed(a, i, i.next_ip, 0).0, compiled(b, i, fp).0),
        executed(a, i, i.next_ip, 0).0.regs.rip == i.next_ip,
{
    let ip = i.next_ip;
    let t = b.with_regs(b.regs.at(ip));
    lemma_same_at(a, b, ip);
    assert(a.regs.at(0).gpr == b.regs.at(0).gpr);
    lemma_frame(b, i, fp, ip);
    if integer_instruction(i.mnemonic) {
        lemma_exact_frame(b, i, ip);
        compiled_integer_instruction_matches_interpreter(a, i, ip, 0, fp);
    } else {
        compiled_vector_instruction_matches_interpreter(a, i, ip, 0, fp);
    }
    let m = compiled(b, i, fp).0;
    assert(m.regs.at(ip).at(0) == m.regs.at(0));
}

/// The body of a compiled block does what the interpreter does with its instructions:
/// it reaches the same machine, or the same instruction fails in the same way.
pub proof fn compiled_body_matches_interpreter(
    s: Machine,
    insns: Seq<Instr>,
    fp: spec_fn(u8, bool, u64, u64) -> u64,
)
    requires
        s.regs.gpr.len() == 16,
        in_bounds(s.mem),
        forall|k: int|
            0 <= k < insns.len() ==> agrees_on(
                body_effect(s, insns.take(k), fp).0,
                #[trigger] insns[k],
                fp,
            ),
    ensures
        same_but_rip(interpreted(s, insns).0, body_effect(s, insns, fp).0),
        interpreted(s, insns).1 == body_effect(s, insns, fp).1,
        insns.len() > 0 && interpreted(s, insns).1 is None ==> interpreted(s, insns).0.regs.rip
            == insns.last().next_ip,
    decreases insns.len(),
{
    if insns.len() > 0 {
        let n = insns.len() - 1;
        let rest = insns.drop_last();
        assert(insns.take(n) =~= rest);
        assert forall|k: int| 0 <= k < rest.len() implies agrees_on(
            body_effect(s, rest.take(k), fp).0,
            #[trigger] rest[k],
            fp,
        ) by {
            assert(rest[k] == insns[k]);
            assert(rest.take(k) =~= insns.take(k));
        }
        compiled_body_matches_interpreter(s, rest, fp);
        assert(agrees_on(body_effect(s, insns.take(n), fp).0, insns[n], fp));
        assert forall|k: int| 0 <= k < rest.len() implies (#[trigger] rest[k]).wf() by {
            assert(agrees_on(body_effect(s, rest.take(k), fp).0, rest[k], fp));
        }
        lemma_body_keeps(s, rest, fp);
        let (a, x) = interpreted(s, rest);
        let (b, y) = body_effect(s, rest, fp);
        if x is None {
            lemma_one(a, b, insns.last(), fp);
        }
    }
}

/// The branch at the end of a block does not depend on the instruction pointer.
proof fn lemma_term_frame(s: Machine, term: BlockTerm, rip: u64)
    ensures
        ({
            let a = term_effect(s.with_regs(s.regs.at(rip)), term);
            let b = term_effect(s, term);
            a.1 == b.1 && same_but_rip(a.0, b.0) && (a.1 is None ==> a.0 == b.0)
        }),
{
    let t = s.with_regs(s.regs.at(rip));
    let a = term_effect(t, term);
    let b = term_effect(s, term);
    assert(t.regs.gpr == s.regs.gpr && t.mem == s.mem && t.regs.rflags == s.regs.rflags);
    assert(a.0.regs.at(0) =~= b.0.regs.at(0));
    if a.1 is None {
        assert(a.0 =~= b.0);
    }
}

/// A compiled block, whatever it ends with, does what the interpreter does with its
/// instructions: it reaches the same machine, or the same instruction fails in the
/// same way.
pub proof fn compiled_block_matches_interpreter(
    s: Machine,
    insns: Seq<Instr>,
    end_rip: u64,
    fp: spec_fn(u8, bool, u64, u64) -> u64,
)
    requires
        s.regs.gpr.len() == 16,
        in_bounds(s.mem),
        insns.len() > 0,
        terminator(insns.last()) is None ==> string_bytes(insns.last()) is Some || end_rip
            == insns.last().next_ip,
        forall|k: int|
            0 <= k < body_of(insns, terminator(insns.last())).len() ==> agrees_on(
                body_effect(s, insns.take(k), fp).0,
                #[trigger] insns[k],
                fp,
            ),
    ensures
        ({
            let want = interpreted(s, insns);
            let got = block_effect(s, insns, end_rip, terminator(insns.last()), None, fp);
            &&& got.1 == want.1
            &&& got.1 is None ==> got.0 == want.0
            &&& same_but_rip(got.0, want.0)
        }),
{
    let last = insns.last();
    let term = terminator(last);
    let body = body_of(insns, term);
    assert forall|k: int| 0 <= k < body.len() implies agrees_on(
        body_effect(s, body.take(k), fp).0,
        #[trigger] body[k],
        fp,
    ) by {
        assert(body[k] == insns[k]);
        assert(body.take(k) =~= insns.take(k));
    }
    compiled_body_matches_interpreter(s, body, fp);
    let (a, x) = interpreted(s, body);
    let (b, y) = body_effect(s, body, fp);
    if x is None {
        if term is Some || string_bytes(last) is Some {
            assert(body == insns.drop_last());
            lemma_same_at(a, b, last.next_ip);
            if term is Some {
                compiled_branch_matches_interpreter(a, last, term->0, 0);
                lemma_term_frame(b, term->0, last.next_ip);
            } else {
                compiled_string_matches_interpreter(a, last, 0);
            }
        } else {
            lemma_same_at(a, b, end_rip);
            assert(a.with_regs(a.regs.at(end_rip)) == a);
        }
    }
}

/// Running the code that a block was compiled to ends as interpreting the block does:
/// with the same machine, or with the same failed access at the same instruction, the
/// same memory and the same general and vector registers.
pub proof fn compiled_code_matches_interpreter(
    c: CompiledBlock,
    insns: Seq<Instr>,
    end_rip: u64,
    e: Entry,
)
    requires
        faithful(c, insns, end_rip, terminator(insns.last()), None),
        entry_wf(e),
        in_bounds(e.mem),
        insns.len() > 0,
        terminator(insns.last()) is None ==> string_bytes(insns.last()) is Some || end_rip
            == insns.last().next_ip,
        forall|k: int|
            0 <= k < body_of(insns, terminator(insns.last())).len() ==> agrees_on(
                body_effect(entry_machine(e), insns.take(k), e.fp).0,
                #[trigger] insns[k],
                e.fp,
            ),
    ensures
        ended_as(c.outcome(e), interpreted(entry_machine(e), insns)),
{
    let s = entry_machine(e);
    let term = terminator(insns.last());
    compiled_block_matches_interpreter(s, insns, end_rip, e.fp);
    let got = block_effect(s, insns, end_rip, term, None, e.fp);
    let want = interpreted(s, insns);
    assert(ended_as(c.outcome(e), got));
    assert(got.0.regs.at(0).gpr == want.0.regs.at(0).gpr);
    assert(got.0.regs.at(0).xmm == want.0.regs.at(0).xmm);
}

} // verus!
