//! What the operations of compiled code compute, and where blocks lead.

use vstd::arithmetic::power2::pow2;
use vstd::prelude::*;

use crate::exec::access::{loaded, stored};
use crate::exec::model::{Fault, Machine};
use crate::insn::instr::Instr;
use crate::jit::block::BlockTerm;
use crate::jit::compile::{
    block_effect, body_effect, host_call, links, predicts, CompiledBlock, Goto, Prediction, Tail,
};
use crate::jit::fast_api::FastApiKind;
use crate::jit::ir::{
    bin_value, entry_vals, run_op, run_ops, un_value, BinOp, Entry, Expr, Op, Run, UnOp,
};
use crate::regs::{signed, trunc, Regs};

verus! {

/// What operations on one value compute.
pub proof fn unary_operations(a: u64)
    ensures
        a + un_value(UnOp::Not, a) == 0xffff_ffff_ffff_ffff,
        signed(un_value(UnOp::Sext8, a) as int, 8) == signed(a as int, 1),
        signed(un_value(UnOp::Sext16, a) as int, 8) == signed(a as int, 2),
        signed(un_value(UnOp::Sext32, a) as int, 8) == signed(a as int, 4),
        un_value(UnOp::Zext32, a) == a % 0x1_0000_0000,
{
    lemma_again(signed(a as int, 1));
    lemma_again(signed(a as int, 2));
    lemma_again(signed(a as int, 4));
}

/// A signed number that fits eight bytes reads as itself there.
proof fn lemma_again(v: int)
    requires
        -0x8000_0000_0000_0000 <= v < 0x8000_0000_0000_0000,
    ensures
        signed(trunc(v, 8), 8) == v,
        0 <= trunc(v, 8) < 0x1_0000_0000_0000_0000,
{
    let m = 0x1_0000_0000_0000_0000int;
    if v >= 0 {
        vstd::arithmetic::div_mod::lemma_small_mod(v as nat, m as nat);
    } else {
        vstd::arithmetic::div_mod::lemma_fundamental_div_mod_converse(v, m, -1, v + m);
        vstd::arithmetic::div_mod::lemma_small_mod((v + m) as nat, m as nat);
    }
}

/// Sums, differences and products, all modulo `2^64`, and remainders.
pub proof fn arithmetic_operations(a: u64, b: u64)
    ensures
        bin_value(BinOp::Add, a, b) == (a + b) % 0x1_0000_0000_0000_0000,
        bin_value(BinOp::Sub, a, b) == (a - b) % 0x1_0000_0000_0000_0000,
        bin_value(BinOp::Mul, a, b) == (a * b) % 0x1_0000_0000_0000_0000,
        b != 0 ==> bin_value(BinOp::Urem, a, b) == a % b,
        bin_value(BinOp::And, a, b) == a & b,
        bin_value(BinOp::Or, a, b) == a | b,
        bin_value(BinOp::Xor, a, b) == a ^ b,
        bin_value(BinOp::Equal, a, b) == if a == b {
            1u64
        } else {
            0
        },
        bin_value(BinOp::Differ, a, b) == if a == b {
            0u64
        } else {
            1
        },
        bin_value(BinOp::Below, a, b) == if a < b {
            1u64
        } else {
            0
        },
{
    vstd::arithmetic::div_mod::lemma_mod_bound(a * b, 0x1_0000_0000_0000_0000);
}

/// A product of signed numbers is its high half times `2^64` and its low half.
pub proof fn products_have_two_halves(a: u64, b: u64)
    ensures
        signed(a as int, 8) * signed(b as int, 8) == signed(
            bin_value(BinOp::SmulHi, a, b) as int,
            8,
        ) * 0x1_0000_0000_0000_0000 + bin_value(BinOp::Mul, a, b),
{
    let m = 0x1_0000_0000_0000_0000int;
    let x = signed(a as int, 8);
    let y = signed(b as int, 8);
    let p = x * y;
    let q = p / m;
    vstd::arithmetic::div_mod::lemma_fundamental_div_mod(p, m);
    assert(-0x4000_0000_0000_0000_0000_0000_0000_0000 <= p
        <= 0x4000_0000_0000_0000_0000_0000_0000_0000) by (nonlinear_arith)
        requires
            -0x8000_0000_0000_0000 <= x <= 0x7fff_ffff_ffff_ffff,
            -0x8000_0000_0000_0000 <= y <= 0x7fff_ffff_ffff_ffff,
            p == x * y,
    ;
    assert(-0x8000_0000_0000_0000 <= q < 0x8000_0000_0000_0000);
    lemma_again(q);
    let i = if x < 0 {
        1int
    } else {
        0
    };
    let j = if y < 0 {
        1int
    } else {
        0
    };
    assert(a * b == m * (i * y + j * x + i * j * m) + p) by (nonlinear_arith)
        requires
            a == x + i * m,
            b == y + j * m,
            p == x * y,
    ;
    vstd::arithmetic::div_mod::lemma_mod_multiples_vanish(i * y + j * x + i * j * m, p, m);
    vstd::arithmetic::div_mod::lemma_mod_bound(p, m);
}

/// Shifts multiply and divide by powers of two; the count is taken modulo 64.
pub proof fn shift_operations(a: u64, b: u64)
    ensures
        ({
            let p = pow2((b as int % 64) as nat) as int;
            &&& bin_value(BinOp::Shl, a, b) == (a * p) % 0x1_0000_0000_0000_0000
            &&& bin_value(BinOp::Ushr, a, b) * p <= a < (bin_value(BinOp::Ushr, a, b) + 1) * p
            &&& signed(bin_value(BinOp::Sshr, a, b) as int, 8) * p <= signed(a as int, 8) < (signed(
                bin_value(BinOp::Sshr, a, b) as int,
                8,
            ) + 1) * p
        }),
{
    let k = (b as int % 64) as nat;
    let p = pow2(k) as int;
    vstd::arithmetic::power2::lemma_pow2_pos(k);
    vstd::arithmetic::div_mod::lemma_mod_bound(a * p, 0x1_0000_0000_0000_0000);
    vstd::arithmetic::div_mod::lemma_fundamental_div_mod(a as int, p);
    let q = a as int / p;
    assert(q * p <= a < (q + 1) * p) by (nonlinear_arith)
        requires
            a == p * q + a as int % p,
            0 <= a as int % p < p,
    ;
    assert(0 <= q <= a) by (nonlinear_arith)
        requires
            q * p <= a,
            a < (q + 1) * p,
            p >= 1,
            a >= 0,
    ;
    let s = signed(a as int, 8);
    let t = s / p;
    vstd::arithmetic::div_mod::lemma_fundamental_div_mod(s, p);
    assert(t * p <= s < (t + 1) * p) by (nonlinear_arith)
        requires
            s == p * t + s % p,
            0 <= s % p < p,
    ;
    assert(-0x8000_0000_0000_0000 <= t < 0x8000_0000_0000_0000) by (nonlinear_arith)
        requires
            t * p <= s,
            s < (t + 1) * p,
            p >= 1,
            -0x8000_0000_0000_0000 <= s < 0x8000_0000_0000_0000,
    ;
    lemma_again(t);
}

/// Expressions: constants and values stand for themselves, and a choice is the first of
/// two unless its condition is zero.
pub proof fn expressions_choose(vals: Seq<u64>, v: usize, c: u64, x: Expr, y: Expr, z: Expr)
    ensures
        Expr::Const(c).eval(vals) == c,
        Expr::Val(v).eval(vals) == vals[v as int],
        Expr::Select(Box::new(x), Box::new(y), Box::new(z)).eval(vals) == if x.eval(vals) == 0 {
            z.eval(vals)
        } else {
            y.eval(vals)
        },
{
}

/// What is there at the entry of a block: the general registers, the flags, and both halves
/// of each vector register.
pub proof fn entry_values_are_registers(regs: Regs, k: int)
    requires
        0 <= k < 16,
    ensures
        entry_vals(regs).len() == 49,
        entry_vals(regs)[k] == regs.gpr[k],
        entry_vals(regs)[16] == regs.rflags,
        entry_vals(regs)[17 + 2 * k] == regs.xmm[k] % 0x1_0000_0000_0000_0000,
        entry_vals(regs)[18 + 2 * k] == regs.xmm[k] / 0x1_0000_0000_0000_0000,
{
}

/// Every operation gives one more value; only stores change memory, only writes of vector
/// registers change those; a load gives what is in memory, a floating-point operation what
/// the floating-point unit gives.
pub proof fn operations_give_values(e: Entry, r: Run, op: Op)
    ensures
        ({
            let s = run_op(e, r, op);
            &&& s.vals.len() == r.vals.len() + 1
            &&& s.vals.drop_last() == r.vals
            &&& !(op is Store) ==> s.mem == r.mem
            &&& !(op is PutXmm) ==> s.xmm == r.xmm
            &&& r.trap is Some ==> s.trap == r.trap && s.mem == r.mem && s.xmm == r.xmm
            &&& op matches Op::Let(x) ==> s.vals.last() == x.eval(r.vals) && s.trap == r.trap
            &&& op matches Op::Float { op, double, a, b } ==> s.vals.last() == (e.fp)(
                op,
                double,
                r.vals[a as int],
                r.vals[b as int],
            ) && s.trap == r.trap
            &&& r.trap is None ==> (op matches Op::PutXmm { half, value } ==> s.xmm == r.xmm.update(
                half as int,
                r.vals[value as int],
            ) && s.trap is None)
            &&& r.trap is None ==> (op matches Op::Load { addr, size, ip, at } ==> match loaded(
                r.mem,
                r.vals[addr as int],
                size as int,
            ) {
                Ok(v) => s.vals.last() == v && s.trap is None,
                Err(_) => s.trap matches Some(t) && !t.write && t.ip == ip && t.address
                    == r.vals[addr as int] && t.size == size,
            })
            &&& r.trap is None ==> (op matches Op::Store { addr, size, value, ip, at } ==> {
                let (m, f) = stored(
                    r.mem,
                    r.vals[addr as int],
                    r.vals[value as int],
                    size as int,
                );
                &&& s.mem == m
                &&& s.trap is Some == f is Some
                &&& s.trap matches Some(t) ==> t.write && t.ip == ip && t.address
                    == r.vals[addr as int] && t.size == size
            })
        }),
{
    assert(run_op(e, r, op).vals.drop_last() =~= r.vals);
}

/// Where a block leaves for.
pub open spec fn leaves_for(g: Goto, chain: Map<u64, u32>, start: u64, va: u64) -> bool {
    match g {
        Goto::Again => va == start,
        Goto::To { rip, direct } => match direct {
            Some(id) => va != start && chain.contains_key(va) && chain[va] == id,
            None => va == start || !chain.contains_key(va),
        },
    }
}

/// A block is linked directly to the compiled block at the address it leaves for, if there
/// is one, and jumps back to its own start without leaving; a return is never linked.
pub proof fn links_lead_where_blocks_go(
    tail: Tail,
    chain: Map<u64, u32>,
    start: u64,
    end_rip: u64,
    term: Option<BlockTerm>,
    host: Option<FastApiKind>,
)
    requires
        links(tail, chain, start, end_rip, term, host),
    ensures
        match term {
            Some(BlockTerm::Jmp { target }) => tail matches Tail::Leave(g) && leaves_for(
                g,
                chain,
                start,
                target,
            ) && (g is Again <==> target == start),
            Some(BlockTerm::Jcc { mnemonic, taken, not_taken }) => tail is Branch && leaves_for(
                tail->taken,
                chain,
                start,
                taken,
            ) && leaves_for(tail->not_taken, chain, start, not_taken) && (tail->taken is Again
                <==> taken == start) && (tail->not_taken is Again <==> not_taken == start),
            Some(BlockTerm::Call { target, return_ip }) => match host {
                Some(kind) => tail matches Tail::Host(k, g) && k == kind && leaves_for(
                    g,
                    chain,
                    start,
                    return_ip,
                ),
                None => tail matches Tail::Leave(g) && leaves_for(g, chain, start, target),
            },
            Some(BlockTerm::Ret) => tail matches Tail::Leave(Goto::To { rip, direct }) && direct
                is None,
            None => tail is Text || (tail matches Tail::Leave(g) && leaves_for(
                g,
                chain,
                start,
                end_rip,
            )),
        },
{
}

/// A call predicts that a return to the instruction after it will come; a return checks the
/// prediction against where it goes. Nothing else changes predictions, and calls of
/// functions of the host neither.
pub proof fn calls_predict_returns(
    p: Prediction,
    tail: Tail,
    target: u64,
    return_ip: u64,
    host: Option<FastApiKind>,
    term: Option<BlockTerm>,
)
    requires
        predicts(p, tail, term, host),
    ensures
        term == Some(BlockTerm::Call { target, return_ip }) && host is None ==> p
            == Prediction::Push(return_ip),
        term matches Some(BlockTerm::Call { .. }) ==> host is Some ==> p == Prediction::Keep,
        term == Some(BlockTerm::Ret) ==> (tail matches Tail::Leave(Goto::To { rip, direct }) ==> p
            == Prediction::Check(rip)),
        term is None || term->0 is Jmp || term->0 is Jcc ==> p == Prediction::Keep,
{
}

/// A block that ends in a call of a function of the host goes on after the call, with the
/// registers and the stack as they were before it; other ends call none.
pub proof fn host_calls_return_at_once(
    s: Machine,
    insns: Seq<Instr>,
    end_rip: u64,
    target: u64,
    return_ip: u64,
    kind: FastApiKind,
    fp: spec_fn(u8, bool, u64, u64) -> u64,
)
    requires
        insns.len() > 0,
        body_effect(s, insns.drop_last(), fp).1 is None,
    ensures
        ({
            let before = body_effect(s, insns.drop_last(), fp).0;
            block_effect(
                s,
                insns,
                end_rip,
                Some(BlockTerm::Call { target, return_ip }),
                Some(kind),
                fp,
            ) == (before.with_regs(before.regs.at(return_ip)), None::<(Fault, u64)>)
        }),
        host_call(Some(BlockTerm::Call { target, return_ip }), Some(kind)) == Some(kind),
        host_call(Some(BlockTerm::Jmp { target }), Some(kind)) is None,
        host_call(Some(BlockTerm::Ret), Some(kind)) is None,
        host_call(None, Some(kind)) is None,
{
}

/// What a compiled block reports of a failed access: what the access was, and the
/// registers at the instruction that made it.
pub proof fn failed_accesses_are_reported(c: CompiledBlock, e: Entry)
    requires
        run_ops(e, c.ops@).trap is Some,
    ensures
        ({
            let t = run_ops(e, c.ops@).trap->0;
            let o = c.outcome(e);
            &&& o.host is None
            &&& o.fault matches Some(f) && f.address == t.address && f.size == t.size as i32
                && f.value == 0 && f.access_type == if t.write {
                1i32
            } else {
                0
            }
            &&& o.machine.regs.rip == t.ip
            &&& o.machine.regs.gpr == t.gpr
            &&& o.machine.regs.rflags == t.rflags
            &&& o.machine.mem == run_ops(e, c.ops@).mem
        }),
{
}

} // verus!
