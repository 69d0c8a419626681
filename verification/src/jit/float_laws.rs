//! What compiled vector arithmetic does to the lanes of its operands.

use vstd::prelude::*;

use crate::exec::access::loaded;
use crate::exec::model::{Fault, Machine};
use crate::exec::operand::address_of;
use crate::insn::instr::Instr;
use crate::insn::{kind, mnemonic};
use crate::jit::block::{vector_bit, vector_fp, SseFp};
use crate::jit::lower::compiled;
use crate::regs::{Reg, Regs};

verus! {

/// Half number `h` of a vector.
pub open spec fn half(x: u128, h: int) -> u64 {
    if h == 0 {
        (x as int % 0x1_0000_0000_0000_0000) as u64
    } else {
        (x as int / 0x1_0000_0000_0000_0000) as u64
    }
}

/// Quarter number `q` of a vector.
pub open spec fn quarter(x: u128, q: int) -> u64 {
    if q == 0 {
        (x as int % 0x1_0000_0000) as u64
    } else if q == 1 {
        (x as int / 0x1_0000_0000 % 0x1_0000_0000) as u64
    } else if q == 2 {
        (x as int / 0x1_0000_0000_0000_0000 % 0x1_0000_0000) as u64
    } else {
        (x as int / 0x1_0000_0000_0000_0000_0000_0000) as u64
    }
}

/// The second operand, a vector register or `n` bytes of memory, holds `y`.
pub open spec fn second_holds(s: Machine, i: Instr, n: int, y: u128) -> bool {
    if i.op1.kind == kind::MEMORY {
        let a = address_of(s.regs, i)->Ok_0;
        &&& address_of(s.regs, i) is Ok
        &&& n < 16 ==> loaded(s.mem, a, n) == Ok::<u64, Fault>(half(y, 0)) && half(y, 1) == 0
        &&& n == 16 ==> loaded(s.mem, a, 8) == Ok::<u64, Fault>(half(y, 0)) && loaded(
            s.mem,
            a.wrapping_add(8),
            8,
        ) == Ok::<u64, Fault>(half(y, 1))
    } else {
        exists|j: u8| j < 16 && i.op1.reg == Reg::Xmm(j) && #[trigger] s.regs.xmm[j as int] == y
    }
}

/// How many bytes of its second operand a floating-point instruction takes.
pub open spec fn float_size(packed: bool, double: bool) -> int {
    if packed {
        16
    } else if double {
        8
    } else {
        4
    }
}

/// The vector `z` is `x` with the operation `op` applied lane by lane: to all lanes of
/// both vectors if packed, else to the lowest only, the others being those of `x`.
pub open spec fn lanes_of(
    fp: spec_fn(u8, bool, u64, u64) -> u64,
    x: u128,
    y: u128,
    z: u128,
    op: u8,
    packed: bool,
    double: bool,
) -> bool {
    if double {
        &&& half(z, 0) == fp(op, true, half(x, 0), half(y, 0))
        &&& half(z, 1) == if packed {
            fp(op, true, half(x, 1), half(y, 1))
        } else {
            half(x, 1)
        }
    } else if packed {
        &&& quarter(z, 0) == fp(op, false, quarter(x, 0), quarter(y, 0)) % 0x1_0000_0000
        &&& quarter(z, 1) == fp(op, false, quarter(x, 1), quarter(y, 1)) % 0x1_0000_0000
        &&& quarter(z, 2) == fp(op, false, quarter(x, 2), quarter(y, 2)) % 0x1_0000_0000
        &&& quarter(z, 3) == fp(op, false, quarter(x, 3), quarter(y, 3)) % 0x1_0000_0000
    } else {
        &&& quarter(z, 0) == fp(op, false, half(x, 0), half(y, 0)) % 0x1_0000_0000
        &&& quarter(z, 1) == quarter(x, 1)
        &&& quarter(z, 2) == quarter(x, 2)
        &&& quarter(z, 3) == quarter(x, 3)
    }
}

/// The compiled instruction replaces vector register `k` with the operation `op` on its
/// lanes, and changes nothing else.
pub open spec fn works_on_lanes(
    s: Machine,
    i: Instr,
    fp: spec_fn(u8, bool, u64, u64) -> u64,
    k: u8,
    op: u8,
    packed: bool,
    double: bool,
) -> bool {
    let (t, f) = compiled(s, i, fp);
    forall|y: u128| #[trigger]
        second_holds(s, i, float_size(packed, double), y) ==> {
            &&& f is None
            &&& t.mem == s.mem
            &&& t.regs == (Regs {
                xmm: s.regs.xmm.update(k as int, t.regs.xmm[k as int]),
                ..s.regs
            })
            &&& lanes_of(
                fp,
                s.regs.xmm[k as int],
                y,
                t.regs.xmm[k as int],
                op,
                packed,
                double,
            )
        }
}

/// Halves in terms of quarters.
proof fn lemma_quarters(x: u128)
    ensures
        half(x, 0) % 0x1_0000_0000 == quarter(x, 0),
        half(x, 0) / 0x1_0000_0000 == quarter(x, 1),
        half(x, 1) % 0x1_0000_0000 == quarter(x, 2),
        half(x, 1) / 0x1_0000_0000 == quarter(x, 3),
        half(x, 0) == quarter(x, 0) + quarter(x, 1) * 0x1_0000_0000,
        half(x, 1) == quarter(x, 2) + quarter(x, 3) * 0x1_0000_0000,
{
}

/// Vectors from halves.
proof fn lemma_join(low: u64, high: u64)
    ensures
        half(crate::jit::state::xmm_join(low, high), 0) == low,
        half(crate::jit::state::xmm_join(low, high), 1) == high,
{
    crate::jit::vector::lemma_halves(low, high);
}

/// A compiled floating-point instruction works on lanes by what its mnemonic stands for.
#[verifier::spinoff_prover]
#[verifier::rlimit(40)]
proof fn lemma_lanes(
    s: Machine,
    i: Instr,
    fp: spec_fn(u8, bool, u64, u64) -> u64,
    k: u8,
)
    requires
        s.regs.xmm.len() == 16,
        k < 16,
        i.op0.reg == Reg::Xmm(k),
        vector_fp(i.mnemonic) is Some,
    ensures
        works_on_lanes(
            s,
            i,
            fp,
            k,
            vector_fp(i.mnemonic)->0.op,
            vector_fp(i.mnemonic)->0.packed,
            vector_fp(i.mnemonic)->0.double,
        ),
{
    let f = vector_fp(i.mnemonic)->0;
    let n = float_size(f.packed, f.double);
    let x = s.regs.xmm[k as int];
    assert forall|y: u128| #[trigger] second_holds(s, i, n, y) implies {
        let t = compiled(s, i, fp).0;
        &&& compiled(s, i, fp).1 is None
        &&& t.mem == s.mem
        &&& t.regs == (Regs { xmm: s.regs.xmm.update(k as int, t.regs.xmm[k as int]), ..s.regs })
        &&& lanes_of(fp, x, y, t.regs.xmm[k as int], f.op, f.packed, f.double)
    } by {
        let a = (half(x, 0), half(x, 1));
        let b = (half(y, 0), half(y, 1));
        assert(crate::jit::vector::vector_source(s, i, 1, n) == Ok::<(u64, u64), Fault>(b));
        let (low, high) = crate::jit::vector::float_result(fp, f, a, b);
        assert(compiled(s, i, fp) == crate::jit::vector::after_vector_fp(s, i, f, fp));
        let z = crate::jit::state::xmm_join(low, high);
        assert(compiled(s, i, fp).0.regs.xmm[k as int] == z);
        lemma_result(fp, f, x, y);
    }
}

/// The lanes of the result of a floating-point operation.
#[verifier::spinoff_prover]
proof fn lemma_result(fp: spec_fn(u8, bool, u64, u64) -> u64, f: SseFp, x: u128, y: u128)
    ensures
        ({
            let (low, high) = crate::jit::vector::float_result(
                fp,
                f,
                (half(x, 0), half(x, 1)),
                (half(y, 0), half(y, 1)),
            );
            lanes_of(
                fp,
                x,
                y,
                crate::jit::state::xmm_join(low, high),
                f.op,
                f.packed,
                f.double,
            )
        }),
{
    let (low, high) = crate::jit::vector::float_result(
        fp,
        f,
        (half(x, 0), half(x, 1)),
        (half(y, 0), half(y, 1)),
    );
    lemma_join(low, high);
    lemma_quarters(x);
    lemma_quarters(y);
    lemma_quarters(crate::jit::state::xmm_join(low, high));
}

/// Floating-point instructions by their names. `ADD`, `SUB`, `MUL` and `DIV` are the
/// operations 0 to 3 of the floating-point unit; `S` and `P` after them stand for the
/// lowest lane and for all lanes; `S` and `D` at the end for single and double precision.
/// No other instructions are floating-point arithmetic.
pub proof fn float_instructions_do_what_they_are_named_for(
    s: Machine,
    i: Instr,
    fp: spec_fn(u8, bool, u64, u64) -> u64,
    k: u8,
)
    requires
        s.regs.xmm.len() == 16,
        k < 16,
        i.op0.reg == Reg::Xmm(k),
    ensures
        i.mnemonic == mnemonic::ADDSS ==> works_on_lanes(s, i, fp, k, 0, false, false),
        i.mnemonic == mnemonic::SUBSS ==> works_on_lanes(s, i, fp, k, 1, false, false),
        i.mnemonic == mnemonic::MULSS ==> works_on_lanes(s, i, fp, k, 2, false, false),
        i.mnemonic == mnemonic::DIVSS ==> works_on_lanes(s, i, fp, k, 3, false, false),
        i.mnemonic == mnemonic::ADDSD ==> works_on_lanes(s, i, fp, k, 0, false, true),
        i.mnemonic == mnemonic::SUBSD ==> works_on_lanes(s, i, fp, k, 1, false, true),
        i.mnemonic == mnemonic::MULSD ==> works_on_lanes(s, i, fp, k, 2, false, true),
        i.mnemonic == mnemonic::DIVSD ==> works_on_lanes(s, i, fp, k, 3, false, true),
        i.mnemonic == mnemonic::ADDPS ==> works_on_lanes(s, i, fp, k, 0, true, false),
        i.mnemonic == mnemonic::SUBPS ==> works_on_lanes(s, i, fp, k, 1, true, false),
        i.mnemonic == mnemonic::MULPS ==> works_on_lanes(s, i, fp, k, 2, true, false),
        i.mnemonic == mnemonic::DIVPS ==> works_on_lanes(s, i, fp, k, 3, true, false),
        i.mnemonic == mnemonic::ADDPD ==> works_on_lanes(s, i, fp, k, 0, true, true),
        i.mnemonic == mnemonic::SUBPD ==> works_on_lanes(s, i, fp, k, 1, true, true),
        i.mnemonic == mnemonic::MULPD ==> works_on_lanes(s, i, fp, k, 2, true, true),
        i.mnemonic == mnemonic::DIVPD ==> works_on_lanes(s, i, fp, k, 3, true, true),
{
    if vector_fp(i.mnemonic) is Some {
        lemma_lanes(s, i, fp, k);
    }
}

/// No two instructions perform the same floating-point operation on the same lanes, and
/// every operation on every kind of lane has its instruction.
pub proof fn float_instructions_are_distinct(m: u16, n: u16, f: SseFp)
    ensures
        vector_fp(m) is Some && vector_fp(m) == vector_fp(n) ==> m == n,
        vector_fp(m) matches Some(f) ==> f.op < 4,
        f.op < 4 ==> exists|q: u16| #[trigger] vector_fp(q) == Some(f),
{
    if f.op < 4 {
        let q = match (f.op, f.packed, f.double) {
            (0u8, false, false) => mnemonic::ADDSS,
            (1u8, false, false) => mnemonic::SUBSS,
            (2u8, false, false) => mnemonic::MULSS,
            (_, false, false) => mnemonic::DIVSS,
            (0u8, false, true) => mnemonic::ADDSD,
            (1u8, false, true) => mnemonic::SUBSD,
            (2u8, false, true) => mnemonic::MULSD,
            (_, false, true) => mnemonic::DIVSD,
            (0u8, true, false) => mnemonic::ADDPS,
            (1u8, true, false) => mnemonic::SUBPS,
            (2u8, true, false) => mnemonic::MULPS,
            (_, true, false) => mnemonic::DIVPS,
            (0u8, true, true) => mnemonic::ADDPD,
            (1u8, true, true) => mnemonic::SUBPD,
            (2u8, true, true) => mnemonic::MULPD,
            (_, true, true) => mnemonic::DIVPD,
        };
        assert(vector_fp(q) == Some(f));
    }
}

/// The mnemonics of a bitwise vector operation.
pub open spec fn one_of(m: u16, a: u16, b: u16, c: u16) -> bool {
    m == a || m == b || m == c
}

/// Bitwise vector instructions by their names: each half of the first operand becomes the
/// and, or, exclusive or of the halves, or what the second has and the first has not;
/// nothing else changes.
pub proof fn bitwise_instructions_do_what_they_are_named_for(
    s: Machine,
    i: Instr,
    fp: spec_fn(u8, bool, u64, u64) -> u64,
    k: u8,
    y: u128,
    h: int,
)
    requires
        s.regs.xmm.len() == 16,
        k < 16,
        i.op0.reg == Reg::Xmm(k),
        second_holds(s, i, 16, y),
        h == 0 || h == 1,
    ensures
        ({
            let (t, f) = compiled(s, i, fp);
            let a = half(s.regs.xmm[k as int], h);
            let b = half(y, h);
            let c = half(t.regs.xmm[k as int], h);
            let m = i.mnemonic;
            let and = one_of(m, mnemonic::ANDPS, mnemonic::ANDPD, mnemonic::PAND);
            let or = one_of(m, mnemonic::ORPS, mnemonic::ORPD, mnemonic::POR);
            let xor = one_of(m, mnemonic::XORPS, mnemonic::XORPD, mnemonic::PXOR);
            let andn = one_of(m, mnemonic::ANDNPS, mnemonic::ANDNPD, mnemonic::PANDN);
            &&& and ==> c == a & b
            &&& or ==> c == a | b
            &&& xor ==> c == a ^ b
            &&& andn ==> c == !a & b
            &&& and || or || xor || andn ==> f is None && t.mem == s.mem && t.regs == (Regs {
                xmm: s.regs.xmm.update(k as int, t.regs.xmm[k as int]),
                ..s.regs
            })
        }),
{
    let a = half(s.regs.xmm[k as int], h);
    assert(!a == 0xffff_ffff_ffff_ffff - a) by (bit_vector);
    match vector_bit(i.mnemonic) {
        Some(op) => {
            let x = s.regs.xmm[k as int];
            assert(crate::jit::vector::vector_source(s, i, 1, 16) == Ok::<(u64, u64), Fault>(
                (half(y, 0), half(y, 1)),
            ));
            assert(compiled(s, i, fp) == crate::jit::vector::after_vector_bit(s, i, op));
            lemma_join(
                crate::jit::vector::bit_op(op, half(x, 0), half(y, 0)),
                crate::jit::vector::bit_op(op, half(x, 1), half(y, 1)),
            );
        },
        None => {},
    }
}

/// Compiled moves of whole vectors into a register copy all sixteen bytes, and change
/// nothing else.
pub proof fn whole_vectors_are_copied(
    s: Machine,
    i: Instr,
    fp: spec_fn(u8, bool, u64, u64) -> u64,
    k: u8,
    y: u128,
)
    requires
        s.regs.xmm.len() == 16,
        k < 16,
        i.op0.kind == kind::REGISTER,
        i.op0.reg == Reg::Xmm(k),
        second_holds(s, i, 16, y),
        one_of(i.mnemonic, mnemonic::MOVAPS, mnemonic::MOVUPS, mnemonic::MOVDQA) || one_of(
            i.mnemonic,
            mnemonic::MOVDQU,
            mnemonic::MOVAPD,
            mnemonic::MOVUPD,
        ),
    ensures
        ({
            let (t, f) = compiled(s, i, fp);
            &&& f is None
            &&& t.mem == s.mem
            &&& t.regs == (Regs { xmm: s.regs.xmm.update(k as int, y), ..s.regs })
        }),
{
    assert(crate::jit::vector::vector_source(s, i, 1, 16) == Ok::<(u64, u64), Fault>(
        (half(y, 0), half(y, 1)),
    ));
    assert(compiled(s, i, fp) == crate::jit::vector::after_vector_move(s, i, 16, false));
    lemma_join(half(y, 0), half(y, 1));
    assert(crate::jit::state::xmm_join(half(y, 0), half(y, 1)) == y);
}

/// A compiled instruction that uses no memory, by its operands and its mnemonic, changes
/// none and cannot fail for want of any.
#[verifier::spinoff_prover]
#[verifier::rlimit(60)]
pub proof fn instructions_without_memory(
    s: Machine,
    i: Instr,
    fp: spec_fn(u8, bool, u64, u64) -> u64,
)
    requires
        i.op_count <= 2 ==> i.op2.kind != kind::MEMORY,
        i.op_count <= 1 ==> i.op1.kind != kind::MEMORY,
        i.op_count == 0 ==> i.op0.kind != kind::MEMORY,
        !crate::jit::liveness::uses_memory(i),
    ensures
        compiled(s, i, fp).0.mem == s.mem,
        !(compiled(s, i, fp).1 matches Some(Fault::Memory(_))),
{
}

} // verus!
