//! Moves, the stack, and transfers of control.

use vstd::prelude::*;

use crate::endian::{le_bytes, lemma_le_bytes_len, lemma_pow256, value_round_trip};
use crate::exec::access::{after_push, loaded};
use crate::exec::alu_laws::{result, works_on, works_on_one, wrote};
use crate::exec::branch::{cmov_cond, holds, setcc_cond};
use crate::exec::laws::{carry, lemma_bits, operand_size, unit, zero};
use crate::exec::model::{Fault, Machine};
use crate::exec::operand::{
    address_of, after_operand, after_operand_sized, after_register, operand_bytes, operand_value,
};
use crate::exec::operand_laws::{
    alike_but, operands_read_back, registers_read_back, sized_operands_read_back,
    stored_numbers_load,
};
use crate::exec::step::executed;
use crate::insn::instr::Instr;
use crate::insn::{kind, mnemonic};
use crate::jit::laws::lemma_reads_frame;
use crate::regs::{modulus, signed, trunc};

verus! {

/// A move makes the first operand equal to the second, and sets no flag.
pub proof fn moves_copy(s: Machine, i: Instr, ip: u64, tsc: u64, n: int, x: u64, y: u64)
    requires
        works_on(s, i, ip, tsc, n, x, y),
        i.mnemonic == mnemonic::MOV,
    ensures
        ({
            let t = executed(s, i, ip, tsc).0;
            &&& result(s, i, ip, tsc) == y as int % modulus(n)
            &&& t.regs.rflags == s.regs.rflags
            &&& wrote(s, t, i, ip, n)
        }),
{
    let u = s.with_regs(s.regs.at(ip));
    lemma_reads_frame(s, i, 1, ip);
    assert(executed(s, i, ip, tsc) == after_operand(u, i, 0, y));
    operands_read_back(u, i, 0, y, n);
}

/// An extending move reads the second operand by its own size, as unsigned or as signed,
/// and makes the first operand the same number.
pub proof fn extensions_keep_the_number(
    s: Machine,
    i: Instr,
    ip: u64,
    tsc: u64,
    n: int,
    m: int,
    x: u64,
    y: u64,
)
    requires
        works_on(s, i, ip, tsc, n, x, y),
        operand_size(m),
        m <= n,
        operand_bytes(i, 1) == Ok::<int, Fault>(m),
        i.mnemonic == mnemonic::MOVZX || i.mnemonic == mnemonic::MOVSX || i.mnemonic
            == mnemonic::MOVSXD,
    ensures
        ({
            let t = executed(s, i, ip, tsc).0;
            let r = result(s, i, ip, tsc);
            &&& i.mnemonic == mnemonic::MOVZX ==> r == y as int % modulus(m)
            &&& i.mnemonic != mnemonic::MOVZX ==> signed(r, n) == signed(y as int, m)
            &&& t.regs.rflags == s.regs.rflags
            &&& wrote(s, t, i, ip, n)
        }),
{
    let u = s.with_regs(s.regs.at(ip));
    lemma_reads_frame(s, i, 1, ip);
    let sign = i.mnemonic != mnemonic::MOVZX;
    assert(executed(s, i, ip, tsc) == crate::exec::alu::after_movx(u, i, sign));
    let v = if sign {
        crate::exec::alu::sign_extended(y as int, m)
    } else {
        trunc(y as int, m) as u64
    };
    assert(executed(s, i, ip, tsc) == after_operand_sized(u, i, 0, v, n));
    sized_operands_read_back(u, i, 0, v, n);
    operands_read_back(u, i, 0, v, n);
    let t = trunc(y as int, m);
    lemma_extended(t, m, n);
}

/// A signed number of `m` bytes at eight bytes, cut down to `n`.
proof fn lemma_extended(t: int, m: int, n: int)
    requires
        operand_size(m),
        operand_size(n),
        m <= n,
        0 <= t < modulus(m),
    ensures
        trunc(t, m) == t,
        trunc(t, n) == t,
        trunc(trunc(signed(t, m), 8), n) == trunc(signed(t, m), n),
        signed(trunc(signed(t, m), n), n) == signed(t, m),
        signed(trunc(trunc(signed(t, m), 8), n), n) == signed(t, m),
{
    vstd::arithmetic::div_mod::lemma_small_mod(t as nat, modulus(m) as nat);
    vstd::arithmetic::div_mod::lemma_small_mod(t as nat, modulus(n) as nat);
    let v = signed(t, m);
    if v < 0 {
        vstd::arithmetic::div_mod::lemma_fundamental_div_mod_converse(
            v,
            modulus(8),
            -1,
            v + modulus(8),
        );
        vstd::arithmetic::div_mod::lemma_fundamental_div_mod_converse(
            v,
            modulus(n),
            -1,
            v + modulus(n),
        );
        let k = if n == 1 {
            0x100_0000_0000_0000int
        } else if n == 2 {
            0x1_0000_0000_0000
        } else if n == 4 {
            0x1_0000_0000
        } else {
            1
        };
        if n == 1 {
            assert((k - 1) * modulus(n) == modulus(8) - modulus(n));
        } else if n == 2 {
            assert((k - 1) * modulus(n) == modulus(8) - modulus(n));
        } else if n == 4 {
            assert((k - 1) * modulus(n) == modulus(8) - modulus(n));
        }
        vstd::arithmetic::div_mod::lemma_fundamental_div_mod_converse(
            v + modulus(8),
            modulus(n),
            k - 1,
            v + modulus(n),
        );
        vstd::arithmetic::div_mod::lemma_small_mod(
            (v + modulus(n)) as nat,
            modulus(n) as nat,
        );
    } else {
        vstd::arithmetic::div_mod::lemma_small_mod(t as nat, modulus(8) as nat);
    }
}

/// Loading an address writes the address itself, cut down to the register, and reads no
/// memory.
pub proof fn addresses_are_loaded(s: Machine, i: Instr, ip: u64, tsc: u64, a: u64)
    requires
        s.regs.gpr.len() == 16,
        i.wf(),
        i.mnemonic == mnemonic::LEA,
        address_of(s.regs, i) == Ok::<u64, Fault>(a),
        s.regs.reg(i.op0.reg) is Some,
    ensures
        ({
            let (t, f) = executed(s, i, ip, tsc);
            &&& f is None
            &&& t.regs.reg(i.op0.reg) == Some((a as int % modulus(i.op0.reg.bytes())) as u64)
            &&& t.mem == s.mem
            &&& t.regs.rflags == s.regs.rflags
            &&& t.regs.rip == ip
            &&& forall|k: int|
                0 <= k < 16 && i.op0.reg.gpr_index() != Some(k) ==> #[trigger] t.regs.gpr[k]
                    == s.regs.gpr[k]
        }),
{
    let u = s.with_regs(s.regs.at(ip));
    lemma_reads_frame(s, i, 0, ip);
    assert(executed(s, i, ip, tsc) == after_register(u, i.op0.reg, a));
    registers_read_back(u.regs, i.op0.reg, a, 0);
    assert forall|k: int| 0 <= k < 16 && i.op0.reg.gpr_index() != Some(k) implies #[trigger]
        executed(s, i, ip, tsc).0.regs.gpr[k] == s.regs.gpr[k] by {
        registers_read_back(u.regs, i.op0.reg, a, k);
    }
}

/// A conditional move copies where its condition holds and changes nothing elsewhere.
pub proof fn conditional_moves(s: Machine, i: Instr, ip: u64, tsc: u64, n: int, x: u64, y: u64)
    requires
        works_on(s, i, ip, tsc, n, x, y),
        cmov_cond(i.mnemonic) is Some,
    ensures
        ({
            let t = executed(s, i, ip, tsc).0;
            if holds(cmov_cond(i.mnemonic)->0, s.regs) {
                &&& result(s, i, ip, tsc) == y as int % modulus(n)
                &&& t.regs.rflags == s.regs.rflags
                &&& wrote(s, t, i, ip, n)
            } else {
                t == s.with_regs(s.regs.at(ip))
            }
        }),
{
    let u = s.with_regs(s.regs.at(ip));
    lemma_reads_frame(s, i, 1, ip);
    let c = cmov_cond(i.mnemonic)->0;
    assert(holds(c, u.regs) == holds(c, s.regs));
    assert(executed(s, i, ip, tsc) == crate::exec::logic::after_cmov(u, i, holds(c, s.regs)));
    if holds(c, s.regs) {
        operands_read_back(u, i, 0, y, n);
    }
}

/// Setting a byte makes it one where its condition holds and zero elsewhere.
pub proof fn conditions_as_bytes(s: Machine, i: Instr, ip: u64, tsc: u64, n: int, x: u64)
    requires
        works_on_one(s, i, ip, tsc, n, x),
        setcc_cond(i.mnemonic) is Some,
    ensures
        ({
            let t = executed(s, i, ip, tsc).0;
            &&& result(s, i, ip, tsc) == unit(holds(setcc_cond(i.mnemonic)->0, s.regs))
            &&& t.regs.rflags == s.regs.rflags
            &&& wrote(s, t, i, ip, n)
        }),
{
    let u = s.with_regs(s.regs.at(ip));
    let c = setcc_cond(i.mnemonic)->0;
    assert(holds(c, u.regs) == holds(c, s.regs));
    assert(executed(s, i, ip, tsc) == crate::exec::logic::after_setcc(u, i, holds(c, s.regs)));
    operands_read_back(u, i, 0, unit(holds(c, s.regs)) as u64, n);
}

/// How many bytes a stack instruction moves: two for a word register, else eight.
pub open spec fn slot(i: Instr) -> int {
    if i.op0.kind == kind::REGISTER && i.op0.reg is Word {
        2
    } else {
        8
    }
}

/// A push lowers the stack pointer by the size of its operand, whose value is then at the
/// top; everything beside it and all other registers stay.
pub proof fn pushes_store_on_top(s: Machine, i: Instr, ip: u64, tsc: u64, v: u64, va: int)
    requires
        s.regs.gpr.len() == 16,
        i.mnemonic == mnemonic::PUSH,
        !(i.op0.reg is Other),
        operand_value(s, i, 0) == Ok::<u64, Fault>(v),
        executed(s, i, ip, tsc).1 is None,
    ensures
        ({
            let t = executed(s, i, ip, tsc).0;
            let n = slot(i);
            let top = s.regs.gpr[4].wrapping_sub(n as u64);
            &&& t.regs == s.regs.at(ip).set(4, top)
            &&& loaded(t.mem, top, n) == Ok::<u64, Fault>((v as int % modulus(n)) as u64)
            &&& t.mem.dom() == s.mem.dom()
            &&& s.mem.contains_key(va) && (va < top || va >= top + n) ==> t.mem[va] == s.mem[va]
        }),
{
    let u = s.with_regs(s.regs.at(ip));
    lemma_reads_frame(s, i, 0, ip);
    let n = slot(i);
    assert(crate::exec::alu::stack_bytes(i) == n);
    assert(executed(s, i, ip, tsc) == after_push(u, v, n));
    stored_numbers_load(s.mem, s.regs.gpr[4].wrapping_sub(n as u64), v, n, va);
}

/// A pop into a register other than the stack pointer takes what is at the top and raises
/// the stack pointer past it.
pub proof fn pops_take_from_the_top(s: Machine, i: Instr, ip: u64, tsc: u64, v: u64, k: int)
    requires
        s.regs.gpr.len() == 16,
        i.wf(),
        i.mnemonic == mnemonic::POP,
        i.op0.kind == kind::REGISTER,
        i.op0.reg is Word || i.op0.reg is Qword,
        i.op0.reg.gpr_index() != Some(4int),
        loaded(s.mem, s.regs.gpr[4], slot(i)) == Ok::<u64, Fault>(v),
        v < modulus(slot(i)),
        0 <= k < 16,
    ensures
        ({
            let (t, f) = executed(s, i, ip, tsc);
            &&& f is None
            &&& t.regs.reg(i.op0.reg) == Some(v)
            &&& t.regs.gpr[4] == s.regs.gpr[4].wrapping_add(slot(i) as u64)
            &&& k != 4 && i.op0.reg.gpr_index() != Some(k) ==> t.regs.gpr[k] == s.regs.gpr[k]
            &&& t.mem == s.mem
            &&& t.regs.rflags == s.regs.rflags
            &&& t.regs.rip == ip
        }),
{
    let u = s.with_regs(s.regs.at(ip));
    let n = slot(i);
    assert(crate::exec::alu::stack_bytes(i) == n);
    let w = crate::exec::access::after_pop(u, n);
    assert(executed(s, i, ip, tsc) == after_operand(w, i, 0, v));
    registers_read_back(w.regs, i.op0.reg, v, k);
    registers_read_back(w.regs, i.op0.reg, v, 4);
    vstd::arithmetic::div_mod::lemma_small_mod(v as nat, modulus(n) as nat);
}

/// A call leaves the address of the next instruction on top of the stack and goes to its
/// target; a return goes to the address on top of the stack and drops it, and as many
/// bytes more as it says.
pub proof fn calls_and_returns(s: Machine, i: Instr, ip: u64, tsc: u64, v: u64)
    requires
        s.regs.gpr.len() == 16,
        executed(s, i, ip, tsc).1 is None,
    ensures
        ({
            let t = executed(s, i, ip, tsc).0;
            let top = s.regs.gpr[4].wrapping_sub(8);
            let more = if i.op_count >= 1 && i.op0.kind == kind::IMMEDIATE16 {
                i.op0.imm
            } else {
                0
            };
            &&& i.mnemonic == mnemonic::CALL ==> {
                &&& loaded(t.mem, top, 8) == Ok::<u64, Fault>(ip)
                &&& t.regs == s.regs.set(4, top).at(t.regs.rip)
                &&& kind::near_branch(i.op0.kind) ==> t.regs.rip == i.near_branch
                &&& !kind::near_branch(i.op0.kind) && operand_value(s, i, 0) == Ok::<u64, Fault>(v)
                    ==> t.regs.rip == v
            }
            &&& i.mnemonic == mnemonic::JMP ==> {
                &&& t == s.with_regs(s.regs.at(t.regs.rip))
                &&& kind::near_branch(i.op0.kind) ==> t.regs.rip == i.near_branch
                &&& !kind::near_branch(i.op0.kind) && operand_value(s, i, 0) == Ok::<u64, Fault>(v)
                    ==> t.regs.rip == v
            }
            &&& i.mnemonic == mnemonic::RET ==> {
                &&& loaded(s.mem, s.regs.gpr[4], 8) == Ok::<u64, Fault>(t.regs.rip)
                &&& t.regs == s.regs.set(
                    4,
                    s.regs.gpr[4].wrapping_add(8).wrapping_add(more),
                ).at(t.regs.rip)
                &&& t.mem == s.mem
            }
        }),
{
    let u = s.with_regs(s.regs.at(ip));
    lemma_reads_frame(s, i, 0, ip);
    let top = s.regs.gpr[4].wrapping_sub(8);
    if i.mnemonic == mnemonic::CALL {
        assert(executed(s, i, ip, tsc) == crate::exec::branch::after_call(u, i, ip));
        stored_numbers_load(s.mem, top, ip, 8, 0);
        assert(executed(s, i, ip, tsc).0.regs =~= s.regs.set(4, top).at(
            executed(s, i, ip, tsc).0.regs.rip,
        ));
    } else if i.mnemonic == mnemonic::JMP {
        assert(executed(s, i, ip, tsc) == crate::exec::branch::after_jmp(u, i));
    } else if i.mnemonic == mnemonic::RET {
        assert(executed(s, i, ip, tsc) == crate::exec::branch::after_ret(u, i));
        let t = executed(s, i, ip, tsc).0;
        let base = s.regs.gpr[4].wrapping_add(8);
        if i.op_count >= 1 && i.op0.kind == kind::IMMEDIATE16 {
            assert(t.regs.gpr =~= s.regs.gpr.update(4, base.wrapping_add(i.op0.imm)));
        } else {
            assert(t.regs.gpr =~= s.regs.gpr.update(4, base.wrapping_add(0)));
        }
    }
}

/// The flags go to the stack whole and come back whole, with the reserved bit set;
/// leaving a frame drops it and restores the frame pointer that it began with.
pub proof fn flags_and_frames(s: Machine, i: Instr, ip: u64, tsc: u64)
    requires
        s.regs.gpr.len() == 16,
        executed(s, i, ip, tsc).1 is None,
    ensures
        ({
            let t = executed(s, i, ip, tsc).0;
            let top = s.regs.gpr[4].wrapping_sub(8);
            &&& i.mnemonic == mnemonic::PUSHFQ ==> {
                &&& loaded(t.mem, top, 8) == Ok::<u64, Fault>(s.regs.rflags)
                &&& t.regs == s.regs.at(ip).set(4, top)
            }
            &&& i.mnemonic == mnemonic::POPFQ ==> {
                &&& loaded(s.mem, s.regs.gpr[4], 8) matches Ok(v) && t.regs.rflags == v | 2
                &&& t.regs == s.regs.at(ip).set(4, s.regs.gpr[4].wrapping_add(8)).flags(
                    t.regs.rflags,
                )
                &&& t.mem == s.mem
            }
            &&& i.mnemonic == mnemonic::LEAVE ==> {
                &&& loaded(s.mem, s.regs.gpr[5], 8) == Ok::<u64, Fault>(t.regs.gpr[5])
                &&& t.regs.gpr == s.regs.gpr.update(
                    4,
                    s.regs.gpr[5].wrapping_add(8),
                ).update(5, t.regs.gpr[5])
                &&& t.mem == s.mem
                &&& t.regs.rflags == s.regs.rflags
                &&& t.regs.rip == ip
            }
        }),
{
    let u = s.with_regs(s.regs.at(ip));
    if i.mnemonic == mnemonic::PUSHFQ {
        assert(executed(s, i, ip, tsc) == after_push(u, s.regs.rflags, 8));
        stored_numbers_load(s.mem, s.regs.gpr[4].wrapping_sub(8), s.regs.rflags, 8, 0);
    } else if i.mnemonic == mnemonic::POPFQ {
        assert(executed(s, i, ip, tsc) == crate::exec::step::after_popfq(u));
    } else if i.mnemonic == mnemonic::LEAVE {
        assert(executed(s, i, ip, tsc) == crate::exec::step::after_leave(u));
        let t = executed(s, i, ip, tsc).0;
        assert(t.regs.gpr =~= s.regs.gpr.update(4, s.regs.gpr[5].wrapping_add(8)).update(
            5,
            t.regs.gpr[5],
        ));
    }
}

/// Two registers that are parts of different general registers are swapped.
pub proof fn exchanges_swap(s: Machine, i: Instr, ip: u64, tsc: u64, x: u64, y: u64, k: int)
    requires
        s.regs.gpr.len() == 16,
        i.wf(),
        i.mnemonic == mnemonic::XCHG,
        i.op0.kind == kind::REGISTER,
        i.op1.kind == kind::REGISTER,
        s.regs.reg(i.op0.reg) == Some(x),
        s.regs.reg(i.op1.reg) == Some(y),
        i.op0.reg.bytes() == i.op1.reg.bytes(),
        i.op0.reg.gpr_index() != i.op1.reg.gpr_index(),
        0 <= k < 16,
    ensures
        ({
            let (t, f) = executed(s, i, ip, tsc);
            &&& f is None
            &&& t.regs.reg(i.op0.reg) == Some(y)
            &&& t.regs.reg(i.op1.reg) == Some(x)
            &&& i.op0.reg.gpr_index() != Some(k) && i.op1.reg.gpr_index() != Some(k)
                ==> t.regs.gpr[k] == s.regs.gpr[k]
            &&& t.mem == s.mem
            &&& t.regs.rflags == s.regs.rflags
            &&& t.regs.rip == ip
        }),
{
    let u = s.with_regs(s.regs.at(ip));
    let n = i.op0.reg.bytes();
    assert(executed(s, i, ip, tsc) == crate::exec::logic::after_xchg(u, i));
    let w = after_operand(u, i, 0, y).0;
    let a = i.op0.reg.gpr_index()->0;
    let b = i.op1.reg.gpr_index()->0;
    registers_read_back(u.regs, i.op0.reg, y, k);
    registers_read_back(u.regs, i.op0.reg, y, b);
    registers_read_back(w.regs, i.op1.reg, x, k);
    registers_read_back(w.regs, i.op1.reg, x, a);
    vstd::arithmetic::div_mod::lemma_small_mod(x as nat, modulus(n) as nat);
    vstd::arithmetic::div_mod::lemma_small_mod(y as nat, modulus(n) as nat);
}

/// Reversing the bytes of a register: the first becomes the last.
pub proof fn bytes_are_reversed(s: Machine, i: Instr, ip: u64, tsc: u64, x: u64)
    requires
        s.regs.gpr.len() == 16,
        i.wf(),
        i.mnemonic == mnemonic::BSWAP,
        s.regs.reg(i.op0.reg) == Some(x),
        i.op0.reg is Dword || i.op0.reg is Qword,
    ensures
        ({
            let (t, f) = executed(s, i, ip, tsc);
            let n = i.op0.reg.bytes() as nat;
            &&& f is None
            &&& t.regs.reg(i.op0.reg) is Some
            &&& le_bytes(t.regs.reg(i.op0.reg)->0 as int, n) == le_bytes(x as int, n).reverse()
            &&& t.mem == s.mem
            &&& t.regs.rflags == s.regs.rflags
            &&& t.regs.rip == ip
        }),
{
    let u = s.with_regs(s.regs.at(ip));
    let n = i.op0.reg.bytes() as nat;
    let b = le_bytes(x as int, n).reverse();
    let v = crate::exec::logic::byte_swapped(x, n);
    assert(executed(s, i, ip, tsc) == after_register(u, i.op0.reg, v));
    registers_read_back(u.regs, i.op0.reg, v, 0);
    lemma_le_bytes_len(x as int, n);
    crate::endian::lemma_le_value_bound(b);
    lemma_pow256();
    value_round_trip(b);
    vstd::arithmetic::div_mod::lemma_small_mod(v as nat, modulus(n as int) as nat);
}

/// Compare and exchange: where accumulator and first operand are equal the zero flag is
/// set and the second goes to the first; elsewhere it is clear and the first goes to the
/// accumulator.
pub proof fn compare_and_exchange(
    s: Machine,
    i: Instr,
    ip: u64,
    tsc: u64,
    n: int,
    x: u64,
    y: u64,
)
    requires
        works_on(s, i, ip, tsc, n, x, y),
        i.mnemonic == mnemonic::CMPXCHG,
    ensures
        ({
            let t = executed(s, i, ip, tsc).0;
            let acc = s.regs.gpr[0] as int % modulus(n);
            let d = x as int % modulus(n);
            &&& zero(t) == (acc == d)
            &&& carry(t) == (acc < d)
            &&& acc == d ==> result(s, i, ip, tsc) == y as int % modulus(n) && alike_but(
                s.with_regs(s.regs.at(ip).flags(t.regs.rflags)),
                t,
                i,
                0,
            )
            &&& acc != d ==> t.regs.gpr[0] as int % modulus(n) == d && t.mem == s.mem && forall|
                k: int,
            |
                0 < k < 16 ==> #[trigger] t.regs.gpr[k] == s.regs.gpr[k]
        }),
{
    let u = s.with_regs(s.regs.at(ip));
    lemma_reads_frame(s, i, 0, ip);
    lemma_reads_frame(s, i, 1, ip);
    assert(executed(s, i, ip, tsc) == crate::exec::logic::after_compare_exchange(u, i));
    let acc = trunc(s.regs.gpr[0] as int, n);
    let d = trunc(x as int, n);
    let f = crate::regs::sub_flags(acc, d, n);
    let g = crate::regs::with_alu_flags(s.regs.rflags, f);
    let w = u.with_regs(u.regs.flags(g));
    let t = executed(s, i, ip, tsc).0;
    crate::exec::laws::lemma_six(s.regs.rflags, f.cf, f.pf, f.af, f.zf, f.sf, f.of);
    lemma_bits(g);
    crate::exec::laws::lemma_difference(acc, d, n);
    if acc == d {
        let v = trunc(y as int, n) as u64;
        assert(executed(s, i, ip, tsc) == after_operand(w, i, 0, v));
        operands_read_back(w, i, 0, v, n);
        vstd::arithmetic::div_mod::lemma_small_mod(v as nat, modulus(n) as nat);
    } else {
        let a = crate::exec::logic::accumulator(n);
        assert(executed(s, i, ip, tsc) == after_register(w, a, d as u64));
        registers_read_back(w.regs, a, d as u64, 0);
        vstd::arithmetic::div_mod::lemma_small_mod(d as nat, modulus(n) as nat);
        assert forall|k: int| 0 < k < 16 implies #[trigger] t.regs.gpr[k] == s.regs.gpr[k] by {
            registers_read_back(w.regs, a, d as u64, k);
        }
    }
}

} // verus!
