//! Registers and operands: what is written is read back, and nothing else changes.

use vstd::arithmetic::power2::pow2;
use vstd::prelude::*;

use crate::endian::{bytes_round_trip, le_bytes, lemma_le_bytes_len, lemma_pow256};
use crate::exec::access::{loaded, stored};
use crate::exec::laws::operand_size;
use crate::exec::model::{Fault, Machine};
use crate::exec::operand::{
    address_of, after_operand, after_operand_sized, memory_bytes, operand_bytes, operand_value,
};
use crate::insn::instr::Instr;
use crate::insn::kind;
use crate::mem::model::{lemma_mapped_run, load_after_store, Bytes};
use crate::regs::{modulus, signed, trunc, Reg, Regs};

verus! {

/// Numbers of `n` bytes: there are `2^8n`, and the signed reading of one is the number
/// between `-2^(8n-1)` and `2^(8n-1)` that is the same but for a multiple of `2^8n`.
pub proof fn numbers_of_some_bytes(x: int, n: int)
    requires
        operand_size(n),
    ensures
        modulus(n) == pow2((8 * n) as nat),
        0 <= trunc(x, n) < modulus(n),
        (x - trunc(x, n)) % modulus(n) == 0,
        -modulus(n) <= 2 * signed(x, n) < modulus(n),
        (x - signed(x, n)) % modulus(n) == 0,
{
    vstd::arithmetic::power2::lemma2_to64();
    vstd::arithmetic::power2::lemma2_to64_rest();
    vstd::arithmetic::div_mod::lemma_fundamental_div_mod(x, modulus(n));
    let q = x / modulus(n);
    vstd::arithmetic::div_mod::lemma_mod_multiples_basic(q, modulus(n));
    vstd::arithmetic::div_mod::lemma_mod_multiples_basic(q + 1, modulus(n));
    assert(x - trunc(x, n) == q * modulus(n)) by (nonlinear_arith)
        requires
            x == modulus(n) * q + trunc(x, n),
    ;
    assert(x - trunc(x, n) + modulus(n) == (q + 1) * modulus(n)) by (nonlinear_arith)
        requires
            x - trunc(x, n) == q * modulus(n),
    ;
}

/// Replacing a byte, a word or the second byte of a number.
proof fn lemma_parts(old: u64, v: u64)
    ensures
        ({
            let a = old - old % 0x100 + v % 0x100;
            &&& 0 <= a <= u64::MAX
            &&& a % 0x100 == v % 0x100
            &&& a / 0x100 == old / 0x100
        }),
        ({
            let a = old - old % 0x1_0000 + v % 0x1_0000;
            &&& 0 <= a <= u64::MAX
            &&& a % 0x1_0000 == v % 0x1_0000
            &&& a / 0x1_0000 == old / 0x1_0000
        }),
        ({
            let a = old - old % 0x1_0000 + (v % 0x100) * 0x100 + old % 0x100;
            &&& 0 <= a <= u64::MAX
            &&& a % 0x100 == old % 0x100
            &&& a / 0x100 % 0x100 == v % 0x100
            &&& a / 0x1_0000 == old / 0x1_0000
        }),
{
    let q = old / 0x1_0000;
    let w = v % 0x100;
    let l = old % 0x100;
    let a = old - old % 0x1_0000 + w * 0x100 + l;
    assert(a == 0x1_0000 * q + 0x100 * w + l);
    assert(a / 0x100 == 0x100 * q + w);
}

/// Writing a part of a general register: the part reads back cut down to its size; a
/// double word clears what is above it, a word and a byte keep what is beside them; no
/// other register, flag or vector changes.
pub proof fn registers_read_back(regs: Regs, reg: Reg, v: u64, k: int)
    requires
        regs.gpr.len() == 16,
        reg.wf(),
    ensures
        regs.set_reg(reg, v) is Some == regs.reg(reg) is Some,
        regs.reg(reg) is Some == (reg is Low8 || reg is High8 || reg is Word || reg is Dword
            || reg is Qword),
        regs.set_reg(reg, v) matches Some(after) ==> {
            &&& after.gpr.len() == 16
            &&& after.reg(reg) == Some((v as int % modulus(reg.bytes())) as u64)
            &&& after.rflags == regs.rflags
            &&& after.rip == regs.rip
            &&& after.xmm == regs.xmm
            &&& 0 <= k < 16 && reg.gpr_index() != Some(k) ==> after.gpr[k] == regs.gpr[k]
            &&& reg == Reg::Qword(k as u8) ==> after.gpr[k as u8 as int] == v
            &&& reg == Reg::Dword(k as u8) ==> after.gpr[k as u8 as int] == v % 0x1_0000_0000
            &&& reg == Reg::Word(k as u8) ==> {
                &&& after.gpr[k as u8 as int] % 0x1_0000 == v % 0x1_0000
                &&& after.gpr[k as u8 as int] / 0x1_0000 == regs.gpr[k as u8 as int] / 0x1_0000
            }
            &&& reg == Reg::Low8(k as u8) ==> {
                &&& after.gpr[k as u8 as int] % 0x100 == v % 0x100
                &&& after.gpr[k as u8 as int] / 0x100 == regs.gpr[k as u8 as int] / 0x100
            }
            &&& reg == Reg::High8(k as u8) ==> {
                &&& after.gpr[k as u8 as int] % 0x100 == regs.gpr[k as u8 as int] % 0x100
                &&& after.gpr[k as u8 as int] / 0x100 % 0x100 == v % 0x100
                &&& after.gpr[k as u8 as int] / 0x1_0000 == regs.gpr[k as u8 as int] / 0x1_0000
            }
        },
{
    match reg.gpr_index() {
        Some(j) => lemma_parts(regs.gpr[j], v),
        None => {},
    }
}

/// What a register reads: the low bytes of its general register, as many as it has, or
/// for the high byte of a word the second byte.
pub proof fn registers_are_parts(regs: Regs, reg: Reg)
    ensures
        regs.reg(reg) matches Some(v) ==> {
            let whole = regs.gpr[reg.gpr_index()->0] as int;
            &&& reg.gpr_index() is Some
            &&& v == if reg is High8 {
                whole / 0x100 % 0x100
            } else {
                whole % modulus(reg.bytes())
            }
        },
        reg is Low8 || reg is High8 ==> reg.bytes() == 1,
        reg is Word ==> reg.bytes() == 2,
        reg is Dword ==> reg.bytes() == 4,
        reg is Qword ==> reg.bytes() == 8,
{
}

/// The value of an address register.
pub open spec fn part(regs: Regs, reg: Reg) -> int {
    if reg == Reg::Absent {
        0
    } else {
        regs.reg(reg)->0 as int
    }
}

/// An address is displacement, base and scaled index added up modulo `2^64`; one that is
/// relative to the instruction pointer is the displacement, which holds it whole.
pub proof fn addresses_add_up(regs: Regs, i: Instr)
    ensures
        address_of(regs, i) matches Ok(a) ==> if i.base == Reg::Rip || i.base == Reg::Eip {
            a == i.disp
        } else {
            a == (i.disp + part(regs, i.base) + part(regs, i.index) * i.scale)
                % 0x1_0000_0000_0000_0000
        },
        (i.base == Reg::Rip || i.base == Reg::Eip || ((i.base == Reg::Absent || regs.reg(i.base)
            is Some) && (i.index == Reg::Absent || regs.reg(i.index) is Some)))
            == address_of(regs, i) is Ok,
{
    let m = 0x1_0000_0000_0000_0000int;
    let b = part(regs, i.base);
    let x = part(regs, i.index);
    if address_of(regs, i) is Ok && i.base != Reg::Rip && i.base != Reg::Eip {
        assert(x * i.scale >= 0) by (nonlinear_arith)
            requires
                x >= 0,
        ;
        let low = (i.disp + b) % m;
        let p = (x * i.scale) % m;
        assert((low + p) % m == (i.disp + b + x * i.scale) % m) by {
            vstd::arithmetic::div_mod::lemma_add_mod_noop(i.disp + b, x * i.scale, m);
        }
        vstd::arithmetic::div_mod::lemma_mod_bound(x * i.scale, m);
        assert(i.disp.wrapping_add(b as u64) == low);
        assert((x as u64).wrapping_mul(i.scale as u64) == p);
        assert((low as u64).wrapping_add(p as u64) == (low + p) % m);
    }
}

/// Storing `n` bytes of a number and loading them again gives the number cut down to
/// them; bytes beside them stay.
pub proof fn stored_numbers_load(m: Bytes, a: u64, v: u64, n: int, va: int)
    requires
        operand_size(n),
        stored(m, a, v, n).1 is None,
    ensures
        loaded(stored(m, a, v, n).0, a, n) == Ok::<u64, Fault>((v as int % modulus(n)) as u64),
        m.contains_key(va) && (va < a || va >= a + n) ==> stored(m, a, v, n).0[va] == m[va],
        stored(m, a, v, n).0.dom() == m.dom(),
{
    let bytes = le_bytes(v as int, n as nat);
    lemma_le_bytes_len(v as int, n as nat);
    lemma_mapped_run(m, a as int, n as nat);
    assert(bytes.take(n) =~= bytes);
    load_after_store(m, a as int, bytes);
    bytes_round_trip(v as int, n as nat);
    lemma_pow256();
    assert(stored(m, a, v, n).0.dom() =~= m.dom());
}

/// The operand is a general register or part of one, or memory.
pub open spec fn writable(i: Instr, op: int) -> bool {
    i.operand(op).kind == kind::REGISTER || i.operand(op).kind == kind::MEMORY
}

/// The machines are alike but for a written operand: of a register operand, its general
/// register; of a memory operand, its bytes.
pub open spec fn alike_but(s: Machine, t: Machine, i: Instr, op: int) -> bool {
    let o = i.operand(op);
    &&& t.regs.rip == s.regs.rip
    &&& t.regs.rflags == s.regs.rflags
    &&& t.regs.xmm == s.regs.xmm
    &&& t.regs.gpr.len() == s.regs.gpr.len()
    &&& o.kind == kind::REGISTER ==> t.mem == s.mem && forall|k: int|
        0 <= k < 16 && o.reg.gpr_index() != Some(k) ==> #[trigger] t.regs.gpr[k] == s.regs.gpr[k]
    &&& o.kind == kind::MEMORY ==> {
        let a = address_of(s.regs, i)->Ok_0;
        &&& t.regs == s.regs
        &&& t.mem.dom() == s.mem.dom()
        &&& forall|va: int|
            s.mem.contains_key(va) && (va < a || va >= a + memory_bytes(i)->Ok_0)
                ==> #[trigger] t.mem[va] == s.mem[va]
    }
}

/// What was written to an operand is read back from it, cut down to its size, and nothing
/// else changes.
pub proof fn operands_read_back(s: Machine, i: Instr, op: int, v: u64, n: int)
    requires
        s.regs.gpr.len() == 16,
        i.wf(),
        operand_size(n),
        operand_bytes(i, op) == Ok::<int, Fault>(n),
        after_operand(s, i, op, v).1 is None,
    ensures
        writable(i, op),
        ({
            let t = after_operand(s, i, op, v).0;
            &&& operand_value(t, i, op) == Ok::<u64, Fault>((v as int % modulus(n)) as u64)
            &&& alike_but(s, t, i, op)
        }),
{
    let o = i.operand(op);
    let t = after_operand(s, i, op, v).0;
    if o.kind == kind::REGISTER {
        registers_read_back(s.regs, o.reg, v, 0);
        assert forall|k: int| 0 <= k < 16 && o.reg.gpr_index() != Some(k) implies #[trigger]
            t.regs.gpr[k] == s.regs.gpr[k] by {
            registers_read_back(s.regs, o.reg, v, k);
        }
    } else {
        let a = address_of(s.regs, i)->Ok_0;
        stored_numbers_load(s.mem, a, v, n, 0);
        assert forall|va: int| s.mem.contains_key(va) && (va < a || va >= a + n) implies #[trigger]
            t.mem[va] == s.mem[va] by {
            stored_numbers_load(s.mem, a, v, n, va);
        }
    }
}

/// The same for an operand written as so many bytes.
pub proof fn sized_operands_read_back(s: Machine, i: Instr, op: int, v: u64, n: int)
    requires
        s.regs.gpr.len() == 16,
        i.wf(),
        operand_size(n),
        operand_bytes(i, op) == Ok::<int, Fault>(n),
        after_operand_sized(s, i, op, v, n).1 is None,
    ensures
        after_operand_sized(s, i, op, v, n) == after_operand(s, i, op, v),
{
}

/// When an operand can be written: a general register always, memory where all its bytes
/// are mapped.
pub proof fn operands_that_can_be_written(s: Machine, i: Instr, op: int, v: u64, n: int)
    requires
        operand_size(n),
        operand_bytes(i, op) == Ok::<int, Fault>(n),
    ensures
        i.operand(op).kind == kind::REGISTER && s.regs.reg(i.operand(op).reg) is Some
            ==> after_operand(s, i, op, v).1 is None,
        i.operand(op).kind == kind::MEMORY && address_of(s.regs, i) is Ok && loaded(
            s.mem,
            address_of(s.regs, i)->Ok_0,
            n,
        ) is Ok ==> after_operand(s, i, op, v).1 is None,
{
    if address_of(s.regs, i) is Ok {
        lemma_mapped_run(s.mem, address_of(s.regs, i)->Ok_0 as int, n as nat);
    }
}

/// Sizes of operands: a register has its own, memory that of the instruction, and
/// immediates by their kinds.
pub proof fn operands_have_sizes(s: Machine, i: Instr, op: int)
    ensures
        ({
            let o = i.operand(op);
            &&& o.kind == kind::REGISTER ==> operand_bytes(i, op) == Ok::<int, Fault>(o.reg.bytes())
            &&& o.kind == kind::MEMORY && (i.mem_size == kind::SIZE_UINT8 || i.mem_size
                == kind::SIZE_INT8) ==> operand_bytes(i, op) == Ok::<int, Fault>(1)
            &&& o.kind == kind::MEMORY && (i.mem_size == kind::SIZE_UINT16 || i.mem_size
                == kind::SIZE_INT16) ==> operand_bytes(i, op) == Ok::<int, Fault>(2)
            &&& o.kind == kind::MEMORY && (i.mem_size == kind::SIZE_UINT32 || i.mem_size
                == kind::SIZE_INT32) ==> operand_bytes(i, op) == Ok::<int, Fault>(4)
            &&& o.kind == kind::MEMORY && (i.mem_size == kind::SIZE_UINT64 || i.mem_size
                == kind::SIZE_INT64 || i.mem_size == kind::SIZE_QWORD_OFFSET || i.mem_size
                == kind::SIZE_SEG_PTR64) ==> operand_bytes(i, op) == Ok::<int, Fault>(8)
            &&& o.kind == kind::IMMEDIATE8 ==> operand_bytes(i, op) == Ok::<int, Fault>(1)
            &&& o.kind == kind::IMMEDIATE16 || o.kind == kind::IMMEDIATE8TO16 ==> operand_bytes(
                i,
                op,
            ) == Ok::<int, Fault>(2)
            &&& o.kind == kind::IMMEDIATE32 || o.kind == kind::IMMEDIATE8TO32 ==> operand_bytes(
                i,
                op,
            ) == Ok::<int, Fault>(4)
            &&& o.kind == kind::IMMEDIATE64 || o.kind == kind::IMMEDIATE8TO64 || o.kind
                == kind::IMMEDIATE32TO64 ==> operand_bytes(i, op) == Ok::<int, Fault>(8)
            &&& kind::immediate(o.kind) ==> operand_value(s, i, op) == Ok::<u64, Fault>(o.imm)
        }),
{
}

} // verus!
