//! What string instructions do to one element, and vector moves.

use vstd::prelude::*;

use crate::endian::{bytes_round_trip, le_bytes, le_value, lemma_le_bytes_len, lemma_pow256};
use crate::exec::access::loaded;
use crate::exec::laws::{
    carry, direction, lemma_bits, lemma_difference, lemma_six, operand_size, zero,
};
use crate::exec::model::{Fault, Machine};
use crate::exec::operand::address_of;
use crate::exec::operand_laws::{registers_read_back, stored_numbers_load};
use crate::exec::step::executed;
use crate::exec::string::{
    after_compare_string, after_lods, after_movs, after_scas, after_stos,
};
use crate::insn::instr::Instr;
use crate::insn::{kind, mnemonic};
use crate::mem::model::{is_mapped, lemma_mapped_run, load, load_after_store};
use crate::regs::{flag_of, modulus, sub_flags, trunc, with_alu_flags, Reg, Regs, ZF};

verus! {

/// How many bytes an element of a string instruction has, and which instruction it is: 0
/// fills, 1 copies, 2 loads, 3 scans and 4 compares.
pub open spec fn string_kind(m: u16) -> Option<(int, int)> {
    if m == mnemonic::STOSB {
        Some((0, 1))
    } else if m == mnemonic::STOSW {
        Some((0, 2))
    } else if m == mnemonic::STOSD {
        Some((0, 4))
    } else if m == mnemonic::STOSQ {
        Some((0, 8))
    } else if m == mnemonic::MOVSB {
        Some((1, 1))
    } else if m == mnemonic::MOVSW {
        Some((1, 2))
    } else if m == mnemonic::MOVSD {
        Some((1, 4))
    } else if m == mnemonic::MOVSQ {
        Some((1, 8))
    } else if m == mnemonic::LODSB {
        Some((2, 1))
    } else if m == mnemonic::LODSD {
        Some((2, 4))
    } else if m == mnemonic::LODSQ {
        Some((2, 8))
    } else if m == mnemonic::SCASB {
        Some((3, 1))
    } else if m == mnemonic::SCASW {
        Some((3, 2))
    } else if m == mnemonic::SCASD {
        Some((3, 4))
    } else if m == mnemonic::SCASQ {
        Some((3, 8))
    } else if m == mnemonic::CMPSB {
        Some((4, 1))
    } else if m == mnemonic::CMPSW {
        Some((4, 2))
    } else if m == mnemonic::CMPSD {
        Some((4, 4))
    } else if m == mnemonic::CMPSQ {
        Some((4, 8))
    } else {
        None
    }
}

/// It is a string instruction of that kind and size, and no vector move.
pub open spec fn is_string(i: Instr, what: int, n: int) -> bool {
    &&& string_kind(i.mnemonic) == Some((what, n))
    &&& !(i.op0.reg is Xmm)
    &&& !(i.op1.reg is Xmm)
    &&& i.code != crate::exec::sse::MOVSD_XMM_XMMM64
    &&& i.code != crate::exec::sse::MOVSD_XMMM64_XMM
}

/// Where a string pointer goes by one element: up, or down with the direction flag.
pub open spec fn stepped(s: Machine, p: u64, n: int) -> int {
    if direction(s) {
        (p - n) % 0x1_0000_0000_0000_0000
    } else {
        (p + n) % 0x1_0000_0000_0000_0000
    }
}

/// A repeat prefix is there.
pub open spec fn repeated(i: Instr) -> bool {
    i.rep || i.repe || i.repne
}

/// The count after one element: one less where the instruction is repeated.
pub open spec fn counts_down(s: Machine, t: Machine, i: Instr) -> bool {
    t.regs.gpr[1] == if repeated(i) {
        (s.regs.gpr[1] - 1) % 0x1_0000_0000_0000_0000
    } else {
        s.regs.gpr[1] as int
    }
}

/// No register changes but the count, the pointers and where named the accumulator.
pub open spec fn others_stay(s: Machine, t: Machine, accumulator: bool) -> bool {
    &&& t.regs.xmm == s.regs.xmm
    &&& t.regs.gpr.len() == 16
    &&& forall|k: int|
        0 <= k < 16 && k != 1 && k != 6 && k != 7 && !(accumulator && k == 0)
            ==> #[trigger] t.regs.gpr[k] == s.regs.gpr[k]
}

/// A repeated string instruction with nothing left to count changes nothing.
pub proof fn exhausted_strings_do_nothing(s: Machine, i: Instr, ip: u64, tsc: u64, what: int, n: int)
    requires
        is_string(i, what, n),
        repeated(i),
        s.regs.gpr[1] == 0,
    ensures
        executed(s, i, ip, tsc) == s.with_regs(s.regs.at(ip)).done(),
{
    lemma_string(s, i, ip, tsc, what, n);
}

/// String instructions are executed as such.
proof fn lemma_string(s: Machine, i: Instr, ip: u64, tsc: u64, what: int, n: int)
    requires
        is_string(i, what, n),
    ensures
        ({
            let u = s.with_regs(s.regs.at(ip));
            executed(s, i, ip, tsc) == if what == 0 {
                after_stos(u, i, n)
            } else if what == 1 {
                after_movs(u, i, n)
            } else if what == 2 {
                after_lods(u, i, n)
            } else if what == 3 {
                after_scas(u, i, n)
            } else {
                after_compare_string(u, i, n)
            }
        }),
        operand_size(n),
        what == 0 || what == 1 || what == 2 || what == 3 || what == 4,
{
}

/// Pointers are moved as the direction flag says.
proof fn lemma_stepped(s: Machine, p: u64, n: int)
    requires
        operand_size(n),
    ensures
        crate::exec::string::advanced(s.regs, p, n) == stepped(s, p, n),
        s.regs.gpr[1].wrapping_sub(1) == (s.regs.gpr[1] - 1) % 0x1_0000_0000_0000_0000,
{
    lemma_bits(s.regs.rflags);
}

/// Filling: the low bytes of the accumulator go where the destination pointer points, which
/// moves on by one element. A repeated instruction comes again.
pub proof fn fills_store_the_accumulator(s: Machine, i: Instr, ip: u64, tsc: u64, n: int, va: int)
    requires
        s.regs.gpr.len() == 16,
        is_string(i, 0, n),
        !repeated(i) || s.regs.gpr[1] != 0,
        executed(s, i, ip, tsc).1 is None,
    ensures
        ({
            let t = executed(s, i, ip, tsc).0;
            let to = s.regs.gpr[7];
            &&& loaded(t.mem, to, n) == Ok::<u64, Fault>((s.regs.gpr[0] as int % modulus(n)) as u64)
            &&& s.mem.contains_key(va) && (va < to || va >= to + n) ==> t.mem[va] == s.mem[va]
            &&& t.mem.dom() == s.mem.dom()
            &&& t.regs.gpr[7] == stepped(s, to, n)
            &&& t.regs.gpr[6] == s.regs.gpr[6]
            &&& counts_down(s, t, i)
            &&& others_stay(s, t, false)
            &&& t.regs.rflags == s.regs.rflags
            &&& t.regs.rip == if repeated(i) {
                i.ip
            } else {
                ip
            }
        }),
{
    lemma_string(s, i, ip, tsc, 0, n);
    lemma_stepped(s, s.regs.gpr[7], n);
    let v = trunc(s.regs.gpr[0] as int, n);
    stored_numbers_load(s.mem, s.regs.gpr[7], v as u64, n, va);
    vstd::arithmetic::div_mod::lemma_small_mod(v as nat, modulus(n) as nat);
}

/// Copying: the element that the source pointer points to goes where the destination
/// pointer points; both move on by one element.
pub proof fn copies_move_an_element(
    s: Machine,
    i: Instr,
    ip: u64,
    tsc: u64,
    n: int,
    v: u64,
    va: int,
)
    requires
        s.regs.gpr.len() == 16,
        is_string(i, 1, n),
        !repeated(i) || s.regs.gpr[1] != 0,
        loaded(s.mem, s.regs.gpr[6], n) == Ok::<u64, Fault>(v),
        executed(s, i, ip, tsc).1 is None,
    ensures
        ({
            let t = executed(s, i, ip, tsc).0;
            let to = s.regs.gpr[7];
            &&& loaded(t.mem, to, n) == Ok::<u64, Fault>((v as int % modulus(n)) as u64)
            &&& s.mem.contains_key(va) && (va < to || va >= to + n) ==> t.mem[va] == s.mem[va]
            &&& t.mem.dom() == s.mem.dom()
            &&& t.regs.gpr[7] == stepped(s, to, n)
            &&& t.regs.gpr[6] == stepped(s, s.regs.gpr[6], n)
            &&& counts_down(s, t, i)
            &&& others_stay(s, t, false)
            &&& t.regs.rflags == s.regs.rflags
            &&& t.regs.rip == if repeated(i) {
                i.ip
            } else {
                ip
            }
        }),
{
    lemma_string(s, i, ip, tsc, 1, n);
    lemma_stepped(s, s.regs.gpr[7], n);
    lemma_stepped(s, s.regs.gpr[6], n);
    stored_numbers_load(s.mem, s.regs.gpr[7], v, n, va);
}

/// Loading: the element that the source pointer points to goes to the accumulator; the
/// pointer moves on by one element.
pub proof fn loads_fill_the_accumulator(
    s: Machine,
    i: Instr,
    ip: u64,
    tsc: u64,
    n: int,
    v: u64,
)
    requires
        s.regs.gpr.len() == 16,
        is_string(i, 2, n),
        !repeated(i) || s.regs.gpr[1] != 0,
        loaded(s.mem, s.regs.gpr[6], n) == Ok::<u64, Fault>(v),
    ensures
        ({
            let (t, f) = executed(s, i, ip, tsc);
            &&& f is None
            &&& t.regs.gpr[0] as int % modulus(n) == v as int % modulus(n)
            &&& n == 1 ==> t.regs.gpr[0] / 0x100 == s.regs.gpr[0] / 0x100
            &&& n == 4 ==> t.regs.gpr[0] < 0x1_0000_0000
            &&& t.mem == s.mem
            &&& t.regs.gpr[7] == s.regs.gpr[7]
            &&& t.regs.gpr[6] == stepped(s, s.regs.gpr[6], n)
            &&& counts_down(s, t, i)
            &&& others_stay(s, t, true)
            &&& t.regs.rflags == s.regs.rflags
            &&& t.regs.rip == if repeated(i) {
                i.ip
            } else {
                ip
            }
        }),
{
    lemma_string(s, i, ip, tsc, 2, n);
    lemma_stepped(s, s.regs.gpr[6], n);
    let u = s.with_regs(s.regs.at(ip));
    let a = crate::exec::logic::accumulator(n);
    registers_read_back(u.regs, a, v, 0);
    registers_read_back(u.regs, a, v, 1);
    registers_read_back(u.regs, a, v, 6);
    registers_read_back(u.regs, a, v, 7);
    let t = executed(s, i, ip, tsc).0;
    assert forall|k: int| 0 <= k < 16 && k != 1 && k != 6 && k != 7 && k != 0 implies #[trigger]
        t.regs.gpr[k] == s.regs.gpr[k] by {
        registers_read_back(u.regs, a, v, k);
    }
}

/// What a repeated comparison does next: while equal it comes again with one prefix, while
/// unequal with the other.
pub open spec fn comes_again(i: Instr, equal: bool) -> bool {
    repeated(i) && !(i.repe && !equal) && !(i.repne && equal)
}

/// Scanning compares the accumulator with the element that the destination pointer points
/// to, which moves on by one element; with a prefix it comes again while they are equal, or
/// while they are not.
pub proof fn scans_compare_the_accumulator(
    s: Machine,
    i: Instr,
    ip: u64,
    tsc: u64,
    n: int,
    v: u64,
)
    requires
        s.regs.gpr.len() == 16,
        is_string(i, 3, n),
        !repeated(i) || s.regs.gpr[1] != 0,
        loaded(s.mem, s.regs.gpr[7], n) == Ok::<u64, Fault>(v),
    ensures
        ({
            let (t, f) = executed(s, i, ip, tsc);
            let a = s.regs.gpr[0] as int % modulus(n);
            let b = v as int % modulus(n);
            &&& f is None
            &&& zero(t) == (a == b)
            &&& carry(t) == (a < b)
            &&& direction(t) == direction(s)
            &&& t.mem == s.mem
            &&& t.regs.gpr[7] == stepped(s, s.regs.gpr[7], n)
            &&& t.regs.gpr[6] == s.regs.gpr[6]
            &&& counts_down(s, t, i)
            &&& others_stay(s, t, false)
            &&& t.regs.rip == if comes_again(i, a == b) {
                i.ip
            } else {
                ip
            }
        }),
{
    lemma_string(s, i, ip, tsc, 3, n);
    lemma_compared_element(s, trunc(s.regs.gpr[0] as int, n), trunc(v as int, n), n);
    lemma_stepped(s, s.regs.gpr[7], n);
}

/// The flags of comparing two elements.
proof fn lemma_compared_element(s: Machine, a: int, b: int, n: int)
    requires
        operand_size(n),
        0 <= a < modulus(n),
        0 <= b < modulus(n),
    ensures
        ({
            let t = s.with_regs(
                s.regs.flags(with_alu_flags(s.regs.rflags, sub_flags(a, b, n))),
            );
            &&& zero(t) == (a == b)
            &&& carry(t) == (a < b)
            &&& direction(t) == direction(s)
            &&& flag_of(t.regs.rflags, ZF) == (a == b)
        }),
{
    let f = sub_flags(a, b, n);
    lemma_difference(a, b, n);
    lemma_six(s.regs.rflags, f.cf, f.pf, f.af, f.zf, f.sf, f.of);
    lemma_bits(s.regs.rflags);
    lemma_bits(with_alu_flags(s.regs.rflags, f));
}

/// Comparing strings compares the element that the source pointer points to with the one
/// that the destination pointer points to; both move on by one element.
pub proof fn comparisons_take_two_elements(
    s: Machine,
    i: Instr,
    ip: u64,
    tsc: u64,
    n: int,
    v: u64,
    w: u64,
)
    requires
        s.regs.gpr.len() == 16,
        is_string(i, 4, n),
        !repeated(i) || s.regs.gpr[1] != 0,
        loaded(s.mem, s.regs.gpr[6], n) == Ok::<u64, Fault>(v),
        loaded(s.mem, s.regs.gpr[7], n) == Ok::<u64, Fault>(w),
    ensures
        ({
            let (t, f) = executed(s, i, ip, tsc);
            let a = v as int % modulus(n);
            let b = w as int % modulus(n);
            &&& f is None
            &&& zero(t) == (a == b)
            &&& carry(t) == (a < b)
            &&& direction(t) == direction(s)
            &&& t.mem == s.mem
            &&& t.regs.gpr[7] == stepped(s, s.regs.gpr[7], n)
            &&& t.regs.gpr[6] == stepped(s, s.regs.gpr[6], n)
            &&& counts_down(s, t, i)
            &&& others_stay(s, t, false)
            &&& t.regs.rip == if comes_again(i, a == b) {
                i.ip
            } else {
                ip
            }
        }),
{
    lemma_string(s, i, ip, tsc, 4, n);
    lemma_compared_element(s, trunc(v as int, n), trunc(w as int, n), n);
    lemma_stepped(s, s.regs.gpr[7], n);
    lemma_stepped(s, s.regs.gpr[6], n);
}

/// How many bytes a vector move moves, and whether the rest of a register stays.
pub open spec fn moved_bytes(i: Instr) -> Option<(nat, bool)> {
    let m = i.mnemonic;
    if m == mnemonic::MOVAPS || m == mnemonic::MOVUPS || m == mnemonic::MOVDQA || m
        == mnemonic::MOVDQU {
        Some((16, false))
    } else if m == mnemonic::MOVSS {
        Some((4, true))
    } else if (m == mnemonic::MOVSD || m == mnemonic::MOVQ) && (i.op0.reg is Xmm || i.op1.reg
        is Xmm) {
        Some((8, true))
    } else {
        None
    }
}

/// `256` to the power of 4, 8 or 16.
pub open spec fn range_of(n: nat) -> int {
    if n == 4 {
        0x1_0000_0000
    } else if n == 8 {
        0x1_0000_0000_0000_0000
    } else {
        0x1_0000_0000_0000_0000_0000_0000_0000_0000int
    }
}

/// A vector move into a register: the low bytes are those of the source, a register or
/// memory; the others stay where less than the register is moved.
pub proof fn vectors_are_loaded(
    s: Machine,
    i: Instr,
    ip: u64,
    tsc: u64,
    k: u8,
    j: u8,
    a: u64,
    n: nat,
    merge: bool,
)
    requires
        s.regs.xmm.len() == 16,
        k < 16,
        j < 16,
        moved_bytes(i) == Some((n, merge)),
        i.op0.kind == kind::REGISTER,
        i.op0.reg == Reg::Xmm(k),
        (i.op1.kind == kind::REGISTER && i.op1.reg == Reg::Xmm(j)) || (i.op1.kind == kind::MEMORY
            && address_of(s.regs, i) == Ok::<u64, Fault>(a) && is_mapped(s.mem, a as int, n)),
    ensures
        ({
            let (t, f) = executed(s, i, ip, tsc);
            let x = t.regs.xmm[k as int] as int;
            let source = if i.op1.kind == kind::REGISTER {
                s.regs.xmm[j as int] as int
            } else {
                le_value(load(s.mem, a as int, n))
            };
            &&& f is None
            &&& x % range_of(n) == source % range_of(n)
            &&& x / range_of(n) == s.regs.xmm[k as int] as int / range_of(n)
            &&& t == s.with_regs(
                (Regs { xmm: s.regs.xmm.update(k as int, t.regs.xmm[k as int]), rip: ip, ..s.regs }),
            )
        }),
{
    let u = s.with_regs(s.regs.at(ip));
    lemma_pow256();
    assert(crate::endian::pow256(n) == range_of(n));
    assert(address_of(u.regs, i) == address_of(s.regs, i));
    assert(executed(s, i, ip, tsc) == crate::exec::sse::after_sse_mov(u, i, n, merge));
    if i.op1.kind == kind::MEMORY {
        crate::endian::lemma_le_value_bound(load(s.mem, a as int, n));
    }
    let v = crate::exec::sse::sse_value(u, i, 1, n)->Ok_0;
    assert(0 <= v < range_of(n));
    lemma_replace_low(s.regs.xmm[k as int] as int, v as int, n);
}

/// Replacing the low bytes of a vector.
proof fn lemma_replace_low(old: int, v: int, n: nat)
    requires
        n == 4 || n == 8 || n == 16,
        0 <= old < range_of(16),
        0 <= v < range_of(n),
    ensures
        ({
            let x = old - old % range_of(n) + v % range_of(n);
            &&& 0 <= x < range_of(16)
            &&& x % range_of(n) == v
            &&& x / range_of(n) == old / range_of(n)
        }),
        n == 16 ==> old / range_of(n) == 0 && v / range_of(n) == 0,
        v % range_of(n) == v,
{
    let m = range_of(n);
    vstd::arithmetic::div_mod::lemma_small_mod(v as nat, m as nat);
    vstd::arithmetic::div_mod::lemma_fundamental_div_mod(old, m);
    vstd::arithmetic::div_mod::lemma_fundamental_div_mod_converse(
        old - old % m + v,
        m,
        old / m,
        v,
    );
    if n == 16 {
        vstd::arithmetic::div_mod::lemma_basic_div(old, m);
        vstd::arithmetic::div_mod::lemma_basic_div(v, m);
    }
}

/// A vector move into memory stores the low bytes of the register, and changes nothing
/// else.
pub proof fn vectors_are_stored(
    s: Machine,
    i: Instr,
    ip: u64,
    tsc: u64,
    j: u8,
    a: u64,
    n: nat,
    merge: bool,
    va: int,
)
    requires
        s.regs.xmm.len() == 16,
        j < 16,
        moved_bytes(i) == Some((n, merge)),
        i.op0.kind == kind::MEMORY,
        i.op1.kind == kind::REGISTER,
        i.op1.reg == Reg::Xmm(j),
        address_of(s.regs, i) == Ok::<u64, Fault>(a),
        is_mapped(s.mem, a as int, n),
    ensures
        ({
            let (t, f) = executed(s, i, ip, tsc);
            &&& f is None
            &&& le_value(load(t.mem, a as int, n)) == s.regs.xmm[j as int] as int % range_of(n)
            &&& s.mem.contains_key(va) && (va < a || va >= a + n) ==> t.mem[va] == s.mem[va]
            &&& t.mem.dom() == s.mem.dom()
            &&& t.regs == s.regs.at(ip)
        }),
{
    let u = s.with_regs(s.regs.at(ip));
    lemma_pow256();
    assert(crate::endian::pow256(n) == range_of(n));
    assert(address_of(u.regs, i) == address_of(s.regs, i));
    assert(executed(s, i, ip, tsc) == crate::exec::sse::after_sse_mov(u, i, n, merge));
    let v = crate::exec::sse::sse_value(u, i, 1, n)->Ok_0;
    let b = le_bytes(v as int, n);
    lemma_le_bytes_len(v as int, n);
    lemma_mapped_run(s.mem, a as int, n);
    assert(b.take(n as int) =~= b);
    load_after_store(s.mem, a as int, b);
    bytes_round_trip(v as int, n);
    vstd::arithmetic::div_mod::lemma_small_mod(v as nat, range_of(n) as nat);
    assert(executed(s, i, ip, tsc).0.mem.dom() =~= s.mem.dom());
}

/// The exclusive or of two vector registers; of a register with itself it is zero.
pub proof fn vectors_are_xored(s: Machine, i: Instr, ip: u64, tsc: u64, k: u8, j: u8)
    requires
        s.regs.xmm.len() == 16,
        k < 16,
        j < 16,
        i.mnemonic == mnemonic::XORPS || i.mnemonic == mnemonic::XORPD || i.mnemonic
            == mnemonic::PXOR,
        i.op0.kind == kind::REGISTER,
        i.op0.reg == Reg::Xmm(k),
        i.op1.kind == kind::REGISTER,
        i.op1.reg == Reg::Xmm(j),
    ensures
        ({
            let (t, f) = executed(s, i, ip, tsc);
            let x = t.regs.xmm[k as int];
            &&& f is None
            &&& x == s.regs.xmm[k as int] ^ s.regs.xmm[j as int]
            &&& k == j ==> x == 0
            &&& t == s.with_regs(
                (Regs { xmm: s.regs.xmm.update(k as int, x), rip: ip, ..s.regs }),
            )
        }),
{
    let u = s.with_regs(s.regs.at(ip));
    lemma_pow256();
    let a = s.regs.xmm[k as int];
    let b = s.regs.xmm[j as int];
    assert(a ^ a == 0) by (bit_vector);
    assert(crate::endian::pow256(16) == range_of(16));
    vstd::arithmetic::div_mod::lemma_small_mod(a as nat, range_of(16) as nat);
    vstd::arithmetic::div_mod::lemma_small_mod(b as nat, range_of(16) as nat);
    assert(executed(s, i, ip, tsc) == crate::exec::sse::after_sse_xor(u, i));
}

/// Between general and vector registers: a double word clears the rest of the vector
/// register, and the low double word goes out of one; a quad word out of one is its low
/// half.
pub proof fn vectors_meet_registers(s: Machine, i: Instr, ip: u64, tsc: u64, k: u8, g: Reg, v: u64)
    requires
        s.regs.xmm.len() == 16,
        s.regs.gpr.len() == 16,
        k < 16,
        g.wf(),
        s.regs.reg(g) == Some(v),
        i.op0.kind == kind::REGISTER,
        i.op1.kind == kind::REGISTER,
        i.mnemonic == mnemonic::MOVD,
    ensures
        ({
            let (t, f) = executed(s, i, ip, tsc);
            let x = s.regs.xmm[k as int] as int;
            &&& i.op0.reg == Reg::Xmm(k) && i.op1.reg == g ==> {
                &&& f is None
                &&& t.regs.xmm[k as int] == v % 0x1_0000_0000
                &&& t == s.with_regs(
                    (Regs {
                        xmm: s.regs.xmm.update(k as int, t.regs.xmm[k as int]),
                        rip: ip,
                        ..s.regs
                    }),
                )
            }
            &&& i.op0.reg == g && i.op1.reg == Reg::Xmm(k) ==> {
                &&& f is None
                &&& t.regs.reg(g) == Some((x % 0x1_0000_0000 % modulus(g.bytes())) as u64)
                &&& t.mem == s.mem
                &&& t.regs.xmm == s.regs.xmm
                &&& t.regs.rflags == s.regs.rflags
            }
        }),
{
    let u = s.with_regs(s.regs.at(ip));
    assert(executed(s, i, ip, tsc) == crate::exec::sse::after_sse_movd(u, i));
    registers_read_back(
        u.regs,
        g,
        (s.regs.xmm[k as int] as int % 0x1_0000_0000) as u64,
        0,
    );
}

} // verus!
