//! Which code is compiled, when, and where it goes.

use vstd::arithmetic::power2::pow2;
use vstd::prelude::*;

use crate::bitmap::bit_set;
use crate::endian::{le_bytes, le_value, lemma_le_bytes_len, lemma_pow256};
use crate::exec::access::loaded;
use crate::exec::hook::{stopped, stops_at, HookWindow};
use crate::exec::model::Machine;
use crate::exec::step::executed;
use crate::insn::decode::{assembled, decoded, reg_of, RawHead, RawMemory, RawOperand};
use crate::insn::instr::Instr;
use crate::insn::{kind, mnemonic};
use crate::jit::block::{
    chain_targets, instr_at, loops_to, lowerable, scanned, string_bytes, term_end, terminator,
    worthwhile, BlockTerm, Scan,
};
use crate::jit::chain::slot_of;
use crate::jit::dispatch::{called_function, spent, threshold, visit_of, CacheEntry, Native, Visit};
use crate::jit::fast_api::{argument_regs, number_of, string_length, FastApiKind};
use crate::jit::lower::accepted;
use crate::jit::thunk::{final_target, hop};
use crate::mem::model::{is_mapped, load, Bytes, VA_LIMIT};
use crate::regs::{signed, Reg};
use crate::runtime::stubs::jump_code;

verus! {

/// How many bytes instructions have together.
pub open spec fn total_len(insns: Seq<Instr>) -> nat
    decreases insns.len(),
{
    if insns.len() == 0 {
        0
    } else {
        total_len(insns.drop_last()) + insns.last().len as nat
    }
}

/// Where instruction number `k` of a block that starts at `rip` lies: after the one before
/// it.
pub open spec fn place_of(insns: Seq<Instr>, rip: u64, k: int) -> u64 {
    if k == 0 {
        rip
    } else {
        insns[k - 1].next_ip
    }
}

/// The instruction lies at an address where the host does not take over, and as memory
/// has it there. It can be compiled, unless it is the last of its block and ends it by a
/// branch or as a string instruction.
#[verifier::opaque]
pub open spec fn belongs(
    m: Bytes,
    hook: Option<&HookWindow>,
    at: u64,
    i: Instr,
    last: bool,
) -> bool {
    let ends = terminator(i) is Some || string_bytes(i) is Some;
    &&& !stopped(hook, at)
    &&& is_mapped(m, at as int, 15)
    &&& decoded(load(m, at as int, 15), at) == Some(i)
    &&& ends ==> last
    &&& !ends ==> lowerable(i)
}

/// The first instruction of a block.
proof fn lemma_first(m: Bytes, hook: Option<&HookWindow>, rip: u64, left: nat)
    requires
        left > 0,
    ensures
        ({
            let s = scanned(m, hook, rip, left);
            match instr_at(m, hook, rip) {
                None => s == crate::jit::block::scan_end(rip),
                Some(i) => if terminator(i) is Some || string_bytes(i) is Some {
                    &&& s.insns == seq![i]
                    &&& s.bytes_len == i.len as nat
                    &&& s.term == terminator(i)
                    &&& s.term is None ==> s.end_rip == i.next_ip
                    &&& s.term matches Some(t) ==> s.end_rip == term_end(t, i)
                    &&& belongs(m, hook, rip, i, true)
                } else if lowerable(i) {
                    let rest = scanned(m, hook, i.next_ip, (left - 1) as nat);
                    &&& s.insns == seq![i] + rest.insns
                    &&& s.bytes_len == i.len as nat + rest.bytes_len
                    &&& s.term == rest.term
                    &&& s.end_rip == rest.end_rip
                    &&& belongs(m, hook, rip, i, true)
                    &&& belongs(m, hook, rip, i, false)
                } else {
                    s == crate::jit::block::scan_end(rip)
                },
            }
        }),
{
    reveal(belongs);
}

/// A block holds instructions as they follow one another in memory, at most so many. Only
/// the last one may end it by a branch or a string instruction; all others can be
/// compiled, and the host takes over at none.
pub proof fn blocks_follow_memory(m: Bytes, hook: Option<&HookWindow>, rip: u64, left: nat)
    ensures
        ({
            let s = scanned(m, hook, rip, left);
            let n = s.insns.len() as int;
            &&& n <= left
            &&& s.bytes_len == total_len(s.insns)
            &&& forall|k: int|
                0 <= k < n ==> belongs(
                    m,
                    hook,
                    place_of(s.insns, rip, k),
                    #[trigger] s.insns[k],
                    k == n - 1,
                )
            &&& n > 0 ==> s.term == terminator(s.insns.last())
            &&& n == 0 ==> s.term is None && s.end_rip == rip
            &&& n > 0 && s.term is None ==> s.end_rip == s.insns.last().next_ip
            &&& s.term matches Some(t) ==> s.end_rip == term_end(t, s.insns.last())
        }),
    decreases left,
{
    let s = scanned(m, hook, rip, left);
    if left > 0 {
        lemma_first(m, hook, rip, left);
        match instr_at(m, hook, rip) {
            None => {},
            Some(i) => {
                if terminator(i) is Some || string_bytes(i) is Some {
                    assert(s.insns.drop_last() =~= Seq::<Instr>::empty());
                    assert(total_len(Seq::<Instr>::empty()) == 0);
                } else if lowerable(i) {
                    blocks_follow_memory(m, hook, i.next_ip, (left - 1) as nat);
                    let rest = scanned(m, hook, i.next_ip, (left - 1) as nat);
                    lemma_total(i, rest.insns);
                    let n = s.insns.len() as int;
                    assert forall|k: int| 0 <= k < n implies belongs(
                        m,
                        hook,
                        place_of(s.insns, rip, k),
                        #[trigger] s.insns[k],
                        k == n - 1,
                    ) by {
                        if k > 0 {
                            assert(s.insns[k] == rest.insns[k - 1]);
                            assert(place_of(s.insns, rip, k) == place_of(
                                rest.insns,
                                i.next_ip,
                                k - 1,
                            ));
                        }
                    }
                    if rest.insns.len() > 0 {
                        assert(s.insns.last() == rest.insns.last());
                    } else {
                        assert(s.insns.last() == i);
                    }
                }
            },
        }
    }
}

/// The lengths of one instruction and others after it.
proof fn lemma_total(i: Instr, rest: Seq<Instr>)
    ensures
        total_len(seq![i] + rest) == i.len as nat + total_len(rest),
    decreases rest.len(),
{
    let all = seq![i] + rest;
    if rest.len() == 0 {
        assert(all.drop_last() =~= Seq::<Instr>::empty());
        assert(all.last() == i);
        assert(total_len(all.drop_last()) == 0);
    } else {
        assert(all.drop_last() =~= seq![i] + rest.drop_last());
        assert(all.last() == rest.last());
        lemma_total(i, rest.drop_last());
    }
}

/// A block of nothing is not worth compiling; one that ends in a branch or a string
/// instruction is; any other from eight instructions on.
pub proof fn short_blocks_are_not_worth_it(s: Scan)
    ensures
        worthwhile(s) == (s.insns.len() > 0 && (s.term is Some || string_bytes(s.insns.last())
            is Some || s.insns.len() >= 8)),
{
}

/// Which instructions end a block, and how: near calls and jumps, and a return that drops
/// nothing.
pub proof fn branches_end_blocks(i: Instr)
    ensures
        ({
            let near = i.op0.kind == kind::NEAR_BRANCH16 || i.op0.kind == kind::NEAR_BRANCH32
                || i.op0.kind == kind::NEAR_BRANCH64;
            let t = terminator(i);
            &&& i.mnemonic == mnemonic::RET ==> t == if i.op_count == 0 {
                Some(BlockTerm::Ret)
            } else {
                None
            }
            &&& i.mnemonic == mnemonic::JMP ==> t == if near {
                Some(BlockTerm::Jmp { target: i.near_branch })
            } else {
                None
            }
            &&& i.mnemonic == mnemonic::CALL ==> t == if near {
                Some(BlockTerm::Call { target: i.near_branch, return_ip: i.next_ip })
            } else {
                None
            }
            &&& i.mnemonic == mnemonic::JE || i.mnemonic == mnemonic::JNE || i.mnemonic
                == mnemonic::JL || i.mnemonic == mnemonic::JLE || i.mnemonic == mnemonic::JG
                || i.mnemonic == mnemonic::JGE || i.mnemonic == mnemonic::JB || i.mnemonic
                == mnemonic::JBE || i.mnemonic == mnemonic::JA || i.mnemonic == mnemonic::JAE
                || i.mnemonic == mnemonic::JS || i.mnemonic == mnemonic::JNS || i.mnemonic
                == mnemonic::JO || i.mnemonic == mnemonic::JNO || i.mnemonic == mnemonic::JP
                || i.mnemonic == mnemonic::JNP ==> t == if near {
                Some(
                    BlockTerm::Jcc {
                        mnemonic: i.mnemonic,
                        taken: i.near_branch,
                        not_taken: i.next_ip,
                    },
                )
            } else {
                None
            }
        }),
{
}

/// A branch that completes goes to one of the targets that its block is chained to; a
/// return is chained to none. Jumps to the start of a block make it a loop, calls do not.
/// Code goes on at the target of a jump or a call, and after a condition or a return.
pub proof fn chains_lead_where_branches_go(
    s: Machine,
    i: Instr,
    t: BlockTerm,
    tsc: u64,
    start: u64,
)
    requires
        terminator(i) == Some(t),
        executed(s, i, i.next_ip, tsc).1 is None,
    ensures
        !(t is Ret) ==> chain_targets(t).contains(executed(s, i, i.next_ip, tsc).0.regs.rip),
        t is Ret ==> chain_targets(t).len() == 0,
        loops_to(Some(t), start) == (chain_targets(t).contains(start) && !(t is Call)),
        !loops_to(None, start),
        t is Jmp || t is Call ==> chain_targets(t) == seq![i.near_branch],
        t is Jcc ==> chain_targets(t) == seq![i.near_branch, i.next_ip],
        t is Jmp || t is Call ==> term_end(t, i) == i.near_branch,
        t is Jcc || t is Ret ==> term_end(t, i) == i.next_ip,
{
    let c = chain_targets(t);
    if c.len() > 0 {
        assert(c.contains(c[0]));
        if c.len() > 1 {
            assert(c.contains(c[1]));
        }
    }
    let rip = executed(s, i, i.next_ip, tsc).0.regs.rip;
    if t is Jcc {
        assert(rip == i.near_branch || rip == i.next_ip);
    }
}

/// What is known of a block that was visited so many times and never compiled.
pub open spec fn after_visits(n: nat, th: u32, hotness: u32) -> Option<CacheEntry>
    decreases n,
{
    if n == 0 {
        None
    } else {
        visit_of(after_visits((n - 1) as nat, th, hotness), th, hotness).1
    }
}

/// A new block is interpreted until it is hot: compiled on the visit whose number is the
/// threshold, but never on the first. Without any hotness it is compiled at once.
pub proof fn blocks_become_hot(n: nat, th: u32, hotness: u32)
    requires
        hotness > 0,
        1 <= n,
    ensures
        n == 1 || n < th ==> {
            &&& visit_of(after_visits((n - 1) as nat, th, hotness), th, hotness).0
                == Visit::Interpret
            &&& after_visits(n, th, hotness) == Some(CacheEntry::Hot(n as u32))
        },
        n == th && n > 1 ==> visit_of(after_visits((n - 1) as nat, th, hotness), th, hotness).0
            == Visit::Compile,
        visit_of(None, th, 0).0 == Visit::Compile,
    decreases n,
{
    if n > 1 && (n < th || n == th) {
        blocks_become_hot((n - 1) as nat, th, hotness);
    }
    assert(after_visits(0, th, hotness) is None);
}

/// A compiled block runs on every visit, one that cannot be compiled is interpreted on
/// every visit.
pub proof fn settled_blocks_stay(b: Native, th: u32, hotness: u32)
    ensures
        visit_of(Some(CacheEntry::Ready(b)), th, hotness) == (
            Visit::Run(b),
            Some(CacheEntry::Ready(b)),
        ),
        visit_of(Some(CacheEntry::Never), th, hotness) == (
            Visit::Interpret,
            Some(CacheEntry::Never),
        ),
{
}

/// How hot a block must be: two visits if it calls a function of the host, sixteen if it
/// is a loop, else as many as was set, if that is fewer.
pub proof fn calls_and_loops_are_hot_sooner(
    fast: Map<u64, FastApiKind>,
    m: Bytes,
    hook: Option<&HookWindow>,
    rip: u64,
    hotness: u32,
)
    ensures
        ({
            let s = scanned(m, hook, rip, 64);
            let th = threshold(fast, m, hook, rip, hotness);
            let calls = worthwhile(s) && (s.term matches Some(BlockTerm::Call {
                target,
                return_ip,
            }) && fast.contains_key(final_target(m, target, 4)));
            let loops = worthwhile(s) && loops_to(s.term, rip);
            &&& calls ==> th == 2
            &&& !calls && loops && hotness > 16 ==> th == 16
            &&& !calls && !(loops && hotness > 16) ==> th == hotness
        }),
{
}

/// A call's function is the one that the host has at its final target.
pub proof fn calls_reach_their_function(
    fast: Map<u64, FastApiKind>,
    m: Bytes,
    target: u64,
    return_ip: u64,
)
    ensures
        called_function(fast, m, Some(BlockTerm::Call { target, return_ip })) == if fast.contains_key(
            final_target(m, target, 4),
        ) {
            Some(fast[final_target(m, target, 4)])
        } else {
            None
        },
        called_function(fast, m, None) is None,
        called_function(fast, m, Some(BlockTerm::Ret)) is None,
        called_function(fast, m, Some(BlockTerm::Jmp { target })) is None,
{
}

/// Jumps that only lead elsewhere: a relative one leads as far after its own end as its
/// signed offset says, an indirect one to what its slot holds, and the one that is planted
/// for stubs to its target.
pub proof fn jumps_are_followed(m: Bytes, va: u64, t: u64)
    requires
        is_mapped(m, va as int, 16),
    ensures
        ({
            let b = load(m, va as int, 16);
            let wide = signed(le_value(b.subrange(1, 5)), 4);
            let slot = ((va + 6 + signed(le_value(b.subrange(2, 6)), 4))
                % 0x1_0000_0000_0000_0000) as u64;
            &&& b[0] == 0xe9 ==> hop(m, va) == Some(
                ((va + 5 + wide) % 0x1_0000_0000_0000_0000) as u64,
            )
            &&& b[0] == 0xeb ==> hop(m, va) == Some(
                ((va + 2 + signed(b[1] as int, 1)) % 0x1_0000_0000_0000_0000) as u64,
            )
            &&& b[0] == 0xff && b[1] == 0x25 ==> match loaded(m, slot, 8) {
                Ok(v) => hop(m, va) == Some(v),
                Err(_) => hop(m, va) is None,
            }
            &&& b.take(12) == jump_code(t) ==> hop(m, va) == Some(t)
            &&& b[0] != 0xe9 && b[0] != 0xeb && b[0] != 0xff && b[0] != 0x48 ==> hop(m, va) is None
        }),
{
    let b = load(m, va as int, 16);
    lemma_relative(va, 5, le_value(b.subrange(1, 5)), 4);
    lemma_relative(va, 6, le_value(b.subrange(2, 6)), 4);
    lemma_relative(va, 2, b[1] as int, 1);
    if b.take(12) == jump_code(t) {
        lemma_le_bytes_len(t as int, 8);
        let j = jump_code(t);
        assert(b[0] == j[0] && b[1] == j[1] && b[10] == j[10] && b[11] == j[11]) by {
            assert(b.take(12)[0] == b[0] && b.take(12)[1] == b[1] && b.take(12)[10] == b[10]
                && b.take(12)[11] == b[11]);
        }
        assert(b.subrange(2, 10) =~= le_bytes(t as int, 8)) by {
            assert forall|k: int| 0 <= k < 8 implies b.subrange(2, 10)[k] == le_bytes(
                t as int,
                8,
            )[k] by {
                assert(b.take(12)[k + 2] == j[k + 2]);
            }
        }
        crate::endian::bytes_round_trip(t as int, 8);
        lemma_pow256();
    }
}

/// Addresses relative to the end of an instruction.
proof fn lemma_relative(va: u64, after: u64, offset: int, size: int)
    requires
        size == 1 || size == 4,
        after < 16,
    ensures
        crate::jit::thunk::relative(va, after, offset, size) == (va + after + signed(offset, size))
            % 0x1_0000_0000_0000_0000,
{
    let m = 0x1_0000_0000_0000_0000int;
    let v = signed(offset, size);
    let a = (va + after) % m;
    assert(va.wrapping_add(after) == a);
    let w = crate::exec::alu::sign_extended(offset, size);
    assert(w == v % m);
    vstd::arithmetic::div_mod::lemma_add_mod_noop(va + after, v, m);
    assert((a as u64).wrapping_add(w) == (a + w) % m);
}

/// Following jumps: as many as four, until something is no such jump.
pub proof fn targets_are_final(m: Bytes, va: u64, n: nat)
    ensures
        final_target(m, va, 0) == va,
        hop(m, va) is None ==> final_target(m, va, n) == va,
        hop(m, va) matches Some(next) ==> final_target(m, va, n + 1) == final_target(m, next, n),
{
}

/// The slots of the chain table by address.
pub proof fn slots_are_spread(va: u64)
    ensures
        slot_of(va) == va as int * 21 % 512,
{
    let c = 0x9E37_79B9_7F4A_7C15int;
    let x = va as int * c;
    let m = 0x1_0000_0000_0000_0000int;
    vstd::arithmetic::div_mod::lemma_mod_mod(x, 512, 0x80_0000_0000_0000);
    assert(512 * 0x80_0000_0000_0000 == m);
    assert(x % m % 512 == x % 512);
    vstd::arithmetic::div_mod::lemma_mul_mod_noop_right(va as int, c, 512);
    assert(c % 512 == 21);
}

/// A string is as long as it is to its first zero byte; where memory ends before that, the
/// first missing address is told.
pub proof fn strings_have_lengths(m: Bytes, s: int, n: nat)
    requires
        s + n <= VA_LIMIT,
        forall|va: int| s <= va < s + n ==> #[trigger] m.contains_key(va) && m[va] != 0,
    ensures
        s + n < VA_LIMIT && m.contains_key(s + n) && m[s + n] == 0 ==> string_length(m, s) == Ok::<
            nat,
            int,
        >(n),
        s + n >= VA_LIMIT || !m.contains_key(s + n) ==> string_length(m, s) == Err::<nat, int>(s + n),
    decreases n,
{
    if n > 0 {
        assert(m.contains_key(s));
        strings_have_lengths(m, s + 1, (n - 1) as nat);
    }
}

/// Arguments of functions of the host, by the calling convention: `RCX`, `RDX`, `R8`, `R9`.
pub proof fn arguments_by_convention(kind: FastApiKind)
    ensures
        ({
            let order = seq![1usize, 2, 8, 9];
            &&& argument_regs(kind).is_prefix_of(order)
            &&& kind is Memcpy ==> argument_regs(kind).len() == 3
            &&& kind is Fwrite ==> argument_regs(kind).len() == 4
            &&& !(kind is Memcpy) && !(kind is Fwrite) ==> argument_regs(kind).len() == 1
        }),
        number_of(kind) < 7,
{
}

/// A step of a run counts for at least one instruction.
pub proof fn steps_count(executed: usize, retired: usize)
    ensures
        executed + retired < usize::MAX && retired > 0 ==> spent(executed, retired) == executed
            + retired,
        executed < usize::MAX ==> spent(executed, 0) == executed + 1,
        executed + retired >= usize::MAX ==> spent(executed, retired) == usize::MAX,
{
}

/// Bits of a bitmap: bit `i` is that of weight `2^(i mod 8)` in byte `i / 8`.
pub proof fn bits_have_weights(map: Seq<u8>, i: int)
    requires
        0 <= i < 8 * map.len(),
    ensures
        bit_set(map, i) == (map[i / 8] as int / (pow2((i % 8) as nat) as int) % 2 == 1),
{
    let b = map[i / 8];
    vstd::arithmetic::power2::lemma2_to64();
    assert(((b & (1u8 << 0)) != 0) == (b / 1 % 2 == 1) && ((b & (1u8 << 1)) != 0) == (b / 2 % 2
        == 1) && ((b & (1u8 << 2)) != 0) == (b / 4 % 2 == 1) && ((b & (1u8 << 3)) != 0) == (b / 8
        % 2 == 1) && ((b & (1u8 << 4)) != 0) == (b / 16 % 2 == 1) && ((b & (1u8 << 5)) != 0) == (b
        / 32 % 2 == 1) && ((b & (1u8 << 6)) != 0) == (b / 64 % 2 == 1) && ((b & (1u8 << 7)) != 0)
        == (b / 128 % 2 == 1)) by (bit_vector);
}

/// Where the host takes over: nowhere outside the window; inside it everywhere if there is
/// no bitmap, else where the bit is set or there is none.
pub proof fn hosts_take_over_in_the_window(begin: u64, end: u64, bitmap: Seq<u8>, address: u64)
    requires
        begin <= end,
        end - begin < u64::MAX,
    ensures
        address < begin || address > end ==> !stops_at(begin, end, bitmap, address),
        begin <= address <= end && bitmap.len() == 0 ==> stops_at(begin, end, bitmap, address),
        begin <= address <= end && bitmap.len() > 0 && address - begin <= usize::MAX ==> stops_at(
            begin,
            end,
            bitmap,
            address,
        ) == (address - begin >= 8 * bitmap.len() || bit_set(bitmap, address - begin)),
        !stopped(None, address),
{
}

/// Registers by the numbers that the decoder gives them: sixteen of each size in order,
/// with the four high bytes between the low bytes, and the vector registers.
pub proof fn registers_have_numbers(k: u8, size: u16)
    ensures
        reg_of(0, size) == Reg::Absent,
        k < 4 ==> reg_of((1 + k) as u8, size) == Reg::Low8(k),
        k < 4 ==> reg_of((5 + k) as u8, size) == Reg::High8(k),
        4 <= k < 16 ==> reg_of((5 + k) as u8, size) == Reg::Low8(k),
        k < 16 ==> reg_of((21 + k) as u8, size) == Reg::Word(k),
        k < 16 ==> reg_of((37 + k) as u8, size) == Reg::Dword(k),
        k < 16 ==> reg_of((53 + k) as u8, size) == Reg::Qword(k),
        reg_of(69, size) == Reg::Eip,
        reg_of(70, size) == Reg::Rip,
        k < 32 ==> reg_of((77 + k) as u8, size) == Reg::Xmm(k),
{
}

/// No two numbers stand for the same register.
pub proof fn register_numbers_are_distinct(a: u8, b: u8, size: u16)
    ensures
        reg_of(a, size) == reg_of(b, size) ==> a == b,
{
}

/// An instruction has what the decoder read, each in its place.
pub proof fn instructions_hold_what_was_decoded(
    ip: u64,
    head: RawHead,
    op0: RawOperand,
    op1: RawOperand,
    op2: RawOperand,
    memory: RawMemory,
)
    ensures
        ({
            let i = assembled(ip, head, op0, op1, op2, memory);
            &&& i.ip == ip && i.next_ip == head.next_ip && i.len == head.len
            &&& i.mnemonic == head.mnemonic && i.code == head.code && i.op_count == head.op_count
            &&& i.near_branch == head.near_branch
            &&& i.rep == head.rep && i.repe == head.repe && i.repne == head.repne
            &&& i.op0.kind == op0.kind && i.op0.imm == op0.imm && i.op0.reg == reg_of(
                op0.reg,
                op0.reg_size,
            )
            &&& i.op1.kind == op1.kind && i.op1.imm == op1.imm && i.op1.reg == reg_of(
                op1.reg,
                op1.reg_size,
            )
            &&& i.op2.kind == op2.kind && i.op2.imm == op2.imm && i.op2.reg == reg_of(
                op2.reg,
                op2.reg_size,
            )
            &&& i.base == reg_of(memory.base, memory.base_size)
            &&& i.index == reg_of(memory.index, memory.index_size)
            &&& i.scale == memory.scale && i.disp == memory.disp && i.mem_size == memory.size
        }),
{
}

/// Whole registers and immediates, as compiled code takes them.
pub open spec fn plain(i: Instr) -> bool {
    &&& i.op0.kind == kind::REGISTER
    &&& !(i.op0.reg is High8) && !(i.op1.reg is High8) && !(i.op2.reg is High8)
    &&& !(i.base is Dword) && !(i.index is Dword)
    &&& i.op1.kind == kind::REGISTER || kind::immediate(i.op1.kind)
}

/// Moves and arithmetic on registers and immediates are compiled.
pub proof fn plain_instructions_compile(i: Instr)
    requires
        plain(i),
    ensures
        i.mnemonic == mnemonic::MOV || i.mnemonic == mnemonic::ADD || i.mnemonic == mnemonic::ADC
            || i.mnemonic == mnemonic::SUB || i.mnemonic == mnemonic::SBB || i.mnemonic
            == mnemonic::XOR || i.mnemonic == mnemonic::AND || i.mnemonic == mnemonic::OR
            || i.mnemonic == mnemonic::CMP || i.mnemonic == mnemonic::TEST || i.mnemonic
            == mnemonic::INC || i.mnemonic == mnemonic::DEC || i.mnemonic == mnemonic::NOT
            || i.mnemonic == mnemonic::NEG ==> lowerable(i),
        kind::immediate(i.op1.kind) && (i.mnemonic == mnemonic::SHL || i.mnemonic == mnemonic::SAL
            || i.mnemonic == mnemonic::SHR || i.mnemonic == mnemonic::SAR || i.mnemonic
            == mnemonic::ROL || i.mnemonic == mnemonic::ROR) ==> lowerable(i),
        i.op1.kind == kind::REGISTER && (i.mnemonic == mnemonic::MOVZX || i.mnemonic
            == mnemonic::MOVSX || i.mnemonic == mnemonic::MOVSXD || i.mnemonic == mnemonic::XCHG)
            ==> lowerable(i),
        i.op_count == 2 && i.mnemonic == mnemonic::IMUL ==> lowerable(i),
        i.mnemonic == mnemonic::PUSH || i.mnemonic == mnemonic::POP ==> lowerable(i) == (
        i.op0.reg.bytes() != 2),
{
}

/// The same with one operand in memory, at an address of whole registers with a scale that
/// there is, of a size that an integer has.
pub proof fn memory_instructions_compile(i: Instr)
    requires
        !(i.op0.reg is High8) && !(i.op1.reg is High8) && !(i.op2.reg is High8),
        !(i.base is Dword) && !(i.index is Dword),
        i.scale == 1 || i.scale == 2 || i.scale == 4 || i.scale == 8,
        i.mem_size == kind::SIZE_UINT8 || i.mem_size == kind::SIZE_UINT16 || i.mem_size
            == kind::SIZE_UINT32 || i.mem_size == kind::SIZE_UINT64 || i.mem_size
            == kind::SIZE_INT8 || i.mem_size == kind::SIZE_INT16 || i.mem_size == kind::SIZE_INT32
            || i.mem_size == kind::SIZE_INT64,
        (i.op0.kind == kind::REGISTER && i.op1.kind == kind::MEMORY) || (i.op0.kind == kind::MEMORY
            && (i.op1.kind == kind::REGISTER || kind::immediate(i.op1.kind))),
    ensures
        i.mnemonic == mnemonic::MOV || i.mnemonic == mnemonic::ADD || i.mnemonic == mnemonic::ADC
            || i.mnemonic == mnemonic::SUB || i.mnemonic == mnemonic::SBB || i.mnemonic
            == mnemonic::XOR || i.mnemonic == mnemonic::AND || i.mnemonic == mnemonic::OR
            || i.mnemonic == mnemonic::CMP || i.mnemonic == mnemonic::TEST || i.mnemonic
            == mnemonic::INC || i.mnemonic == mnemonic::DEC || i.mnemonic == mnemonic::NOT
            || i.mnemonic == mnemonic::NEG ==> lowerable(i),
        i.op0.kind == kind::REGISTER && (i.mnemonic == mnemonic::LEA || i.mnemonic
            == mnemonic::MOVZX || i.mnemonic == mnemonic::MOVSX || i.mnemonic == mnemonic::MOVSXD)
            ==> lowerable(i),
{
}

/// A whole general register or the low part of one.
pub open spec fn low_part(r: Reg) -> bool {
    r is Low8 || r is Word || r is Dword || r is Qword
}

/// Instructions on two registers of one size do not only start blocks: they are compiled.
pub proof fn register_instructions_are_accepted(i: Instr)
    requires
        i.op0.kind == kind::REGISTER,
        i.op1.kind == kind::REGISTER,
        low_part(i.op0.reg),
        low_part(i.op1.reg),
        i.op0.reg.bytes() == i.op1.reg.bytes(),
        i.index == Reg::Absent,
        i.op_count == 2,
    ensures
        i.mnemonic == mnemonic::MOV || i.mnemonic == mnemonic::ADD || i.mnemonic == mnemonic::ADC
            || i.mnemonic == mnemonic::SUB || i.mnemonic == mnemonic::SBB || i.mnemonic
            == mnemonic::XOR || i.mnemonic == mnemonic::AND || i.mnemonic == mnemonic::OR
            || i.mnemonic == mnemonic::CMP || i.mnemonic == mnemonic::TEST || i.mnemonic
            == mnemonic::INC || i.mnemonic == mnemonic::DEC || i.mnemonic == mnemonic::NOT
            || i.mnemonic == mnemonic::NEG || i.mnemonic == mnemonic::XCHG || i.mnemonic
            == mnemonic::SHL || i.mnemonic == mnemonic::SHR || i.mnemonic == mnemonic::SAR
            || i.mnemonic == mnemonic::ROL || i.mnemonic == mnemonic::ROR || i.mnemonic
            == mnemonic::MOVZX || i.mnemonic == mnemonic::MOVSX || i.mnemonic == mnemonic::MOVSXD
            ==> accepted(i),
        i.mnemonic == mnemonic::NOP || i.mnemonic == mnemonic::ENDBR64 || i.mnemonic
            == mnemonic::ENDBR32 ==> accepted(i),
        i.mnemonic == mnemonic::CMOVE || i.mnemonic == mnemonic::CMOVL || i.mnemonic
            == mnemonic::CMOVB ==> accepted(i),
        i.mnemonic == mnemonic::PUSH || i.mnemonic == mnemonic::POP ==> (i.op0.reg is Qword
            ==> accepted(i)),
{
}

/// Instructions on vector registers are compiled.
pub proof fn vector_instructions_are_accepted(i: Instr, a: u8, b: u8)
    requires
        i.op0.kind == kind::REGISTER,
        i.op1.kind == kind::REGISTER,
        i.op0.reg == Reg::Xmm(a),
        i.op1.reg == Reg::Xmm(b),
        a < 16,
        b < 16,
        i.index == Reg::Absent,
        i.op_count == 2,
    ensures
        i.mnemonic == mnemonic::MOVAPS || i.mnemonic == mnemonic::MOVUPS || i.mnemonic
            == mnemonic::MOVDQA || i.mnemonic == mnemonic::MOVDQU || i.mnemonic == mnemonic::MOVSS
            || i.mnemonic == mnemonic::MOVSD || i.mnemonic == mnemonic::XORPS || i.mnemonic
            == mnemonic::PXOR || i.mnemonic == mnemonic::ADDSD || i.mnemonic == mnemonic::MULPS
            || i.mnemonic == mnemonic::DIVSS || i.mnemonic == mnemonic::SUBPD ==> accepted(i) && (
        !(i.op2.reg is High8) && !(i.base is Dword) && !(i.index is Dword) ==> lowerable(i)),
{
}

/// What compiled code cannot tell from something else is not compiled: high bytes, and
/// addresses of double words. String instructions and branches end blocks instead.
pub proof fn some_instructions_do_not_compile(i: Instr)
    ensures
        i.mnemonic != mnemonic::NOP && i.mnemonic != mnemonic::ENDBR64 && i.mnemonic
            != mnemonic::ENDBR32 && (i.op0.reg is High8 || i.op1.reg is High8 || i.op2.reg is High8
            || i.base is Dword || i.index is Dword) ==> !lowerable(i),
        i.mnemonic == mnemonic::NOP || i.mnemonic == mnemonic::ENDBR64 || i.mnemonic
            == mnemonic::ENDBR32 ==> lowerable(i),
        i.mnemonic == mnemonic::CPUID || i.mnemonic == mnemonic::RDTSC || i.mnemonic
            == mnemonic::DIV || i.mnemonic == mnemonic::IDIV || i.mnemonic == mnemonic::CALL
            || i.mnemonic == mnemonic::RET || i.mnemonic == mnemonic::JMP ==> !lowerable(i),
{
}

} // verus!
