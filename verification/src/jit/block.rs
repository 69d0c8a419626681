//! Which guest instructions form a block that can be compiled.

use vstd::prelude::*;

use crate::cpu::CpuEngine;
use crate::error::CpuError;
use crate::exec::branch::{cmov_cond, cmov_condition, jcc_cond, jcc_condition, setcc_cond, setcc_condition};
use crate::exec::hook::{stopped, HookWindow};
use crate::exec::sse::{is_sse_movsd, vector_movsd};
use crate::iced_cpu::IcedCpu;
use crate::insn::decode::{decode, decoded};
use crate::insn::instr::{Instr, Operand};
use crate::insn::{kind, mnemonic};
use crate::mem::model::{is_mapped, lemma_mapped_run, load, Bytes};
use crate::regs::Reg;
use crate::text;

verus! {

/// Most instructions in one block, so that compile time stays bounded.
pub const MAX_BLOCK_INSNS: usize = 64;

/// Fewest instructions in a block that only falls through to its successor.
pub const MIN_FALLTHROUGH_INSNS: usize = 8;

/// How many bytes are read to decode one instruction.
pub const DECODE_WINDOW: usize = 15;

/// How control leaves a block whose last instruction is a branch.
#[derive(Debug, Clone, Copy, PartialEq, Eq, Structural)]
pub enum BlockTerm {
    /// An unconditional near jump.
    Jmp {
        /// Where it goes.
        target: u64,
    },
    /// A conditional near jump.
    Jcc {
        /// Which one.
        mnemonic: u16,
        /// Where it goes if the condition holds.
        taken: u64,
        /// Where it goes if the condition does not hold.
        not_taken: u64,
    },
    /// A near call.
    Call {
        /// Where it goes.
        target: u64,
        /// The return address that it pushes.
        return_ip: u64,
    },
    /// A near return that pops no arguments.
    Ret,
}

/// A block of guest code.
pub struct Block {
    /// The instructions, the branch at the end included.
    pub insns: Vec<Instr>,
    /// The address after the block if it falls through; for a jump or call the
    /// target, for a conditional jump the address if it is not taken.
    pub end_rip: u64,
    /// Length of the instructions in bytes.
    pub bytes_len: u32,
    /// How control leaves the block; `None` if it falls through, or if a string
    /// instruction at its end decides.
    pub term: Option<BlockTerm>,
}

/// A block of guest code, as a mathematical value.
#[verifier::ext_equal]
pub struct Scan {
    /// The instructions.
    pub insns: Seq<Instr>,
    /// The address after the block.
    pub end_rip: u64,
    /// Length of the instructions in bytes.
    pub bytes_len: nat,
    /// How control leaves the block.
    pub term: Option<BlockTerm>,
}

impl Block {
    /// The block as a mathematical value.
    pub open spec fn view(&self) -> Scan {
        Scan {
            insns: self.insns@,
            end_rip: self.end_rip,
            bytes_len: self.bytes_len as nat,
            term: self.term,
        }
    }
}

/// The branch that an instruction ends a block with. A return that pops arguments
/// and an indirect branch end none.
pub open spec fn terminator(i: Instr) -> Option<BlockTerm> {
    if i.mnemonic == mnemonic::RET {
        if i.op_count >= 1 {
            None
        } else {
            Some(BlockTerm::Ret)
        }
    } else if !kind::near_branch(i.op0.kind) {
        None
    } else if i.mnemonic == mnemonic::CALL {
        Some(BlockTerm::Call { target: i.near_branch, return_ip: i.next_ip })
    } else if i.mnemonic == mnemonic::JMP {
        Some(BlockTerm::Jmp { target: i.near_branch })
    } else if jcc_cond(i.mnemonic) is Some {
        Some(
            BlockTerm::Jcc { mnemonic: i.mnemonic, taken: i.near_branch, not_taken: i.next_ip },
        )
    } else {
        None
    }
}

/// The branch that an instruction ends a block with.
pub fn classify_terminator(i: &Instr) -> (t: Option<BlockTerm>)
    ensures
        t == terminator(*i),
{
    if i.mnemonic == mnemonic::RET {
        if i.op_count >= 1 {
            return None;
        }
        return Some(BlockTerm::Ret);
    }
    if !kind::is_near_branch(i.op0.kind) {
        return None;
    }
    if i.mnemonic == mnemonic::CALL {
        return Some(BlockTerm::Call { target: i.near_branch, return_ip: i.next_ip });
    }
    if i.mnemonic == mnemonic::JMP {
        return Some(BlockTerm::Jmp { target: i.near_branch });
    }
    match jcc_condition(i.mnemonic) {
        Some(_) => Some(
            BlockTerm::Jcc { mnemonic: i.mnemonic, taken: i.near_branch, not_taken: i.next_ip },
        ),
        None => None,
    }
}

/// The addresses that a branch is known to go to.
pub open spec fn chain_targets(t: BlockTerm) -> Seq<u64> {
    match t {
        BlockTerm::Jmp { target } => seq![target],
        BlockTerm::Call { target, return_ip } => seq![target],
        BlockTerm::Jcc { mnemonic, taken, not_taken } => seq![taken, not_taken],
        BlockTerm::Ret => seq![],
    }
}

/// The addresses that a branch is known to go to.
pub fn term_chain_targets(t: BlockTerm) -> (v: Vec<u64>)
    ensures
        v@ == chain_targets(t),
{
    match t {
        BlockTerm::Jmp { target } => vec![target],
        BlockTerm::Call { target, return_ip: _ } => vec![target],
        BlockTerm::Jcc { mnemonic: _, taken, not_taken } => vec![taken, not_taken],
        BlockTerm::Ret => Vec::new(),
    }
}

/// Whether a branch goes back to the start of its own block.
pub open spec fn loops_to(t: Option<BlockTerm>, start: u64) -> bool {
    match t {
        Some(BlockTerm::Jmp { target }) => target == start,
        Some(BlockTerm::Jcc { mnemonic, taken, not_taken }) => taken == start || not_taken == start,
        _ => false,
    }
}

/// Whether a branch goes back to the start of its own block.
pub fn is_self_loop(t: Option<BlockTerm>, start: u64) -> (r: bool)
    ensures
        r == loops_to(t, start),
{
    match t {
        Some(BlockTerm::Jmp { target }) => target == start,
        Some(BlockTerm::Jcc { mnemonic: _, taken, not_taken }) => taken == start || not_taken == start,
        _ => false,
    }
}

/// The address of the memory operand can be computed: an index needs a factor of
/// 1, 2, 4 or 8.
pub open spec fn address_ok(i: Instr) -> bool {
    i.index == Reg::Absent || i.scale == 1 || i.scale == 2 || i.scale == 4 || i.scale == 8
}

/// The instruction names whole registers in its address, and no second byte of a
/// register such as `AH`.
pub open spec fn names_whole(i: Instr) -> bool {
    &&& !(i.base is Dword) && !(i.index is Dword)
    &&& !(i.op0.reg is High8) && !(i.op1.reg is High8) && !(i.op2.reg is High8)
}

/// Whether the instruction names whole registers in its address, and no second byte
/// of a register.
fn is_whole(i: &Instr) -> (r: bool)
    ensures
        r == names_whole(*i),
{
    !matches!(i.base, Reg::Dword(_)) && !matches!(i.index, Reg::Dword(_)) && !matches!(
        i.op0.reg,
        Reg::High8(_)
    ) && !matches!(i.op1.reg, Reg::High8(_)) && !matches!(i.op2.reg, Reg::High8(_))
}

/// Whether the address of the memory operand can be computed.
pub fn mem_ea_ok(i: &Instr) -> (r: bool)
    ensures
        r == address_ok(*i),
{
    if i.index == Reg::Absent {
        return true;
    }
    matches!(i.scale, 1 | 2 | 4 | 8)
}

/// Integers have 1, 2, 4 or 8 bytes.
pub open spec fn integer_width(n: int) -> bool {
    n == 1 || n == 2 || n == 4 || n == 8
}

/// The width in bytes of a memory operand: that of an integer, or else that of a
/// register beside it.
pub open spec fn memory_width(i: Instr) -> Option<int> {
    match kind::integer_bytes(i.mem_size) {
        Some(n) => Some(n),
        None => if i.op0.kind == kind::REGISTER {
            Some(i.op0.reg.bytes())
        } else if i.op1.kind == kind::REGISTER {
            Some(i.op1.reg.bytes())
        } else {
            None
        },
    }
}

/// The width in bytes of a memory operand.
pub fn width_of_memory(i: &Instr) -> (r: Option<usize>)
    ensures
        match r {
            Some(n) => memory_width(*i) == Some(n as int),
            None => memory_width(*i) is None,
        },
{
    match kind::integer_size(i.mem_size) {
        Some(n) => Some(n),
        None => {
            if i.op0.kind == kind::REGISTER {
                Some(i.op0.reg.size())
            } else if i.op1.kind == kind::REGISTER {
                Some(i.op1.reg.size())
            } else {
                None
            }
        },
    }
}

/// The memory operand is an integer.
pub open spec fn width_ok(i: Instr) -> bool {
    memory_width(i) matches Some(n) && integer_width(n)
}

/// Whether the memory operand is an integer.
fn mem_size_ok(i: &Instr) -> (r: bool)
    ensures
        r == width_ok(*i),
{
    matches!(width_of_memory(i), Some(1 | 2 | 4 | 8))
}

/// The width in bytes of a memory operand (1, 2, 4 or 8).
pub fn mem_width_bytes(i: &Instr) -> (r: Result<u32, CpuError>)
    ensures
        match memory_width(*i) {
            None => r matches Err(e) && e.text() == "unsupported mem size"@,
            Some(n) => if integer_width(n) {
                r == Ok::<u32, CpuError>(n as u32)
            } else {
                r matches Err(e) && e.text() == "bad mem width "@ + text::dec(n as nat)
            },
        },
{
    match width_of_memory(i) {
        None => Err(crate::error::error("unsupported mem size")),
        Some(size) => match size {
            1 | 2 | 4 | 8 => Ok(size as u32),
            _ => Err(CpuError::Message(text::with_dec("bad mem width ", size as u64))),
        },
    }
}

/// A memory operand that can be compiled.
pub open spec fn memory_ok(i: Instr) -> bool {
    address_ok(i) && width_ok(i)
}

/// Whether the memory operand can be compiled.
fn simple_mem(i: &Instr) -> (r: bool)
    ensures
        r == memory_ok(*i),
{
    mem_ea_ok(i) && mem_size_ok(i)
}

/// A register, or a memory operand that can be compiled.
pub open spec fn place_ok(i: Instr, o: Operand) -> bool {
    o.kind == kind::REGISTER || (o.kind == kind::MEMORY && memory_ok(i))
}

/// Whether an operand is a register or a memory operand that can be compiled.
fn is_place(i: &Instr, o: Operand) -> (r: bool)
    ensures
        r == place_ok(*i, o),
{
    match o.kind {
        kind::REGISTER => true,
        kind::MEMORY => simple_mem(i),
        _ => false,
    }
}

/// Two operands of a move or of arithmetic: at most one is in memory, and only
/// the second is a constant.
pub open spec fn pair_ok(i: Instr) -> bool {
    let k0 = i.op0.kind;
    let k1 = i.op1.kind;
    if k0 == kind::REGISTER {
        k1 == kind::REGISTER || kind::immediate(k1) || (k1 == kind::MEMORY && memory_ok(i))
    } else {
        k0 == kind::MEMORY && (k1 == kind::REGISTER || kind::immediate(k1)) && memory_ok(i)
    }
}

/// Whether the two operands are a pair that can be compiled.
fn alu_is_lowerable(i: &Instr) -> (r: bool)
    ensures
        r == pair_ok(*i),
{
    match (i.op0.kind, i.op1.kind) {
        (kind::REGISTER, kind::REGISTER) => true,
        (kind::REGISTER, kind::MEMORY) => simple_mem(i),
        (kind::REGISTER, k) => kind::is_immediate(k),
        (kind::MEMORY, kind::REGISTER) => simple_mem(i),
        (kind::MEMORY, k) => kind::is_immediate(k) && simple_mem(i),
        _ => false,
    }
}

/// The second operand of a shift: a constant, or `RCX` or a part of it.
pub open spec fn count_ok(o: Operand) -> bool {
    kind::immediate(o.kind) || (o.kind == kind::REGISTER && (o.reg == Reg::Low8(1) || o.reg
        == Reg::Word(1) || o.reg == Reg::Dword(1) || o.reg == Reg::Qword(1)))
}

/// Whether the operands of a shift can be compiled.
fn shift_is_lowerable(i: &Instr) -> (r: bool)
    ensures
        r == (place_ok(*i, i.op0) && count_ok(i.op1)),
{
    if !is_place(i, i.op0) {
        return false;
    }
    if kind::is_immediate(i.op1.kind) {
        return true;
    }
    i.op1.kind == kind::REGISTER && matches!(
        i.op1.reg,
        Reg::Low8(1) | Reg::Word(1) | Reg::Dword(1) | Reg::Qword(1)
    )
}

/// The operands of `imul` with two or three operands. The form with one operand
/// is left to the interpreter.
pub open spec fn imul_ok(i: Instr) -> bool {
    if i.op_count == 2 {
        pair_ok(i)
    } else {
        i.op_count == 3 && i.op0.kind == kind::REGISTER && place_ok(i, i.op1) && kind::immediate(
            i.op2.kind,
        )
    }
}

/// Whether the operands of `imul` can be compiled.
fn imul_is_lowerable(i: &Instr) -> (r: bool)
    ensures
        r == imul_ok(*i),
{
    match i.op_count {
        2 => alu_is_lowerable(i),
        3 => i.op0.kind == kind::REGISTER && is_place(i, i.op1) && kind::is_immediate(i.op2.kind),
        _ => false,
    }
}

/// The operands of `xchg`: two registers, or a register and memory.
pub open spec fn xchg_ok(i: Instr) -> bool {
    place_ok(i, i.op0) && place_ok(i, i.op1) && !(i.op0.kind == kind::MEMORY && i.op1.kind
        == kind::MEMORY)
}

/// Whether the operands of `xchg` can be compiled.
fn xchg_is_lowerable(i: &Instr) -> (r: bool)
    ensures
        r == xchg_ok(*i),
{
    match (i.op0.kind, i.op1.kind) {
        (kind::REGISTER, kind::REGISTER) => true,
        (kind::REGISTER, kind::MEMORY) => simple_mem(i),
        (kind::MEMORY, kind::REGISTER) => simple_mem(i),
        _ => false,
    }
}

/// The operand of `push` or `pop`, which move eight bytes: none of 16 bits.
pub open spec fn stack_ok(i: Instr) -> bool {
    place_ok(i, i.op0) && if i.op0.kind == kind::REGISTER {
        i.op0.reg.bytes() != 2
    } else {
        memory_width(i) != Some(2int)
    }
}

/// Whether the operand of `pop` can be compiled.
fn pop_is_lowerable(i: &Instr) -> (r: bool)
    ensures
        r == stack_ok(*i),
{
    match i.op0.kind {
        kind::REGISTER => i.op0.reg.size() != 2,
        kind::MEMORY => simple_mem(i) && !matches!(width_of_memory(i), Some(2)),
        _ => false,
    }
}

/// The operand of `push`: a constant that is not of 16 bits, or what `pop` takes.
pub open spec fn push_ok(i: Instr) -> bool {
    stack_ok(i) || (kind::immediate(i.op0.kind) && kind::immediate_bytes(i.op0.kind) != 2)
}

/// Whether the operand of `push` can be compiled.
fn push_is_lowerable(i: &Instr) -> (r: bool)
    ensures
        r == push_ok(*i),
{
    match i.op0.kind {
        kind::IMMEDIATE16 | kind::IMMEDIATE8TO16 => false,
        k => kind::is_immediate(k) || pop_is_lowerable(i),
    }
}

/// A conditional move or an extending move: into a register.
pub open spec fn into_register_ok(i: Instr) -> bool {
    i.op0.kind == kind::REGISTER && place_ok(i, i.op1)
}

/// Whether a move into a register can be compiled.
fn movx_is_lowerable(i: &Instr) -> (r: bool)
    ensures
        r == into_register_ok(*i),
{
    i.op0.kind == kind::REGISTER && is_place(i, i.op1)
}

/// `lea` into a register.
pub open spec fn lea_ok(i: Instr) -> bool {
    i.op0.kind == kind::REGISTER && i.op1.kind == kind::MEMORY && address_ok(i)
}

/// Whether `lea` can be compiled.
fn lea_is_simple(i: &Instr) -> (r: bool)
    ensures
        r == lea_ok(*i),
{
    i.op0.kind == kind::REGISTER && i.op1.kind == kind::MEMORY && mem_ea_ok(i)
}

/// A vector operand: one of the sixteen vector registers, or memory.
pub open spec fn vector_place(i: Instr, o: Operand) -> bool {
    (o.kind == kind::REGISTER && (o.reg matches Reg::Xmm(n) && n < 16)) || (o.kind == kind::MEMORY
        && address_ok(i))
}

/// Whether an operand is a vector operand.
fn is_vector_place(i: &Instr, o: Operand) -> (r: bool)
    ensures
        r == vector_place(*i, o),
{
    match o.kind {
        kind::REGISTER => match o.reg {
            Reg::Xmm(n) => n < 16,
            _ => false,
        },
        kind::MEMORY => mem_ea_ok(i),
        _ => false,
    }
}

/// A vector move: at most one operand is in memory.
pub open spec fn vector_move_ok(i: Instr) -> bool {
    vector_place(i, i.op0) && vector_place(i, i.op1) && !(i.op0.kind == kind::MEMORY && i.op1.kind
        == kind::MEMORY)
}

/// Whether a vector move can be compiled.
fn sse_mov_is_lowerable(i: &Instr) -> (r: bool)
    ensures
        r == vector_move_ok(*i),
{
    is_vector_place(i, i.op0) && is_vector_place(i, i.op1) && !(i.op0.kind == kind::MEMORY
        && i.op1.kind == kind::MEMORY)
}

/// A vector operation into a vector register.
pub open spec fn vector_op_ok(i: Instr) -> bool {
    vector_place(i, i.op0) && vector_place(i, i.op1) && i.op0.kind == kind::REGISTER
}

/// Whether a vector operation can be compiled.
fn sse_op_is_lowerable(i: &Instr) -> (r: bool)
    ensures
        r == vector_op_ok(*i),
{
    is_vector_place(i, i.op0) && is_vector_place(i, i.op1) && i.op0.kind == kind::REGISTER
}

/// The instructions that move a whole vector register.
pub open spec fn moves_vector(m: u16) -> bool {
    m == mnemonic::MOVAPS || m == mnemonic::MOVUPS || m == mnemonic::MOVDQA || m
        == mnemonic::MOVDQU || m == mnemonic::MOVAPD || m == mnemonic::MOVUPD
}

/// Bitwise vector operations.
#[derive(Debug, Clone, Copy, PartialEq, Eq, Structural)]
pub enum SseBit {
    /// Exclusive or.
    Xor,
    /// And.
    And,
    /// Or.
    Or,
    /// And of the second operand with the complement of the first.
    Andn,
}

/// The bitwise vector operation that an instruction performs.
pub open spec fn vector_bit(m: u16) -> Option<SseBit> {
    match m {
        mnemonic::XORPS => Some(SseBit::Xor),
        mnemonic::XORPD => Some(SseBit::Xor),
        mnemonic::PXOR => Some(SseBit::Xor),
        mnemonic::ANDPS => Some(SseBit::And),
        mnemonic::ANDPD => Some(SseBit::And),
        mnemonic::PAND => Some(SseBit::And),
        mnemonic::ORPS => Some(SseBit::Or),
        mnemonic::ORPD => Some(SseBit::Or),
        mnemonic::POR => Some(SseBit::Or),
        mnemonic::ANDNPS => Some(SseBit::Andn),
        mnemonic::ANDNPD => Some(SseBit::Andn),
        mnemonic::PANDN => Some(SseBit::Andn),
        _ => None,
    }
}

/// The bitwise vector operation that an instruction performs.
pub fn sse_bit(m: u16) -> (r: Option<SseBit>)
    ensures
        r == vector_bit(m),
{
    match m {
        mnemonic::XORPS | mnemonic::XORPD | mnemonic::PXOR => Some(SseBit::Xor),
        mnemonic::ANDPS | mnemonic::ANDPD | mnemonic::PAND => Some(SseBit::And),
        mnemonic::ORPS | mnemonic::ORPD | mnemonic::POR => Some(SseBit::Or),
        mnemonic::ANDNPS | mnemonic::ANDNPD | mnemonic::PANDN => Some(SseBit::Andn),
        _ => None,
    }
}

/// Floating-point vector operations.
#[derive(Debug, Clone, Copy, PartialEq, Eq, Structural)]
pub struct SseFp {
    /// 0 adds, 1 subtracts, 2 multiplies, 3 divides.
    pub op: u8,
    /// All lanes, or the lowest one.
    pub packed: bool,
    /// Double precision.
    pub double: bool,
}

/// The floating-point operation that an instruction performs.
pub open spec fn vector_fp(m: u16) -> Option<SseFp> {
    match m {
        mnemonic::ADDSS => Some(SseFp { op: 0, packed: false, double: false }),
        mnemonic::SUBSS => Some(SseFp { op: 1, packed: false, double: false }),
        mnemonic::MULSS => Some(SseFp { op: 2, packed: false, double: false }),
        mnemonic::DIVSS => Some(SseFp { op: 3, packed: false, double: false }),
        mnemonic::ADDSD => Some(SseFp { op: 0, packed: false, double: true }),
        mnemonic::SUBSD => Some(SseFp { op: 1, packed: false, double: true }),
        mnemonic::MULSD => Some(SseFp { op: 2, packed: false, double: true }),
        mnemonic::DIVSD => Some(SseFp { op: 3, packed: false, double: true }),
        mnemonic::ADDPS => Some(SseFp { op: 0, packed: true, double: false }),
        mnemonic::SUBPS => Some(SseFp { op: 1, packed: true, double: false }),
        mnemonic::MULPS => Some(SseFp { op: 2, packed: true, double: false }),
        mnemonic::DIVPS => Some(SseFp { op: 3, packed: true, double: false }),
        mnemonic::ADDPD => Some(SseFp { op: 0, packed: true, double: true }),
        mnemonic::SUBPD => Some(SseFp { op: 1, packed: true, double: true }),
        mnemonic::MULPD => Some(SseFp { op: 2, packed: true, double: true }),
        mnemonic::DIVPD => Some(SseFp { op: 3, packed: true, double: true }),
        _ => None,
    }
}

/// The floating-point operation that an instruction performs.
pub fn sse_fp(m: u16) -> (r: Option<SseFp>)
    ensures
        r == vector_fp(m),
{
    match m {
        mnemonic::ADDSS => Some(SseFp { op: 0, packed: false, double: false }),
        mnemonic::SUBSS => Some(SseFp { op: 1, packed: false, double: false }),
        mnemonic::MULSS => Some(SseFp { op: 2, packed: false, double: false }),
        mnemonic::DIVSS => Some(SseFp { op: 3, packed: false, double: false }),
        mnemonic::ADDSD => Some(SseFp { op: 0, packed: false, double: true }),
        mnemonic::SUBSD => Some(SseFp { op: 1, packed: false, double: true }),
        mnemonic::MULSD => Some(SseFp { op: 2, packed: false, double: true }),
        mnemonic::DIVSD => Some(SseFp { op: 3, packed: false, double: true }),
        mnemonic::ADDPS => Some(SseFp { op: 0, packed: true, double: false }),
        mnemonic::SUBPS => Some(SseFp { op: 1, packed: true, double: false }),
        mnemonic::MULPS => Some(SseFp { op: 2, packed: true, double: false }),
        mnemonic::DIVPS => Some(SseFp { op: 3, packed: true, double: false }),
        mnemonic::ADDPD => Some(SseFp { op: 0, packed: true, double: true }),
        mnemonic::SUBPD => Some(SseFp { op: 1, packed: true, double: true }),
        mnemonic::MULPD => Some(SseFp { op: 2, packed: true, double: true }),
        mnemonic::DIVPD => Some(SseFp { op: 3, packed: true, double: true }),
        _ => None,
    }
}

/// `movq` and `movd`: between a vector register and a vector register, a general
/// register or memory.
pub open spec fn vector_transfer_ok(i: Instr) -> bool {
    let xmm0 = i.op0.reg matches Reg::Xmm(n) && n < 16 && i.op0.kind == kind::REGISTER;
    let xmm1 = i.op1.reg matches Reg::Xmm(n) && n < 16 && i.op1.kind == kind::REGISTER;
    if xmm0 {
        xmm1 || (i.op1.kind == kind::REGISTER && i.op1.reg.gpr_index() is Some) || (i.op1.kind
            == kind::MEMORY && address_ok(i))
    } else {
        xmm1 && ((i.op0.kind == kind::REGISTER && i.op0.reg.gpr_index() is Some) || (i.op0.kind
            == kind::MEMORY && address_ok(i)))
    }
}

/// Whether `movq` or `movd` can be compiled.
fn sse_transfer_is_lowerable(i: &Instr) -> (r: bool)
    ensures
        r == vector_transfer_ok(*i),
{
    let xmm0: bool = i.op0.kind == kind::REGISTER && is_vector_place(i, i.op0);
    let xmm1: bool = i.op1.kind == kind::REGISTER && is_vector_place(i, i.op1);
    if xmm0 {
        xmm1 || (i.op1.kind == kind::REGISTER && i.op1.reg.index().is_some()) || (i.op1.kind
            == kind::MEMORY && mem_ea_ok(i))
    } else {
        xmm1 && ((i.op0.kind == kind::REGISTER && i.op0.reg.index().is_some()) || (i.op0.kind
            == kind::MEMORY && mem_ea_ok(i)))
    }
}

/// Vector instructions that can be compiled.
pub open spec fn vector_ok(i: Instr) -> bool {
    if moves_vector(i.mnemonic) || i.mnemonic == mnemonic::MOVSS || (i.mnemonic == mnemonic::MOVSD
        && vector_movsd(i)) {
        vector_move_ok(i)
    } else if i.mnemonic == mnemonic::MOVQ || i.mnemonic == mnemonic::MOVD {
        vector_transfer_ok(i)
    } else {
        (vector_bit(i.mnemonic) is Some || vector_fp(i.mnemonic) is Some) && vector_op_ok(i)
    }
}

/// Whether a vector instruction can be compiled.
fn sse_is_lowerable(i: &Instr) -> (r: bool)
    ensures
        r == vector_ok(*i),
{
    match i.mnemonic {
        mnemonic::MOVAPS | mnemonic::MOVUPS | mnemonic::MOVDQA | mnemonic::MOVDQU
        | mnemonic::MOVAPD | mnemonic::MOVUPD | mnemonic::MOVSS => sse_mov_is_lowerable(i),
        mnemonic::MOVSD => is_sse_movsd(i) && sse_mov_is_lowerable(i),
        mnemonic::MOVQ | mnemonic::MOVD => sse_transfer_is_lowerable(i),
        _ => (sse_bit(i.mnemonic).is_some() || sse_fp(i.mnemonic).is_some())
            && sse_op_is_lowerable(i),
    }
}

/// The instructions that can be compiled inside a block.
pub open spec fn lowerable(i: Instr) -> bool {
    does_nothing(i.mnemonic) || (names_whole(i) && operands_ok(i))
}

/// `nop` and the like.
pub open spec fn does_nothing(m: u16) -> bool {
    m == mnemonic::NOP || m == mnemonic::ENDBR64 || m == mnemonic::ENDBR32
}

/// The kinds and sizes of the operands can be compiled.
pub open spec fn operands_ok(i: Instr) -> bool {
    match i.mnemonic {
        mnemonic::LEA => lea_ok(i),
        mnemonic::MOV => pair_ok(i),
        mnemonic::MOVZX => into_register_ok(i),
        mnemonic::MOVSX => into_register_ok(i),
        mnemonic::MOVSXD => into_register_ok(i),
        mnemonic::PUSH => push_ok(i),
        mnemonic::POP => stack_ok(i),
        mnemonic::ADD => pair_ok(i),
        mnemonic::ADC => pair_ok(i),
        mnemonic::SUB => pair_ok(i),
        mnemonic::SBB => pair_ok(i),
        mnemonic::XOR => pair_ok(i),
        mnemonic::AND => pair_ok(i),
        mnemonic::OR => pair_ok(i),
        mnemonic::CMP => pair_ok(i),
        mnemonic::TEST => pair_ok(i),
        mnemonic::INC => place_ok(i, i.op0),
        mnemonic::DEC => place_ok(i, i.op0),
        mnemonic::NOT => place_ok(i, i.op0),
        mnemonic::NEG => place_ok(i, i.op0),
        mnemonic::IMUL => imul_ok(i),
        mnemonic::XCHG => xchg_ok(i),
        mnemonic::SHL => place_ok(i, i.op0) && count_ok(i.op1),
        mnemonic::SAL => place_ok(i, i.op0) && count_ok(i.op1),
        mnemonic::SHR => place_ok(i, i.op0) && count_ok(i.op1),
        mnemonic::SAR => place_ok(i, i.op0) && count_ok(i.op1),
        mnemonic::ROL => place_ok(i, i.op0) && count_ok(i.op1),
        mnemonic::ROR => place_ok(i, i.op0) && count_ok(i.op1),
        _ => if cmov_cond(i.mnemonic) is Some {
            into_register_ok(i)
        } else if setcc_cond(i.mnemonic) is Some {
            place_ok(i, i.op0)
        } else {
            vector_ok(i)
        },
    }
}

/// Whether an instruction can be compiled inside a block.
pub fn is_lowerable(i: &Instr) -> (r: bool)
    ensures
        r == lowerable(*i),
{
    if matches!(i.mnemonic, mnemonic::NOP | mnemonic::ENDBR64 | mnemonic::ENDBR32) {
        return true;
    }
    if !is_whole(i) {
        return false;
    }
    match i.mnemonic {
        mnemonic::LEA => lea_is_simple(i),
        mnemonic::MOV => alu_is_lowerable(i),
        mnemonic::MOVZX | mnemonic::MOVSX | mnemonic::MOVSXD => movx_is_lowerable(i),
        mnemonic::PUSH => push_is_lowerable(i),
        mnemonic::POP => pop_is_lowerable(i),
        mnemonic::ADD | mnemonic::ADC | mnemonic::SUB | mnemonic::SBB | mnemonic::XOR
        | mnemonic::AND | mnemonic::OR | mnemonic::CMP | mnemonic::TEST => alu_is_lowerable(i),
        mnemonic::INC | mnemonic::DEC | mnemonic::NOT | mnemonic::NEG => is_place(i, i.op0),
        mnemonic::IMUL => imul_is_lowerable(i),
        mnemonic::XCHG => xchg_is_lowerable(i),
        mnemonic::SHL | mnemonic::SAL | mnemonic::SHR | mnemonic::SAR | mnemonic::ROL
        | mnemonic::ROR => shift_is_lowerable(i),
        _ => {
            if cmov_condition(i.mnemonic).is_some() {
                movx_is_lowerable(i)
            } else if setcc_condition(i.mnemonic).is_some() {
                is_place(i, i.op0)
            } else {
                sse_is_lowerable(i)
            }
        },
    }
}

/// The size of the elements of a string instruction; `None` for any other.
pub open spec fn string_bytes(i: Instr) -> Option<int> {
    match i.mnemonic {
        mnemonic::STOSB => Some(1),
        mnemonic::STOSW => Some(2),
        mnemonic::STOSD => Some(4),
        mnemonic::STOSQ => Some(8),
        mnemonic::MOVSB => Some(1),
        mnemonic::MOVSW => Some(2),
        mnemonic::MOVSD => if vector_movsd(i) {
            None
        } else {
            Some(4)
        },
        mnemonic::MOVSQ => Some(8),
        mnemonic::LODSB => Some(1),
        mnemonic::LODSD => Some(4),
        mnemonic::LODSQ => Some(8),
        mnemonic::SCASB => Some(1),
        mnemonic::SCASW => Some(2),
        mnemonic::SCASD => Some(4),
        mnemonic::SCASQ => Some(8),
        mnemonic::CMPSB => Some(1),
        mnemonic::CMPSW => Some(2),
        mnemonic::CMPSD => Some(4),
        mnemonic::CMPSQ => Some(8),
        _ => None,
    }
}

/// The size of the elements of a string instruction.
pub fn string_op_size(i: &Instr) -> (r: Option<u32>)
    ensures
        match r {
            Some(n) => string_bytes(*i) == Some(n as int),
            None => string_bytes(*i) is None,
        },
{
    match i.mnemonic {
        mnemonic::STOSB | mnemonic::MOVSB | mnemonic::LODSB | mnemonic::SCASB
        | mnemonic::CMPSB => Some(1),
        mnemonic::STOSW | mnemonic::MOVSW | mnemonic::SCASW | mnemonic::CMPSW => Some(2),
        mnemonic::STOSD | mnemonic::LODSD | mnemonic::SCASD | mnemonic::CMPSD => Some(4),
        mnemonic::MOVSD => if is_sse_movsd(i) {
            None
        } else {
            Some(4)
        },
        mnemonic::STOSQ | mnemonic::MOVSQ | mnemonic::LODSQ | mnemonic::SCASQ
        | mnemonic::CMPSQ => Some(8),
        _ => None,
    }
}

/// Whether an instruction is a string instruction.
pub fn is_string_op(i: &Instr) -> (r: bool)
    ensures
        r == (string_bytes(*i) is Some),
{
    string_op_size(i).is_some()
}

/// Where decoding stands after a branch.
pub open spec fn term_end(t: BlockTerm, i: Instr) -> u64 {
    match t {
        BlockTerm::Jmp { target } => target,
        BlockTerm::Call { target, return_ip } => target,
        BlockTerm::Jcc { mnemonic, taken, not_taken } => not_taken,
        BlockTerm::Ret => i.next_ip,
    }
}

/// Nothing more can be taken at `rip`.
pub open spec fn scan_end(rip: u64) -> Scan {
    Scan { insns: Seq::empty(), end_rip: rip, bytes_len: 0, term: None }
}

/// The instruction that stands at `rip`, if a block may take it: the host does
/// not stop there, and its bytes can be read.
pub open spec fn instr_at(m: Bytes, hook: Option<&HookWindow>, rip: u64) -> Option<Instr> {
    if stopped(hook, rip) || !is_mapped(m, rip as int, DECODE_WINDOW as nat) {
        None
    } else {
        decoded(load(m, rip as int, DECODE_WINDOW as nat), rip)
    }
}

/// The at most `left` instructions from `rip` on that belong to one block. A
/// branch ends the block and belongs to it; so does a string instruction. Any
/// other instruction that cannot be compiled ends it and stays out.
pub open spec fn scanned(m: Bytes, hook: Option<&HookWindow>, rip: u64, left: nat) -> Scan
    decreases left,
{
    if left == 0 {
        scan_end(rip)
    } else {
        match instr_at(m, hook, rip) {
            None => scan_end(rip),
            Some(i) => match terminator(i) {
                Some(t) => Scan {
                    insns: seq![i],
                    end_rip: term_end(t, i),
                    bytes_len: i.len as nat,
                    term: Some(t),
                },
                None => if string_bytes(i) is Some {
                    Scan {
                        insns: seq![i],
                        end_rip: i.next_ip,
                        bytes_len: i.len as nat,
                        term: None,
                    }
                } else if lowerable(i) {
                    let rest = scanned(m, hook, i.next_ip, (left - 1) as nat);
                    Scan {
                        insns: seq![i] + rest.insns,
                        end_rip: rest.end_rip,
                        bytes_len: i.len as nat + rest.bytes_len,
                        term: rest.term,
                    }
                } else {
                    scan_end(rip)
                },
            },
        }
    }
}

/// Whether a block is worth compiling: one that ends in a branch or in a string
/// instruction always is, one that falls through needs a certain length.
pub open spec fn worthwhile(s: Scan) -> bool {
    if s.insns.len() == 0 {
        false
    } else {
        s.term is Some || string_bytes(s.insns.last()) is Some || s.insns.len()
            >= MIN_FALLTHROUGH_INSNS
    }
}

/// What scanning `s` and then `t` gives.
pub open spec fn joined(s: Seq<Instr>, bytes: nat, t: Scan) -> Scan {
    Scan { insns: s + t.insns, end_rip: t.end_rip, bytes_len: bytes + t.bytes_len, term: t.term }
}

/// Decodes the block at `start`; `None` if there is none that is worth compiling.
pub fn decode_pure_gpr_block(cpu: &IcedCpu, start: u64) -> (r: Option<Block>)
    requires
        cpu.wf(),
    ensures
        ({
            let s = scanned(cpu.machine().mem, cpu.hook_view(), start, MAX_BLOCK_INSNS as nat);
            match r {
                Some(b) => worthwhile(s) && b.view() == (Scan {
                    bytes_len: b.bytes_len as nat,
                    ..s
                }) && (s.bytes_len <= u32::MAX ==> b.bytes_len == s.bytes_len),
                None => !worthwhile(s),
            }
        }),
        r matches Some(b) ==> forall|k: int| 0 <= k < b.insns@.len() ==> (#[trigger] b.insns@[k]).wf(),
{
    let ghost m = cpu.machine().mem;
    let ghost h = cpu.hook_view();
    let ghost want = scanned(m, h, start, MAX_BLOCK_INSNS as nat);
    let mut insns: Vec<Instr> = Vec::new();
    let mut rip: u64 = start;
    let mut bytes_len: u32 = 0;
    let mut term: Option<BlockTerm> = None;
    let mut left: usize = MAX_BLOCK_INSNS;
    let mut open: bool = true;
    let ghost mut bytes: nat = 0;
    while left > 0 && open
        invariant
            cpu.wf(),
            m == cpu.machine().mem,
            h == cpu.hook_view(),
            left <= MAX_BLOCK_INSNS,
            forall|k: int| 0 <= k < insns@.len() ==> (#[trigger] insns@[k]).wf(),
            open ==> term is None && want == joined(insns@, bytes, scanned(m, h, rip, left as nat)),
            !open ==> want == (Scan { insns: insns@, end_rip: rip, bytes_len: bytes, term }),
            bytes <= u32::MAX ==> bytes_len == bytes,
            bytes > u32::MAX ==> bytes_len == u32::MAX,
        decreases left, (if open { 1int } else { 0int }),
    {
        let stop: bool = match cpu.hooks_ref() {
            Some(w) => w.should_host_stop(rip),
            None => false,
        };
        let mut buf: Vec<u8> = vec![0u8; DECODE_WINDOW];
        proof {
            lemma_mapped_run(m, rip as int, DECODE_WINDOW as nat);
        }
        let read = cpu.mem_read_into(rip, buf.as_mut_slice());
        if stop || read.is_err() {
            open = false;
            assert(insns@ + Seq::<Instr>::empty() =~= insns@);
            continue;
        }
        assert(buf@ =~= load(m, rip as int, DECODE_WINDOW as nat));
        let i: Instr = match decode(buf.as_slice(), rip) {
            Some(i) => i,
            None => {
                open = false;
                assert(insns@ + Seq::<Instr>::empty() =~= insns@);
                continue;
            },
        };
        assert(instr_at(m, h, rip) == Some(i));
        let len: u32 = if i.len <= 0xffff_ffff {
            i.len as u32
        } else {
            0xffff_ffff
        };
        let ended = classify_terminator(&i);
        let string: bool = is_string_op(&i);
        if ended.is_none() && !string && !is_lowerable(&i) {
            open = false;
            assert(insns@ + Seq::<Instr>::empty() =~= insns@);
            continue;
        }
        let ghost before = insns@;
        insns.push(i);
        bytes_len = bytes_len.saturating_add(len);
        proof {
            bytes = bytes + i.len as nat;
            assert(before + seq![i] =~= insns@);
        }
        match ended {
            Some(t) => {
                term = Some(t);
                rip = match t {
                    BlockTerm::Jmp { target } => target,
                    BlockTerm::Call { target, return_ip: _ } => target,
                    BlockTerm::Jcc { mnemonic: _, taken: _, not_taken } => not_taken,
                    BlockTerm::Ret => i.next_ip,
                };
                open = false;
            },
            None => {
                rip = i.next_ip;
                if string {
                    open = false;
                } else {
                    proof {
                        let rest = scanned(m, h, i.next_ip, (left - 1) as nat);
                        assert(before + (seq![i] + rest.insns) =~= insns@ + rest.insns);
                    }
                    left = left - 1;
                }
            },
        }
    }
    assert(open ==> insns@ + Seq::<Instr>::empty() =~= insns@);
    assert(want == (Scan { insns: insns@, end_rip: rip, bytes_len: bytes, term }));
    let n: usize = insns.len();
    if n == 0 {
        return None;
    }
    if term.is_none() && n < MIN_FALLTHROUGH_INSNS && !is_string_op(&insns[n - 1]) {
        return None;
    }
    Some(Block { insns, end_rip: rip, bytes_len, term })
}

} // verus!
