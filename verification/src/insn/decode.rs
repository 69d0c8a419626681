//! Instruction decoding by the `iced-x86` crate.
//!
//! The decoder's instruction stays behind this module: each function here hands
//! it bytes and an address and takes back plain numbers, and [`decode`] puts
//! those together as an [`Instr`].

use vstd::prelude::*;

use crate::insn::instr::{Instr, Operand};
use crate::regs::Reg;

verus! {

/// What the decoder says of an instruction as a whole.
#[derive(Debug, Clone, Copy)]
pub struct RawHead {
    /// Whether the bytes hold no instruction.
    pub invalid: bool,
    /// Length in bytes.
    pub len: usize,
    /// Address of the next instruction.
    pub next_ip: u64,
    /// Mnemonic code.
    pub mnemonic: u16,
    /// Encoding code.
    pub code: u16,
    /// Number of operands.
    pub op_count: u32,
    /// Target of a near branch; zero if the first operand is none.
    pub near_branch: u64,
    /// `rep` prefix.
    pub rep: bool,
    /// `repe` prefix.
    pub repe: bool,
    /// `repne` prefix.
    pub repne: bool,
}

/// What the decoder says of one operand.
#[derive(Debug, Clone, Copy)]
pub struct RawOperand {
    /// Operand kind code.
    pub kind: u8,
    /// Register code.
    pub reg: u8,
    /// Size of the register in bytes.
    pub reg_size: u16,
    /// Immediate, extended to 64 bits; zero if the operand is none.
    pub imm: u64,
}

/// What the decoder says of the memory operand.
#[derive(Debug, Clone, Copy)]
pub struct RawMemory {
    /// Base register code.
    pub base: u8,
    /// Size of the base register in bytes.
    pub base_size: u16,
    /// Index register code.
    pub index: u8,
    /// Size of the index register in bytes.
    pub index_size: u16,
    /// Factor of the index register.
    pub scale: u32,
    /// Displacement.
    pub disp: u64,
    /// Memory size code.
    pub size: u8,
}

/// The instruction-wide facts that `iced-x86` decodes from `bytes` at `ip` in
/// 64-bit mode.
pub uninterp spec fn iced_head(bytes: Seq<u8>, ip: u64) -> RawHead;

/// The facts of operand `op` that `iced-x86` decodes from `bytes` at `ip`.
pub uninterp spec fn iced_operand(bytes: Seq<u8>, ip: u64, op: u32) -> RawOperand;

/// The facts of the memory operand that `iced-x86` decodes from `bytes` at `ip`.
pub uninterp spec fn iced_memory(bytes: Seq<u8>, ip: u64) -> RawMemory;

/// `iced_x86::Decoder::decode` on `bytes` at `ip` in 64-bit mode with no options:
/// validity, length, next address, mnemonic, encoding, operand count, near branch
/// target and repeat prefixes of the instruction. The result is a function of the
/// bytes and the address and is claimed to be nothing more.
#[verifier::external_body]
fn decode_head(bytes: &[u8], ip: u64) -> (r: RawHead)
    ensures
        r == iced_head(bytes@, ip),
{
    let i = iced_x86::Decoder::with_ip(64, bytes, ip, iced_x86::DecoderOptions::NONE).decode();
    RawHead {
        invalid: i.is_invalid(),
        len: i.len(),
        next_ip: i.next_ip(),
        mnemonic: i.mnemonic() as u16,
        code: i.code() as u16,
        op_count: i.op_count(),
        near_branch: i.near_branch_target(),
        rep: i.has_rep_prefix(),
        repe: i.has_repe_prefix(),
        repne: i.has_repne_prefix(),
    }
}

/// `iced_x86::Decoder::decode` as in [`decode_head`], then kind, register,
/// register size and immediate of operand `op`. The result is a function of the
/// bytes, the address and the operand number.
#[verifier::external_body]
fn decode_operand(bytes: &[u8], ip: u64, op: u32) -> (r: RawOperand)
    requires
        op < 3,
    ensures
        r == iced_operand(bytes@, ip, op),
{
    let i = iced_x86::Decoder::with_ip(64, bytes, ip, iced_x86::DecoderOptions::NONE).decode();
    RawOperand {
        kind: i.op_kind(op) as u8,
        reg: i.op_register(op) as u8,
        reg_size: i.op_register(op).size() as u16,
        imm: i.try_immediate(op).unwrap_or(0),
    }
}

/// `iced_x86::Decoder::decode` as in [`decode_head`], then base, index, scale,
/// displacement and size of the memory operand. The result is a function of the
/// bytes and the address.
#[verifier::external_body]
fn decode_memory(bytes: &[u8], ip: u64) -> (r: RawMemory)
    ensures
        r == iced_memory(bytes@, ip),
{
    let i = iced_x86::Decoder::with_ip(64, bytes, ip, iced_x86::DecoderOptions::NONE).decode();
    RawMemory {
        base: i.memory_base() as u8,
        base_size: i.memory_base().size() as u16,
        index: i.memory_index() as u8,
        index_size: i.memory_index().size() as u16,
        scale: i.memory_index_scale(),
        disp: i.memory_displacement64(),
        size: i.memory_size() as u8,
    }
}

/// The register with the given decoder code. The codes count `AL` to `BL` from 1,
/// `AH` to `BH` from 5, `SPL` to `R15L` from 9, then sixteen words from 21,
/// sixteen double words from 37, sixteen quad words from 53, `EIP`, `RIP`, six
/// segment registers, and the vector registers from 77.
pub open spec fn reg_of(code: u8, size: u16) -> Reg {
    if code == 0 {
        Reg::Absent
    } else if code <= 4 {
        Reg::Low8((code - 1) as u8)
    } else if code <= 8 {
        Reg::High8((code - 5) as u8)
    } else if code <= 20 {
        Reg::Low8((code - 5) as u8)
    } else if code <= 36 {
        Reg::Word((code - 21) as u8)
    } else if code <= 52 {
        Reg::Dword((code - 37) as u8)
    } else if code <= 68 {
        Reg::Qword((code - 53) as u8)
    } else if code == 69 {
        Reg::Eip
    } else if code == 70 {
        Reg::Rip
    } else if 77 <= code <= 108 {
        Reg::Xmm((code - 77) as u8)
    } else {
        Reg::Other(code, size)
    }
}

/// The register with the given decoder code.
pub fn reg_from_code(code: u8, size: u16) -> (r: Reg)
    ensures
        r == reg_of(code, size),
        r.wf(),
{
    if code == 0 {
        Reg::Absent
    } else if code <= 4 {
        Reg::Low8(code - 1)
    } else if code <= 8 {
        Reg::High8(code - 5)
    } else if code <= 20 {
        Reg::Low8(code - 5)
    } else if code <= 36 {
        Reg::Word(code - 21)
    } else if code <= 52 {
        Reg::Dword(code - 37)
    } else if code <= 68 {
        Reg::Qword(code - 53)
    } else if code == 69 {
        Reg::Eip
    } else if code == 70 {
        Reg::Rip
    } else if 77 <= code && code <= 108 {
        Reg::Xmm(code - 77)
    } else {
        Reg::Other(code, size)
    }
}

/// An operand from what the decoder says of it.
pub open spec fn operand_of(raw: RawOperand) -> Operand {
    Operand { kind: raw.kind, reg: reg_of(raw.reg, raw.reg_size), imm: raw.imm }
}

/// An instruction at `ip` from what the decoder says of its parts.
pub open spec fn assembled(
    ip: u64,
    head: RawHead,
    op0: RawOperand,
    op1: RawOperand,
    op2: RawOperand,
    memory: RawMemory,
) -> Instr {
    Instr {
        ip,
        next_ip: head.next_ip,
        len: head.len,
        mnemonic: head.mnemonic,
        code: head.code,
        op_count: head.op_count,
        op0: operand_of(op0),
        op1: operand_of(op1),
        op2: operand_of(op2),
        near_branch: head.near_branch,
        rep: head.rep,
        repe: head.repe,
        repne: head.repne,
        base: reg_of(memory.base, memory.base_size),
        index: reg_of(memory.index, memory.index_size),
        scale: memory.scale,
        disp: memory.disp,
        mem_size: memory.size,
    }
}

/// An operand from what the decoder says of it.
pub fn assemble_operand(raw: RawOperand) -> (o: Operand)
    ensures
        o == operand_of(raw),
        o.reg.wf(),
{
    Operand { kind: raw.kind, reg: reg_from_code(raw.reg, raw.reg_size), imm: raw.imm }
}

/// An instruction at `ip` from what the decoder says of its parts.
pub fn assemble(
    ip: u64,
    head: RawHead,
    op0: RawOperand,
    op1: RawOperand,
    op2: RawOperand,
    memory: RawMemory,
) -> (i: Instr)
    ensures
        i == assembled(ip, head, op0, op1, op2, memory),
        i.wf(),
{
    Instr {
        ip,
        next_ip: head.next_ip,
        len: head.len,
        mnemonic: head.mnemonic,
        code: head.code,
        op_count: head.op_count,
        op0: assemble_operand(op0),
        op1: assemble_operand(op1),
        op2: assemble_operand(op2),
        near_branch: head.near_branch,
        rep: head.rep,
        repe: head.repe,
        repne: head.repne,
        base: reg_from_code(memory.base, memory.base_size),
        index: reg_from_code(memory.index, memory.index_size),
        scale: memory.scale,
        disp: memory.disp,
        mem_size: memory.size,
    }
}

/// The instruction that `bytes` hold at `ip`, if they hold one.
pub open spec fn decoded(bytes: Seq<u8>, ip: u64) -> Option<Instr> {
    let head = iced_head(bytes, ip);
    if head.invalid || head.len == 0 {
        None
    } else {
        Some(
            assembled(
                ip,
                head,
                iced_operand(bytes, ip, 0),
                iced_operand(bytes, ip, 1),
                iced_operand(bytes, ip, 2),
                iced_memory(bytes, ip),
            ),
        )
    }
}

/// Decodes the instruction that `bytes` hold at `ip`; `None` if they hold none.
pub fn decode(bytes: &[u8], ip: u64) -> (r: Option<Instr>)
    ensures
        r == decoded(bytes@, ip),
        r matches Some(i) ==> i.wf(),
{
    let head = decode_head(bytes, ip);
    if head.invalid || head.len == 0 {
        return None;
    }
    let op0 = decode_operand(bytes, ip, 0);
    let op1 = decode_operand(bytes, ip, 1);
    let op2 = decode_operand(bytes, ip, 2);
    let memory = decode_memory(bytes, ip);
    Some(assemble(ip, head, op0, op1, op2, memory))
}

/// The name that `iced-x86` prints for a mnemonic code.
pub uninterp spec fn iced_mnemonic_name(code: u16) -> Seq<char>;

/// The name that `iced-x86` prints for an operand kind code.
pub uninterp spec fn iced_op_kind_name(code: u8) -> Seq<char>;

/// The name that `iced-x86` prints for a memory size code.
pub uninterp spec fn iced_memory_size_name(code: u8) -> Seq<char>;

/// `iced_x86::Mnemonic`'s `Debug` text for a code: a function of the code.
#[verifier::external_body]
pub(crate) fn mnemonic_name(code: u16) -> (s: String)
    ensures
        s@ == iced_mnemonic_name(code),
{
    match iced_x86::Mnemonic::try_from(code as usize) {
        Ok(m) => format!("{m:?}"),
        Err(e) => format!("{e:?}"),
    }
}

/// `iced_x86::OpKind`'s `Debug` text for a code: a function of the code.
#[verifier::external_body]
pub(crate) fn op_kind_name(code: u8) -> (s: String)
    ensures
        s@ == iced_op_kind_name(code),
{
    match iced_x86::OpKind::try_from(code as usize) {
        Ok(k) => format!("{k:?}"),
        Err(e) => format!("{e:?}"),
    }
}

/// `iced_x86::MemorySize`'s `Debug` text for a code: a function of the code.
#[verifier::external_body]
pub(crate) fn memory_size_name(code: u8) -> (s: String)
    ensures
        s@ == iced_memory_size_name(code),
{
    match iced_x86::MemorySize::try_from(code as usize) {
        Ok(m) => format!("{m:?}"),
        Err(e) => format!("{e:?}"),
    }
}

} // verus!
