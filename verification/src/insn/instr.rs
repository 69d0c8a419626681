//! The instruction type that the interpreter and the block compiler work on.

use vstd::prelude::*;

use crate::regs::Reg;

verus! {

/// One operand.
#[derive(Debug, Clone, Copy)]
pub struct Operand {
    /// What the operand is, see [`crate::insn::kind`].
    pub kind: u8,
    /// The register of a register operand.
    pub reg: Reg,
    /// The value of an immediate operand, extended to 64 bits.
    pub imm: u64,
}

/// A decoded instruction.
#[derive(Debug, Clone, Copy)]
pub struct Instr {
    /// Address of the instruction.
    pub ip: u64,
    /// Address of the next instruction.
    pub next_ip: u64,
    /// Length in bytes.
    pub len: usize,
    /// What the instruction does, see [`crate::insn::mnemonic`].
    pub mnemonic: u16,
    /// The decoder's code of the encoding.
    pub code: u16,
    /// Number of operands.
    pub op_count: u32,
    /// First operand.
    pub op0: Operand,
    /// Second operand.
    pub op1: Operand,
    /// Third operand.
    pub op2: Operand,
    /// Target of a near branch.
    pub near_branch: u64,
    /// `rep` prefix.
    pub rep: bool,
    /// `repe` prefix.
    pub repe: bool,
    /// `repne` prefix.
    pub repne: bool,
    /// Base register of the memory operand.
    pub base: Reg,
    /// Index register of the memory operand.
    pub index: Reg,
    /// Factor of the index register.
    pub scale: u32,
    /// Displacement; the whole address if the base is `RIP` or `EIP`.
    pub disp: u64,
    /// Size of the memory operand, see [`crate::insn::kind`].
    pub mem_size: u8,
}

impl Instr {
    /// Every register that the instruction names exists.
    pub open spec fn wf(self) -> bool {
        &&& self.op0.reg.wf()
        &&& self.op1.reg.wf()
        &&& self.op2.reg.wf()
        &&& self.base.wf()
        &&& self.index.wf()
    }

    /// The operand `i` (0 to 2).
    pub open spec fn operand(self, i: int) -> Operand {
        if i == 0 {
            self.op0
        } else if i == 1 {
            self.op1
        } else {
            self.op2
        }
    }

    /// The operand `i` (0 to 2).
    pub fn op(&self, i: u32) -> (o: Operand)
        requires
            i < 3,
        ensures
            o == self.operand(i as int),
    {
        match i {
            0 => self.op0,
            1 => self.op1,
            _ => self.op2,
        }
    }

    /// Whether any string repeat prefix is there.
    pub open spec fn repeats(self) -> bool {
        self.rep || self.repe || self.repne
    }

    /// Whether any string repeat prefix is there.
    pub fn has_any_rep(&self) -> (r: bool)
        ensures
            r == self.repeats(),
    {
        self.rep || self.repe || self.repne
    }
}

} // verus!
