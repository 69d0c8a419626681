//! The x86-64 register file and the arithmetic of its flags.

use vstd::prelude::*;

use crate::error::{error, CpuError};

verus! {

/// Carry.
pub const CF: u64 = 0x1;

/// Bit 1, which always reads one.
pub const ALWAYS1: u64 = 0x2;

/// Parity of the low result byte.
pub const PF: u64 = 0x4;

/// Carry out of bit 3.
pub const AF: u64 = 0x10;

/// Zero result.
pub const ZF: u64 = 0x40;

/// Sign of the result.
pub const SF: u64 = 0x80;

/// String direction.
pub const DF: u64 = 0x400;

/// Signed overflow.
pub const OF: u64 = 0x800;

/// Index of `RAX` in the register file.
pub const RAX: usize = 0;

/// Index of `RCX`.
pub const RCX: usize = 1;

/// Index of `RDX`.
pub const RDX: usize = 2;

/// Index of `RBX`.
pub const RBX: usize = 3;

/// Index of `RSP`.
pub const RSP: usize = 4;

/// Index of `RBP`.
pub const RBP: usize = 5;

/// Index of `RSI`.
pub const RSI: usize = 6;

/// Index of `RDI`.
pub const RDI: usize = 7;

/// Index of `R8`.
pub const R8: usize = 8;

/// Index of `R9`.
pub const R9: usize = 9;

/// Index of `R12`.
pub const R12: usize = 12;

/// Index of `R13`.
pub const R13: usize = 13;

/// Index of `R14`.
pub const R14: usize = 14;

/// Index of `R15`.
pub const R15: usize = 15;

/// A register that an instruction names.
#[derive(Debug, Clone, Copy, PartialEq, Eq, Structural)]
pub enum Reg {
    /// No register.
    Absent,
    /// The low byte of a general register (`AL`, `SIL`, `R8L`).
    Low8(u8),
    /// The second byte of one of the first four general registers (`AH`).
    High8(u8),
    /// The low word of a general register (`AX`).
    Word(u8),
    /// The low half of a general register (`EAX`).
    Dword(u8),
    /// A general register (`RAX`).
    Qword(u8),
    /// `EIP`.
    Eip,
    /// `RIP`.
    Rip,
    /// A 128-bit vector register.
    Xmm(u8),
    /// Any other register, by its decoder code and its size in bytes.
    Other(u8, u16),
}

impl Reg {
    /// The register number is one that exists.
    pub open spec fn wf(self) -> bool {
        match self {
            Reg::Low8(i) => i < 16,
            Reg::High8(i) => i < 4,
            Reg::Word(i) => i < 16,
            Reg::Dword(i) => i < 16,
            Reg::Qword(i) => i < 16,
            Reg::Xmm(i) => i < 32,
            _ => true,
        }
    }

    /// The size of the register in bytes.
    pub open spec fn bytes(self) -> int {
        match self {
            Reg::Absent => 0,
            Reg::Low8(_) => 1,
            Reg::High8(_) => 1,
            Reg::Word(_) => 2,
            Reg::Dword(_) => 4,
            Reg::Qword(_) => 8,
            Reg::Eip => 4,
            Reg::Rip => 8,
            Reg::Xmm(_) => 16,
            Reg::Other(_, size) => size as int,
        }
    }

    /// The general register that the register is a part of.
    pub open spec fn gpr_index(self) -> Option<int> {
        match self {
            Reg::Low8(i) => Some(i as int),
            Reg::High8(i) => Some(i as int),
            Reg::Word(i) => Some(i as int),
            Reg::Dword(i) => Some(i as int),
            Reg::Qword(i) => Some(i as int),
            _ => None,
        }
    }

    /// The size of the register in bytes.
    pub fn size(self) -> (n: usize)
        ensures
            n == self.bytes(),
    {
        match self {
            Reg::Absent => 0,
            Reg::Low8(_) => 1,
            Reg::High8(_) => 1,
            Reg::Word(_) => 2,
            Reg::Dword(_) => 4,
            Reg::Qword(_) => 8,
            Reg::Eip => 4,
            Reg::Rip => 8,
            Reg::Xmm(_) => 16,
            Reg::Other(_, size) => size as usize,
        }
    }

    /// Whether the register is a 128-bit vector register.
    pub fn is_xmm(self) -> (r: bool)
        ensures
            r == (self is Xmm),
    {
        matches!(self, Reg::Xmm(_))
    }

    /// The general register that the register is a part of.
    pub fn index(self) -> (r: Option<usize>)
        ensures
            match r {
                Some(i) => self.gpr_index() == Some(i as int),
                None => self.gpr_index() is None,
            },
    {
        match self {
            Reg::Low8(i) => Some(i as usize),
            Reg::High8(i) => Some(i as usize),
            Reg::Word(i) => Some(i as usize),
            Reg::Dword(i) => Some(i as usize),
            Reg::Qword(i) => Some(i as usize),
            _ => None,
        }
    }
}

/// How many values an operand of `size` bytes can have. Sizes other than 1, 2
/// and 4 count as 8.
pub open spec fn modulus(size: int) -> int {
    if size == 1 {
        0x100
    } else if size == 2 {
        0x1_0000
    } else if size == 4 {
        0x1_0000_0000
    } else {
        0x1_0000_0000_0000_0000
    }
}

/// `x` cut down to `size` bytes.
pub open spec fn trunc(x: int, size: int) -> int {
    x % modulus(size)
}

/// The signed reading of the low `size` bytes of `x`.
pub open spec fn signed(x: int, size: int) -> int {
    let t = trunc(x, size);
    if 2 * t >= modulus(size) {
        t - modulus(size)
    } else {
        t
    }
}

/// All ones in the low `size` bytes.
pub fn size_mask(size: usize) -> (mask: u64)
    ensures
        mask == modulus(size as int) - 1,
{
    match size {
        1 => 0xff,
        2 => 0xffff,
        4 => 0xffff_ffff,
        _ => 0xffff_ffff_ffff_ffff,
    }
}

/// `x` cut down to `size` bytes.
pub fn truncate(x: u64, size: usize) -> (r: u64)
    ensures
        r == trunc(x as int, size as int),
        r < modulus(size as int),
{
    match size {
        1 => x % 0x100,
        2 => x % 0x1_0000,
        4 => x % 0x1_0000_0000,
        _ => x,
    }
}

/// The bit `mask` of `rflags`.
pub open spec fn flag_of(rflags: u64, mask: u64) -> bool {
    rflags & mask != 0
}

/// `rflags` with the bit `mask` set or cleared.
pub open spec fn with_flag(rflags: u64, mask: u64, on: bool) -> u64 {
    if on {
        rflags | mask
    } else {
        rflags & !mask
    }
}

/// The six flags that arithmetic sets.
pub struct AluFlags {
    /// Carry.
    pub cf: bool,
    /// Parity.
    pub pf: bool,
    /// Carry out of bit 3.
    pub af: bool,
    /// Zero.
    pub zf: bool,
    /// Sign.
    pub sf: bool,
    /// Signed overflow.
    pub of: bool,
}

/// Whether the low byte of `x` has an even number of ones.
pub open spec fn even_parity(x: int) -> bool {
    (x % 2 + (x / 2) % 2 + (x / 4) % 2 + (x / 8) % 2 + (x / 16) % 2 + (x / 32) % 2 + (x / 64) % 2
        + (x / 128) % 2) % 2 == 0
}

/// `rflags` with all six arithmetic flags replaced.
pub open spec fn with_alu_flags(rflags: u64, f: AluFlags) -> u64 {
    with_flag(
        with_flag(
            with_flag(with_flag(with_flag(with_flag(rflags, CF, f.cf), PF, f.pf), AF, f.af), ZF, f.zf),
            SF,
            f.sf,
        ),
        OF,
        f.of,
    )
}

/// The flags of `d + s` at `size` bytes, for operands of that size.
pub open spec fn add_flags(d: int, s: int, size: int) -> AluFlags {
    let r = trunc(d + s, size);
    AluFlags {
        cf: d + s >= modulus(size),
        pf: even_parity(r),
        af: d % 16 + s % 16 >= 16,
        zf: r == 0,
        sf: 2 * r >= modulus(size),
        of: signed(d, size) + signed(s, size) != signed(r, size),
    }
}

/// The flags of `d - s` at `size` bytes, for operands of that size.
pub open spec fn sub_flags(d: int, s: int, size: int) -> AluFlags {
    let r = trunc(d - s, size);
    AluFlags {
        cf: d < s,
        pf: even_parity(r),
        af: d % 16 < s % 16,
        zf: r == 0,
        sf: 2 * r >= modulus(size),
        of: signed(d, size) - signed(s, size) != signed(r, size),
    }
}

/// `rflags` after a bitwise operation with the result `r`: the carry and overflow
/// flags are clear, the adjust flag stays.
pub open spec fn with_logic_flags(rflags: u64, r: int, size: int) -> u64 {
    with_flag(
        with_flag(
            with_flag(
                with_flag(with_flag(rflags, CF, false), PF, even_parity(r)),
                ZF,
                r == 0,
            ),
            SF,
            2 * r >= modulus(size),
        ),
        OF,
        false,
    )
}

/// The registers as mathematical values.
#[verifier::ext_equal]
pub struct Regs {
    /// The sixteen general registers.
    pub gpr: Seq<u64>,
    /// The sixteen vector registers.
    pub xmm: Seq<u128>,
    /// Instruction pointer.
    pub rip: u64,
    /// Flags.
    pub rflags: u64,
}

impl Regs {
    /// With the general register `i` replaced.
    pub open spec fn set(self, i: int, v: u64) -> Regs {
        Regs { gpr: self.gpr.update(i, v), ..self }
    }

    /// With the instruction pointer replaced.
    pub open spec fn at(self, rip: u64) -> Regs {
        Regs { rip, ..self }
    }

    /// With the flags replaced.
    pub open spec fn flags(self, rflags: u64) -> Regs {
        Regs { rflags, ..self }
    }

    /// With one flag set or cleared.
    pub open spec fn flag_set(self, mask: u64, on: bool) -> Regs {
        Regs { rflags: with_flag(self.rflags, mask, on), ..self }
    }

    /// Whether a flag is set.
    pub open spec fn flag(self, mask: u64) -> bool {
        flag_of(self.rflags, mask)
    }

    /// The value of a register that is part of a general register.
    pub open spec fn reg(self, reg: Reg) -> Option<u64> {
        match reg {
            Reg::Low8(i) => Some((self.gpr[i as int] % 0x100) as u64),
            Reg::High8(i) => Some(((self.gpr[i as int] / 0x100) % 0x100) as u64),
            Reg::Word(i) => Some((self.gpr[i as int] % 0x1_0000) as u64),
            Reg::Dword(i) => Some((self.gpr[i as int] % 0x1_0000_0000) as u64),
            Reg::Qword(i) => Some(self.gpr[i as int]),
            _ => None,
        }
    }

    /// With a register that is part of a general register replaced: a byte or a
    /// word is merged into the old value, a double word is zero-extended.
    pub open spec fn set_reg(self, reg: Reg, v: u64) -> Option<Regs> {
        match reg {
            Reg::Low8(i) => {
                let old = self.gpr[i as int];
                Some(self.set(i as int, (old - old % 0x100 + v % 0x100) as u64))
            },
            Reg::High8(i) => {
                let old = self.gpr[i as int];
                Some(
                    self.set(
                        i as int,
                        (old - old % 0x1_0000 + (v % 0x100) * 0x100 + old % 0x100) as u64,
                    ),
                )
            },
            Reg::Word(i) => {
                let old = self.gpr[i as int];
                Some(self.set(i as int, (old - old % 0x1_0000 + v % 0x1_0000) as u64))
            },
            Reg::Dword(i) => Some(self.set(i as int, (v % 0x1_0000_0000) as u64)),
            Reg::Qword(i) => Some(self.set(i as int, v)),
            _ => None,
        }
    }

    /// The value of a vector register.
    pub open spec fn xmm_reg(self, reg: Reg) -> Option<u128> {
        match reg {
            Reg::Xmm(i) => if i < 16 {
                Some(self.xmm[i as int])
            } else {
                None
            },
            _ => None,
        }
    }

    /// With a vector register replaced.
    pub open spec fn set_xmm_reg(self, reg: Reg, v: u128) -> Option<Regs> {
        match reg {
            Reg::Xmm(i) => if i < 16 {
                Some(Regs { xmm: self.xmm.update(i as int, v), ..self })
            } else {
                None
            },
            _ => None,
        }
    }
}

/// The x86-64 register file.
#[derive(Debug, Clone, Copy)]
pub struct RegFile {
    /// The sixteen general registers.
    pub gpr: [u64; 16],
    /// The sixteen vector registers.
    pub xmm: [u128; 16],
    /// Instruction pointer.
    pub rip: u64,
    /// Flags.
    pub rflags: u64,
}

impl RegFile {
    /// The registers as mathematical values.
    pub open spec fn view(&self) -> Regs {
        Regs { gpr: self.gpr@, xmm: self.xmm@, rip: self.rip, rflags: self.rflags }
    }

    /// What holds of every register file.
    pub proof fn facts(&self)
        ensures
            self@.gpr.len() == 16,
            self@.xmm.len() == 16,
            self@.rip == self.rip,
            self@.rflags == self.rflags,
    {
    }

    /// All registers zero; the reserved flag bit reads one.
    #[must_use]
    pub fn new() -> (r: Self)
        ensures
            r@.gpr == Seq::new(16, |i: int| 0u64),
            r@.xmm == Seq::new(16, |i: int| 0u128),
            r@.rip == 0,
            r@.rflags == ALWAYS1,
    {
        let r = RegFile { gpr: [0u64; 16], xmm: [0u128; 16], rip: 0, rflags: ALWAYS1 };
        assert(r@.gpr =~= Seq::new(16, |i: int| 0u64));
        assert(r@.xmm =~= Seq::new(16, |i: int| 0u128));
        r
    }

    /// The general register `i`.
    #[must_use]
    pub fn gpr(&self, i: usize) -> (v: u64)
        requires
            i < 16,
        ensures
            v == self@.gpr[i as int],
    {
        self.gpr[i]
    }

    /// Replaces the general register `i`.
    pub fn set_gpr(&mut self, i: usize, v: u64)
        requires
            i < 16,
        ensures
            final(self)@ == old(self)@.set(i as int, v),
    {
        self.gpr[i] = v;
    }

    /// The vector register `i`.
    #[must_use]
    pub fn xmm(&self, i: usize) -> (v: u128)
        requires
            i < 16,
        ensures
            v == self@.xmm[i as int],
    {
        self.xmm[i]
    }

    /// Replaces the vector register `i`.
    pub fn set_xmm(&mut self, i: usize, v: u128)
        requires
            i < 16,
        ensures
            final(self)@ == (Regs { xmm: old(self)@.xmm.update(i as int, v), ..old(self)@ }),
    {
        self.xmm[i] = v;
    }

    /// Replaces the instruction pointer.
    pub fn set_rip(&mut self, rip: u64)
        ensures
            final(self)@ == old(self)@.at(rip),
    {
        self.rip = rip;
    }

    /// Replaces the flags.
    pub fn set_rflags(&mut self, rflags: u64)
        ensures
            final(self)@ == old(self)@.flags(rflags),
    {
        self.rflags = rflags;
    }

    /// The instruction pointer.
    #[must_use]
    pub fn rip(&self) -> (v: u64)
        ensures
            v == self@.rip,
    {
        self.rip
    }

    /// The flags.
    #[must_use]
    pub fn rflags(&self) -> (v: u64)
        ensures
            v == self@.rflags,
    {
        self.rflags
    }

    /// Whether a flag is set.
    #[must_use]
    pub fn flag(&self, mask: u64) -> (on: bool)
        ensures
            on == self@.flag(mask),
    {
        (self.rflags & mask) != 0
    }

    /// Sets or clears a flag.
    pub fn set_flag(&mut self, mask: u64, on: bool)
        ensures
            final(self)@ == old(self)@.flag_set(mask, on),
    {
        if on {
            self.rflags = self.rflags | mask;
        } else {
            self.rflags = self.rflags & !mask;
        }
    }

    /// Reads a register that is part of a general register.
    pub fn read_reg(&self, reg: Reg) -> (r: Result<u64, CpuError>)
        requires
            reg.wf(),
        ensures
            match self@.reg(reg) {
                Some(v) => r == Ok::<u64, CpuError>(v),
                None => r matches Err(e) && e.text() == "unsupported register"@,
            },
    {
        match reg {
            Reg::Low8(i) => Ok(self.gpr[i as usize] % 0x100),
            Reg::High8(i) => Ok((self.gpr[i as usize] / 0x100) % 0x100),
            Reg::Word(i) => Ok(self.gpr[i as usize] % 0x1_0000),
            Reg::Dword(i) => Ok(self.gpr[i as usize] % 0x1_0000_0000),
            Reg::Qword(i) => Ok(self.gpr[i as usize]),
            _ => Err(error("unsupported register")),
        }
    }

    /// Writes a register that is part of a general register: a byte or a word is
    /// merged into the old value, a double word is zero-extended.
    pub fn write_reg(&mut self, reg: Reg, v: u64) -> (r: Result<(), CpuError>)
        requires
            reg.wf(),
        ensures
            match old(self)@.set_reg(reg, v) {
                Some(after) => r is Ok && final(self)@ == after,
                None => (r matches Err(e) && e.text() == "unsupported register"@) && final(self)@
                    == old(self)@,
            },
    {
        match reg {
            Reg::Low8(i) => {
                let value: u64 = merge_low_byte(self.gpr[i as usize], v);
                self.set_gpr(i as usize, value);
                Ok(())
            },
            Reg::High8(i) => {
                let value: u64 = merge_high_byte(self.gpr[i as usize], v);
                self.set_gpr(i as usize, value);
                Ok(())
            },
            Reg::Word(i) => {
                let value: u64 = merge_word(self.gpr[i as usize], v);
                self.set_gpr(i as usize, value);
                Ok(())
            },
            Reg::Dword(i) => {
                self.set_gpr(i as usize, v % 0x1_0000_0000);
                Ok(())
            },
            Reg::Qword(i) => {
                self.set_gpr(i as usize, v);
                Ok(())
            },
            _ => Err(error("unsupported register")),
        }
    }

    /// Reads a vector register.
    pub fn read_xmm(&self, reg: Reg) -> (r: Result<u128, CpuError>)
        ensures
            match self@.xmm_reg(reg) {
                Some(v) => r == Ok::<u128, CpuError>(v),
                None => r matches Err(e) && e.text() == "unsupported xmm register"@,
            },
    {
        match reg {
            Reg::Xmm(i) if i < 16 => Ok(self.xmm[i as usize]),
            _ => Err(error("unsupported xmm register")),
        }
    }

    /// Writes a vector register.
    pub fn write_xmm(&mut self, reg: Reg, v: u128) -> (r: Result<(), CpuError>)
        ensures
            match old(self)@.set_xmm_reg(reg, v) {
                Some(after) => r is Ok && final(self)@ == after,
                None => (r matches Err(e) && e.text() == "unsupported xmm register"@) && final(self)@ == old(self)@,
            },
    {
        match reg {
            Reg::Xmm(i) => {
                if i < 16 {
                    self.set_xmm(i as usize, v);
                    Ok(())
                } else {
                    Err(error("unsupported xmm register"))
                }
            },
            _ => Err(error("unsupported xmm register")),
        }
    }
}

/// `before` with its low byte replaced by that of `v`.
pub fn merge_low_byte(before: u64, v: u64) -> (r: u64)
    ensures
        r == before - before % 0x100 + v % 0x100,
{
    before - before % 0x100 + v % 0x100
}

/// `before` with its second byte replaced by the low byte of `v`.
pub fn merge_high_byte(before: u64, v: u64) -> (r: u64)
    ensures
        r == before - before % 0x1_0000 + (v % 0x100) * 0x100 + before % 0x100,
{
    let high: u64 = before - before % 0x1_0000;
    assert(high <= 0xffff_ffff_ffff_0000);
    high + (v % 0x100) * 0x100 + before % 0x100
}

/// `before` with its low word replaced by that of `v`.
pub fn merge_word(before: u64, v: u64) -> (r: u64)
    ensures
        r == before - before % 0x1_0000 + v % 0x1_0000,
{
    before - before % 0x1_0000 + v % 0x1_0000
}

/// Whether the low byte of `x` has an even number of ones.
pub fn parity(x: u64) -> (even: bool)
    ensures
        even == even_parity(x as int),
{
    let ones: u64 = x % 2 + (x / 2) % 2 + (x / 4) % 2 + (x / 8) % 2 + (x / 16) % 2 + (x / 32) % 2
        + (x / 64) % 2 + (x / 128) % 2;
    ones % 2 == 0
}

/// Whether the sign bit of the low `size` bytes of `x` is set.
pub fn sign_set(x: u64, size: usize) -> (r: bool)
    ensures
        r == (2 * trunc(x as int, size as int) >= modulus(size as int)),
{
    match size {
        1 => x % 0x100 >= 0x80,
        2 => x % 0x1_0000 >= 0x8000,
        4 => x % 0x1_0000_0000 >= 0x8000_0000,
        _ => x >= 0x8000_0000_0000_0000,
    }
}

/// Sets all six flags for `d + s`, whose low `size` bytes are those of `result`.
pub fn set_add_flags(regs: &mut RegFile, d: u64, s: u64, result: u64, size: usize)
    requires
        d < modulus(size as int),
        s < modulus(size as int),
        trunc(result as int, size as int) == trunc(d + s, size as int),
    ensures
        final(regs)@ == old(regs)@.flags(
            with_alu_flags(old(regs)@.rflags, add_flags(d as int, s as int, size as int)),
        ),
{
    let r: u64 = truncate(result, size);
    let d_neg: bool = sign_set(d, size);
    let s_neg: bool = sign_set(s, size);
    let r_neg: bool = sign_set(r, size);
    proof {
        lemma_add_carry(d as int, s as int, size as int);
    }
    regs.set_flag(CF, r < d);
    regs.set_flag(PF, parity(r));
    regs.set_flag(AF, d % 16 + s % 16 >= 16);
    regs.set_flag(ZF, r == 0);
    regs.set_flag(SF, r_neg);
    regs.set_flag(OF, d_neg == s_neg && r_neg != d_neg);
}

/// Sets all six flags for `d - s`, whose low `size` bytes are those of `result`.
pub fn set_sub_flags(regs: &mut RegFile, d: u64, s: u64, result: u64, size: usize)
    requires
        d < modulus(size as int),
        s < modulus(size as int),
        trunc(result as int, size as int) == trunc(d - s, size as int),
    ensures
        final(regs)@ == old(regs)@.flags(
            with_alu_flags(old(regs)@.rflags, sub_flags(d as int, s as int, size as int)),
        ),
{
    let r: u64 = truncate(result, size);
    let d_neg: bool = sign_set(d, size);
    let s_neg: bool = sign_set(s, size);
    let r_neg: bool = sign_set(r, size);
    proof {
        lemma_sub_borrow(d as int, s as int, size as int);
    }
    regs.set_flag(CF, d < s);
    regs.set_flag(PF, parity(r));
    regs.set_flag(AF, d % 16 < s % 16);
    regs.set_flag(ZF, r == 0);
    regs.set_flag(SF, r_neg);
    regs.set_flag(OF, d_neg != s_neg && r_neg != d_neg);
}

/// Sets the flags of a bitwise operation with the result `result`.
pub fn set_logic_flags(regs: &mut RegFile, result: u64, size: usize)
    ensures
        final(regs)@ == old(regs)@.flags(
            with_logic_flags(
                old(regs)@.rflags,
                trunc(result as int, size as int),
                size as int,
            ),
        ),
{
    let r: u64 = truncate(result, size);
    regs.set_flag(CF, false);
    regs.set_flag(PF, parity(r));
    regs.set_flag(ZF, r == 0);
    regs.set_flag(SF, sign_set(r, size));
    regs.set_flag(OF, false);
}

/// How a sum of two operands wraps.
proof fn lemma_add_carry(d: int, s: int, size: int)
    requires
        0 <= d < modulus(size),
        0 <= s < modulus(size),
    ensures
        trunc(d + s, size) == if d + s >= modulus(size) {
            d + s - modulus(size)
        } else {
            d + s
        },
        trunc(trunc(d + s, size), size) == trunc(d + s, size),
        trunc(d, size) == d,
        trunc(s, size) == s,
{
}

/// How a difference of two operands wraps.
proof fn lemma_sub_borrow(d: int, s: int, size: int)
    requires
        0 <= d < modulus(size),
        0 <= s < modulus(size),
    ensures
        trunc(d - s, size) == if d < s {
            d - s + modulus(size)
        } else {
            d - s
        },
        trunc(trunc(d - s, size), size) == trunc(d - s, size),
        trunc(d, size) == d,
        trunc(s, size) == s,
{
}

/// Setting one flag reads back, and leaves every other bit alone.
pub proof fn flag_update_is_local(rflags: u64, mask: u64, on: bool, other: u64)
    by (bit_vector)
    requires
        mask & other == 0,
        mask != 0,
    ensures
        (if on {
            rflags | mask
        } else {
            rflags & !mask
        }) & other == rflags & other,
        ((if on {
            rflags | mask
        } else {
            rflags & !mask
        }) & mask != 0) == on,
{
}

} // verus!
