//! Multiplication and division.

use vstd::prelude::*;
use vstd::string::StringExecFns;

use crate::error::{error, CpuError};
use crate::exec::alu::lemma_trunc_narrow;
use crate::exec::model::{machine, reaches, same_layout, Fault, Machine, Next, StepExecError};
use crate::exec::operand::{
    after_operand, op_size_bytes, operand_bytes, operand_value, read_op, write_op,
};
use crate::insn::instr::Instr;
use crate::mem::guest::GuestMemory;
use crate::regs::{modulus, sign_set, signed, trunc, truncate, Reg, RegFile, Regs, CF, OF, RAX, RDX};
use crate::text;

verus! {

/// The registers after a double-width product of operands of `size` bytes: the
/// low half goes to the accumulator and the high half to the data register; for
/// bytes the whole product goes to `AX`.
pub open spec fn with_product(regs: Regs, product: int, size: int) -> Regs {
    if size == 1 {
        regs.set_reg(Reg::Word(0), trunc(product, 2) as u64)->0
    } else if size == 2 {
        regs.set_reg(Reg::Word(0), trunc(product, 2) as u64)->0.set_reg(
            Reg::Word(2),
            trunc(product / 0x1_0000, 2) as u64,
        )->0
    } else if size == 4 {
        regs.set_reg(Reg::Dword(0), trunc(product, 4) as u64)->0.set_reg(
            Reg::Dword(2),
            trunc(product / 0x1_0000_0000, 4) as u64,
        )->0
    } else {
        regs.set(RAX as int, trunc(product, 8) as u64).set(
            RDX as int,
            trunc(product / 0x1_0000_0000_0000_0000, 8) as u64,
        )
    }
}

/// The registers with the carry and overflow flags both set to `on`.
pub open spec fn with_carry_overflow(regs: Regs, on: bool) -> Regs {
    regs.flag_set(CF, on).flag_set(OF, on)
}

/// A signed product that does not fit its operands' size.
pub open spec fn signed_overflow(product: int, size: int) -> bool {
    2 * product < -modulus(size) || 2 * product >= modulus(size)
}

/// `mul`: the carry and overflow flags say that the high half is not zero.
pub open spec fn after_mul(s: Machine, i: Instr) -> Next {
    match operand_bytes(i, 0) {
        Err(f) => s.failed(f),
        Ok(size) => match operand_value(s, i, 0) {
            Err(f) => s.failed(f),
            Ok(v) => {
                let product = trunc(s.regs.gpr[RAX as int] as int, size) * trunc(v as int, size);
                s.with_regs(
                    with_carry_overflow(
                        with_product(s.regs, product, size),
                        product >= modulus(size),
                    ),
                ).done()
            },
        },
    }
}

/// `imul` in its forms with one, two and three operands. The carry and overflow
/// flags say that the product does not fit the operand size.
pub open spec fn after_imul(s: Machine, i: Instr) -> Next {
    if i.op_count == 1 {
        match operand_bytes(i, 0) {
            Err(f) => s.failed(f),
            Ok(size) => match operand_value(s, i, 0) {
                Err(f) => s.failed(f),
                Ok(v) => {
                    let product = signed(s.regs.gpr[RAX as int] as int, size) * signed(
                        v as int,
                        size,
                    );
                    s.with_regs(
                        with_carry_overflow(
                            with_product(s.regs, product, size),
                            signed_overflow(product, size),
                        ),
                    ).done()
                },
            },
        }
    } else if i.op_count == 2 {
        after_imul_pair(s, i, 0, 1)
    } else if i.op_count == 3 {
        after_imul_pair(s, i, 1, 2)
    } else {
        s.failed(Fault::Cpu("imul with "@ + text::dec(i.op_count as nat) + " operands"@))
    }
}

/// The forms of `imul` that multiply operands `a` and `b` into the first operand.
pub open spec fn after_imul_pair(s: Machine, i: Instr, a: int, b: int) -> Next {
    match operand_bytes(i, 0) {
        Err(f) => s.failed(f),
        Ok(size) => match operand_value(s, i, a) {
            Err(f) => s.failed(f),
            Ok(x) => match operand_value(s, i, b) {
                Err(f) => s.failed(f),
                Ok(y) => {
                    let product = signed(x as int, size) * signed(y as int, size);
                    match after_operand(s, i, 0, trunc(product, size) as u64) {
                        (t, Some(f)) => t.failed(f),
                        (t, None) => t.with_regs(
                            with_carry_overflow(t.regs, signed_overflow(product, size)),
                        ).done(),
                    }
                },
            },
        },
    }
}

/// Division that rounds toward zero.
pub open spec fn quotient(n: int, d: int) -> int {
    if (n < 0) == (d < 0) {
        abs(n) / abs(d)
    } else {
        -(abs(n) / abs(d))
    }
}

/// The remainder that goes with [`quotient`]; it has the sign of `n`.
pub open spec fn remainder(n: int, d: int) -> int {
    if n < 0 {
        -(abs(n) % abs(d))
    } else {
        abs(n) % abs(d)
    }
}

/// The absolute value.
pub open spec fn abs(x: int) -> int {
    if x < 0 {
        -x
    } else {
        x
    }
}

/// The double-width dividend for operands of `size` bytes, unsigned.
pub open spec fn dividend(regs: Regs, size: int) -> int {
    if size == 1 {
        regs.gpr[RAX as int] as int % 0x1_0000
    } else {
        trunc(regs.gpr[RDX as int] as int, size) * modulus(size) + trunc(
            regs.gpr[RAX as int] as int,
            size,
        )
    }
}

/// The signed reading of a double-width number.
pub open spec fn signed_wide(n: int, size: int) -> int {
    if 2 * n >= modulus(size) * modulus(size) {
        n - modulus(size) * modulus(size)
    } else {
        n
    }
}

/// The registers after a division: the quotient goes to the accumulator and the
/// remainder to the data register; for bytes to `AL` and `AH`.
pub open spec fn with_division(regs: Regs, q: int, r: int, size: int) -> Regs {
    if size == 1 {
        regs.set_reg(Reg::Word(0), (trunc(r, 1) * 0x100 + trunc(q, 1)) as u64)->0
    } else if size == 2 {
        regs.set_reg(Reg::Word(0), trunc(q, 2) as u64)->0.set_reg(
            Reg::Word(2),
            trunc(r, 2) as u64,
        )->0
    } else if size == 4 {
        regs.set_reg(Reg::Dword(0), trunc(q, 4) as u64)->0.set_reg(
            Reg::Dword(2),
            trunc(r, 4) as u64,
        )->0
    } else {
        regs.set(RAX as int, trunc(q, 8) as u64).set(RDX as int, trunc(r, 8) as u64)
    }
}

/// Whether a signed quotient is refused: one that does not fit the operand size,
/// or, for bytes, one that does not fit a word.
pub open spec fn quotient_refused(q: int, size: int) -> bool {
    if size == 1 {
        q > 0x7fff
    } else {
        2 * q < -modulus(size) || 2 * q >= modulus(size)
    }
}

/// `div` and `idiv`.
pub open spec fn after_div(s: Machine, i: Instr, sign: bool) -> Next {
    match operand_bytes(i, 0) {
        Err(f) => s.failed(f),
        Ok(size) => match operand_value(s, i, 0) {
            Err(f) => s.failed(f),
            Ok(v) => {
                let d = trunc(v as int, size);
                if d == 0 {
                    s.failed(
                        Fault::Cpu(
                            (if sign {
                                "idiv"@
                            } else {
                                "div"@
                            }) + " by zero at "@ + text::hex(i.ip as nat),
                        ),
                    )
                } else if sign {
                    let n = signed_wide(dividend(s.regs, size), size);
                    let q = quotient(n, signed(d, size));
                    let r = remainder(n, signed(d, size));
                    if quotient_refused(q, size) {
                        s.failed(Fault::Cpu("idiv overflow"@))
                    } else {
                        s.with_regs(with_division(s.regs, q, r, size)).done()
                    }
                } else {
                    let n = dividend(s.regs, size);
                    if n / d >= modulus(size) {
                        s.failed(Fault::Cpu("div overflow"@))
                    } else {
                        s.with_regs(with_division(s.regs, n / d, n % d, size)).done()
                    }
                }
            },
        },
    }
}

/// Two to the power of 128.
pub open spec fn wide_modulus() -> int {
    0x1_0000_0000_0000_0000_0000_0000_0000_0000int
}

/// The halves of a number that is known modulo `2^128`.
proof fn lemma_halves(product: int, total: int)
    requires
        -wide_modulus() <= product < wide_modulus(),
        0 <= total < wide_modulus(),
        total == product || total == product + wide_modulus(),
    ensures
        trunc(product, 1) == total % 0x100,
        trunc(product, 2) == total % 0x1_0000,
        trunc(product / 0x1_0000, 2) == (total / 0x1_0000) % 0x1_0000,
        trunc(product, 4) == total % 0x1_0000_0000,
        trunc(product / 0x1_0000_0000, 4) == (total / 0x1_0000_0000) % 0x1_0000_0000,
        trunc(product, 8) == total % 0x1_0000_0000_0000_0000,
        trunc(product / 0x1_0000_0000_0000_0000, 8) == total / 0x1_0000_0000_0000_0000,
{
    if total == product + wide_modulus() {
        lemma_minus_multiple(total, 0x100, 0x100_0000_0000_0000_0000_0000_0000_0000);
        lemma_minus_multiple(total, 0x1_0000, 0x1_0000_0000_0000_0000_0000_0000_0000);
        lemma_minus_multiple(
            total / 0x1_0000,
            0x1_0000,
            0x1_0000_0000_0000_0000_0000_0000,
        );
        lemma_minus_multiple(total, 0x1_0000_0000, 0x1_0000_0000_0000_0000_0000_0000);
        lemma_minus_multiple(total / 0x1_0000_0000, 0x1_0000_0000, 0x1_0000_0000_0000_0000);
        lemma_minus_multiple(total, 0x1_0000_0000_0000_0000, 0x1_0000_0000_0000_0000);
        lemma_minus_multiple(total / 0x1_0000_0000_0000_0000, 0x1_0000_0000_0000_0000, 1);
    }
    assert(0 <= total / 0x1_0000_0000_0000_0000 < 0x1_0000_0000_0000_0000);
}

/// Taking away a multiple of `m` keeps the remainder and lowers the quotient.
proof fn lemma_minus_multiple(x: int, m: int, k: int)
    requires
        m > 0,
    ensures
        (x - m * k) % m == x % m,
        (x - m * k) / m == x / m - k,
{
    vstd::arithmetic::div_mod::lemma_mod_multiples_vanish(-k, x, m);
    vstd::arithmetic::div_mod::lemma_hoist_over_denominator(x, -k, m as nat);
    assert(m * (-k) == -(m * k) && (-k) * m == -(m * k)) by (nonlinear_arith);
}

/// Writes a double-width product, given modulo `2^128`.
fn write_product(regs: &mut RegFile, total: u128, size: usize, Ghost(product): Ghost<int>)
    requires
        -wide_modulus() <= product < wide_modulus(),
        total == product || total == product + wide_modulus(),
    ensures
        final(regs)@ == with_product(old(regs)@, product, size as int),
{
    proof {
        lemma_halves(product, total as int);
    }
    match size {
        1 => {
            let _ = regs.write_reg(Reg::Word(0), (total % 0x1_0000) as u64);
        },
        2 => {
            let _ = regs.write_reg(Reg::Word(0), (total % 0x1_0000) as u64);
            let _ = regs.write_reg(Reg::Word(2), ((total / 0x1_0000) % 0x1_0000) as u64);
        },
        4 => {
            let _ = regs.write_reg(Reg::Dword(0), (total % 0x1_0000_0000) as u64);
            let _ = regs.write_reg(Reg::Dword(2), ((total / 0x1_0000_0000) % 0x1_0000_0000) as u64);
        },
        _ => {
            regs.set_gpr(RAX, (total % 0x1_0000_0000_0000_0000) as u64);
            regs.set_gpr(RDX, (total / 0x1_0000_0000_0000_0000) as u64);
        },
    }
}

/// A number as a sign and a magnitude.
struct Signed {
    negative: bool,
    magnitude: u64,
}

impl Signed {
    spec fn value(self) -> int {
        if self.negative {
            -(self.magnitude as int)
        } else {
            self.magnitude as int
        }
    }
}

/// The signed reading of the low `size` bytes of `x`.
fn split_sign(x: u64, size: usize) -> (r: Signed)
    ensures
        r.value() == signed(x as int, size as int),
        r.magnitude <= 0x8000_0000_0000_0000,
        2 * r.magnitude <= modulus(size as int),
        r.negative ==> r.magnitude > 0,
{
    let t: u64 = truncate(x, size);
    if sign_set(x, size) {
        let magnitude: u64 = match size {
            1 => 0x100 - t,
            2 => 0x1_0000 - t,
            4 => 0x1_0000_0000 - t,
            _ => 0xffff_ffff_ffff_ffff - t + 1,
        };
        Signed { negative: true, magnitude }
    } else {
        Signed { negative: false, magnitude: t }
    }
}

/// A signed product: its sign, its magnitude, and itself modulo `2^128`.
struct Product {
    negative: bool,
    magnitude: u128,
    total: u128,
}

impl Product {
    spec fn value(self) -> int {
        if self.negative {
            -(self.magnitude as int)
        } else {
            self.magnitude as int
        }
    }

    spec fn wf(self) -> bool {
        &&& self.magnitude <= 0x4000_0000_0000_0000_0000_0000_0000_0000
        &&& self.negative ==> self.magnitude > 0
        &&& self.total == if self.negative {
            wide_modulus() - self.magnitude
        } else {
            self.magnitude as int
        }
    }

    /// Whether the product does not fit `size` bytes.
    fn overflows(&self, size: usize) -> (r: bool)
        requires
            self.wf(),
        ensures
            r == signed_overflow(self.value(), size as int),
    {
        let half: u128 = match size {
            1 => 0x80,
            2 => 0x8000,
            4 => 0x8000_0000,
            _ => 0x8000_0000_0000_0000,
        };
        if self.negative {
            self.magnitude > half
        } else {
            self.magnitude >= half
        }
    }
}

/// Multiplies the signed readings of two operands of `size` bytes.
fn signed_product(x: u64, y: u64, size: usize) -> (p: Product)
    ensures
        p.wf(),
        p.value() == signed(x as int, size as int) * signed(y as int, size as int),
{
    let a = split_sign(x, size);
    let b = split_sign(y, size);
    let ghost am = a.magnitude as int;
    let ghost bm = b.magnitude as int;
    assert(0 <= am * bm <= 0x4000_0000_0000_0000_0000_0000_0000_0000) by (nonlinear_arith)
        requires
            0 <= am <= 0x8000_0000_0000_0000,
            0 <= bm <= 0x8000_0000_0000_0000,
    ;
    let magnitude: u128 = a.magnitude as u128 * b.magnitude as u128;
    let negative: bool = a.negative != b.negative && magnitude > 0;
    let zero: u128 = 0;
    let total: u128 = if negative {
        zero.wrapping_sub(magnitude)
    } else {
        magnitude
    };
    proof {
        assert((-am) * bm == -(am * bm) && am * (-bm) == -(am * bm) && (-am) * (-bm) == am * bm)
            by (nonlinear_arith);
    }
    Product { negative, magnitude, total }
}

/// `mul`.
pub fn exec_mul(mem: &GuestMemory, regs: &mut RegFile, i: &Instr) -> (r: Result<(), StepExecError>)
    requires
        mem.wf(),
        i.wf(),
    ensures
        reaches(after_mul(machine(*mem, old(regs)@), *i), *mem, final(regs)@, r),
{
    let size: usize = match op_size_bytes(i, 0) {
        Ok(n) => n,
        Err(e) => {
            return Err(e);
        },
    };
    let src: u64 = match read_op(mem, regs, i, 0) {
        Ok(v) => truncate(v, size),
        Err(e) => {
            return Err(e);
        },
    };
    let a: u64 = truncate(regs.gpr(RAX), size);
    assert(0 <= a as int * src as int <= 0xffff_ffff_ffff_fffe_0000_0000_0000_0001)
        by (nonlinear_arith)
        requires
            0 <= a as int <= 0xffff_ffff_ffff_ffff,
            0 <= src as int <= 0xffff_ffff_ffff_ffff,
    ;
    let product: u128 = a as u128 * src as u128;
    write_product(regs, product, size, Ghost(product as int));
    let limit: u128 = match size {
        1 => 0x100,
        2 => 0x1_0000,
        4 => 0x1_0000_0000,
        _ => 0x1_0000_0000_0000_0000,
    };
    regs.set_flag(CF, product >= limit);
    regs.set_flag(OF, product >= limit);
    Ok(())
}

/// `imul`.
pub fn exec_imul(mem: &mut GuestMemory, regs: &mut RegFile, i: &Instr) -> (r: Result<
    (),
    StepExecError,
>)
    requires
        old(mem).wf(),
        i.wf(),
    ensures
        same_layout(*old(mem), *final(mem)),
        reaches(after_imul(machine(*old(mem), old(regs)@), *i), *final(mem), final(regs)@, r),
{
    match i.op_count {
        1 => {
            let size: usize = match op_size_bytes(i, 0) {
                Ok(n) => n,
                Err(e) => {
                    return Err(e);
                },
            };
            let src: u64 = match read_op(mem, regs, i, 0) {
                Ok(v) => v,
                Err(e) => {
                    return Err(e);
                },
            };
            let p = signed_product(regs.gpr(RAX), src, size);
            write_product(regs, p.total, size, Ghost(p.value()));
            let overflow: bool = p.overflows(size);
            regs.set_flag(CF, overflow);
            regs.set_flag(OF, overflow);
            Ok(())
        },
        2 => imul_pair(mem, regs, i, 0, 1),
        3 => imul_pair(mem, regs, i, 1, 2),
        n => {
            let mut m = text::with_dec("imul with ", n as u64);
            m.append(" operands");
            Err(StepExecError::Cpu(CpuError::Message(m)))
        },
    }
}

/// The forms of `imul` that write the first operand.
fn imul_pair(mem: &mut GuestMemory, regs: &mut RegFile, i: &Instr, a: u32, b: u32) -> (r: Result<
    (),
    StepExecError,
>)
    requires
        old(mem).wf(),
        i.wf(),
        a < 3,
        b < 3,
    ensures
        same_layout(*old(mem), *final(mem)),
        reaches(
            after_imul_pair(machine(*old(mem), old(regs)@), *i, a as int, b as int),
            *final(mem),
            final(regs)@,
            r,
        ),
{
    let size: usize = match op_size_bytes(i, 0) {
        Ok(n) => n,
        Err(e) => {
            return Err(e);
        },
    };
    let x: u64 = match read_op(mem, regs, i, a) {
        Ok(v) => v,
        Err(e) => {
            return Err(e);
        },
    };
    let y: u64 = match read_op(mem, regs, i, b) {
        Ok(v) => v,
        Err(e) => {
            return Err(e);
        },
    };
    let p = signed_product(x, y, size);
    proof {
        lemma_halves(p.value(), p.total as int);
        lemma_trunc_narrow(p.value(), size as int);
    }
    let low: u64 = truncate((p.total % 0x1_0000_0000_0000_0000) as u64, size);
    match write_op(mem, regs, i, 0, low) {
        Ok(()) => {
            let overflow: bool = p.overflows(size);
            regs.set_flag(CF, overflow);
            regs.set_flag(OF, overflow);
            Ok(())
        },
        Err(e) => Err(e),
    }
}

/// Reads the double-width dividend.
fn read_dividend(regs: &RegFile, size: usize) -> (n: u128)
    ensures
        n == dividend(regs@, size as int),
        n < modulus(size as int) * modulus(size as int),
{
    let lo: u64 = truncate(regs.gpr(RAX), size);
    let hi: u64 = truncate(regs.gpr(RDX), size);
    match size {
        1 => (regs.gpr(RAX) % 0x1_0000) as u128,
        2 => hi as u128 * 0x1_0000 + lo as u128,
        4 => hi as u128 * 0x1_0000_0000 + lo as u128,
        _ => hi as u128 * 0x1_0000_0000_0000_0000 + lo as u128,
    }
}

/// Writes quotient and remainder, each cut down to the operand size.
fn write_division(regs: &mut RegFile, q: u64, r: u64, size: usize, Ghost(quo): Ghost<int>, Ghost(
    rem,
): Ghost<int>)
    requires
        q == trunc(quo, size as int),
        r == trunc(rem, size as int),
    ensures
        final(regs)@ == with_division(old(regs)@, quo, rem, size as int),
{
    match size {
        1 => {
            let _ = regs.write_reg(Reg::Word(0), r * 0x100 + q);
        },
        2 => {
            let _ = regs.write_reg(Reg::Word(0), q);
            let _ = regs.write_reg(Reg::Word(2), r);
        },
        4 => {
            let _ = regs.write_reg(Reg::Dword(0), q);
            let _ = regs.write_reg(Reg::Dword(2), r);
        },
        _ => {
            regs.set_gpr(RAX, q);
            regs.set_gpr(RDX, r);
        },
    }
}

/// The low `size` bytes of `m` or of `-m`.
fn signed_low(m: u64, negative: bool, size: usize) -> (r: u64)
    ensures
        r == trunc(
            if negative {
                -(m as int)
            } else {
                m as int
            },
            size as int,
        ),
{
    if negative {
        proof {
            lemma_trunc_narrow(0 - m, size as int);
        }
        let zero: u64 = 0;
        truncate(zero.wrapping_sub(m), size)
    } else {
        truncate(m, size)
    }
}

/// `div` and `idiv`.
pub fn exec_div(mem: &GuestMemory, regs: &mut RegFile, i: &Instr, sign: bool) -> (r: Result<
    (),
    StepExecError,
>)
    requires
        mem.wf(),
        i.wf(),
    ensures
        reaches(after_div(machine(*mem, old(regs)@), *i, sign), *mem, final(regs)@, r),
{
    let size: usize = match op_size_bytes(i, 0) {
        Ok(n) => n,
        Err(e) => {
            return Err(e);
        },
    };
    let divisor: u64 = match read_op(mem, regs, i, 0) {
        Ok(v) => truncate(v, size),
        Err(e) => {
            return Err(e);
        },
    };
    if divisor == 0 {
        let mut m = if sign {
            "idiv".to_owned()
        } else {
            "div".to_owned()
        };
        m.append(" by zero at ");
        text::push_hex(&mut m, i.ip);
        return Err(StepExecError::Cpu(CpuError::Message(m)));
    }
    if sign {
        divide_signed(regs, divisor, size)
    } else {
        divide_unsigned(regs, divisor, size)
    }
}

/// The unsigned division of [`exec_div`].
fn divide_unsigned(regs: &mut RegFile, divisor: u64, size: usize) -> (r: Result<(), StepExecError>)
    requires
        0 < divisor < modulus(size as int),
    ensures
        ({
            let n = dividend(old(regs)@, size as int);
            let d = divisor as int;
            if n / d >= modulus(size as int) {
                &&& r matches Err(e) && e.fault() == Fault::Cpu("div overflow"@)
                &&& final(regs)@ == old(regs)@
            } else {
                &&& r is Ok
                &&& final(regs)@ == with_division(old(regs)@, n / d, n % d, size as int)
            }
        }),
{
    let n: u128 = read_dividend(regs, size);
    let q: u128 = n / divisor as u128;
    let rem: u128 = n % divisor as u128;
    let limit: u128 = match size {
        1 => 0x100,
        2 => 0x1_0000,
        4 => 0x1_0000_0000,
        _ => 0x1_0000_0000_0000_0000,
    };
    if q >= limit {
        return Err(StepExecError::Cpu(error("div overflow")));
    }
    assert(0 <= rem < divisor);
    write_division(regs, q as u64, rem as u64, size, Ghost(q as int), Ghost(rem as int));
    Ok(())
}

/// The signed division of [`exec_div`].
fn divide_signed(regs: &mut RegFile, divisor: u64, size: usize) -> (r: Result<(), StepExecError>)
    requires
        0 < divisor < modulus(size as int),
    ensures
        ({
            let n = signed_wide(dividend(old(regs)@, size as int), size as int);
            let d = signed(divisor as int, size as int);
            let q = quotient(n, d);
            if quotient_refused(q, size as int) {
                &&& r matches Err(e) && e.fault() == Fault::Cpu("idiv overflow"@)
                &&& final(regs)@ == old(regs)@
            } else {
                &&& r is Ok
                &&& final(regs)@ == with_division(old(regs)@, q, remainder(n, d), size as int)
            }
        }),
{
    let n: u128 = read_dividend(regs, size);
    let (negative, magnitude) = split_wide_sign(n, size);
    let d = split_sign(divisor, size);
    let ghost nv = signed_wide(n as int, size as int);
    let ghost dv = signed(divisor as int, size as int);
    assert(abs(nv) == magnitude && (nv < 0) == negative);
    assert(abs(dv) == d.magnitude && d.magnitude > 0 && (dv < 0) == d.negative);
    let q: u128 = magnitude / d.magnitude as u128;
    let rem: u128 = magnitude % d.magnitude as u128;
    let q_negative: bool = negative != d.negative;
    assert(quotient(nv, dv) == if q_negative {
        -(q as int)
    } else {
        q as int
    });
    assert(remainder(nv, dv) == if negative {
        -(rem as int)
    } else {
        rem as int
    });
    let refused: bool = match size {
        1 => !q_negative && q > 0x7fff,
        2 => if q_negative {
            q > 0x8000
        } else {
            q >= 0x8000
        },
        4 => if q_negative {
            q > 0x8000_0000
        } else {
            q >= 0x8000_0000
        },
        _ => if q_negative {
            q > 0x8000_0000_0000_0000
        } else {
            q >= 0x8000_0000_0000_0000
        },
    };
    if refused {
        return Err(StepExecError::Cpu(error("idiv overflow")));
    }
    proof {
        assert(q <= magnitude) by (nonlinear_arith)
            requires
                q == magnitude as int / d.magnitude as int,
                d.magnitude >= 1,
                magnitude >= 0,
        ;
    }
    let q_low: u64 = signed_low(q as u64, q_negative, size);
    let r_low: u64 = signed_low(rem as u64, negative, size);
    write_division(
        regs,
        q_low,
        r_low,
        size,
        Ghost(quotient(nv, dv)),
        Ghost(remainder(nv, dv)),
    );
    Ok(())
}

/// The signed reading of a double-width number, as a sign and a magnitude.
fn split_wide_sign(n: u128, size: usize) -> (r: (bool, u128))
    requires
        n < modulus(size as int) * modulus(size as int),
    ensures
        signed_wide(n as int, size as int) == if r.0 {
            -(r.1 as int)
        } else {
            r.1 as int
        },
        r.0 ==> r.1 > 0,
        2 * r.1 <= modulus(size as int) * modulus(size as int),
{
    match size {
        1 => if n >= 0x8000 {
            (true, 0x1_0000 - n)
        } else {
            (false, n)
        },
        2 => if n >= 0x8000_0000 {
            (true, 0x1_0000_0000 - n)
        } else {
            (false, n)
        },
        4 => if n >= 0x8000_0000_0000_0000 {
            (true, 0x1_0000_0000_0000_0000 - n)
        } else {
            (false, n)
        },
        _ => {
            if n >= 0x8000_0000_0000_0000_0000_0000_0000_0000 {
                (true, 0xffff_ffff_ffff_ffff_ffff_ffff_ffff_ffff - n + 1)
            } else {
                (false, n)
            }
        },
    }
}

/// Quotient and remainder put together again give the dividend.
pub proof fn division_identity(n: int, d: int)
    requires
        d != 0,
    ensures
        quotient(n, d) * d + remainder(n, d) == n,
        abs(remainder(n, d)) < abs(d),
{
    let a = abs(n);
    let b = abs(d);
    vstd::arithmetic::div_mod::lemma_fundamental_div_mod(a, b);
    let q = a / b;
    assert(q * b == b * q && (-q) * b == -(b * q) && q * (-b) == -(b * q) && (-q) * (-b) == b * q)
        by (nonlinear_arith);
}

} // verus!
