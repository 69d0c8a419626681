//! The code that a block is compiled to: operations on 64-bit values, loads and
//! stores that can trap, and what running them does.
//!
//! Every operation defines one value. Values are named by their number: the
//! first ones hold the registers at the entry of the block, operation `k`
//! defines the value `ENTRY_VALUES + k`.

use vstd::prelude::*;

use crate::exec::access::{loaded, stored};
use crate::exec::alu::sign_extended;
use crate::exec::shift::p2;
use crate::mem::model::Bytes;
use crate::regs::{signed, trunc, Regs};

verus! {

/// How many values are there at the entry: the sixteen general registers, the
/// flags, and the low and high halves of the sixteen vector registers.
pub const ENTRY_VALUES: usize = 49;

/// The value that holds the flags at the entry.
pub const ENTRY_FLAGS: usize = 16;

/// The first of the values that hold halves of vector registers at the entry.
pub const ENTRY_XMM: usize = 17;

/// Operations on one value.
#[derive(Debug, Clone, Copy, PartialEq, Eq, Structural)]
pub enum UnOp {
    /// Every bit flipped.
    Not,
    /// The low byte sign-extended.
    Sext8,
    /// The low word sign-extended.
    Sext16,
    /// The low half sign-extended.
    Sext32,
    /// The low half zero-extended.
    Zext32,
}

/// Operations on two values. Comparisons give 1 or 0. Shift counts are taken
/// modulo 64.
#[derive(Debug, Clone, Copy, PartialEq, Eq, Structural)]
pub enum BinOp {
    /// Sum, modulo `2^64`.
    Add,
    /// Difference, modulo `2^64`.
    Sub,
    /// Product, modulo `2^64`.
    Mul,
    /// The high half of the signed product.
    SmulHi,
    /// Remainder.
    Urem,
    /// Bitwise and.
    And,
    /// Bitwise or.
    Or,
    /// Bitwise exclusive or.
    Xor,
    /// Shift left.
    Shl,
    /// Shift right, zeros coming in.
    Ushr,
    /// Shift right, the sign coming in.
    Sshr,
    /// Equal.
    Equal,
    /// Different.
    Differ,
    /// Unsigned less.
    Below,
}

/// What an operation on one value gives.
pub open spec fn un_value(op: UnOp, a: u64) -> u64 {
    match op {
        UnOp::Not => (u64::MAX - a) as u64,
        UnOp::Sext8 => sign_extended(a as int, 1),
        UnOp::Sext16 => sign_extended(a as int, 2),
        UnOp::Sext32 => sign_extended(a as int, 4),
        UnOp::Zext32 => (a % 0x1_0000_0000) as u64,
    }
}

/// One for true, zero for false.
pub open spec fn truth(b: bool) -> u64 {
    if b {
        1
    } else {
        0
    }
}

/// What an operation on two values gives.
pub open spec fn bin_value(op: BinOp, a: u64, b: u64) -> u64 {
    match op {
        BinOp::Add => trunc(a + b, 8) as u64,
        BinOp::Sub => trunc(a - b, 8) as u64,
        BinOp::Mul => trunc(a * b, 8) as u64,
        BinOp::SmulHi => trunc(
            (signed(a as int, 8) * signed(b as int, 8)) / 0x1_0000_0000_0000_0000,
            8,
        ) as u64,
        BinOp::Urem => if b == 0 {
            0
        } else {
            (a % b) as u64
        },
        BinOp::And => a & b,
        BinOp::Or => a | b,
        BinOp::Xor => a ^ b,
        BinOp::Shl => trunc(a * p2(b as int % 64), 8) as u64,
        BinOp::Ushr => (a as int / p2(b as int % 64)) as u64,
        BinOp::Sshr => trunc(signed(a as int, 8) / p2(b as int % 64), 8) as u64,
        BinOp::Equal => truth(a == b),
        BinOp::Differ => truth(a != b),
        BinOp::Below => truth(a < b),
    }
}

/// An expression over values.
pub enum Expr {
    /// A constant.
    Const(u64),
    /// The value with the given number.
    Val(usize),
    /// An operation on one value.
    Un(UnOp, Box<Expr>),
    /// An operation on two values.
    Bin(BinOp, Box<Expr>, Box<Expr>),
    /// The second expression if the first is not zero, else the third.
    Select(Box<Expr>, Box<Expr>, Box<Expr>),
}

/// Which of the registers a block loads at its entry. It uses no others.
#[derive(Debug, Clone, Copy)]
pub struct Live {
    /// General registers.
    pub gpr: [bool; 16],
    /// Vector registers.
    pub xmm: [bool; 16],
    /// The flags.
    pub flags: bool,
}

impl Live {
    /// The value number `v` may be used: it is not that of a register that is not
    /// loaded.
    pub open spec fn allows(self, v: int) -> bool {
        if v < 16 {
            self.gpr@[v]
        } else if v == 16 {
            self.flags
        } else if v < 49 {
            self.xmm@[(v - 17) / 2]
        } else {
            true
        }
    }
}

impl Expr {
    /// What the expression gives.
    pub open spec fn eval(self, vals: Seq<u64>) -> u64
        decreases self,
    {
        match self {
            Expr::Const(c) => c,
            Expr::Val(v) => vals[v as int],
            Expr::Un(op, a) => un_value(op, a.eval(vals)),
            Expr::Bin(op, a, b) => bin_value(op, a.eval(vals), b.eval(vals)),
            Expr::Select(c, a, b) => if c.eval(vals) != 0 {
                a.eval(vals)
            } else {
                b.eval(vals)
            },
        }
    }

    /// The expression uses only values below `n` that may be used.
    pub open spec fn uses(self, n: int, live: Live) -> bool
        decreases self,
    {
        match self {
            Expr::Const(c) => true,
            Expr::Val(v) => v < n && live.allows(v as int),
            Expr::Un(op, a) => a.uses(n, live),
            Expr::Bin(op, a, b) => a.uses(n, live) && b.uses(n, live),
            Expr::Select(c, a, b) => c.uses(n, live) && a.uses(n, live) && b.uses(n, live),
        }
    }
}

/// A constant.
pub fn iconst(c: u64) -> (r: Expr)
    ensures
        forall|vals: Seq<u64>| #[trigger] r.eval(vals) == c,
        forall|n: int, l: Live| #[trigger] r.uses(n, l),
{
    Expr::Const(c)
}

/// The value with the given number.
pub fn value(v: usize) -> (r: Expr)
    ensures
        forall|vals: Seq<u64>| #[trigger] r.eval(vals) == vals[v as int],
        forall|n: int, l: Live| #[trigger] r.uses(n, l) == (v < n && l.allows(v as int)),
{
    Expr::Val(v)
}

/// An operation on one value.
pub fn un(op: UnOp, a: Expr) -> (r: Expr)
    ensures
        forall|vals: Seq<u64>| #[trigger] r.eval(vals) == un_value(op, a.eval(vals)),
        forall|n: int, l: Live| #[trigger] r.uses(n, l) == a.uses(n, l),
{
    Expr::Un(op, Box::new(a))
}

/// An operation on two values.
pub fn bin(op: BinOp, a: Expr, b: Expr) -> (r: Expr)
    ensures
        forall|vals: Seq<u64>|
            #[trigger] r.eval(vals) == bin_value(op, a.eval(vals), b.eval(vals)),
        forall|n: int, l: Live| #[trigger] r.uses(n, l) == (a.uses(n, l) && b.uses(n, l)),
{
    Expr::Bin(op, Box::new(a), Box::new(b))
}

/// The second expression if the first is not zero, else the third.
pub fn select(c: Expr, a: Expr, b: Expr) -> (r: Expr)
    ensures
        forall|vals: Seq<u64>|
            #[trigger] r.eval(vals) == (if c.eval(vals) != 0 {
                a.eval(vals)
            } else {
                b.eval(vals)
            }),
        forall|n: int, l: Live|
            #[trigger] r.uses(n, l) == (c.uses(n, l) && a.uses(n, l) && b.uses(n, l)),
{
    Expr::Select(Box::new(c), Box::new(a), Box::new(b))
}

/// The values that hold the registers at some point of a block.
#[derive(Debug, Clone, Copy)]
pub struct Snapshot {
    /// General registers.
    pub gpr: [usize; 16],
    /// Flags.
    pub rflags: usize,
}

impl Snapshot {
    /// The snapshot names values below `n`. A register that is not loaded still
    /// has the value it had at the entry.
    pub open spec fn wf(self, n: int, live: Live) -> bool {
        &&& forall|k: int|
            0 <= k < 16 ==> #[trigger] self.gpr@[k] < n && (live.allows(self.gpr@[k] as int)
                || self.gpr@[k] == k)
        &&& forall|k: int| 0 <= k < 16 && !live.gpr@[k] ==> #[trigger] self.gpr@[k] == k
        &&& self.rflags < n
        &&& live.allows(self.rflags as int) || self.rflags == ENTRY_FLAGS
        &&& !live.flags ==> self.rflags == ENTRY_FLAGS
    }

    /// The general registers that the snapshot stands for.
    pub open spec fn gprs(self, vals: Seq<u64>) -> Seq<u64> {
        Seq::new(16, |k: int| vals[self.gpr@[k] as int])
    }
}

/// An operation of a block.
pub enum Op {
    /// Computes a value.
    Let(Expr),
    /// Loads an integer of `size` bytes; leaves the block if that fails.
    Load {
        /// The value that holds the address.
        addr: usize,
        /// 1, 2, 4 or 8.
        size: u8,
        /// Address of the instruction.
        ip: u64,
        /// The registers if it fails.
        at: Snapshot,
    },
    /// Stores an integer of `size` bytes; leaves the block if that fails.
    Store {
        /// The value that holds the address.
        addr: usize,
        /// 1, 2, 4 or 8.
        size: u8,
        /// The value to store.
        value: usize,
        /// Address of the instruction.
        ip: u64,
        /// The registers if it fails.
        at: Snapshot,
    },
    /// Writes a half of a vector register through to the register file.
    PutXmm {
        /// Twice the register number, plus one for the high half.
        half: u8,
        /// The value to write.
        value: usize,
    },
    /// A floating-point operation on two numbers given by their bits.
    Float {
        /// 0 adds, 1 subtracts, 2 multiplies, 3 divides.
        op: u8,
        /// Double precision.
        double: bool,
        /// The value that holds the first operand.
        a: usize,
        /// The value that holds the second operand.
        b: usize,
    },
}

/// Where a block left early because an access failed.
pub struct Trap {
    /// Address of the instruction.
    pub ip: u64,
    /// First address of the access.
    pub address: u64,
    /// Size of the access in bytes.
    pub size: int,
    /// Whether the access was a store.
    pub write: bool,
    /// The general registers.
    pub gpr: Seq<u64>,
    /// The flags.
    pub rflags: u64,
}

/// The state at the entry of a block. `fp` stands for the floating-point unit of
/// the host: it gives the bits of the result of an operation on bits.
pub struct Entry {
    /// Registers.
    pub regs: Regs,
    /// Guest memory.
    pub mem: Bytes,
    /// Floating-point operations: the operation, whether it is in double
    /// precision, and the operands.
    pub fp: spec_fn(u8, bool, u64, u64) -> u64,
}

/// A point in the run of a block.
pub struct Run {
    /// The values that are there.
    pub vals: Seq<u64>,
    /// Guest memory.
    pub mem: Bytes,
    /// The halves of the vector registers, in the register file.
    pub xmm: Seq<u64>,
    /// Whether the block has left early.
    pub trap: Option<Trap>,
}

/// The low half of a vector register for an even index, else the high half.
pub open spec fn half_of(xmm: Seq<u128>, half: int) -> u64 {
    if half % 2 == 0 {
        (xmm[half / 2] % 0x1_0000_0000_0000_0000) as u64
    } else {
        (xmm[half / 2] / 0x1_0000_0000_0000_0000) as u64
    }
}

/// The values at the entry of a block.
pub open spec fn entry_vals(regs: Regs) -> Seq<u64> {
    Seq::new(
        ENTRY_VALUES as nat,
        |v: int|
            if v < 16 {
                regs.gpr[v]
            } else if v == 16 {
                regs.rflags
            } else {
                half_of(regs.xmm, v - 17)
            },
    )
}

/// The start of a run.
pub open spec fn run_start(e: Entry) -> Run {
    Run {
        vals: entry_vals(e.regs),
        mem: e.mem,
        xmm: Seq::new(32, |h: int| half_of(e.regs.xmm, h)),
        trap: None,
    }
}

/// A run after one more operation. Once the block has left, values are still
/// computed, and nothing else happens.
pub open spec fn run_op(e: Entry, r: Run, op: Op) -> Run {
    match op {
        Op::Let(x) => Run { vals: r.vals.push(x.eval(r.vals)), ..r },
        Op::Load { addr, size, ip, at } => if r.trap is Some {
            Run { vals: r.vals.push(0), ..r }
        } else {
            match loaded(r.mem, r.vals[addr as int], size as int) {
                Ok(v) => Run { vals: r.vals.push(v), ..r },
                Err(_) => Run {
                    vals: r.vals.push(0),
                    trap: Some(
                        Trap {
                            ip,
                            address: r.vals[addr as int],
                            size: size as int,
                            write: false,
                            gpr: at.gprs(r.vals),
                            rflags: r.vals[at.rflags as int],
                        },
                    ),
                    ..r
                },
            }
        },
        Op::Store { addr, size, value, ip, at } => if r.trap is Some {
            Run { vals: r.vals.push(0), ..r }
        } else {
            let (mem, fault) = stored(
                r.mem,
                r.vals[addr as int],
                r.vals[value as int],
                size as int,
            );
            Run {
                vals: r.vals.push(0),
                mem,
                trap: match fault {
                    None => None,
                    Some(_) => Some(
                        Trap {
                            ip,
                            address: r.vals[addr as int],
                            size: size as int,
                            write: true,
                            gpr: at.gprs(r.vals),
                            rflags: r.vals[at.rflags as int],
                        },
                    ),
                },
                ..r
            }
        },
        Op::PutXmm { half, value } => if r.trap is Some {
            Run { vals: r.vals.push(0), ..r }
        } else {
            Run {
                vals: r.vals.push(0),
                xmm: r.xmm.update(half as int, r.vals[value as int]),
                ..r
            }
        },
        Op::Float { op, double, a, b } => Run {
            vals: r.vals.push((e.fp)(op, double, r.vals[a as int], r.vals[b as int])),
            ..r
        },
    }
}

/// A run after all of `ops`.
pub open spec fn run_ops(e: Entry, ops: Seq<Op>) -> Run
    decreases ops.len(),
{
    if ops.len() == 0 {
        run_start(e)
    } else {
        run_op(e, run_ops(e, ops.drop_last()), ops.last())
    }
}

/// An operation that stands behind `n` values is in order.
pub open spec fn op_wf(op: Op, n: int, live: Live) -> bool {
    match op {
        Op::Let(x) => x.uses(n, live),
        Op::Load { addr, size, ip, at } => addr < n && live.allows(addr as int) && (size == 1
            || size == 2 || size == 4 || size == 8) && at.wf(n, live),
        Op::Store { addr, size, value, ip, at } => addr < n && live.allows(addr as int) && value
            < n && live.allows(value as int) && (size == 1 || size == 2 || size == 4 || size == 8)
            && at.wf(n, live),
        Op::PutXmm { half, value } => half < 32 && live.xmm@[half as int / 2] && value < n
            && live.allows(value as int),
        Op::Float { op, double, a, b } => op < 4 && a < n && live.allows(a as int) && b < n
            && live.allows(b as int),
    }
}

/// All operations are in order.
pub open spec fn ops_wf(ops: Seq<Op>, live: Live) -> bool {
    forall|k: int| 0 <= k < ops.len() ==> op_wf(#[trigger] ops[k], ENTRY_VALUES + k, live)
}

/// The operations of a block that is being compiled.
pub struct Code {
    /// The operations so far.
    pub ops: Vec<Op>,
    /// The registers that the block loads at its entry.
    pub live: Live,
}

impl Code {
    /// How many values are there.
    pub open spec fn n(self) -> int {
        ENTRY_VALUES + self.ops@.len()
    }

    /// The operations are in order.
    pub open spec fn wf(self) -> bool {
        &&& ops_wf(self.ops@, self.live)
        &&& self.n() < 0x1_0000_0000
    }

    /// The value `v` may be used.
    pub open spec fn has(self, v: usize) -> bool {
        v < self.n() && self.live.allows(v as int)
    }

    /// The value `v` in a run from `e`.
    pub open spec fn v(self, e: Entry, v: usize) -> u64 {
        self.vals(e)[v as int]
    }

    /// All values in a run from `e`.
    pub open spec fn vals(self, e: Entry) -> Seq<u64> {
        run_ops(e, self.ops@).vals
    }

    /// Memory in a run from `e`.
    pub open spec fn mem(self, e: Entry) -> Bytes {
        run_ops(e, self.ops@).mem
    }

    /// Vector registers in a run from `e`.
    pub open spec fn xmm(self, e: Entry) -> Seq<u64> {
        run_ops(e, self.ops@).xmm
    }

    /// Whether a run from `e` has left early.
    pub open spec fn trap(self, e: Entry) -> Option<Trap> {
        run_ops(e, self.ops@).trap
    }

    /// More operations were added; values that were there stay.
    pub open spec fn grows(self, after: Code) -> bool {
        &&& after.live == self.live
        &&& self.n() <= after.n()
        &&& forall|e: Entry, v: int|
            0 <= v < self.n() ==> #[trigger] after.vals(e)[v] == self.vals(e)[v]
    }

    /// Only values were computed.
    pub open spec fn computes(self, after: Code) -> bool {
        &&& self.grows(after)
        &&& forall|e: Entry| #[trigger] after.mem(e) == self.mem(e)
        &&& forall|e: Entry| #[trigger] after.xmm(e) == self.xmm(e)
        &&& forall|e: Entry| #[trigger] after.trap(e) == self.trap(e)
    }

}

/// There is a value for each register and each operation.
proof fn lemma_run_len(e: Entry, ops: Seq<Op>)
    ensures
        run_ops(e, ops).vals.len() == ENTRY_VALUES + ops.len(),
    decreases ops.len(),
{
    if ops.len() > 0 {
        lemma_run_len(e, ops.drop_last());
    }
}

/// What one more operation does.
proof fn lemma_push(before: Code, after: Code, op: Op)
    requires
        before.wf(),
        after.live == before.live,
        after.ops@ == before.ops@.push(op),
        op_wf(op, before.n(), before.live),
    ensures
        before.grows(after),
        ops_wf(after.ops@, after.live),
        forall|e: Entry| #[trigger]
            run_ops(e, after.ops@) == run_op(e, run_ops(e, before.ops@), op),
{
    assert(after.ops@.drop_last() =~= before.ops@);
    assert forall|e: Entry| #[trigger]
        run_ops(e, after.ops@) == run_op(e, run_ops(e, before.ops@), op) by {}
    assert forall|e: Entry, v: int| 0 <= v < before.n() implies #[trigger] after.vals(e)[v]
        == before.vals(e)[v] by {
        lemma_run_len(e, before.ops@);
        assert(run_ops(e, after.ops@) == run_op(e, run_ops(e, before.ops@), op));
    }
}

impl Code {
    /// Computes a value.
    pub fn bind(&mut self, x: Expr) -> (v: usize)
        requires
            old(self).wf(),
            old(self).n() + 1 < 0x1_0000_0000,
            x.uses(old(self).n(), old(self).live),
        ensures
            final(self).wf(),
            v == old(self).n(),
            final(self).n() == old(self).n() + 1,
            final(self).has(v),
            old(self).computes(*final(self)),
            forall|e: Entry| #[trigger] final(self).v(e, v) == x.eval(old(self).vals(e)),
    {
        let v: usize = ENTRY_VALUES + self.ops.len();
        let ghost before = *self;
        self.ops.push(Op::Let(x));
        proof {
            lemma_push(before, *self, Op::Let(x));
            assert forall|e: Entry| #[trigger] self.v(e, v) == x.eval(before.vals(e)) by {
                lemma_run_len(e, before.ops@);
                assert(run_ops(e, self.ops@) == run_op(e, run_ops(e, before.ops@), Op::Let(x)));
            }
        }
        v
    }

    /// Loads an integer; the block leaves if that fails.
    pub fn load(&mut self, addr: usize, size: u8, ip: u64, at: Snapshot) -> (v: usize)
        requires
            old(self).wf(),
            old(self).n() + 1 < 0x1_0000_0000,
            old(self).has(addr),
            size == 1 || size == 2 || size == 4 || size == 8,
            at.wf(old(self).n(), old(self).live),
        ensures
            final(self).wf(),
            v == old(self).n(),
            final(self).n() == old(self).n() + 1,
            final(self).has(v),
            old(self).grows(*final(self)),
            forall|e: Entry| #[trigger] final(self).mem(e) == old(self).mem(e),
            forall|e: Entry| #[trigger] final(self).xmm(e) == old(self).xmm(e),
            forall|e: Entry|
                old(self).trap(e) is Some ==> #[trigger] final(self).trap(e) == old(self).trap(e),
            forall|e: Entry|
                old(self).trap(e) is None ==> #[trigger] final(self).trap(e) == match loaded(
                    old(self).mem(e),
                    old(self).v(e, addr),
                    size as int,
                ) {
                    Ok(_) => None,
                    Err(_) => Some(
                        Trap {
                            ip,
                            address: old(self).v(e, addr),
                            size: size as int,
                            write: false,
                            gpr: at.gprs(old(self).vals(e)),
                            rflags: old(self).v(e, at.rflags),
                        },
                    ),
                },
            forall|e: Entry|
                final(self).trap(e) is None ==> loaded(
                    old(self).mem(e),
                    old(self).v(e, addr),
                    size as int,
                ) == Ok::<u64, crate::exec::model::Fault>(#[trigger] final(self).v(e, v)),
    {
        let v: usize = ENTRY_VALUES + self.ops.len();
        let ghost before = *self;
        self.ops.push(Op::Load { addr, size, ip, at });
        proof {
            let op = Op::Load { addr, size, ip, at };
            lemma_push(before, *self, op);
            assert forall|e: Entry|
                run_ops(e, before.ops@).vals.len() == before.n() && #[trigger] run_ops(
                    e,
                    self.ops@,
                ) == run_op(e, run_ops(e, before.ops@), op) by {
                lemma_run_len(e, before.ops@);
            }
        }
        v
    }

    /// Stores an integer; the block leaves if that fails.
    pub fn store(&mut self, addr: usize, size: u8, value: usize, ip: u64, at: Snapshot)
        requires
            old(self).wf(),
            old(self).n() + 1 < 0x1_0000_0000,
            old(self).has(addr),
            old(self).has(value),
            size == 1 || size == 2 || size == 4 || size == 8,
            at.wf(old(self).n(), old(self).live),
        ensures
            final(self).wf(),
            final(self).n() == old(self).n() + 1,
            old(self).grows(*final(self)),
            forall|e: Entry| #[trigger] final(self).xmm(e) == old(self).xmm(e),
            forall|e: Entry|
                old(self).trap(e) is Some ==> #[trigger] final(self).trap(e) == old(self).trap(e),
            forall|e: Entry|
                old(self).trap(e) is Some ==> #[trigger] final(self).mem(e) == old(self).mem(e),
            forall|e: Entry|
                old(self).trap(e) is None ==> #[trigger] final(self).mem(e) == stored(
                    old(self).mem(e),
                    old(self).v(e, addr),
                    old(self).v(e, value),
                    size as int,
                ).0,
            forall|e: Entry|
                old(self).trap(e) is None ==> #[trigger] final(self).trap(e) == match stored(
                    old(self).mem(e),
                    old(self).v(e, addr),
                    old(self).v(e, value),
                    size as int,
                ).1 {
                    None => None,
                    Some(_) => Some(
                        Trap {
                            ip,
                            address: old(self).v(e, addr),
                            size: size as int,
                            write: true,
                            gpr: at.gprs(old(self).vals(e)),
                            rflags: old(self).v(e, at.rflags),
                        },
                    ),
                },
    {
        let ghost before = *self;
        self.ops.push(Op::Store { addr, size, value, ip, at });
        proof {
            let op = Op::Store { addr, size, value, ip, at };
            lemma_push(before, *self, op);
            assert forall|e: Entry|
                run_ops(e, before.ops@).vals.len() == before.n() && #[trigger] run_ops(
                    e,
                    self.ops@,
                ) == run_op(e, run_ops(e, before.ops@), op) by {
                lemma_run_len(e, before.ops@);
            }
        }
    }

    /// Writes a half of a vector register through to the register file.
    pub fn put_xmm(&mut self, half: u8, value: usize)
        requires
            old(self).wf(),
            old(self).n() + 1 < 0x1_0000_0000,
            half < 32,
            old(self).live.xmm@[half as int / 2],
            old(self).has(value),
        ensures
            final(self).wf(),
            final(self).n() == old(self).n() + 1,
            old(self).grows(*final(self)),
            forall|e: Entry| #[trigger] final(self).mem(e) == old(self).mem(e),
            forall|e: Entry| #[trigger] final(self).trap(e) == old(self).trap(e),
            forall|e: Entry| #[trigger]
                final(self).xmm(e) == if old(self).trap(e) is Some {
                    old(self).xmm(e)
                } else {
                    old(self).xmm(e).update(half as int, old(self).v(e, value))
                },
    {
        let ghost before = *self;
        self.ops.push(Op::PutXmm { half, value });
        proof {
            let op = Op::PutXmm { half, value };
            lemma_push(before, *self, op);
            assert forall|e: Entry|
                run_ops(e, before.ops@).vals.len() == before.n() && #[trigger] run_ops(
                    e,
                    self.ops@,
                ) == run_op(e, run_ops(e, before.ops@), op) by {
                lemma_run_len(e, before.ops@);
            }
        }
    }

    /// A floating-point operation on two values.
    pub fn float(&mut self, op: u8, double: bool, a: usize, b: usize) -> (v: usize)
        requires
            old(self).wf(),
            old(self).n() + 1 < 0x1_0000_0000,
            op < 4,
            old(self).has(a),
            old(self).has(b),
        ensures
            final(self).wf(),
            v == old(self).n(),
            final(self).n() == old(self).n() + 1,
            final(self).has(v),
            old(self).computes(*final(self)),
            forall|e: Entry| #[trigger]
                final(self).v(e, v) == (e.fp)(op, double, old(self).v(e, a), old(self).v(e, b)),
    {
        let v: usize = ENTRY_VALUES + self.ops.len();
        let ghost before = *self;
        self.ops.push(Op::Float { op, double, a, b });
        proof {
            let o = Op::Float { op, double, a, b };
            lemma_push(before, *self, o);
            assert forall|e: Entry|
                run_ops(e, before.ops@).vals.len() == before.n() && #[trigger] run_ops(
                    e,
                    self.ops@,
                ) == run_op(e, run_ops(e, before.ops@), o) by {
                lemma_run_len(e, before.ops@);
            }
        }
        v
    }
}

} // verus!
