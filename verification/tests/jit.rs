use std::collections::HashMap;

use wie::cpu::CpuEngine;
use wie::exec::model::InvalidMem;
use wie::iced_cpu::IcedCpu;
use wie::jit::block::{decode_pure_gpr_block, is_self_loop, term_chain_targets, BlockTerm};
use wie::jit::chain::{chain_hash, ChainTable, ShadowStack, CHAIN_SLOTS, MAX_CHAIN_DEPTH};
use wie::jit::compile::{compile_block, CompiledBlock, Goto, Prediction, Tail};
use wie::jit::context::{fault_of, join_regs, split_xmm};
use wie::jit::dispatch::{
    report_finished, report_hook, report_invalid, spend, CacheEntry, JitState, Native, RunStep,
    Visit, HOTNESS,
};
use wie::jit::fast_api::{
    fast_arguments, fast_may_fault, fast_number, fast_of, fast_result, file_cookie, guest_strlen,
    iob_handle, FastApiKind,
};
use wie::jit::ir::{BinOp, Expr, Op, UnOp};
use wie::jit::liveness::{block_has_fp, block_has_mem, block_has_string};
use wie::jit::strings::run_string_op;
use wie::jit::thunk::resolve_thunk_va;
use wie::jit::tlb::{Tlb, TLB_EMPTY, TLB_SETS, TLB_WAYS};
use wie::mem::guest::GuestMemory;
use wie::regs::{RegFile, AF, CF, OF, PF, RAX, RBX, RCX, RDI, RDX, RSI, RSP, SF, ZF};

const CODE: u64 = 0x1_0000;
const DATA: u64 = 0x2_0000;
const STACK: u64 = 0x3_0000;

fn cpu(code: &[u8]) -> IcedCpu {
    let mut c = IcedCpu::open_x86_64();
    c.mem_map(CODE, 0x1000, 7).expect("code");
    c.mem_map(DATA, 0x1000, 7).expect("data");
    c.mem_map(STACK, 0x1000, 7).expect("stack");
    c.mem_write(CODE, code).expect("write");
    c.regs_mut().set_rip(CODE);
    c.regs_mut().set_gpr(RSP, STACK + 0x800);
    c
}

fn eval(x: &Expr, vals: &[u64]) -> u64 {
    match x {
        Expr::Const(c) => *c,
        Expr::Val(v) => vals[*v],
        Expr::Un(op, a) => {
            let a = eval(a, vals);
            match op {
                UnOp::Not => !a,
                UnOp::Sext8 => a as i8 as i64 as u64,
                UnOp::Sext16 => a as i16 as i64 as u64,
                UnOp::Sext32 => a as i32 as i64 as u64,
                UnOp::Zext32 => a as u32 as u64,
            }
        }
        Expr::Bin(op, a, b) => {
            let a = eval(a, vals);
            let b = eval(b, vals);
            let n = (b % 64) as u32;
            match op {
                BinOp::Add => a.wrapping_add(b),
                BinOp::Sub => a.wrapping_sub(b),
                BinOp::Mul => a.wrapping_mul(b),
                BinOp::SmulHi => ((a as i64 as i128 * b as i64 as i128) >> 64) as u64,
                BinOp::Urem => a.checked_rem(b).unwrap_or(0),
                BinOp::And => a & b,
                BinOp::Or => a | b,
                BinOp::Xor => a ^ b,
                BinOp::Shl => a << n,
                BinOp::Ushr => a >> n,
                BinOp::Sshr => ((a as i64) >> n) as u64,
                BinOp::Equal => u64::from(a == b),
                BinOp::Differ => u64::from(a != b),
                BinOp::Below => u64::from(a < b),
            }
        }
        Expr::Select(c, a, b) => {
            if eval(c, vals) != 0 {
                eval(a, vals)
            } else {
                eval(b, vals)
            }
        }
    }
}

fn float(op: u8, double: bool, a: u64, b: u64) -> u64 {
    if double {
        let (x, y) = (f64::from_bits(a), f64::from_bits(b));
        [x + y, x - y, x * y, x / y][op as usize].to_bits()
    } else {
        let (x, y) = (f32::from_bits(a as u32), f32::from_bits(b as u32));
        u64::from([x + y, x - y, x * y, x / y][op as usize].to_bits())
    }
}

struct Ended {
    fault: Option<InvalidMem>,
    host: Option<FastApiKind>,
}

/// Runs a compiled block the way generated code does.
fn run(c: &mut IcedCpu, b: &CompiledBlock) -> Ended {
    let mut vals: Vec<u64> = Vec::new();
    let live = b.live;
    for k in 0..16 {
        vals.push(if live.gpr[k] { c.regs().gpr(k) } else { 0xdead_0000 + k as u64 });
    }
    vals.push(if live.flags { c.regs().rflags() } else { 0xdead_1000 });
    let mut halves = split_xmm(c.regs());
    for h in 0..32 {
        vals.push(if live.xmm[h / 2] { halves[h] } else { 0xdead_2000 });
    }
    let mut left: Option<(u64, InvalidMem, wie::jit::ir::Snapshot)> = None;
    for op in &b.ops {
        let v = match op {
            Op::Let(x) => eval(x, &vals),
            Op::Load { addr, size, ip, at } => {
                let mut buf = vec![0u8; *size as usize];
                if c.mem_read(vals[*addr], &mut buf).is_err() {
                    let inv = fault_of(1, 0, vals[*addr], u64::from(*size)).expect("fault");
                    left = Some((*ip, inv, *at));
                    break;
                }
                buf.resize(8, 0);
                u64::from_le_bytes(buf.try_into().expect("eight"))
            }
            Op::Store { addr, size, value, ip, at } => {
                let bytes = vals[*value].to_le_bytes();
                if c.mem_write(vals[*addr], &bytes[..*size as usize]).is_err() {
                    let inv = fault_of(1, 1, vals[*addr], u64::from(*size)).expect("fault");
                    left = Some((*ip, inv, *at));
                    break;
                }
                0
            }
            Op::PutXmm { half, value } => {
                halves[*half as usize] = vals[*value];
                0
            }
            Op::Float { op, double, a, b } => float(*op, *double, vals[*a], vals[*b]),
        };
        vals.push(v);
    }
    let at = left.as_ref().map_or(b.at, |l| l.2);
    let mut gpr = [0u64; 16];
    for k in 0..16 {
        gpr[k] = if live.gpr[k] { vals[at.gpr[k]] } else { c.regs().gpr(k) };
    }
    let rflags = if live.flags { vals[at.rflags] } else { c.regs().rflags() };
    let to = |g: &Goto| match g {
        Goto::Again => b.start,
        Goto::To { rip, .. } => vals[*rip],
    };
    if let Some((ip, inv, _)) = left {
        join_regs(c.regs_mut(), &gpr, &halves, ip, rflags);
        return Ended { fault: Some(inv), host: None };
    }
    let mut host = None;
    let rip = match &b.tail {
        Tail::Leave(g) => to(g),
        Tail::Branch { cond, taken, not_taken } => {
            if vals[*cond] != 0 {
                to(taken)
            } else {
                to(not_taken)
            }
        }
        Tail::Text(t) => t.next_ip,
        Tail::Host(kind, g) => {
            host = Some(*kind);
            to(g)
        }
    };
    join_regs(c.regs_mut(), &gpr, &halves, rip, rflags);
    Ended { fault: None, host }
}

fn compile(c: &IcedCpu) -> CompiledBlock {
    JitState::new().try_compile(c, CODE).expect("compiles")
}

struct Random(u64);

impl Random {
    fn next(&mut self) -> u64 {
        self.0 = self.0.wrapping_mul(6364136223846793005).wrapping_add(1442695040888963407);
        let x = self.0;
        match (x >> 60) % 4 {
            0 => (x >> 8) % 300,
            1 => u64::MAX - (x >> 20) % 3,
            2 => 0x8000_0000 + (x >> 30) % 3,
            _ => x ^ (x >> 31),
        }
    }
}

fn memory(c: &mut IcedCpu) -> Vec<u8> {
    let mut m = vec![0u8; 0x1000];
    c.mem_read(DATA, &mut m).expect("data");
    let mut s = vec![0u8; 0x1000];
    c.mem_read(STACK, &mut s).expect("stack");
    m.extend(s);
    m
}

fn prepared(code: &[u8], seed: u64) -> IcedCpu {
    let mut c = cpu(code);
    let mut r = Random(seed);
    for k in 0..16 {
        let v = r.next();
        c.regs_mut().set_gpr(k, v);
    }
    c.regs_mut().set_gpr(RSP, STACK + 0x800);
    c.regs_mut().set_gpr(RDI, DATA + 0x100);
    c.regs_mut().set_gpr(RSI, 3);
    c.regs_mut().set_rflags(2 | (r.next() & (CF | PF | AF | ZF | SF | OF)));
    let mut bytes = vec![0u8; 0x400];
    for b in bytes.iter_mut() {
        *b = (r.next() >> 5) as u8;
    }
    c.mem_write(DATA, &bytes).expect("data");
    for k in 0..16 {
        let v = u128::from(r.next()) << 64 | u128::from(r.next());
        c.regs_mut().set_xmm(k, v);
    }
    c
}

/// A compiled block and the interpreter do the same.
fn agree(code: &[u8], insns: usize, seeds: u64, fix: fn(&mut IcedCpu)) {
    for seed in 0..seeds {
        let mut a = prepared(code, seed * 77 + 5);
        let mut b = prepared(code, seed * 77 + 5);
        fix(&mut a);
        fix(&mut b);
        let block = compile(&a);
        assert_eq!(block.insn_count as usize, insns);
        let ended = run(&mut a, &block);
        assert!(ended.fault.is_none());
        for _ in 0..insns {
            b.step_once().expect("step");
        }
        for k in 0..16 {
            assert_eq!(a.regs().gpr(k), b.regs().gpr(k), "gpr {k} seed {seed}");
            assert_eq!(a.regs().xmm(k), b.regs().xmm(k), "xmm {k} seed {seed}");
        }
        assert_eq!(a.regs().rflags(), b.regs().rflags(), "rflags seed {seed}");
        assert_eq!(a.regs().rip(), b.regs().rip());
        assert_eq!(memory(&mut a), memory(&mut b));
    }
}

#[test]
fn compiled_arithmetic_matches_interpreter() {
    // add rax,rbx; sub eax,ecx; xor ax,bx; and al,cl; imul rax,rbx; adc rax,rbx;
    // sbb eax,ebx; inc rax; neg rbx; not rcx; je +0
    agree(
        &[
            0x48, 0x01, 0xd8, 0x29, 0xc8, 0x66, 0x31, 0xd8, 0x20, 0xc8, 0x48, 0x0f, 0xaf, 0xc3,
            0x48, 0x11, 0xd8, 0x19, 0xd8, 0x48, 0xff, 0xc0, 0x48, 0xf7, 0xdb, 0x48, 0xf7, 0xd1,
            0x74, 0x00,
        ],
        11,
        200,
        |_| {},
    );
}

#[test]
fn flags_survive_until_they_are_read() {
    // add rax,rbx; inc rcx; jb +0: the carry flag is that of the addition.
    agree(&[0x48, 0x01, 0xd8, 0x48, 0xff, 0xc1, 0x72, 0x00], 3, 100, |_| {});
    // add al,bl; and rcx,rdx; jmp +0: the adjust flag is that of the addition.
    agree(&[0x00, 0xd8, 0x48, 0x21, 0xd1, 0xeb, 0x00], 3, 100, |_| {});
    // test eax,ecx; dec bl; xor dx,ax; jmp +0
    agree(&[0x85, 0xc8, 0xfe, 0xcb, 0x66, 0x31, 0xc2, 0xeb, 0x00], 4, 100, |_| {});
}

#[test]
fn compiled_shifts_match_interpreter() {
    // shl rax,5; shr ebx,3; sar dx,1; rol r8b,3; ror r9,1; shl al,1; sar eax,cl; jmp +0
    agree(
        &[
            0x48, 0xc1, 0xe0, 0x05, 0xc1, 0xeb, 0x03, 0x66, 0xd1, 0xfa, 0x41, 0xc0, 0xc0, 0x03,
            0x49, 0xd1, 0xc9, 0xd0, 0xe0, 0xd3, 0xf8, 0xeb, 0x00,
        ],
        8,
        200,
        |c| {
            let v = c.regs().gpr(RCX) | 1;
            c.regs_mut().set_gpr(RCX, v);
        },
    );
    // rol ax,cl; ror bl,cl; shl rdx,cl; jo +0
    agree(
        &[0x66, 0xd3, 0xc0, 0xd2, 0xcb, 0x48, 0xd3, 0xe2, 0x70, 0x00],
        4,
        200,
        |c| {
            let v = c.regs().gpr(RCX) | 1;
            c.regs_mut().set_gpr(RCX, v);
        },
    );
}

#[test]
fn shift_by_zero_in_compiled_code() {
    // shl eax,cl; jmp +0 with a count of zero clears the high half, and no flag.
    let mut c = cpu(&[0xd3, 0xe0, 0xeb, 0x00]);
    c.regs_mut().set_gpr(RAX, 0x1234_5678_9abc_def0);
    c.regs_mut().set_gpr(RCX, 32);
    c.regs_mut().set_rflags(2 | CF | OF);
    let b = compile(&c);
    run(&mut c, &b);
    assert_eq!(c.regs().gpr(RAX), 0x9abc_def0);
    assert_eq!(c.regs().rflags(), 2 | CF | OF);
}

#[test]
fn compiled_memory_matches_interpreter() {
    // mov [rdi],rax; add rbx,[rdi+8]; add [rdi+rsi*8],cx; movzx eax,byte [rdi+1];
    // movsx rdx,word [rdi+2]; movsxd r8,dword [rdi+4]; lea r9,[rdi+rsi*4+7];
    // push rbx; pop r10; xchg [rdi+16],rcx; sete [rdi+40]; cmovb rax,[rdi+8];
    // not qword [rdi]; neg dword [rdi+8]; inc byte [rdi+9]; cmp [rdi],rax;
    // mov dword [rdi+4],0x11223344; push qword [rdi]; pop qword [rdi+24]; jmp +0
    agree(
        &[
            0x48, 0x89, 0x07, 0x48, 0x03, 0x5f, 0x08, 0x66, 0x01, 0x0c, 0xf7, 0x0f, 0xb6, 0x47,
            0x01, 0x48, 0x0f, 0xbf, 0x57, 0x02, 0x4c, 0x63, 0x47, 0x04, 0x4c, 0x8d, 0x4c, 0xb7,
            0x07, 0x53, 0x41, 0x5a, 0x48, 0x87, 0x4f, 0x10, 0x0f, 0x94, 0x47, 0x28, 0x48, 0x0f,
            0x42, 0x47, 0x08, 0x48, 0xf7, 0x17, 0xf7, 0x5f, 0x08, 0xfe, 0x47, 0x09, 0x48, 0x39,
            0x07, 0xc7, 0x47, 0x04, 0x44, 0x33, 0x22, 0x11, 0xff, 0x37, 0x8f, 0x47, 0x18, 0xeb,
            0x00,
        ],
        20,
        100,
        |_| {},
    );
}

#[test]
fn compiled_vectors_match_interpreter() {
    // movups xmm0,[rdi]; movaps xmm1,xmm0; movss xmm2,xmm1; movss xmm3,[rdi+4];
    // movsd xmm4,[rdi+8]; movups [rdi+0x20],xmm1; movss [rdi+0x40],xmm2;
    // movsd [rdi+0x48],xmm4; pxor xmm5,xmm0; movd xmm6,eax; movd ebx,xmm0;
    // movq xmm7,xmm1; movq [rdi+0x50],xmm0; jmp +0
    agree(
        &[
            0x0f, 0x10, 0x07, 0x0f, 0x28, 0xc8, 0xf3, 0x0f, 0x10, 0xd1, 0xf3, 0x0f, 0x10, 0x5f,
            0x04, 0xf2, 0x0f, 0x10, 0x67, 0x08, 0x0f, 0x11, 0x4f, 0x20, 0xf3, 0x0f, 0x11, 0x57,
            0x40, 0xf2, 0x0f, 0x11, 0x67, 0x48, 0x66, 0x0f, 0xef, 0xe8, 0x66, 0x0f, 0x6e, 0xf0,
            0x66, 0x0f, 0x7e, 0xc3, 0xf3, 0x0f, 0x7e, 0xf9, 0x66, 0x0f, 0xd6, 0x47, 0x50, 0xeb,
            0x00,
        ],
        14,
        60,
        |_| {},
    );
}

#[test]
fn compiled_vector_operations() {
    // andps xmm0,xmm1; orps xmm2,xmm1; andnps xmm3,xmm1; addss xmm4,xmm5; divpd xmm6,xmm7;
    // mulps xmm8,xmm9; subsd xmm10,xmm11; jmp +0
    let mut c = cpu(&[
        0x0f, 0x54, 0xc1, 0x0f, 0x56, 0xd1, 0x0f, 0x55, 0xd9, 0xf3, 0x0f, 0x58, 0xe5, 0x66, 0x0f,
        0x5e, 0xf7, 0x45, 0x0f, 0x59, 0xc1, 0xf2, 0x45, 0x0f, 0x5c, 0xd3, 0xeb, 0x00,
    ]);
    let a = 0x0123_4567_89ab_cdef_0fed_cba9_8765_4321_u128;
    let m = 0xffff_0000_ffff_0000_00ff_00ff_00ff_00ff_u128;
    for k in [0, 2, 3] {
        c.regs_mut().set_xmm(k, a);
    }
    c.regs_mut().set_xmm(1, m);
    let high = a & !0xffff_ffff;
    c.regs_mut().set_xmm(4, high | u128::from(1.5f32.to_bits()));
    c.regs_mut().set_xmm(5, u128::from(2.25f32.to_bits()));
    let pd = |x: f64, y: f64| u128::from(x.to_bits()) | u128::from(y.to_bits()) << 64;
    c.regs_mut().set_xmm(6, pd(1.0, 9.0));
    c.regs_mut().set_xmm(7, pd(4.0, 3.0));
    let ps = |v: [f32; 4]| {
        let mut x = 0u128;
        for (k, f) in v.iter().enumerate() {
            x |= u128::from(f.to_bits()) << (32 * k);
        }
        x
    };
    c.regs_mut().set_xmm(8, ps([1.0, 2.0, 3.0, 4.0]));
    c.regs_mut().set_xmm(9, ps([5.0, 6.0, 7.0, 0.5]));
    c.regs_mut().set_xmm(10, pd(5.0, 1.0));
    c.regs_mut().set_xmm(11, pd(7.5, 2.0));
    let b = compile(&c);
    run(&mut c, &b);
    assert_eq!(c.regs().xmm(0), a & m);
    assert_eq!(c.regs().xmm(2), a | m);
    assert_eq!(c.regs().xmm(3), !a & m);
    assert_eq!(c.regs().xmm(4), high | u128::from(3.75f32.to_bits()));
    assert_eq!(c.regs().xmm(6), pd(0.25, 3.0));
    assert_eq!(c.regs().xmm(8), ps([5.0, 12.0, 21.0, 2.0]));
    assert_eq!(c.regs().xmm(10), pd(-2.5, 1.0));
}

#[test]
fn compiled_branches() {
    // call +0x10
    let mut c = cpu(&[0xe8, 0x10, 0, 0, 0]);
    let b = compile(&c);
    assert!(matches!(b.prediction, Prediction::Push(r) if r == CODE + 5));
    run(&mut c, &b);
    assert_eq!(c.regs().rip(), CODE + 0x15);
    assert_eq!(c.regs().gpr(RSP), STACK + 0x7f8);
    let mut top = [0u8; 8];
    c.mem_read(STACK + 0x7f8, &mut top).expect("top");
    assert_eq!(u64::from_le_bytes(top), CODE + 5);
    // ret
    c.mem_write(CODE, &[0xc3]).expect("code");
    let b = compile(&c);
    assert!(matches!(b.prediction, Prediction::Check(_)));
    run(&mut c, &b);
    assert_eq!(c.regs().rip(), CODE + 5);
    assert_eq!(c.regs().gpr(RSP), STACK + 0x800);
    // dec rcx; jne -5: a loop to its own start
    let mut c = cpu(&[0x48, 0xff, 0xc9, 0x75, 0xfb]);
    c.regs_mut().set_gpr(RCX, 2);
    let b = compile(&c);
    assert!(matches!(b.tail, Tail::Branch { taken: Goto::Again, .. }));
    assert_eq!(b.live.gpr, [true; 16]);
    run(&mut c, &b);
    assert_eq!((c.regs().rip(), c.regs().gpr(RCX)), (CODE, 1));
    run(&mut c, &b);
    assert_eq!((c.regs().rip(), c.regs().gpr(RCX)), (CODE + 5, 0));
}

#[test]
fn only_used_registers_are_loaded() {
    // mov rax,rbx; jmp +0
    let c = cpu(&[0x48, 0x89, 0xd8, 0xeb, 0x00]);
    let b = compile(&c);
    for k in 0..16 {
        assert_eq!(b.live.gpr[k], k == RAX || k == RBX);
    }
    assert!(!b.live.flags);
    assert_eq!(b.live.xmm, [false; 16]);
}

#[test]
fn compiled_fault_names_the_access() {
    // mov rcx,rbx; mov rax,[rdx]; jmp +0
    let mut c = cpu(&[0x48, 0x89, 0xd9, 0x48, 0x8b, 0x02, 0xeb, 0x00]);
    c.regs_mut().set_gpr(RBX, 7);
    c.regs_mut().set_gpr(RDX, 0x99_0000);
    let b = compile(&c);
    let inv = run(&mut c, &b).fault.expect("fault");
    assert_eq!((inv.access_type, inv.address, inv.size, inv.value), (0, 0x99_0000, 8, 0));
    assert_eq!(c.regs().rip(), CODE + 3);
    assert_eq!(c.regs().gpr(RCX), 7);
    // push rax with an unmapped stack
    let mut c = cpu(&[0x50, 0xeb, 0x00]);
    c.regs_mut().set_gpr(RSP, 0x99_0000);
    let b = compile(&c);
    let inv = run(&mut c, &b).fault.expect("fault");
    assert_eq!((inv.access_type, inv.address, inv.size), (1, 0x98_fff8, 8));
    assert_eq!(c.regs().gpr(RSP), 0x99_0000);
}

#[test]
fn flags_wait_until_they_are_needed() {
    // cmp rax,rbx; mov rax,[rdx]; jmp +0
    let mut c = cpu(&[0x48, 0x39, 0xd8, 0x48, 0x8b, 0x02, 0xeb, 0x00]);
    c.regs_mut().set_gpr(RDX, 0x99_0000);
    let entry = c.regs().rflags() & !0x40;
    c.regs_mut().set_rflags(entry);
    let b = compile(&c);
    assert!(run(&mut c, &b).fault.is_some());
    assert_eq!(c.regs().rflags(), entry);
    // cmp rax,rbx; sete cl; mov rax,[rdx]; jmp +0
    let mut c = cpu(&[0x48, 0x39, 0xd8, 0x0f, 0x94, 0xc1, 0x48, 0x8b, 0x02, 0xeb, 0x00]);
    c.regs_mut().set_gpr(RDX, 0x99_0000);
    c.regs_mut().set_rflags(entry);
    let b = compile(&c);
    assert!(run(&mut c, &b).fault.is_some());
    assert_eq!(c.regs().rflags() & 0x40, 0x40);
}

#[test]
fn compiled_pushes_match_interpreter() {
    // push 5; push -2; push 0x12345678; push rax; push qword [rdi]; pop rbx; jmp +0
    agree(
        &[
            0x6a, 0x05, 0x6a, 0xfe, 0x68, 0x78, 0x56, 0x34, 0x12, 0x50, 0xff, 0x37, 0x5b, 0xeb,
            0x00,
        ],
        7,
        10,
        |_| {},
    );
    let mut c = cpu(&[0x6a, 0xfb, 0xeb, 0x00]);
    let b = compile(&c);
    assert!(run(&mut c, &b).fault.is_none());
    let mut top = [0u8; 8];
    c.mem_read(STACK + 0x7f8, &mut top).expect("stack");
    assert_eq!(u64::from_le_bytes(top), 0xffff_ffff_ffff_fffb);
    assert_eq!(c.regs().gpr(RSP), STACK + 0x7f8);
}

#[test]
fn narrow_stack_operands_end_a_block() {
    // Eight nops, then push ax / push word 5 / push word 0x1234 / push word [rdi] /
    // pop word [rdi]: the block ends before.
    for narrow in [
        &[0x66u8, 0x50][..],
        &[0x66, 0x6a, 0x05],
        &[0x66, 0x68, 0x34, 0x12],
        &[0x66, 0xff, 0x37],
        &[0x66, 0x8f, 0x07],
    ] {
        let mut code = vec![0x90u8; 8];
        code.extend_from_slice(narrow);
        code.extend_from_slice(&[0xeb, 0x00]);
        let c = cpu(&code);
        let b = decode_pure_gpr_block(&c, CODE).expect("block");
        assert_eq!((b.insns.len(), b.end_rip), (8, CODE + 8));
        assert!(compile_block(CODE, &b.insns, b.end_rip, b.term, None, &HashMap::new()).is_ok());
    }
}

#[test]
fn unwritten_registers_are_kept() {
    // mov rax,rbx; add rcx,5; cmp rsi,rdi; je +0
    let code = [0x48, 0x89, 0xd8, 0x48, 0x83, 0xc1, 0x05, 0x48, 0x39, 0xfe, 0x74, 0x00];
    let mut c = prepared(&code, 3);
    let before: Vec<u64> = (0..16).map(|k| c.regs().gpr(k)).collect();
    let b = compile(&c);
    assert!(run(&mut c, &b).fault.is_none());
    for k in (0..16).filter(|k| *k != RAX && *k != RCX) {
        assert_eq!(c.regs().gpr(k), before[k]);
    }
    assert_eq!(c.regs().gpr(RAX), before[RBX]);
}

#[test]
fn second_byte_registers_are_not_compiled() {
    // mov ah,1; jmp +0 / mov bl,ah; jmp +0 / mov eax,[ecx]; jmp +0 / lea eax,[ecx+4]; jmp +0
    for code in [
        &[0xb4u8, 1, 0xeb, 0x00][..],
        &[0x88, 0xe3, 0xeb, 0x00],
        &[0x67, 0x8b, 0x01, 0xeb, 0x00],
        &[0x67, 0x8d, 0x41, 0x04, 0xeb, 0x00],
    ] {
        let c = cpu(code);
        assert!(JitState::new().try_compile(&c, CODE).is_none());
        let mut long = vec![0x90u8; 8];
        long.extend_from_slice(code);
        let b = decode_pure_gpr_block(&cpu(&long), CODE).expect("block");
        assert_eq!(b.insns.len(), 8);
    }
    // div rbx is left to the interpreter, and so is a block of a lone nop.
    let c = cpu(&[0x48, 0xf7, 0xf3, 0xeb, 0x00]);
    assert!(JitState::new().try_compile(&c, CODE).is_none());
    let c = cpu(&[0x90, 0xf4]);
    assert!(JitState::new().try_compile(&c, CODE).is_none());
}

#[test]
fn string_instruction_ends_a_block() {
    // mov al,0x41; rep stosb
    let mut c = cpu(&[0xb0, 0x41, 0xf3, 0xaa, 0x90]);
    c.regs_mut().set_gpr(RCX, 2);
    c.regs_mut().set_gpr(RDI, DATA);
    let b = compile(&c);
    assert_eq!(b.insn_count, 2);
    run(&mut c, &b);
    let call = match b.tail {
        Tail::Text(t) => t,
        _ => panic!("string instruction expected"),
    };
    assert_eq!((call.op, call.size, call.flags), (0, 1, 3));
    assert_eq!((call.ip, call.next_ip), (CODE + 2, CODE + 4));
    let mut mem = GuestMemory::new();
    mem.map(DATA, 0x1000, 7).expect("map");
    let mut regs: RegFile = *c.regs();
    assert!(run_string_op(&mut mem, &mut regs, &call).expect("first"));
    assert_eq!((regs.rip(), regs.gpr(RCX), regs.gpr(RDI)), (CODE + 2, 1, DATA + 1));
    regs.set_rip(call.next_ip);
    assert!(run_string_op(&mut mem, &mut regs, &call).expect("second"));
    regs.set_rip(call.next_ip);
    assert!(!run_string_op(&mut mem, &mut regs, &call).expect("third"));
    assert_eq!(regs.rip(), CODE + 4);
    let mut bytes = [0u8; 3];
    mem.read(DATA, &mut bytes).expect("read");
    assert_eq!(bytes, [0x41, 0x41, 0]);
    regs.set_gpr(RCX, 1);
    regs.set_gpr(RDI, 0x99_0000);
    regs.set_rip(call.next_ip);
    assert!(run_string_op(&mut mem, &mut regs, &call).is_err());
}

#[test]
fn block_shapes() {
    // seven nops fall through: too short; eight are enough.
    let mut c = cpu(&[0x90; 8]);
    c.mem_write(CODE + 7, &[0xf4]).expect("hlt");
    assert!(decode_pure_gpr_block(&c, CODE).is_none());
    c.mem_write(CODE + 7, &[0x90, 0xf4]).expect("nop");
    let b = decode_pure_gpr_block(&c, CODE).expect("block");
    assert_eq!((b.insns.len(), b.end_rip, b.bytes_len), (8, CODE + 8, 8));
    assert!(b.term.is_none());
    // A block has at most 64 instructions.
    let c = cpu(&[0x90; 100]);
    let b = decode_pure_gpr_block(&c, CODE).expect("block");
    assert_eq!((b.insns.len(), b.end_rip), (64, CODE + 64));
    // The host stops at an address: a block does not go there.
    let mut c = cpu(&[0x90; 100]);
    c.install_runtime_hooks(CODE + 20, CODE + 20, vec![0xff]).expect("hook");
    let b = decode_pure_gpr_block(&c, CODE).expect("block");
    assert_eq!(b.insns.len(), 20);
    // ret 8 and an indirect call end no block.
    let c = cpu(&[0xc2, 8, 0]);
    assert!(decode_pure_gpr_block(&c, CODE).is_none());
    let c = cpu(&[0xff, 0xd0]);
    assert!(decode_pure_gpr_block(&c, CODE).is_none());
    let jcc = BlockTerm::Jcc { mnemonic: 0, taken: 5, not_taken: 6 };
    assert_eq!(term_chain_targets(jcc), vec![5, 6]);
    assert!(term_chain_targets(BlockTerm::Ret).is_empty());
    assert!(is_self_loop(Some(jcc), 6));
    assert!(!is_self_loop(Some(BlockTerm::Call { target: 5, return_ip: 6 }), 5));
}

#[test]
fn compiled_successors_are_called_directly() {
    let c = cpu(&[0xeb, 0x10]);
    let b = decode_pure_gpr_block(&c, CODE).expect("block");
    let mut chain: HashMap<u64, u32> = HashMap::new();
    chain.insert(CODE + 0x12, 9);
    let k = compile_block(CODE, &b.insns, b.end_rip, b.term, None, &chain).ok().expect("compiles");
    assert!(matches!(k.tail, Tail::Leave(Goto::To { direct: Some(9), .. })));
    assert!(compile_block(CODE, &[], CODE, None, None, &chain).is_err());
}

#[test]
fn code_is_compiled_once_it_is_hot() {
    // mov rax,rbx; jmp +0
    let c = cpu(&[0x48, 0x89, 0xd8, 0xeb, 0x00]);
    let mut s = JitState::new();
    for _ in 0..99 {
        assert_eq!(s.visit(&c, CODE, HOTNESS), Visit::Interpret);
    }
    assert_eq!(s.cache.get(&CODE), Some(&CacheEntry::Hot(99)));
    assert_eq!(s.visit(&c, CODE, HOTNESS), Visit::Compile);
    let n = Native { entry: 0x5000, id: 3, insn_count: 2 };
    assert_eq!(s.compiled(CODE, Some(n)), Visit::Run(n));
    assert_eq!(s.visit(&c, CODE, HOTNESS), Visit::Run(n));
    assert_eq!((s.stats.compiles, s.stats.cache_hits), (1, 1));
    assert_eq!(s.chain.chain_lookup(CODE), 0x5000);
    assert_eq!(s.next_step(&c, 0, 0, 10, true), RunStep::Native(n));
    assert_eq!(s.next_step(&c, 0, 0, 10, false), RunStep::Step);
    assert_eq!(s.finish_compiled(n), 2);
    assert_eq!(s.stats.jit_insns, 2);
    // At zero, code is compiled at once; what cannot be compiled is not tried again.
    let mut s = JitState::new();
    assert_eq!(s.visit(&c, CODE, 0), Visit::Compile);
    assert_eq!(s.compiled(CODE, None), Visit::Interpret);
    assert_eq!(s.visit(&c, CODE, 0), Visit::Interpret);
    assert_eq!(s.stats.compile_skip, 1);
    // A loop to its own start is compiled earlier.
    let c = cpu(&[0x48, 0xff, 0xc9, 0x75, 0xfb]);
    let mut s = JitState::new();
    for _ in 0..15 {
        assert_eq!(s.visit(&c, CODE, HOTNESS), Visit::Interpret);
    }
    assert_eq!(s.visit(&c, CODE, HOTNESS), Visit::Compile);
}

#[test]
fn calls_of_runtime_functions() {
    // call +0x10, which leads through an import slot to 0x7000
    let mut c = cpu(&[0xe8, 0x0b, 0, 0, 0]);
    c.mem_write(CODE + 0x10, &[0xff, 0x25, 0x0a, 0, 0, 0]).expect("thunk");
    c.mem_write(CODE + 0x20, &0x7000u64.to_le_bytes()).expect("slot");
    assert_eq!(resolve_thunk_va(&c, CODE + 0x10), 0x7000);
    let mut s = JitState::new();
    assert!(!s.peek_fast_ucrt_call(&c, CODE));
    let mut by_va = HashMap::new();
    by_va.insert(0x7000u64, FastApiKind::Memcpy);
    s.configure_fast_path(by_va);
    assert!(s.peek_fast_ucrt_call(&c, CODE));
    assert_eq!(s.visit(&c, CODE, HOTNESS), Visit::Interpret);
    assert_eq!(s.visit(&c, CODE, HOTNESS), Visit::Compile);
    let b = s.try_compile(&c, CODE).expect("compiles");
    let ended = run(&mut c, &b);
    assert_eq!(ended.host, Some(FastApiKind::Memcpy));
    assert_eq!(c.regs().rip(), CODE + 5);
    assert_eq!(c.regs().gpr(RSP), STACK + 0x800);
    for k in [RAX, RCX, RDX, 8, 9] {
        assert!(b.live.gpr[k]);
    }
    assert_eq!(fast_arguments(FastApiKind::Memcpy), vec![RCX, RDX, 8]);
    assert_eq!(fast_arguments(FastApiKind::Fwrite), vec![RCX, RDX, 8, 9]);
    assert_eq!(fast_arguments(FastApiKind::Strlen), vec![RCX]);
    assert_eq!((fast_number(FastApiKind::Fflush), fast_number(FastApiKind::Strlen)), (6, 3));
    assert_eq!((fast_of(2), fast_of(7)), (Some(FastApiKind::Memcpy), None));
    assert!(fast_may_fault(FastApiKind::Malloc));
    assert!(!fast_may_fault(FastApiKind::Fflush));
    assert_eq!(fast_result(FastApiKind::Free, 5), 0);
    assert_eq!(fast_result(FastApiKind::Malloc, 5), 5);
    assert_eq!(iob_handle(0x1_0000_0001, &[10, 11, 12]), 11);
    assert_eq!(iob_handle(3, &[10, 11, 12]), 0);
}

#[test]
fn strings_are_measured_in_the_guest() {
    let mut c = cpu(&[]);
    c.mem_write(DATA + 5, b"abc\0").expect("write");
    assert_eq!(guest_strlen(c.memory_ref(), DATA + 5).unwrap(), 3);
    assert_eq!(guest_strlen(c.memory_ref(), DATA + 8).unwrap(), 0);
    assert_eq!(guest_strlen(c.memory_ref(), 0).unwrap(), 0);
    c.mem_write(DATA + 0xffe, b"xy").expect("write");
    let inv = guest_strlen(c.memory_ref(), DATA + 0xffe).unwrap_err();
    assert_eq!((inv.address, inv.size, inv.access_type), (DATA + 0x1000, 1, 0));
    assert_eq!([file_cookie(0), file_cookie(1), file_cookie(2)], [0x6800_0000, 0x6800_0100, 0x6800_0200]);
}

#[test]
fn blocks_tell_what_they_need() {
    // add rax, rbx (eight times); then an access, a string instruction, a float
    let plain: Vec<u8> = [0x48, 0x01, 0xd8].repeat(8);
    let needs = |tail: &[u8]| {
        let mut code = plain.clone();
        code.extend_from_slice(tail);
        code.push(0xf4);
        let c = cpu(&code);
        let b = decode_pure_gpr_block(&c, CODE).expect("block");
        (block_has_mem(&b.insns), block_has_string(&b.insns), block_has_fp(&b.insns))
    };
    assert_eq!(needs(&[]), (false, false, false));
    assert_eq!(needs(&[0x48, 0x8b, 0x03]), (true, false, false));
    assert_eq!(needs(&[0xaa]), (true, true, false));
    assert_eq!(needs(&[0xf2, 0x0f, 0x58, 0xc1]), (false, false, true));
}

#[test]
fn thunks_are_followed() {
    let mut c = cpu(&[]);
    // jmp +3; mov rax,0x123456789a; jmp rax
    c.mem_write(CODE, &[0xe9, 3, 0, 0, 0]).expect("jmp");
    c.mem_write(CODE + 8, &[0xeb, 0xf0 + 2]).expect("short");
    c.mem_write(CODE + 8, &[0x48, 0xb8, 0x9a, 0x78, 0x56, 0x34, 0x12, 0, 0, 0, 0xff, 0xe0])
        .expect("mov");
    assert_eq!(resolve_thunk_va(&c, CODE), 0x12_3456_789a);
    // A short jump backwards, four at most.
    c.mem_write(CODE + 0x40, &[0xeb, 0xfe]).expect("self");
    assert_eq!(resolve_thunk_va(&c, CODE + 0x40), CODE + 0x40);
    assert_eq!(resolve_thunk_va(&c, 0x99_0000), 0x99_0000);
}

#[test]
fn chain_table() {
    let mut t = ChainTable::new();
    t.chain_table_insert(0x1000, 7);
    t.chain_table_insert(0x2000, 8);
    t.chain_table_insert(0, 9);
    t.chain_table_insert(0x3000, 0);
    assert_eq!((t.chain_lookup(0x1000), t.chain_lookup(0x2000)), (7, 8));
    assert_eq!((t.chain_lookup(0x3000), t.chain_lookup(0)), (0, 0));
    t.chain_table_insert(0x1000, 70);
    assert_eq!(t.chain_lookup(0x1000), 70);
    assert_eq!(t.chain_follow(0x1000, MAX_CHAIN_DEPTH - 1), 70);
    assert_eq!(t.chain_follow(0x1000, MAX_CHAIN_DEPTH), 0);
    assert!(chain_hash(0x1000) < CHAIN_SLOTS);
    assert_eq!(chain_hash(1), 0x15);
    for k in 1..=2000u64 {
        t.chain_table_insert(k * 0x10, k);
    }
    assert_eq!(t.va[chain_hash(2000 * 0x10)], 2000 * 0x10);
    t.chain_table_clear();
    assert_eq!(t.chain_lookup(0x1000), 0);
}

#[test]
fn return_prediction() {
    let mut s = ShadowStack::new();
    s.shadow_push(5);
    s.shadow_push(6);
    s.shadow_pop_check(6);
    assert_eq!(s.sp, 1);
    s.shadow_pop_check(9);
    assert_eq!(s.sp, 0);
    s.shadow_pop_check(9);
    assert_eq!(s.sp, 0);
    for k in 0..40 {
        s.shadow_push(k);
    }
    assert_eq!(s.sp, 40);
    s.shadow_pop_check(39);
    assert_eq!(s.sp, 39);
    s.drop_predictions();
    assert_eq!(s.sp, 0);
}

#[test]
fn tlb_remembers_pages() {
    let mut mem = GuestMemory::new();
    mem.map(DATA, 0x2000, 7).expect("map");
    mem.write(DATA + 0xffc, &[1, 2, 3, 4, 5, 6, 7, 8]).expect("write");
    let mut t = Tlb::new();
    assert_eq!(t.load(&mut mem, DATA + 0xffc, 4), Ok(0x0403_0201));
    let first = |key: u64| usize::try_from(key % 16 * 4).expect("slot");
    assert_eq!(t.page[first(DATA >> 12)], DATA >> 12);
    assert_eq!(t.next, 1);
    assert_eq!(t.load(&mut mem, DATA + 0xffc, 8), Ok(0x0807_0605_0403_0201));
    assert_eq!(t.tlb_page_ptr(&mut mem, DATA + 0xffc, 8), None);
    let p = t.tlb_page_ptr(&mut mem, DATA + 8, 8).expect("page");
    assert_eq!(t.tlb_page_ptr(&mut mem, DATA + 9, 1), Some(p + 1));
    assert_eq!(t.next, 1);
    assert!(t.tlb_page_ptr(&mut mem, DATA + 0x1000, 4).is_some());
    let second = (DATA >> 12) + 1;
    assert_eq!((t.page[first(second) + 1], t.next), (second, 2));
    assert_eq!(t.tlb_page_ptr(&mut mem, 0x99_0000, 1), None);
    assert_eq!(t.next, 2);
    let inv = t.load(&mut mem, 0x99_0000, 2).expect_err("unmapped");
    assert_eq!((inv.access_type, inv.address, inv.size), (0, 0x99_0000, 2));
    assert!(t.load(&mut mem, DATA, 9).is_err());
    assert_eq!(t.store(&mut mem, DATA, 2, 0xabcd), Ok(()));
    assert_eq!(t.load(&mut mem, DATA, 8), Ok(0xabcd));
    let inv = t.store(&mut mem, 0x99_0000, 4, 1).expect_err("unmapped");
    assert_eq!((inv.access_type, inv.address, inv.size), (1, 0x99_0000, 4));
    t.invalidate();
    assert_eq!((t.page, t.host, t.next), ([TLB_EMPTY; 64], [0; 64], 0));
}

#[test]
fn tlb_sets_hold_four_pages() {
    let mut mem = GuestMemory::new();
    mem.map(0x100_0000, 0x10_0000, 7).expect("map");
    let mut t = Tlb::new();
    // Pages 0x1000, 0x1010, ... share the first set.
    for k in 0..5u64 {
        assert!(t.tlb_page_ptr(&mut mem, 0x100_0000 + k * 0x1_0000, 1).is_some());
    }
    assert_eq!((TLB_SETS, TLB_WAYS), (16, 4));
    assert_eq!(t.page[..5], [0x1040, 0x1010, 0x1020, 0x1030, TLB_EMPTY]);
    assert!(t.tlb_page_ptr(&mut mem, 0x100_1000, 1).is_some());
    assert_eq!(t.page[4..8], [TLB_EMPTY, 0x1001, TLB_EMPTY, TLB_EMPTY]);
    assert_eq!(t.next, 6);
}

#[test]
fn changed_code_is_forgotten() {
    let c = cpu(&[0xeb, 0x00]);
    let mut s = JitState::new();
    s.visit(&c, CODE, 0);
    s.compiled(CODE, Some(Native { entry: 1, id: 1, insn_count: 1 }));
    s.shadow.shadow_push(4);
    s.invalidate_all();
    assert!(s.cache.is_empty());
    assert!(s.ready.is_empty());
    assert_eq!((s.chain.chain_lookup(CODE), s.shadow.sp), (0, 0));
    assert_eq!(s.stats.compiles, 1);
    s.shadow.shadow_push(4);
    s.interpreted(true);
    assert_eq!((s.shadow.sp, s.stats.iced_insns), (0, 1));
    s.interpreted(false);
    assert_eq!(s.stats.iced_insns, 1);
    s.shadow.shadow_push(4);
    s.invalidate_chain_and_shadow();
    assert_eq!(s.shadow.ret, [0u64; 32]);
}

#[test]
fn run_steps_and_reports() {
    let mut c = cpu(&[0x90]);
    let mut s = JitState::new();
    assert_eq!(s.next_step(&c, 0, 5, 5, true), RunStep::Finished);
    assert_eq!(s.next_step(&c, CODE, 0, 5, true), RunStep::Finished);
    assert_eq!(s.next_step(&c, 0, 0, 5, true), RunStep::Step);
    c.install_runtime_hooks(CODE, CODE, vec![1]).expect("hook");
    assert_eq!(s.next_step(&c, 0, 0, 5, true), RunStep::HostStop(CODE));
    assert_eq!((spend(3, 0), spend(3, 4), spend(usize::MAX, 1)), (4, 7, usize::MAX));
    assert!(!report_finished().code.hit);
    let r = report_hook(8, 1);
    assert!(r.code.hit && r.code.address == 8 && !r.invalid_memory.hit);
    let r = report_invalid(fault_of(1, 1, 5, 4).expect("fault"));
    assert!(!r.code.hit && r.invalid_memory.hit && r.invalid_memory.address == 5);
    assert!(fault_of(0, 1, 5, 4).is_none());
}

#[test]
fn registers_to_and_from_compiled_code() {
    let mut regs = RegFile::new();
    regs.set_xmm(3, 0x1111_2222_3333_4444_5555_6666_7777_8888);
    let halves = split_xmm(&regs);
    assert_eq!(halves[6], 0x5555_6666_7777_8888);
    assert_eq!(halves[7], 0x1111_2222_3333_4444);
    let mut gpr = [0u64; 16];
    gpr[5] = 9;
    let mut other = RegFile::new();
    join_regs(&mut other, &gpr, &halves, 0x77, 0x46);
    assert_eq!(other.xmm(3), regs.xmm(3));
    assert_eq!((other.gpr(5), other.rip(), other.rflags()), (9, 0x77, 0x46));
}
