use wie::cpu::{active_backend_name, process_cpu_times_us, timeval_to_us, CpuEngine};
use wie::exec::model::{ACCESS_FETCH, ACCESS_READ, ACCESS_WRITE};
use wie::iced_cpu::IcedCpu;
use wie::regs::{Reg, AF, CF, DF, OF, PF, RAX, RBP, RBX, RCX, RDI, RDX, RSI, RSP, SF, ZF};

const CODE: u64 = 0x1_0000;
const DATA: u64 = 0x2_0000;
const STACK: u64 = 0x3_0000;

fn cpu(code: &[u8]) -> IcedCpu {
    let mut c = IcedCpu::open_x86_64();
    c.mem_map(CODE, 0x1000, 7).expect("code");
    c.mem_map(DATA, 0x1000, 7).expect("data");
    c.mem_map(STACK, 0x1000, 7).expect("stack");
    c.mem_write(CODE, code).expect("write");
    c.regs_mut().set_rip(CODE);
    c.regs_mut().set_gpr(RSP, STACK + 0x800);
    c
}

fn step(c: &mut IcedCpu) {
    c.step_once().expect("step");
}

fn gpr(c: &IcedCpu, i: usize) -> u64 {
    c.regs().gpr(i)
}

fn flags(c: &IcedCpu) -> u64 {
    c.regs().rflags() & (CF | PF | AF | ZF | SF | OF)
}

#[test]
fn fresh_cpu() {
    let c = IcedCpu::open_x86_64();
    assert_eq!(c.regs().rflags(), 2);
    assert_eq!(c.iced_steps(), 0);
    assert!(c.rip_trace_vec().is_empty());
    assert_eq!(c.mem_backend_name(), "hybrid");
    assert!(c.hooks_ref().is_none());
}

#[test]
fn mov_sizes_merge_or_extend() {
    // mov rax, -1; mov al, 1; mov ah, 2; mov ax, 0x304; mov eax, 5
    let mut c = cpu(&[
        0x48, 0xc7, 0xc0, 0xff, 0xff, 0xff, 0xff, 0xb0, 1, 0xb4, 2, 0x66, 0xb8, 4, 3, 0xb8, 5, 0, 0,
        0,
    ]);
    let want = [
        0xffff_ffff_ffff_ffff,
        0xffff_ffff_ffff_ff01,
        0xffff_ffff_ffff_0201,
        0xffff_ffff_ffff_0304,
        5,
    ];
    for w in want {
        step(&mut c);
        assert_eq!(gpr(&c, RAX), w);
    }
    assert_eq!(c.iced_steps(), 5);
}

#[test]
fn add_and_sub_flags() {
    // add al, bl
    let add = |a: u64, b: u64| {
        let mut c = cpu(&[0x00, 0xd8]);
        c.regs_mut().set_gpr(RAX, a);
        c.regs_mut().set_gpr(RBX, b);
        step(&mut c);
        (gpr(&c, RAX), flags(&c))
    };
    assert_eq!(add(0x7f, 1), (0x80, AF | SF | OF));
    assert_eq!(add(0xff, 1), (0, CF | PF | AF | ZF));
    assert_eq!(add(0x10, 0x21), (0x31, 0));
    // sub al, bl
    let sub = |a: u64, b: u64| {
        let mut c = cpu(&[0x28, 0xd8]);
        c.regs_mut().set_gpr(RAX, a);
        c.regs_mut().set_gpr(RBX, b);
        step(&mut c);
        (gpr(&c, RAX), flags(&c))
    };
    assert_eq!(sub(0x80, 1), (0x7f, AF | OF));
    assert_eq!(sub(0, 1), (0xff, CF | PF | AF | SF));
    assert_eq!(sub(5, 5), (0, PF | ZF));
}

#[test]
fn sbb_borrow_when_source_plus_carry_wraps() {
    // sbb al, bl with CF set and bl = 0xff: the borrow is there although bl + CF is 0x100.
    let mut c = cpu(&[0x18, 0xd8]);
    c.regs_mut().set_gpr(RAX, 0x10);
    c.regs_mut().set_gpr(RBX, 0xff);
    c.regs_mut().set_flag(CF, true);
    step(&mut c);
    assert_eq!(gpr(&c, RAX), 0x10);
    assert!(c.regs().flag(CF));
    // cmp + sbb rax, rax makes a mask of the borrow.
    let mut c = cpu(&[0x48, 0x39, 0xd8, 0x48, 0x19, 0xc0]);
    c.regs_mut().set_gpr(RAX, 1);
    c.regs_mut().set_gpr(RBX, 2);
    step(&mut c);
    step(&mut c);
    assert_eq!(gpr(&c, RAX), u64::MAX);
    assert!(c.regs().flag(CF));
}

#[test]
fn adc_carries_through() {
    let mut c = cpu(&[0x48, 0x11, 0xd8]);
    c.regs_mut().set_gpr(RAX, u64::MAX);
    c.regs_mut().set_gpr(RBX, u64::MAX);
    c.regs_mut().set_flag(CF, true);
    step(&mut c);
    assert_eq!(gpr(&c, RAX), u64::MAX);
    assert!(c.regs().flag(CF));
}

#[test]
fn inc_and_dec_keep_carry() {
    // inc al; dec al
    let mut c = cpu(&[0xfe, 0xc0, 0xfe, 0xc8]);
    c.regs_mut().set_gpr(RAX, 0xff);
    c.regs_mut().set_flag(CF, true);
    step(&mut c);
    assert_eq!((gpr(&c, RAX), flags(&c)), (0, CF | PF | AF | ZF));
    step(&mut c);
    assert_eq!((gpr(&c, RAX), flags(&c)), (0xff, CF | PF | AF | SF));
}

#[test]
fn neg_not_bswap() {
    // neg eax; not eax; bswap eax; bswap eax
    let mut c = cpu(&[0xf7, 0xd8, 0xf7, 0xd0, 0x0f, 0xc8, 0x0f, 0xc8]);
    c.regs_mut().set_gpr(RAX, 0x1234_5678);
    step(&mut c);
    assert_eq!(gpr(&c, RAX), 0xedcb_a988);
    assert!(c.regs().flag(CF));
    step(&mut c);
    assert_eq!(gpr(&c, RAX), 0x1234_5677);
    step(&mut c);
    assert_eq!(gpr(&c, RAX), 0x7756_3412);
    step(&mut c);
    assert_eq!(gpr(&c, RAX), 0x1234_5677);
}

#[test]
fn movsx_and_movzx() {
    // movsx eax, bl; movzx eax, bx; movsxd rax, ebx
    let mut c = cpu(&[0x0f, 0xbe, 0xc3, 0x0f, 0xb7, 0xc3, 0x48, 0x63, 0xc3]);
    c.regs_mut().set_gpr(RBX, 0x8000_80f0);
    step(&mut c);
    assert_eq!(gpr(&c, RAX), 0xffff_fff0);
    step(&mut c);
    assert_eq!(gpr(&c, RAX), 0x80f0);
    step(&mut c);
    assert_eq!(gpr(&c, RAX), 0xffff_ffff_8000_80f0);
}

#[test]
fn multiply() {
    // mul ebx
    let mut c = cpu(&[0xf7, 0xe3]);
    c.regs_mut().set_gpr(RAX, 0xffff_ffff);
    c.regs_mut().set_gpr(RBX, 2);
    step(&mut c);
    assert_eq!((gpr(&c, RAX), gpr(&c, RDX)), (0xffff_fffe, 1));
    assert!(c.regs().flag(CF) && c.regs().flag(OF));
    // imul rbx (one operand): -1 * 3
    let mut c = cpu(&[0x48, 0xf7, 0xeb]);
    c.regs_mut().set_gpr(RAX, u64::MAX);
    c.regs_mut().set_gpr(RBX, 3);
    step(&mut c);
    assert_eq!((gpr(&c, RAX), gpr(&c, RDX)), (u64::MAX - 2, u64::MAX));
    assert!(!c.regs().flag(CF));
    // imul eax, ebx, -2
    let mut c = cpu(&[0x6b, 0xc3, 0xfe]);
    c.regs_mut().set_gpr(RBX, 0x4000_0001);
    step(&mut c);
    assert_eq!(gpr(&c, RAX), 0x7fff_fffe);
    assert!(c.regs().flag(OF));
    // imul bl: AL * BL -> AX
    let mut c = cpu(&[0xf6, 0xeb]);
    c.regs_mut().set_gpr(RAX, 0xf0);
    c.regs_mut().set_gpr(RBX, 0x10);
    step(&mut c);
    assert_eq!(gpr(&c, RAX), 0xff00);
}

#[test]
fn divide() {
    // div ebx
    let mut c = cpu(&[0xf7, 0xf3]);
    c.regs_mut().set_gpr(RDX, 1);
    c.regs_mut().set_gpr(RAX, 5);
    c.regs_mut().set_gpr(RBX, 0x10);
    step(&mut c);
    assert_eq!((gpr(&c, RAX), gpr(&c, RDX)), (0x1000_0000, 5));
    // idiv rbx: -7 / 2 = -3 rest -1
    let mut c = cpu(&[0x48, 0xf7, 0xfb]);
    c.regs_mut().set_gpr(RDX, u64::MAX);
    c.regs_mut().set_gpr(RAX, 0u64.wrapping_sub(7));
    c.regs_mut().set_gpr(RBX, 2);
    step(&mut c);
    assert_eq!(gpr(&c, RAX), 0u64.wrapping_sub(3));
    assert_eq!(gpr(&c, RDX), u64::MAX);
    // idiv bl on AX
    let mut c = cpu(&[0xf6, 0xfb]);
    c.regs_mut().set_gpr(RAX, 0xfff9);
    c.regs_mut().set_gpr(RBX, 2);
    step(&mut c);
    assert_eq!(gpr(&c, RAX), 0xfffd);
    let err = |code: &[u8], dx: u64, ax: u64, bx: u64| {
        let mut c = cpu(code);
        c.regs_mut().set_gpr(RDX, dx);
        c.regs_mut().set_gpr(RAX, ax);
        c.regs_mut().set_gpr(RBX, bx);
        let e = c.step_once().unwrap_err();
        assert_eq!(c.regs().rip(), CODE);
        e.message().to_string()
    };
    assert_eq!(err(&[0xf7, 0xf3], 0, 1, 0), "div by zero at 0x10000");
    assert_eq!(err(&[0xf7, 0xfb], 0, 1, 0), "idiv by zero at 0x10000");
    assert_eq!(err(&[0xf7, 0xf3], 2, 0, 1), "div overflow");
    assert_eq!(err(&[0xf7, 0xfb], 0, 0x8000_0000, 1), "idiv overflow");
    assert_eq!(err(&[0xf6, 0xfb], 0, 0x8000, 0xff), "idiv overflow");
}

#[test]
fn shifts_and_rotates() {
    // shl al, 1 / shr al, 1 / sar al, 1 / rol al, 1 / ror al, 1
    let run = |modrm: u8, al: u64| {
        let mut c = cpu(&[0xd0, modrm]);
        c.regs_mut().set_gpr(RAX, al);
        step(&mut c);
        (gpr(&c, RAX), flags(&c))
    };
    assert_eq!(run(0xe0, 0xc1), (0x82, CF | PF | SF));
    assert_eq!(run(0xe8, 0x81), (0x40, CF | OF));
    assert_eq!(run(0xf8, 0x81), (0xc0, CF | PF | SF));
    assert_eq!(run(0xc0, 0x81), (0x03, CF | OF));
    assert_eq!(run(0xc8, 0x01), (0x80, CF | OF));
    // sar eax, cl with a count beyond the width, and a count of zero
    let mut c = cpu(&[0xd3, 0xf8, 0xd3, 0xe0]);
    c.regs_mut().set_gpr(RAX, 0x8000_0000);
    c.regs_mut().set_gpr(RCX, 36);
    step(&mut c);
    assert_eq!(gpr(&c, RAX), 0xf800_0000);
    let before = c.regs().rflags();
    c.regs_mut().set_gpr(RCX, 64);
    step(&mut c);
    assert_eq!((gpr(&c, RAX), c.regs().rflags()), (0xf800_0000, before));
    // rol rax, 4
    let mut c = cpu(&[0x48, 0xc1, 0xc0, 4]);
    c.regs_mut().set_gpr(RAX, 0x1234_5678_9abc_def0);
    step(&mut c);
    assert_eq!(gpr(&c, RAX), 0x2345_6789_abcd_ef01);
}

#[test]
fn bit_instructions() {
    // bts eax, ebx counts modulo 32
    let mut c = cpu(&[0x0f, 0xab, 0xd8]);
    c.regs_mut().set_gpr(RBX, 33);
    step(&mut c);
    assert_eq!(gpr(&c, RAX), 2);
    assert!(!c.regs().flag(CF));
    // btr [rdi], rbx reaches back with a negative offset
    let mut c = cpu(&[0x48, 0x0f, 0xb3, 0x1f]);
    c.mem_write(DATA + 0x0f, &[0x80]).expect("write");
    c.regs_mut().set_gpr(RDI, DATA + 0x10);
    c.regs_mut().set_gpr(RBX, u64::MAX);
    step(&mut c);
    assert!(c.regs().flag(CF));
    let mut b = [9_u8; 1];
    c.mem_read(DATA + 0x0f, &mut b).expect("read");
    assert_eq!(b, [0]);
    // btc ax, 3 and bt ax, 3
    let mut c = cpu(&[0x66, 0x0f, 0xba, 0xf8, 3, 0x66, 0x0f, 0xba, 0xe0, 3]);
    step(&mut c);
    assert_eq!(gpr(&c, RAX), 8);
    step(&mut c);
    assert_eq!(gpr(&c, RAX), 8);
    assert!(c.regs().flag(CF));
}

#[test]
fn stack_round_trip() {
    // push rax; pop rbx; push 2-byte ax; pop cx; pushfq; popfq; leave
    let mut c = cpu(&[0x50, 0x5b, 0x66, 0x50, 0x66, 0x59, 0x9c, 0x9d, 0xc9]);
    c.regs_mut().set_gpr(RAX, 0x1122_3344_5566_7788);
    let rsp = gpr(&c, RSP);
    step(&mut c);
    assert_eq!(gpr(&c, RSP), rsp - 8);
    step(&mut c);
    assert_eq!((gpr(&c, RSP), gpr(&c, RBX)), (rsp, 0x1122_3344_5566_7788));
    step(&mut c);
    assert_eq!(gpr(&c, RSP), rsp - 2);
    step(&mut c);
    assert_eq!((gpr(&c, RSP), gpr(&c, RCX)), (rsp, 0x7788));
    step(&mut c);
    step(&mut c);
    assert_eq!((gpr(&c, RSP), c.regs().rflags()), (rsp, 2));
    c.mem_write(STACK + 0x100, &0x4242_u64.to_le_bytes()).expect("write");
    c.regs_mut().set_gpr(RBP, STACK + 0x100);
    step(&mut c);
    assert_eq!((gpr(&c, RSP), gpr(&c, RBP)), (STACK + 0x108, 0x4242));
}

#[test]
fn call_and_return() {
    // call +3; (3 bytes skipped); ret 8
    let mut c = cpu(&[0xe8, 3, 0, 0, 0, 0x90, 0x90, 0x90, 0xc2, 8, 0]);
    let rsp = gpr(&c, RSP);
    step(&mut c);
    assert_eq!((c.regs().rip(), gpr(&c, RSP)), (CODE + 8, rsp - 8));
    step(&mut c);
    assert_eq!((c.regs().rip(), gpr(&c, RSP)), (CODE + 5, rsp + 8));
    // call [rsp+8] reads its target before it pushes
    let mut c = cpu(&[0xff, 0x54, 0x24, 0x08]);
    let rsp = gpr(&c, RSP);
    c.mem_write(rsp + 8, &0x1234_u64.to_le_bytes()).expect("write");
    step(&mut c);
    assert_eq!(c.regs().rip(), 0x1234);
}

#[test]
fn conditions() {
    // cmp eax, ebx; then jl, cmovl, setl
    for (a, b, less) in [(1_u64, 2_u64, true), (2, 1, false), (0xffff_ffff, 0, true)] {
        let mut c = cpu(&[0x39, 0xd8, 0x0f, 0x4c, 0xca, 0x0f, 0x9c, 0xc2, 0x7c, 0x10]);
        c.regs_mut().set_gpr(RAX, a);
        c.regs_mut().set_gpr(RBX, b);
        c.regs_mut().set_gpr(RDX, 77);
        step(&mut c);
        step(&mut c);
        assert_eq!(gpr(&c, RCX), if less { 77 } else { 0 });
        step(&mut c);
        assert_eq!(gpr(&c, RDX), u64::from(less));
        step(&mut c);
        assert_eq!(c.regs().rip(), CODE + 10 + if less { 0x10 } else { 0 });
    }
}

#[test]
fn exchange() {
    // xchg rax, rbx; xchg rax, rbx; cmpxchg ecx, ebx; cmpxchg ecx, ebx
    let mut c = cpu(&[0x48, 0x93, 0x48, 0x93, 0x0f, 0xb1, 0xd9, 0x0f, 0xb1, 0xd9]);
    c.regs_mut().set_gpr(RAX, 1);
    c.regs_mut().set_gpr(RBX, 2);
    c.regs_mut().set_gpr(RCX, 3);
    step(&mut c);
    assert_eq!((gpr(&c, RAX), gpr(&c, RBX)), (2, 1));
    step(&mut c);
    assert_eq!((gpr(&c, RAX), gpr(&c, RBX)), (1, 2));
    step(&mut c);
    assert_eq!((gpr(&c, RAX), gpr(&c, RCX), c.regs().flag(ZF)), (3, 3, false));
    step(&mut c);
    assert_eq!((gpr(&c, RAX), gpr(&c, RCX), c.regs().flag(ZF)), (3, 2, true));
}

#[test]
fn conversions() {
    // cbw; cwde; cdqe; cdq; cqo; cwd
    let mut c = cpu(&[0x66, 0x98, 0x98, 0x48, 0x98, 0x99, 0x48, 0x99, 0x66, 0x99]);
    c.regs_mut().set_gpr(RAX, 0x80);
    step(&mut c);
    assert_eq!(gpr(&c, RAX), 0xff80);
    step(&mut c);
    assert_eq!(gpr(&c, RAX), 0xffff_ff80);
    step(&mut c);
    assert_eq!(gpr(&c, RAX), 0xffff_ffff_ffff_ff80);
    step(&mut c);
    assert_eq!(gpr(&c, RDX), 0xffff_ffff);
    step(&mut c);
    assert_eq!(gpr(&c, RDX), u64::MAX);
    c.regs_mut().set_gpr(RAX, 1);
    step(&mut c);
    assert_eq!(gpr(&c, RDX), 0xffff_ffff_ffff_0000);
}

#[test]
fn rep_stos_stays_until_the_count_is_seen_at_zero() {
    // rep stosb
    let mut c = cpu(&[0xf3, 0xaa]);
    c.regs_mut().set_gpr(RAX, 0x5a);
    c.regs_mut().set_gpr(RDI, DATA);
    c.regs_mut().set_gpr(RCX, 2);
    step(&mut c);
    assert_eq!((c.regs().rip(), gpr(&c, RCX), gpr(&c, RDI)), (CODE, 1, DATA + 1));
    step(&mut c);
    assert_eq!((c.regs().rip(), gpr(&c, RCX), gpr(&c, RDI)), (CODE, 0, DATA + 2));
    step(&mut c);
    assert_eq!((c.regs().rip(), gpr(&c, RCX), gpr(&c, RDI)), (CODE + 2, 0, DATA + 2));
    let mut b = [0_u8; 3];
    c.mem_read(DATA, &mut b).expect("read");
    assert_eq!(b, [0x5a, 0x5a, 0]);
}

#[test]
fn string_moves_follow_the_direction() {
    // std; movsd; cld; lodsb
    let mut c = cpu(&[0xfd, 0xa5, 0xfc, 0xac]);
    c.mem_write(DATA + 0x10, b"abcd").expect("write");
    c.regs_mut().set_gpr(RSI, DATA + 0x10);
    c.regs_mut().set_gpr(RDI, DATA + 0x20);
    step(&mut c);
    assert!(c.regs().flag(DF));
    step(&mut c);
    assert_eq!((gpr(&c, RSI), gpr(&c, RDI)), (DATA + 0x0c, DATA + 0x1c));
    let mut b = [0_u8; 4];
    c.mem_read(DATA + 0x20, &mut b).expect("read");
    assert_eq!(&b, b"abcd");
    step(&mut c);
    c.regs_mut().set_gpr(RSI, DATA + 0x11);
    step(&mut c);
    assert_eq!((gpr(&c, RAX), gpr(&c, RSI)), (u64::from(b'b'), DATA + 0x12));
}

#[test]
fn repne_scas_and_repe_cmps_end_early() {
    // repne scasb
    let mut c = cpu(&[0xf2, 0xae]);
    c.mem_write(DATA, b"xy").expect("write");
    c.regs_mut().set_gpr(RAX, u64::from(b'y'));
    c.regs_mut().set_gpr(RDI, DATA);
    c.regs_mut().set_gpr(RCX, 9);
    step(&mut c);
    assert_eq!((c.regs().rip(), gpr(&c, RCX)), (CODE, 8));
    step(&mut c);
    assert_eq!((c.regs().rip(), gpr(&c, RCX)), (CODE + 2, 7));
    // repe cmpsb
    let mut c = cpu(&[0xf3, 0xa6]);
    c.mem_write(DATA, b"ab").expect("write");
    c.mem_write(DATA + 0x10, b"ac").expect("write");
    c.regs_mut().set_gpr(RSI, DATA);
    c.regs_mut().set_gpr(RDI, DATA + 0x10);
    c.regs_mut().set_gpr(RCX, 5);
    step(&mut c);
    assert_eq!((c.regs().rip(), gpr(&c, RCX)), (CODE, 4));
    step(&mut c);
    assert_eq!((c.regs().rip(), gpr(&c, RCX), c.regs().flag(CF)), (CODE + 2, 3, true));
}

#[test]
fn vector_moves() {
    // movups xmm0, [rdi]; movss xmm1, xmm0; movd eax, xmm0; pxor xmm0, xmm0; movups [rsi], xmm1;
    // movq rbx, xmm1 is refused as a register destination
    let mut c = cpu(&[
        0x0f, 0x10, 0x07, 0xf3, 0x0f, 0x10, 0xc8, 0x66, 0x0f, 0x7e, 0xc0, 0x66, 0x0f, 0xef, 0xc0,
        0x0f, 0x11, 0x0e, 0x66, 0x48, 0x0f, 0x7e, 0xcb,
    ]);
    let bytes: Vec<u8> = (1..=16).collect();
    c.mem_write(DATA, &bytes).expect("write");
    c.regs_mut().set_gpr(RDI, DATA);
    c.regs_mut().set_gpr(RSI, DATA + 0x40);
    c.regs_mut().set_xmm(1, u128::MAX);
    step(&mut c);
    assert_eq!(c.regs().xmm(0), 0x100f_0e0d_0c0b_0a09_0807_0605_0403_0201);
    step(&mut c);
    assert_eq!(c.regs().xmm(1), 0xffff_ffff_ffff_ffff_ffff_ffff_0403_0201);
    step(&mut c);
    assert_eq!(gpr(&c, RAX), 0x0403_0201);
    step(&mut c);
    assert_eq!(c.regs().xmm(0), 0);
    step(&mut c);
    let mut b = [0_u8; 6];
    c.mem_read(DATA + 0x40, &mut b).expect("read");
    assert_eq!(b, [1, 2, 3, 4, 0xff, 0xff]);
    assert_eq!(c.step_once().unwrap_err().message(), "sse write op kind Register");
}

#[test]
fn stubs_for_hardware() {
    // cpuid; in al, 0x60; out 0x60, al; rdtsc
    let mut c = cpu(&[0x0f, 0xa2, 0xe4, 0x60, 0xe6, 0x60, 0x0f, 0x31]);
    for i in [RAX, RBX, RCX, RDX] {
        c.regs_mut().set_gpr(i, 9);
    }
    step(&mut c);
    assert_eq!([RAX, RBX, RCX, RDX].map(|i| gpr(&c, i)), [0; 4]);
    c.regs_mut().set_gpr(RAX, 9);
    step(&mut c);
    assert_eq!(gpr(&c, RAX), 0);
    step(&mut c);
    step(&mut c);
    // Nanoseconds since the epoch: later than 2020, and split over two registers.
    let t = gpr(&c, RDX) << 32 | gpr(&c, RAX);
    assert!(t > 1_577_836_800_000_000_000);
    assert!(gpr(&c, RAX) <= 0xffff_ffff);
}

#[test]
fn faults_leave_rip_alone() {
    // mov rax, [rdi] with rdi unmapped
    let mut c = cpu(&[0x48, 0x8b, 0x07]);
    c.regs_mut().set_gpr(RDI, 0x9_0000);
    assert_eq!(
        c.step_once().unwrap_err().message(),
        "invalid memory 0 at 0x90000 size=8"
    );
    assert_eq!((c.regs().rip(), c.iced_steps()), (CODE, 0));
    let run = c.run_until_stop(CODE, 0, 0, 5, 0, 0).expect("run");
    assert!(run.invalid_memory.hit && !run.code.hit);
    assert_eq!(
        (run.invalid_memory.access_type, run.invalid_memory.address, run.invalid_memory.size),
        (ACCESS_READ, 0x9_0000, 8)
    );
    // mov [rdi], eax
    let mut c = cpu(&[0x89, 0x07]);
    c.regs_mut().set_gpr(RDI, 0x9_0000);
    c.regs_mut().set_gpr(RAX, 7);
    let run = c.run_until_stop(CODE, 0, 0, 5, 0, 0).expect("run");
    assert_eq!(
        (run.invalid_memory.access_type, run.invalid_memory.value),
        (ACCESS_WRITE, 7)
    );
    // fetch from nowhere
    let run = c.run_until_stop(0x9_0000, 0, 0, 5, 0, 0).expect("run");
    assert_eq!(
        (run.invalid_memory.access_type, run.invalid_memory.address),
        (ACCESS_FETCH, 0x9_0000)
    );
}

#[test]
fn unknown_instructions_are_named() {
    // ud2, then bytes that hold no instruction
    let mut c = cpu(&[0x0f, 0x0b]);
    assert_eq!(c.step_once().unwrap_err().message(), "unimplemented mnemonic Ud2 at 0x10000");
    let mut c = cpu(&[0x06]);
    assert_eq!(c.step_once().unwrap_err().message(), "invalid instruction at 0x10000");
    // push fs: the register holds no integer here
    let mut c = cpu(&[0x0f, 0xa0]);
    assert_eq!(c.step_once().unwrap_err().message(), "unsupported register");
    // jmp far [rdi]
    let mut c = cpu(&[0x48, 0xff, 0x2f]);
    c.regs_mut().set_gpr(RDI, DATA);
    assert!(c.step_once().is_err() || c.regs().rip() == 0);
    assert!(wie::regs::RegFile::new().read_reg(Reg::Xmm(0)).is_err());
    // fxsave needs a size that no integer has
    let mut c = cpu(&[0x66, 0x0f, 0x6f, 0x07]);
    c.regs_mut().set_gpr(RDI, 0x9_0000);
    assert_eq!(c.step_once().unwrap_err().message(), "invalid memory 0 at 0x90000 size=16");
}

#[test]
fn run_ends_at_the_budget_the_end_address_or_a_hook() {
    // nop x 4
    let code = [0x90, 0x90, 0x90, 0x90];
    let mut c = cpu(&code);
    let run = c.run_until_stop(CODE, 0, 0, 3, 0, 0).expect("run");
    assert!(!run.code.hit && !run.invalid_memory.hit);
    assert_eq!((c.regs().rip(), c.iced_steps()), (CODE + 3, 3));
    let run = c.run_until_stop(CODE, CODE + 2, 0, 100, 0, 0).expect("run");
    assert!(!run.code.hit);
    assert_eq!(c.regs().rip(), CODE + 2);
    // Stop bit for CODE + 3 only.
    c.install_runtime_hooks(CODE, CODE + 7, vec![0b1000]).expect("hooks");
    let run = c.run_until_stop(CODE, 0, 0, 100, 0, 0).expect("run");
    assert!(run.code.hit);
    assert_eq!((run.code.address, run.code.size), (CODE + 3, 1));
    assert_eq!(c.step_once().unwrap_err().message(), "host_stop at 0x10003");
    assert_eq!(
        c.install_runtime_hooks(CODE, CODE + 8, vec![0]).unwrap_err().message(),
        "stop_bitmap too small: 1 < 2"
    );
    assert_eq!(
        c.install_runtime_hooks(CODE, CODE, vec![]).unwrap_err().message(),
        "stop_bitmap too small: 0 < 1"
    );
}

#[test]
fn trace_samples_and_failure_text() {
    // 20 nops, then ud2
    let mut code = vec![0x90; 20];
    code.extend([0x0f, 0x0b]);
    let mut c = cpu(&code);
    c.regs_mut().set_gpr(RAX, 0xabc);
    let e = c.run_until_stop(CODE, 0, 0, 0, 0, 0).unwrap_err();
    assert_eq!(
        e.message(),
        "unimplemented mnemonic Ud2 at 0x10014; iced_regs rax=0xabc rbx=0x0 rcx=0x0 rdx=0x0 \
         rsp=0x30800 rbp=0x0 rsi=0x0 rdi=0x0 r8=0x0 r9=0x0 r12=0x0 r13=0x0 r14=0x0 r15=0x0; \
         iced_rip_trace=[0x10000 → 0x10010]"
    );
    assert_eq!(c.rip_trace_vec(), vec![CODE, CODE + 16]);
    // The ring keeps the last 32 steps.
    let mut c = cpu(&[0x90; 64]);
    for _ in 0..40 {
        step(&mut c);
    }
    let want: Vec<u64> = (8..40).map(|k| CODE + k).collect();
    assert_eq!(c.rip_trace_vec(), want);
    assert_eq!(c.cpu_stats().iced_insns, 40);
}

#[test]
fn win64_return() {
    let mut c = cpu(&[0x90]);
    let rsp = gpr(&c, RSP);
    c.mem_write(rsp, &0x7777_u64.to_le_bytes()).expect("write");
    assert_eq!(c.return_from_win64_api(5).expect("return"), 0x7777);
    assert_eq!((gpr(&c, RAX), gpr(&c, RSP), c.regs().rip()), (5, rsp + 8, 0x7777));
    c.write_rsp(STACK + 0xffc).expect("rsp");
    assert_eq!(
        c.return_from_win64_api(5).unwrap_err().message(),
        "return_from_win64_api stack read: mem_read unmapped 0x31000"
    );
}

#[test]
fn register_accessors() {
    let mut c = cpu(&[0x90]);
    c.write_rip(1).expect("w");
    c.write_rax(2).expect("w");
    c.write_rcx(3).expect("w");
    c.write_rdx(4).expect("w");
    c.write_r8(5).expect("w");
    c.write_r9(6).expect("w");
    c.write_rsp(7).expect("w");
    c.regs_mut().set_gpr(RBX, 8);
    c.regs_mut().set_gpr(12, 9);
    let got = [
        c.read_rip(),
        c.read_rax(),
        c.read_rcx(),
        c.read_rdx(),
        c.read_r8(),
        c.read_r9(),
        c.read_rsp(),
        c.read_rbx(),
        c.read_r12(),
    ]
    .map(|r| r.expect("read"));
    assert_eq!(got, [1, 2, 3, 4, 5, 6, 7, 8, 9]);
}

#[test]
fn host_times() {
    assert_eq!(timeval_to_us(2, 5), 2_000_005);
    assert_eq!(timeval_to_us(-1, -1), 0);
    assert_eq!(timeval_to_us(i64::MAX, 7), u64::MAX);
    assert_eq!(process_cpu_times_us(None), (0, 0));
    assert_eq!(process_cpu_times_us(Some(((1, 2), (3, 4)))), (1_000_002, 3_000_004));
    assert_eq!(active_backend_name(None), "jit");
    assert_eq!(active_backend_name(Some("ICED")), "iced");
    assert_eq!(active_backend_name(Some("jit")), "jit");
    assert_eq!(active_backend_name(Some("unicorn")), "jit");
}
