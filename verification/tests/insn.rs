use iced_x86::{Code, MemorySize, Mnemonic, OpKind, Register};
use wie::exec::sse::{MOVSD_XMMM64_XMM, MOVSD_XMM_XMMM64};
use wie::insn::decode::{decode, reg_from_code};
use wie::insn::{kind, mnemonic};
use wie::regs::Reg;

#[test]
fn mnemonic_codes() {
    let table = [
        (mnemonic::ADC, Mnemonic::Adc),
        (mnemonic::ADD, Mnemonic::Add),
        (mnemonic::ADDPD, Mnemonic::Addpd),
        (mnemonic::ADDPS, Mnemonic::Addps),
        (mnemonic::ADDSD, Mnemonic::Addsd),
        (mnemonic::ADDSS, Mnemonic::Addss),
        (mnemonic::AND, Mnemonic::And),
        (mnemonic::ANDNPD, Mnemonic::Andnpd),
        (mnemonic::ANDNPS, Mnemonic::Andnps),
        (mnemonic::ANDPD, Mnemonic::Andpd),
        (mnemonic::ANDPS, Mnemonic::Andps),
        (mnemonic::BSWAP, Mnemonic::Bswap),
        (mnemonic::BT, Mnemonic::Bt),
        (mnemonic::BTC, Mnemonic::Btc),
        (mnemonic::BTR, Mnemonic::Btr),
        (mnemonic::BTS, Mnemonic::Bts),
        (mnemonic::CALL, Mnemonic::Call),
        (mnemonic::CBW, Mnemonic::Cbw),
        (mnemonic::CDQ, Mnemonic::Cdq),
        (mnemonic::CDQE, Mnemonic::Cdqe),
        (mnemonic::CLC, Mnemonic::Clc),
        (mnemonic::CLD, Mnemonic::Cld),
        (mnemonic::CMC, Mnemonic::Cmc),
        (mnemonic::CMOVA, Mnemonic::Cmova),
        (mnemonic::CMOVAE, Mnemonic::Cmovae),
        (mnemonic::CMOVB, Mnemonic::Cmovb),
        (mnemonic::CMOVBE, Mnemonic::Cmovbe),
        (mnemonic::CMOVE, Mnemonic::Cmove),
        (mnemonic::CMOVG, Mnemonic::Cmovg),
        (mnemonic::CMOVGE, Mnemonic::Cmovge),
        (mnemonic::CMOVL, Mnemonic::Cmovl),
        (mnemonic::CMOVLE, Mnemonic::Cmovle),
        (mnemonic::CMOVNE, Mnemonic::Cmovne),
        (mnemonic::CMOVNO, Mnemonic::Cmovno),
        (mnemonic::CMOVNP, Mnemonic::Cmovnp),
        (mnemonic::CMOVNS, Mnemonic::Cmovns),
        (mnemonic::CMOVO, Mnemonic::Cmovo),
        (mnemonic::CMOVP, Mnemonic::Cmovp),
        (mnemonic::CMOVS, Mnemonic::Cmovs),
        (mnemonic::CMP, Mnemonic::Cmp),
        (mnemonic::CMPSB, Mnemonic::Cmpsb),
        (mnemonic::CMPSD, Mnemonic::Cmpsd),
        (mnemonic::CMPSQ, Mnemonic::Cmpsq),
        (mnemonic::CMPSW, Mnemonic::Cmpsw),
        (mnemonic::CMPXCHG, Mnemonic::Cmpxchg),
        (mnemonic::CPUID, Mnemonic::Cpuid),
        (mnemonic::CQO, Mnemonic::Cqo),
        (mnemonic::CWD, Mnemonic::Cwd),
        (mnemonic::CWDE, Mnemonic::Cwde),
        (mnemonic::DEC, Mnemonic::Dec),
        (mnemonic::DIV, Mnemonic::Div),
        (mnemonic::DIVPD, Mnemonic::Divpd),
        (mnemonic::DIVPS, Mnemonic::Divps),
        (mnemonic::DIVSD, Mnemonic::Divsd),
        (mnemonic::DIVSS, Mnemonic::Divss),
        (mnemonic::ENDBR32, Mnemonic::Endbr32),
        (mnemonic::ENDBR64, Mnemonic::Endbr64),
        (mnemonic::FINIT, Mnemonic::Finit),
        (mnemonic::FNCLEX, Mnemonic::Fnclex),
        (mnemonic::FNINIT, Mnemonic::Fninit),
        (mnemonic::IDIV, Mnemonic::Idiv),
        (mnemonic::IMUL, Mnemonic::Imul),
        (mnemonic::IN, Mnemonic::In),
        (mnemonic::INC, Mnemonic::Inc),
        (mnemonic::INSB, Mnemonic::Insb),
        (mnemonic::INSD, Mnemonic::Insd),
        (mnemonic::INSW, Mnemonic::Insw),
        (mnemonic::JA, Mnemonic::Ja),
        (mnemonic::JAE, Mnemonic::Jae),
        (mnemonic::JB, Mnemonic::Jb),
        (mnemonic::JBE, Mnemonic::Jbe),
        (mnemonic::JE, Mnemonic::Je),
        (mnemonic::JG, Mnemonic::Jg),
        (mnemonic::JGE, Mnemonic::Jge),
        (mnemonic::JL, Mnemonic::Jl),
        (mnemonic::JLE, Mnemonic::Jle),
        (mnemonic::JMP, Mnemonic::Jmp),
        (mnemonic::JNE, Mnemonic::Jne),
        (mnemonic::JNO, Mnemonic::Jno),
        (mnemonic::JNP, Mnemonic::Jnp),
        (mnemonic::JNS, Mnemonic::Jns),
        (mnemonic::JO, Mnemonic::Jo),
        (mnemonic::JP, Mnemonic::Jp),
        (mnemonic::JS, Mnemonic::Js),
        (mnemonic::LEA, Mnemonic::Lea),
        (mnemonic::LEAVE, Mnemonic::Leave),
        (mnemonic::LODSB, Mnemonic::Lodsb),
        (mnemonic::LODSD, Mnemonic::Lodsd),
        (mnemonic::LODSQ, Mnemonic::Lodsq),
        (mnemonic::MOV, Mnemonic::Mov),
        (mnemonic::MOVAPD, Mnemonic::Movapd),
        (mnemonic::MOVAPS, Mnemonic::Movaps),
        (mnemonic::MOVD, Mnemonic::Movd),
        (mnemonic::MOVDQA, Mnemonic::Movdqa),
        (mnemonic::MOVDQU, Mnemonic::Movdqu),
        (mnemonic::MOVQ, Mnemonic::Movq),
        (mnemonic::MOVSB, Mnemonic::Movsb),
        (mnemonic::MOVSD, Mnemonic::Movsd),
        (mnemonic::MOVSQ, Mnemonic::Movsq),
        (mnemonic::MOVSS, Mnemonic::Movss),
        (mnemonic::MOVSW, Mnemonic::Movsw),
        (mnemonic::MOVSX, Mnemonic::Movsx),
        (mnemonic::MOVSXD, Mnemonic::Movsxd),
        (mnemonic::MOVUPD, Mnemonic::Movupd),
        (mnemonic::MOVUPS, Mnemonic::Movups),
        (mnemonic::MOVZX, Mnemonic::Movzx),
        (mnemonic::MUL, Mnemonic::Mul),
        (mnemonic::MULPD, Mnemonic::Mulpd),
        (mnemonic::MULPS, Mnemonic::Mulps),
        (mnemonic::MULSD, Mnemonic::Mulsd),
        (mnemonic::MULSS, Mnemonic::Mulss),
        (mnemonic::NEG, Mnemonic::Neg),
        (mnemonic::NOP, Mnemonic::Nop),
        (mnemonic::NOT, Mnemonic::Not),
        (mnemonic::OR, Mnemonic::Or),
        (mnemonic::ORPD, Mnemonic::Orpd),
        (mnemonic::ORPS, Mnemonic::Orps),
        (mnemonic::OUT, Mnemonic::Out),
        (mnemonic::OUTSB, Mnemonic::Outsb),
        (mnemonic::OUTSD, Mnemonic::Outsd),
        (mnemonic::OUTSW, Mnemonic::Outsw),
        (mnemonic::PAND, Mnemonic::Pand),
        (mnemonic::PANDN, Mnemonic::Pandn),
        (mnemonic::POP, Mnemonic::Pop),
        (mnemonic::POR, Mnemonic::Por),
        (mnemonic::PUSH, Mnemonic::Push),
        (mnemonic::PXOR, Mnemonic::Pxor),
        (mnemonic::RDTSC, Mnemonic::Rdtsc),
        (mnemonic::RET, Mnemonic::Ret),
        (mnemonic::ROL, Mnemonic::Rol),
        (mnemonic::ROR, Mnemonic::Ror),
        (mnemonic::SAL, Mnemonic::Sal),
        (mnemonic::SAR, Mnemonic::Sar),
        (mnemonic::SBB, Mnemonic::Sbb),
        (mnemonic::SCASB, Mnemonic::Scasb),
        (mnemonic::SCASD, Mnemonic::Scasd),
        (mnemonic::SCASQ, Mnemonic::Scasq),
        (mnemonic::SCASW, Mnemonic::Scasw),
        (mnemonic::SETA, Mnemonic::Seta),
        (mnemonic::SETAE, Mnemonic::Setae),
        (mnemonic::SETB, Mnemonic::Setb),
        (mnemonic::SETBE, Mnemonic::Setbe),
        (mnemonic::SETE, Mnemonic::Sete),
        (mnemonic::SETG, Mnemonic::Setg),
        (mnemonic::SETGE, Mnemonic::Setge),
        (mnemonic::SETL, Mnemonic::Setl),
        (mnemonic::SETLE, Mnemonic::Setle),
        (mnemonic::SETNE, Mnemonic::Setne),
        (mnemonic::SETNO, Mnemonic::Setno),
        (mnemonic::SETNP, Mnemonic::Setnp),
        (mnemonic::SETNS, Mnemonic::Setns),
        (mnemonic::SETO, Mnemonic::Seto),
        (mnemonic::SETP, Mnemonic::Setp),
        (mnemonic::SETS, Mnemonic::Sets),
        (mnemonic::SHL, Mnemonic::Shl),
        (mnemonic::SHR, Mnemonic::Shr),
        (mnemonic::STC, Mnemonic::Stc),
        (mnemonic::STD, Mnemonic::Std),
        (mnemonic::STOSB, Mnemonic::Stosb),
        (mnemonic::STOSD, Mnemonic::Stosd),
        (mnemonic::STOSQ, Mnemonic::Stosq),
        (mnemonic::STOSW, Mnemonic::Stosw),
        (mnemonic::SUB, Mnemonic::Sub),
        (mnemonic::SUBPD, Mnemonic::Subpd),
        (mnemonic::SUBPS, Mnemonic::Subps),
        (mnemonic::SUBSD, Mnemonic::Subsd),
        (mnemonic::SUBSS, Mnemonic::Subss),
        (mnemonic::TEST, Mnemonic::Test),
        (mnemonic::XCHG, Mnemonic::Xchg),
        (mnemonic::XOR, Mnemonic::Xor),
        (mnemonic::XORPD, Mnemonic::Xorpd),
        (mnemonic::XORPS, Mnemonic::Xorps),
        (mnemonic::PUSHFQ, Mnemonic::Pushfq),
        (mnemonic::POPFQ, Mnemonic::Popfq),
    ];
    for (code, m) in table {
        assert_eq!(code, m as u16, "{m:?}");
    }
    assert_eq!(MOVSD_XMM_XMMM64, Code::Movsd_xmm_xmmm64 as u16);
    assert_eq!(MOVSD_XMMM64_XMM, Code::Movsd_xmmm64_xmm as u16);
}

#[test]
fn operand_kind_codes() {
    let table = [
        (kind::REGISTER, OpKind::Register),
        (kind::NEAR_BRANCH16, OpKind::NearBranch16),
        (kind::NEAR_BRANCH32, OpKind::NearBranch32),
        (kind::NEAR_BRANCH64, OpKind::NearBranch64),
        (kind::IMMEDIATE8, OpKind::Immediate8),
        (kind::IMMEDIATE8_2ND, OpKind::Immediate8_2nd),
        (kind::IMMEDIATE16, OpKind::Immediate16),
        (kind::IMMEDIATE32, OpKind::Immediate32),
        (kind::IMMEDIATE64, OpKind::Immediate64),
        (kind::IMMEDIATE8TO16, OpKind::Immediate8to16),
        (kind::IMMEDIATE8TO32, OpKind::Immediate8to32),
        (kind::IMMEDIATE8TO64, OpKind::Immediate8to64),
        (kind::IMMEDIATE32TO64, OpKind::Immediate32to64),
        (kind::MEMORY, OpKind::Memory),
    ];
    for (code, k) in table {
        assert_eq!(code, k as u8, "{k:?}");
    }
    let sizes = [
        (kind::SIZE_UINT8, MemorySize::UInt8),
        (kind::SIZE_UINT16, MemorySize::UInt16),
        (kind::SIZE_UINT32, MemorySize::UInt32),
        (kind::SIZE_UINT64, MemorySize::UInt64),
        (kind::SIZE_INT8, MemorySize::Int8),
        (kind::SIZE_INT16, MemorySize::Int16),
        (kind::SIZE_INT32, MemorySize::Int32),
        (kind::SIZE_INT64, MemorySize::Int64),
        (kind::SIZE_SEG_PTR64, MemorySize::SegPtr64),
        (kind::SIZE_QWORD_OFFSET, MemorySize::QwordOffset),
    ];
    for (code, m) in sizes {
        assert_eq!(code, m as u8, "{m:?}");
        assert_eq!(kind::integer_size(code), Some(m.size()).filter(|n| *n <= 8).or(Some(8)));
    }
}

#[test]
fn register_codes() {
    for code in 0..=255_u8 {
        let Ok(r) = Register::try_from(code as usize) else {
            continue;
        };
        let ours = reg_from_code(code, r.size() as u16);
        assert_eq!(ours.size(), r.size(), "{r:?}");
        assert_eq!(ours.is_xmm(), r.is_xmm(), "{r:?}");
        let full = r.full_register();
        match ours.index() {
            Some(i) => assert_eq!(full as usize, Register::RAX as usize + i, "{r:?}"),
            None => assert!(!r.is_gpr(), "{r:?}"),
        }
    }
    assert_eq!(reg_from_code(Register::AH as u8, 1), Reg::High8(0));
    assert_eq!(reg_from_code(Register::BH as u8, 1), Reg::High8(3));
    assert_eq!(reg_from_code(Register::SPL as u8, 1), Reg::Low8(4));
    assert_eq!(reg_from_code(Register::RIP as u8, 8), Reg::Rip);
    assert_eq!(reg_from_code(Register::EIP as u8, 4), Reg::Eip);
    assert_eq!(reg_from_code(Register::None as u8, 0), Reg::Absent);
    assert_eq!(reg_from_code(Register::FS as u8, 2), Reg::Other(75, 2));
}

#[test]
fn decode_takes_apart_an_instruction() {
    // add [rax+rcx*4+0x10], ebx
    let i = decode(&[0x01, 0x5c, 0x88, 0x10], 0x1000).expect("decodes");
    assert_eq!(i.mnemonic, mnemonic::ADD);
    assert_eq!((i.ip, i.next_ip, i.len, i.op_count), (0x1000, 0x1004, 4, 2));
    assert_eq!(i.op0.kind, kind::MEMORY);
    assert_eq!(i.op1.kind, kind::REGISTER);
    assert_eq!(i.op1.reg, Reg::Dword(3));
    assert_eq!((i.base, i.index, i.scale, i.disp), (Reg::Qword(0), Reg::Qword(1), 4, 0x10));
    assert_eq!(i.mem_size, kind::SIZE_UINT32);
    // rep movsb, then bytes that hold no instruction, then too few bytes
    let i = decode(&[0xf3, 0xa4], 0).expect("decodes");
    assert!(i.has_any_rep() && i.mnemonic == mnemonic::MOVSB);
    assert!(decode(&[0x06], 0).is_none());
    assert!(decode(&[0x48], 0).is_none());
    // imul eax, ebx, 0x1234
    let i = decode(&[0x69, 0xc3, 0x34, 0x12, 0, 0], 0).expect("decodes");
    assert_eq!((i.op_count, i.op2.kind, i.op2.imm), (3, kind::IMMEDIATE32, 0x1234));
    // jmp -2
    let i = decode(&[0xeb, 0xfe], 0x4000).expect("decodes");
    assert_eq!((i.op0.kind, i.near_branch), (kind::NEAR_BRANCH64, 0x4000));
}
