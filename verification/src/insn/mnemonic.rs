//! Instruction mnemonics, by the codes that the decoder gives them.

use vstd::prelude::*;

verus! {

/// `adc`
pub const ADC: u16 = 5;

/// `add`
pub const ADD: u16 = 7;

/// `addpd`
pub const ADDPD: u16 = 8;

/// `addps`
pub const ADDPS: u16 = 9;

/// `addsd`
pub const ADDSD: u16 = 10;

/// `addss`
pub const ADDSS: u16 = 11;

/// `and`
pub const AND: u16 = 21;

/// `andnpd`
pub const ANDNPD: u16 = 23;

/// `andnps`
pub const ANDNPS: u16 = 24;

/// `andpd`
pub const ANDPD: u16 = 25;

/// `andps`
pub const ANDPS: u16 = 26;

/// `bswap`
pub const BSWAP: u16 = 53;

/// `bt`
pub const BT: u16 = 54;

/// `btc`
pub const BTC: u16 = 55;

/// `btr`
pub const BTR: u16 = 56;

/// `bts`
pub const BTS: u16 = 57;

/// `call`
pub const CALL: u16 = 59;

/// `cbw`
pub const CBW: u16 = 60;

/// `cdq`
pub const CDQ: u16 = 61;

/// `cdqe`
pub const CDQE: u16 = 62;

/// `clc`
pub const CLC: u16 = 65;

/// `cld`
pub const CLD: u16 = 66;

/// `cmc`
pub const CMC: u16 = 76;

/// `cmova`
pub const CMOVA: u16 = 77;

/// `cmovae`
pub const CMOVAE: u16 = 78;

/// `cmovb`
pub const CMOVB: u16 = 79;

/// `cmovbe`
pub const CMOVBE: u16 = 80;

/// `cmove`
pub const CMOVE: u16 = 81;

/// `cmovg`
pub const CMOVG: u16 = 82;

/// `cmovge`
pub const CMOVGE: u16 = 83;

/// `cmovl`
pub const CMOVL: u16 = 84;

/// `cmovle`
pub const CMOVLE: u16 = 85;

/// `cmovne`
pub const CMOVNE: u16 = 86;

/// `cmovno`
pub const CMOVNO: u16 = 87;

/// `cmovnp`
pub const CMOVNP: u16 = 88;

/// `cmovns`
pub const CMOVNS: u16 = 89;

/// `cmovo`
pub const CMOVO: u16 = 90;

/// `cmovp`
pub const CMOVP: u16 = 91;

/// `cmovs`
pub const CMOVS: u16 = 92;

/// `cmp`
pub const CMP: u16 = 93;

/// `cmpsb`
pub const CMPSB: u16 = 96;

/// `cmpsd`
pub const CMPSD: u16 = 97;

/// `cmpsq`
pub const CMPSQ: u16 = 98;

/// `cmpsw`
pub const CMPSW: u16 = 100;

/// `cmpxchg`
pub const CMPXCHG: u16 = 101;

/// `cpuid`
pub const CPUID: u16 = 106;

/// `cqo`
pub const CQO: u16 = 107;

/// `cwd`
pub const CWD: u16 = 131;

/// `cwde`
pub const CWDE: u16 = 132;

/// `dec`
pub const DEC: u16 = 137;

/// `div`
pub const DIV: u16 = 138;

/// `divpd`
pub const DIVPD: u16 = 139;

/// `divps`
pub const DIVPS: u16 = 140;

/// `divsd`
pub const DIVSD: u16 = 141;

/// `divss`
pub const DIVSS: u16 = 142;

/// `endbr32`
pub const ENDBR32: u16 = 151;

/// `endbr64`
pub const ENDBR64: u16 = 152;

/// `finit`
pub const FINIT: u16 = 198;

/// `fnclex`
pub const FNCLEX: u16 = 216;

/// `fninit`
pub const FNINIT: u16 = 219;

/// `idiv`
pub const IDIV: u16 = 276;

/// `imul`
pub const IMUL: u16 = 277;

/// `in`
pub const IN: u16 = 278;

/// `inc`
pub const INC: u16 = 279;

/// `insb`
pub const INSB: u16 = 282;

/// `insd`
pub const INSD: u16 = 283;

/// `insw`
pub const INSW: u16 = 286;

/// `ja`
pub const JA: u16 = 297;

/// `jae`
pub const JAE: u16 = 298;

/// `jb`
pub const JB: u16 = 299;

/// `jbe`
pub const JBE: u16 = 300;

/// `je`
pub const JE: u16 = 302;

/// `jg`
pub const JG: u16 = 304;

/// `jge`
pub const JGE: u16 = 305;

/// `jl`
pub const JL: u16 = 306;

/// `jle`
pub const JLE: u16 = 307;

/// `jmp`
pub const JMP: u16 = 308;

/// `jne`
pub const JNE: u16 = 310;

/// `jno`
pub const JNO: u16 = 311;

/// `jnp`
pub const JNP: u16 = 312;

/// `jns`
pub const JNS: u16 = 313;

/// `jo`
pub const JO: u16 = 314;

/// `jp`
pub const JP: u16 = 315;

/// `js`
pub const JS: u16 = 317;

/// `lea`
pub const LEA: u16 = 374;

/// `leave`
pub const LEAVE: u16 = 375;

/// `lodsb`
pub const LODSB: u16 = 386;

/// `lodsd`
pub const LODSD: u16 = 387;

/// `lodsq`
pub const LODSQ: u16 = 388;

/// `mov`
pub const MOV: u16 = 414;

/// `movapd`
pub const MOVAPD: u16 = 415;

/// `movaps`
pub const MOVAPS: u16 = 416;

/// `movd`
pub const MOVD: u16 = 418;

/// `movdqa`
pub const MOVDQA: u16 = 423;

/// `movdqu`
pub const MOVDQU: u16 = 424;

/// `movq`
pub const MOVQ: u16 = 441;

/// `movsb`
pub const MOVSB: u16 = 443;

/// `movsd`
pub const MOVSD: u16 = 444;

/// `movsq`
pub const MOVSQ: u16 = 447;

/// `movss`
pub const MOVSS: u16 = 448;

/// `movsw`
pub const MOVSW: u16 = 449;

/// `movsx`
pub const MOVSX: u16 = 450;

/// `movsxd`
pub const MOVSXD: u16 = 451;

/// `movupd`
pub const MOVUPD: u16 = 452;

/// `movups`
pub const MOVUPS: u16 = 453;

/// `movzx`
pub const MOVZX: u16 = 454;

/// `mul`
pub const MUL: u16 = 456;

/// `mulpd`
pub const MULPD: u16 = 457;

/// `mulps`
pub const MULPS: u16 = 458;

/// `mulsd`
pub const MULSD: u16 = 459;

/// `mulss`
pub const MULSS: u16 = 460;

/// `neg`
pub const NEG: u16 = 464;

/// `nop`
pub const NOP: u16 = 465;

/// `not`
pub const NOT: u16 = 466;

/// `or`
pub const OR: u16 = 467;

/// `orpd`
pub const ORPD: u16 = 468;

/// `orps`
pub const ORPS: u16 = 469;

/// `out`
pub const OUT: u16 = 470;

/// `outsb`
pub const OUTSB: u16 = 471;

/// `outsd`
pub const OUTSD: u16 = 472;

/// `outsw`
pub const OUTSW: u16 = 473;

/// `pand`
pub const PAND: u16 = 490;

/// `pandn`
pub const PANDN: u16 = 491;

/// `pop`
pub const POP: u16 = 590;

/// `por`
pub const POR: u16 = 594;

/// `push`
pub const PUSH: u16 = 640;

/// `pxor`
pub const PXOR: u16 = 643;

/// `rdtsc`
pub const RDTSC: u16 = 659;

/// `ret`
pub const RET: u16 = 662;

/// `rol`
pub const ROL: u16 = 664;

/// `ror`
pub const ROR: u16 = 665;

/// `sal`
pub const SAL: u16 = 676;

/// `sar`
pub const SAR: u16 = 678;

/// `sbb`
pub const SBB: u16 = 681;

/// `scasb`
pub const SCASB: u16 = 682;

/// `scasd`
pub const SCASD: u16 = 683;

/// `scasq`
pub const SCASQ: u16 = 684;

/// `scasw`
pub const SCASW: u16 = 685;

/// `seta`
pub const SETA: u16 = 686;

/// `setae`
pub const SETAE: u16 = 687;

/// `setb`
pub const SETB: u16 = 688;

/// `setbe`
pub const SETBE: u16 = 689;

/// `sete`
pub const SETE: u16 = 690;

/// `setg`
pub const SETG: u16 = 691;

/// `setge`
pub const SETGE: u16 = 692;

/// `setl`
pub const SETL: u16 = 693;

/// `setle`
pub const SETLE: u16 = 694;

/// `setne`
pub const SETNE: u16 = 695;

/// `setno`
pub const SETNO: u16 = 696;

/// `setnp`
pub const SETNP: u16 = 697;

/// `setns`
pub const SETNS: u16 = 698;

/// `seto`
pub const SETO: u16 = 699;

/// `setp`
pub const SETP: u16 = 700;

/// `sets`
pub const SETS: u16 = 701;

/// `shl`
pub const SHL: u16 = 712;

/// `shr`
pub const SHR: u16 = 715;

/// `stc`
pub const STC: u16 = 730;

/// `std`
pub const STD: u16 = 731;

/// `stosb`
pub const STOSB: u16 = 735;

/// `stosd`
pub const STOSD: u16 = 736;

/// `stosq`
pub const STOSQ: u16 = 737;

/// `stosw`
pub const STOSW: u16 = 738;

/// `sub`
pub const SUB: u16 = 740;

/// `subpd`
pub const SUBPD: u16 = 741;

/// `subps`
pub const SUBPS: u16 = 742;

/// `subsd`
pub const SUBSD: u16 = 743;

/// `subss`
pub const SUBSS: u16 = 744;

/// `test`
pub const TEST: u16 = 751;

/// `xchg`
pub const XCHG: u16 = 1509;

/// `xor`
pub const XOR: u16 = 1518;

/// `xorpd`
pub const XORPD: u16 = 1519;

/// `xorps`
pub const XORPS: u16 = 1520;

/// `pushfq`
pub const PUSHFQ: u16 = 1615;

/// `popfq`
pub const POPFQ: u16 = 1617;

} // verus!
