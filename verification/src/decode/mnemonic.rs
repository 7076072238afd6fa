//! Numbers of the instruction mnemonics, as the decoder reports them.

use vstd::prelude::*;

verus! {

pub const INVALID: u16 = 0;
pub const ADC: u16 = 5;
pub const ADD: u16 = 7;
pub const ADDPD: u16 = 8;
pub const ADDPS: u16 = 9;
pub const ADDSD: u16 = 10;
pub const ADDSS: u16 = 11;
pub const ADDSUBPD: u16 = 12;
pub const ADDSUBPS: u16 = 13;
pub const AND: u16 = 21;
pub const ANDNPD: u16 = 23;
pub const ANDNPS: u16 = 24;
pub const ANDPD: u16 = 25;
pub const ANDPS: u16 = 26;
pub const BLENDPD: u16 = 34;
pub const BLENDPS: u16 = 35;
pub const BLENDVPD: u16 = 36;
pub const BLENDVPS: u16 = 37;
pub const BOUND: u16 = 50;
pub const BSF: u16 = 51;
pub const BSR: u16 = 52;
pub const BSWAP: u16 = 53;
pub const BT: u16 = 54;
pub const BTC: u16 = 55;
pub const BTR: u16 = 56;
pub const BTS: u16 = 57;
pub const CALL: u16 = 59;
pub const CBW: u16 = 60;
pub const CDQ: u16 = 61;
pub const CDQE: u16 = 62;
pub const CLC: u16 = 65;
pub const CLD: u16 = 66;
pub const CLFLUSH: u16 = 68;
pub const CLFLUSHOPT: u16 = 69;
pub const CLI: u16 = 71;
pub const CLTS: u16 = 73;
pub const CMC: u16 = 76;
pub const CMP: u16 = 93;
pub const CMPPD: u16 = 94;
pub const CMPPS: u16 = 95;
pub const CMPSB: u16 = 96;
pub const CMPSD: u16 = 97;
pub const CMPSQ: u16 = 98;
pub const CMPSS: u16 = 99;
pub const CMPSW: u16 = 100;
pub const CMPXCHG: u16 = 101;
pub const CMPXCHG16B: u16 = 102;
pub const CMPXCHG8B: u16 = 103;
pub const COMISD: u16 = 104;
pub const COMISS: u16 = 105;
pub const CPUID: u16 = 106;
pub const CQO: u16 = 107;
pub const CVTDQ2PD: u16 = 109;
pub const CVTPS2PD: u16 = 117;
pub const CVTSD2SI: u16 = 119;
pub const CVTSD2SS: u16 = 120;
pub const CVTSI2SD: u16 = 121;
pub const CVTSI2SS: u16 = 122;
pub const CVTSS2SD: u16 = 123;
pub const CVTSS2SI: u16 = 124;
pub const CVTTPS2DQ: u16 = 127;
pub const CVTTSD2SI: u16 = 129;
pub const CVTTSS2SI: u16 = 130;
pub const CWD: u16 = 131;
pub const CWDE: u16 = 132;
pub const DEC: u16 = 137;
pub const DIV: u16 = 138;
pub const DIVPD: u16 = 139;
pub const DIVPS: u16 = 140;
pub const DIVSD: u16 = 141;
pub const DIVSS: u16 = 142;
pub const EMMS: u16 = 147;
pub const ENDBR32: u16 = 151;
pub const ENDBR64: u16 = 152;
pub const ENTER: u16 = 155;
pub const EXTRACTPS: u16 = 156;
pub const FABS: u16 = 159;
pub const FADD: u16 = 160;
pub const FADDP: u16 = 161;
pub const FCHS: u16 = 164;
pub const FCLEX: u16 = 165;
pub const FCOM: u16 = 174;
pub const FCOMI: u16 = 175;
pub const FCOMIP: u16 = 176;
pub const FCOMP: u16 = 177;
pub const FCOMPP: u16 = 178;
pub const FDECSTP: u16 = 180;
pub const FDIV: u16 = 182;
pub const FDIVP: u16 = 183;
pub const FDIVR: u16 = 184;
pub const FDIVRP: u16 = 185;
pub const FEMMS: u16 = 186;
pub const FFREE: u16 = 188;
pub const FFREEP: u16 = 189;
pub const FIADD: u16 = 190;
pub const FICOM: u16 = 191;
pub const FICOMP: u16 = 192;
pub const FIDIV: u16 = 193;
pub const FILD: u16 = 195;
pub const FIMUL: u16 = 196;
pub const FINCSTP: u16 = 197;
pub const FINIT: u16 = 198;
pub const FIST: u16 = 199;
pub const FISTP: u16 = 200;
pub const FISTTP: u16 = 201;
pub const FISUB: u16 = 202;
pub const FLD: u16 = 204;
pub const FLD1: u16 = 205;
pub const FLDCW: u16 = 206;
pub const FLDENV: u16 = 207;
pub const FLDL2E: u16 = 208;
pub const FLDL2T: u16 = 209;
pub const FLDLG2: u16 = 210;
pub const FLDLN2: u16 = 211;
pub const FLDPI: u16 = 212;
pub const FLDZ: u16 = 213;
pub const FMUL: u16 = 214;
pub const FMULP: u16 = 215;
pub const FNCLEX: u16 = 216;
pub const FNINIT: u16 = 219;
pub const FNOP: u16 = 220;
pub const FNSAVE: u16 = 221;
pub const FNSTCW: u16 = 223;
pub const FNSTENV: u16 = 224;
pub const FNSTSW: u16 = 225;
pub const FPREM: u16 = 227;
pub const FRNDINT: u16 = 230;
pub const FRSTOR: u16 = 231;
pub const FSAVE: u16 = 233;
pub const FSQRT: u16 = 238;
pub const FST: u16 = 239;
pub const FSTCW: u16 = 240;
pub const FSTENV: u16 = 242;
pub const FSTP: u16 = 243;
pub const FSTSW: u16 = 246;
pub const FSUB: u16 = 247;
pub const FSUBP: u16 = 248;
pub const FSUBR: u16 = 249;
pub const FSUBRP: u16 = 250;
pub const FTST: u16 = 251;
pub const FUCOM: u16 = 252;
pub const FUCOMI: u16 = 253;
pub const FUCOMIP: u16 = 254;
pub const FUCOMP: u16 = 255;
pub const FUCOMPP: u16 = 256;
pub const FXAM: u16 = 257;
pub const FXCH: u16 = 258;
pub const FXRSTOR: u16 = 259;
pub const FXSAVE: u16 = 261;
pub const HADDPD: u16 = 270;
pub const HADDPS: u16 = 271;
pub const HLT: u16 = 272;
pub const HSUBPD: u16 = 273;
pub const HSUBPS: u16 = 274;
pub const IDIV: u16 = 276;
pub const IMUL: u16 = 277;
pub const IN: u16 = 278;
pub const INC: u16 = 279;
pub const INSERTPS: u16 = 284;
pub const INT: u16 = 287;
pub const INTO: u16 = 289;
pub const INVD: u16 = 290;
pub const INVLPG: u16 = 292;
pub const IRET: u16 = 296;
pub const JA: u16 = 297;
pub const JAE: u16 = 298;
pub const JB: u16 = 299;
pub const JBE: u16 = 300;
pub const JCXZ: u16 = 301;
pub const JE: u16 = 302;
pub const JECXZ: u16 = 303;
pub const JG: u16 = 304;
pub const JGE: u16 = 305;
pub const JL: u16 = 306;
pub const JLE: u16 = 307;
pub const JMP: u16 = 308;
pub const JNE: u16 = 310;
pub const JNO: u16 = 311;
pub const JNP: u16 = 312;
pub const JNS: u16 = 313;
pub const JO: u16 = 314;
pub const JP: u16 = 315;
pub const JRCXZ: u16 = 316;
pub const JS: u16 = 317;
pub const LAHF: u16 = 369;
pub const LDMXCSR: u16 = 372;
pub const LEA: u16 = 374;
pub const LEAVE: u16 = 375;
pub const LFENCE: u16 = 377;
pub const LGDT: u16 = 379;
pub const LIDT: u16 = 381;
pub const LLDT: u16 = 382;
pub const LMSW: u16 = 384;
pub const LODSB: u16 = 386;
pub const LODSD: u16 = 387;
pub const LODSQ: u16 = 388;
pub const LODSW: u16 = 389;
pub const LOOP: u16 = 390;
pub const LOOPE: u16 = 391;
pub const LOOPNE: u16 = 392;
pub const LSL: u16 = 393;
pub const LTR: u16 = 395;
pub const LZCNT: u16 = 398;
pub const MAXPD: u16 = 401;
pub const MAXPS: u16 = 402;
pub const MAXSD: u16 = 403;
pub const MAXSS: u16 = 404;
pub const MFENCE: u16 = 406;
pub const MINPD: u16 = 407;
pub const MINPS: u16 = 408;
pub const MINSD: u16 = 409;
pub const MINSS: u16 = 410;
pub const MOV: u16 = 414;
pub const MOVAPD: u16 = 415;
pub const MOVAPS: u16 = 416;
pub const MOVD: u16 = 418;
pub const MOVDDUP: u16 = 419;
pub const MOVDQA: u16 = 423;
pub const MOVDQU: u16 = 424;
pub const MOVHLPS: u16 = 425;
pub const MOVHPD: u16 = 426;
pub const MOVHPS: u16 = 427;
pub const MOVLHPS: u16 = 428;
pub const MOVLPD: u16 = 429;
pub const MOVLPS: u16 = 430;
pub const MOVMSKPD: u16 = 431;
pub const MOVMSKPS: u16 = 432;
pub const MOVNTDQ: u16 = 433;
pub const MOVNTI: u16 = 435;
pub const MOVNTPS: u16 = 437;
pub const MOVNTQ: u16 = 438;
pub const MOVQ: u16 = 441;
pub const MOVSB: u16 = 443;
pub const MOVSD: u16 = 444;
pub const MOVSHDUP: u16 = 445;
pub const MOVSLDUP: u16 = 446;
pub const MOVSQ: u16 = 447;
pub const MOVSS: u16 = 448;
pub const MOVSW: u16 = 449;
pub const MOVSX: u16 = 450;
pub const MOVSXD: u16 = 451;
pub const MOVUPD: u16 = 452;
pub const MOVUPS: u16 = 453;
pub const MOVZX: u16 = 454;
pub const MUL: u16 = 456;
pub const MULPD: u16 = 457;
pub const MULPS: u16 = 458;
pub const MULSD: u16 = 459;
pub const MULSS: u16 = 460;
pub const NEG: u16 = 464;
pub const NOP: u16 = 465;
pub const NOT: u16 = 466;
pub const OR: u16 = 467;
pub const ORPD: u16 = 468;
pub const ORPS: u16 = 469;
pub const OUT: u16 = 470;
pub const PACKSSDW: u16 = 477;
pub const PACKSSWB: u16 = 478;
pub const PACKUSDW: u16 = 479;
pub const PACKUSWB: u16 = 480;
pub const PADDB: u16 = 481;
pub const PADDD: u16 = 482;
pub const PADDQ: u16 = 483;
pub const PADDSB: u16 = 484;
pub const PADDSW: u16 = 485;
pub const PADDUSB: u16 = 486;
pub const PADDUSW: u16 = 487;
pub const PADDW: u16 = 488;
pub const PALIGNR: u16 = 489;
pub const PAND: u16 = 490;
pub const PANDN: u16 = 491;
pub const PAUSE: u16 = 492;
pub const PAVGB: u16 = 493;
pub const PBLENDVB: u16 = 496;
pub const PBLENDW: u16 = 497;
pub const PCMPEQB: u16 = 499;
pub const PCMPEQD: u16 = 500;
pub const PCMPEQQ: u16 = 501;
pub const PCMPEQW: u16 = 502;
pub const PCMPGTB: u16 = 507;
pub const PCMPGTD: u16 = 508;
pub const PCMPGTW: u16 = 510;
pub const PEXTRB: u16 = 517;
pub const PEXTRD: u16 = 518;
pub const PEXTRQ: u16 = 519;
pub const PEXTRW: u16 = 520;
pub const PHADDD: u16 = 542;
pub const PINSRB: u16 = 551;
pub const PINSRD: u16 = 552;
pub const PINSRQ: u16 = 553;
pub const PINSRW: u16 = 554;
pub const PMADDUBSW: u16 = 555;
pub const PMADDWD: u16 = 556;
pub const PMAXSB: u16 = 557;
pub const PMAXSD: u16 = 558;
pub const PMAXSW: u16 = 559;
pub const PMAXUB: u16 = 560;
pub const PMAXUD: u16 = 561;
pub const PMAXUW: u16 = 562;
pub const PMINSB: u16 = 563;
pub const PMINSD: u16 = 564;
pub const PMINSW: u16 = 565;
pub const PMINUB: u16 = 566;
pub const PMINUD: u16 = 567;
pub const PMINUW: u16 = 568;
pub const PMOVMSKB: u16 = 569;
pub const PMOVSXBD: u16 = 570;
pub const PMOVSXBQ: u16 = 571;
pub const PMOVSXBW: u16 = 572;
pub const PMOVSXDQ: u16 = 573;
pub const PMOVSXWD: u16 = 574;
pub const PMOVSXWQ: u16 = 575;
pub const PMOVZXBD: u16 = 576;
pub const PMOVZXBQ: u16 = 577;
pub const PMOVZXBW: u16 = 578;
pub const PMOVZXDQ: u16 = 579;
pub const PMOVZXWD: u16 = 580;
pub const PMOVZXWQ: u16 = 581;
pub const PMULHUW: u16 = 585;
pub const PMULHW: u16 = 586;
pub const PMULLD: u16 = 587;
pub const PMULLW: u16 = 588;
pub const PMULUDQ: u16 = 589;
pub const POP: u16 = 590;
pub const POPCNT: u16 = 592;
pub const POPF: u16 = 593;
pub const POR: u16 = 594;
pub const PREFETCHNTA: u16 = 596;
pub const PREFETCHT0: u16 = 597;
pub const PREFETCHT1: u16 = 598;
pub const PREFETCHT2: u16 = 599;
pub const PSADBW: u16 = 602;
pub const PSHUFB: u16 = 603;
pub const PSHUFD: u16 = 604;
pub const PSHUFHW: u16 = 605;
pub const PSHUFLW: u16 = 606;
pub const PSLLD: u16 = 611;
pub const PSLLDQ: u16 = 612;
pub const PSLLQ: u16 = 613;
pub const PSLLW: u16 = 614;
pub const PSRAD: u16 = 615;
pub const PSRAW: u16 = 616;
pub const PSRLD: u16 = 617;
pub const PSRLDQ: u16 = 618;
pub const PSRLQ: u16 = 619;
pub const PSRLW: u16 = 620;
pub const PSUBB: u16 = 621;
pub const PSUBD: u16 = 622;
pub const PSUBQ: u16 = 623;
pub const PSUBSB: u16 = 624;
pub const PSUBSW: u16 = 625;
pub const PSUBUSB: u16 = 626;
pub const PSUBUSW: u16 = 627;
pub const PSUBW: u16 = 628;
pub const PTEST: u16 = 630;
pub const PUNPCKHBW: u16 = 632;
pub const PUNPCKHDQ: u16 = 633;
pub const PUNPCKHQDQ: u16 = 634;
pub const PUNPCKHWD: u16 = 635;
pub const PUNPCKLBW: u16 = 636;
pub const PUNPCKLDQ: u16 = 637;
pub const PUNPCKLQDQ: u16 = 638;
pub const PUNPCKLWD: u16 = 639;
pub const PUSH: u16 = 640;
pub const PUSHF: u16 = 642;
pub const PXOR: u16 = 643;
pub const RCL: u16 = 644;
pub const RCR: u16 = 647;
pub const RDMSR: u16 = 650;
pub const RDPMC: u16 = 653;
pub const RDRAND: u16 = 655;
pub const RDSEED: u16 = 656;
pub const RDTSC: u16 = 659;
pub const RDTSCP: u16 = 660;
pub const RET: u16 = 662;
pub const ROL: u16 = 664;
pub const ROR: u16 = 665;
pub const ROUNDPD: u16 = 667;
pub const ROUNDPS: u16 = 668;
pub const ROUNDSD: u16 = 669;
pub const ROUNDSS: u16 = 670;
pub const SAHF: u16 = 675;
pub const SAR: u16 = 678;
pub const SBB: u16 = 681;
pub const SCASB: u16 = 682;
pub const SCASD: u16 = 683;
pub const SCASQ: u16 = 684;
pub const SCASW: u16 = 685;
pub const SETA: u16 = 686;
pub const SETAE: u16 = 687;
pub const SETB: u16 = 688;
pub const SETBE: u16 = 689;
pub const SETE: u16 = 690;
pub const SETG: u16 = 691;
pub const SETGE: u16 = 692;
pub const SETL: u16 = 693;
pub const SETLE: u16 = 694;
pub const SETNE: u16 = 695;
pub const SETNO: u16 = 696;
pub const SETNP: u16 = 697;
pub const SETNS: u16 = 698;
pub const SETO: u16 = 699;
pub const SETP: u16 = 700;
pub const SETS: u16 = 701;
pub const SFENCE: u16 = 703;
pub const SGDT: u16 = 704;
pub const SHL: u16 = 712;
pub const SHLD: u16 = 713;
pub const SHR: u16 = 715;
pub const SHRD: u16 = 716;
pub const SHUFPD: u16 = 718;
pub const SHUFPS: u16 = 719;
pub const SIDT: u16 = 720;
pub const SLDT: u16 = 722;
pub const SMSW: u16 = 724;
pub const SQRTSD: u16 = 727;
pub const SQRTSS: u16 = 728;
pub const STC: u16 = 730;
pub const STD: u16 = 731;
pub const STI: u16 = 733;
pub const STMXCSR: u16 = 734;
pub const STOSB: u16 = 735;
pub const STOSD: u16 = 736;
pub const STOSQ: u16 = 737;
pub const STOSW: u16 = 738;
pub const STR: u16 = 739;
pub const SUB: u16 = 740;
pub const SUBPD: u16 = 741;
pub const SUBPS: u16 = 742;
pub const SUBSD: u16 = 743;
pub const SUBSS: u16 = 744;
pub const SWAPGS: u16 = 745;
pub const TEST: u16 = 751;
pub const TZCNT: u16 = 753;
pub const UCOMISD: u16 = 755;
pub const UCOMISS: u16 = 756;
pub const UD2: u16 = 759;
pub const UNPCKHPD: u16 = 763;
pub const UNPCKHPS: u16 = 764;
pub const UNPCKLPD: u16 = 765;
pub const UNPCKLPS: u16 = 766;
pub const WAIT: u16 = 1494;
pub const WBINVD: u16 = 1495;
pub const WRMSR: u16 = 1499;
pub const XADD: u16 = 1506;
pub const XCHG: u16 = 1509;
pub const XGETBV: u16 = 1516;
pub const XLATB: u16 = 1517;
pub const XOR: u16 = 1518;
pub const XORPD: u16 = 1519;
pub const XORPS: u16 = 1520;
pub const XSETBV: u16 = 1533;
pub const PUSHFD: u16 = 1614;
pub const PUSHFQ: u16 = 1615;
pub const POPFD: u16 = 1616;
pub const POPFQ: u16 = 1617;
pub const INT3: u16 = 1620;

} // verus!
