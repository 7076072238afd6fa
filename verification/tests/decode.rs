use iced_x86::{MemorySize, Mnemonic, OpKind, Register};
use rish_softvm_core::decode::{assemble, decode, mnemonic, op_kind, register, OPERAND_FIELDS, SHAPE_FIELDS};

#[test]
fn mnemonics_have_the_numbers_of_the_decoder() {
    let pairs = [
        (u64::from(mnemonic::INVALID), Mnemonic::INVALID as u64),
        (u64::from(mnemonic::ADC), Mnemonic::Adc as u64),
        (u64::from(mnemonic::ADD), Mnemonic::Add as u64),
        (u64::from(mnemonic::ADDPD), Mnemonic::Addpd as u64),
        (u64::from(mnemonic::ADDPS), Mnemonic::Addps as u64),
        (u64::from(mnemonic::ADDSD), Mnemonic::Addsd as u64),
        (u64::from(mnemonic::ADDSS), Mnemonic::Addss as u64),
        (u64::from(mnemonic::ADDSUBPD), Mnemonic::Addsubpd as u64),
        (u64::from(mnemonic::ADDSUBPS), Mnemonic::Addsubps as u64),
        (u64::from(mnemonic::AND), Mnemonic::And as u64),
        (u64::from(mnemonic::ANDNPD), Mnemonic::Andnpd as u64),
        (u64::from(mnemonic::ANDNPS), Mnemonic::Andnps as u64),
        (u64::from(mnemonic::ANDPD), Mnemonic::Andpd as u64),
        (u64::from(mnemonic::ANDPS), Mnemonic::Andps as u64),
        (u64::from(mnemonic::BLENDPD), Mnemonic::Blendpd as u64),
        (u64::from(mnemonic::BLENDPS), Mnemonic::Blendps as u64),
        (u64::from(mnemonic::BLENDVPD), Mnemonic::Blendvpd as u64),
        (u64::from(mnemonic::BLENDVPS), Mnemonic::Blendvps as u64),
        (u64::from(mnemonic::BOUND), Mnemonic::Bound as u64),
        (u64::from(mnemonic::BSF), Mnemonic::Bsf as u64),
        (u64::from(mnemonic::BSR), Mnemonic::Bsr as u64),
        (u64::from(mnemonic::BSWAP), Mnemonic::Bswap as u64),
        (u64::from(mnemonic::BT), Mnemonic::Bt as u64),
        (u64::from(mnemonic::BTC), Mnemonic::Btc as u64),
        (u64::from(mnemonic::BTR), Mnemonic::Btr as u64),
        (u64::from(mnemonic::BTS), Mnemonic::Bts as u64),
        (u64::from(mnemonic::CALL), Mnemonic::Call as u64),
        (u64::from(mnemonic::CBW), Mnemonic::Cbw as u64),
        (u64::from(mnemonic::CDQ), Mnemonic::Cdq as u64),
        (u64::from(mnemonic::CDQE), Mnemonic::Cdqe as u64),
        (u64::from(mnemonic::CLC), Mnemonic::Clc as u64),
        (u64::from(mnemonic::CLD), Mnemonic::Cld as u64),
        (u64::from(mnemonic::CLFLUSH), Mnemonic::Clflush as u64),
        (u64::from(mnemonic::CLFLUSHOPT), Mnemonic::Clflushopt as u64),
        (u64::from(mnemonic::CLI), Mnemonic::Cli as u64),
        (u64::from(mnemonic::CLTS), Mnemonic::Clts as u64),
        (u64::from(mnemonic::CMC), Mnemonic::Cmc as u64),
        (u64::from(mnemonic::CMP), Mnemonic::Cmp as u64),
        (u64::from(mnemonic::CMPPD), Mnemonic::Cmppd as u64),
        (u64::from(mnemonic::CMPPS), Mnemonic::Cmpps as u64),
        (u64::from(mnemonic::CMPSB), Mnemonic::Cmpsb as u64),
        (u64::from(mnemonic::CMPSD), Mnemonic::Cmpsd as u64),
        (u64::from(mnemonic::CMPSQ), Mnemonic::Cmpsq as u64),
        (u64::from(mnemonic::CMPSS), Mnemonic::Cmpss as u64),
        (u64::from(mnemonic::CMPSW), Mnemonic::Cmpsw as u64),
        (u64::from(mnemonic::CMPXCHG), Mnemonic::Cmpxchg as u64),
        (u64::from(mnemonic::CMPXCHG16B), Mnemonic::Cmpxchg16b as u64),
        (u64::from(mnemonic::CMPXCHG8B), Mnemonic::Cmpxchg8b as u64),
        (u64::from(mnemonic::COMISD), Mnemonic::Comisd as u64),
        (u64::from(mnemonic::COMISS), Mnemonic::Comiss as u64),
        (u64::from(mnemonic::CPUID), Mnemonic::Cpuid as u64),
        (u64::from(mnemonic::CQO), Mnemonic::Cqo as u64),
        (u64::from(mnemonic::CVTDQ2PD), Mnemonic::Cvtdq2pd as u64),
        (u64::from(mnemonic::CVTPS2PD), Mnemonic::Cvtps2pd as u64),
        (u64::from(mnemonic::CVTSD2SI), Mnemonic::Cvtsd2si as u64),
        (u64::from(mnemonic::CVTSD2SS), Mnemonic::Cvtsd2ss as u64),
        (u64::from(mnemonic::CVTSI2SD), Mnemonic::Cvtsi2sd as u64),
        (u64::from(mnemonic::CVTSI2SS), Mnemonic::Cvtsi2ss as u64),
        (u64::from(mnemonic::CVTSS2SD), Mnemonic::Cvtss2sd as u64),
        (u64::from(mnemonic::CVTSS2SI), Mnemonic::Cvtss2si as u64),
        (u64::from(mnemonic::CVTTPS2DQ), Mnemonic::Cvttps2dq as u64),
        (u64::from(mnemonic::CVTTSD2SI), Mnemonic::Cvttsd2si as u64),
        (u64::from(mnemonic::CVTTSS2SI), Mnemonic::Cvttss2si as u64),
        (u64::from(mnemonic::CWD), Mnemonic::Cwd as u64),
        (u64::from(mnemonic::CWDE), Mnemonic::Cwde as u64),
        (u64::from(mnemonic::DEC), Mnemonic::Dec as u64),
        (u64::from(mnemonic::DIV), Mnemonic::Div as u64),
        (u64::from(mnemonic::DIVPD), Mnemonic::Divpd as u64),
        (u64::from(mnemonic::DIVPS), Mnemonic::Divps as u64),
        (u64::from(mnemonic::DIVSD), Mnemonic::Divsd as u64),
        (u64::from(mnemonic::DIVSS), Mnemonic::Divss as u64),
        (u64::from(mnemonic::EMMS), Mnemonic::Emms as u64),
        (u64::from(mnemonic::ENDBR32), Mnemonic::Endbr32 as u64),
        (u64::from(mnemonic::ENDBR64), Mnemonic::Endbr64 as u64),
        (u64::from(mnemonic::ENTER), Mnemonic::Enter as u64),
        (u64::from(mnemonic::EXTRACTPS), Mnemonic::Extractps as u64),
        (u64::from(mnemonic::FABS), Mnemonic::Fabs as u64),
        (u64::from(mnemonic::FADD), Mnemonic::Fadd as u64),
        (u64::from(mnemonic::FADDP), Mnemonic::Faddp as u64),
        (u64::from(mnemonic::FCHS), Mnemonic::Fchs as u64),
        (u64::from(mnemonic::FCLEX), Mnemonic::Fclex as u64),
        (u64::from(mnemonic::FCOM), Mnemonic::Fcom as u64),
        (u64::from(mnemonic::FCOMI), Mnemonic::Fcomi as u64),
        (u64::from(mnemonic::FCOMIP), Mnemonic::Fcomip as u64),
        (u64::from(mnemonic::FCOMP), Mnemonic::Fcomp as u64),
        (u64::from(mnemonic::FCOMPP), Mnemonic::Fcompp as u64),
        (u64::from(mnemonic::FDECSTP), Mnemonic::Fdecstp as u64),
        (u64::from(mnemonic::FDIV), Mnemonic::Fdiv as u64),
        (u64::from(mnemonic::FDIVP), Mnemonic::Fdivp as u64),
        (u64::from(mnemonic::FDIVR), Mnemonic::Fdivr as u64),
        (u64::from(mnemonic::FDIVRP), Mnemonic::Fdivrp as u64),
        (u64::from(mnemonic::FEMMS), Mnemonic::Femms as u64),
        (u64::from(mnemonic::FFREE), Mnemonic::Ffree as u64),
        (u64::from(mnemonic::FFREEP), Mnemonic::Ffreep as u64),
        (u64::from(mnemonic::FIADD), Mnemonic::Fiadd as u64),
        (u64::from(mnemonic::FICOM), Mnemonic::Ficom as u64),
        (u64::from(mnemonic::FICOMP), Mnemonic::Ficomp as u64),
        (u64::from(mnemonic::FIDIV), Mnemonic::Fidiv as u64),
        (u64::from(mnemonic::FILD), Mnemonic::Fild as u64),
        (u64::from(mnemonic::FIMUL), Mnemonic::Fimul as u64),
        (u64::from(mnemonic::FINCSTP), Mnemonic::Fincstp as u64),
        (u64::from(mnemonic::FINIT), Mnemonic::Finit as u64),
        (u64::from(mnemonic::FIST), Mnemonic::Fist as u64),
        (u64::from(mnemonic::FISTP), Mnemonic::Fistp as u64),
        (u64::from(mnemonic::FISTTP), Mnemonic::Fisttp as u64),
        (u64::from(mnemonic::FISUB), Mnemonic::Fisub as u64),
        (u64::from(mnemonic::FLD), Mnemonic::Fld as u64),
        (u64::from(mnemonic::FLD1), Mnemonic::Fld1 as u64),
        (u64::from(mnemonic::FLDCW), Mnemonic::Fldcw as u64),
        (u64::from(mnemonic::FLDENV), Mnemonic::Fldenv as u64),
        (u64::from(mnemonic::FLDL2E), Mnemonic::Fldl2e as u64),
        (u64::from(mnemonic::FLDL2T), Mnemonic::Fldl2t as u64),
        (u64::from(mnemonic::FLDLG2), Mnemonic::Fldlg2 as u64),
        (u64::from(mnemonic::FLDLN2), Mnemonic::Fldln2 as u64),
        (u64::from(mnemonic::FLDPI), Mnemonic::Fldpi as u64),
        (u64::from(mnemonic::FLDZ), Mnemonic::Fldz as u64),
        (u64::from(mnemonic::FMUL), Mnemonic::Fmul as u64),
        (u64::from(mnemonic::FMULP), Mnemonic::Fmulp as u64),
        (u64::from(mnemonic::FNCLEX), Mnemonic::Fnclex as u64),
        (u64::from(mnemonic::FNINIT), Mnemonic::Fninit as u64),
        (u64::from(mnemonic::FNOP), Mnemonic::Fnop as u64),
        (u64::from(mnemonic::FNSAVE), Mnemonic::Fnsave as u64),
        (u64::from(mnemonic::FNSTCW), Mnemonic::Fnstcw as u64),
        (u64::from(mnemonic::FNSTENV), Mnemonic::Fnstenv as u64),
        (u64::from(mnemonic::FNSTSW), Mnemonic::Fnstsw as u64),
        (u64::from(mnemonic::FPREM), Mnemonic::Fprem as u64),
        (u64::from(mnemonic::FRNDINT), Mnemonic::Frndint as u64),
        (u64::from(mnemonic::FRSTOR), Mnemonic::Frstor as u64),
        (u64::from(mnemonic::FSAVE), Mnemonic::Fsave as u64),
        (u64::from(mnemonic::FSQRT), Mnemonic::Fsqrt as u64),
        (u64::from(mnemonic::FST), Mnemonic::Fst as u64),
        (u64::from(mnemonic::FSTCW), Mnemonic::Fstcw as u64),
        (u64::from(mnemonic::FSTENV), Mnemonic::Fstenv as u64),
        (u64::from(mnemonic::FSTP), Mnemonic::Fstp as u64),
        (u64::from(mnemonic::FSTSW), Mnemonic::Fstsw as u64),
        (u64::from(mnemonic::FSUB), Mnemonic::Fsub as u64),
        (u64::from(mnemonic::FSUBP), Mnemonic::Fsubp as u64),
        (u64::from(mnemonic::FSUBR), Mnemonic::Fsubr as u64),
        (u64::from(mnemonic::FSUBRP), Mnemonic::Fsubrp as u64),
        (u64::from(mnemonic::FTST), Mnemonic::Ftst as u64),
        (u64::from(mnemonic::FUCOM), Mnemonic::Fucom as u64),
        (u64::from(mnemonic::FUCOMI), Mnemonic::Fucomi as u64),
        (u64::from(mnemonic::FUCOMIP), Mnemonic::Fucomip as u64),
        (u64::from(mnemonic::FUCOMP), Mnemonic::Fucomp as u64),
        (u64::from(mnemonic::FUCOMPP), Mnemonic::Fucompp as u64),
        (u64::from(mnemonic::FXAM), Mnemonic::Fxam as u64),
        (u64::from(mnemonic::FXCH), Mnemonic::Fxch as u64),
        (u64::from(mnemonic::FXRSTOR), Mnemonic::Fxrstor as u64),
        (u64::from(mnemonic::FXSAVE), Mnemonic::Fxsave as u64),
        (u64::from(mnemonic::HADDPD), Mnemonic::Haddpd as u64),
        (u64::from(mnemonic::HADDPS), Mnemonic::Haddps as u64),
        (u64::from(mnemonic::HLT), Mnemonic::Hlt as u64),
        (u64::from(mnemonic::HSUBPD), Mnemonic::Hsubpd as u64),
        (u64::from(mnemonic::HSUBPS), Mnemonic::Hsubps as u64),
        (u64::from(mnemonic::IDIV), Mnemonic::Idiv as u64),
        (u64::from(mnemonic::IMUL), Mnemonic::Imul as u64),
        (u64::from(mnemonic::IN), Mnemonic::In as u64),
        (u64::from(mnemonic::INC), Mnemonic::Inc as u64),
        (u64::from(mnemonic::INSERTPS), Mnemonic::Insertps as u64),
        (u64::from(mnemonic::INT), Mnemonic::Int as u64),
        (u64::from(mnemonic::INTO), Mnemonic::Into as u64),
        (u64::from(mnemonic::INVD), Mnemonic::Invd as u64),
        (u64::from(mnemonic::INVLPG), Mnemonic::Invlpg as u64),
        (u64::from(mnemonic::IRET), Mnemonic::Iret as u64),
        (u64::from(mnemonic::JA), Mnemonic::Ja as u64),
        (u64::from(mnemonic::JAE), Mnemonic::Jae as u64),
        (u64::from(mnemonic::JB), Mnemonic::Jb as u64),
        (u64::from(mnemonic::JBE), Mnemonic::Jbe as u64),
        (u64::from(mnemonic::JCXZ), Mnemonic::Jcxz as u64),
        (u64::from(mnemonic::JE), Mnemonic::Je as u64),
        (u64::from(mnemonic::JECXZ), Mnemonic::Jecxz as u64),
        (u64::from(mnemonic::JG), Mnemonic::Jg as u64),
        (u64::from(mnemonic::JGE), Mnemonic::Jge as u64),
        (u64::from(mnemonic::JL), Mnemonic::Jl as u64),
        (u64::from(mnemonic::JLE), Mnemonic::Jle as u64),
        (u64::from(mnemonic::JMP), Mnemonic::Jmp as u64),
        (u64::from(mnemonic::JNE), Mnemonic::Jne as u64),
        (u64::from(mnemonic::JNO), Mnemonic::Jno as u64),
        (u64::from(mnemonic::JNP), Mnemonic::Jnp as u64),
        (u64::from(mnemonic::JNS), Mnemonic::Jns as u64),
        (u64::from(mnemonic::JO), Mnemonic::Jo as u64),
        (u64::from(mnemonic::JP), Mnemonic::Jp as u64),
        (u64::from(mnemonic::JRCXZ), Mnemonic::Jrcxz as u64),
        (u64::from(mnemonic::JS), Mnemonic::Js as u64),
        (u64::from(mnemonic::LAHF), Mnemonic::Lahf as u64),
        (u64::from(mnemonic::LDMXCSR), Mnemonic::Ldmxcsr as u64),
        (u64::from(mnemonic::LEA), Mnemonic::Lea as u64),
        (u64::from(mnemonic::LEAVE), Mnemonic::Leave as u64),
        (u64::from(mnemonic::LFENCE), Mnemonic::Lfence as u64),
        (u64::from(mnemonic::LGDT), Mnemonic::Lgdt as u64),
        (u64::from(mnemonic::LIDT), Mnemonic::Lidt as u64),
        (u64::from(mnemonic::LLDT), Mnemonic::Lldt as u64),
        (u64::from(mnemonic::LMSW), Mnemonic::Lmsw as u64),
        (u64::from(mnemonic::LODSB), Mnemonic::Lodsb as u64),
        (u64::from(mnemonic::LODSD), Mnemonic::Lodsd as u64),
        (u64::from(mnemonic::LODSQ), Mnemonic::Lodsq as u64),
        (u64::from(mnemonic::LODSW), Mnemonic::Lodsw as u64),
        (u64::from(mnemonic::LOOP), Mnemonic::Loop as u64),
        (u64::from(mnemonic::LOOPE), Mnemonic::Loope as u64),
        (u64::from(mnemonic::LOOPNE), Mnemonic::Loopne as u64),
        (u64::from(mnemonic::LSL), Mnemonic::Lsl as u64),
        (u64::from(mnemonic::LTR), Mnemonic::Ltr as u64),
        (u64::from(mnemonic::LZCNT), Mnemonic::Lzcnt as u64),
        (u64::from(mnemonic::MAXPD), Mnemonic::Maxpd as u64),
        (u64::from(mnemonic::MAXPS), Mnemonic::Maxps as u64),
        (u64::from(mnemonic::MAXSD), Mnemonic::Maxsd as u64),
        (u64::from(mnemonic::MAXSS), Mnemonic::Maxss as u64),
        (u64::from(mnemonic::MFENCE), Mnemonic::Mfence as u64),
        (u64::from(mnemonic::MINPD), Mnemonic::Minpd as u64),
        (u64::from(mnemonic::MINPS), Mnemonic::Minps as u64),
        (u64::from(mnemonic::MINSD), Mnemonic::Minsd as u64),
        (u64::from(mnemonic::MINSS), Mnemonic::Minss as u64),
        (u64::from(mnemonic::MOV), Mnemonic::Mov as u64),
        (u64::from(mnemonic::MOVAPD), Mnemonic::Movapd as u64),
        (u64::from(mnemonic::MOVAPS), Mnemonic::Movaps as u64),
        (u64::from(mnemonic::MOVD), Mnemonic::Movd as u64),
        (u64::from(mnemonic::MOVDDUP), Mnemonic::Movddup as u64),
        (u64::from(mnemonic::MOVDQA), Mnemonic::Movdqa as u64),
        (u64::from(mnemonic::MOVDQU), Mnemonic::Movdqu as u64),
        (u64::from(mnemonic::MOVHLPS), Mnemonic::Movhlps as u64),
        (u64::from(mnemonic::MOVHPD), Mnemonic::Movhpd as u64),
        (u64::from(mnemonic::MOVHPS), Mnemonic::Movhps as u64),
        (u64::from(mnemonic::MOVLHPS), Mnemonic::Movlhps as u64),
        (u64::from(mnemonic::MOVLPD), Mnemonic::Movlpd as u64),
        (u64::from(mnemonic::MOVLPS), Mnemonic::Movlps as u64),
        (u64::from(mnemonic::MOVMSKPD), Mnemonic::Movmskpd as u64),
        (u64::from(mnemonic::MOVMSKPS), Mnemonic::Movmskps as u64),
        (u64::from(mnemonic::MOVNTDQ), Mnemonic::Movntdq as u64),
        (u64::from(mnemonic::MOVNTI), Mnemonic::Movnti as u64),
        (u64::from(mnemonic::MOVNTPS), Mnemonic::Movntps as u64),
        (u64::from(mnemonic::MOVNTQ), Mnemonic::Movntq as u64),
        (u64::from(mnemonic::MOVQ), Mnemonic::Movq as u64),
        (u64::from(mnemonic::MOVSB), Mnemonic::Movsb as u64),
        (u64::from(mnemonic::MOVSD), Mnemonic::Movsd as u64),
        (u64::from(mnemonic::MOVSHDUP), Mnemonic::Movshdup as u64),
        (u64::from(mnemonic::MOVSLDUP), Mnemonic::Movsldup as u64),
        (u64::from(mnemonic::MOVSQ), Mnemonic::Movsq as u64),
        (u64::from(mnemonic::MOVSS), Mnemonic::Movss as u64),
        (u64::from(mnemonic::MOVSW), Mnemonic::Movsw as u64),
        (u64::from(mnemonic::MOVSX), Mnemonic::Movsx as u64),
        (u64::from(mnemonic::MOVSXD), Mnemonic::Movsxd as u64),
        (u64::from(mnemonic::MOVUPD), Mnemonic::Movupd as u64),
        (u64::from(mnemonic::MOVUPS), Mnemonic::Movups as u64),
        (u64::from(mnemonic::MOVZX), Mnemonic::Movzx as u64),
        (u64::from(mnemonic::MUL), Mnemonic::Mul as u64),
        (u64::from(mnemonic::MULPD), Mnemonic::Mulpd as u64),
        (u64::from(mnemonic::MULPS), Mnemonic::Mulps as u64),
        (u64::from(mnemonic::MULSD), Mnemonic::Mulsd as u64),
        (u64::from(mnemonic::MULSS), Mnemonic::Mulss as u64),
        (u64::from(mnemonic::NEG), Mnemonic::Neg as u64),
        (u64::from(mnemonic::NOP), Mnemonic::Nop as u64),
        (u64::from(mnemonic::NOT), Mnemonic::Not as u64),
        (u64::from(mnemonic::OR), Mnemonic::Or as u64),
        (u64::from(mnemonic::ORPD), Mnemonic::Orpd as u64),
        (u64::from(mnemonic::ORPS), Mnemonic::Orps as u64),
        (u64::from(mnemonic::OUT), Mnemonic::Out as u64),
        (u64::from(mnemonic::PACKSSDW), Mnemonic::Packssdw as u64),
        (u64::from(mnemonic::PACKSSWB), Mnemonic::Packsswb as u64),
        (u64::from(mnemonic::PACKUSDW), Mnemonic::Packusdw as u64),
        (u64::from(mnemonic::PACKUSWB), Mnemonic::Packuswb as u64),
        (u64::from(mnemonic::PADDB), Mnemonic::Paddb as u64),
        (u64::from(mnemonic::PADDD), Mnemonic::Paddd as u64),
        (u64::from(mnemonic::PADDQ), Mnemonic::Paddq as u64),
        (u64::from(mnemonic::PADDSB), Mnemonic::Paddsb as u64),
        (u64::from(mnemonic::PADDSW), Mnemonic::Paddsw as u64),
        (u64::from(mnemonic::PADDUSB), Mnemonic::Paddusb as u64),
        (u64::from(mnemonic::PADDUSW), Mnemonic::Paddusw as u64),
        (u64::from(mnemonic::PADDW), Mnemonic::Paddw as u64),
        (u64::from(mnemonic::PALIGNR), Mnemonic::Palignr as u64),
        (u64::from(mnemonic::PAND), Mnemonic::Pand as u64),
        (u64::from(mnemonic::PANDN), Mnemonic::Pandn as u64),
        (u64::from(mnemonic::PAUSE), Mnemonic::Pause as u64),
        (u64::from(mnemonic::PAVGB), Mnemonic::Pavgb as u64),
        (u64::from(mnemonic::PBLENDVB), Mnemonic::Pblendvb as u64),
        (u64::from(mnemonic::PBLENDW), Mnemonic::Pblendw as u64),
        (u64::from(mnemonic::PCMPEQB), Mnemonic::Pcmpeqb as u64),
        (u64::from(mnemonic::PCMPEQD), Mnemonic::Pcmpeqd as u64),
        (u64::from(mnemonic::PCMPEQQ), Mnemonic::Pcmpeqq as u64),
        (u64::from(mnemonic::PCMPEQW), Mnemonic::Pcmpeqw as u64),
        (u64::from(mnemonic::PCMPGTB), Mnemonic::Pcmpgtb as u64),
        (u64::from(mnemonic::PCMPGTD), Mnemonic::Pcmpgtd as u64),
        (u64::from(mnemonic::PCMPGTW), Mnemonic::Pcmpgtw as u64),
        (u64::from(mnemonic::PEXTRB), Mnemonic::Pextrb as u64),
        (u64::from(mnemonic::PEXTRD), Mnemonic::Pextrd as u64),
        (u64::from(mnemonic::PEXTRQ), Mnemonic::Pextrq as u64),
        (u64::from(mnemonic::PEXTRW), Mnemonic::Pextrw as u64),
        (u64::from(mnemonic::PHADDD), Mnemonic::Phaddd as u64),
        (u64::from(mnemonic::PINSRB), Mnemonic::Pinsrb as u64),
        (u64::from(mnemonic::PINSRD), Mnemonic::Pinsrd as u64),
        (u64::from(mnemonic::PINSRQ), Mnemonic::Pinsrq as u64),
        (u64::from(mnemonic::PINSRW), Mnemonic::Pinsrw as u64),
        (u64::from(mnemonic::PMADDUBSW), Mnemonic::Pmaddubsw as u64),
        (u64::from(mnemonic::PMADDWD), Mnemonic::Pmaddwd as u64),
        (u64::from(mnemonic::PMAXSB), Mnemonic::Pmaxsb as u64),
        (u64::from(mnemonic::PMAXSD), Mnemonic::Pmaxsd as u64),
        (u64::from(mnemonic::PMAXSW), Mnemonic::Pmaxsw as u64),
        (u64::from(mnemonic::PMAXUB), Mnemonic::Pmaxub as u64),
        (u64::from(mnemonic::PMAXUD), Mnemonic::Pmaxud as u64),
        (u64::from(mnemonic::PMAXUW), Mnemonic::Pmaxuw as u64),
        (u64::from(mnemonic::PMINSB), Mnemonic::Pminsb as u64),
        (u64::from(mnemonic::PMINSD), Mnemonic::Pminsd as u64),
        (u64::from(mnemonic::PMINSW), Mnemonic::Pminsw as u64),
        (u64::from(mnemonic::PMINUB), Mnemonic::Pminub as u64),
        (u64::from(mnemonic::PMINUD), Mnemonic::Pminud as u64),
        (u64::from(mnemonic::PMINUW), Mnemonic::Pminuw as u64),
        (u64::from(mnemonic::PMOVMSKB), Mnemonic::Pmovmskb as u64),
        (u64::from(mnemonic::PMOVSXBD), Mnemonic::Pmovsxbd as u64),
        (u64::from(mnemonic::PMOVSXBQ), Mnemonic::Pmovsxbq as u64),
        (u64::from(mnemonic::PMOVSXBW), Mnemonic::Pmovsxbw as u64),
        (u64::from(mnemonic::PMOVSXDQ), Mnemonic::Pmovsxdq as u64),
        (u64::from(mnemonic::PMOVSXWD), Mnemonic::Pmovsxwd as u64),
        (u64::from(mnemonic::PMOVSXWQ), Mnemonic::Pmovsxwq as u64),
        (u64::from(mnemonic::PMOVZXBD), Mnemonic::Pmovzxbd as u64),
        (u64::from(mnemonic::PMOVZXBQ), Mnemonic::Pmovzxbq as u64),
        (u64::from(mnemonic::PMOVZXBW), Mnemonic::Pmovzxbw as u64),
        (u64::from(mnemonic::PMOVZXDQ), Mnemonic::Pmovzxdq as u64),
        (u64::from(mnemonic::PMOVZXWD), Mnemonic::Pmovzxwd as u64),
        (u64::from(mnemonic::PMOVZXWQ), Mnemonic::Pmovzxwq as u64),
        (u64::from(mnemonic::PMULHUW), Mnemonic::Pmulhuw as u64),
        (u64::from(mnemonic::PMULHW), Mnemonic::Pmulhw as u64),
        (u64::from(mnemonic::PMULLD), Mnemonic::Pmulld as u64),
        (u64::from(mnemonic::PMULLW), Mnemonic::Pmullw as u64),
        (u64::from(mnemonic::PMULUDQ), Mnemonic::Pmuludq as u64),
        (u64::from(mnemonic::POP), Mnemonic::Pop as u64),
        (u64::from(mnemonic::POPCNT), Mnemonic::Popcnt as u64),
        (u64::from(mnemonic::POPF), Mnemonic::Popf as u64),
        (u64::from(mnemonic::POR), Mnemonic::Por as u64),
        (u64::from(mnemonic::PREFETCHNTA), Mnemonic::Prefetchnta as u64),
        (u64::from(mnemonic::PREFETCHT0), Mnemonic::Prefetcht0 as u64),
        (u64::from(mnemonic::PREFETCHT1), Mnemonic::Prefetcht1 as u64),
        (u64::from(mnemonic::PREFETCHT2), Mnemonic::Prefetcht2 as u64),
        (u64::from(mnemonic::PSADBW), Mnemonic::Psadbw as u64),
        (u64::from(mnemonic::PSHUFB), Mnemonic::Pshufb as u64),
        (u64::from(mnemonic::PSHUFD), Mnemonic::Pshufd as u64),
        (u64::from(mnemonic::PSHUFHW), Mnemonic::Pshufhw as u64),
        (u64::from(mnemonic::PSHUFLW), Mnemonic::Pshuflw as u64),
        (u64::from(mnemonic::PSLLD), Mnemonic::Pslld as u64),
        (u64::from(mnemonic::PSLLDQ), Mnemonic::Pslldq as u64),
        (u64::from(mnemonic::PSLLQ), Mnemonic::Psllq as u64),
        (u64::from(mnemonic::PSLLW), Mnemonic::Psllw as u64),
        (u64::from(mnemonic::PSRAD), Mnemonic::Psrad as u64),
        (u64::from(mnemonic::PSRAW), Mnemonic::Psraw as u64),
        (u64::from(mnemonic::PSRLD), Mnemonic::Psrld as u64),
        (u64::from(mnemonic::PSRLDQ), Mnemonic::Psrldq as u64),
        (u64::from(mnemonic::PSRLQ), Mnemonic::Psrlq as u64),
        (u64::from(mnemonic::PSRLW), Mnemonic::Psrlw as u64),
        (u64::from(mnemonic::PSUBB), Mnemonic::Psubb as u64),
        (u64::from(mnemonic::PSUBD), Mnemonic::Psubd as u64),
        (u64::from(mnemonic::PSUBQ), Mnemonic::Psubq as u64),
        (u64::from(mnemonic::PSUBSB), Mnemonic::Psubsb as u64),
        (u64::from(mnemonic::PSUBSW), Mnemonic::Psubsw as u64),
        (u64::from(mnemonic::PSUBUSB), Mnemonic::Psubusb as u64),
        (u64::from(mnemonic::PSUBUSW), Mnemonic::Psubusw as u64),
        (u64::from(mnemonic::PSUBW), Mnemonic::Psubw as u64),
        (u64::from(mnemonic::PTEST), Mnemonic::Ptest as u64),
        (u64::from(mnemonic::PUNPCKHBW), Mnemonic::Punpckhbw as u64),
        (u64::from(mnemonic::PUNPCKHDQ), Mnemonic::Punpckhdq as u64),
        (u64::from(mnemonic::PUNPCKHQDQ), Mnemonic::Punpckhqdq as u64),
        (u64::from(mnemonic::PUNPCKHWD), Mnemonic::Punpckhwd as u64),
        (u64::from(mnemonic::PUNPCKLBW), Mnemonic::Punpcklbw as u64),
        (u64::from(mnemonic::PUNPCKLDQ), Mnemonic::Punpckldq as u64),
        (u64::from(mnemonic::PUNPCKLQDQ), Mnemonic::Punpcklqdq as u64),
        (u64::from(mnemonic::PUNPCKLWD), Mnemonic::Punpcklwd as u64),
        (u64::from(mnemonic::PUSH), Mnemonic::Push as u64),
        (u64::from(mnemonic::PUSHF), Mnemonic::Pushf as u64),
        (u64::from(mnemonic::PXOR), Mnemonic::Pxor as u64),
        (u64::from(mnemonic::RCL), Mnemonic::Rcl as u64),
        (u64::from(mnemonic::RCR), Mnemonic::Rcr as u64),
        (u64::from(mnemonic::RDMSR), Mnemonic::Rdmsr as u64),
        (u64::from(mnemonic::RDPMC), Mnemonic::Rdpmc as u64),
        (u64::from(mnemonic::RDRAND), Mnemonic::Rdrand as u64),
        (u64::from(mnemonic::RDSEED), Mnemonic::Rdseed as u64),
        (u64::from(mnemonic::RDTSC), Mnemonic::Rdtsc as u64),
        (u64::from(mnemonic::RDTSCP), Mnemonic::Rdtscp as u64),
        (u64::from(mnemonic::RET), Mnemonic::Ret as u64),
        (u64::from(mnemonic::ROL), Mnemonic::Rol as u64),
        (u64::from(mnemonic::ROR), Mnemonic::Ror as u64),
        (u64::from(mnemonic::ROUNDPD), Mnemonic::Roundpd as u64),
        (u64::from(mnemonic::ROUNDPS), Mnemonic::Roundps as u64),
        (u64::from(mnemonic::ROUNDSD), Mnemonic::Roundsd as u64),
        (u64::from(mnemonic::ROUNDSS), Mnemonic::Roundss as u64),
        (u64::from(mnemonic::SAHF), Mnemonic::Sahf as u64),
        (u64::from(mnemonic::SAR), Mnemonic::Sar as u64),
        (u64::from(mnemonic::SBB), Mnemonic::Sbb as u64),
        (u64::from(mnemonic::SCASB), Mnemonic::Scasb as u64),
        (u64::from(mnemonic::SCASD), Mnemonic::Scasd as u64),
        (u64::from(mnemonic::SCASQ), Mnemonic::Scasq as u64),
        (u64::from(mnemonic::SCASW), Mnemonic::Scasw as u64),
        (u64::from(mnemonic::SETA), Mnemonic::Seta as u64),
        (u64::from(mnemonic::SETAE), Mnemonic::Setae as u64),
        (u64::from(mnemonic::SETB), Mnemonic::Setb as u64),
        (u64::from(mnemonic::SETBE), Mnemonic::Setbe as u64),
        (u64::from(mnemonic::SETE), Mnemonic::Sete as u64),
        (u64::from(mnemonic::SETG), Mnemonic::Setg as u64),
        (u64::from(mnemonic::SETGE), Mnemonic::Setge as u64),
        (u64::from(mnemonic::SETL), Mnemonic::Setl as u64),
        (u64::from(mnemonic::SETLE), Mnemonic::Setle as u64),
        (u64::from(mnemonic::SETNE), Mnemonic::Setne as u64),
        (u64::from(mnemonic::SETNO), Mnemonic::Setno as u64),
        (u64::from(mnemonic::SETNP), Mnemonic::Setnp as u64),
        (u64::from(mnemonic::SETNS), Mnemonic::Setns as u64),
        (u64::from(mnemonic::SETO), Mnemonic::Seto as u64),
        (u64::from(mnemonic::SETP), Mnemonic::Setp as u64),
        (u64::from(mnemonic::SETS), Mnemonic::Sets as u64),
        (u64::from(mnemonic::SFENCE), Mnemonic::Sfence as u64),
        (u64::from(mnemonic::SGDT), Mnemonic::Sgdt as u64),
        (u64::from(mnemonic::SHL), Mnemonic::Shl as u64),
        (u64::from(mnemonic::SHLD), Mnemonic::Shld as u64),
        (u64::from(mnemonic::SHR), Mnemonic::Shr as u64),
        (u64::from(mnemonic::SHRD), Mnemonic::Shrd as u64),
        (u64::from(mnemonic::SHUFPD), Mnemonic::Shufpd as u64),
        (u64::from(mnemonic::SHUFPS), Mnemonic::Shufps as u64),
        (u64::from(mnemonic::SIDT), Mnemonic::Sidt as u64),
        (u64::from(mnemonic::SLDT), Mnemonic::Sldt as u64),
        (u64::from(mnemonic::SMSW), Mnemonic::Smsw as u64),
        (u64::from(mnemonic::SQRTSD), Mnemonic::Sqrtsd as u64),
        (u64::from(mnemonic::SQRTSS), Mnemonic::Sqrtss as u64),
        (u64::from(mnemonic::STC), Mnemonic::Stc as u64),
        (u64::from(mnemonic::STD), Mnemonic::Std as u64),
        (u64::from(mnemonic::STI), Mnemonic::Sti as u64),
        (u64::from(mnemonic::STMXCSR), Mnemonic::Stmxcsr as u64),
        (u64::from(mnemonic::STOSB), Mnemonic::Stosb as u64),
        (u64::from(mnemonic::STOSD), Mnemonic::Stosd as u64),
        (u64::from(mnemonic::STOSQ), Mnemonic::Stosq as u64),
        (u64::from(mnemonic::STOSW), Mnemonic::Stosw as u64),
        (u64::from(mnemonic::STR), Mnemonic::Str as u64),
        (u64::from(mnemonic::SUB), Mnemonic::Sub as u64),
        (u64::from(mnemonic::SUBPD), Mnemonic::Subpd as u64),
        (u64::from(mnemonic::SUBPS), Mnemonic::Subps as u64),
        (u64::from(mnemonic::SUBSD), Mnemonic::Subsd as u64),
        (u64::from(mnemonic::SUBSS), Mnemonic::Subss as u64),
        (u64::from(mnemonic::SWAPGS), Mnemonic::Swapgs as u64),
        (u64::from(mnemonic::TEST), Mnemonic::Test as u64),
        (u64::from(mnemonic::TZCNT), Mnemonic::Tzcnt as u64),
        (u64::from(mnemonic::UCOMISD), Mnemonic::Ucomisd as u64),
        (u64::from(mnemonic::UCOMISS), Mnemonic::Ucomiss as u64),
        (u64::from(mnemonic::UD2), Mnemonic::Ud2 as u64),
        (u64::from(mnemonic::UNPCKHPD), Mnemonic::Unpckhpd as u64),
        (u64::from(mnemonic::UNPCKHPS), Mnemonic::Unpckhps as u64),
        (u64::from(mnemonic::UNPCKLPD), Mnemonic::Unpcklpd as u64),
        (u64::from(mnemonic::UNPCKLPS), Mnemonic::Unpcklps as u64),
        (u64::from(mnemonic::WAIT), Mnemonic::Wait as u64),
        (u64::from(mnemonic::WBINVD), Mnemonic::Wbinvd as u64),
        (u64::from(mnemonic::WRMSR), Mnemonic::Wrmsr as u64),
        (u64::from(mnemonic::XADD), Mnemonic::Xadd as u64),
        (u64::from(mnemonic::XCHG), Mnemonic::Xchg as u64),
        (u64::from(mnemonic::XGETBV), Mnemonic::Xgetbv as u64),
        (u64::from(mnemonic::XLATB), Mnemonic::Xlatb as u64),
        (u64::from(mnemonic::XOR), Mnemonic::Xor as u64),
        (u64::from(mnemonic::XORPD), Mnemonic::Xorpd as u64),
        (u64::from(mnemonic::XORPS), Mnemonic::Xorps as u64),
        (u64::from(mnemonic::XSETBV), Mnemonic::Xsetbv as u64),
        (u64::from(mnemonic::PUSHFD), Mnemonic::Pushfd as u64),
        (u64::from(mnemonic::PUSHFQ), Mnemonic::Pushfq as u64),
        (u64::from(mnemonic::POPFD), Mnemonic::Popfd as u64),
        (u64::from(mnemonic::POPFQ), Mnemonic::Popfq as u64),
        (u64::from(mnemonic::INT3), Mnemonic::Int3 as u64),
    ];
    for (ours, theirs) in pairs {
        assert_eq!(ours, theirs);
    }
}

#[test]
fn registers_have_the_numbers_of_the_decoder() {
    let pairs = [
        (u64::from(register::NONE), Register::None as u64),
        (u64::from(register::AL), Register::AL as u64),
        (u64::from(register::CL), Register::CL as u64),
        (u64::from(register::DL), Register::DL as u64),
        (u64::from(register::BL), Register::BL as u64),
        (u64::from(register::AH), Register::AH as u64),
        (u64::from(register::CH), Register::CH as u64),
        (u64::from(register::DH), Register::DH as u64),
        (u64::from(register::BH), Register::BH as u64),
        (u64::from(register::SPL), Register::SPL as u64),
        (u64::from(register::BPL), Register::BPL as u64),
        (u64::from(register::SIL), Register::SIL as u64),
        (u64::from(register::DIL), Register::DIL as u64),
        (u64::from(register::R15L), Register::R15L as u64),
        (u64::from(register::AX), Register::AX as u64),
        (u64::from(register::CX), Register::CX as u64),
        (u64::from(register::DX), Register::DX as u64),
        (u64::from(register::BX), Register::BX as u64),
        (u64::from(register::R15W), Register::R15W as u64),
        (u64::from(register::EAX), Register::EAX as u64),
        (u64::from(register::ECX), Register::ECX as u64),
        (u64::from(register::EDX), Register::EDX as u64),
        (u64::from(register::EBX), Register::EBX as u64),
        (u64::from(register::R15D), Register::R15D as u64),
        (u64::from(register::RAX), Register::RAX as u64),
        (u64::from(register::RCX), Register::RCX as u64),
        (u64::from(register::RDX), Register::RDX as u64),
        (u64::from(register::RBX), Register::RBX as u64),
        (u64::from(register::RSP), Register::RSP as u64),
        (u64::from(register::RBP), Register::RBP as u64),
        (u64::from(register::RSI), Register::RSI as u64),
        (u64::from(register::RDI), Register::RDI as u64),
        (u64::from(register::R8), Register::R8 as u64),
        (u64::from(register::R15), Register::R15 as u64),
        (u64::from(register::EIP), Register::EIP as u64),
        (u64::from(register::RIP), Register::RIP as u64),
        (u64::from(register::ES), Register::ES as u64),
        (u64::from(register::CS), Register::CS as u64),
        (u64::from(register::SS), Register::SS as u64),
        (u64::from(register::DS), Register::DS as u64),
        (u64::from(register::FS), Register::FS as u64),
        (u64::from(register::GS), Register::GS as u64),
        (u64::from(register::XMM0), Register::XMM0 as u64),
        (u64::from(register::XMM15), Register::XMM15 as u64),
        (u64::from(register::CR0), Register::CR0 as u64),
        (u64::from(register::CR2), Register::CR2 as u64),
        (u64::from(register::CR3), Register::CR3 as u64),
        (u64::from(register::CR4), Register::CR4 as u64),
        (u64::from(register::CR8), Register::CR8 as u64),
        (u64::from(register::DR0), Register::DR0 as u64),
        (u64::from(register::DR1), Register::DR1 as u64),
        (u64::from(register::DR2), Register::DR2 as u64),
        (u64::from(register::DR3), Register::DR3 as u64),
        (u64::from(register::DR6), Register::DR6 as u64),
        (u64::from(register::DR7), Register::DR7 as u64),
        (u64::from(register::ST0), Register::ST0 as u64),
        (u64::from(register::ST7), Register::ST7 as u64),
        (u64::from(register::MM0), Register::MM0 as u64),
        (u64::from(register::MM7), Register::MM7 as u64),
    ];
    for (ours, theirs) in pairs {
        assert_eq!(ours, theirs);
    }
}

#[test]
fn operand_kinds_have_the_numbers_of_the_decoder() {
    let pairs = [
        (u64::from(op_kind::REGISTER), OpKind::Register as u64),
        (u64::from(op_kind::NEAR_BRANCH16), OpKind::NearBranch16 as u64),
        (u64::from(op_kind::NEAR_BRANCH32), OpKind::NearBranch32 as u64),
        (u64::from(op_kind::NEAR_BRANCH64), OpKind::NearBranch64 as u64),
        (u64::from(op_kind::FAR_BRANCH16), OpKind::FarBranch16 as u64),
        (u64::from(op_kind::FAR_BRANCH32), OpKind::FarBranch32 as u64),
        (u64::from(op_kind::IMMEDIATE8), OpKind::Immediate8 as u64),
        (u64::from(op_kind::IMMEDIATE16), OpKind::Immediate16 as u64),
        (u64::from(op_kind::IMMEDIATE8TO16), OpKind::Immediate8to16 as u64),
        (u64::from(op_kind::IMMEDIATE8TO32), OpKind::Immediate8to32 as u64),
        (u64::from(op_kind::IMMEDIATE8TO64), OpKind::Immediate8to64 as u64),
        (u64::from(op_kind::MEMORY_SEG_SI), OpKind::MemorySegSI as u64),
        (u64::from(op_kind::MEMORY_ES_RDI), OpKind::MemoryESRDI as u64),
        (u64::from(op_kind::MEMORY), OpKind::Memory as u64),
    ];
    for (ours, theirs) in pairs {
        assert_eq!(ours, theirs);
    }
}

#[test]
fn memory_sizes_have_the_numbers_of_the_decoder() {
    let pairs = [
        (u64::from(op_kind::SIZE_UINT8), MemorySize::UInt8 as u64),
        (u64::from(op_kind::SIZE_UINT16), MemorySize::UInt16 as u64),
        (u64::from(op_kind::SIZE_UINT32), MemorySize::UInt32 as u64),
        (u64::from(op_kind::SIZE_UINT64), MemorySize::UInt64 as u64),
        (u64::from(op_kind::SIZE_UINT128), MemorySize::UInt128 as u64),
        (u64::from(op_kind::SIZE_UINT256), MemorySize::UInt256 as u64),
        (u64::from(op_kind::SIZE_UINT512), MemorySize::UInt512 as u64),
        (u64::from(op_kind::SIZE_INT8), MemorySize::Int8 as u64),
        (u64::from(op_kind::SIZE_INT16), MemorySize::Int16 as u64),
        (u64::from(op_kind::SIZE_INT32), MemorySize::Int32 as u64),
        (u64::from(op_kind::SIZE_INT64), MemorySize::Int64 as u64),
        (u64::from(op_kind::SIZE_INT128), MemorySize::Int128 as u64),
        (u64::from(op_kind::SIZE_INT256), MemorySize::Int256 as u64),
        (u64::from(op_kind::SIZE_INT512), MemorySize::Int512 as u64),
        (u64::from(op_kind::SIZE_FWORD10), MemorySize::Fword10 as u64),
        (u64::from(op_kind::SIZE_FLOAT32), MemorySize::Float32 as u64),
        (u64::from(op_kind::SIZE_FLOAT64), MemorySize::Float64 as u64),
        (u64::from(op_kind::SIZE_FLOAT80), MemorySize::Float80 as u64),
    ];
    for (ours, theirs) in pairs {
        assert_eq!(ours, theirs);
    }
}

#[test]
fn an_instruction_decodes_to_its_parts() {
    // lock add dword ptr fs:[rcx + rdx * 4 + 0x12], 0x34
    let bytes = [0xF0, 0x64, 0x83, 0x44, 0x91, 0x12, 0x34];
    let instruction = decode(64, &bytes, 0x1000);
    assert_eq!(instruction.mnemonic, mnemonic::ADD);
    assert_eq!(instruction.code, iced_x86::Code::Add_rm32_imm8 as u16);
    assert_eq!(instruction.op_count, 2);
    assert_eq!(instruction.op0_kind, op_kind::MEMORY);
    assert_eq!(instruction.op1_kind, op_kind::IMMEDIATE8TO32);
    assert_eq!(instruction.memory_size, op_kind::SIZE_UINT32);
    assert_eq!(instruction.memory_base, register::RCX);
    assert_eq!(instruction.memory_index, register::RDX);
    assert_eq!(instruction.memory_scale, 4);
    assert_eq!(instruction.memory_displacement, 0x12);
    assert_eq!(instruction.memory_segment, register::FS);
    assert_eq!(instruction.segment_prefix, register::FS);
    assert_eq!(instruction.immediate0, 0);
    assert_eq!(instruction.immediate1, 0x34);
    assert_eq!(instruction.next_ip, 0x1007);
    assert!(instruction.lock && !instruction.rep && !instruction.repne);
}

#[test]
fn branch_targets_decode_as_addresses() {
    // jmp short to the instruction itself
    let near = decode(64, &[0xEB, 0xFE], 0x4000);
    assert_eq!(near.mnemonic, mnemonic::JMP);
    assert_eq!(near.op0_kind, op_kind::NEAR_BRANCH64);
    assert_eq!(near.near_branch_target, 0x4000);
    // jmp far 0x0008:0x12345678
    let far = decode(32, &[0xEA, 0x78, 0x56, 0x34, 0x12, 0x08, 0x00], 0);
    assert_eq!(far.op0_kind, op_kind::FAR_BRANCH32);
    assert_eq!((far.far_selector, far.far_offset), (8, 0x1234_5678));
    // rep movsb and the same byte in another mode
    assert!(decode(64, &[0xF3, 0xA4], 0).rep);
    assert_eq!(decode(16, &[0x90], 0).next_ip, 1);
}

#[test]
fn every_number_goes_to_its_field() {
    let shape: Vec<u64> = (1..).take(SHAPE_FIELDS).collect();
    let operands: Vec<u64> = (101..).take(OPERAND_FIELDS).collect();
    let instruction = assemble(&shape, &operands);
    assert_eq!((instruction.mnemonic, instruction.code, instruction.op_count), (1, 2, 3));
    assert_eq!((instruction.op0_kind, instruction.op1_kind, instruction.op2_kind), (4, 5, 6));
    assert_eq!((instruction.op0_register, instruction.op1_register, instruction.op2_register), (7, 8, 9));
    assert_eq!(instruction.memory_size, 10);
    assert_eq!((instruction.memory_base, instruction.memory_index, instruction.memory_scale), (101, 102, 103));
    assert_eq!((instruction.memory_displacement, instruction.near_branch_target), (104, 110));
    assert_eq!((instruction.memory_segment, instruction.segment_prefix), (105, 106));
    assert_eq!((instruction.immediate0, instruction.immediate1, instruction.immediate2), (107, 108, 109));
    assert_eq!((instruction.far_offset, instruction.far_selector, instruction.next_ip), (111, 112, 113));
}
