//! One instruction at a time: fetching, routing and retiring.

use vstd::prelude::*;

use crate::arch::registers::{CpuMode, RegisterState};
use crate::cpu::interrupts::VECTOR_PAGE_FAULT;
use crate::cpu::{Cpu, CpuError, Machine};
use crate::decode::{decode, decoded, mnemonic, op_kind, Instruction};
use crate::ops::arithmetic::{
    adc_sbb, binary_spec, convert, convert_spec, inc_dec, inc_dec_spec, mul_div, mul_div_spec, neg, neg_spec,
};
use crate::ops::branch::{
    call, call_spec, condition_spec, flag_ops, flag_ops_spec, jcc, jump, jump_spec, jump_where, met, ret, ret_spec,
    setcc,
};
use crate::ops::data::{
    exchange_spec, lea, mov, mov_spec, movx, movx_spec, xadd, xadd_spec, xchg, xchg_spec, xlatb, xlatb_spec,
};
use crate::ops::effect::{done, finished, Effect};
use crate::ops::logic::{
    and_or_xor, and_or_xor_spec, bit_scan_test, bit_scan_test_spec, shift_rotate, shift_rotate_spec, test_spec,
};
use crate::ops::operand_size_spec;
use crate::ops::sse::{sse_op, sse_op_spec};
use crate::ops::sse3::{sse3_op, sse3_op_spec};
use crate::ops::sse_int::{packed_integer_op, packed_integer_op_spec};
use crate::ops::stack::{push_pop, push_pop_spec};
use crate::ops::string::{string_op, string_op_spec};
use crate::ops::system::{
    cpuid, cpuid_spec, extra_op, extra_op_spec, hlt, hlt_spec, in_out, is_control_register, is_control_register_spec,
    is_debug_register, is_debug_register_spec, port_access, rdtsc, rdtsc_spec, system_op, system_op_spec,
};
use crate::ops::x87::{x87_op, x87_op_spec};

verus! {

/// The family that runs an instruction.
#[derive(Clone, Copy, PartialEq, Eq, Structural, Debug)]
pub enum Route {
    Add,
    Sub,
    Compare,
    AddCarry,
    Step,
    Negate,
    MultiplyDivide,
    Convert,
    Logic,
    Test,
    Shift,
    Bits,
    Jump,
    JumpIf,
    SetIf,
    Call,
    Return,
    Flags,
    Move,
    Address,
    Extend,
    Exchange,
    ExchangeAdd,
    CompareExchange,
    Translate,
    Stack,
    Text,
    TextOrScalar,
    Port,
    Halt,
    Identify,
    Clock,
    System,
    Extra,
    SegmentLimit,
    ControlStatus,
    PackedInteger,
    InsertSingle,
    Widen,
    Round,
    Horizontal,
    Alternate,
    Remainder,
    Float,
    Nothing,
    /// The vector dispatcher, which refuses what it does not know.
    Vector,
}

pub open spec fn route_of(code: u16) -> Route {
    match code {
        mnemonic::ADD => Route::Add,
        mnemonic::SUB => Route::Sub,
        mnemonic::CMP => Route::Compare,
        mnemonic::ADC | mnemonic::SBB => Route::AddCarry,
        mnemonic::INC | mnemonic::DEC => Route::Step,
        mnemonic::NEG => Route::Negate,
        mnemonic::MUL | mnemonic::IMUL | mnemonic::DIV | mnemonic::IDIV => Route::MultiplyDivide,
        mnemonic::CBW | mnemonic::CWDE | mnemonic::CDQE | mnemonic::CWD | mnemonic::CDQ | mnemonic::CQO => Route::Convert,
        mnemonic::AND | mnemonic::OR | mnemonic::XOR | mnemonic::NOT => Route::Logic,
        mnemonic::TEST => Route::Test,
        mnemonic::SHL | mnemonic::SHR | mnemonic::SAR | mnemonic::ROL | mnemonic::ROR | mnemonic::RCL
        | mnemonic::RCR => Route::Shift,
        mnemonic::BT | mnemonic::BTS | mnemonic::BTR | mnemonic::BTC | mnemonic::BSF | mnemonic::BSR
        | mnemonic::TZCNT | mnemonic::LZCNT => Route::Bits,
        mnemonic::JMP | mnemonic::LOOP | mnemonic::LOOPE | mnemonic::LOOPNE | mnemonic::JCXZ | mnemonic::JECXZ
        | mnemonic::JRCXZ => Route::Jump,
        mnemonic::JO | mnemonic::JNO | mnemonic::JB | mnemonic::JAE | mnemonic::JE | mnemonic::JNE | mnemonic::JBE
        | mnemonic::JA | mnemonic::JS | mnemonic::JNS | mnemonic::JP | mnemonic::JNP | mnemonic::JL | mnemonic::JGE
        | mnemonic::JLE | mnemonic::JG => Route::JumpIf,
        mnemonic::SETO | mnemonic::SETNO | mnemonic::SETB | mnemonic::SETAE | mnemonic::SETE | mnemonic::SETNE
        | mnemonic::SETBE | mnemonic::SETA | mnemonic::SETS | mnemonic::SETNS | mnemonic::SETP | mnemonic::SETNP
        | mnemonic::SETL | mnemonic::SETGE | mnemonic::SETLE | mnemonic::SETG => Route::SetIf,
        mnemonic::CALL => Route::Call,
        mnemonic::RET => Route::Return,
        mnemonic::STC | mnemonic::CLC | mnemonic::CMC | mnemonic::CLD | mnemonic::STD | mnemonic::CLI
        | mnemonic::STI | mnemonic::SAHF | mnemonic::LAHF => Route::Flags,
        mnemonic::MOV => Route::Move,
        mnemonic::LEA => Route::Address,
        mnemonic::MOVZX | mnemonic::MOVSX | mnemonic::MOVSXD => Route::Extend,
        mnemonic::XCHG => Route::Exchange,
        mnemonic::XADD => Route::ExchangeAdd,
        mnemonic::CMPXCHG | mnemonic::CMPXCHG8B | mnemonic::CMPXCHG16B => Route::CompareExchange,
        mnemonic::XLATB => Route::Translate,
        mnemonic::PUSH | mnemonic::POP | mnemonic::PUSHF | mnemonic::PUSHFD | mnemonic::PUSHFQ | mnemonic::POPF
        | mnemonic::POPFD | mnemonic::POPFQ | mnemonic::ENTER | mnemonic::LEAVE => Route::Stack,
        mnemonic::MOVSB | mnemonic::MOVSW | mnemonic::MOVSQ | mnemonic::STOSB | mnemonic::STOSW | mnemonic::STOSD
        | mnemonic::STOSQ | mnemonic::LODSB | mnemonic::LODSW | mnemonic::LODSD | mnemonic::LODSQ | mnemonic::SCASB
        | mnemonic::SCASW | mnemonic::SCASD | mnemonic::SCASQ | mnemonic::CMPSB | mnemonic::CMPSW | mnemonic::CMPSQ => Route::Text,
        mnemonic::MOVSD | mnemonic::CMPSD => Route::TextOrScalar,
        mnemonic::IN | mnemonic::OUT => Route::Port,
        mnemonic::HLT => Route::Halt,
        mnemonic::CPUID => Route::Identify,
        mnemonic::RDTSC | mnemonic::RDTSCP => Route::Clock,
        mnemonic::RDMSR | mnemonic::WRMSR | mnemonic::RDPMC | mnemonic::LGDT | mnemonic::LIDT | mnemonic::SGDT
        | mnemonic::SIDT | mnemonic::LLDT | mnemonic::SLDT | mnemonic::LTR | mnemonic::STR | mnemonic::CLTS
        | mnemonic::LMSW | mnemonic::SMSW | mnemonic::INVLPG | mnemonic::WBINVD | mnemonic::INVD | mnemonic::LFENCE
        | mnemonic::SFENCE | mnemonic::MFENCE | mnemonic::IRET | mnemonic::INT3 | mnemonic::INT | mnemonic::INTO
        | mnemonic::BOUND => Route::System,
        mnemonic::BSWAP | mnemonic::POPCNT | mnemonic::UD2 | mnemonic::RDRAND | mnemonic::RDSEED
        | mnemonic::PREFETCHT0 | mnemonic::PREFETCHT1 | mnemonic::PREFETCHT2 | mnemonic::PREFETCHNTA
        | mnemonic::CLFLUSH | mnemonic::CLFLUSHOPT | mnemonic::ENDBR64 | mnemonic::ENDBR32 | mnemonic::FXSAVE
        | mnemonic::FXRSTOR | mnemonic::SHLD | mnemonic::SHRD | mnemonic::SWAPGS | mnemonic::XGETBV
        | mnemonic::XSETBV => Route::Extra,
        mnemonic::LSL => Route::SegmentLimit,
        mnemonic::LDMXCSR | mnemonic::STMXCSR => Route::ControlStatus,
        mnemonic::PEXTRB | mnemonic::PEXTRD | mnemonic::EXTRACTPS | mnemonic::PEXTRQ | mnemonic::PINSRB
        | mnemonic::PINSRD | mnemonic::PINSRQ | mnemonic::PBLENDW | mnemonic::BLENDPS | mnemonic::BLENDPD
        | mnemonic::PBLENDVB | mnemonic::BLENDVPS | mnemonic::BLENDVPD | mnemonic::PALIGNR | mnemonic::PMADDWD
        | mnemonic::PMADDUBSW | mnemonic::PMULHUW | mnemonic::PMULHW | mnemonic::PMULLW | mnemonic::PMULLD
        | mnemonic::PAVGB | mnemonic::PHADDD | mnemonic::CVTTPS2DQ | mnemonic::PACKSSDW | mnemonic::PACKSSWB
        | mnemonic::PACKUSWB | mnemonic::PACKUSDW | mnemonic::PSHUFB | mnemonic::PTEST | mnemonic::PSADBW => Route::PackedInteger,
        mnemonic::INSERTPS => Route::InsertSingle,
        mnemonic::PMOVSXBW | mnemonic::PMOVSXBD | mnemonic::PMOVSXBQ | mnemonic::PMOVSXWD | mnemonic::PMOVSXWQ
        | mnemonic::PMOVSXDQ | mnemonic::PMOVZXBW | mnemonic::PMOVZXBD | mnemonic::PMOVZXBQ | mnemonic::PMOVZXWD
        | mnemonic::PMOVZXWQ | mnemonic::PMOVZXDQ => Route::Widen,
        mnemonic::ROUNDSD | mnemonic::ROUNDSS | mnemonic::ROUNDPD | mnemonic::ROUNDPS => Route::Round,
        mnemonic::HADDPD | mnemonic::HADDPS | mnemonic::HSUBPD | mnemonic::HSUBPS => Route::Horizontal,
        mnemonic::ADDSUBPD | mnemonic::ADDSUBPS => Route::Alternate,
        mnemonic::FPREM => Route::Remainder,
        mnemonic::FLD | mnemonic::FILD | mnemonic::FLD1 | mnemonic::FLDZ | mnemonic::FLDPI | mnemonic::FLDL2E
        | mnemonic::FLDL2T | mnemonic::FLDLG2 | mnemonic::FLDLN2 | mnemonic::FST | mnemonic::FSTP | mnemonic::FIST
        | mnemonic::FISTP | mnemonic::FISTTP | mnemonic::FADD | mnemonic::FSUB | mnemonic::FSUBR | mnemonic::FMUL
        | mnemonic::FDIV | mnemonic::FDIVR | mnemonic::FIADD | mnemonic::FISUB | mnemonic::FIMUL | mnemonic::FIDIV
        | mnemonic::FADDP | mnemonic::FSUBP | mnemonic::FSUBRP | mnemonic::FMULP | mnemonic::FDIVP
        | mnemonic::FDIVRP | mnemonic::FCHS | mnemonic::FABS | mnemonic::FSQRT | mnemonic::FRNDINT | mnemonic::FXCH
        | mnemonic::FCOM | mnemonic::FUCOM | mnemonic::FCOMP | mnemonic::FUCOMP | mnemonic::FCOMPP
        | mnemonic::FUCOMPP | mnemonic::FICOM | mnemonic::FICOMP | mnemonic::FCOMI | mnemonic::FUCOMI
        | mnemonic::FCOMIP | mnemonic::FUCOMIP | mnemonic::FXAM | mnemonic::FTST | mnemonic::FLDCW
        | mnemonic::FNSTCW | mnemonic::FSTCW | mnemonic::FNSTSW | mnemonic::FSTSW | mnemonic::FFREE
        | mnemonic::FFREEP | mnemonic::FINCSTP | mnemonic::FDECSTP | mnemonic::FINIT | mnemonic::FNINIT
        | mnemonic::FCLEX | mnemonic::FNCLEX | mnemonic::FLDENV | mnemonic::FRSTOR | mnemonic::FNSTENV
        | mnemonic::FSTENV | mnemonic::FNSAVE | mnemonic::FSAVE | mnemonic::WAIT => Route::Float,
        mnemonic::NOP | mnemonic::PAUSE | mnemonic::FNOP => Route::Nothing,
        _ => Route::Vector,
    }
}

fn find_route(code: u16) -> (route: Route)
    ensures
        route == route_of(code),
        route == Route::JumpIf || route == Route::SetIf ==> condition_spec(code) is Some,
{
    match code {
        mnemonic::ADD => Route::Add,
        mnemonic::SUB => Route::Sub,
        mnemonic::CMP => Route::Compare,
        mnemonic::ADC | mnemonic::SBB => Route::AddCarry,
        mnemonic::INC | mnemonic::DEC => Route::Step,
        mnemonic::NEG => Route::Negate,
        mnemonic::MUL | mnemonic::IMUL | mnemonic::DIV | mnemonic::IDIV => Route::MultiplyDivide,
        mnemonic::CBW | mnemonic::CWDE | mnemonic::CDQE | mnemonic::CWD | mnemonic::CDQ | mnemonic::CQO => Route::Convert,
        mnemonic::AND | mnemonic::OR | mnemonic::XOR | mnemonic::NOT => Route::Logic,
        mnemonic::TEST => Route::Test,
        mnemonic::SHL | mnemonic::SHR | mnemonic::SAR | mnemonic::ROL | mnemonic::ROR | mnemonic::RCL
        | mnemonic::RCR => Route::Shift,
        mnemonic::BT | mnemonic::BTS | mnemonic::BTR | mnemonic::BTC | mnemonic::BSF | mnemonic::BSR
        | mnemonic::TZCNT | mnemonic::LZCNT => Route::Bits,
        mnemonic::JMP | mnemonic::LOOP | mnemonic::LOOPE | mnemonic::LOOPNE | mnemonic::JCXZ | mnemonic::JECXZ
        | mnemonic::JRCXZ => Route::Jump,
        mnemonic::JO | mnemonic::JNO | mnemonic::JB | mnemonic::JAE | mnemonic::JE | mnemonic::JNE | mnemonic::JBE
        | mnemonic::JA | mnemonic::JS | mnemonic::JNS | mnemonic::JP | mnemonic::JNP | mnemonic::JL | mnemonic::JGE
        | mnemonic::JLE | mnemonic::JG => Route::JumpIf,
        mnemonic::SETO | mnemonic::SETNO | mnemonic::SETB | mnemonic::SETAE | mnemonic::SETE | mnemonic::SETNE
        | mnemonic::SETBE | mnemonic::SETA | mnemonic::SETS | mnemonic::SETNS | mnemonic::SETP | mnemonic::SETNP
        | mnemonic::SETL | mnemonic::SETGE | mnemonic::SETLE | mnemonic::SETG => Route::SetIf,
        mnemonic::CALL => Route::Call,
        mnemonic::RET => Route::Return,
        mnemonic::STC | mnemonic::CLC | mnemonic::CMC | mnemonic::CLD | mnemonic::STD | mnemonic::CLI
        | mnemonic::STI | mnemonic::SAHF | mnemonic::LAHF => Route::Flags,
        mnemonic::MOV => Route::Move,
        mnemonic::LEA => Route::Address,
        mnemonic::MOVZX | mnemonic::MOVSX | mnemonic::MOVSXD => Route::Extend,
        mnemonic::XCHG => Route::Exchange,
        mnemonic::XADD => Route::ExchangeAdd,
        mnemonic::CMPXCHG | mnemonic::CMPXCHG8B | mnemonic::CMPXCHG16B => Route::CompareExchange,
        mnemonic::XLATB => Route::Translate,
        mnemonic::PUSH | mnemonic::POP | mnemonic::PUSHF | mnemonic::PUSHFD | mnemonic::PUSHFQ | mnemonic::POPF
        | mnemonic::POPFD | mnemonic::POPFQ | mnemonic::ENTER | mnemonic::LEAVE => Route::Stack,
        mnemonic::MOVSB | mnemonic::MOVSW | mnemonic::MOVSQ | mnemonic::STOSB | mnemonic::STOSW | mnemonic::STOSD
        | mnemonic::STOSQ | mnemonic::LODSB | mnemonic::LODSW | mnemonic::LODSD | mnemonic::LODSQ | mnemonic::SCASB
        | mnemonic::SCASW | mnemonic::SCASD | mnemonic::SCASQ | mnemonic::CMPSB | mnemonic::CMPSW | mnemonic::CMPSQ => Route::Text,
        mnemonic::MOVSD | mnemonic::CMPSD => Route::TextOrScalar,
        mnemonic::IN | mnemonic::OUT => Route::Port,
        mnemonic::HLT => Route::Halt,
        mnemonic::CPUID => Route::Identify,
        mnemonic::RDTSC | mnemonic::RDTSCP => Route::Clock,
        mnemonic::RDMSR | mnemonic::WRMSR | mnemonic::RDPMC | mnemonic::LGDT | mnemonic::LIDT | mnemonic::SGDT
        | mnemonic::SIDT | mnemonic::LLDT | mnemonic::SLDT | mnemonic::LTR | mnemonic::STR | mnemonic::CLTS
        | mnemonic::LMSW | mnemonic::SMSW | mnemonic::INVLPG | mnemonic::WBINVD | mnemonic::INVD | mnemonic::LFENCE
        | mnemonic::SFENCE | mnemonic::MFENCE | mnemonic::IRET | mnemonic::INT3 | mnemonic::INT | mnemonic::INTO
        | mnemonic::BOUND => Route::System,
        mnemonic::BSWAP | mnemonic::POPCNT | mnemonic::UD2 | mnemonic::RDRAND | mnemonic::RDSEED
        | mnemonic::PREFETCHT0 | mnemonic::PREFETCHT1 | mnemonic::PREFETCHT2 | mnemonic::PREFETCHNTA
        | mnemonic::CLFLUSH | mnemonic::CLFLUSHOPT | mnemonic::ENDBR64 | mnemonic::ENDBR32 | mnemonic::FXSAVE
        | mnemonic::FXRSTOR | mnemonic::SHLD | mnemonic::SHRD | mnemonic::SWAPGS | mnemonic::XGETBV
        | mnemonic::XSETBV => Route::Extra,
        mnemonic::LSL => Route::SegmentLimit,
        mnemonic::LDMXCSR | mnemonic::STMXCSR => Route::ControlStatus,
        mnemonic::PEXTRB | mnemonic::PEXTRD | mnemonic::EXTRACTPS | mnemonic::PEXTRQ | mnemonic::PINSRB
        | mnemonic::PINSRD | mnemonic::PINSRQ | mnemonic::PBLENDW | mnemonic::BLENDPS | mnemonic::BLENDPD
        | mnemonic::PBLENDVB | mnemonic::BLENDVPS | mnemonic::BLENDVPD | mnemonic::PALIGNR | mnemonic::PMADDWD
        | mnemonic::PMADDUBSW | mnemonic::PMULHUW | mnemonic::PMULHW | mnemonic::PMULLW | mnemonic::PMULLD
        | mnemonic::PAVGB | mnemonic::PHADDD | mnemonic::CVTTPS2DQ | mnemonic::PACKSSDW | mnemonic::PACKSSWB
        | mnemonic::PACKUSWB | mnemonic::PACKUSDW | mnemonic::PSHUFB | mnemonic::PTEST | mnemonic::PSADBW => Route::PackedInteger,
        mnemonic::INSERTPS => Route::InsertSingle,
        mnemonic::PMOVSXBW | mnemonic::PMOVSXBD | mnemonic::PMOVSXBQ | mnemonic::PMOVSXWD | mnemonic::PMOVSXWQ
        | mnemonic::PMOVSXDQ | mnemonic::PMOVZXBW | mnemonic::PMOVZXBD | mnemonic::PMOVZXBQ | mnemonic::PMOVZXWD
        | mnemonic::PMOVZXWQ | mnemonic::PMOVZXDQ => Route::Widen,
        mnemonic::ROUNDSD | mnemonic::ROUNDSS | mnemonic::ROUNDPD | mnemonic::ROUNDPS => Route::Round,
        mnemonic::HADDPD | mnemonic::HADDPS | mnemonic::HSUBPD | mnemonic::HSUBPS => Route::Horizontal,
        mnemonic::ADDSUBPD | mnemonic::ADDSUBPS => Route::Alternate,
        mnemonic::FPREM => Route::Remainder,
        mnemonic::FLD | mnemonic::FILD | mnemonic::FLD1 | mnemonic::FLDZ | mnemonic::FLDPI | mnemonic::FLDL2E
        | mnemonic::FLDL2T | mnemonic::FLDLG2 | mnemonic::FLDLN2 | mnemonic::FST | mnemonic::FSTP | mnemonic::FIST
        | mnemonic::FISTP | mnemonic::FISTTP | mnemonic::FADD | mnemonic::FSUB | mnemonic::FSUBR | mnemonic::FMUL
        | mnemonic::FDIV | mnemonic::FDIVR | mnemonic::FIADD | mnemonic::FISUB | mnemonic::FIMUL | mnemonic::FIDIV
        | mnemonic::FADDP | mnemonic::FSUBP | mnemonic::FSUBRP | mnemonic::FMULP | mnemonic::FDIVP
        | mnemonic::FDIVRP | mnemonic::FCHS | mnemonic::FABS | mnemonic::FSQRT | mnemonic::FRNDINT | mnemonic::FXCH
        | mnemonic::FCOM | mnemonic::FUCOM | mnemonic::FCOMP | mnemonic::FUCOMP | mnemonic::FCOMPP
        | mnemonic::FUCOMPP | mnemonic::FICOM | mnemonic::FICOMP | mnemonic::FCOMI | mnemonic::FUCOMI
        | mnemonic::FCOMIP | mnemonic::FUCOMIP | mnemonic::FXAM | mnemonic::FTST | mnemonic::FLDCW
        | mnemonic::FNSTCW | mnemonic::FSTCW | mnemonic::FNSTSW | mnemonic::FSTSW | mnemonic::FFREE
        | mnemonic::FFREEP | mnemonic::FINCSTP | mnemonic::FDECSTP | mnemonic::FINIT | mnemonic::FNINIT
        | mnemonic::FCLEX | mnemonic::FNCLEX | mnemonic::FLDENV | mnemonic::FRSTOR | mnemonic::FNSTENV
        | mnemonic::FSTENV | mnemonic::FNSAVE | mnemonic::FSAVE | mnemonic::WAIT => Route::Float,
        mnemonic::NOP | mnemonic::PAUSE | mnemonic::FNOP => Route::Nothing,
        _ => Route::Vector,
    }
}

/// Whether a register is a control or a debug register.
pub open spec fn is_special_spec(number: u8) -> bool {
    is_control_register_spec(number) || is_debug_register_spec(number)
}

fn is_special(number: u8) -> (found: bool)
    ensures
        found == is_special_spec(number),
{
    is_control_register(number) || is_debug_register(number)
}

/// Whether an operand is the implied memory of a string instruction.
pub open spec fn is_text_kind(kind: u8) -> bool {
    op_kind::MEMORY_SEG_SI <= kind <= op_kind::MEMORY_ES_RDI
}

fn has_text_kind(kind: u8) -> (found: bool)
    ensures
        found == is_text_kind(kind),
{
    op_kind::MEMORY_SEG_SI <= kind && kind <= op_kind::MEMORY_ES_RDI
}

/// What the instruction does.
#[verifier::opaque]
pub open spec fn dispatch_spec(machine: Machine, instruction: Instruction) -> (Machine, Result<Effect, CpuError>) {
    match route_of(instruction.mnemonic) {
        Route::Add => done(binary_spec(machine, instruction, false, false)),
        Route::Sub => done(binary_spec(machine, instruction, true, false)),
        Route::Compare => done(crate::ops::arithmetic::compare_spec(machine, instruction)),
        Route::AddCarry => done(binary_spec(machine, instruction, instruction.mnemonic == mnemonic::SBB, true)),
        Route::Step => done(inc_dec_spec(machine, instruction)),
        Route::Negate => done(neg_spec(machine, instruction)),
        Route::MultiplyDivide => done(mul_div_spec(machine, instruction)),
        Route::Convert => done((convert_spec(machine, instruction), Ok(()))),
        Route::Logic => done(and_or_xor_spec(machine, instruction)),
        Route::Test => done(test_spec(machine, instruction)),
        Route::Shift => done(shift_rotate_spec(machine, instruction)),
        Route::Bits => done(bit_scan_test_spec(machine, instruction)),
        Route::Jump => done(jump_spec(machine, instruction)),
        Route::JumpIf => {
            let taken = met(condition_spec(instruction.mnemonic)->0, machine.regs.rflags);
            done((jump_where(machine, instruction, taken), Ok(())))
        },
        Route::SetIf => {
            let held = met(condition_spec(instruction.mnemonic)->0, machine.regs.rflags);
            done(
                machine.write_sized0(
                    instruction,
                    1,
                    if held {
                        1
                    } else {
                        0
                    },
                ),
            )
        },
        Route::Call => done(call_spec(machine, instruction)),
        Route::Return => done(ret_spec(machine, instruction)),
        Route::Flags => done((flag_ops_spec(machine, instruction), Ok(()))),
        Route::Move => done(
            if is_special_spec(instruction.op0_register) || is_special_spec(instruction.op1_register) {
                system_op_spec(machine, instruction)
            } else {
                mov_spec(machine, instruction)
            },
        ),
        Route::Address => {
            let size = operand_size_spec(instruction, 0);
            let address = machine.effective_address(instruction);
            done((machine.reg_write(instruction.op0_register, size, address), Ok(())))
        },
        Route::Extend => done(movx_spec(machine, instruction)),
        Route::Exchange => done(xchg_spec(machine, instruction)),
        Route::ExchangeAdd => done(xadd_spec(machine, instruction)),
        Route::CompareExchange => done(exchange_spec(machine, instruction)),
        Route::Translate => done(xlatb_spec(machine)),
        Route::Stack => done(push_pop_spec(machine, instruction)),
        Route::Text => done(string_op_spec(machine, instruction)),
        Route::TextOrScalar => if is_text_kind(instruction.op0_kind) {
            done(string_op_spec(machine, instruction))
        } else {
            sse_op_spec(machine, instruction)
        },
        Route::Port => (machine, Ok(Effect::Port(port_access(machine, instruction)))),
        Route::Halt => done((hlt_spec(machine), Ok(()))),
        Route::Identify => done((cpuid_spec(machine), Ok(()))),
        Route::Clock => done((rdtsc_spec(machine, instruction), Ok(()))),
        Route::System => done(system_op_spec(machine, instruction)),
        Route::Extra => done(extra_op_spec(machine, instruction)),
        Route::SegmentLimit => done(crate::ops::lsl::execute_spec(machine, instruction)),
        Route::ControlStatus => done(crate::ops::mxcsr::execute_spec(machine, instruction)),
        Route::PackedInteger => done(crate::ops::sse_integer::execute_spec(machine, instruction)),
        Route::InsertSingle => done(packed_integer_op_spec(machine, instruction)),
        Route::Widen => done(crate::ops::sse_widen::execute_spec(machine, instruction)),
        Route::Round => done(crate::ops::sse_round::execute_spec(machine, instruction)),
        Route::Horizontal => crate::ops::sse_horizontal::execute_spec(machine, instruction),
        Route::Alternate => sse3_op_spec(machine, instruction),
        Route::Remainder => done(crate::ops::x87_remainder::execute_spec(machine, instruction)),
        Route::Float => x87_op_spec(machine, instruction),
        Route::Nothing => done((machine, Ok(()))),
        Route::Vector => sse_op_spec(machine, instruction),
    }
}

/// How many bits wide the decoder reads code.
pub open spec fn bitness(mode: CpuMode) -> u32 {
    match mode {
        CpuMode::Long => 64,
        CpuMode::Protected32 => 32,
        _ => 16,
    }
}

/// The longest instruction.
pub const LONGEST: usize = 15;

/// How far the time-stamp counter goes on while the processor waits.
pub const IDLE_TICKS: u64 = 64;

impl Machine {
    /// The bytes from `linear` on that can be fetched, `count` at most.
    pub open spec fn fetched(self, linear: u64, count: nat) -> Seq<u8>
        decreases count,
    {
        if count == 0 {
            seq![]
        } else {
            match self.linear_bytes(linear, 1, self.regs.cpl() == 3) {
                Err(error) => seq![],
                Ok(byte) => byte + self.fetched(linear.wrapping_add(1), (count - 1) as nat),
            }
        }
    }

    /// Where the next instruction stands.
    pub open spec fn code_address(self) -> u64 {
        self.regs.cs.base.wrapping_add(self.regs.rip)
    }

    /// The next instruction, or what fetching its first byte ends in.
    pub open spec fn next_instruction(self) -> Result<Instruction, CpuError> {
        match self.linear_bytes(self.code_address(), 1, self.regs.cpl() == 3) {
            Err(error) => Err(error),
            Ok(first) => {
                let instruction = decoded(
                    bitness(self.regs.mode()),
                    self.fetched(self.code_address(), LONGEST as nat),
                    self.regs.rip,
                );
                if instruction.mnemonic == mnemonic::INVALID {
                    Err(CpuError::UnimplementedInstruction { code: instruction.code, address: self.regs.rip })
                } else {
                    Ok(instruction)
                }
            },
        }
    }

    /// The processor with an instruction under way.
    pub open spec fn begun(self, instruction: Instruction) -> Machine {
        let noted = Machine { instruction_start: self.regs.rip, ..self };
        noted.set_rip(instruction.next_ip)
    }

    /// An instruction counts when it ends.
    pub open spec fn retired(self) -> Machine {
        Machine {
            instructions_retired: saturating(self.instructions_retired, 1),
            tsc: saturating(self.tsc, 1),
            ..self
        }
    }

    /// Fetches and runs one instruction.
    pub open spec fn attempt(self) -> (Machine, Result<Effect, CpuError>) {
        let located = Machine { instruction_start: self.regs.rip, ..self };
        match self.next_instruction() {
            Err(error) => (located, Err(error)),
            Ok(instruction) => {
                let (after, result) = dispatch_spec(self.begun(instruction), instruction);
                match result {
                    Err(error) => (after, Err(error)),
                    Ok(effect) => (after.retired(), Ok(effect)),
                }
            },
        }
    }

    /// One step. A page fault is delivered, and the handler's first instruction runs in
    /// the same step.
    pub open spec fn step(self) -> (Machine, Result<Effect, CpuError>) {
        if self.halted {
            (self, Err(CpuError::Halted))
        } else if self.waiting_for_interrupt {
            (Machine { tsc: saturating(self.tsc, IDLE_TICKS), ..self }, Ok(Effect::Done))
        } else {
            let (after, result) = self.attempt();
            match result {
                Err(CpuError::PageFault { linear, error_code }) => {
                    let noted = after.set_regs(RegisterState { cr2: linear, ..after.regs });
                    let (entered, delivered) = noted.raise(VECTOR_PAGE_FAULT, Some(error_code));
                    match delivered {
                        Err(error) => (entered, Err(error)),
                        Ok(done) => entered.attempt(),
                    }
                },
                _ => (after, result),
            }
        }
    }
}

/// The sum, or the greatest number where it does not fit.
pub open spec fn saturating(value: u64, step: u64) -> u64 {
    if value + step > u64::MAX {
        u64::MAX
    } else {
        (value + step) as u64
    }
}

fn add_saturating(value: u64, step: u64) -> (sum: u64)
    ensures
        sum == saturating(value, step),
{
    if value > u64::MAX - step {
        u64::MAX
    } else {
        value + step
    }
}

impl Cpu {
    /// Runs a decoded instruction.
    pub fn dispatch(&mut self, instruction: &Instruction) -> (result: Result<Effect, CpuError>)
        ensures
            (final(self)@, result) == dispatch_spec(old(self)@, *instruction),
    {
        run(self, instruction)
    }

    fn fetch(&self, linear: u64) -> (bytes: Vec<u8>)
        ensures
            bytes@ == self@.fetched(linear, LONGEST as nat),
    {
        let user = self.regs.cpl() == 3;
        let mut bytes: Vec<u8> = Vec::new();
        let mut address = linear;
        let mut index: usize = 0;
        while index < LONGEST
            invariant
                index <= LONGEST,
                user == (self@.regs.cpl() == 3),
                bytes@ + self@.fetched(address, (LONGEST - index) as nat) == self@.fetched(linear, LONGEST as nat),
            decreases LONGEST - index,
        {
            let ghost before = bytes@;
            match self.linear_bytes(address, 1, user) {
                Err(_) => {
                    assert(bytes@ + Seq::<u8>::empty() =~= bytes@);
                    return bytes;
                },
                Ok(mut byte) => {
                    proof {
                        let rest = self@.fetched(address.wrapping_add(1), (LONGEST - index - 1) as nat);
                        assert(before + (byte@ + rest) =~= (before + byte@) + rest);
                    }
                    bytes.append(&mut byte);
                },
            }
            address = address.wrapping_add(1);
            index = index + 1;
        }
        assert(bytes@ + Seq::<u8>::empty() =~= bytes@);
        bytes
    }

    fn next_instruction(&self) -> (instruction: Result<Instruction, CpuError>)
        ensures
            instruction == self@.next_instruction(),
    {
        let linear = self.regs.cs.base.wrapping_add(self.regs.rip);
        let user = self.regs.cpl() == 3;
        let _first = self.linear_bytes(linear, 1, user)?;
        let width: u32 = match self.regs.mode() {
            CpuMode::Long => 64,
            CpuMode::Protected32 => 32,
            _ => 16,
        };
        let bytes = self.fetch(linear);
        let instruction = decode(width, bytes.as_slice(), self.regs.rip);
        if instruction.mnemonic == mnemonic::INVALID {
            Err(CpuError::UnimplementedInstruction { code: instruction.code, address: self.regs.rip })
        } else {
            Ok(instruction)
        }
    }

    fn attempt(&mut self) -> (result: Result<Effect, CpuError>)
        ensures
            (final(self)@, result) == old(self)@.attempt(),
    {
        let next = self.next_instruction();
        self.instruction_start = self.regs.rip;
        let instruction = next?;
        self.regs.rip = instruction.next_ip;
        assert(self@ == old(self)@.begun(instruction));
        let effect = self.dispatch(&instruction)?;
        self.instructions_retired = add_saturating(self.instructions_retired, 1);
        self.tsc = add_saturating(self.tsc, 1);
        Ok(effect)
    }

    /// Runs one instruction, or lets time pass while the processor waits for an
    /// interrupt.
    pub fn step(&mut self) -> (result: Result<Effect, CpuError>)
        ensures
            (final(self)@, result) == old(self)@.step(),
    {
        if self.halted {
            return Err(CpuError::Halted);
        }
        if self.waiting_for_interrupt {
            self.tsc = add_saturating(self.tsc, IDLE_TICKS);
            return Ok(Effect::Done);
        }
        match self.attempt() {
            Err(CpuError::PageFault { linear, error_code }) => {
                self.regs.cr2 = linear;
                self.raise(VECTOR_PAGE_FAULT, Some(error_code))?;
                self.attempt()
            },
            other => other,
        }
    }
}

fn run(cpu: &mut Cpu, instruction: &Instruction) -> (result: Result<Effect, CpuError>)
    ensures
        (final(cpu)@, result) == dispatch_spec(old(cpu)@, *instruction),
{
    reveal(dispatch_spec);
    match find_route(instruction.mnemonic) {
        Route::Add => finished(crate::ops::arithmetic::add(cpu, instruction)),
        Route::Sub => finished(crate::ops::arithmetic::sub(cpu, instruction)),
        Route::Compare => finished(crate::ops::arithmetic::cmp(cpu, instruction)),
        Route::AddCarry => finished(adc_sbb(cpu, instruction)),
        Route::Step => finished(inc_dec(cpu, instruction)),
        Route::Negate => finished(neg(cpu, instruction)),
        Route::MultiplyDivide => finished(mul_div(cpu, instruction)),
        Route::Convert => finished(convert(cpu, instruction)),
        Route::Logic => finished(and_or_xor(cpu, instruction)),
        Route::Test => finished(crate::ops::logic::test(cpu, instruction)),
        Route::Shift => finished(shift_rotate(cpu, instruction)),
        Route::Bits => finished(bit_scan_test(cpu, instruction)),
        Route::Jump => finished(jump(cpu, instruction)),
        Route::JumpIf => finished(jcc(cpu, instruction)),
        Route::SetIf => finished(setcc(cpu, instruction)),
        Route::Call => finished(call(cpu, instruction)),
        Route::Return => finished(ret(cpu, instruction)),
        Route::Flags => finished(flag_ops(cpu, instruction)),
        Route::Move => if is_special(instruction.op0_register) || is_special(instruction.op1_register) {
            finished(system_op(cpu, instruction))
        } else {
            finished(mov(cpu, instruction))
        },
        Route::Address => finished(lea(cpu, instruction)),
        Route::Extend => finished(movx(cpu, instruction)),
        Route::Exchange => finished(xchg(cpu, instruction)),
        Route::ExchangeAdd => finished(xadd(cpu, instruction)),
        Route::CompareExchange => finished(crate::ops::data::cmpxchg(cpu, instruction)),
        Route::Translate => finished(xlatb(cpu)),
        Route::Stack => finished(push_pop(cpu, instruction)),
        Route::Text => finished(string_op(cpu, instruction)),
        Route::TextOrScalar => if has_text_kind(instruction.op0_kind) {
            finished(string_op(cpu, instruction))
        } else {
            sse_op(cpu, instruction)
        },
        Route::Port => Ok(Effect::Port(in_out(cpu, instruction))),
        Route::Halt => {
            hlt(cpu);
            Ok(Effect::Done)
        },
        Route::Identify => {
            cpuid(cpu);
            Ok(Effect::Done)
        },
        Route::Clock => {
            rdtsc(cpu, instruction);
            Ok(Effect::Done)
        },
        Route::System => finished(system_op(cpu, instruction)),
        Route::Extra => finished(extra_op(cpu, instruction)),
        Route::SegmentLimit => finished(crate::ops::lsl::execute(cpu, instruction)),
        Route::ControlStatus => finished(crate::ops::mxcsr::execute(cpu, instruction)),
        Route::PackedInteger => finished(crate::ops::sse_integer::execute(cpu, instruction)),
        Route::InsertSingle => finished(packed_integer_op(cpu, instruction)),
        Route::Widen => finished(crate::ops::sse_widen::execute(cpu, instruction)),
        Route::Round => finished(crate::ops::sse_round::execute(cpu, instruction)),
        Route::Horizontal => crate::ops::sse_horizontal::execute(cpu, instruction),
        Route::Alternate => sse3_op(cpu, instruction),
        Route::Remainder => finished(crate::ops::x87_remainder::execute(cpu, instruction)),
        Route::Float => x87_op(cpu, instruction),
        Route::Nothing => Ok(Effect::Done),
        Route::Vector => sse_op(cpu, instruction),
    }
}

/// A waiting processor lets time pass and does nothing else.
pub proof fn waiting_only_passes_time(machine: Machine)
    requires
        !machine.halted,
        machine.waiting_for_interrupt,
    ensures
        machine.step().1 == Ok::<Effect, CpuError>(Effect::Done),
        machine.step().0 == (Machine { tsc: machine.step().0.tsc, ..machine }),
        machine.tsc <= machine.step().0.tsc,
{
}

/// A halted processor stays as it is.
pub proof fn halted_stays(machine: Machine)
    requires
        machine.halted,
    ensures
        machine.step() == (machine, Err::<Effect, CpuError>(CpuError::Halted)),
{
}

} // verus!
