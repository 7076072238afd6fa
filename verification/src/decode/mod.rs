//! Decoded instructions as plain values.

use vstd::prelude::*;

pub mod mnemonic;
pub mod op_kind;
pub mod register;

verus! {

/// What the interpreter reads of one decoded instruction.
#[derive(Clone, Copy, PartialEq, Eq, Structural, Debug)]
pub struct Instruction {
    pub mnemonic: u16,
    pub code: u16,
    pub next_ip: u64,
    pub op_count: u8,
    pub op0_kind: u8,
    pub op1_kind: u8,
    pub op2_kind: u8,
    pub op0_register: u8,
    pub op1_register: u8,
    pub op2_register: u8,
    pub memory_size: u8,
    pub memory_base: u8,
    pub memory_index: u8,
    pub memory_scale: u8,
    pub memory_displacement: u64,
    pub memory_segment: u8,
    pub segment_prefix: u8,
    pub immediate0: u64,
    pub immediate1: u64,
    pub immediate2: u64,
    pub near_branch_target: u64,
    pub far_offset: u32,
    pub far_selector: u16,
    pub lock: bool,
    pub rep: bool,
    pub repne: bool,
}

/// How many numbers `decoded_shape` reports.
pub const SHAPE_FIELDS: usize = 13;

/// How many numbers `decoded_operands` reports.
pub const OPERAND_FIELDS: usize = 13;

/// What `iced_x86::Decoder::decode` reports of the shape of the instruction at the
/// start of `bytes`: mnemonic, code, operand count, the kinds and the
/// registers of the first three operands, the memory operand's size, and the
/// lock, rep and repne prefixes.
pub uninterp spec fn decoded_shape(bitness: u32, bytes: Seq<u8>, ip: u64) -> Seq<u64>;

/// What `iced_x86::Decoder::decode` reports of the operands of the instruction at
/// the start of `bytes`: memory base, index, scale, displacement, segment and
/// segment prefix, the first three immediates (zero for an operand that is none),
/// the near target, the far offset and selector, and the next address.
pub uninterp spec fn decoded_operands(bitness: u32, bytes: Seq<u8>, ip: u64) -> Seq<u64>;

/// Runs `iced_x86::Decoder::with_ip(..).decode()` without options and hands out the
/// shape of the instruction. Claimed: the numbers depend on the arguments alone,
/// and there is one for each field.
#[verifier::external_body]
fn decode_shape(bitness: u32, bytes: &[u8], ip: u64) -> (fields: Vec<u64>)
    requires
        bitness == 16 || bitness == 32 || bitness == 64,
    ensures
        fields@ == decoded_shape(bitness, bytes@, ip),
        fields@.len() == SHAPE_FIELDS,
{
    let i = iced_x86::Decoder::with_ip(bitness, bytes, ip, iced_x86::DecoderOptions::NONE).decode();
    vec![
        i.mnemonic() as u64, i.code() as u64, i.op_count() as u64,
        i.op0_kind() as u64, i.op1_kind() as u64, i.op2_kind() as u64,
        i.op0_register() as u64, i.op1_register() as u64, i.op2_register() as u64,
        i.memory_size() as u64,
        i.has_lock_prefix() as u64, i.has_rep_prefix() as u64, i.has_repne_prefix() as u64,
    ]
}

/// Runs `iced_x86::Decoder::with_ip(..).decode()` without options and hands out the
/// operands of the instruction. Claimed: the numbers depend on the arguments alone,
/// and there is one for each field.
#[verifier::external_body]
fn decode_operands(bitness: u32, bytes: &[u8], ip: u64) -> (fields: Vec<u64>)
    requires
        bitness == 16 || bitness == 32 || bitness == 64,
    ensures
        fields@ == decoded_operands(bitness, bytes@, ip),
        fields@.len() == OPERAND_FIELDS,
{
    let i = iced_x86::Decoder::with_ip(bitness, bytes, ip, iced_x86::DecoderOptions::NONE).decode();
    vec![
        i.memory_base() as u64, i.memory_index() as u64, i.memory_index_scale() as u64,
        i.memory_displacement64(), i.memory_segment() as u64, i.segment_prefix() as u64,
        i.try_immediate(0).unwrap_or(0), i.try_immediate(1).unwrap_or(0),
        i.try_immediate(2).unwrap_or(0),
        i.near_branch_target(), i.far_branch32() as u64, i.far_branch_selector() as u64, i.next_ip(),
    ]
}

/// The instruction that the decoder's numbers describe.
pub open spec fn instruction_of(shape: Seq<u64>, operands: Seq<u64>) -> Instruction {
    Instruction {
        mnemonic: shape[0] as u16,
        code: shape[1] as u16,
        op_count: shape[2] as u8,
        op0_kind: shape[3] as u8,
        op1_kind: shape[4] as u8,
        op2_kind: shape[5] as u8,
        op0_register: shape[6] as u8,
        op1_register: shape[7] as u8,
        op2_register: shape[8] as u8,
        memory_size: shape[9] as u8,
        lock: shape[10] != 0,
        rep: shape[11] != 0,
        repne: shape[12] != 0,
        memory_base: operands[0] as u8,
        memory_index: operands[1] as u8,
        memory_scale: operands[2] as u8,
        memory_displacement: operands[3],
        memory_segment: operands[4] as u8,
        segment_prefix: operands[5] as u8,
        immediate0: operands[6],
        immediate1: operands[7],
        immediate2: operands[8],
        near_branch_target: operands[9],
        far_offset: operands[10] as u32,
        far_selector: operands[11] as u16,
        next_ip: operands[12],
    }
}

/// Puts the decoder's numbers into an instruction.
pub fn assemble(shape: &Vec<u64>, operands: &Vec<u64>) -> (instruction: Instruction)
    requires
        shape@.len() == SHAPE_FIELDS,
        operands@.len() == OPERAND_FIELDS,
    ensures
        instruction == instruction_of(shape@, operands@),
{
    Instruction {
        mnemonic: shape[0] as u16,
        code: shape[1] as u16,
        op_count: shape[2] as u8,
        op0_kind: shape[3] as u8,
        op1_kind: shape[4] as u8,
        op2_kind: shape[5] as u8,
        op0_register: shape[6] as u8,
        op1_register: shape[7] as u8,
        op2_register: shape[8] as u8,
        memory_size: shape[9] as u8,
        lock: shape[10] != 0,
        rep: shape[11] != 0,
        repne: shape[12] != 0,
        memory_base: operands[0] as u8,
        memory_index: operands[1] as u8,
        memory_scale: operands[2] as u8,
        memory_displacement: operands[3],
        memory_segment: operands[4] as u8,
        segment_prefix: operands[5] as u8,
        immediate0: operands[6],
        immediate1: operands[7],
        immediate2: operands[8],
        near_branch_target: operands[9],
        far_offset: operands[10] as u32,
        far_selector: operands[11] as u16,
        next_ip: operands[12],
    }
}

/// The instruction at the start of `bytes`.
pub open spec fn decoded(bitness: u32, bytes: Seq<u8>, ip: u64) -> Instruction {
    instruction_of(decoded_shape(bitness, bytes, ip), decoded_operands(bitness, bytes, ip))
}

/// Decodes the instruction at the start of `bytes`, which stand at address `ip`.
pub fn decode(bitness: u32, bytes: &[u8], ip: u64) -> (instruction: Instruction)
    requires
        bitness == 16 || bitness == 32 || bitness == 64,
    ensures
        instruction == decoded(bitness, bytes@, ip),
{
    let shape = decode_shape(bitness, bytes, ip);
    let operands = decode_operands(bitness, bytes, ip);
    assemble(&shape, &operands)
}

} // verus!
