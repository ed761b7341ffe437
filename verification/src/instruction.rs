//! The instruction word: its three layouts, its operation codes, and the
//! functions that pack and unpack it.
//!
//! Every instruction is one 32-bit word. The operation code is in bits 26 to
//! 31. The register form holds a destination in bits 21 to 25, two sources in
//! bits 16 to 20 and 11 to 15, and a function code in bits 0 to 10. The
//! immediate form holds a destination, one source and a signed 16-bit
//! immediate in bits 0 to 15. The jump form holds a signed 26-bit byte
//! address in bits 0 to 25: a displacement from the program counter for
//! `JMP`, an address in the instruction stream for `JABS`.

use crate::register::{index_of, register_index, wrap, RegisterId};
use vstd::prelude::*;

verus! {

/// A machine word.
pub type Word = u32;

/// The immediate of an instruction in the immediate form.
pub type Immediate = i16;

/// The byte address or displacement of an instruction in the jump form.
pub type Address = i32;

/// The operations of the machine. `ALU` stands for all operations in the
/// register form, which the function code tells apart.
#[allow(non_camel_case_types)]
#[derive(Clone, Copy, PartialEq, Eq, Debug)]
pub enum OpCode {
    ALU,
    HALT,
    LI,
    LHI,
    ADDI,
    ANDI,
    ORI,
    XORI,
    FLIP,
    SLLI,
    SRLI,
    SRAI,
    SLTI,
    SLTUI,
    LB,
    LBU,
    LH,
    LHU,
    LW,
    SB,
    SH,
    SW,
    BEZ,
    BNZ,
    JR,
    JMP,
    JABS,
}

/// The operations in the register form.
#[allow(non_camel_case_types)]
#[derive(Clone, Copy, PartialEq, Eq, Debug)]
pub enum Funct {
    ADD,
    SUB,
    MUL,
    DIV,
    DIVU,
    REM,
    REMU,
    AND,
    OR,
    XOR,
    SLL,
    SRL,
    SRA,
    SLT,
    SLTU,
}

/// The number that stands for an operation in the instruction word.
pub open spec fn op_code(opcode: OpCode) -> u32 {
    match opcode {
        OpCode::ALU => 0,
        OpCode::HALT => 1,
        OpCode::LI => 2,
        OpCode::LHI => 3,
        OpCode::ADDI => 4,
        OpCode::ANDI => 5,
        OpCode::ORI => 6,
        OpCode::XORI => 7,
        OpCode::FLIP => 8,
        OpCode::SLLI => 9,
        OpCode::SRLI => 10,
        OpCode::SRAI => 11,
        OpCode::SLTI => 12,
        OpCode::SLTUI => 13,
        OpCode::LB => 14,
        OpCode::LBU => 15,
        OpCode::LH => 16,
        OpCode::LHU => 17,
        OpCode::LW => 18,
        OpCode::SB => 19,
        OpCode::SH => 20,
        OpCode::SW => 21,
        OpCode::BEZ => 22,
        OpCode::BNZ => 23,
        OpCode::JR => 24,
        OpCode::JMP => 25,
        OpCode::JABS => 26,
    }
}

/// The operation that a number stands for, if any.
pub open spec fn op_of(code: u32) -> Option<OpCode> {
    if code == 0 {
        Some(OpCode::ALU)
    } else if code == 1 {
        Some(OpCode::HALT)
    } else if code == 2 {
        Some(OpCode::LI)
    } else if code == 3 {
        Some(OpCode::LHI)
    } else if code == 4 {
        Some(OpCode::ADDI)
    } else if code == 5 {
        Some(OpCode::ANDI)
    } else if code == 6 {
        Some(OpCode::ORI)
    } else if code == 7 {
        Some(OpCode::XORI)
    } else if code == 8 {
        Some(OpCode::FLIP)
    } else if code == 9 {
        Some(OpCode::SLLI)
    } else if code == 10 {
        Some(OpCode::SRLI)
    } else if code == 11 {
        Some(OpCode::SRAI)
    } else if code == 12 {
        Some(OpCode::SLTI)
    } else if code == 13 {
        Some(OpCode::SLTUI)
    } else if code == 14 {
        Some(OpCode::LB)
    } else if code == 15 {
        Some(OpCode::LBU)
    } else if code == 16 {
        Some(OpCode::LH)
    } else if code == 17 {
        Some(OpCode::LHU)
    } else if code == 18 {
        Some(OpCode::LW)
    } else if code == 19 {
        Some(OpCode::SB)
    } else if code == 20 {
        Some(OpCode::SH)
    } else if code == 21 {
        Some(OpCode::SW)
    } else if code == 22 {
        Some(OpCode::BEZ)
    } else if code == 23 {
        Some(OpCode::BNZ)
    } else if code == 24 {
        Some(OpCode::JR)
    } else if code == 25 {
        Some(OpCode::JMP)
    } else if code == 26 {
        Some(OpCode::JABS)
    } else {
        None
    }
}

/// The number that stands for a register-form operation.
pub open spec fn funct_code(funct: Funct) -> u32 {
    match funct {
        Funct::ADD => 0,
        Funct::SUB => 1,
        Funct::MUL => 2,
        Funct::DIV => 3,
        Funct::DIVU => 4,
        Funct::REM => 5,
        Funct::REMU => 6,
        Funct::AND => 7,
        Funct::OR => 8,
        Funct::XOR => 9,
        Funct::SLL => 10,
        Funct::SRL => 11,
        Funct::SRA => 12,
        Funct::SLT => 13,
        Funct::SLTU => 14,
    }
}

/// The register-form operation that a number stands for, if any.
pub open spec fn funct_of(code: u32) -> Option<Funct> {
    if code == 0 {
        Some(Funct::ADD)
    } else if code == 1 {
        Some(Funct::SUB)
    } else if code == 2 {
        Some(Funct::MUL)
    } else if code == 3 {
        Some(Funct::DIV)
    } else if code == 4 {
        Some(Funct::DIVU)
    } else if code == 5 {
        Some(Funct::REM)
    } else if code == 6 {
        Some(Funct::REMU)
    } else if code == 7 {
        Some(Funct::AND)
    } else if code == 8 {
        Some(Funct::OR)
    } else if code == 9 {
        Some(Funct::XOR)
    } else if code == 10 {
        Some(Funct::SLL)
    } else if code == 11 {
        Some(Funct::SRL)
    } else if code == 12 {
        Some(Funct::SRA)
    } else if code == 13 {
        Some(Funct::SLT)
    } else if code == 14 {
        Some(Funct::SLTU)
    } else {
        None
    }
}

/// A number stands for the operation whose code it is, and for no other.
pub proof fn lemma_op_code_round_trip(opcode: OpCode)
    ensures
        op_of(op_code(opcode)) == Some(opcode),
        op_code(opcode) < 64,
{
}

/// A number stands for the register-form operation whose code it is.
pub proof fn lemma_funct_code_round_trip(funct: Funct)
    ensures
        funct_of(funct_code(funct)) == Some(funct),
        funct_code(funct) < 0x800,
{
}

impl OpCode {
    /// The number that stands for this operation in the instruction word.
    pub fn code(self) -> (code: u32)
        ensures
            code == op_code(self),
            code < 64,
    {
        match self {
            OpCode::ALU => 0,
            OpCode::HALT => 1,
            OpCode::LI => 2,
            OpCode::LHI => 3,
            OpCode::ADDI => 4,
            OpCode::ANDI => 5,
            OpCode::ORI => 6,
            OpCode::XORI => 7,
            OpCode::FLIP => 8,
            OpCode::SLLI => 9,
            OpCode::SRLI => 10,
            OpCode::SRAI => 11,
            OpCode::SLTI => 12,
            OpCode::SLTUI => 13,
            OpCode::LB => 14,
            OpCode::LBU => 15,
            OpCode::LH => 16,
            OpCode::LHU => 17,
            OpCode::LW => 18,
            OpCode::SB => 19,
            OpCode::SH => 20,
            OpCode::SW => 21,
            OpCode::BEZ => 22,
            OpCode::BNZ => 23,
            OpCode::JR => 24,
            OpCode::JMP => 25,
            OpCode::JABS => 26,
        }
    }

    /// The operation that `code` stands for, if any.
    pub fn from_code(code: u32) -> (opcode: Option<OpCode>)
        ensures
            opcode == op_of(code),
    {
        match code {
            0 => Some(OpCode::ALU),
            1 => Some(OpCode::HALT),
            2 => Some(OpCode::LI),
            3 => Some(OpCode::LHI),
            4 => Some(OpCode::ADDI),
            5 => Some(OpCode::ANDI),
            6 => Some(OpCode::ORI),
            7 => Some(OpCode::XORI),
            8 => Some(OpCode::FLIP),
            9 => Some(OpCode::SLLI),
            10 => Some(OpCode::SRLI),
            11 => Some(OpCode::SRAI),
            12 => Some(OpCode::SLTI),
            13 => Some(OpCode::SLTUI),
            14 => Some(OpCode::LB),
            15 => Some(OpCode::LBU),
            16 => Some(OpCode::LH),
            17 => Some(OpCode::LHU),
            18 => Some(OpCode::LW),
            19 => Some(OpCode::SB),
            20 => Some(OpCode::SH),
            21 => Some(OpCode::SW),
            22 => Some(OpCode::BEZ),
            23 => Some(OpCode::BNZ),
            24 => Some(OpCode::JR),
            25 => Some(OpCode::JMP),
            26 => Some(OpCode::JABS),
            _ => None,
        }
    }
}

impl Funct {
    /// The number that stands for this operation in the instruction word.
    pub fn code(self) -> (code: u32)
        ensures
            code == funct_code(self),
            code < 0x800,
    {
        match self {
            Funct::ADD => 0,
            Funct::SUB => 1,
            Funct::MUL => 2,
            Funct::DIV => 3,
            Funct::DIVU => 4,
            Funct::REM => 5,
            Funct::REMU => 6,
            Funct::AND => 7,
            Funct::OR => 8,
            Funct::XOR => 9,
            Funct::SLL => 10,
            Funct::SRL => 11,
            Funct::SRA => 12,
            Funct::SLT => 13,
            Funct::SLTU => 14,
        }
    }

    /// The operation that `code` stands for, if any.
    pub fn from_code(code: u32) -> (funct: Option<Funct>)
        ensures
            funct == funct_of(code),
    {
        match code {
            0 => Some(Funct::ADD),
            1 => Some(Funct::SUB),
            2 => Some(Funct::MUL),
            3 => Some(Funct::DIV),
            4 => Some(Funct::DIVU),
            5 => Some(Funct::REM),
            6 => Some(Funct::REMU),
            7 => Some(Funct::AND),
            8 => Some(Funct::OR),
            9 => Some(Funct::XOR),
            10 => Some(Funct::SLL),
            11 => Some(Funct::SRL),
            12 => Some(Funct::SRA),
            13 => Some(Funct::SLT),
            14 => Some(Funct::SLTU),
            _ => None,
        }
    }
}

/// The operation-code field of an instruction word.
pub open spec fn op_field(word: u32) -> u32 {
    word >> 26
}

/// The destination field of an instruction word.
pub open spec fn rd_field(word: u32) -> u32 {
    (word >> 21) & 0x1f
}

/// The first source field of an instruction word.
pub open spec fn rs1_field(word: u32) -> u32 {
    (word >> 16) & 0x1f
}

/// The second source field of an instruction word in the register form.
pub open spec fn rs2_field(word: u32) -> u32 {
    (word >> 11) & 0x1f
}

/// The function-code field of an instruction word in the register form.
pub open spec fn funct_field(word: u32) -> u32 {
    word & 0x7ff
}

/// The immediate of an instruction word, sign-extended from 16 bits.
pub open spec fn imm_field(word: u32) -> u32 {
    if word & 0x8000 != 0 {
        (word & 0xffff) | 0xffff_0000
    } else {
        word & 0xffff
    }
}

/// The displacement of an instruction word in the jump form, sign-extended
/// from 26 bits.
pub open spec fn jump_field(word: u32) -> u32 {
    if word & 0x0200_0000 != 0 {
        (word & 0x03ff_ffff) | 0xfc00_0000
    } else {
        word & 0x03ff_ffff
    }
}

/// Unpacks the operation-code field.
pub fn op_bits(word: Word) -> (code: u32)
    ensures
        code == op_field(word),
{
    word >> 26
}

/// Unpacks the destination field as a position in the register file.
pub fn rd_bits(word: Word) -> (index: usize)
    ensures
        index == rd_field(word),
        index < 32,
{
    assert((word >> 21) & 0x1f < 32) by (bit_vector);
    ((word >> 21) & 0x1f) as usize
}

/// Unpacks the first source field as a position in the register file.
pub fn rs1_bits(word: Word) -> (index: usize)
    ensures
        index == rs1_field(word),
        index < 32,
{
    assert((word >> 16) & 0x1f < 32) by (bit_vector);
    ((word >> 16) & 0x1f) as usize
}

/// Unpacks the second source field as a position in the register file.
pub fn rs2_bits(word: Word) -> (index: usize)
    ensures
        index == rs2_field(word),
        index < 32,
{
    assert((word >> 11) & 0x1f < 32) by (bit_vector);
    ((word >> 11) & 0x1f) as usize
}

/// Unpacks the function-code field.
pub fn funct_bits(word: Word) -> (code: u32)
    ensures
        code == funct_field(word),
{
    word & 0x7ff
}

/// Unpacks the immediate and extends its sign to a word.
pub fn imm_bits(word: Word) -> (value: u32)
    ensures
        value == imm_field(word),
{
    if word & 0x8000 != 0 {
        (word & 0xffff) | 0xffff_0000
    } else {
        word & 0xffff
    }
}

/// Unpacks the jump displacement and extends its sign to a word.
pub fn jump_bits(word: Word) -> (value: u32)
    ensures
        value == jump_field(word),
{
    if word & 0x0200_0000 != 0 {
        (word & 0x03ff_ffff) | 0xfc00_0000
    } else {
        word & 0x03ff_ffff
    }
}

/// The word of an instruction in the register form.
pub open spec fn alu_word(funct: Funct, rd: RegisterId, rs1: RegisterId, rs2: RegisterId) -> u32 {
    ((index_of(rd) as u32) << 21) | ((index_of(rs1) as u32) << 16) | ((index_of(rs2) as u32)
        << 11) | funct_code(funct)
}

/// The word of an instruction in the immediate form.
pub open spec fn i_word(opcode: OpCode, rd: RegisterId, rs1: RegisterId, immediate: i16) -> u32 {
    (op_code(opcode) << 26) | ((index_of(rd) as u32) << 21) | ((index_of(rs1) as u32) << 16) | (
    wrap(immediate as int) & 0xffff)
}

/// The word of an instruction in the jump form.
pub open spec fn j_word(opcode: OpCode, address: i32) -> u32 {
    (op_code(opcode) << 26) | (wrap(address as int) & 0x03ff_ffff)
}

/// The word of an instruction in the immediate form unpacks to the fields it
/// was packed from.
pub proof fn lemma_i_word_fields(opcode: OpCode, rd: RegisterId, rs1: RegisterId, immediate: i16)
    ensures
        op_field(i_word(opcode, rd, rs1, immediate)) == op_code(opcode),
        op_of(op_field(i_word(opcode, rd, rs1, immediate))) == Some(opcode),
        rd_field(i_word(opcode, rd, rs1, immediate)) == index_of(rd),
        rs1_field(i_word(opcode, rd, rs1, immediate)) == index_of(rs1),
        imm_field(i_word(opcode, rd, rs1, immediate)) == wrap(immediate as int),
{
    let o = op_code(opcode);
    let d = index_of(rd) as u32;
    let a = index_of(rs1) as u32;
    let full = wrap(immediate as int);
    let low = full & 0xffff;
    let word = (o << 26) | (d << 21) | (a << 16) | low;
    assert(word >> 26 == o && (word >> 21) & 0x1f == d && (word >> 16) & 0x1f == a && word & 0xffff
        == low && (word & 0x8000 != 0 <==> low >= 0x8000)) by (bit_vector)
        requires
            word == (o << 26) | (d << 21) | (a << 16) | low,
            low == full & 0xffff,
            o < 64,
            d < 32,
            a < 32,
    ;
    assert((full < 0x8000 ==> full & 0xffff == full) && (full >= 0xffff_8000 ==> (full & 0xffff)
        | 0xffff_0000 == full && full & 0xffff >= 0x8000)) by (bit_vector);
}

/// The word of an instruction in the register form unpacks to the fields it
/// was packed from.
pub proof fn lemma_alu_word_fields(funct: Funct, rd: RegisterId, rs1: RegisterId, rs2: RegisterId)
    ensures
        op_field(alu_word(funct, rd, rs1, rs2)) == op_code(OpCode::ALU),
        funct_field(alu_word(funct, rd, rs1, rs2)) == funct_code(funct),
        funct_of(funct_field(alu_word(funct, rd, rs1, rs2))) == Some(funct),
        rd_field(alu_word(funct, rd, rs1, rs2)) == index_of(rd),
        rs1_field(alu_word(funct, rd, rs1, rs2)) == index_of(rs1),
        rs2_field(alu_word(funct, rd, rs1, rs2)) == index_of(rs2),
{
    let d = index_of(rd) as u32;
    let a = index_of(rs1) as u32;
    let b = index_of(rs2) as u32;
    let f = funct_code(funct);
    let word = (d << 21) | (a << 16) | (b << 11) | f;
    assert(word >> 26 == 0 && word & 0x7ff == f && (word >> 21) & 0x1f == d && (word >> 16) & 0x1f
        == a && (word >> 11) & 0x1f == b) by (bit_vector)
        requires
            word == (d << 21) | (a << 16) | (b << 11) | f,
            d < 32,
            a < 32,
            b < 32,
            f < 0x800,
    ;
}

/// The word of an instruction in the jump form unpacks to the operation it
/// was packed from, and to its displacement if that fits in 26 bits.
pub proof fn lemma_j_word_fields(opcode: OpCode, address: i32)
    ensures
        op_field(j_word(opcode, address)) == op_code(opcode),
        op_of(op_field(j_word(opcode, address))) == Some(opcode),
        -0x0200_0000 <= address < 0x0200_0000 ==> jump_field(j_word(opcode, address)) == wrap(
            address as int,
        ),
{
    let o = op_code(opcode);
    let full = wrap(address as int);
    let low = full & 0x03ff_ffff;
    let word = (o << 26) | low;
    assert(word >> 26 == o && word & 0x03ff_ffff == low && (word & 0x0200_0000 != 0 <==> low
        >= 0x0200_0000)) by (bit_vector)
        requires
            word == (o << 26) | low,
            low == full & 0x03ff_ffff,
            o < 64,
    ;
    assert((full < 0x0200_0000 ==> full & 0x03ff_ffff == full) && (full >= 0xfe00_0000 ==> (full
        & 0x03ff_ffff) | 0xfc00_0000 == full && full & 0x03ff_ffff >= 0x0200_0000))
        by (bit_vector);
}

/// Packs an instruction in the register form.
pub fn instr_alu(funct: Funct, rd: RegisterId, rs1: RegisterId, rs2: RegisterId) -> (word: Word)
    ensures
        word == alu_word(funct, rd, rs1, rs2),
        op_field(word) == op_code(OpCode::ALU),
        funct_field(word) == funct_code(funct),
        rd_field(word) == index_of(rd),
        rs1_field(word) == index_of(rs1),
        rs2_field(word) == index_of(rs2),
{
    proof {
        lemma_alu_word_fields(funct, rd, rs1, rs2);
    }
    let d = register_index(rd) as u32;
    let a = register_index(rs1) as u32;
    let b = register_index(rs2) as u32;
    (d << 21) | (a << 16) | (b << 11) | funct.code()
}

/// The two's-complement pattern of a signed number.
fn pattern(value: i32) -> (bits: u32)
    ensures
        bits == wrap(value as int),
{
    if value >= 0 {
        value as u32
    } else {
        (0x1_0000_0000i64 + value as i64) as u32
    }
}

/// Packs an instruction in the immediate form.
pub fn instr_i(opcode: OpCode, rd: RegisterId, rs1: RegisterId, immediate: Immediate) -> (word:
    Word)
    ensures
        word == i_word(opcode, rd, rs1, immediate),
        op_field(word) == op_code(opcode),
        rd_field(word) == index_of(rd),
        rs1_field(word) == index_of(rs1),
        imm_field(word) == wrap(immediate as int),
{
    proof {
        lemma_i_word_fields(opcode, rd, rs1, immediate);
    }
    let d = register_index(rd) as u32;
    let a = register_index(rs1) as u32;
    (opcode.code() << 26) | (d << 21) | (a << 16) | (pattern(immediate as i32) & 0xffff)
}

/// Packs an instruction in the jump form. A displacement that does not fit
/// in 26 bits is cut to its low 26 bits.
pub fn instr_j(opcode: OpCode, address: Address) -> (word: Word)
    ensures
        word == j_word(opcode, address),
        op_field(word) == op_code(opcode),
        -0x0200_0000 <= address < 0x0200_0000 ==> jump_field(word) == wrap(address as int),
{
    proof {
        lemma_j_word_fields(opcode, address);
    }
    (opcode.code() << 26) | (pattern(address) & 0x03ff_ffff)
}

} // verus!
