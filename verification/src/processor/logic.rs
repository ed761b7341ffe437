//! Decoding and executing one instruction word against the register file
//! and the storage.

use crate::instruction::{
    funct_bits, funct_field, funct_of, imm_bits, imm_field, jump_bits, jump_field, op_bits,
    op_field, op_of, rd_bits, rd_field, rs1_bits, rs1_field, rs2_bits, rs2_field, Funct, OpCode,
    Word,
};
use crate::storage::{lemma_stored_wf, Image, Storage};
use crate::processor::ExitCode;
use crate::register::{file_wf, put, signed, wrap, RegisterFile};
use vstd::prelude::*;

verus! {

/// What an instruction means for the flow of control.
#[derive(PartialEq, Eq, Debug, Clone, Copy)]
pub enum TickResult {
    /// Go on with the instruction that follows.
    Next,
    /// Go on at the given byte offset of the instruction stream.
    Jump(u32),
    /// Stop for the given reason.
    Stop(ExitCode),
}

/// What one instruction asks for, given the registers and the program
/// counter: the part of its meaning that does not depend on the storage.
#[derive(PartialEq, Eq, Debug, Clone, Copy)]
pub enum Effect {
    /// Put `value` into the register at position `rd`, then go on.
    Put { rd: usize, value: u32 },
    /// Read `size` bytes at `address` into the register at position `rd`,
    /// extending the sign if `sign_extend`, then go on.
    Load { rd: usize, address: u32, size: u32, sign_extend: bool },
    /// Store the `size` low-order bytes of `value` at `address`, then go on.
    Store { address: u32, size: u32, value: u32 },
    /// Change nothing but the flow of control.
    Flow { result: TickResult },
}

impl Effect {
    /// Whether the register that the effect names is one of the register
    /// file.
    pub open spec fn in_file(self) -> bool {
        match self {
            Effect::Put { rd, .. } => rd < 32,
            Effect::Load { rd, .. } => rd < 32,
            _ => true,
        }
    }
}

/// The size of a 32-bit pattern read as a signed number.
pub open spec fn magnitude(bits: u32) -> nat {
    if bits < 0x8000_0000 {
        bits as nat
    } else {
        (0x1_0000_0000 - bits) as nat
    }
}

/// The quotient of the signed readings, rounded toward zero.
pub open spec fn div_signed(a: u32, b: u32) -> u32
    recommends
        b != 0,
{
    let q = (magnitude(a) / magnitude(b)) as int;
    if (a >= 0x8000_0000) != (b >= 0x8000_0000) {
        wrap(-q)
    } else {
        wrap(q)
    }
}

/// The remainder of the signed readings under division rounded toward zero:
/// it has the sign of the dividend.
pub open spec fn rem_signed(a: u32, b: u32) -> u32
    recommends
        b != 0,
{
    let r = (magnitude(a) % magnitude(b)) as int;
    if a >= 0x8000_0000 {
        wrap(-r)
    } else {
        wrap(r)
    }
}

/// A right shift that fills with the sign bit.
pub open spec fn shift_right_signed(a: u32, amount: u32) -> u32
    recommends
        amount < 32,
{
    if a >= 0x8000_0000 {
        (a >> amount) | !(0xffff_ffffu32 >> amount)
    } else {
        a >> amount
    }
}

/// The result of a register-form operation on two operands, or `None` for a
/// division by zero.
pub open spec fn alu_value(funct: Funct, a: u32, b: u32) -> Option<u32> {
    match funct {
        Funct::ADD => Some(wrap(a + b)),
        Funct::SUB => Some(wrap(a - b)),
        Funct::MUL => Some(wrap(a * b)),
        Funct::DIV => if b == 0 {
            None
        } else {
            Some(div_signed(a, b))
        },
        Funct::DIVU => if b == 0 {
            None
        } else {
            Some(a / b)
        },
        Funct::REM => if b == 0 {
            None
        } else {
            Some(rem_signed(a, b))
        },
        Funct::REMU => if b == 0 {
            None
        } else {
            Some(a % b)
        },
        Funct::AND => Some(a & b),
        Funct::OR => Some(a | b),
        Funct::XOR => Some(a ^ b),
        Funct::SLL => Some(a << (b & 31)),
        Funct::SRL => Some(a >> (b & 31)),
        Funct::SRA => Some(shift_right_signed(a, b & 31)),
        Funct::SLT => Some(
            if signed(a) < signed(b) {
                1u32
            } else {
                0u32
            },
        ),
        Funct::SLTU => Some(
            if a < b {
                1u32
            } else {
                0u32
            },
        ),
    }
}

/// What an instruction in the immediate or jump form asks for. `a` is the
/// first source register, `d` the destination register read as a source.
pub open spec fn op_effect(opcode: OpCode, word: u32, rd: usize, d: u32, a: u32, pc: u32) -> Effect
    recommends
        opcode != OpCode::ALU,
{
    let imm = imm_field(word);
    match opcode {
        OpCode::ALU => Effect::Flow { result: TickResult::Stop(ExitCode::InvalidOpcode) },
        OpCode::HALT => Effect::Flow { result: TickResult::Stop(ExitCode::Halted) },
        OpCode::LI => Effect::Put { rd, value: imm },
        OpCode::LHI => Effect::Put { rd, value: (word & 0xffff) << 16 },
        OpCode::ADDI => Effect::Put { rd, value: wrap(a + imm) },
        OpCode::ANDI => Effect::Put { rd, value: a & imm },
        OpCode::ORI => Effect::Put { rd, value: a | imm },
        OpCode::XORI => Effect::Put { rd, value: a ^ imm },
        OpCode::FLIP => Effect::Put { rd, value: !a },
        OpCode::SLLI => Effect::Put { rd, value: a << (imm & 31) },
        OpCode::SRLI => Effect::Put { rd, value: a >> (imm & 31) },
        OpCode::SRAI => Effect::Put { rd, value: shift_right_signed(a, imm & 31) },
        OpCode::SLTI => Effect::Put {
            rd,
            value: if signed(a) < signed(imm) {
                1u32
            } else {
                0u32
            },
        },
        OpCode::SLTUI => Effect::Put {
            rd,
            value: if a < imm {
                1u32
            } else {
                0u32
            },
        },
        OpCode::LB => Effect::Load { rd, address: wrap(a + imm), size: 1, sign_extend: true },
        OpCode::LBU => Effect::Load { rd, address: wrap(a + imm), size: 1, sign_extend: false },
        OpCode::LH => Effect::Load { rd, address: wrap(a + imm), size: 2, sign_extend: true },
        OpCode::LHU => Effect::Load { rd, address: wrap(a + imm), size: 2, sign_extend: false },
        OpCode::LW => Effect::Load { rd, address: wrap(a + imm), size: 4, sign_extend: false },
        OpCode::SB => Effect::Store { address: wrap(a + imm), size: 1, value: d },
        OpCode::SH => Effect::Store { address: wrap(a + imm), size: 2, value: d },
        OpCode::SW => Effect::Store { address: wrap(a + imm), size: 4, value: d },
        OpCode::BEZ => Effect::Flow {
            result: if a == 0 {
                TickResult::Jump(wrap(pc + imm))
            } else {
                TickResult::Next
            },
        },
        OpCode::BNZ => Effect::Flow {
            result: if a != 0 {
                TickResult::Jump(wrap(pc + imm))
            } else {
                TickResult::Next
            },
        },
        OpCode::JR => Effect::Flow { result: TickResult::Jump(wrap(a + imm)) },
        OpCode::JMP => Effect::Flow { result: TickResult::Jump(wrap(pc + jump_field(word))) },
        OpCode::JABS => Effect::Flow { result: TickResult::Jump(jump_field(word)) },
    }
}

/// What the instruction `word` asks for when the registers hold `registers`
/// and the program counter is `pc`.
pub open spec fn effect_of(registers: Seq<u32>, word: u32, pc: u32) -> Effect {
    let rd = rd_field(word) as usize;
    let a = registers[rs1_field(word) as int];
    match op_of(op_field(word)) {
        None => Effect::Flow { result: TickResult::Stop(ExitCode::InvalidOpcode) },
        Some(OpCode::ALU) => match funct_of(funct_field(word)) {
            None => Effect::Flow { result: TickResult::Stop(ExitCode::InvalidOpcode) },
            Some(funct) => match alu_value(funct, a, registers[rs2_field(word) as int]) {
                None => Effect::Flow { result: TickResult::Stop(ExitCode::DivisionByZero) },
                Some(value) => Effect::Put { rd, value },
            },
        },
        Some(opcode) => op_effect(opcode, word, rd, registers[rd as int], a, pc),
    }
}

/// A value that was read from `size` bytes, with its sign extended to a word
/// if `sign_extend`.
pub open spec fn extended(value: u32, size: u32, sign_extend: bool) -> u32 {
    if sign_extend && size == 1 && value >= 0x80 {
        value | 0xffff_ff00
    } else if sign_extend && size == 2 && value >= 0x8000 {
        value | 0xffff_0000
    } else {
        value
    }
}

/// Whether executing an instruction with the effect `effect` can lead from
/// the registers `registers` and the storage `memory` to `registers_after`
/// and `memory_after` with the result `result`.
///
/// On a direct storage exactly one outcome is possible. A storage that is
/// not direct may suppress a store and report success.
pub open spec fn outcome(
    effect: Effect,
    registers: Seq<u32>,
    memory: Image,
    registers_after: Seq<u32>,
    memory_after: Image,
    result: TickResult,
) -> bool {
    match effect {
        Effect::Put { rd, value } => {
            &&& registers_after == put(registers, rd as int, value)
            &&& memory_after == memory
            &&& result == TickResult::Next
        },
        Effect::Load { rd, address, size, sign_extend } => {
            &&& memory_after == memory
            &&& match memory.read(address, size) {
                Ok(value) => {
                    &&& registers_after == put(
                        registers,
                        rd as int,
                        extended(value, size, sign_extend),
                    )
                    &&& result == TickResult::Next
                },
                Err(_) => {
                    &&& registers_after == registers
                    &&& result == TickResult::Stop(ExitCode::BadMemoryAccess)
                },
            }
        },
        Effect::Store { address, size, value } => {
            &&& registers_after == registers
            &&& memory.written(address, size, value, memory_after, result == TickResult::Next)
            &&& result != TickResult::Next ==> result == TickResult::Stop(
                ExitCode::BadMemoryAccess,
            )
        },
        Effect::Flow { result: flow } => {
            &&& registers_after == registers
            &&& memory_after == memory
            &&& result == flow
        },
    }
}

/// The one outcome of an effect on a direct storage: the registers, the
/// storage and the result after it.
pub open spec fn direct_outcome(effect: Effect, registers: Seq<u32>, memory: Image) -> (
    Seq<u32>,
    Image,
    TickResult,
) {
    match effect {
        Effect::Put { rd, value } => (put(registers, rd as int, value), memory, TickResult::Next),
        Effect::Load { rd, address, size, sign_extend } => match memory.read(address, size) {
            Ok(value) => (
                put(registers, rd as int, extended(value, size, sign_extend)),
                memory,
                TickResult::Next,
            ),
            Err(_) => (registers, memory, TickResult::Stop(ExitCode::BadMemoryAccess)),
        },
        Effect::Store { address, size, value } => if memory.reaches(address, size) {
            (registers, memory.stored(address, size, value), TickResult::Next)
        } else {
            (registers, memory, TickResult::Stop(ExitCode::BadMemoryAccess))
        },
        Effect::Flow { result } => (registers, memory, result),
    }
}

/// On a direct storage an effect has exactly one outcome.
pub proof fn lemma_direct_outcome(
    effect: Effect,
    registers: Seq<u32>,
    memory: Image,
    registers_after: Seq<u32>,
    memory_after: Image,
    result: TickResult,
)
    requires
        memory.direct,
    ensures
        outcome(effect, registers, memory, registers_after, memory_after, result) <==> (
        registers_after,
        memory_after,
        result,
        ) == direct_outcome(effect, registers, memory),
{
}

/// Addition wraps around at 32 bits: the sum of two patterns is their sum as
/// numbers, less 2 to the power 32 where that does not fit.
pub proof fn lemma_add_wraps(a: u32, b: u32)
    ensures
        alu_value(Funct::ADD, a, b) == Some(
            if a + b <= u32::MAX {
                (a + b) as u32
            } else {
                (a + b - 0x1_0000_0000) as u32
            },
        ),
        alu_value(Funct::ADD, a, b) matches Some(sum) && sum == wrap(signed(a) + signed(b)),
{
}

/// A shift uses only the low five bits of its amount: two amounts that agree
/// in them shift alike, be they in a register or in an immediate.
pub proof fn lemma_shift_uses_low_bits(a: u32, amount: u32, other: u32, word: u32, rd: usize, pc: u32)
    requires
        amount & 31 == other & 31,
    ensures
        alu_value(Funct::SLL, a, amount) == alu_value(Funct::SLL, a, other),
        alu_value(Funct::SRL, a, amount) == alu_value(Funct::SRL, a, other),
        alu_value(Funct::SRA, a, amount) == alu_value(Funct::SRA, a, other),
        imm_field(word) == amount ==> op_effect(OpCode::SLLI, word, rd, 0, a, pc) == (Effect::Put {
            rd,
            value: a << (other & 31),
        }),
        imm_field(word) == amount ==> op_effect(OpCode::SRLI, word, rd, 0, a, pc) == (Effect::Put {
            rd,
            value: a >> (other & 31),
        }),
        imm_field(word) == amount ==> op_effect(OpCode::SRAI, word, rd, 0, a, pc) == (Effect::Put {
            rd,
            value: shift_right_signed(a, other & 31),
        }),
{
}

/// The amount -6 shifts as the amount 26 does.
pub proof fn lemma_shift_by_minus_six()
    ensures
        wrap(-6) & 31 == 26u32 & 31,
        wrap(-6) & 31 == 26,
{
    assert(wrap(-6) == 0xffff_fffa);
    assert(0xffff_fffau32 & 31 == 26 && 26u32 & 31 == 26) by (bit_vector);
}

/// A load or store reaches the address of the base register plus the signed
/// offset, wrapped to 32 bits. A store hands on the whole register; the
/// storage takes the low-order bytes of the width.
pub proof fn lemma_access_address(opcode: OpCode, word: u32, rd: usize, d: u32, a: u32, pc: u32)
    ensures
        wrap(a + imm_field(word)) == wrap(a + signed(imm_field(word))),
        0 <= a + signed(imm_field(word)) <= u32::MAX ==> wrap(a + imm_field(word)) == a + signed(
            imm_field(word),
        ),
        opcode == OpCode::SB ==> op_effect(opcode, word, rd, d, a, pc) == (Effect::Store {
            address: wrap(a + signed(imm_field(word))),
            size: 1,
            value: d,
        }),
        opcode == OpCode::SH ==> op_effect(opcode, word, rd, d, a, pc) == (Effect::Store {
            address: wrap(a + signed(imm_field(word))),
            size: 2,
            value: d,
        }),
        opcode == OpCode::SW ==> op_effect(opcode, word, rd, d, a, pc) == (Effect::Store {
            address: wrap(a + signed(imm_field(word))),
            size: 4,
            value: d,
        }),
        opcode == OpCode::LW ==> op_effect(opcode, word, rd, d, a, pc) == (Effect::Load {
            rd,
            address: wrap(a + signed(imm_field(word))),
            size: 4,
            sign_extend: false,
        }),
{
}

/// Signed division rounds toward zero: the dividend is the quotient times
/// the divisor plus the remainder, the remainder is smaller in size than the
/// divisor, and a remainder other than zero has the sign of the dividend.
///
/// The one quotient that does not fit, that of the smallest number by -1,
/// wraps around to the smallest number, with the remainder zero.
pub proof fn lemma_division_rounds_toward_zero(a: u32, b: u32)
    requires
        b != 0,
    ensures
        !(a == 0x8000_0000 && b == 0xffff_ffff) ==> signed(a) == signed(div_signed(a, b)) * signed(
            b,
        ) + signed(rem_signed(a, b)),
        a == 0x8000_0000 && b == 0xffff_ffff ==> div_signed(a, b) == 0x8000_0000 && rem_signed(a, b)
            == 0,
        magnitude(rem_signed(a, b)) < magnitude(b),
        signed(rem_signed(a, b)) != 0 ==> (signed(rem_signed(a, b)) < 0) == (signed(a) < 0),
{
    let ma = magnitude(a) as int;
    let mb = magnitude(b) as int;
    let q = ma / mb;
    let r = ma % mb;
    vstd::arithmetic::div_mod::lemma_fundamental_div_mod(ma, mb);
    vstd::arithmetic::div_mod::lemma_mod_pos_bound(ma, mb);
    vstd::arithmetic::div_mod::lemma_div_pos_is_pos(ma, mb);
    assert(q <= ma) by (nonlinear_arith)
        requires
            ma == mb * q + r,
            0 <= r,
            1 <= mb,
            0 <= q,
    ;
    assert(mb * (-q) == -(mb * q)) by (nonlinear_arith);
    assert((-mb) * q == -(mb * q)) by (nonlinear_arith);
    assert((-mb) * (-q) == mb * q) by (nonlinear_arith);
    assert(q * mb == mb * q) by (nonlinear_arith);
    assert((-q) * mb == -(mb * q)) by (nonlinear_arith);
    assert(q * (-mb) == -(mb * q)) by (nonlinear_arith);
    assert((-q) * (-mb) == mb * q) by (nonlinear_arith);
    let a_negative = a >= 0x8000_0000;
    let b_negative = b >= 0x8000_0000;
    assert(signed(a) == if a_negative {
        -ma
    } else {
        ma
    });
    assert(signed(b) == if b_negative {
        -mb
    } else {
        mb
    });
    assert(signed(rem_signed(a, b)) == if a_negative {
        -r
    } else {
        r
    });
    if a == 0x8000_0000 && b == 0xffff_ffff {
        assert(mb == 1);
        assert(q == ma && r == 0) by (nonlinear_arith)
            requires
                ma == mb * q + r,
                mb == 1,
                0 <= r < mb,
        ;
    } else {
        assert(q < 0x8000_0000 || a_negative != b_negative) by {
            if q >= 0x8000_0000 {
                assert(mb == 1) by (nonlinear_arith)
                    requires
                        ma == mb * q + r,
                        q >= 0x8000_0000,
                        ma <= 0x8000_0000,
                        0 <= r,
                        1 <= mb,
                ;
            }
        }
        assert(signed(div_signed(a, b)) == if a_negative != b_negative {
            -q
        } else {
            q
        });
    }
}

/// A division or a remainder by zero stops with `DivisionByZero`, whatever
/// the dividend, and changes no register.
pub proof fn lemma_division_by_zero(registers: Seq<u32>, word: u32, pc: u32, funct: Funct)
    requires
        op_of(op_field(word)) == Some(OpCode::ALU),
        funct_of(funct_field(word)) == Some(funct),
        funct == Funct::DIV || funct == Funct::DIVU || funct == Funct::REM || funct == Funct::REMU,
        registers[rs2_field(word) as int] == 0,
    ensures
        effect_of(registers, word, pc) == (Effect::Flow {
            result: TickResult::Stop(ExitCode::DivisionByZero),
        }),
        forall|memory: Image, registers_after: Seq<u32>, memory_after: Image, result: TickResult|
            #[trigger] outcome(
                effect_of(registers, word, pc),
                registers,
                memory,
                registers_after,
                memory_after,
                result,
            ) ==> result == TickResult::Stop(ExitCode::DivisionByZero) && registers_after
                == registers && memory_after == memory,
{
}

/// An operation code or a function code that stands for no operation stops
/// with `InvalidOpcode`.
pub proof fn lemma_invalid_opcode(registers: Seq<u32>, word: u32, pc: u32)
    requires
        op_of(op_field(word)) is None || (op_of(op_field(word)) == Some(OpCode::ALU) && funct_of(
            funct_field(word),
        ) is None),
    ensures
        effect_of(registers, word, pc) == (Effect::Flow {
            result: TickResult::Stop(ExitCode::InvalidOpcode),
        }),
{
}

/// No instruction changes the zero register: whatever an instruction does to
/// a register file whose zero register holds zero, it holds zero after it.
pub proof fn lemma_zero_register_stays(
    registers: Seq<u32>,
    word: u32,
    pc: u32,
    memory: Image,
    registers_after: Seq<u32>,
    memory_after: Image,
    result: TickResult,
)
    requires
        file_wf(registers),
        outcome(
            effect_of(registers, word, pc),
            registers,
            memory,
            registers_after,
            memory_after,
            result,
        ),
    ensures
        file_wf(registers_after),
        registers_after[0] == 0,
{
    lemma_effect_in_file(registers, word, pc);
    let effect = effect_of(registers, word, pc);
    match effect {
        Effect::Put { rd, value } => {
            assert(registers_after == put(registers, rd as int, value));
        },
        Effect::Load { rd, address, size, sign_extend } => {},
        _ => {},
    }
}

/// The register that an instruction names is one of the register file.
pub proof fn lemma_effect_in_file(registers: Seq<u32>, word: u32, pc: u32)
    ensures
        effect_of(registers, word, pc).in_file(),
{
    assert((word >> 21) & 0x1f < 32) by (bit_vector);
}

/// Cuts a shift amount to its low five bits.
pub fn shift_amount(amount: u32) -> (cut: u32)
    ensures
        cut == amount & 31,
        cut < 32,
{
    assert(amount & 31 < 32) by (bit_vector);
    amount & 31
}

/// Shifts right, filling with the sign bit.
pub fn sra(a: u32, amount: u32) -> (value: u32)
    requires
        amount < 32,
    ensures
        value == shift_right_signed(a, amount),
{
    if a >= 0x8000_0000 {
        (a >> amount) | !(0xffff_ffffu32 >> amount)
    } else {
        a >> amount
    }
}

/// Compares two patterns as signed numbers.
pub fn less_signed(a: u32, b: u32) -> (less: bool)
    ensures
        less == (signed(a) < signed(b)),
{
    let a_negative = a >= 0x8000_0000;
    let b_negative = b >= 0x8000_0000;
    if a_negative != b_negative {
        a_negative
    } else {
        a < b
    }
}

/// Computes the size of a pattern read as a signed number.
fn magnitude_of(bits: u32) -> (m: u32)
    ensures
        m == magnitude(bits),
{
    if bits < 0x8000_0000 {
        bits
    } else {
        0u32.wrapping_sub(bits)
    }
}

/// Computes a register-form operation, or `None` for a division by zero.
pub fn alu(funct: Funct, a: u32, b: u32) -> (value: Option<u32>)
    ensures
        value == alu_value(funct, a, b),
{
    match funct {
        Funct::ADD => Some(a.wrapping_add(b)),
        Funct::SUB => Some(a.wrapping_sub(b)),
        Funct::MUL => Some(a.wrapping_mul(b)),
        Funct::DIV => {
            if b == 0 {
                None
            } else {
                let q = magnitude_of(a) / magnitude_of(b);
                if (a >= 0x8000_0000) != (b >= 0x8000_0000) {
                    Some(0u32.wrapping_sub(q))
                } else {
                    Some(q)
                }
            }
        },
        Funct::DIVU => {
            if b == 0 {
                None
            } else {
                Some(a / b)
            }
        },
        Funct::REM => {
            if b == 0 {
                None
            } else {
                let r = magnitude_of(a) % magnitude_of(b);
                if a >= 0x8000_0000 {
                    Some(0u32.wrapping_sub(r))
                } else {
                    Some(r)
                }
            }
        },
        Funct::REMU => {
            if b == 0 {
                None
            } else {
                Some(a % b)
            }
        },
        Funct::AND => Some(a & b),
        Funct::OR => Some(a | b),
        Funct::XOR => Some(a ^ b),
        Funct::SLL => Some(a << shift_amount(b)),
        Funct::SRL => Some(a >> shift_amount(b)),
        Funct::SRA => Some(sra(a, shift_amount(b))),
        Funct::SLT => Some(
            if less_signed(a, b) {
                1
            } else {
                0
            },
        ),
        Funct::SLTU => Some(
            if a < b {
                1
            } else {
                0
            },
        ),
    }
}

/// Extends the sign of a value that was read from `size` bytes.
pub fn extend(value: u32, size: u32, sign_extend: bool) -> (word: u32)
    ensures
        word == extended(value, size, sign_extend),
{
    if sign_extend && size == 1 && value >= 0x80 {
        value | 0xffff_ff00
    } else if sign_extend && size == 2 && value >= 0x8000 {
        value | 0xffff_0000
    } else {
        value
    }
}

/// Decodes the instruction `word`: what it asks for when the program counter
/// is `pc`.
pub fn decode(registers: &RegisterFile, word: Word, pc: u32) -> (effect: Effect)
    ensures
        effect == effect_of(registers@, word, pc),
        effect.in_file(),
{
    let rd = rd_bits(word);
    let a = registers.read(rs1_bits(word));
    let d = registers.read(rd);
    let imm = imm_bits(word);
    let opcode = match OpCode::from_code(op_bits(word)) {
        Some(opcode) => opcode,
        None => {
            return Effect::Flow { result: TickResult::Stop(ExitCode::InvalidOpcode) };
        },
    };
    match opcode {
        OpCode::ALU => {
            let funct = match Funct::from_code(funct_bits(word)) {
                Some(funct) => funct,
                None => {
                    return Effect::Flow { result: TickResult::Stop(ExitCode::InvalidOpcode) };
                },
            };
            match alu(funct, a, registers.read(rs2_bits(word))) {
                Some(value) => Effect::Put { rd, value },
                None => Effect::Flow { result: TickResult::Stop(ExitCode::DivisionByZero) },
            }
        },
        OpCode::HALT => Effect::Flow { result: TickResult::Stop(ExitCode::Halted) },
        OpCode::LI => Effect::Put { rd, value: imm },
        OpCode::LHI => Effect::Put { rd, value: (word & 0xffff) << 16 },
        OpCode::ADDI => Effect::Put { rd, value: a.wrapping_add(imm) },
        OpCode::ANDI => Effect::Put { rd, value: a & imm },
        OpCode::ORI => Effect::Put { rd, value: a | imm },
        OpCode::XORI => Effect::Put { rd, value: a ^ imm },
        OpCode::FLIP => Effect::Put { rd, value: !a },
        OpCode::SLLI => Effect::Put { rd, value: a << shift_amount(imm) },
        OpCode::SRLI => Effect::Put { rd, value: a >> shift_amount(imm) },
        OpCode::SRAI => Effect::Put { rd, value: sra(a, shift_amount(imm)) },
        OpCode::SLTI => Effect::Put {
            rd,
            value: if less_signed(a, imm) {
                1
            } else {
                0
            },
        },
        OpCode::SLTUI => Effect::Put {
            rd,
            value: if a < imm {
                1
            } else {
                0
            },
        },
        OpCode::LB => Effect::Load { rd, address: a.wrapping_add(imm), size: 1, sign_extend: true },
        OpCode::LBU => Effect::Load {
            rd,
            address: a.wrapping_add(imm),
            size: 1,
            sign_extend: false,
        },
        OpCode::LH => Effect::Load { rd, address: a.wrapping_add(imm), size: 2, sign_extend: true },
        OpCode::LHU => Effect::Load {
            rd,
            address: a.wrapping_add(imm),
            size: 2,
            sign_extend: false,
        },
        OpCode::LW => Effect::Load {
            rd,
            address: a.wrapping_add(imm),
            size: 4,
            sign_extend: false,
        },
        OpCode::SB => Effect::Store { address: a.wrapping_add(imm), size: 1, value: d },
        OpCode::SH => Effect::Store { address: a.wrapping_add(imm), size: 2, value: d },
        OpCode::SW => Effect::Store { address: a.wrapping_add(imm), size: 4, value: d },
        OpCode::BEZ => Effect::Flow {
            result: if a == 0 {
                TickResult::Jump(pc.wrapping_add(imm))
            } else {
                TickResult::Next
            },
        },
        OpCode::BNZ => Effect::Flow {
            result: if a != 0 {
                TickResult::Jump(pc.wrapping_add(imm))
            } else {
                TickResult::Next
            },
        },
        OpCode::JR => Effect::Flow { result: TickResult::Jump(a.wrapping_add(imm)) },
        OpCode::JMP => Effect::Flow { result: TickResult::Jump(pc.wrapping_add(jump_bits(word))) },
        OpCode::JABS => Effect::Flow { result: TickResult::Jump(jump_bits(word)) },
    }
}

/// Executes the instruction `word`: decodes it, carries out what it asks of
/// the registers and the storage, and says how control goes on.
pub fn tick<S: Storage + ?Sized>(
    registers: &mut RegisterFile,
    storage: &mut S,
    word: Word,
    pc: u32,
) -> (result:
    TickResult)
    requires
        old(storage).inv(),
        old(storage).image().wf(),
    ensures
        final(storage).inv(),
        final(storage).image().wf(),
        outcome(
            effect_of(old(registers)@, word, pc),
            old(registers)@,
            old(storage).image(),
            final(registers)@,
            final(storage).image(),
            result,
        ),
{
    match decode(registers, word, pc) {
        Effect::Put { rd, value } => {
            registers.write(rd, value);
            TickResult::Next
        },
        Effect::Load { rd, address, size, sign_extend } => {
            match storage.read(address, size) {
                Ok(value) => {
                    registers.write(rd, extend(value, size, sign_extend));
                    TickResult::Next
                },
                Err(_) => TickResult::Stop(ExitCode::BadMemoryAccess),
            }
        },
        Effect::Store { address, size, value } => {
            proof {
                lemma_stored_wf(storage.image(), address, size, value);
            }
            match storage.write(address, size, value) {
                Ok(_) => TickResult::Next,
                Err(_) => TickResult::Stop(ExitCode::BadMemoryAccess),
            }
        },
        Effect::Flow { result } => result,
    }
}

} // verus!
