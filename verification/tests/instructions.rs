use vcpu::instruction::{funct_bits, imm_bits, jump_bits, op_bits, rd_bits, rs1_bits, rs2_bits};
use vcpu::processor::logic::{tick, TickResult};
use vcpu::{instr_alu, instr_i, ExitCode, Funct, OpCode, Register, RegisterFile, RegisterId};

fn i(value: i32) -> Register {
    Register::from_i(value)
}

fn u(value: u32) -> Register {
    Register::from_u(value)
}

fn instruction_runs(
    instruction: u32,
    before: &[(RegisterId, Register)],
    after: &[(RegisterId, Register)],
) {
    let mut registers = RegisterFile::new();
    for (id, value) in before {
        registers.set(*id, *value);
    }
    let mut storage: Vec<u8> = Vec::new();
    let result = tick(&mut registers, &mut storage, instruction, 0);
    assert_eq!(result, TickResult::Next);
    for (id, value) in after {
        assert_eq!(registers.get(*id), *value);
    }
}

fn alu_gives(funct: Funct, a: u32, b: u32) -> u32 {
    let mut registers = RegisterFile::new();
    registers.set(RegisterId::T1, u(a));
    registers.set(RegisterId::T2, u(b));
    let mut storage: Vec<u8> = Vec::new();
    let word = instr_alu(funct, RegisterId::T0, RegisterId::T1, RegisterId::T2);
    assert_eq!(tick(&mut registers, &mut storage, word, 0), TickResult::Next);
    registers.get(RegisterId::T0).u()
}

fn immediate_gives(opcode: OpCode, a: u32, immediate: i16) -> u32 {
    let mut registers = RegisterFile::new();
    registers.set(RegisterId::T1, u(a));
    let mut storage: Vec<u8> = Vec::new();
    let word = instr_i(opcode, RegisterId::T0, RegisterId::T1, immediate);
    assert_eq!(tick(&mut registers, &mut storage, word, 0), TickResult::Next);
    registers.get(RegisterId::T0).u()
}

#[test]
fn positive() {
    instruction_runs(
        instr_alu(Funct::ADD, RegisterId::T0, RegisterId::T1, RegisterId::T2),
        &[(RegisterId::T1, i(5678)), (RegisterId::T2, i(1234))],
        &[(RegisterId::T0, i(6912))],
    );
}

#[test]
fn negative_rs2() {
    instruction_runs(
        instr_alu(Funct::ADD, RegisterId::T0, RegisterId::T1, RegisterId::T2),
        &[(RegisterId::T1, i(5678)), (RegisterId::T2, i(-1234))],
        &[(RegisterId::T0, i(4444))],
    );
}

#[test]
fn negative_rs1() {
    instruction_runs(
        instr_alu(Funct::ADD, RegisterId::T0, RegisterId::T1, RegisterId::T2),
        &[(RegisterId::T1, i(-5678)), (RegisterId::T2, i(1234))],
        &[(RegisterId::T0, i(-4444))],
    );
}

#[test]
fn overflow() {
    instruction_runs(
        instr_alu(Funct::ADD, RegisterId::T0, RegisterId::T1, RegisterId::T2),
        &[(RegisterId::T1, u(0xFFFF_FFFFu32)), (RegisterId::T2, i(1234))],
        &[(RegisterId::T0, i(1233))],
    );
}

#[test]
fn positive_amount() {
    instruction_runs(
        instr_i(OpCode::SLLI, RegisterId::T0, RegisterId::T1, 13),
        &[(RegisterId::T1, u(0b0101_0011_0010_0011_1111_0100_0110_1011_u32))],
        &[(RegisterId::T0, u(0b0111_1110_1000_1101_0110_0000_0000_0000_u32))],
    );
}

#[test]
fn negative_amount() {
    instruction_runs(
        instr_i(OpCode::SLLI, RegisterId::T0, RegisterId::T1, -6),
        &[(RegisterId::T1, u(0b0101_0011_0010_0011_1111_0100_0110_1011_u32))],
        &[(RegisterId::T0, u(0b1010_1100_0000_0000_0000_0000_0000_0000_u32))],
    );
}

#[test]
fn works() {
    instruction_runs(
        instr_alu(Funct::XOR, RegisterId::T0, RegisterId::T1, RegisterId::T2),
        &[
            (RegisterId::T1, u(0b0101_0011_0010_0011_1111_0100_0110_1011_u32)),
            (RegisterId::T2, u(0b1110_1111_1001_0101_0111_1101_1010_0111_u32)),
        ],
        &[(RegisterId::T0, u(0b1011_1100_1011_0110_1000_1001_1100_1100_u32))],
    );
}

#[test]
fn shift_by_minus_six_is_shift_by_twenty_six() {
    let a = 0b0101_0011_0010_0011_1111_0100_0110_1011_u32;
    for opcode in [OpCode::SLLI, OpCode::SRLI, OpCode::SRAI] {
        assert_eq!(immediate_gives(opcode, a, -6), immediate_gives(opcode, a, 26));
    }
    for funct in [Funct::SLL, Funct::SRL, Funct::SRA] {
        assert_eq!(alu_gives(funct, a, (-6i32) as u32), alu_gives(funct, a, 26));
    }
}

#[test]
fn register_form_arithmetic() {
    assert_eq!(alu_gives(Funct::SUB, 5, 7), 0xffff_fffe);
    assert_eq!(alu_gives(Funct::MUL, 0x1_0001, 0x1_0001), 0x2_0001);
    assert_eq!(alu_gives(Funct::DIVU, 0xffff_fffe, 2), 0x7fff_ffff);
    assert_eq!(alu_gives(Funct::REMU, 0xffff_ffff, 16), 15);
    assert_eq!(alu_gives(Funct::AND, 0b1100, 0b1010), 0b1000);
    assert_eq!(alu_gives(Funct::OR, 0b1100, 0b1010), 0b1110);
    assert_eq!(alu_gives(Funct::SLL, 1, 31), 0x8000_0000);
    assert_eq!(alu_gives(Funct::SRL, 0x8000_0000, 31), 1);
    assert_eq!(alu_gives(Funct::SRA, 0x8000_0000, 31), 0xffff_ffff);
    assert_eq!(alu_gives(Funct::SRA, 0x4000_0000, 30), 1);
    assert_eq!(alu_gives(Funct::SRA, 0xffff_fff0, 0), 0xffff_fff0);
    assert_eq!(alu_gives(Funct::SLT, (-1i32) as u32, 1), 1);
    assert_eq!(alu_gives(Funct::SLT, 1, (-1i32) as u32), 0);
    assert_eq!(alu_gives(Funct::SLTU, (-1i32) as u32, 1), 0);
    assert_eq!(alu_gives(Funct::SLTU, 1, (-1i32) as u32), 1);
}

#[test]
fn signed_division_rounds_toward_zero() {
    let cases: [(i32, i32); 7] =
        [(7, 2), (-7, 2), (7, -2), (-7, -2), (i32::MIN, -1), (i32::MIN, 1), (0, -5)];
    for (a, b) in cases {
        assert_eq!(alu_gives(Funct::DIV, a as u32, b as u32), a.wrapping_div(b) as u32);
        assert_eq!(alu_gives(Funct::REM, a as u32, b as u32), a.wrapping_rem(b) as u32);
    }
    assert_eq!(alu_gives(Funct::DIV, (-7i32) as u32, 2) as i32, -3);
    assert_eq!(alu_gives(Funct::REM, (-7i32) as u32, 2) as i32, -1);
}

#[test]
fn immediate_form_arithmetic() {
    assert_eq!(immediate_gives(OpCode::LI, 99, -1), 0xffff_ffff);
    assert_eq!(immediate_gives(OpCode::LHI, 99, 0x1234), 0x1234_0000);
    assert_eq!(immediate_gives(OpCode::ADDI, 16, -4), 12);
    assert_eq!(immediate_gives(OpCode::ANDI, 0xffff_ffff, 0x0ff0), 0x0ff0);
    assert_eq!(immediate_gives(OpCode::ANDI, 0xffff_ffff, -16), 0xffff_fff0);
    assert_eq!(immediate_gives(OpCode::ORI, 0xf000_0000, 0x000f), 0xf000_000f);
    assert_eq!(immediate_gives(OpCode::XORI, 0xff, 0x0f), 0xf0);
    assert_eq!(immediate_gives(OpCode::FLIP, 0, 0), 0xffff_ffff);
    assert_eq!(immediate_gives(OpCode::SRLI, 0x8000_0000, 4), 0x0800_0000);
    assert_eq!(immediate_gives(OpCode::SRAI, 0x8000_0000, 4), 0xf800_0000);
    assert_eq!(immediate_gives(OpCode::SLTI, (-5i32) as u32, -4), 1);
    assert_eq!(immediate_gives(OpCode::SLTI, 5, -4), 0);
    assert_eq!(immediate_gives(OpCode::SLTUI, 5, -4), 1);
}

#[test]
fn division_by_zero_is_reported_by_the_instruction() {
    for funct in [Funct::DIV, Funct::DIVU, Funct::REM, Funct::REMU] {
        let mut registers = RegisterFile::new();
        registers.set(RegisterId::T1, i(-17));
        let mut storage: Vec<u8> = Vec::new();
        let word = instr_alu(funct, RegisterId::T0, RegisterId::T1, RegisterId::T2);
        assert_eq!(
            tick(&mut registers, &mut storage, word, 0),
            TickResult::Stop(ExitCode::DivisionByZero)
        );
        assert_eq!(registers.get(RegisterId::T0).u(), 0);
    }
}

#[test]
fn branches_are_relative_to_the_program_counter() {
    let mut registers = RegisterFile::new();
    let mut storage: Vec<u8> = Vec::new();
    let taken = instr_i(OpCode::BEZ, RegisterId::ZERO, RegisterId::T1, -8);
    assert_eq!(tick(&mut registers, &mut storage, taken, 20), TickResult::Jump(12));
    let not_taken = instr_i(OpCode::BNZ, RegisterId::ZERO, RegisterId::T1, -8);
    assert_eq!(tick(&mut registers, &mut storage, not_taken, 20), TickResult::Next);
    registers.set(RegisterId::T1, u(1));
    assert_eq!(tick(&mut registers, &mut storage, taken, 20), TickResult::Next);
    assert_eq!(tick(&mut registers, &mut storage, not_taken, 20), TickResult::Jump(12));
    let jump = vcpu::instr_j(OpCode::JMP, -20);
    assert_eq!(tick(&mut registers, &mut storage, jump, 20), TickResult::Jump(0));
    assert_eq!(tick(&mut registers, &mut storage, jump, 0), TickResult::Jump(0xffff_ffec));
}

#[test]
fn registers_read_signed_and_unsigned() {
    assert_eq!(Register::from_i(-1).u(), 0xffff_ffff);
    assert_eq!(Register::from_u(0x8000_0000).i(), i32::MIN);
    assert_eq!(Register::from_i(i32::MAX).u(), 0x7fff_ffff);
    assert_eq!(Register::default().u(), 0);
    let mut registers = RegisterFile::new();
    registers.set(RegisterId::ZERO, u(5));
    assert_eq!(registers.get(RegisterId::ZERO).u(), 0);
    registers.set(RegisterId::RA, u(5));
    assert_eq!(registers.get(RegisterId::RA).u(), 5);
    assert_eq!(vcpu::register_index(RegisterId::RA), 31);
    assert_eq!(vcpu::register_index(RegisterId::T0), 8);
}

#[test]
fn instruction_words_unpack_to_their_fields() {
    let word = instr_alu(Funct::SLTU, RegisterId::RA, RegisterId::T0, RegisterId::SP);
    assert_eq!(op_bits(word), OpCode::ALU.code());
    assert_eq!(Funct::from_code(funct_bits(word)), Some(Funct::SLTU));
    assert_eq!((rd_bits(word), rs1_bits(word), rs2_bits(word)), (31, 8, 29));
    let word = instr_i(OpCode::SW, RegisterId::T0, RegisterId::T1, -4);
    assert_eq!(OpCode::from_code(op_bits(word)), Some(OpCode::SW));
    assert_eq!((rd_bits(word), rs1_bits(word)), (8, 9));
    assert_eq!(imm_bits(word), 0xffff_fffc);
    let word = vcpu::instr_j(OpCode::JMP, -20);
    assert_eq!(OpCode::from_code(op_bits(word)), Some(OpCode::JMP));
    assert_eq!(jump_bits(word), 0xffff_ffec);
    assert_eq!(jump_bits(vcpu::instr_j(OpCode::JMP, 0x01ff_fffc)), 0x01ff_fffc);
    assert_eq!(OpCode::from_code(26), Some(OpCode::JABS));
    assert_eq!(OpCode::from_code(27), None);
    assert_eq!(Funct::from_code(15), None);
}
