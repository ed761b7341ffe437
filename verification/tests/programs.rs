use vcpu::constants;
use vcpu::{
    instr_alu, instr_i, instr_j, jmp_addr_i16, jmp_addr_i32, program_from_words, ExitCode, Funct,
    OpCode, Processor, RegisterId, Storage,
};

fn test_program_me(mem_size: u32, program: &[u8], expected_code: ExitCode) -> (Processor, Vec<u8>) {
    let mut processor = Processor::default();
    let mut memory = vec![0; mem_size as usize];

    let exit_code = processor.run(program, &mut memory);

    assert_eq!(exit_code, expected_code);

    (processor, memory)
}

fn test_program_e(program: &[u8], expected_code: ExitCode) -> (Processor, Vec<u8>) {
    test_program_me(1024, program, expected_code)
}

#[allow(dead_code)]
fn test_program_m(mem_size: u32, program: &[u8]) -> (Processor, Vec<u8>) {
    test_program_me(mem_size, program, ExitCode::Halted)
}

fn test_program(program: &[u8]) -> (Processor, Vec<u8>) {
    test_program_e(program, ExitCode::Halted)
}

#[test]
fn wrapping_arithmetic() {
    let i = -20;

    let a = 20u32;
    let b = i as u32;
    let c = a.wrapping_add(b);

    assert_eq!(c, 0u32);
}

#[test]
fn program_halt() {
    let program = program_from_words(&[instr_i(
        OpCode::HALT,
        RegisterId::ZERO,
        RegisterId::ZERO,
        0,
    )]);

    test_program(&program[..]);
}

#[test]
fn program_add() {
    let program = program_from_words(&[
        instr_i(OpCode::LI, RegisterId::T0, RegisterId::ZERO, 42),
        instr_i(OpCode::LI, RegisterId::T1, RegisterId::ZERO, 64),
        instr_alu(Funct::ADD, RegisterId::T2, RegisterId::T0, RegisterId::T1),
        instr_i(OpCode::HALT, RegisterId::ZERO, RegisterId::ZERO, 0),
    ]);

    let (processor, _) = test_program(&program[..]);

    assert_eq!(processor.register(RegisterId::T2).i(), 106);
}

#[test]
fn program_loop() {
    let iterations = 32i32;

    let program = program_from_words(&[
        instr_i(OpCode::SLTI, RegisterId::T2, RegisterId::T0, iterations as i16),
        instr_i(OpCode::BEZ, RegisterId::ZERO, RegisterId::T2, jmp_addr_i16(5)),
        instr_i(OpCode::SLLI, RegisterId::T1, RegisterId::T0, 2),
        instr_i(OpCode::SW, RegisterId::T0, RegisterId::T1, 0),
        instr_i(OpCode::ADDI, RegisterId::T0, RegisterId::T0, 1),
        instr_j(OpCode::JMP, jmp_addr_i32(-5)),
        instr_i(OpCode::HALT, RegisterId::ZERO, RegisterId::ZERO, 0),
    ]);

    let (_, storage) = test_program(&program[..]);

    for i in 0..iterations {
        let value = storage.read_word(i as u32 * constants::WORD_BYTES).unwrap() as i32;
        assert_eq!(value, i);
    }
}

#[test]
fn negative_immediate_value() {
    let program = program_from_words(&[
        instr_i(OpCode::LI, RegisterId::T0, RegisterId::ZERO, 16),
        instr_i(OpCode::ADDI, RegisterId::T0, RegisterId::T0, -4),
        instr_i(OpCode::HALT, RegisterId::ZERO, RegisterId::ZERO, 0),
    ]);

    let (processor, _) = test_program(&program[..]);

    assert_eq!(12i32, processor.register(RegisterId::T0).i());
}

#[test]
fn instruction_sw_negative_offset() {
    let program = program_from_words(&[
        instr_i(OpCode::LI, RegisterId::T0, RegisterId::ZERO, 23),
        instr_i(OpCode::LI, RegisterId::T1, RegisterId::ZERO, 16),
        instr_i(OpCode::SW, RegisterId::T0, RegisterId::T1, -4),
        instr_i(OpCode::HALT, RegisterId::ZERO, RegisterId::ZERO, 0),
    ]);

    let (_, storage) = test_program_me(64, &program[..], ExitCode::Halted);

    assert_eq!(23, storage.read_word(12).unwrap());
}

#[test]
fn truncation_in_store_instruction() {
    let program = program_from_words(&[
        instr_i(OpCode::FLIP, RegisterId::T0, RegisterId::T0, 0),
        instr_i(OpCode::SB, RegisterId::T0, RegisterId::ZERO, 0),
        instr_i(OpCode::HALT, RegisterId::ZERO, RegisterId::ZERO, 0),
    ]);

    let (processor, storage) = test_program(&program[..]);

    assert_eq!(0xFFFF_FFFF, processor.register(RegisterId::T0).u());
    assert_eq!(0xFF, storage[0]);
}

#[test]
fn halt_leaves_registers_untouched() {
    let program = program_from_words(&[instr_i(
        OpCode::HALT,
        RegisterId::ZERO,
        RegisterId::ZERO,
        0,
    )]);
    let (processor, storage) = test_program(&program[..]);
    for id in [RegisterId::ZERO, RegisterId::T0, RegisterId::S7, RegisterId::RA] {
        assert_eq!(processor.register(id).u(), 0);
    }
    assert!(storage.iter().all(|byte| *byte == 0));
    assert_eq!(processor.state(), Some(ExitCode::Halted));
    assert!(processor.is_stopped());
}

#[test]
fn program_from_words_is_little_endian() {
    let program = program_from_words(&[0x0403_0201, 0xdead_beef]);
    assert_eq!(program, vec![1, 2, 3, 4, 0xef, 0xbe, 0xad, 0xde]);
    assert_eq!(program_from_words(&[]), Vec::<u8>::new());
}

#[test]
fn jump_displacements_are_scaled_by_the_word_size() {
    assert_eq!(jmp_addr_i16(5), 20);
    assert_eq!(jmp_addr_i16(-5), -20);
    assert_eq!(jmp_addr_i32(-5), -20);
    assert_eq!(jmp_addr_i32(1000), 4000);
}

#[test]
fn empty_program_stops_with_bad_program_counter() {
    test_program_e(&[], ExitCode::BadProgramCounter);
    test_program_e(&[1, 2, 3], ExitCode::BadProgramCounter);
}

#[test]
fn stopped_processor_stays_stopped() {
    let program = program_from_words(&[
        instr_i(OpCode::LI, RegisterId::T0, RegisterId::ZERO, 7),
        instr_i(OpCode::HALT, RegisterId::ZERO, RegisterId::ZERO, 0),
        instr_i(OpCode::LI, RegisterId::T0, RegisterId::ZERO, 9),
    ]);
    let mut processor = Processor::new();
    let mut memory = vec![0u8; 16];
    assert_eq!(processor.tick(&program, &mut memory), None);
    assert_eq!(processor.program_counter(), 4);
    assert_eq!(processor.tick(&program, &mut memory), Some(ExitCode::Halted));
    assert_eq!(processor.tick(&program, &mut memory), Some(ExitCode::Halted));
    assert_eq!(processor.program_counter(), 4);
    assert_eq!(processor.register(RegisterId::T0).u(), 7);
    assert_eq!(processor.run(&program, &mut memory), ExitCode::Halted);
}

#[test]
fn next_past_the_end_starts_again_at_zero() {
    let program = program_from_words(&[
        instr_i(OpCode::ADDI, RegisterId::T0, RegisterId::T0, 1),
        instr_i(OpCode::ADDI, RegisterId::T0, RegisterId::T0, 1),
    ]);
    let mut processor = Processor::new();
    let mut memory = vec![0u8; 16];
    assert_eq!(processor.tick(&program, &mut memory), None);
    assert_eq!(processor.program_counter(), 4);
    assert_eq!(processor.tick(&program, &mut memory), None);
    assert_eq!(processor.program_counter(), 0);
    assert_eq!(processor.run_for(&program, &mut memory, 5), None);
    assert_eq!(processor.register(RegisterId::T0).u(), 7);
}

#[test]
fn jump_to_unaligned_target_is_bad_alignment() {
    let program = program_from_words(&[
        instr_j(OpCode::JMP, 2),
        instr_i(OpCode::HALT, RegisterId::ZERO, RegisterId::ZERO, 0),
    ]);
    test_program_e(&program, ExitCode::BadAlignment);
    let program = program_from_words(&[
        instr_i(OpCode::BEZ, RegisterId::ZERO, RegisterId::ZERO, 6),
        instr_i(OpCode::HALT, RegisterId::ZERO, RegisterId::ZERO, 0),
    ]);
    test_program_e(&program, ExitCode::BadAlignment);
}

#[test]
fn jump_past_the_end_is_bad_jump() {
    let program = program_from_words(&[
        instr_j(OpCode::JMP, 8),
        instr_i(OpCode::HALT, RegisterId::ZERO, RegisterId::ZERO, 0),
    ]);
    test_program_e(&program, ExitCode::BadJump);
    let program = program_from_words(&[
        instr_j(OpCode::JMP, jmp_addr_i32(-1)),
        instr_i(OpCode::HALT, RegisterId::ZERO, RegisterId::ZERO, 0),
    ]);
    test_program_e(&program, ExitCode::BadJump);
    let program = program_from_words(&[
        instr_i(OpCode::LI, RegisterId::T0, RegisterId::ZERO, 400),
        instr_i(OpCode::JR, RegisterId::ZERO, RegisterId::T0, 0),
    ]);
    test_program_e(&program, ExitCode::BadJump);
}

#[test]
fn jump_register_goes_to_an_absolute_address() {
    let program = program_from_words(&[
        instr_i(OpCode::LI, RegisterId::T0, RegisterId::ZERO, 4),
        instr_i(OpCode::JR, RegisterId::ZERO, RegisterId::T0, 8),
        instr_i(OpCode::LI, RegisterId::T1, RegisterId::ZERO, 1),
        instr_i(OpCode::HALT, RegisterId::ZERO, RegisterId::ZERO, 0),
    ]);
    let (processor, _) = test_program(&program);
    assert_eq!(processor.register(RegisterId::T1).u(), 0);
}

#[test]
fn absolute_jump_goes_to_its_address() {
    let program = program_from_words(&[
        instr_j(OpCode::JABS, jmp_addr_i32(2)),
        instr_i(OpCode::LI, RegisterId::T1, RegisterId::ZERO, 1),
        instr_j(OpCode::JABS, jmp_addr_i32(4)),
        instr_i(OpCode::LI, RegisterId::T2, RegisterId::ZERO, 1),
        instr_i(OpCode::HALT, RegisterId::ZERO, RegisterId::ZERO, 0),
    ]);
    let (processor, _) = test_program(&program);
    assert_eq!(processor.register(RegisterId::T1).u(), 0);
    assert_eq!(processor.register(RegisterId::T2).u(), 0);
    test_program_e(&program_from_words(&[instr_j(OpCode::JABS, 4)]), ExitCode::BadJump);
    test_program_e(&program_from_words(&[instr_j(OpCode::JABS, -4)]), ExitCode::BadJump);
    test_program_e(&program_from_words(&[instr_j(OpCode::JABS, 1)]), ExitCode::BadAlignment);
}

#[test]
fn division_by_zero_stops() {
    for funct in [Funct::DIV, Funct::DIVU, Funct::REM, Funct::REMU] {
        let program = program_from_words(&[
            instr_i(OpCode::LI, RegisterId::T0, RegisterId::ZERO, 42),
            instr_alu(funct, RegisterId::T2, RegisterId::T0, RegisterId::T1),
            instr_i(OpCode::HALT, RegisterId::ZERO, RegisterId::ZERO, 0),
        ]);
        let (processor, _) = test_program_e(&program, ExitCode::DivisionByZero);
        assert_eq!(processor.register(RegisterId::T2).u(), 0);
    }
}

#[test]
fn access_outside_storage_is_bad_memory_access() {
    let program = program_from_words(&[
        instr_i(OpCode::LI, RegisterId::T1, RegisterId::ZERO, 62),
        instr_i(OpCode::SW, RegisterId::T0, RegisterId::T1, 0),
        instr_i(OpCode::HALT, RegisterId::ZERO, RegisterId::ZERO, 0),
    ]);
    let (_, storage) = test_program_me(64, &program, ExitCode::BadMemoryAccess);
    assert!(storage.iter().all(|byte| *byte == 0));
    let program = program_from_words(&[
        instr_i(OpCode::LW, RegisterId::T0, RegisterId::ZERO, -4),
        instr_i(OpCode::HALT, RegisterId::ZERO, RegisterId::ZERO, 0),
    ]);
    test_program_me(64, &program, ExitCode::BadMemoryAccess);
}

#[test]
fn unknown_codes_are_invalid_opcode() {
    test_program_e(&program_from_words(&[63 << 26]), ExitCode::InvalidOpcode);
    test_program_e(&program_from_words(&[27 << 26]), ExitCode::InvalidOpcode);
    test_program_e(&program_from_words(&[15]), ExitCode::InvalidOpcode);
    test_program_e(&program_from_words(&[0x7ff]), ExitCode::InvalidOpcode);
}

#[test]
fn terminate_stops_a_running_processor() {
    let mut processor = Processor::new();
    assert_eq!(processor.state(), None);
    processor.terminate();
    assert_eq!(processor.state(), Some(ExitCode::Terminated));
    let program = program_from_words(&[instr_i(
        OpCode::LI,
        RegisterId::T0,
        RegisterId::ZERO,
        7,
    )]);
    let mut memory = vec![0u8; 4];
    assert_eq!(processor.tick(&program, &mut memory), Some(ExitCode::Terminated));
    assert_eq!(processor.register(RegisterId::T0).u(), 0);
}

#[test]
fn run_for_stops_at_the_limit() {
    let program = program_from_words(&[
        instr_i(OpCode::ADDI, RegisterId::T0, RegisterId::T0, 1),
        instr_j(OpCode::JMP, jmp_addr_i32(-1)),
    ]);
    let mut processor = Processor::new();
    let mut memory = vec![0u8; 4];
    assert_eq!(processor.run_for(&program, &mut memory, 0), None);
    assert_eq!(processor.register(RegisterId::T0).u(), 0);
    assert_eq!(processor.run_for(&program, &mut memory, 10), None);
    assert_eq!(processor.register(RegisterId::T0).u(), 5);
    assert!(!processor.is_stopped());
}

#[test]
fn loads_extend_as_the_operation_says() {
    let program = program_from_words(&[
        instr_i(OpCode::LI, RegisterId::T0, RegisterId::ZERO, -2),
        instr_i(OpCode::SW, RegisterId::T0, RegisterId::ZERO, 8),
        instr_i(OpCode::LB, RegisterId::T1, RegisterId::ZERO, 8),
        instr_i(OpCode::LBU, RegisterId::T2, RegisterId::ZERO, 8),
        instr_i(OpCode::LH, RegisterId::T3, RegisterId::ZERO, 8),
        instr_i(OpCode::LHU, RegisterId::T4, RegisterId::ZERO, 8),
        instr_i(OpCode::LW, RegisterId::T5, RegisterId::ZERO, 8),
        instr_i(OpCode::SH, RegisterId::T0, RegisterId::ZERO, 16),
        instr_i(OpCode::HALT, RegisterId::ZERO, RegisterId::ZERO, 0),
    ]);
    let (processor, storage) = test_program_me(32, &program, ExitCode::Halted);
    assert_eq!(processor.register(RegisterId::T1).i(), -2);
    assert_eq!(processor.register(RegisterId::T2).u(), 0xfe);
    assert_eq!(processor.register(RegisterId::T3).i(), -2);
    assert_eq!(processor.register(RegisterId::T4).u(), 0xfffe);
    assert_eq!(processor.register(RegisterId::T5).u(), 0xffff_fffe);
    assert_eq!(&storage[8..12], &[0xfe, 0xff, 0xff, 0xff]);
    assert_eq!(&storage[16..20], &[0xfe, 0xff, 0, 0]);
}

#[test]
fn writes_to_the_zero_register_are_discarded() {
    let program = program_from_words(&[
        instr_i(OpCode::LI, RegisterId::ZERO, RegisterId::ZERO, 42),
        instr_i(OpCode::ADDI, RegisterId::T0, RegisterId::ZERO, 1),
        instr_i(OpCode::HALT, RegisterId::ZERO, RegisterId::ZERO, 0),
    ]);
    let (processor, _) = test_program(&program);
    assert_eq!(processor.register(RegisterId::ZERO).u(), 0);
    assert_eq!(processor.register(RegisterId::T0).u(), 1);
}
