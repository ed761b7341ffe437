use std::cell::Cell;
use std::rc::Rc;
use vcpu::memory::io::{DelegateIOHandler, IOHandler, IOMemory};
use vcpu::{
    instr_i, program_from_words, ExitCode, Memory, OpCode, Processor, RegisterId, Storage,
};

#[test]
fn write_callback() {
    let result = Rc::new(Cell::new((0u32, 0u32)));
    let rref = Rc::clone(&result);

    let handler = DelegateIOHandler::new(
        |_: &[u8], _, _| true,
        move |memory: &[u8], address, size| {
            let value = memory.read(address, size).unwrap();
            rref.set((address, value));
        },
    );

    let program = program_from_words(&[
        instr_i(OpCode::LI, RegisterId::T0, RegisterId::ZERO, 923),
        instr_i(OpCode::SW, RegisterId::T0, RegisterId::ZERO, 4),
        instr_i(OpCode::HALT, RegisterId::ZERO, RegisterId::ZERO, 0),
    ]);

    let mut processor = Processor::default();
    let mut memory = IOMemory::new(16, handler);

    assert_eq!(processor.run(&program, &mut memory), ExitCode::Halted);

    let (address, value) = result.get();

    assert_eq!(address, 4u32);
    assert_eq!(value, 923u32);
}

#[test]
fn vetoed_write_changes_nothing_and_succeeds() {
    let notified = Rc::new(Cell::new(0u32));
    let counter = Rc::clone(&notified);
    let handler = DelegateIOHandler::new(
        |_: &[u8], _, _| false,
        move |_: &[u8], _, _| counter.set(counter.get() + 1),
    );
    let mut memory = IOMemory::new(8, handler);
    assert_eq!(memory.write(0, 4, 0xffff_ffff), Ok(()));
    assert_eq!(memory.write(100, 4, 0xffff_ffff), Ok(()));
    assert_eq!(memory.borrow_slice(0, 8), Ok(&[0u8; 8][..]));
    assert_eq!(notified.get(), 0);
}

#[test]
fn permitted_write_is_notified_with_the_new_bytes() {
    let seen = Rc::new(Cell::new((0u8, 0u8, 0u32)));
    let before = Rc::clone(&seen);
    let after = Rc::clone(&seen);
    let handler = DelegateIOHandler::new(
        move |memory: &[u8], _, _| {
            let (_, new, count) = before.get();
            before.set((memory[2], new, count));
            true
        },
        move |memory: &[u8], _, _| {
            let (old, _, count) = after.get();
            after.set((old, memory[2], count + 1));
        },
    );
    let mut memory = IOMemory::new(8, handler);
    assert_eq!(memory.write_byte(2, 0xab), Ok(()));
    assert_eq!(seen.get(), (0, 0xab, 1));
    assert_eq!(memory.read_byte(2), Ok(0xab));
    assert_eq!(memory.write(6, 4, 1), Err(()));
    assert_eq!(seen.get().2, 1);
    assert_eq!(memory.length(), 8);
}

#[test]
fn settle_follows_the_decision() {
    let handler = DelegateIOHandler::new(|_: &[u8], _, _| true, |_: &[u8], _, _| ());
    let mut memory = IOMemory::new(4, handler);
    assert_eq!(memory.settle(false, 0, 4, 0x0403_0201), (Ok(()), false));
    assert_eq!(memory.read_word(0), Ok(0));
    assert_eq!(memory.settle(true, 0, 4, 0x0403_0201), (Ok(()), true));
    assert_eq!(memory.read_word(0), Ok(0x0403_0201));
    assert_eq!(memory.settle(true, 1, 4, 0), (Err(()), false));
    assert_eq!(memory.settle(false, 1, 4, 0), (Ok(()), false));
    assert_eq!(memory.read_word(0), Ok(0x0403_0201));
}

struct ReadOnly;

impl IOHandler for ReadOnly {
    fn can_write(&self, _memory: &[u8], _address: u32, _size: u32) -> bool {
        false
    }

    fn on_write(&self, _memory: &[u8], _address: u32, _size: u32) {
        panic!("a vetoed write was notified");
    }
}

#[test]
fn processor_does_not_see_the_veto() {
    let program = program_from_words(&[
        instr_i(OpCode::LI, RegisterId::T0, RegisterId::ZERO, 923),
        instr_i(OpCode::SW, RegisterId::T0, RegisterId::ZERO, 4),
        instr_i(OpCode::LW, RegisterId::T1, RegisterId::ZERO, 4),
        instr_i(OpCode::HALT, RegisterId::ZERO, RegisterId::ZERO, 0),
    ]);
    let mut processor = Processor::new();
    let mut memory = IOMemory::new(16, ReadOnly);
    assert_eq!(processor.run(&program, &mut memory), ExitCode::Halted);
    assert_eq!(processor.register(RegisterId::T1).u(), 0);
}

#[test]
fn flat_memory_reads_and_writes_little_endian() {
    let mut memory = Memory::new(8);
    assert_eq!(memory.length(), 8);
    assert_eq!(memory.write_word(0, 0x1234_5678), Ok(()));
    assert_eq!(memory.as_slice(), &[0x78, 0x56, 0x34, 0x12, 0, 0, 0, 0]);
    assert_eq!(memory.read_byte(1), Ok(0x56));
    assert_eq!(memory.read_half(2), Ok(0x1234));
    assert_eq!(memory.read_word(0), Ok(0x1234_5678));
    assert_eq!(memory.read(0, 3), Ok(0x34_5678));
    assert_eq!(memory.read(0, 0), Ok(0));
    assert_eq!(memory.read(0, 5), Err(()));
    assert_eq!(memory.write_half(6, 0xbeef), Ok(()));
    assert_eq!(memory.write_byte(5, 0x12), Ok(()));
    assert_eq!(memory.as_slice(), &[0x78, 0x56, 0x34, 0x12, 0, 0x12, 0xef, 0xbe]);
    assert_eq!(memory.write(0, 1, 0xffff_ff00), Ok(()));
    assert_eq!(memory.read_word(0), Ok(0x1234_5600));
    assert_eq!(memory.write(0, 5, 0), Err(()));
}

#[test]
fn ranges_that_overflow_are_out_of_range() {
    let mut memory = Memory::new(8);
    assert!(memory.check_range(0, 8));
    assert!(memory.check_range(8, 0));
    assert!(!memory.check_range(9, 0));
    assert!(!memory.check_range(4, 5));
    assert!(!memory.check_range(0xffff_ffff, 0xffff_ffff));
    assert!(!memory.check_range(0xffff_ffff, 2));
    assert!(memory.borrow_slice(0xffff_fffc, 8).is_err());
    assert_eq!(memory.write(0xffff_fffe, 4, 1), Err(()));
    assert_eq!(memory.read_word(0xffff_fffe), Err(()));
    let bytes: Vec<u8> = vec![1, 2, 3];
    assert_eq!(bytes.read(1, 2), Ok(0x0302));
    assert_eq!(bytes[..].read_byte(3), Err(()));
    assert!(Memory::from_slice(&bytes).is_some());
}

#[test]
fn borrowed_bytes_are_written_in_place() {
    let mut memory = Memory::new(8);
    {
        let window = memory.borrow_slice_mut(2, 4).unwrap();
        assert_eq!(window.len(), 4);
        window[1] = 7;
        window[3] = 9;
    }
    assert_eq!(memory.as_slice(), &[0, 0, 0, 7, 0, 9, 0, 0]);
    assert!(memory.borrow_slice_mut(6, 4).is_err());
    assert!(memory.borrow_slice_mut(8, 0).is_ok());
    let mut bytes: Vec<u8> = vec![1, 2, 3];
    bytes.borrow_slice_mut(0, 3).unwrap()[2] = 5;
    assert_eq!(bytes, vec![1, 2, 5]);
}

#[test]
fn device_memory_hands_out_its_buffer_without_asking() {
    let asked = Rc::new(Cell::new(0u32));
    let counter = Rc::clone(&asked);
    let handler = DelegateIOHandler::new(
        move |_: &[u8], _, _| {
            counter.set(counter.get() + 1);
            false
        },
        |_: &[u8], _, _| panic!("a write to the bytes of the buffer was notified"),
    );
    let mut memory = IOMemory::new(8, handler);
    memory.borrow_slice_mut(2, 4).unwrap()[1] = 7;
    assert_eq!(memory.borrow_slice(0, 8), Ok(&[0u8, 0, 0, 7, 0, 0, 0, 0][..]));
    assert!(memory.borrow_slice_mut(6, 4).is_err());
    assert!(memory.borrow_slice_mut(8, 0).is_ok());
    assert_eq!(asked.get(), 0);
    assert_eq!(memory.write(3, 1, 9), Ok(()));
    assert_eq!(asked.get(), 1);
    assert_eq!(memory.read_byte(3), Ok(7));
}
