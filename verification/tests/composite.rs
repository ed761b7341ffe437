use vcpu::memory::composite::{CompositeMemory, MountError};
use vcpu::memory::io::{DelegateIOHandler, IOMemory};
use vcpu::{
    instr_i, program_from_words, ExitCode, Memory, OpCode, Processor, RegisterId, Storage,
};

#[test]
fn find_mount_index() {
    let mut memory = CompositeMemory::new();
    assert_eq!(memory.find_mount_index(0, 16), Ok(0));
    assert_eq!(memory.mount(0, "f0", Box::new(Memory::new(16))), Ok(()));
    assert_eq!(memory.find_mount_index(8, 24), Err(MountError::FragmentIntersection));
    assert_eq!(memory.mount(20, "f1", Box::new(Memory::new(16))), Ok(()));
    assert_eq!(memory.find_mount_index(16, 20), Ok(1));
    assert_eq!(memory.find_mount_index(18, 20), Ok(1));
    assert_eq!(memory.find_mount_index(40, 44), Ok(2));
    assert_eq!(memory.find_mount_index(15, 20), Err(MountError::FragmentIntersection));
    assert_eq!(memory.find_mount_index(16, 21), Err(MountError::FragmentIntersection));
}

#[test]
fn successful_mount() {
    let mut memory = CompositeMemory::new();
    assert_eq!(
        memory.mount(16, "f0", Box::new(Memory::from_slice(&[0, 1, 2, 3][..]).unwrap())),
        Ok(())
    );
    assert_eq!(memory.read_word(16), Ok(50462976));
    assert_eq!(memory.read_byte(0), Err(()));
    assert_eq!(memory.length(), 20);
}

#[test]
fn consecutive_fragments() {
    let mut memory = CompositeMemory::new();
    assert_eq!(memory.mount(0, "f0", Box::new(Memory::new(16))), Ok(()));
    assert_eq!(memory.mount(16, "f1", Box::new(Memory::new(16))), Ok(()));
    assert_eq!(memory.length(), 32);
    assert!(memory.check_range(12, 4));
    assert!(memory.check_range(16, 16));
    assert!(!memory.check_range(12, 8));
}

#[test]
fn intersecting_fragments() {
    let mut memory = CompositeMemory::new();
    assert_eq!(memory.mount(0, "f0", Box::new(Memory::new(16))), Ok(()));
    assert_eq!(
        memory.mount(15, "f1", Box::new(Memory::new(16))),
        Err(MountError::FragmentIntersection)
    );
    assert_eq!(memory.length(), 16);
    assert_eq!(memory.mount(16, "f1", Box::new(Memory::new(16))), Ok(()));
}

#[test]
fn duplicate_key_is_reported_before_intersection() {
    let mut memory = CompositeMemory::new();
    assert_eq!(memory.mount(0, "f0", Box::new(Memory::new(16))), Ok(()));
    assert_eq!(
        memory.mount(8, "f0", Box::new(Memory::new(16))),
        Err(MountError::KeyAlreadyExists)
    );
    assert_eq!(
        memory.mount(64, "f0", Box::new(Memory::new(16))),
        Err(MountError::KeyAlreadyExists)
    );
    assert_eq!(memory.length(), 16);
}

#[test]
fn mount_past_the_address_space_is_refused() {
    let mut memory = CompositeMemory::new();
    assert_eq!(
        memory.mount(0xffff_fff8, "high", Box::new(Memory::new(16))),
        Err(MountError::FragmentIntersection)
    );
    assert_eq!(memory.mount(0xffff_fff0, "high", Box::new(Memory::new(15))), Ok(()));
    assert_eq!(memory.length(), 0xffff_ffff);
}

#[test]
fn unmount_twice() {
    let mut memory = CompositeMemory::new();
    assert_eq!(memory.mount(0, "f0", Box::new(Memory::new(16))), Ok(()));
    assert!(memory.unmount("something").is_none());
    assert!(memory.unmount("f0").is_some());
    assert!(memory.unmount("f0").is_none());
    assert_eq!(memory.length(), 0);
}

#[test]
fn unmount_keeps_later_keys_right() {
    let mut memory = CompositeMemory::new();
    assert_eq!(memory.mount(32, "c", Box::new(Memory::from_slice(&[3; 8]).unwrap())), Ok(()));
    assert_eq!(memory.mount(0, "a", Box::new(Memory::from_slice(&[1; 8]).unwrap())), Ok(()));
    assert_eq!(memory.mount(16, "b", Box::new(Memory::from_slice(&[2; 8]).unwrap())), Ok(()));
    let a = memory.unmount("a").unwrap();
    assert_eq!(a.read_byte(0), Ok(1));
    assert_eq!(memory.read_byte(0), Err(()));
    let c = memory.unmount("c").unwrap();
    assert_eq!(c.read_byte(0), Ok(3));
    assert_eq!(memory.read_byte(16), Ok(2));
    let b = memory.unmount("b").unwrap();
    assert_eq!(b.read_byte(0), Ok(2));
    assert_eq!(memory.get_index(16), None);
}

#[test]
fn any_order_of_mounts_resolves_alike() {
    let bases: [u32; 4] = [48, 0, 100, 16];
    let orders: [[usize; 4]; 4] = [[0, 1, 2, 3], [3, 2, 1, 0], [1, 3, 0, 2], [2, 0, 3, 1]];
    for order in orders {
        let mut memory = CompositeMemory::new();
        for position in order {
            let base = bases[position];
            let bytes = [base as u8; 16];
            let key = format!("f{}", base);
            assert_eq!(memory.mount(base, &key, Box::new(Memory::from_slice(&bytes).unwrap())), Ok(()));
        }
        assert_eq!(memory.length(), 116);
        for address in 0..120u32 {
            let owner = bases.iter().find(|base| **base <= address && address < **base + 16);
            match owner {
                Some(base) => assert_eq!(memory.read_byte(address), Ok(*base as u8)),
                None => assert_eq!(memory.read_byte(address), Err(())),
            }
        }
        assert_eq!(memory.get_index(15), Some(0));
        assert_eq!(memory.get_index(16), Some(1));
        assert_eq!(memory.get_index(47), Some(1));
        assert_eq!(memory.get_index(99), Some(2));
        assert_eq!(memory.get_index(4000), Some(3));
    }
}

#[test]
fn address_below_every_fragment_is_out_of_range() {
    let mut memory = CompositeMemory::new();
    assert_eq!(memory.get_index(0), None);
    assert_eq!(memory.mount(16, "f0", Box::new(Memory::new(16))), Ok(()));
    assert_eq!(memory.get_index(15), None);
    assert!(!memory.check_range(15, 1));
    assert!(memory.borrow_slice(8, 4).is_err());
    assert_eq!(memory.write(8, 4, 1), Err(()));
    assert_eq!(memory.write(32, 1, 1), Err(()));
    assert_eq!(memory.write(28, 4, 0x0403_0201), Ok(()));
    assert_eq!(memory.borrow_slice(28, 4), Ok(&[1u8, 2, 3, 4][..]));
}

#[test]
fn composite_memory_nests() {
    let mut inner = CompositeMemory::new();
    assert_eq!(inner.mount(4, "data", Box::new(Memory::new(4))), Ok(()));
    let mut outer = CompositeMemory::new();
    assert_eq!(outer.mount(100, "inner", Box::new(inner)), Ok(()));
    assert_eq!(outer.length(), 108);
    assert_eq!(outer.write_word(104, 0xdead_beef), Ok(()));
    assert_eq!(outer.read_half(106), Ok(0xdead));
    assert_eq!(outer.read_word(100), Err(()));
}

#[test]
fn processor_runs_on_composite_memory() {
    let program = program_from_words(&[
        instr_i(OpCode::LI, RegisterId::T0, RegisterId::ZERO, 923),
        instr_i(OpCode::SW, RegisterId::T0, RegisterId::ZERO, 36),
        instr_i(OpCode::LW, RegisterId::T1, RegisterId::ZERO, 36),
        instr_i(OpCode::SW, RegisterId::T0, RegisterId::ZERO, 16),
        instr_i(OpCode::HALT, RegisterId::ZERO, RegisterId::ZERO, 0),
    ]);
    let mut memory = CompositeMemory::new();
    assert_eq!(memory.mount(0, "low", Box::new(Memory::new(16))), Ok(()));
    assert_eq!(memory.mount(32, "high", Box::new(Memory::new(16))), Ok(()));
    let mut processor = Processor::new();
    assert_eq!(processor.run(&program, &mut memory), ExitCode::BadMemoryAccess);
    assert_eq!(processor.register(RegisterId::T1).u(), 923);
    assert_eq!(memory.read_word(36), Ok(923));
}

#[test]
fn device_in_composite_memory_is_asked() {
    let handler = DelegateIOHandler::new(|_: &[u8], address, _| address != 0, |_: &[u8], _, _| ());
    let mut memory = CompositeMemory::new();
    assert_eq!(memory.mount(64, "device", Box::new(IOMemory::new(8, handler))), Ok(()));
    assert_eq!(memory.write_word(64, 7), Ok(()));
    assert_eq!(memory.read_word(64), Ok(0));
    assert_eq!(memory.write_word(68, 7), Ok(()));
    assert_eq!(memory.read_word(68), Ok(7));
}

#[test]
fn borrowed_bytes_of_a_fragment_are_written_in_place() {
    let mut memory = CompositeMemory::new();
    assert_eq!(memory.mount(16, "f0", Box::new(Memory::new(8))), Ok(()));
    assert_eq!(memory.mount(32, "f1", Box::new(Memory::new(8))), Ok(()));
    memory.borrow_slice_mut(34, 2).unwrap()[1] = 0xaa;
    assert_eq!(memory.read_byte(35), Ok(0xaa));
    assert!(memory.borrow_slice_mut(22, 4).is_err());
    assert!(memory.borrow_slice_mut(0, 1).is_err());
    let f1 = memory.unmount("f1").unwrap();
    assert_eq!(f1.as_slice(), &[0, 0, 0, 0xaa, 0, 0, 0, 0]);
}
