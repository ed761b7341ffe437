//! Registers and the register file.

use crate::constants::REGISTER_COUNT;
use vstd::prelude::*;

verus! {

/// The names of the registers. `ZERO` is hard-wired to zero.
#[allow(non_camel_case_types)]
#[derive(Clone, Copy, PartialEq, Eq, Debug)]
pub enum RegisterId {
    ZERO,
    AT,
    V0,
    V1,
    A0,
    A1,
    A2,
    A3,
    T0,
    T1,
    T2,
    T3,
    T4,
    T5,
    T6,
    T7,
    S0,
    S1,
    S2,
    S3,
    S4,
    S5,
    S6,
    S7,
    T8,
    T9,
    K0,
    K1,
    GP,
    SP,
    FP,
    RA,
}

/// The position of a register in the register file.
pub open spec fn index_of(id: RegisterId) -> nat {
    match id {
        RegisterId::ZERO => 0,
        RegisterId::AT => 1,
        RegisterId::V0 => 2,
        RegisterId::V1 => 3,
        RegisterId::A0 => 4,
        RegisterId::A1 => 5,
        RegisterId::A2 => 6,
        RegisterId::A3 => 7,
        RegisterId::T0 => 8,
        RegisterId::T1 => 9,
        RegisterId::T2 => 10,
        RegisterId::T3 => 11,
        RegisterId::T4 => 12,
        RegisterId::T5 => 13,
        RegisterId::T6 => 14,
        RegisterId::T7 => 15,
        RegisterId::S0 => 16,
        RegisterId::S1 => 17,
        RegisterId::S2 => 18,
        RegisterId::S3 => 19,
        RegisterId::S4 => 20,
        RegisterId::S5 => 21,
        RegisterId::S6 => 22,
        RegisterId::S7 => 23,
        RegisterId::T8 => 24,
        RegisterId::T9 => 25,
        RegisterId::K0 => 26,
        RegisterId::K1 => 27,
        RegisterId::GP => 28,
        RegisterId::SP => 29,
        RegisterId::FP => 30,
        RegisterId::RA => 31,
    }
}

/// Computes the position of a register in the register file.
pub fn register_index(id: RegisterId) -> (index: usize)
    ensures
        index == index_of(id),
        index < REGISTER_COUNT,
{
    match id {
        RegisterId::ZERO => 0,
        RegisterId::AT => 1,
        RegisterId::V0 => 2,
        RegisterId::V1 => 3,
        RegisterId::A0 => 4,
        RegisterId::A1 => 5,
        RegisterId::A2 => 6,
        RegisterId::A3 => 7,
        RegisterId::T0 => 8,
        RegisterId::T1 => 9,
        RegisterId::T2 => 10,
        RegisterId::T3 => 11,
        RegisterId::T4 => 12,
        RegisterId::T5 => 13,
        RegisterId::T6 => 14,
        RegisterId::T7 => 15,
        RegisterId::S0 => 16,
        RegisterId::S1 => 17,
        RegisterId::S2 => 18,
        RegisterId::S3 => 19,
        RegisterId::S4 => 20,
        RegisterId::S5 => 21,
        RegisterId::S6 => 22,
        RegisterId::S7 => 23,
        RegisterId::T8 => 24,
        RegisterId::T9 => 25,
        RegisterId::K0 => 26,
        RegisterId::K1 => 27,
        RegisterId::GP => 28,
        RegisterId::SP => 29,
        RegisterId::FP => 30,
        RegisterId::RA => 31,
    }
}

/// The signed reading of a 32-bit pattern.
pub open spec fn signed(bits: u32) -> int {
    if bits < 0x8000_0000 {
        bits as int
    } else {
        bits - 0x1_0000_0000
    }
}

/// The 32-bit pattern of an integer, by two's-complement wraparound.
pub open spec fn wrap(value: int) -> u32 {
    (value % 0x1_0000_0000) as u32
}

/// A 32-bit storage cell that can be read as signed or as unsigned.
#[derive(Clone, Copy, PartialEq, Eq, Debug)]
pub struct Register {
    pub bits: u32,
}

impl Register {
    /// A register that holds the pattern `bits`.
    pub fn from_u(bits: u32) -> (r: Register)
        ensures
            r.bits == bits,
    {
        Register { bits }
    }

    /// A register that holds the two's-complement pattern of `value`.
    pub fn from_i(value: i32) -> (r: Register)
        ensures
            r.bits == wrap(value as int),
            signed(r.bits) == value,
    {
        let bits: u32 = if value >= 0 {
            value as u32
        } else {
            (0x1_0000_0000i64 + value as i64) as u32
        };
        Register { bits }
    }

    /// The unsigned reading.
    pub fn u(&self) -> (value: u32)
        ensures
            value == self.bits,
    {
        self.bits
    }

    /// The signed reading.
    pub fn i(&self) -> (value: i32)
        ensures
            value == signed(self.bits),
    {
        if self.bits < 0x8000_0000 {
            self.bits as i32
        } else {
            (self.bits as i64 - 0x1_0000_0000i64) as i32
        }
    }
}

impl Default for Register {
    fn default() -> (r: Register)
        ensures
            r.bits == 0,
    {
        Register { bits: 0 }
    }
}

/// The registers of one processor.
#[derive(Clone, Copy)]
pub struct RegisterFile {
    cells: [u32; 32],
}

impl RegisterFile {
    /// The hard-wired zero register holds zero.
    #[verifier::type_invariant]
    pub open spec fn zero_is_zero(&self) -> bool {
        file_wf(self@)
    }

    /// The patterns that the registers hold, by position.
    pub closed spec fn view(&self) -> Seq<u32> {
        self.cells@
    }

    /// A register file in which every register holds zero.
    pub fn new() -> (file: RegisterFile)
        ensures
            file@ == Seq::new(REGISTER_COUNT as nat, |i: int| 0u32),
    {
        let file = RegisterFile { cells: [0u32; 32] };
        assert(file@ =~= Seq::new(REGISTER_COUNT as nat, |i: int| 0u32));
        file
    }

    /// The register at position `index`.
    pub fn read(&self, index: usize) -> (value: u32)
        requires
            index < REGISTER_COUNT,
        ensures
            value == self@[index as int],
            self@.len() == REGISTER_COUNT,
            self@[0] == 0,
    {
        proof {
            use_type_invariant(self);
        }
        self.cells[index]
    }

    /// Puts `value` into the register at position `index`. A write to the
    /// zero register is discarded.
    pub fn write(&mut self, index: usize, value: u32)
        requires
            index < REGISTER_COUNT,
        ensures
            final(self)@ == put(old(self)@, index as int, value),
    {
        proof {
            use_type_invariant(&*self);
        }
        if index != 0 {
            self.cells[index] = value;
        }
        assert(self@ =~= put(old(self)@, index as int, value));
    }

    /// The register named `id`.
    pub fn get(&self, id: RegisterId) -> (r: Register)
        ensures
            r.bits == self@[index_of(id) as int],
    {
        Register { bits: self.read(register_index(id)) }
    }

    /// Puts `value` into the register named `id`. A write to the zero
    /// register is discarded.
    pub fn set(&mut self, id: RegisterId, value: Register)
        ensures
            final(self)@ == put(old(self)@, index_of(id) as int, value.bits),
    {
        self.write(register_index(id), value.bits)
    }
}

/// The register patterns after `value` was written to position `index`: a
/// write to position 0 changes nothing.
pub open spec fn put(registers: Seq<u32>, index: int, value: u32) -> Seq<u32> {
    if index == 0 {
        registers
    } else {
        registers.update(index, value)
    }
}

/// Whether a sequence can be the content of a register file.
pub open spec fn file_wf(registers: Seq<u32>) -> bool {
    registers.len() == REGISTER_COUNT && registers[0] == 0
}

/// Every write keeps the zero register at zero.
pub proof fn lemma_put_keeps_zero(registers: Seq<u32>, index: int, value: u32)
    requires
        file_wf(registers),
        0 <= index < REGISTER_COUNT,
    ensures
        file_wf(put(registers, index, value)),
        put(registers, index, value)[0] == 0,
{
}

} // verus!
