//! A small virtual processor: a fetch-decode-execute engine that runs over a
//! byte-addressable, possibly fragmented memory space.

pub mod bytes;
pub mod constants;
pub mod instruction;
pub mod interop;
pub mod memory;
pub mod processor;
pub mod register;
pub mod storage;

pub use interop::VcpuResult;
pub use instruction::{instr_alu, instr_i, instr_j, Address, Funct, Immediate, OpCode, Word};
pub use processor::{jmp_addr_i16, jmp_addr_i32, program_from_words, ExitCode, Processor};
pub use register::{register_index, Register, RegisterFile, RegisterId};
pub use storage::{Memory, Storage};
