//! Fixed sizes of the machine.

use vstd::prelude::*;

verus! {

/// Number of bytes in a byte-sized access.
pub const BYTE_BYTES: u32 = 1;

/// Number of bytes in a half word.
pub const HALF_BYTES: u32 = 2;

/// Number of bytes in a machine word; every instruction is one word.
pub const WORD_BYTES: u32 = 4;

/// Number of registers in the register file.
pub const REGISTER_COUNT: usize = 32;

} // verus!
