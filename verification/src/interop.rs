//! Result codes for callers across a foreign-function boundary: a small set
//! of numbers that stand for the outcomes of the library.

use crate::memory::composite::MountError;
use vstd::prelude::*;

verus! {

/// The outcome of a call, as a caller in another language sees it.
#[derive(Clone, Copy, PartialEq, Eq, Debug)]
pub enum VcpuResult {
    UnknownError,
    /// The call succeeded. Its name across the boundary is `Ok`.
    Success,
    InvalidType,
    UTF8Error,
    AssemblerError,
    MemoryInUse,
    FragmentIntersection,
    KeyAlreadyExists,
    OutOfRange,
    ExecutableLoadFailed,
    ExecutableSaveFailed,
}

/// The number that stands for a result.
pub open spec fn result_code(result: VcpuResult) -> int {
    match result {
        VcpuResult::UnknownError => -1,
        VcpuResult::Success => 0,
        VcpuResult::InvalidType => 1,
        VcpuResult::UTF8Error => 2,
        VcpuResult::AssemblerError => 3,
        VcpuResult::MemoryInUse => 4,
        VcpuResult::FragmentIntersection => 5,
        VcpuResult::KeyAlreadyExists => 6,
        VcpuResult::OutOfRange => 7,
        VcpuResult::ExecutableLoadFailed => 8,
        VcpuResult::ExecutableSaveFailed => 9,
    }
}

/// The name of a result.
pub open spec fn result_name(result: VcpuResult) -> Seq<char> {
    match result {
        VcpuResult::UnknownError => "UnknownError"@,
        VcpuResult::Success => "Ok"@,
        VcpuResult::InvalidType => "InvalidType"@,
        VcpuResult::UTF8Error => "UTF8Error"@,
        VcpuResult::AssemblerError => "AssemblerError"@,
        VcpuResult::MemoryInUse => "MemoryInUse"@,
        VcpuResult::FragmentIntersection => "FragmentIntersection"@,
        VcpuResult::KeyAlreadyExists => "KeyAlreadyExists"@,
        VcpuResult::OutOfRange => "OutOfRange"@,
        VcpuResult::ExecutableLoadFailed => "ExecutableLoadFailed"@,
        VcpuResult::ExecutableSaveFailed => "ExecutableSaveFailed"@,
    }
}

impl VcpuResult {
    /// The number that stands for this result.
    pub fn code(self) -> (code: i32)
        ensures
            code == result_code(self),
    {
        match self {
            VcpuResult::UnknownError => -1,
            VcpuResult::Success => 0,
            VcpuResult::InvalidType => 1,
            VcpuResult::UTF8Error => 2,
            VcpuResult::AssemblerError => 3,
            VcpuResult::MemoryInUse => 4,
            VcpuResult::FragmentIntersection => 5,
            VcpuResult::KeyAlreadyExists => 6,
            VcpuResult::OutOfRange => 7,
            VcpuResult::ExecutableLoadFailed => 8,
            VcpuResult::ExecutableSaveFailed => 9,
        }
    }

    /// The result that `code` stands for, or `None` if it stands for none.
    pub fn from_i32(code: i32) -> (result: Option<VcpuResult>)
        ensures
            result is Some <==> -1 <= code <= 9,
            result matches Some(r) ==> result_code(r) == code,
    {
        match code {
            -1 => Some(VcpuResult::UnknownError),
            0 => Some(VcpuResult::Success),
            1 => Some(VcpuResult::InvalidType),
            2 => Some(VcpuResult::UTF8Error),
            3 => Some(VcpuResult::AssemblerError),
            4 => Some(VcpuResult::MemoryInUse),
            5 => Some(VcpuResult::FragmentIntersection),
            6 => Some(VcpuResult::KeyAlreadyExists),
            7 => Some(VcpuResult::OutOfRange),
            8 => Some(VcpuResult::ExecutableLoadFailed),
            9 => Some(VcpuResult::ExecutableSaveFailed),
            _ => None,
        }
    }

    /// The name of this result.
    pub fn name(self) -> (name: &'static str)
        ensures
            name@ == result_name(self),
    {
        match self {
            VcpuResult::UnknownError => "UnknownError",
            VcpuResult::Success => "Ok",
            VcpuResult::InvalidType => "InvalidType",
            VcpuResult::UTF8Error => "UTF8Error",
            VcpuResult::AssemblerError => "AssemblerError",
            VcpuResult::MemoryInUse => "MemoryInUse",
            VcpuResult::FragmentIntersection => "FragmentIntersection",
            VcpuResult::KeyAlreadyExists => "KeyAlreadyExists",
            VcpuResult::OutOfRange => "OutOfRange",
            VcpuResult::ExecutableLoadFailed => "ExecutableLoadFailed",
            VcpuResult::ExecutableSaveFailed => "ExecutableSaveFailed",
        }
    }

    /// The result that stands for the outcome of a mount: each error keeps
    /// its kind.
    pub fn of_mount(outcome: Result<(), MountError>) -> (result: VcpuResult)
        ensures
            result == match outcome {
                Ok(_) => VcpuResult::Success,
                Err(MountError::FragmentIntersection) => VcpuResult::FragmentIntersection,
                Err(MountError::KeyAlreadyExists) => VcpuResult::KeyAlreadyExists,
            },
    {
        match outcome {
            Ok(_) => VcpuResult::Success,
            Err(MountError::FragmentIntersection) => VcpuResult::FragmentIntersection,
            Err(MountError::KeyAlreadyExists) => VcpuResult::KeyAlreadyExists,
        }
    }

    /// The result that stands for the outcome of a storage access: a failed
    /// access was out of range.
    pub fn of_access(outcome: Result<(), ()>) -> (result: VcpuResult)
        ensures
            result == match outcome {
                Ok(_) => VcpuResult::Success,
                Err(_) => VcpuResult::OutOfRange,
            },
    {
        match outcome {
            Ok(_) => VcpuResult::Success,
            Err(_) => VcpuResult::OutOfRange,
        }
    }
}

/// A result and its number stand for each other.
pub proof fn lemma_result_code_round_trip(result: VcpuResult, other: VcpuResult)
    ensures
        -1 <= result_code(result) <= 9,
        result_code(result) == result_code(other) ==> result == other,
{
}

} // verus!
