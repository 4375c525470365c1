use vstd::prelude::*;

verus! {

/// The system calls and their numbers.
#[derive(Clone, Copy, Debug, PartialEq, Eq, Structural)]
pub enum SyscallNumber {
    MemAllocFrame,
    MemMapPages,
    MemUnmapPages,
}

pub const SYS_MEM_ALLOC_FRAME: u64 = 0x1000;
pub const SYS_MEM_MAP_PAGES: u64 = 0x1001;
pub const SYS_MEM_UNMAP_PAGES: u64 = 0x1002;

/// The number of each system call.
pub open spec fn syscall_number_spec(s: SyscallNumber) -> u64 {
    match s {
        SyscallNumber::MemAllocFrame => SYS_MEM_ALLOC_FRAME,
        SyscallNumber::MemMapPages => SYS_MEM_MAP_PAGES,
        SyscallNumber::MemUnmapPages => SYS_MEM_UNMAP_PAGES,
    }
}

impl SyscallNumber {
    pub fn number(self) -> (r: u64)
        ensures
            r == syscall_number_spec(self),
    {
        match self {
            SyscallNumber::MemAllocFrame => SYS_MEM_ALLOC_FRAME,
            SyscallNumber::MemMapPages => SYS_MEM_MAP_PAGES,
            SyscallNumber::MemUnmapPages => SYS_MEM_UNMAP_PAGES,
        }
    }
}

/// The system call with number `value`, or `InvalidSyscall`.
pub open spec fn decode_syscall(value: u64) -> Result<SyscallNumber, SyscallError> {
    if value == SYS_MEM_ALLOC_FRAME {
        Ok(SyscallNumber::MemAllocFrame)
    } else if value == SYS_MEM_MAP_PAGES {
        Ok(SyscallNumber::MemMapPages)
    } else if value == SYS_MEM_UNMAP_PAGES {
        Ok(SyscallNumber::MemUnmapPages)
    } else {
        Err(SyscallError::InvalidSyscall)
    }
}

impl TryFrom<u64> for SyscallNumber {
    type Error = SyscallError;

    fn try_from(value: u64) -> (r: Result<Self, Self::Error>) {
        if value == SYS_MEM_ALLOC_FRAME {
            Ok(SyscallNumber::MemAllocFrame)
        } else if value == SYS_MEM_MAP_PAGES {
            Ok(SyscallNumber::MemMapPages)
        } else if value == SYS_MEM_UNMAP_PAGES {
            Ok(SyscallNumber::MemUnmapPages)
        } else {
            Err(SyscallError::InvalidSyscall)
        }
    }
}

impl vstd::std_specs::convert::TryFromSpecImpl<u64> for SyscallNumber {
    open spec fn obeys_try_from_spec() -> bool {
        true
    }

    open spec fn try_from_spec(v: u64) -> Result<Self, SyscallError> {
        decode_syscall(v)
    }
}

/// Error codes returned to the caller of a system call.
#[derive(Clone, Copy, Debug, PartialEq, Eq, Structural)]
pub enum SyscallError {
    InvalidSyscall,
    InvalidArg,
    OutOfMemory,
    Unsupported,
    NotReady,
    Internal,
}

/// The code of each error.
pub open spec fn error_code_spec(e: SyscallError) -> u64 {
    match e {
        SyscallError::InvalidSyscall => 1,
        SyscallError::InvalidArg => 2,
        SyscallError::OutOfMemory => 3,
        SyscallError::Unsupported => 4,
        SyscallError::NotReady => 5,
        SyscallError::Internal => 255,
    }
}

impl SyscallError {
    pub fn code(self) -> (r: u64)
        ensures
            r == error_code_spec(self),
    {
        match self {
            SyscallError::InvalidSyscall => 1,
            SyscallError::InvalidArg => 2,
            SyscallError::OutOfMemory => 3,
            SyscallError::Unsupported => 4,
            SyscallError::NotReady => 5,
            SyscallError::Internal => 255,
        }
    }
}

/// Every system call's number decodes to that call.
pub proof fn law_number_round_trip(s: SyscallNumber)
    ensures
        decode_syscall(syscall_number_spec(s)) == Ok::<SyscallNumber, SyscallError>(s),
{
}

/// Every error has a non-zero code of its own, so a reply tells success
/// from each failure.
pub proof fn law_error_codes_distinct(a: SyscallError, b: SyscallError)
    ensures
        error_code_spec(a) != 0,
        a != b ==> error_code_spec(a) != error_code_spec(b),
{
}

/// What a system call hands back: a value, and an error code (zero on
/// success).
#[derive(Clone, Copy, Debug, PartialEq, Eq, Structural)]
pub struct SyscallResult {
    pub value: u64,
    pub error: u64,
}

impl SyscallResult {
    pub fn ok(value: u64) -> (r: Self)
        ensures
            r == (SyscallResult { value, error: 0 }),
    {
        SyscallResult { value, error: 0 }
    }

    pub fn err(error: SyscallError) -> (r: Self)
        ensures
            r == (SyscallResult { value: 0, error: error_code_spec(error) }),
    {
        SyscallResult { value: 0, error: error.code() }
    }
}

} // verus!
