pub mod abi;
pub mod dispatch;

use vstd::prelude::*;
use crate::memory::pmm::FrameAllocator;
use crate::memory::vmm::VmmState;
use dispatch::REGISTERED_SYSCALLS;

verus! {

#[derive(Clone, Copy, Debug, PartialEq, Eq, Structural)]
pub struct SyscallInitReport {
    pub registered_count: usize,
}

impl SyscallInitReport {
    pub fn label(self) -> (r: &'static str)
        ensures
            r@ == "syscall: dispatcher initialized"@,
    {
        "syscall: dispatcher initialized"
    }
}

pub fn init() -> (r: SyscallInitReport)
    ensures
        r.registered_count == REGISTERED_SYSCALLS,
{
    SyscallInitReport { registered_count: REGISTERED_SYSCALLS }
}

/// The registers saved on entry to a system call.
#[derive(Clone, Copy, Debug, PartialEq, Eq, Structural)]
pub struct SyscallFrame {
    pub rax: u64,
    pub rbx: u64,
    pub rcx: u64,
    pub rdx: u64,
    pub rsi: u64,
    pub rdi: u64,
    pub r8: u64,
    pub r9: u64,
    pub r10: u64,
    pub r11: u64,
    pub r12: u64,
    pub r13: u64,
    pub r14: u64,
    pub r15: u64,
}

/// The arguments of a system call, in the order of the calling convention.
pub open spec fn frame_args(frame: SyscallFrame) -> [u64; 6] {
    [frame.rdi, frame.rsi, frame.rdx, frame.r10, frame.r8, frame.r9]
}

/// The arguments of a call come from the saved registers in the order of
/// the calling convention: first `rdi`, then `rsi`, `rdx`, `r10`, `r8` and
/// `r9`; the call number in `rax` is none of them.
pub proof fn law_frame_args_calling_convention(frame: SyscallFrame)
    ensures
        frame_args(frame)[0] == frame.rdi,
        frame_args(frame)[1] == frame.rsi,
        frame_args(frame)[2] == frame.rdx,
        frame_args(frame)[3] == frame.r10,
        frame_args(frame)[4] == frame.r8,
        frame_args(frame)[5] == frame.r9,
{
}

/// Runs the system call that a saved frame asks for: the number in `rax`,
/// the arguments in `rdi`, `rsi`, `rdx`, `r10`, `r8`, `r9`; the value goes
/// back in `rax` and the error code in `rdx`.
pub fn syscall_entry_rust(pmm: &mut FrameAllocator, vmm: &VmmState, frame: &mut SyscallFrame)
    ensures
        exists|result: abi::SyscallResult| {
            &&& dispatch::dispatch_outcome(
                old(pmm)@,
                final(pmm)@,
                *vmm,
                old(frame).rax,
                [old(frame).rdi, old(frame).rsi, old(frame).rdx, old(frame).r10, old(frame).r8, old(frame).r9],
                result,
            )
            &&& *final(frame) == (SyscallFrame { rax: result.value, rdx: result.error, ..*old(frame) })
        },
{
    let args: [u64; 6] = [frame.rdi, frame.rsi, frame.rdx, frame.r10, frame.r8, frame.r9];
    let ghost before = *frame;
    proof {
        assert(args@ =~= frame_args(before)@);
        assert(args == frame_args(before));
    }
    let result = dispatch::dispatch(pmm, vmm, frame.rax, args);
    frame.rax = result.value;
    frame.rdx = result.error;
    assert(dispatch::dispatch_outcome(old(pmm)@, pmm@, *vmm, before.rax, frame_args(before), result));
}

/// The verdict of the self-test system call from what came back in `rax`
/// (`value`) and `rdx` (`error`).
pub fn self_test_label(value: u64, error: u64) -> (r: &'static str)
    ensures
        r@ == if error == 0 && value != 0 {
            "syscall: int80 path ok"@
        } else {
            "syscall: int80 path failed"@
        },
{
    if error == 0 && value != 0 {
        "syscall: int80 path ok"
    } else {
        "syscall: int80 path failed"
    }
}

} // verus!
