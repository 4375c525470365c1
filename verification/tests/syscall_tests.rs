use kernel::memory::pmm::{init as pmm_init, EarlyPmmConfig, FrameAllocator, PAGE_SIZE};
use kernel::memory::vmm::{init as vmm_init, VmmState};
use kernel::syscall::abi::{SyscallError, SyscallNumber, SyscallResult};
use kernel::syscall::dispatch::{dispatch, REGISTERED_SYSCALLS};
use kernel::syscall::{init, self_test_label, syscall_entry_rust, SyscallFrame};

fn ready() -> (FrameAllocator, VmmState) {
    let mut pmm = FrameAllocator::new();
    pmm_init(&mut pmm, EarlyPmmConfig { total_frames: 4, reserved_frames: 1 }).unwrap();
    let mut vmm = VmmState::new();
    vmm_init(&mut vmm, 0x1000);
    (pmm, vmm)
}

#[test]
fn numbers_and_codes() {
    assert_eq!(SyscallNumber::try_from(0x1000u64), Ok(SyscallNumber::MemAllocFrame));
    assert_eq!(SyscallNumber::try_from(0x1001u64), Ok(SyscallNumber::MemMapPages));
    assert_eq!(SyscallNumber::try_from(0x1002u64), Ok(SyscallNumber::MemUnmapPages));
    assert_eq!(SyscallNumber::try_from(7u64), Err(SyscallError::InvalidSyscall));
    assert_eq!(SyscallNumber::MemUnmapPages.number(), 0x1002);
    assert_eq!(SyscallError::Internal.code(), 255);
    assert_eq!(SyscallResult::ok(5), SyscallResult { value: 5, error: 0 });
    assert_eq!(SyscallResult::err(SyscallError::NotReady), SyscallResult { value: 0, error: 5 });
}

#[test]
fn unknown_number_is_invalid_syscall() {
    let (mut pmm, vmm) = ready();
    assert_eq!(dispatch(&mut pmm, &vmm, 0x2000, [0; 6]), SyscallResult { value: 0, error: 1 });
}

#[test]
fn alloc_frame_call() {
    let (mut pmm, vmm) = ready();
    assert_eq!(dispatch(&mut pmm, &vmm, 0x1000, [0; 6]), SyscallResult { value: PAGE_SIZE as u64, error: 0 });
    assert_eq!(dispatch(&mut pmm, &vmm, 0x1000, [0; 6]), SyscallResult { value: 2 * PAGE_SIZE as u64, error: 0 });
    assert_eq!(dispatch(&mut pmm, &vmm, 0x1000, [0; 6]), SyscallResult { value: 3 * PAGE_SIZE as u64, error: 0 });
    assert_eq!(dispatch(&mut pmm, &vmm, 0x1000, [0; 6]), SyscallResult { value: 0, error: 3 });
    let mut fresh = FrameAllocator::new();
    assert_eq!(dispatch(&mut fresh, &vmm, 0x1000, [0; 6]), SyscallResult { value: 0, error: 5 });
}

#[test]
fn map_and_unmap_calls() {
    let (mut pmm, vmm) = ready();
    assert_eq!(dispatch(&mut pmm, &vmm, 0x1001, [0x400000, 0x1001, 1, 1, 0, 0]).error, 2);
    assert_eq!(dispatch(&mut pmm, &vmm, 0x1001, [0x400000, 0x1000, 0, 1, 0, 0]).error, 2);
    assert_eq!(dispatch(&mut pmm, &vmm, 0x1001, [0x400000, 0x1000, 1, 1, 0, 0]).error, 4);
    assert_eq!(dispatch(&mut pmm, &vmm, 0x1002, [0x400000, 1, 0, 0, 0, 0]).error, 4);
    assert_eq!(dispatch(&mut pmm, &vmm, 0x1002, [0x400003, 1, 0, 0, 0, 0]).error, 2);
    let fresh = VmmState::new();
    assert_eq!(dispatch(&mut pmm, &fresh, 0x1002, [0x400000, 1, 0, 0, 0, 0]).error, 5);
    assert_eq!(dispatch(&mut pmm, &fresh, 0x1001, [0x400000, 0x1000, 1, 1, 0, 0]).error, 5);
}

#[test]
fn entry_uses_frame_registers() {
    let (mut pmm, vmm) = ready();
    let mut frame = SyscallFrame {
        rax: 0x1000, rbx: 11, rcx: 12, rdx: 13, rsi: 0, rdi: 0, r8: 0, r9: 0,
        r10: 0, r11: 14, r12: 15, r13: 16, r14: 17, r15: 18,
    };
    syscall_entry_rust(&mut pmm, &vmm, &mut frame);
    assert_eq!(frame.rax, PAGE_SIZE as u64);
    assert_eq!(frame.rdx, 0);
    assert_eq!(frame.rbx, 11);
    assert_eq!(frame.r15, 18);
    frame.rax = 0x1001;
    frame.rdi = 0x400000;
    frame.rsi = 0x1003;
    frame.rdx = 1;
    syscall_entry_rust(&mut pmm, &vmm, &mut frame);
    assert_eq!((frame.rax, frame.rdx), (0, 2));
}

#[test]
fn init_and_labels() {
    let r = init();
    assert_eq!(r.registered_count, REGISTERED_SYSCALLS);
    assert_eq!(r.label(), "syscall: dispatcher initialized");
    assert_eq!(self_test_label(4096, 0), "syscall: int80 path ok");
    assert_eq!(self_test_label(0, 0), "syscall: int80 path failed");
    assert_eq!(self_test_label(4096, 3), "syscall: int80 path failed");
}

#[test]
fn every_number_decodes_to_its_call() {
    for s in [SyscallNumber::MemAllocFrame, SyscallNumber::MemMapPages, SyscallNumber::MemUnmapPages] {
        assert_eq!(SyscallNumber::try_from(s.number()), Ok(s));
    }
}

#[test]
fn error_codes_are_distinct_and_nonzero() {
    let all = [
        SyscallError::InvalidSyscall,
        SyscallError::InvalidArg,
        SyscallError::OutOfMemory,
        SyscallError::Unsupported,
        SyscallError::NotReady,
        SyscallError::Internal,
    ];
    assert_eq!(all.map(|e| e.code()), [1, 2, 3, 4, 5, 255]);
    for (i, a) in all.iter().enumerate() {
        assert_ne!(a.code(), 0);
        for b in &all[i + 1..] {
            assert_ne!(a.code(), b.code());
        }
    }
}
