use vstd::prelude::*;
use crate::memory::pmm::{self, FrameAllocator, PhysFrame, PmmError, PmmView, PAGE_SIZE, MAX_FRAMES, all_used, is_lowest_free};
use crate::memory::vmm::{self, MapFlags, PageCount, VirtAddr, VmmError, VmmState, page_range_error};
use super::abi::{SyscallError, SyscallNumber, SyscallResult, decode_syscall, error_code_spec};

verus! {

pub const REGISTERED_SYSCALLS: usize = 3;

/// The error a memory-management failure is reported as.
pub open spec fn vmm_error_spec(err: VmmError) -> SyscallError {
    match err {
        VmmError::NotInitialized => SyscallError::NotReady,
        VmmError::InvalidAddress => SyscallError::InvalidArg,
        VmmError::InvalidLength => SyscallError::InvalidArg,
        VmmError::Unsupported => SyscallError::Unsupported,
    }
}

/// The reply of the frame allocation call for allocator state `v`, and the
/// frame it hands out.
pub open spec fn alloc_frame_reply(v: PmmView, r: SyscallResult) -> bool {
    if !v.initialized {
        r == SyscallResult { value: 0, error: error_code_spec(SyscallError::NotReady) }
    } else if all_used(v) {
        r == SyscallResult { value: 0, error: error_code_spec(SyscallError::OutOfMemory) }
    } else {
        &&& r.error == 0
        &&& r.value % (PAGE_SIZE as u64) == 0
        &&& is_lowest_free(v, (r.value / (PAGE_SIZE as u64)) as int)
    }
}

/// The allocator after the frame allocation call answered `r`.
pub open spec fn alloc_frame_effect(before: PmmView, after: PmmView, r: SyscallResult) -> bool {
    if r.error == 0 {
        after == PmmView { used: before.used.update((r.value / (PAGE_SIZE as u64)) as int, true), ..before }
    } else {
        after == before
    }
}

/// The reply of the map call for its arguments.
pub open spec fn map_pages_reply(vmm: VmmState, args: [u64; 6]) -> SyscallResult {
    let phys = args[1] as usize;
    if phys % PAGE_SIZE != 0 || phys / PAGE_SIZE >= MAX_FRAMES {
        SyscallResult { value: 0, error: error_code_spec(SyscallError::InvalidArg) }
    } else if !vmm.is_initialized() {
        SyscallResult { value: 0, error: error_code_spec(SyscallError::NotReady) }
    } else {
        let virt = VirtAddr(args[0] as usize);
        let pages = PageCount(args[2] as usize);
        let e = match page_range_error(virt, pages) {
            Some(e) => e,
            None => if phys + pages.0 * PAGE_SIZE > usize::MAX {
                VmmError::InvalidLength
            } else {
                VmmError::Unsupported
            },
        };
        SyscallResult { value: 0, error: error_code_spec(vmm_error_spec(e)) }
    }
}

/// The reply of the unmap call for its arguments.
pub open spec fn unmap_pages_reply(vmm: VmmState, args: [u64; 6]) -> SyscallResult {
    let e = if !vmm.is_initialized() {
        VmmError::NotInitialized
    } else {
        match page_range_error(VirtAddr(args[0] as usize), PageCount(args[1] as usize)) {
            Some(e) => e,
            None => VmmError::Unsupported,
        }
    };
    SyscallResult { value: 0, error: error_code_spec(vmm_error_spec(e)) }
}

/// The reply `r` and the allocator change from `before` to `after` that
/// system call `number` with `args` makes.
pub open spec fn dispatch_outcome(before: PmmView, after: PmmView, vmm: VmmState, number: u64, args: [u64; 6], r: SyscallResult) -> bool {
    match decode_syscall(number) {
        Err(e) => r == (SyscallResult { value: 0, error: error_code_spec(e) }) && after == before,
        Ok(SyscallNumber::MemAllocFrame) => alloc_frame_reply(before, r) && alloc_frame_effect(before, after, r),
        Ok(SyscallNumber::MemMapPages) => r == map_pages_reply(vmm, args) && after == before,
        Ok(SyscallNumber::MemUnmapPages) => r == unmap_pages_reply(vmm, args) && after == before,
    }
}

/// Runs system call `number` with `args`.
pub fn dispatch(pmm: &mut FrameAllocator, vmm: &VmmState, number: u64, args: [u64; 6]) -> (r: SyscallResult)
    ensures
        dispatch_outcome(old(pmm)@, final(pmm)@, *vmm, number, args, r),
{
    let syscall = match SyscallNumber::try_from(number) {
        Ok(s) => s,
        Err(e) => return SyscallResult::err(e),
    };
    match syscall {
        SyscallNumber::MemAllocFrame => sys_mem_alloc_frame(pmm),
        SyscallNumber::MemMapPages => sys_mem_map_pages(vmm, args),
        SyscallNumber::MemUnmapPages => sys_mem_unmap_pages(vmm, args),
    }
}

fn sys_mem_alloc_frame(pmm: &mut FrameAllocator) -> (r: SyscallResult)
    ensures
        alloc_frame_reply(old(pmm)@, r),
        alloc_frame_effect(old(pmm)@, final(pmm)@, r),
{
    match pmm::alloc_frame(pmm) {
        Ok(frame) => {
            let addr = frame.addr();
            proof {
                let f = frame@;
                assert((addr as u64) / (PAGE_SIZE as u64) == f && (addr as u64) % (PAGE_SIZE as u64) == 0) by (nonlinear_arith)
                    requires
                        addr == f * 4096,
                        f < 32768;
            }
            SyscallResult::ok(addr as u64)
        },
        Err(PmmError::OutOfMemory) => SyscallResult::err(SyscallError::OutOfMemory),
        Err(PmmError::NotInitialized) => SyscallResult::err(SyscallError::NotReady),
        Err(_) => SyscallResult::err(SyscallError::Internal),
    }
}

fn sys_mem_map_pages(vmm: &VmmState, args: [u64; 6]) -> (r: SyscallResult)
    ensures
        r == map_pages_reply(*vmm, args),
{
    let virt_start = #[verifier::truncate] (args[0] as usize);
    let phys_start = #[verifier::truncate] (args[1] as usize);
    let pages = #[verifier::truncate] (args[2] as usize);
    let flags = args[3];
    let frame = match PhysFrame::from_addr(phys_start) {
        Some(f) => f,
        None => return SyscallResult::err(SyscallError::InvalidArg),
    };
    match vmm::map_pages(vmm, VirtAddr(virt_start), frame, PageCount(pages), MapFlags::from_bits(flags)) {
        Ok(()) => SyscallResult::ok(0),
        Err(e) => SyscallResult::err(map_vmm_error(e)),
    }
}

fn sys_mem_unmap_pages(vmm: &VmmState, args: [u64; 6]) -> (r: SyscallResult)
    ensures
        r == unmap_pages_reply(*vmm, args),
{
    let virt_start = #[verifier::truncate] (args[0] as usize);
    let pages = #[verifier::truncate] (args[1] as usize);
    match vmm::unmap_pages(vmm, VirtAddr(virt_start), PageCount(pages)) {
        Ok(()) => SyscallResult::ok(0),
        Err(e) => SyscallResult::err(map_vmm_error(e)),
    }
}

fn map_vmm_error(err: VmmError) -> (r: SyscallError)
    ensures
        r == vmm_error_spec(err),
{
    match err {
        VmmError::NotInitialized => SyscallError::NotReady,
        VmmError::InvalidAddress | VmmError::InvalidLength => SyscallError::InvalidArg,
        VmmError::Unsupported => SyscallError::Unsupported,
    }
}

} // verus!
