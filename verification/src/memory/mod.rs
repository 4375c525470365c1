pub mod heap;
pub mod layout;
pub mod pmm;
pub mod vmm;

use vstd::prelude::*;
use vstd::string::StringSliceAdditionalSpecFns;
use crate::fmtbuf::{clip, decimal, fmt_line, hex_prefixed, push_decimal, push_hex_prefixed, push_str};
use crate::memory::pmm::{
    EarlyPmmConfig, FrameAllocator, PmmView, available_ranges_ok, frame_range_spec, free_below, init_used,
    layout_used, lemma_free_below_update, lemma_free_below_zero, usable_sum, view_wf,
};
use crate::memory::heap::{EarlyHeap, EARLY_HEAP_CAPACITY, alloc_spec};
use crate::memory::layout::{MemoryLayout, MemorySpan, coalesced, layout_spec};
use crate::memory::vmm::{PhysAddr, VmmInitReport, VmmState, BOOT_IDENTITY_MAP_BYTES};
use crate::utils::{is_power_of_two, lemma_pow2_is_power_of_two, round_up};

verus! {

/// What memory initialization found and set up.
#[derive(Clone, Copy, Debug, PartialEq, Eq, Structural)]
pub struct MemoryInitReport {
    pub tracked_frames: usize,
    pub usable_frames: usize,
    pub used_frames: usize,
    pub free_frames: usize,
    pub heap_capacity_bytes: usize,
    pub heap_used_bytes: usize,
    pub heap_free_bytes: usize,
    pub page_size: usize,
    pub kernel_root_table: usize,
    pub identity_map_bytes: usize,
    pub pmm_from_mmap: bool,
    pub pmm_probe_ok: bool,
    pub heap_probe_ok: bool,
    pub vmm_probe_ok: bool,
}

/// The frame summary line, before it is cut to its buffer.
pub open spec fn frames_text(r: MemoryInitReport) -> Seq<u8> {
    "memory frames: tracked ".spec_bytes() + decimal(r.tracked_frames as nat) + " usable ".spec_bytes() + decimal(
        r.usable_frames as nat,
    ) + " used ".spec_bytes() + decimal(r.used_frames as nat) + " free ".spec_bytes() + decimal(
        r.free_frames as nat,
    )
}

/// The heap summary line, before it is cut to its buffer.
pub open spec fn heap_text(r: MemoryInitReport) -> Seq<u8> {
    "kernel heap: capacity ".spec_bytes() + decimal(r.heap_capacity_bytes as nat) + " used ".spec_bytes()
        + decimal(r.heap_used_bytes as nat) + " free ".spec_bytes() + decimal(r.heap_free_bytes as nat)
}

/// The address-space summary line, before it is cut to its buffer.
pub open spec fn vmm_text(r: MemoryInitReport) -> Seq<u8> {
    "vmm: root ".spec_bytes() + hex_prefixed(r.kernel_root_table as nat, 0) + " identity ".spec_bytes()
        + decimal(r.identity_map_bytes as nat) + " bytes".spec_bytes()
}

impl MemoryInitReport {
    pub fn label(self) -> (r: &'static str)
        ensures
            r@ == if self.pmm_from_mmap {
                "memory: pmm initialized from multiboot2 mmap"@
            } else {
                "memory: pmm initialized from early fallback config"@
            },
    {
        if self.pmm_from_mmap {
            "memory: pmm initialized from multiboot2 mmap"
        } else {
            "memory: pmm initialized from early fallback config"
        }
    }

    /// `memory frames: tracked .. usable .. used .. free ..`, cut to 96 bytes.
    pub fn frames_summary_line(self) -> (r: Vec<u8>)
        ensures
            r@ == clip(frames_text(self), 96),
    {
        let mut text: Vec<u8> = Vec::new();
        push_str(&mut text, "memory frames: tracked ");
        push_decimal(&mut text, self.tracked_frames as u64);
        push_str(&mut text, " usable ");
        push_decimal(&mut text, self.usable_frames as u64);
        push_str(&mut text, " used ");
        push_decimal(&mut text, self.used_frames as u64);
        push_str(&mut text, " free ");
        push_decimal(&mut text, self.free_frames as u64);
        fmt_line(96, text.as_slice())
    }

    /// `kernel heap: capacity .. used .. free ..`, cut to 80 bytes.
    pub fn heap_summary_line(self) -> (r: Vec<u8>)
        ensures
            r@ == clip(heap_text(self), 80),
    {
        let mut text: Vec<u8> = Vec::new();
        push_str(&mut text, "kernel heap: capacity ");
        push_decimal(&mut text, self.heap_capacity_bytes as u64);
        push_str(&mut text, " used ");
        push_decimal(&mut text, self.heap_used_bytes as u64);
        push_str(&mut text, " free ");
        push_decimal(&mut text, self.heap_free_bytes as u64);
        fmt_line(80, text.as_slice())
    }

    /// `vmm: root 0x.. identity .. bytes`, cut to 96 bytes.
    pub fn vmm_summary_line(self) -> (r: Vec<u8>)
        ensures
            r@ == clip(vmm_text(self), 96),
    {
        let mut text: Vec<u8> = Vec::new();
        push_str(&mut text, "vmm: root ");
        push_hex_prefixed(&mut text, self.kernel_root_table as u64, 0);
        push_str(&mut text, " identity ");
        push_decimal(&mut text, self.identity_map_bytes as u64);
        push_str(&mut text, " bytes");
        fmt_line(96, text.as_slice())
    }

    pub fn vmm_probe_label(self) -> (r: &'static str)
        ensures
            r@ == if self.vmm_probe_ok {
                "vmm: active kernel address space verified"@
            } else {
                "vmm: kernel address space probe failed"@
            },
    {
        if self.vmm_probe_ok {
            "vmm: active kernel address space verified"
        } else {
            "vmm: kernel address space probe failed"
        }
    }
}

/// The allocator state that initializing from a layout with available
/// regions `available` and reserved ranges `reserved` produces.
pub open spec fn from_layout_state(v: PmmView, available: Seq<MemorySpan>, reserved: Seq<MemorySpan>) -> bool {
    let total = frame_range_spec(available.last()).unwrap().1;
    &&& v.initialized
    &&& v.total_frames == total
    &&& v.usable_frames == usable_sum(available, available.len() as int)
    &&& forall|i: int| 0 <= i < pmm::MAX_FRAMES ==> #[trigger] v.used[i] == layout_used(available, reserved, total, i)
}

/// The allocator state of the fallback configuration.
pub open spec fn fallback_state(v: PmmView) -> bool {
    &&& v.initialized
    &&& v.total_frames == 16 * 1024
    &&& v.usable_frames == 16 * 1024
    &&& forall|i: int| 0 <= i < pmm::MAX_FRAMES ==> #[trigger] v.used[i] == init_used(16384int, 1024int, i)
}

/// Builds the layout from the boot information and initializes the frame
/// allocator from it.
fn try_init_pmm_from_boot_layout(pmm: &mut FrameAllocator, boot_info_ptr: usize, boot_memory: &[u8], kernel_image: MemorySpan) -> (r: Result<(), ()>)
    ensures
        (r is Err) ==> final(pmm)@ == old(pmm)@,
        old(pmm)@.initialized ==> r is Err,
        (r is Ok) ==> (layout_spec(boot_info_ptr, boot_memory@, kernel_image) matches Ok(p) && exists|out: Seq<MemorySpan>|
            coalesced(p.0, out) && available_ranges_ok(out) && from_layout_state(final(pmm)@, out, p.1)),
        (r is Err && !old(pmm)@.initialized) ==> (layout_spec(boot_info_ptr, boot_memory@, kernel_image) is Err
            || exists|out: Seq<MemorySpan>| coalesced(layout_spec(boot_info_ptr, boot_memory@, kernel_image)->Ok_0.0, out)
            && !available_ranges_ok(out)),
{
    let layout = match MemoryLayout::from_boot_info(boot_info_ptr, boot_memory, kernel_image) {
        Ok(l) => l,
        Err(_) => return Err(()),
    };
    match pmm::init_from_layout(pmm, &layout) {
        Ok(()) => Ok(()),
        Err(_) => Err(()),
    }
}

/// Allocates two frames and gives both back, the second first; true when
/// both allocations and both releases succeed. The allocator ends as it
/// began.
fn pmm_probe(pmm: &mut FrameAllocator) -> (r: bool)
    ensures
        final(pmm)@ == old(pmm)@,
        r == (old(pmm)@.initialized && free_below(old(pmm)@.used, old(pmm)@.total_frames as int) >= 2),
{
    let ghost v0 = pmm@;
    let frame_a = match pmm::alloc_frame(pmm) {
        Ok(frame) => frame,
        Err(_) => {
            proof {
                if v0.initialized {
                    lemma_free_below_zero(v0.used, v0.total_frames as int);
                }
            }
            return false;
        },
    };
    let ghost v1 = pmm@;
    proof {
        lemma_free_below_update(v0.used, frame_a@ as int, true, v0.total_frames as int);
    }
    let frame_b = match pmm::alloc_frame(pmm) {
        Ok(frame) => frame,
        Err(_) => {
            proof {
                lemma_free_below_zero(v1.used, v1.total_frames as int);
            }
            let _ = pmm::free_frame(pmm, frame_a);
            proof {
                assert(pmm@ =~= v0);
                assert(pmm@.used =~= v0.used);
            }
            return false;
        },
    };
    proof {
        lemma_free_below_update(v1.used, frame_b@ as int, true, v1.total_frames as int);
        lemma_free_below_zero(v1.used, v1.total_frames as int);
    }
    let freed_b = pmm::free_frame(pmm, frame_b);
    proof {
        assert(pmm@.used =~= v1.used);
        assert(pmm@ =~= v1);
    }
    let freed_a = pmm::free_frame(pmm, frame_a);
    proof {
        assert(pmm@.used =~= v0.used);
        assert(pmm@ =~= v0);
    }
    freed_b.is_ok() && freed_a.is_ok()
}

/// `offset` is a multiple of `align`.
fn is_aligned(offset: usize, align: usize) -> (r: bool)
    requires
        align > 0,
    ensures
        r == (offset % align == 0),
{
    offset % align == 0
}

proof fn lemma_round_up_aligned(x: int, a: int)
    requires
        a > 0,
        x >= 0,
    ensures
        round_up(x, a) % a == 0,
        round_up(x, a) >= x,
{
    vstd::arithmetic::div_mod::lemma_mod_multiples_basic((x + a - 1) / a, a);
    vstd::arithmetic::div_mod::lemma_fundamental_div_mod(x + a - 1, a);
    vstd::arithmetic::div_mod::lemma_mod_pos_bound(x + a - 1, a);
    assert(round_up(x, a) == ((x + a - 1) / a) * a);
    assert(((x + a - 1) / a) * a == a * ((x + a - 1) / a)) by (nonlinear_arith);
}

proof fn lemma_probe_aligns()
    ensures
        is_power_of_two(8),
        is_power_of_two(16),
{
    vstd::arithmetic::power2::lemma2_to64();
    lemma_pow2_is_power_of_two(8, 3);
    lemma_pow2_is_power_of_two(16, 4);
}

/// Allocates 32 bytes aligned to 8 and 64 zeroed bytes aligned to 16, and
/// checks alignment and zeroing; true when all of it holds.
fn heap_probe(heap: &mut EarlyHeap) -> (r: bool)
    ensures
        r == (old(heap)@.initialized && alloc_spec(old(heap)@.next_offset as int, 32, 8) is Ok && alloc_spec(
            alloc_spec(old(heap)@.next_offset as int, 32, 8)->Ok_0 + 32,
            64,
            16,
        ) is Ok),
        final(heap)@.initialized == old(heap)@.initialized,
        r ==> final(heap)@.next_offset == alloc_spec(alloc_spec(old(heap)@.next_offset as int, 32, 8)->Ok_0 + 32, 64, 16)->Ok_0 + 64,
        !r ==> final(heap)@.next_offset == old(heap)@.next_offset || final(heap)@.next_offset == alloc_spec(old(heap)@.next_offset as int, 32, 8)->Ok_0 + 32,
{
    proof {
        lemma_probe_aligns();
    }
    let block_a = match heap::allocate(heap, 32, 8) {
        Ok(offset) => offset,
        Err(_) => return false,
    };
    let block_b = match heap::alloc_zeroed(heap, 64, 16) {
        Ok(offset) => offset,
        Err(_) => return false,
    };
    proof {
        lemma_round_up_aligned(old(heap)@.next_offset as int, 8);
        lemma_round_up_aligned(block_a + 32, 16);
    }
    if !is_aligned(block_a, 8) {
        return false;
    }
    if !is_aligned(block_b, 16) {
        return false;
    }
    let mut i: usize = 0;
    while i < 64
        invariant
            i <= 64,
            block_b + 64 <= heap@.arena.len(),
            heap@.arena.len() == EARLY_HEAP_CAPACITY,
            forall|j: int| block_b <= j < block_b + 64 ==> #[trigger] heap@.arena[j] == 0,
        decreases 64 - i,
    {
        if heap.byte_at(block_b + i) != 0 {
            return false;
        }
        i = i + 1;
    }
    true
}

/// Checks the kernel address space against the report of its setup, and,
/// when there is boot information, that its address is identity mapped.
fn vmm_probe(vmm: &VmmState, boot_info_ptr: usize, vmm_report: VmmInitReport) -> (r: bool)
    ensures
        r == (vmm.is_initialized() && PhysAddr(vmm.root()) == vmm_report.kernel_root_table
            && vmm_report.identity_map_bytes == BOOT_IDENTITY_MAP_BYTES && (boot_info_ptr == 0
            || boot_info_ptr < BOOT_IDENTITY_MAP_BYTES)),
{
    let s = match vmm::kernel_address_space(vmm) {
        Ok(space) => space,
        Err(_) => return false,
    };
    if s.root_table() != vmm_report.kernel_root_table {
        return false;
    }
    if s.identity_map_bytes() != vmm_report.identity_map_bytes {
        return false;
    }
    if boot_info_ptr == 0 {
        return true;
    }
    match vmm::identity_map_addr(vmm, PhysAddr(boot_info_ptr)) {
        Ok(va) => va.0 == boot_info_ptr,
        Err(_) => false,
    }
}

/// The memory managers of the kernel.
pub struct KernelMemory {
    pub pmm: FrameAllocator,
    pub vmm: VmmState,
    pub heap: EarlyHeap,
}

impl KernelMemory {
    /// All three managers, none initialized.
    pub fn new() -> (r: Self)
        ensures
            !r.pmm@.initialized,
            !r.vmm.is_initialized(),
            !r.heap@.initialized,
            r.heap@.next_offset == 0,
    {
        KernelMemory { pmm: FrameAllocator::new(), vmm: VmmState::new(), heap: EarlyHeap::new() }
    }
}

/// Brings up frame allocation (from the boot memory map, else from the
/// fallback configuration), the kernel address space (rooted at `cr3`) and
/// the early heap, probes each, and reports.
pub fn init(mem: &mut KernelMemory, boot_info_ptr: usize, boot_memory: &[u8], kernel_image: MemorySpan, cr3: usize) -> (r:
    MemoryInitReport)
    requires
        !old(mem).heap@.initialized,
        old(mem).heap@.next_offset == 0,
    ensures
        r.pmm_from_mmap ==> !old(mem).pmm@.initialized && (layout_spec(boot_info_ptr, boot_memory@, kernel_image) matches Ok(p)
            && exists|out: Seq<MemorySpan>| coalesced(p.0, out) && available_ranges_ok(out) && from_layout_state(
            final(mem).pmm@,
            out,
            p.1,
        )),
        old(mem).pmm@.initialized ==> !r.pmm_from_mmap && final(mem).pmm@ == old(mem).pmm@,
        !old(mem).pmm@.initialized && !r.pmm_from_mmap ==> fallback_state(final(mem).pmm@),
        (!old(mem).pmm@.initialized && !r.pmm_from_mmap) ==> (layout_spec(boot_info_ptr, boot_memory@, kernel_image) is Err
            || exists|out: Seq<MemorySpan>| coalesced(layout_spec(boot_info_ptr, boot_memory@, kernel_image)->Ok_0.0, out)
            && !available_ranges_ok(out)),
        view_wf(final(mem).pmm@),
        r.pmm_probe_ok == (free_below(final(mem).pmm@.used, final(mem).pmm@.total_frames as int) >= 2),
        r.tracked_frames == final(mem).pmm@.total_frames,
        r.usable_frames == final(mem).pmm@.usable_frames,
        r.free_frames == free_below(final(mem).pmm@.used, final(mem).pmm@.total_frames as int),
        r.used_frames == if r.usable_frames >= r.free_frames { r.usable_frames - r.free_frames } else { 0 },
        final(mem).vmm.is_initialized(),
        final(mem).vmm.root() == cr3,
        r.page_size == pmm::PAGE_SIZE,
        r.kernel_root_table == cr3,
        r.identity_map_bytes == BOOT_IDENTITY_MAP_BYTES,
        r.vmm_probe_ok == (boot_info_ptr == 0 || boot_info_ptr < BOOT_IDENTITY_MAP_BYTES),
        final(mem).heap@.initialized,
        r.heap_probe_ok,
        r.heap_capacity_bytes == EARLY_HEAP_CAPACITY,
        r.heap_used_bytes == 96,
        r.heap_free_bytes == EARLY_HEAP_CAPACITY - 96,
{
    let pmm_from_mmap = try_init_pmm_from_boot_layout(&mut mem.pmm, boot_info_ptr, boot_memory, kernel_image).is_ok();
    if !pmm_from_mmap {
        let _ = pmm::init(&mut mem.pmm, EarlyPmmConfig::default());
    }
    let pmm_probe_ok = pmm_probe(&mut mem.pmm);
    let pmm_stats = pmm::stats(&mem.pmm).unwrap();
    let vmm_report = vmm::init(&mut mem.vmm, cr3);
    let vmm_probe_ok = vmm_probe(&mem.vmm, boot_info_ptr, vmm_report);
    heap::init(&mut mem.heap).unwrap();
    proof {
        lemma_probe_aligns();
        lemma_round_up_aligned(0, 8);
        lemma_round_up_aligned(32, 16);
        assert(round_up(0, 8) == 0);
        assert(round_up(32, 16) == 32);
    }
    let heap_probe_ok = heap_probe(&mut mem.heap);
    let heap_stats = heap::stats(&mem.heap).unwrap();
    MemoryInitReport {
        tracked_frames: pmm_stats.tracked_frames,
        usable_frames: pmm_stats.usable_frames,
        used_frames: pmm_stats.used_frames,
        free_frames: pmm_stats.free_frames,
        heap_capacity_bytes: heap_stats.capacity_bytes,
        heap_used_bytes: heap_stats.used_bytes,
        heap_free_bytes: heap_stats.free_bytes,
        page_size: vmm_report.page_size,
        kernel_root_table: vmm_report.kernel_root_table.0,
        identity_map_bytes: vmm_report.identity_map_bytes,
        pmm_from_mmap,
        pmm_probe_ok,
        heap_probe_ok,
        vmm_probe_ok,
    }
}

} // verus!
