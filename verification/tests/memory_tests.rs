use kernel::memory::heap::EARLY_HEAP_CAPACITY;
use kernel::memory::layout::{MemoryLayout, MemorySpan};
use kernel::memory::pmm::{alloc_frame, init_from_layout, stats, FrameAllocator, PmmError, PmmStats, PAGE_SIZE};
use kernel::memory::vmm::BOOT_IDENTITY_MAP_BYTES;
use kernel::memory::{init, KernelMemory, MemoryInitReport};

fn tag(typ: u32, payload: &[u8]) -> Vec<u8> {
    let mut t = Vec::new();
    t.extend_from_slice(&typ.to_le_bytes());
    t.extend_from_slice(&((8 + payload.len()) as u32).to_le_bytes());
    t.extend_from_slice(payload);
    while t.len() % 8 != 0 {
        t.push(0);
    }
    t
}

fn mmap_image(entries: &[(u64, u64, u32)]) -> Vec<u8> {
    let mut p = Vec::new();
    p.extend_from_slice(&24u32.to_le_bytes());
    p.extend_from_slice(&0u32.to_le_bytes());
    for &(base, len, typ) in entries {
        p.extend_from_slice(&base.to_le_bytes());
        p.extend_from_slice(&len.to_le_bytes());
        p.extend_from_slice(&typ.to_le_bytes());
        p.extend_from_slice(&0u32.to_le_bytes());
    }
    let mut body = tag(6, &p);
    body.extend_from_slice(&tag(0, &[]));
    let mut img = ((8 + body.len()) as u32).to_le_bytes().to_vec();
    img.extend_from_slice(&0u32.to_le_bytes());
    img.extend_from_slice(&body);
    img
}

fn report() -> MemoryInitReport {
    MemoryInitReport {
        tracked_frames: 16384,
        usable_frames: 16384,
        used_frames: 1024,
        free_frames: 15360,
        heap_capacity_bytes: 131072,
        heap_used_bytes: 96,
        heap_free_bytes: 130976,
        page_size: 4096,
        kernel_root_table: 0x1000,
        identity_map_bytes: 1073741824,
        pmm_from_mmap: false,
        pmm_probe_ok: true,
        heap_probe_ok: true,
        vmm_probe_ok: true,
    }
}

#[test]
fn report_lines() {
    let r = report();
    assert_eq!(r.label(), "memory: pmm initialized from early fallback config");
    assert_eq!(MemoryInitReport { pmm_from_mmap: true, ..r }.label(), "memory: pmm initialized from multiboot2 mmap");
    assert_eq!(r.frames_summary_line(), b"memory frames: tracked 16384 usable 16384 used 1024 free 15360".to_vec());
    assert_eq!(r.heap_summary_line(), b"kernel heap: capacity 131072 used 96 free 130976".to_vec());
    assert_eq!(r.vmm_summary_line(), b"vmm: root 0x1000 identity 1073741824 bytes".to_vec());
    assert_eq!(r.vmm_probe_label(), "vmm: active kernel address space verified");
    assert_eq!(MemoryInitReport { vmm_probe_ok: false, ..r }.vmm_probe_label(), "vmm: kernel address space probe failed");
}

#[test]
fn long_lines_are_cut() {
    let r = MemoryInitReport {
        tracked_frames: usize::MAX,
        usable_frames: usize::MAX,
        used_frames: usize::MAX,
        free_frames: usize::MAX,
        heap_capacity_bytes: usize::MAX,
        heap_used_bytes: usize::MAX,
        heap_free_bytes: usize::MAX,
        ..report()
    };
    let full = format!("memory frames: tracked {} usable {} used {} free {}", usize::MAX, usize::MAX, usize::MAX, usize::MAX);
    assert_eq!(r.frames_summary_line(), full.as_bytes()[..96].to_vec());
    let heap = format!("kernel heap: capacity {} used {} free {}", usize::MAX, usize::MAX, usize::MAX);
    assert_eq!(r.heap_summary_line(), heap.as_bytes()[..80].to_vec());
}

#[test]
fn init_without_boot_info_uses_fallback() {
    let mut mem = KernelMemory::new();
    let r = init(&mut mem, 0, &[], MemorySpan::new(0x100000, 0x10000), 0x1000);
    assert_eq!(r, report());
}

#[test]
fn init_from_boot_memory_map() {
    let img = mmap_image(&[(0, 0x9fc00, 1), (0x100000, 0x700000, 1)]);
    let mut mem = KernelMemory::new();
    let r = init(&mut mem, 0x8000, &img, MemorySpan::new(0x100000, 0x80000), 0x2000);
    assert!(r.pmm_from_mmap);
    assert!(r.pmm_probe_ok);
    assert!(r.vmm_probe_ok);
    assert_eq!(r.tracked_frames, 0x800);
    assert_eq!(r.usable_frames, 0x9f + 0x700);
    assert_eq!(r.kernel_root_table, 0x2000);
    assert_eq!(r.identity_map_bytes, BOOT_IDENTITY_MAP_BYTES);
    assert_eq!(r.heap_used_bytes, 96);
    assert_eq!(r.heap_capacity_bytes, EARLY_HEAP_CAPACITY);
    assert_eq!(r.free_frames + r.used_frames, r.usable_frames);
}

#[test]
fn init_with_high_boot_info_fails_vmm_probe() {
    let mut mem = KernelMemory::new();
    let r = init(&mut mem, BOOT_IDENTITY_MAP_BYTES, &[], MemorySpan::new(0, 0), 0x3000);
    assert!(!r.vmm_probe_ok);
    assert!(!r.pmm_from_mmap);
}

#[test]
fn pmm_from_layout() {
    let img = mmap_image(&[(0x1000, 0x3000, 1), (0x8000, 0x2000, 1)]);
    let layout = MemoryLayout::from_boot_info(0x100000, &img, MemorySpan::new(0x2000, 0x1000)).unwrap();
    let mut pmm = FrameAllocator::new();
    assert_eq!(init_from_layout(&mut pmm, &layout), Ok(()));
    assert_eq!(init_from_layout(&mut pmm, &layout), Err(PmmError::AlreadyInitialized));
    // frames 1..4 and 8..10 available; 0..256 reserved as low memory (cut to 10)
    assert_eq!(stats(&pmm), Ok(PmmStats { tracked_frames: 10, usable_frames: 5, used_frames: 5, free_frames: 0 }));
    assert_eq!(alloc_frame(&mut pmm), Err(PmmError::OutOfMemory));
    let _ = PAGE_SIZE;
}

#[test]
fn pmm_from_layout_rejects_unusable_region() {
    let img = mmap_image(&[(0x1001, 0x100, 1)]);
    let layout = MemoryLayout::from_boot_info(0x100000, &img, MemorySpan::new(0, 0)).unwrap();
    let mut pmm = FrameAllocator::new();
    assert_eq!(init_from_layout(&mut pmm, &layout), Err(PmmError::InvalidConfig));
}

#[test]
fn boot_screen_rows_with_probe_ok_and_failed() {
    let r = report();
    let lines = kernel::kmain::boot_screen_lines("kernel", "cpu: ok", r, "boot: multiboot2", "boot info: mmap tag found");
    let rows: Vec<usize> = lines.iter().map(|l| l.0).collect();
    assert_eq!(rows, vec![0, 1, 3, 4, 5, 6, 8, 9]);
    assert_eq!(lines[0].1, b"kernel".to_vec());
    assert_eq!(lines[2].1, b"memory: pmm initialized from early fallback config".to_vec());
    assert_eq!(lines[3].1, r.frames_summary_line());
    assert_eq!(lines[7].1, b"boot info: mmap tag found".to_vec());

    let failed = MemoryInitReport { vmm_probe_ok: false, ..r };
    let lines = kernel::kmain::boot_screen_lines("kernel", "cpu: ok", failed, "boot: multiboot2", "boot info: mmap tag found");
    let rows: Vec<usize> = lines.iter().map(|l| l.0).collect();
    assert_eq!(rows, vec![0, 1, 3, 4, 5, 6, 7, 9, 10]);
    assert_eq!(lines[6].1, b"vmm: kernel address space probe failed".to_vec());
    assert_eq!(lines[8].1, b"boot info: mmap tag found".to_vec());
}
