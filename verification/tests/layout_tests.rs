use kernel::boot::multiboot2::BootInfoError;
use kernel::memory::layout::{LayoutError, MemoryLayout, MemorySpan, LOW_MEMORY_RESERVE};

fn tag(typ: u32, payload: &[u8]) -> Vec<u8> {
    let mut t = Vec::new();
    t.extend_from_slice(&typ.to_le_bytes());
    t.extend_from_slice(&((8 + payload.len()) as u32).to_le_bytes());
    t.extend_from_slice(payload);
    while t.len() % 8 != 0 {
        t.push(0);
    }
    t
}

fn mmap_image(entries: &[(u64, u64, u32)]) -> Vec<u8> {
    let mut p = Vec::new();
    p.extend_from_slice(&24u32.to_le_bytes());
    p.extend_from_slice(&0u32.to_le_bytes());
    for &(base, len, typ) in entries {
        p.extend_from_slice(&base.to_le_bytes());
        p.extend_from_slice(&len.to_le_bytes());
        p.extend_from_slice(&typ.to_le_bytes());
        p.extend_from_slice(&0u32.to_le_bytes());
    }
    let mut body = tag(6, &p);
    body.extend_from_slice(&tag(0, &[]));
    let mut img = ((8 + body.len()) as u32).to_le_bytes().to_vec();
    img.extend_from_slice(&0u32.to_le_bytes());
    img.extend_from_slice(&body);
    img
}

#[test]
fn memory_span_basics() {
    let s = MemorySpan::new(0x1000, 0x2000);
    assert_eq!(s.end_addr(), 0x3000);
    assert_eq!(MemorySpan::new(usize::MAX - 1, 10).end_addr(), usize::MAX);
}

#[test]
fn regions_are_sorted_and_merged() {
    let img = mmap_image(&[
        (0x100000, 0x700000, 1),
        (0, 0x9fc00, 1),
        (0x9fc00, 0x400, 2),
        (0x200000, 0x100000, 1),
        (0x800000, 0x1000, 1),
        (0x900000, 0, 1),
    ]);
    let kernel = MemorySpan::new(0x100000, 0x80000);
    let layout = MemoryLayout::from_boot_info(0x10000, &img, kernel).unwrap();
    assert_eq!(
        layout.available_regions(),
        &[MemorySpan::new(0, 0x9fc00), MemorySpan::new(0x100000, 0x701000)][..]
    );
    assert_eq!(
        layout.reserved_ranges(),
        &[MemorySpan::new(0, LOW_MEMORY_RESERVE), kernel, MemorySpan::new(0x10000, img.len())][..]
    );
}

#[test]
fn empty_kernel_image_is_not_reserved() {
    let img = mmap_image(&[(0x100000, 0x100000, 1)]);
    let layout = MemoryLayout::from_boot_info(0x10000, &img, MemorySpan::new(0x200000, 0)).unwrap();
    assert_eq!(
        layout.reserved_ranges(),
        &[MemorySpan::new(0, LOW_MEMORY_RESERVE), MemorySpan::new(0x10000, img.len())][..]
    );
}

#[test]
fn layout_errors() {
    let kernel = MemorySpan::new(0x100000, 0x1000);
    assert_eq!(
        MemoryLayout::from_boot_info(0, &[], kernel).err(),
        Some(LayoutError::BootInfo(BootInfoError::NullPointer))
    );
    assert_eq!(LayoutError::from(BootInfoError::InvalidSize), LayoutError::BootInfo(BootInfoError::InvalidSize));
    let mut no_map = 16u32.to_le_bytes().to_vec();
    no_map.extend_from_slice(&[0, 0, 0, 0, 0, 0, 0, 0, 8, 0, 0, 0]);
    assert_eq!(MemoryLayout::from_boot_info(8, &no_map, kernel).err(), Some(LayoutError::MissingMemoryMap));
    let img = mmap_image(&[(0, 0x1000, 2), (0x1000, 0, 1)]);
    assert_eq!(MemoryLayout::from_boot_info(8, &img, kernel).err(), Some(LayoutError::NoAvailableMemory));
    let many: Vec<(u64, u64, u32)> = (0..65).map(|i| (i * 0x10000, 0x1000, 1)).collect();
    let img = mmap_image(&many);
    assert_eq!(MemoryLayout::from_boot_info(8, &img, kernel).err(), Some(LayoutError::TooManyAvailableRegions));
    let ok: Vec<(u64, u64, u32)> = (0..64).map(|i| (i * 0x10000, 0x1000, 1)).collect();
    let img = mmap_image(&ok);
    assert_eq!(MemoryLayout::from_boot_info(8, &img, kernel).unwrap().available_regions().len(), 64);
}

#[test]
fn merged_regions_are_disjoint_and_ordered() {
    let img = mmap_image(&[
        (0x500000, 0x1000, 1),
        (0x100000, 0x2000, 1),
        (0x101000, 0x3000, 1),
        (0x300000, 0x1000, 1),
        (0x104000, 0x1000, 1),
    ]);
    let layout = MemoryLayout::from_boot_info(8, &img, MemorySpan::new(0, 0)).unwrap();
    let r = layout.available_regions();
    assert_eq!(r, &[MemorySpan::new(0x100000, 0x5000), MemorySpan::new(0x300000, 0x1000), MemorySpan::new(0x500000, 0x1000)][..]);
    for w in r.windows(2) {
        assert!(w[0].end_addr() < w[1].start_addr);
    }
}

#[test]
fn one_region_at_the_top_address_stays_non_empty() {
    let top = usize::MAX as u64;
    let img = mmap_image(&[(0, 0x9fc00, 1), (top, 0x1000, 1)]);
    let layout = MemoryLayout::from_boot_info(0x10000, &img, MemorySpan::new(0x100000, 0x1000)).unwrap();
    assert_eq!(
        layout.available_regions(),
        &[MemorySpan::new(0, 0x9fc00), MemorySpan::new(usize::MAX, 0x1000)][..]
    );
}

#[test]
fn two_regions_at_the_top_address_merge_to_length_zero() {
    let top = usize::MAX as u64;
    let img = mmap_image(&[(top, 0x1000, 1), (top, 0x2000, 1)]);
    let layout = MemoryLayout::from_boot_info(0x10000, &img, MemorySpan::new(0x100000, 0x1000)).unwrap();
    assert_eq!(layout.available_regions(), &[MemorySpan::new(usize::MAX, 0)][..]);
}

#[test]
fn merged_region_at_the_top_gets_exact_length() {
    let top = usize::MAX as u64;
    let img = mmap_image(&[(top - 0xfff, 0x3000, 1), (top - 0x7ff, 0x800, 1)]);
    let layout = MemoryLayout::from_boot_info(0x10000, &img, MemorySpan::new(0x100000, 0x1000)).unwrap();
    assert_eq!(layout.available_regions(), &[MemorySpan::new(usize::MAX - 0xfff, 0xfff)][..]);
}
