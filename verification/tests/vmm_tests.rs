use kernel::memory::pmm::{PhysFrame, PAGE_SIZE};
use kernel::memory::vmm::{
    identity_map_addr, init, kernel_address_space, map_pages, unmap_pages, MapFlags, MappingRequest, Page,
    PageCount, PageRange, PhysAddr, VirtAddr, VmmError, VmmInitReport, VmmState, BOOT_IDENTITY_MAP_BYTES,
};

#[test]
fn address_helpers() {
    assert!(PhysAddr(0x2000).is_page_aligned());
    assert!(!PhysAddr(0x2001).is_page_aligned());
    assert!(VirtAddr(0).is_page_aligned());
    assert_eq!(VirtAddr(0x1000).checked_add_pages(PageCount(2)), Some(VirtAddr(0x3000)));
    assert_eq!(VirtAddr(usize::MAX - 0xfff).checked_add_pages(PageCount(1)), None);
    assert_eq!(VirtAddr(0).checked_add_pages(PageCount(usize::MAX)), None);
    assert!(PageCount(0).is_zero());
    assert!(!PageCount(1).is_zero());
}

#[test]
fn pages_and_ranges() {
    assert_eq!(Page::from_addr(VirtAddr(0x5000)).unwrap().start_addr(), VirtAddr(0x5000));
    assert_eq!(Page::from_addr(VirtAddr(0x5008)), Err(VmmError::InvalidAddress));
    let r = PageRange::new(VirtAddr(0x4000), PageCount(3)).unwrap();
    assert_eq!(r.start_addr(), VirtAddr(0x4000));
    assert_eq!(r.page_count(), PageCount(3));
    assert_eq!(PageRange::new(VirtAddr(0x4000), PageCount(0)), Err(VmmError::InvalidLength));
    assert_eq!(PageRange::new(VirtAddr(0x4001), PageCount(1)), Err(VmmError::InvalidAddress));
    assert_eq!(PageRange::new(VirtAddr(usize::MAX - 0xfff), PageCount(1)), Err(VmmError::InvalidLength));
}

#[test]
fn flags() {
    let f = MapFlags::present().union(MapFlags::writable());
    assert_eq!(f.bits(), 3);
    assert_eq!(MapFlags::from_bits(0xc).bits(), MapFlags::user().union(MapFlags::no_exec()).bits());
}

#[test]
fn mapping_requests() {
    let frame = PhysFrame::from_addr(0x10000).unwrap();
    let req = MappingRequest::new(VirtAddr(0x400000), frame, PageCount(2), MapFlags::present()).unwrap();
    assert_eq!(req.virt_start, VirtAddr(0x400000));
    assert_eq!(req.pages, PageCount(2));
    assert_eq!(
        MappingRequest::new(VirtAddr(0x400001), frame, PageCount(2), MapFlags::present()),
        Err(VmmError::InvalidAddress)
    );
    assert_eq!(
        MappingRequest::new(VirtAddr(0), frame, PageCount(usize::MAX / PAGE_SIZE), MapFlags::present()),
        Err(VmmError::InvalidLength)
    );
}

#[test]
fn kernel_space_before_and_after_init() {
    let mut vmm = VmmState::new();
    assert_eq!(kernel_address_space(&vmm), Err(VmmError::NotInitialized));
    assert_eq!(identity_map_addr(&vmm, PhysAddr(0x1000)), Err(VmmError::NotInitialized));
    let report = init(&mut vmm, 0x9000);
    assert_eq!(
        report,
        VmmInitReport { page_size: PAGE_SIZE, kernel_root_table: PhysAddr(0x9000), identity_map_bytes: BOOT_IDENTITY_MAP_BYTES }
    );
    assert_eq!(report.label(), "memory: vmm initialized from boot paging state");
    let s = kernel_address_space(&vmm).unwrap();
    assert_eq!(s.root_table(), PhysAddr(0x9000));
    assert_eq!(s.identity_map_bytes(), BOOT_IDENTITY_MAP_BYTES);
    assert!(s.is_identity_mapped(VirtAddr(0x1000)));
    assert!(!s.is_identity_mapped(VirtAddr(BOOT_IDENTITY_MAP_BYTES)));
    assert_eq!(identity_map_addr(&vmm, PhysAddr(0x1234)), Ok(VirtAddr(0x1234)));
    assert_eq!(identity_map_addr(&vmm, PhysAddr(BOOT_IDENTITY_MAP_BYTES)), Err(VmmError::Unsupported));
}

#[test]
fn map_and_unmap_are_refused() {
    let frame = PhysFrame::from_addr(0x10000).unwrap();
    let mut vmm = VmmState::new();
    assert_eq!(map_pages(&vmm, VirtAddr(0x400000), frame, PageCount(1), MapFlags::present()), Err(VmmError::NotInitialized));
    assert_eq!(unmap_pages(&vmm, VirtAddr(0x400000), PageCount(1)), Err(VmmError::NotInitialized));
    init(&mut vmm, 0x9000);
    assert_eq!(map_pages(&vmm, VirtAddr(0x400000), frame, PageCount(1), MapFlags::present()), Err(VmmError::Unsupported));
    assert_eq!(map_pages(&vmm, VirtAddr(0x400000), frame, PageCount(0), MapFlags::present()), Err(VmmError::InvalidLength));
    assert_eq!(unmap_pages(&vmm, VirtAddr(0x400000), PageCount(1)), Err(VmmError::Unsupported));
    assert_eq!(unmap_pages(&vmm, VirtAddr(0x400010), PageCount(1)), Err(VmmError::InvalidAddress));
}
