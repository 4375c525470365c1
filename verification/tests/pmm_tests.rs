use kernel::memory::pmm::{
    alloc_frame, free_frame, init, stats, EarlyPmmConfig, FrameAllocator, PhysFrame, PmmError, PmmStats,
    MAX_FRAMES, PAGE_SIZE,
};

fn small(total: usize, reserved: usize) -> FrameAllocator {
    let mut pmm = FrameAllocator::new();
    assert_eq!(init(&mut pmm, EarlyPmmConfig { total_frames: total, reserved_frames: reserved }), Ok(()));
    pmm
}

#[test]
fn phys_frame_addresses() {
    assert_eq!(PhysFrame::from_addr(0).map(|f| f.addr()), Some(0));
    assert_eq!(PhysFrame::from_addr(0x5000).map(|f| f.addr()), Some(0x5000));
    assert_eq!(PhysFrame::from_addr(0x5001), None);
    assert_eq!(PhysFrame::from_addr(MAX_FRAMES * PAGE_SIZE), None);
    assert_eq!(
        PhysFrame::from_addr((MAX_FRAMES - 1) * PAGE_SIZE).map(|f| f.addr()),
        Some((MAX_FRAMES - 1) * PAGE_SIZE)
    );
}

#[test]
fn default_config() {
    let c = EarlyPmmConfig::default();
    assert_eq!(c, EarlyPmmConfig { total_frames: 16 * 1024, reserved_frames: 1024 });
}

#[test]
fn uninitialized_allocator_refuses() {
    let mut pmm = FrameAllocator::new();
    assert_eq!(alloc_frame(&mut pmm), Err(PmmError::NotInitialized));
    assert_eq!(stats(&pmm), Err(PmmError::NotInitialized));
    let f = PhysFrame::from_addr(0).unwrap();
    assert_eq!(free_frame(&mut pmm, f), Err(PmmError::NotInitialized));
}

#[test]
fn init_rejects_bad_config_and_second_init() {
    let mut pmm = FrameAllocator::new();
    assert_eq!(init(&mut pmm, EarlyPmmConfig { total_frames: 0, reserved_frames: 0 }), Err(PmmError::InvalidConfig));
    assert_eq!(
        init(&mut pmm, EarlyPmmConfig { total_frames: MAX_FRAMES + 1, reserved_frames: 0 }),
        Err(PmmError::InvalidConfig)
    );
    assert_eq!(init(&mut pmm, EarlyPmmConfig { total_frames: 10, reserved_frames: 11 }), Err(PmmError::InvalidConfig));
    assert_eq!(init(&mut pmm, EarlyPmmConfig { total_frames: 10, reserved_frames: 2 }), Ok(()));
    assert_eq!(init(&mut pmm, EarlyPmmConfig { total_frames: 10, reserved_frames: 2 }), Err(PmmError::AlreadyInitialized));
}

#[test]
fn small_pool_allocates_lowest_first() {
    let mut pmm = small(10, 2);
    assert_eq!(stats(&pmm), Ok(PmmStats { tracked_frames: 10, usable_frames: 10, used_frames: 2, free_frames: 8 }));
    let a = alloc_frame(&mut pmm).unwrap();
    let b = alloc_frame(&mut pmm).unwrap();
    assert_eq!(a.addr(), 2 * PAGE_SIZE);
    assert_eq!(b.addr(), 3 * PAGE_SIZE);
    assert_eq!(stats(&pmm).unwrap().free_frames, 6);
    assert_eq!(free_frame(&mut pmm, a), Ok(()));
    assert_eq!(alloc_frame(&mut pmm).unwrap().addr(), 2 * PAGE_SIZE);
}

#[test]
fn free_then_alloc_round_trip() {
    let mut pmm = small(100, 5);
    let before = stats(&pmm).unwrap();
    let f = alloc_frame(&mut pmm).unwrap();
    assert_eq!(stats(&pmm).unwrap().free_frames, before.free_frames - 1);
    assert_eq!(free_frame(&mut pmm, f), Ok(()));
    assert_eq!(stats(&pmm).unwrap(), before);
}

#[test]
fn double_free_and_out_of_range() {
    let mut pmm = small(10, 2);
    let f = alloc_frame(&mut pmm).unwrap();
    assert_eq!(free_frame(&mut pmm, f), Ok(()));
    assert_eq!(free_frame(&mut pmm, f), Err(PmmError::DoubleFree));
    let far = PhysFrame::from_addr(10 * PAGE_SIZE).unwrap();
    assert_eq!(free_frame(&mut pmm, far), Err(PmmError::OutOfRange));
    let reserved = PhysFrame::from_addr(0).unwrap();
    assert_eq!(free_frame(&mut pmm, reserved), Ok(()));
}

#[test]
fn exhaustion_reports_out_of_memory() {
    let mut pmm = small(3, 0);
    assert!(alloc_frame(&mut pmm).is_ok());
    assert!(alloc_frame(&mut pmm).is_ok());
    assert!(alloc_frame(&mut pmm).is_ok());
    assert_eq!(alloc_frame(&mut pmm), Err(PmmError::OutOfMemory));
    assert_eq!(stats(&pmm), Ok(PmmStats { tracked_frames: 3, usable_frames: 3, used_frames: 3, free_frames: 0 }));
}

#[test]
fn fallback_pool_keeps_whole_word_ranges_in_use() {
    // Ranges whose end is a multiple of 64 frames leave out their last word:
    // frames 960..1024 are not reserved and 16320..16384 are not freed.
    let mut pmm = FrameAllocator::new();
    assert_eq!(init(&mut pmm, EarlyPmmConfig::default()), Ok(()));
    assert_eq!(
        stats(&pmm),
        Ok(PmmStats { tracked_frames: 16384, usable_frames: 16384, used_frames: 1024, free_frames: 15360 })
    );
    assert_eq!(alloc_frame(&mut pmm).unwrap().addr(), 960 * PAGE_SIZE);
}

#[test]
fn single_word_range_ending_on_boundary_is_left_alone() {
    let mut pmm = small(128, 64);
    // reserving 0..64 touches nothing; freeing 0..128 frees 0..64 only
    let s = stats(&pmm).unwrap();
    assert_eq!(s.free_frames, 64);
    assert_eq!(alloc_frame(&mut pmm).unwrap().addr(), 0);
}
