use kernel::memory::heap::{alloc_zeroed, allocate, init, stats, EarlyHeap, HeapError, HeapStats, EARLY_HEAP_CAPACITY};

fn ready() -> EarlyHeap {
    let mut heap = EarlyHeap::new();
    assert_eq!(init(&mut heap), Ok(()));
    heap
}

#[test]
fn heap_needs_init_once() {
    let mut heap = EarlyHeap::new();
    assert_eq!(allocate(&mut heap, 8, 8), Err(HeapError::NotInitialized));
    assert_eq!(stats(&heap), Err(HeapError::NotInitialized));
    assert_eq!(init(&mut heap), Ok(()));
    assert_eq!(init(&mut heap), Err(HeapError::AlreadyInitialized));
}

#[test]
fn blocks_are_aligned_and_in_order() {
    let mut heap = ready();
    assert_eq!(allocate(&mut heap, 3, 1), Ok(0));
    assert_eq!(allocate(&mut heap, 8, 8), Ok(8));
    assert_eq!(allocate(&mut heap, 1, 64), Ok(64));
    assert_eq!(allocate(&mut heap, 0, 16), Ok(80));
    assert_eq!(
        stats(&heap),
        Ok(HeapStats { capacity_bytes: EARLY_HEAP_CAPACITY, used_bytes: 80, free_bytes: EARLY_HEAP_CAPACITY - 80 })
    );
}

#[test]
fn bad_alignment_is_invalid_layout() {
    let mut heap = ready();
    assert_eq!(allocate(&mut heap, 8, 0), Err(HeapError::InvalidLayout));
    assert_eq!(allocate(&mut heap, 8, 3), Err(HeapError::InvalidLayout));
    assert_eq!(stats(&heap).unwrap().used_bytes, 0);
}

#[test]
fn too_large_is_out_of_memory() {
    let mut heap = ready();
    assert_eq!(allocate(&mut heap, EARLY_HEAP_CAPACITY + 1, 8), Err(HeapError::OutOfMemory));
    assert_eq!(allocate(&mut heap, usize::MAX, 1), Err(HeapError::OutOfMemory));
    assert_eq!(allocate(&mut heap, EARLY_HEAP_CAPACITY, 8), Ok(0));
    assert_eq!(allocate(&mut heap, 1, 1), Err(HeapError::OutOfMemory));
    assert_eq!(stats(&heap).unwrap().free_bytes, 0);
}

#[test]
fn zeroed_blocks_are_zero() {
    let mut heap = ready();
    let a = alloc_zeroed(&mut heap, 64, 16).unwrap();
    assert_eq!(a, 0);
    for i in 0..64 {
        assert_eq!(heap.byte_at(a + i), 0);
    }
    assert_eq!(alloc_zeroed(&mut heap, 0, 16), Ok(64));
    assert_eq!(heap.capacity(), EARLY_HEAP_CAPACITY);
}
