use vstd::prelude::*;
use crate::utils::{align_up, is_power_of_two, is_power_of_two_exec, round_up, lemma_zero_not_power_of_two};

verus! {

pub const EARLY_HEAP_CAPACITY: usize = 128 * 1024;

#[derive(Clone, Copy, Debug, PartialEq, Eq, Structural)]
pub struct HeapStats {
    pub capacity_bytes: usize,
    pub used_bytes: usize,
    pub free_bytes: usize,
}

#[derive(Clone, Copy, Debug, PartialEq, Eq, Structural)]
pub enum HeapError {
    NotInitialized,
    AlreadyInitialized,
    OutOfMemory,
    InvalidLayout,
}

/// The early kernel heap: a fixed arena handed out front to back.
pub struct EarlyHeap {
    initialized: bool,
    next_offset: usize,
    arena: Vec<u8>,
}

/// What the heap holds, as mathematical values.
#[verifier::ext_equal]
pub struct HeapView {
    pub initialized: bool,
    /// Where the next block may start.
    pub next_offset: nat,
    pub arena: Seq<u8>,
}

impl View for EarlyHeap {
    type V = HeapView;

    closed spec fn view(&self) -> HeapView {
        HeapView { initialized: self.initialized, next_offset: self.next_offset as nat, arena: self.arena@ }
    }
}

/// Where a block of `size` bytes aligned to `align` goes when the next free
/// offset is `next`: its start, or the error.
pub open spec fn alloc_spec(next: int, size: int, align: usize) -> Result<int, HeapError> {
    if !is_power_of_two(align) {
        Err(HeapError::InvalidLayout)
    } else if next + align - 1 > usize::MAX {
        Err(HeapError::InvalidLayout)
    } else {
        let start = round_up(next, align as int);
        if start + size > usize::MAX || start + size > EARLY_HEAP_CAPACITY {
            Err(HeapError::OutOfMemory)
        } else {
            Ok(start)
        }
    }
}

/// A block handed out starts on its alignment, not before the next free
/// offset, and ends inside the arena; so blocks never overlap and come out
/// in address order.
pub proof fn law_blocks_aligned_and_disjoint(next: int, size: int, align: usize)
    requires
        0 <= next,
        0 <= size,
        alloc_spec(next, size, align) is Ok,
    ensures
        ({
            let start = alloc_spec(next, size, align)->Ok_0;
            &&& start % (align as int) == 0
            &&& next <= start
            &&& start + size <= EARLY_HEAP_CAPACITY
        }),
{
    let k = choose|k: nat| k < usize::BITS && align == vstd::arithmetic::power2::pow2(k);
    vstd::arithmetic::power2::lemma_pow2_pos(k);
    let a = align as int;
    let q = (next + a - 1) / a;
    vstd::arithmetic::div_mod::lemma_mod_multiples_basic(q, a);
    vstd::arithmetic::div_mod::lemma_fundamental_div_mod(next + a - 1, a);
    vstd::arithmetic::div_mod::lemma_mod_pos_bound(next + a - 1, a);
    assert(q * a == a * q) by (nonlinear_arith);
}

impl EarlyHeap {
    #[verifier::type_invariant]
    spec fn inv(self) -> bool {
        &&& self.arena@.len() == EARLY_HEAP_CAPACITY
        &&& self.next_offset <= EARLY_HEAP_CAPACITY
    }

    /// A heap over a zeroed arena, not yet initialized.
    pub fn new() -> (r: Self)
        ensures
            !r@.initialized,
            r@.next_offset == 0,
            r@.arena.len() == EARLY_HEAP_CAPACITY,
            forall|i: int| 0 <= i < EARLY_HEAP_CAPACITY ==> #[trigger] r@.arena[i] == 0,
    {
        let mut arena: Vec<u8> = Vec::new();
        let mut i: usize = 0;
        while i < EARLY_HEAP_CAPACITY
            invariant
                i <= EARLY_HEAP_CAPACITY,
                arena@.len() == i,
                forall|j: int| 0 <= j < i ==> #[trigger] arena@[j] == 0,
            decreases EARLY_HEAP_CAPACITY - i,
        {
            arena.push(0);
            i = i + 1;
        }
        EarlyHeap { initialized: false, next_offset: 0, arena }
    }

    /// The byte at `offset` of the arena.
    pub fn byte_at(&self, offset: usize) -> (r: u8)
        requires
            offset < self@.arena.len(),
        ensures
            r == self@.arena[offset as int],
    {
        self.arena[offset]
    }

    /// The arena's size.
    pub fn capacity(&self) -> (r: usize)
        ensures
            r == self@.arena.len(),
            r == EARLY_HEAP_CAPACITY,
            self@.next_offset <= EARLY_HEAP_CAPACITY,
    {
        proof {
            use_type_invariant(self);
        }
        self.arena.len()
    }
}

/// Starts the heap empty; a second call fails.
pub fn init(heap: &mut EarlyHeap) -> (r: Result<(), HeapError>)
    ensures
        r == if old(heap)@.initialized {
            Err(HeapError::AlreadyInitialized)
        } else {
            Ok::<(), HeapError>(())
        },
        (r is Err) ==> final(heap)@ == old(heap)@,
        (r is Ok) ==> final(heap)@ == (HeapView { initialized: true, next_offset: 0, arena: old(heap)@.arena }),
{
    proof {
        use_type_invariant(&*heap);
    }
    if heap.initialized {
        return Err(HeapError::AlreadyInitialized);
    }
    heap.initialized = true;
    heap.next_offset = 0;
    Ok(())
}

fn ensure_initialized(heap: &EarlyHeap) -> (r: Result<(), HeapError>)
    ensures
        r == if heap@.initialized {
            Ok::<(), HeapError>(())
        } else {
            Err(HeapError::NotInitialized)
        },
{
    if !heap.initialized {
        return Err(HeapError::NotInitialized);
    }
    Ok(())
}

/// Hands out `size` bytes aligned to `align`, as an offset into the arena.
pub fn allocate(heap: &mut EarlyHeap, size: usize, align: usize) -> (r: Result<usize, HeapError>)
    ensures
        final(heap)@.arena.len() == EARLY_HEAP_CAPACITY,
        final(heap)@.next_offset <= EARLY_HEAP_CAPACITY,
        !old(heap)@.initialized ==> r == Err::<usize, HeapError>(HeapError::NotInitialized),
        old(heap)@.initialized ==> match alloc_spec(old(heap)@.next_offset as int, size as int, align) {
            Ok(start) => r == Ok::<usize, HeapError>(start as usize),
            Err(e) => r == Err::<usize, HeapError>(e),
        },
        match r {
            Ok(start) => final(heap)@ == (HeapView { next_offset: (start + size) as nat, ..old(heap)@ }),
            Err(_) => final(heap)@ == old(heap)@,
        },
{
    proof {
        use_type_invariant(&*heap);
        lemma_zero_not_power_of_two();
    }
    if let Err(e) = ensure_initialized(heap) {
        return Err(e);
    }
    if align == 0 || !is_power_of_two_exec(align) {
        return Err(HeapError::InvalidLayout);
    }
    let current = heap.next_offset;
    let start = match align_up(current, align) {
        Some(s) => s,
        None => return Err(HeapError::InvalidLayout),
    };
    let end = match start.checked_add(size) {
        Some(e) => e,
        None => return Err(HeapError::OutOfMemory),
    };
    if end > EARLY_HEAP_CAPACITY {
        return Err(HeapError::OutOfMemory);
    }
    heap.next_offset = end;
    Ok(start)
}

/// Like `allocate`, and the block's bytes are set to zero.
pub fn alloc_zeroed(heap: &mut EarlyHeap, size: usize, align: usize) -> (r: Result<usize, HeapError>)
    ensures
        final(heap)@.arena.len() == EARLY_HEAP_CAPACITY,
        final(heap)@.next_offset <= EARLY_HEAP_CAPACITY,
        !old(heap)@.initialized ==> r == Err::<usize, HeapError>(HeapError::NotInitialized),
        old(heap)@.initialized ==> match alloc_spec(old(heap)@.next_offset as int, size as int, align) {
            Ok(start) => r == Ok::<usize, HeapError>(start as usize),
            Err(e) => r == Err::<usize, HeapError>(e),
        },
        match r {
            Ok(start) => {
                &&& final(heap)@.initialized == old(heap)@.initialized
                &&& final(heap)@.next_offset == start + size
                &&& final(heap)@.arena.len() == old(heap)@.arena.len()
                &&& forall|i: int| 0 <= i < final(heap)@.arena.len() ==> #[trigger] final(heap)@.arena[i] == if start <= i < start + size {
                    0u8
                } else {
                    old(heap)@.arena[i]
                }
            },
            Err(_) => final(heap)@ == old(heap)@,
        },
{
    let start = match allocate(heap, size, align) {
        Ok(s) => s,
        Err(e) => return Err(e),
    };
    proof {
        use_type_invariant(&*heap);
    }
    if size != 0 {
        let mut i: usize = start;
        let ghost before = heap@;
        while i < start + size
            invariant
                start <= i <= start + size <= EARLY_HEAP_CAPACITY,
                heap.arena@.len() == EARLY_HEAP_CAPACITY,
                heap.next_offset == start + size,
                heap.initialized == before.initialized,
                before.arena.len() == EARLY_HEAP_CAPACITY,
                forall|j: int| 0 <= j < EARLY_HEAP_CAPACITY ==> #[trigger] heap.arena@[j] == if start <= j < i {
                    0u8
                } else {
                    before.arena[j]
                },
            decreases start + size - i,
        {
            heap.arena[i] = 0;
            i = i + 1;
        }
    }
    Ok(start)
}

/// Capacity, bytes handed out and bytes left.
pub fn stats(heap: &EarlyHeap) -> (r: Result<HeapStats, HeapError>)
    ensures
        !heap@.initialized ==> r == Err::<HeapStats, HeapError>(HeapError::NotInitialized),
        heap@.initialized ==> r == Ok::<HeapStats, HeapError>((HeapStats {
            capacity_bytes: EARLY_HEAP_CAPACITY,
            used_bytes: heap@.next_offset as usize,
            free_bytes: (EARLY_HEAP_CAPACITY - heap@.next_offset) as usize,
        })),
        heap@.next_offset <= EARLY_HEAP_CAPACITY,
{
    proof {
        use_type_invariant(heap);
    }
    if let Err(e) = ensure_initialized(heap) {
        return Err(e);
    }
    let next = heap.next_offset;
    let used_bytes = if next < EARLY_HEAP_CAPACITY { next } else { EARLY_HEAP_CAPACITY };
    Ok(HeapStats {
        capacity_bytes: EARLY_HEAP_CAPACITY,
        used_bytes,
        free_bytes: EARLY_HEAP_CAPACITY.saturating_sub(used_bytes),
    })
}

} // verus!
