use vstd::prelude::*;
use crate::boot::multiboot2::{
    BootInfoError, MemoryMapEntry, MultibootInfo, entry_walk, memory_map_spec, parse_spec, tags_of,
    MMAP_TYPE_AVAILABLE,
};

verus! {

pub const MAX_AVAILABLE_REGIONS: usize = 64;
pub const MAX_RESERVED_RANGES: usize = 8;
pub const LOW_MEMORY_RESERVE: usize = 0x10_0000;

#[derive(Clone, Copy, Debug, PartialEq, Eq, Structural)]
pub enum LayoutError {
    BootInfo(BootInfoError),
    MissingMemoryMap,
    NoAvailableMemory,
    TooManyAvailableRegions,
    TooManyReservedRanges,
}

impl From<BootInfoError> for LayoutError {
    fn from(value: BootInfoError) -> (r: Self) {
        LayoutError::BootInfo(value)
    }
}

impl vstd::std_specs::convert::FromSpecImpl<BootInfoError> for LayoutError {
    open spec fn obeys_from_spec() -> bool {
        true
    }

    open spec fn from_spec(v: BootInfoError) -> LayoutError {
        LayoutError::BootInfo(v)
    }
}

/// A run of physical addresses `[start_addr, start_addr + len)`.
#[derive(Clone, Copy, Debug, PartialEq, Eq, Structural)]
pub struct MemorySpan {
    pub start_addr: usize,
    pub len: usize,
}

/// The end of a span, saturated at `usize::MAX`.
pub open spec fn span_end(span: MemorySpan) -> int {
    if span.start_addr + span.len > usize::MAX {
        usize::MAX as int
    } else {
        span.start_addr + span.len
    }
}

/// `addr` lies in the span, measured with the saturated end.
pub open spec fn span_covers(span: MemorySpan, addr: int) -> bool {
    span.start_addr <= addr < span_end(span)
}

impl MemorySpan {
    pub fn new(start_addr: usize, len: usize) -> (r: Self)
        ensures
            r.start_addr == start_addr,
            r.len == len,
    {
        MemorySpan { start_addr, len }
    }

    pub fn end_addr(self) -> (r: usize)
        ensures
            r == span_end(self),
    {
        self.start_addr.saturating_add(self.len)
    }

    fn is_empty(self) -> (r: bool)
        ensures
            r == (self.len == 0),
    {
        self.len == 0
    }

    /// The smallest span holding both spans; they must touch or overlap.
    fn merge(self, other: Self) -> (r: Self)
        requires
            span_end(self) >= other.start_addr,
        ensures
            r.start_addr == if self.start_addr <= other.start_addr {
                self.start_addr
            } else {
                other.start_addr
            },
            span_end(r) == if span_end(self) >= span_end(other) {
                span_end(self)
            } else {
                span_end(other)
            },
            r.start_addr + r.len == span_end(r),
    {
        let start_addr = if self.start_addr <= other.start_addr {
            self.start_addr
        } else {
            other.start_addr
        };
        let self_end = self.end_addr();
        let other_end = other.end_addr();
        let end_addr = if self_end >= other_end {
            self_end
        } else {
            other_end
        };
        MemorySpan { start_addr, len: end_addr.saturating_sub(start_addr) }
    }
}


/// Spans in order of their start address.
pub open spec fn sorted_by_start(spans: Seq<MemorySpan>) -> bool {
    forall|i: int, j: int| 0 <= i < j < spans.len() ==> spans[i].start_addr <= spans[j].start_addr
}

proof fn lemma_swap_multiset(u: Seq<MemorySpan>, a: int, b: int)
    requires
        0 <= a < u.len(),
        0 <= b < u.len(),
        a != b,
    ensures
        u.update(a, u[b]).update(b, u[a]).to_multiset() =~= u.to_multiset(),
{
    broadcast use vstd::seq_lib::group_to_multiset_ensures, vstd::multiset::group_multiset_axioms;
    let u1 = u.update(a, u[b]);
    assert(u1[b] == u[b]);
    assert(u.to_multiset().count(u[a]) > 0) by {
        assert(u.contains(u[a]));
    }
    assert(u.to_multiset().count(u[b]) > 0) by {
        assert(u.contains(u[b]));
    }
}

/// Sorts spans by start address, keeping equal starts in their order.
fn insertion_sort(spans: &mut Vec<MemorySpan>)
    ensures
        final(spans)@.len() == old(spans)@.len(),
        final(spans)@.to_multiset() == old(spans)@.to_multiset(),
        sorted_by_start(final(spans)@),
{
    broadcast use vstd::seq_lib::group_to_multiset_ensures;
    let n = spans.len();
    if n == 0 {
        return;
    }
    let mut index: usize = 1;
    while index < n
        invariant
            n == spans@.len(),
            1 <= index <= n,
            spans@.to_multiset() == old(spans)@.to_multiset(),
            sorted_by_start(spans@.subrange(0, index as int)),
        decreases n - index,
    {
        let current = spans[index];
        let mut slot = index;
        let ghost before = spans@;
        assert(spans@.update(slot as int, current) =~= spans@);
        while slot > 0 && spans[slot - 1].start_addr > current.start_addr
            invariant
                n == spans@.len(),
                0 <= slot <= index < n,
                before.len() == n,
                before[index as int] == current,
                sorted_by_start(before.subrange(0, index as int)),
                spans@.update(slot as int, current).to_multiset() == old(spans)@.to_multiset(),
                forall|j: int| 0 <= j < slot ==> #[trigger] spans@[j] == before[j],
                forall|j: int| slot < j <= index ==> #[trigger] spans@[j] == before[j - 1],
                forall|j: int| index < j < n ==> #[trigger] spans@[j] == before[j],
                forall|j: int| slot < j <= index ==> #[trigger] spans@[j].start_addr > current.start_addr,
            decreases slot,
        {
            let prev = spans[slot - 1];
            let ghost u = spans@.update(slot as int, current);
            proof {
                lemma_swap_multiset(u, slot - 1, slot as int);
                assert(spans@.update(slot as int, prev).update(slot - 1, current) =~= u.update(slot - 1, u[slot as int]).update(slot as int, u[slot - 1]));
            }
            spans.set(slot, prev);
            slot = slot - 1;
        }
        spans.set(slot, current);
        assert forall|i: int, j: int| 0 <= i < j < index + 1 implies (#[trigger] spans@.subrange(0, index + 1)[i]).start_addr <= (#[trigger] spans@.subrange(0, index + 1)[j]).start_addr by {
            let t = spans@.subrange(0, index + 1);
            assert(t[i] == spans@[i] && t[j] == spans@[j]);
            let b = before.subrange(0, index as int);
            if j < slot {
                assert(spans@[i] == b[i] && spans@[j] == b[j]);
            } else if j == slot {
                if i < slot {
                    assert(spans@[i] == b[i]);
                    if slot > 0 {
                        assert(spans@[slot - 1] == b[slot - 1]);
                    }
                }
            } else {
                assert(spans@[j] == b[j - 1]);
                if i < slot {
                    assert(spans@[i] == b[i]);
                } else if i > slot {
                    assert(spans@[i] == b[i - 1]);
                }
            }
        }
        index = index + 1;
    }
    assert(spans@.subrange(0, n as int) =~= spans@);
}

/// Some span of `spans` covers `addr`.
pub open spec fn covered(spans: Seq<MemorySpan>, addr: int) -> bool {
    exists|k: int| 0 <= k < spans.len() && #[trigger] span_covers(spans[k], addr)
}

/// Each span ends before the next one starts: no overlap, no contact.
pub open spec fn separated(spans: Seq<MemorySpan>) -> bool {
    forall|j: int| 0 <= j < spans.len() - 1 ==> span_end(#[trigger] spans[j]) < spans[j + 1].start_addr
}

/// The span covers at least one address, unless it starts at the very top.
pub open spec fn covers_something(span: MemorySpan) -> bool {
    span.start_addr < span_end(span) || span.start_addr == usize::MAX
}

/// Two of the first `n` spans start at the last address.
pub open spec fn two_start_at_top(spans: Seq<MemorySpan>, n: int) -> bool {
    exists|i: int, j: int|
        #![trigger spans[i], spans[j]]
        0 <= i < j < n && spans[i].start_addr == usize::MAX && spans[j].start_addr == usize::MAX
}

/// `out` is `input` sorted and merged: its spans are separated, cover the same
/// addresses, and are no more than the input's; each covers something when
/// every input span is non-empty, and none starts at the last address when
/// no input span does. When every input span is non-empty, so is every
/// output span, unless two input spans start at the last address (merging
/// them leaves a span of length zero there). Each output span is an input
/// span, or a merge whose length reaches exactly its end.
pub open spec fn coalesced(input: Seq<MemorySpan>, out: Seq<MemorySpan>) -> bool {
    &&& separated(out)
    &&& forall|a: int| covered(out, a) == covered(input, a)
    &&& out.len() <= input.len()
    &&& (input.len() > 0 <==> out.len() > 0)
    &&& (forall|k: int| 0 <= k < input.len() ==> #[trigger] input[k].len > 0) ==> forall|j: int|
        0 <= j < out.len() ==> #[trigger] covers_something(out[j])
    &&& (forall|k: int| 0 <= k < input.len() ==> #[trigger] input[k].start_addr < usize::MAX) ==> forall|j: int|
        0 <= j < out.len() ==> #[trigger] out[j].start_addr < usize::MAX
    &&& (forall|k: int| 0 <= k < input.len() ==> #[trigger] input[k].len > 0) ==> forall|j: int|
        0 <= j < out.len() ==> (#[trigger] out[j]).len > 0 || two_start_at_top(input, input.len() as int)
    &&& forall|j: int|
        0 <= j < out.len() ==> input.contains(#[trigger] out[j]) || out[j].start_addr + out[j].len == span_end(out[j])
}

/// Merged regions come in increasing address order and no address lies in
/// two of them.
pub proof fn law_separated_disjoint(spans: Seq<MemorySpan>)
    requires
        separated(spans),
    ensures
        forall|i: int, j: int| 0 <= i < j < spans.len() ==> span_end(#[trigger] spans[i]) < (#[trigger] spans[j]).start_addr,
        forall|i: int, j: int, a: int|
            0 <= i < j < spans.len() && #[trigger] span_covers(spans[i], a) ==> !#[trigger] span_covers(spans[j], a),
{
    assert forall|i: int, j: int| 0 <= i < j < spans.len() implies span_end(#[trigger] spans[i]) < (#[trigger] spans[j]).start_addr by {
        lemma_separated_gap(spans, i, j);
    }
    assert forall|i: int, j: int, a: int|
        0 <= i < j < spans.len() && #[trigger] span_covers(spans[i], a) implies !#[trigger] span_covers(spans[j], a) by {
        lemma_separated_gap(spans, i, j);
    }
}

proof fn lemma_separated_gap(spans: Seq<MemorySpan>, i: int, j: int)
    requires
        separated(spans),
        0 <= i < j < spans.len(),
    ensures
        span_end(spans[i]) < spans[j].start_addr,
    decreases j - i,
{
    if j > i + 1 {
        lemma_separated_gap(spans, i, j - 1);
        assert(span_end(spans[j - 1]) < spans[j].start_addr);
    } else {
        assert(span_end(spans[i]) < spans[i + 1].start_addr);
    }
}

/// Separated spans that each cover something: the first one starts at the
/// lowest covered address and ends at the first address above it that is
/// not covered.
proof fn lemma_first_span_bounds(a: Seq<MemorySpan>, addr: int)
    requires
        a.len() > 0,
        separated(a),
        forall|j: int| 0 <= j < a.len() ==> (#[trigger] a[j]).start_addr < span_end(a[j]),
        covered(a, addr),
    ensures
        a[0].start_addr <= addr,
        addr >= span_end(a[0]) ==> covered(a.drop_first(), addr),
        !covered(a.drop_first(), addr) ==> addr < span_end(a[0]),
{
    law_separated_disjoint(a);
    let k = choose|k: int| 0 <= k < a.len() && #[trigger] span_covers(a[k], addr);
    if k > 0 {
        assert(span_end(a[0]) < a[k].start_addr);
        assert(a.drop_first()[k - 1] == a[k]);
    }
}

proof fn lemma_rest_coverage(a: Seq<MemorySpan>, addr: int)
    requires
        a.len() > 0,
        separated(a),
    ensures
        covered(a.drop_first(), addr) == (covered(a, addr) && addr >= span_end(a[0])),
{
    law_separated_disjoint(a);
    let r = a.drop_first();
    if covered(r, addr) {
        let k = choose|k: int| 0 <= k < r.len() && #[trigger] span_covers(r[k], addr);
        assert(r[k] == a[k + 1]);
        assert(span_end(a[0]) < a[k + 1].start_addr);
        assert(span_covers(a[k + 1], addr));
    }
    if covered(a, addr) && addr >= span_end(a[0]) {
        let k = choose|k: int| 0 <= k < a.len() && #[trigger] span_covers(a[k], addr);
        assert(k != 0);
        assert(r[k - 1] == a[k]);
    }
}

proof fn lemma_separated_rest(a: Seq<MemorySpan>)
    requires
        a.len() > 0,
        separated(a),
    ensures
        separated(a.drop_first()),
{
    let r = a.drop_first();
    assert forall|j: int| 0 <= j < r.len() - 1 implies span_end(#[trigger] r[j]) < r[j + 1].start_addr by {
        assert(r[j] == a[j + 1] && r[j + 1] == a[j + 2]);
    }
}

/// Separated spans that each cover something are determined, start and end,
/// by the addresses they cover.
pub proof fn lemma_coverage_determines_spans(a: Seq<MemorySpan>, b: Seq<MemorySpan>)
    requires
        separated(a),
        separated(b),
        forall|j: int| 0 <= j < a.len() ==> (#[trigger] a[j]).start_addr < span_end(a[j]),
        forall|j: int| 0 <= j < b.len() ==> (#[trigger] b[j]).start_addr < span_end(b[j]),
        forall|x: int| covered(a, x) == covered(b, x),
    ensures
        a.len() == b.len(),
        forall|j: int| 0 <= j < a.len() ==> (#[trigger] a[j]).start_addr == b[j].start_addr && span_end(a[j])
            == span_end(b[j]),
    decreases a.len() + b.len(),
{
    if a.len() == 0 || b.len() == 0 {
        if a.len() > 0 {
            assert(span_covers(a[0], a[0].start_addr as int));
            assert(covered(a, a[0].start_addr as int));
            let k = choose|k: int| 0 <= k < b.len() && #[trigger] span_covers(b[k], a[0].start_addr as int);
        }
        if b.len() > 0 {
            assert(span_covers(b[0], b[0].start_addr as int));
            assert(covered(b, b[0].start_addr as int));
            let k = choose|k: int| 0 <= k < a.len() && #[trigger] span_covers(a[k], b[0].start_addr as int);
        }
    } else {
        let x = a[0];
        let y = b[0];
        assert(span_covers(x, x.start_addr as int));
        assert(covered(a, x.start_addr as int));
        assert(span_covers(y, y.start_addr as int));
        assert(covered(b, y.start_addr as int));
        lemma_first_span_bounds(a, y.start_addr as int);
        lemma_first_span_bounds(b, x.start_addr as int);
        assert(x.start_addr == y.start_addr);
        if span_end(x) < span_end(y) {
            let e = span_end(x);
            assert(span_covers(y, e));
            assert(covered(b, e));
            lemma_rest_coverage(a, e);
            lemma_separated_rest(a);
            let r = a.drop_first();
            let k = choose|k: int| 0 <= k < r.len() && #[trigger] span_covers(r[k], e);
            law_separated_disjoint(a);
            assert(r[k] == a[k + 1]);
            assert(span_end(a[0]) < a[k + 1].start_addr);
        }
        if span_end(y) < span_end(x) {
            let e = span_end(y);
            assert(span_covers(x, e));
            assert(covered(a, e));
            lemma_rest_coverage(b, e);
            let r = b.drop_first();
            let k = choose|k: int| 0 <= k < r.len() && #[trigger] span_covers(r[k], e);
            law_separated_disjoint(b);
            assert(r[k] == b[k + 1]);
            assert(span_end(b[0]) < b[k + 1].start_addr);
        }
        assert(span_end(x) == span_end(y));
        let ra = a.drop_first();
        let rb = b.drop_first();
        lemma_separated_rest(a);
        lemma_separated_rest(b);
        assert forall|z: int| covered(ra, z) == covered(rb, z) by {
            lemma_rest_coverage(a, z);
            lemma_rest_coverage(b, z);
        }
        assert forall|j: int| 0 <= j < ra.len() implies (#[trigger] ra[j]).start_addr < span_end(ra[j]) by {
            assert(ra[j] == a[j + 1]);
        }
        assert forall|j: int| 0 <= j < rb.len() implies (#[trigger] rb[j]).start_addr < span_end(rb[j]) by {
            assert(rb[j] == b[j + 1]);
        }
        lemma_coverage_determines_spans(ra, rb);
        assert forall|j: int| 0 <= j < a.len() implies (#[trigger] a[j]).start_addr == b[j].start_addr && span_end(a[j])
            == span_end(b[j]) by {
            if j > 0 {
                assert(ra[j - 1] == a[j] && rb[j - 1] == b[j]);
            }
        }
    }
}

/// Merging is determined by the input: two results of merging the same
/// spans, none of them empty or starting at the last address, agree span
/// by span in start and end.
pub proof fn law_coalesced_unique(input: Seq<MemorySpan>, a: Seq<MemorySpan>, b: Seq<MemorySpan>)
    requires
        coalesced(input, a),
        coalesced(input, b),
        forall|k: int| 0 <= k < input.len() ==> (#[trigger] input[k]).len > 0 && input[k].start_addr < usize::MAX,
    ensures
        a.len() == b.len(),
        forall|j: int| 0 <= j < a.len() ==> (#[trigger] a[j]).start_addr == b[j].start_addr && span_end(a[j])
            == span_end(b[j]),
{
    assert forall|j: int| 0 <= j < a.len() implies (#[trigger] a[j]).start_addr < span_end(a[j]) by {
        assert(covers_something(a[j]));
        assert(a[j].start_addr < usize::MAX);
    }
    assert forall|j: int| 0 <= j < b.len() implies (#[trigger] b[j]).start_addr < span_end(b[j]) by {
        assert(covers_something(b[j]));
        assert(b[j].start_addr < usize::MAX);
    }
    lemma_coverage_determines_spans(a, b);
}

proof fn lemma_covered_push(spans: Seq<MemorySpan>, span: MemorySpan, a: int)
    ensures
        covered(spans.push(span), a) == (covered(spans, a) || span_covers(span, a)),
{
    let t = spans.push(span);
    if covered(t, a) {
        let k = choose|k: int| 0 <= k < t.len() && #[trigger] span_covers(t[k], a);
        if k < spans.len() {
            assert(span_covers(spans[k], a));
        }
    }
    if covered(spans, a) {
        let k = choose|k: int| 0 <= k < spans.len() && #[trigger] span_covers(spans[k], a);
        assert(t[k] == spans[k]);
    }
    if span_covers(span, a) {
        assert(t[spans.len() as int] == span);
    }
}

proof fn lemma_multiset_same_coverage(a: Seq<MemorySpan>, b: Seq<MemorySpan>)
    requires
        a.to_multiset() == b.to_multiset(),
    ensures
        forall|x: int| covered(a, x) == covered(b, x),
{
    broadcast use vstd::seq_lib::group_to_multiset_ensures;
    assert forall|x: int| covered(a, x) implies covered(b, x) by {
        let k = choose|k: int| 0 <= k < a.len() && #[trigger] span_covers(a[k], x);
        assert(a.contains(a[k]));
        assert(a.to_multiset().count(a[k]) > 0);
        assert(b.to_multiset().count(a[k]) > 0);
        assert(b.contains(a[k]));
        let j = choose|j: int| 0 <= j < b.len() && b[j] == a[k];
        assert(span_covers(b[j], x));
    }
    assert forall|x: int| covered(b, x) implies covered(a, x) by {
        let k = choose|k: int| 0 <= k < b.len() && #[trigger] span_covers(b[k], x);
        assert(b.contains(b[k]));
        assert(b.to_multiset().count(b[k]) > 0);
        assert(a.to_multiset().count(b[k]) > 0);
        assert(a.contains(b[k]));
        let j = choose|j: int| 0 <= j < a.len() && a[j] == b[k];
        assert(span_covers(a[j], x));
    }
}

proof fn lemma_merge_step(out: Seq<MemorySpan>, consumed: Seq<MemorySpan>, span: MemorySpan, merged: MemorySpan)
    requires
        out.len() >= 1,
        separated(out),
        forall|a: int| covered(out, a) == covered(consumed, a),
        out.last().start_addr <= span.start_addr,
        span_end(out.last()) >= span.start_addr,
        merged.start_addr == out.last().start_addr,
        span_end(merged) == if span_end(out.last()) >= span_end(span) {
            span_end(out.last())
        } else {
            span_end(span)
        },
    ensures
        separated(out.drop_last().push(merged)),
        forall|a: int| covered(out.drop_last().push(merged), a) == covered(consumed.push(span), a),
        covers_something(out.last()) ==> covers_something(merged),
{
    let prefix = out.drop_last();
    let out2 = prefix.push(merged);
    assert(out =~= prefix.push(out.last()));
    assert forall|a: int| covered(out2, a) == covered(consumed.push(span), a) by {
        lemma_covered_push(prefix, out.last(), a);
        lemma_covered_push(prefix, merged, a);
        lemma_covered_push(consumed, span, a);
    }
    assert forall|j: int| 0 <= j < out2.len() - 1 implies span_end(#[trigger] out2[j]) < out2[j + 1].start_addr by {
        assert(out2[j] == out[j]);
        if j + 1 < out.len() - 1 {
            assert(out2[j + 1] == out[j + 1]);
        } else {
            assert(out2[j + 1] == merged);
            assert(span_end(out[j]) < out[j + 1].start_addr);
        }
    }
}

proof fn lemma_append_step(out: Seq<MemorySpan>, consumed: Seq<MemorySpan>, span: MemorySpan)
    requires
        out.len() >= 1,
        separated(out),
        forall|a: int| covered(out, a) == covered(consumed, a),
        span_end(out.last()) < span.start_addr,
    ensures
        separated(out.push(span)),
        forall|a: int| covered(out.push(span), a) == covered(consumed.push(span), a),
{
    let out2 = out.push(span);
    assert forall|a: int| covered(out2, a) == covered(consumed.push(span), a) by {
        lemma_covered_push(out, span, a);
        lemma_covered_push(consumed, span, a);
    }
    assert forall|j: int| 0 <= j < out2.len() - 1 implies span_end(#[trigger] out2[j]) < out2[j + 1].start_addr by {
        assert(out2[j] == out[j]);
        if j + 1 < out.len() {
            assert(out2[j + 1] == out[j + 1]);
        }
    }
}

proof fn lemma_multiset_nonempty_spans(a: Seq<MemorySpan>, b: Seq<MemorySpan>)
    requires
        a.to_multiset() == b.to_multiset(),
        forall|k: int| 0 <= k < a.len() ==> #[trigger] a[k].len > 0,
    ensures
        forall|k: int| 0 <= k < b.len() ==> #[trigger] b[k].len > 0,
{
    broadcast use vstd::seq_lib::group_to_multiset_ensures;
    assert forall|k: int| 0 <= k < b.len() implies #[trigger] b[k].len > 0 by {
        assert(b.contains(b[k]));
        assert(b.to_multiset().count(b[k]) > 0);
        assert(a.to_multiset().count(b[k]) > 0);
        assert(a.contains(b[k]));
        let j = choose|j: int| 0 <= j < a.len() && a[j] == b[k];
        assert(a[j].len > 0);
    }
}

proof fn lemma_multiset_starts_below_top(a: Seq<MemorySpan>, b: Seq<MemorySpan>)
    requires
        a.to_multiset() == b.to_multiset(),
        forall|k: int| 0 <= k < a.len() ==> #[trigger] a[k].start_addr < usize::MAX,
    ensures
        forall|k: int| 0 <= k < b.len() ==> #[trigger] b[k].start_addr < usize::MAX,
{
    broadcast use vstd::seq_lib::group_to_multiset_ensures;
    assert forall|k: int| 0 <= k < b.len() implies #[trigger] b[k].start_addr < usize::MAX by {
        assert(b.contains(b[k]));
        assert(b.to_multiset().count(b[k]) > 0);
        assert(a.to_multiset().count(b[k]) > 0);
        assert(a.contains(b[k]));
        let j = choose|j: int| 0 <= j < a.len() && a[j] == b[k];
        assert(a[j].start_addr < usize::MAX);
    }
}

proof fn lemma_two_at_top_grows(spans: Seq<MemorySpan>, n: int)
    ensures
        two_start_at_top(spans, n) ==> two_start_at_top(spans, n + 1),
{
    if two_start_at_top(spans, n) {
        let (i, j) = choose|i: int, j: int|
            #![trigger spans[i], spans[j]]
            0 <= i < j < n && spans[i].start_addr == usize::MAX && spans[j].start_addr == usize::MAX;
        assert(spans[i].start_addr == usize::MAX && spans[j].start_addr == usize::MAX);
    }
}

/// A merge that ends with length zero merged into a span that covered
/// nothing, so it and the span merged into it both start at the top.
proof fn lemma_merge_at_top(sorted: Seq<MemorySpan>, read: int, previous: MemorySpan, merged: MemorySpan)
    requires
        1 <= read < sorted.len(),
        sorted_by_start(sorted),
        covers_something(previous),
        previous.start_addr <= sorted[read - 1].start_addr,
        merged.start_addr == previous.start_addr,
        span_end(merged) >= span_end(previous),
        merged.start_addr + merged.len == span_end(merged),
    ensures
        merged.len == 0 ==> two_start_at_top(sorted, read + 1),
{
    if merged.len == 0 {
        assert(previous.start_addr == usize::MAX);
        assert(sorted[read - 1].start_addr <= sorted[read].start_addr);
        assert(sorted[read - 1].start_addr == usize::MAX && sorted[read].start_addr == usize::MAX);
    }
}

/// `span` is one of `spans`, or its length reaches exactly its end.
spec fn kept_or_exact(spans: Seq<MemorySpan>, span: MemorySpan) -> bool {
    spans.contains(span) || span.start_addr + span.len == span_end(span)
}

proof fn lemma_kept_or_exact_update(spans: Seq<MemorySpan>, regions: Seq<MemorySpan>, w: int, k: int, x: MemorySpan)
    requires
        forall|j: int| 0 <= j < w ==> #[trigger] kept_or_exact(spans, regions[j]),
        0 <= k <= w,
        k < regions.len(),
        kept_or_exact(spans, x),
    ensures
        forall|j: int| 0 <= j <= k ==> #[trigger] kept_or_exact(spans, regions.update(k, x)[j]),
{
    assert forall|j: int| 0 <= j <= k implies #[trigger] kept_or_exact(spans, regions.update(k, x)[j]) by {
        if j < k {
            assert(regions.update(k, x)[j] == regions[j]);
        }
    }
}

proof fn lemma_multiset_contains(a: Seq<MemorySpan>, b: Seq<MemorySpan>)
    requires
        a.to_multiset() == b.to_multiset(),
    ensures
        forall|x: MemorySpan| b.contains(x) ==> a.contains(x),
{
    broadcast use vstd::seq_lib::group_to_multiset_ensures;
    assert forall|x: MemorySpan| b.contains(x) implies a.contains(x) by {
        assert(b.to_multiset().count(x) > 0);
    }
}

proof fn lemma_multiset_two_at_top(a: Seq<MemorySpan>, b: Seq<MemorySpan>)
    requires
        a.to_multiset() == b.to_multiset(),
        two_start_at_top(b, b.len() as int),
    ensures
        two_start_at_top(a, a.len() as int),
{
    broadcast use vstd::seq_lib::group_to_multiset_ensures;
    let (i, j) = choose|i: int, j: int|
        #![trigger b[i], b[j]]
        0 <= i < j < b.len() && b[i].start_addr == usize::MAX && b[j].start_addr == usize::MAX;
    let x = b[i];
    let y = b[j];
    assert(b.contains(x) && b.contains(y));
    assert(b.to_multiset().count(x) > 0 && b.to_multiset().count(y) > 0);
    assert(a.to_multiset().count(x) > 0 && a.to_multiset().count(y) > 0);
    assert(a.contains(x) && a.contains(y));
    let k1 = choose|k: int| 0 <= k < a.len() && a[k] == x;
    let k2: int = if x != y {
        choose|k: int| 0 <= k < a.len() && a[k] == y
    } else {
        let br = b.remove(i);
        assert(br[j - 1] == y);
        assert(br.contains(x));
        assert(br.to_multiset().count(x) > 0);
        assert(b.to_multiset().count(x) >= 2);
        let ar = a.remove(k1);
        assert(ar.to_multiset() == a.to_multiset().remove(x));
        assert(ar.to_multiset().count(x) > 0);
        assert(ar.contains(x));
        let m = choose|m: int| 0 <= m < ar.len() && ar[m] == x;
        if m < k1 {
            assert(a[m] == ar[m]);
            m
        } else {
            assert(a[m + 1] == ar[m]);
            m + 1
        }
    };
    assert(k1 != k2);
    assert(a[k1].start_addr == usize::MAX && a[k2].start_addr == usize::MAX);
    if k1 < k2 {
        assert(two_start_at_top(a, a.len() as int));
    } else {
        assert(two_start_at_top(a, a.len() as int));
    }
}

/// The span of an entry: its base and length, as `usize`.
pub open spec fn entry_span(e: MemoryMapEntry) -> MemorySpan {
    MemorySpan { start_addr: e.base_addr as usize, len: e.length as usize }
}

/// The spans of the available entries, empty spans left out, in map order.
pub open spec fn available_spans(entries: Seq<MemoryMapEntry>) -> Seq<MemorySpan>
    decreases entries.len(),
{
    if entries.len() == 0 {
        Seq::empty()
    } else {
        let rest = available_spans(entries.drop_last());
        let e = entries.last();
        if e.typ == MMAP_TYPE_AVAILABLE && entry_span(e).len != 0 {
            rest.push(entry_span(e))
        } else {
            rest
        }
    }
}

/// The ranges reserved for a boot information block at `ptr` of `info_size`
/// bytes: low memory, the kernel image (when not empty) and the block.
pub open spec fn reserved_spec(kernel_image: MemorySpan, ptr: usize, info_size: nat) -> Seq<MemorySpan> {
    let low = MemorySpan { start_addr: 0, len: LOW_MEMORY_RESERVE };
    let info = MemorySpan { start_addr: ptr, len: info_size as usize };
    if kernel_image.len == 0 {
        seq![low, info]
    } else {
        seq![low, kernel_image, info]
    }
}

/// What `MemoryLayout::from_boot_info` decides: the available spans before
/// sorting and merging, and the reserved ranges; or the error.
pub open spec fn layout_spec(ptr: usize, memory: Seq<u8>, kernel_image: MemorySpan) -> Result<
    (Seq<MemorySpan>, Seq<MemorySpan>),
    LayoutError,
> {
    match parse_spec(ptr, memory) {
        Err(e) => Err(LayoutError::BootInfo(e)),
        Ok(bytes) => match memory_map_spec(tags_of(bytes)) {
            None => Err(LayoutError::MissingMemoryMap),
            Some(m) => {
                let spans = available_spans(entry_walk(m.1, m.0.entry_size as int));
                if spans.len() > MAX_AVAILABLE_REGIONS {
                    Err(LayoutError::TooManyAvailableRegions)
                } else if spans.len() == 0 {
                    Err(LayoutError::NoAvailableMemory)
                } else {
                    Ok((spans, reserved_spec(kernel_image, ptr, bytes.len())))
                }
            },
        },
    }
}

/// Only memory the map marks available counts: every span taken from the
/// map is the span of an entry of the available type with a non-zero
/// length, and every such entry gives its span.
pub proof fn law_available_spans_only_available_entries(entries: Seq<MemoryMapEntry>)
    ensures
        forall|i: int| 0 <= i < available_spans(entries).len() ==> exists|k: int|
            0 <= k < entries.len() && entries[k].typ == MMAP_TYPE_AVAILABLE && entry_span(entries[k]).len != 0
                && #[trigger] available_spans(entries)[i] == entry_span(entries[k]),
        forall|k: int| 0 <= k < entries.len() && (#[trigger] entries[k]).typ == MMAP_TYPE_AVAILABLE
            && entry_span(entries[k]).len != 0 ==> available_spans(entries).contains(entry_span(entries[k])),
    decreases entries.len(),
{
    if entries.len() > 0 {
        let init = entries.drop_last();
        let rest = available_spans(init);
        law_available_spans_only_available_entries(init);
        let out = available_spans(entries);
        assert forall|i: int| 0 <= i < out.len() implies exists|k: int|
            0 <= k < entries.len() && entries[k].typ == MMAP_TYPE_AVAILABLE && entry_span(entries[k]).len != 0
                && #[trigger] out[i] == entry_span(entries[k]) by {
            if i < rest.len() {
                assert(out[i] == rest[i]);
                let k = choose|k: int|
                    0 <= k < init.len() && init[k].typ == MMAP_TYPE_AVAILABLE && entry_span(init[k]).len != 0
                        && #[trigger] rest[i] == entry_span(init[k]);
                assert(entries[k] == init[k]);
            } else {
                assert(entries[entries.len() - 1] == entries.last());
            }
        }
        assert forall|k: int| 0 <= k < entries.len() && (#[trigger] entries[k]).typ == MMAP_TYPE_AVAILABLE
            && entry_span(entries[k]).len != 0 implies out.contains(entry_span(entries[k])) by {
            if k < init.len() {
                assert(init[k] == entries[k]);
                assert(rest.contains(entry_span(init[k])));
                let j = choose|j: int| 0 <= j < rest.len() && rest[j] == entry_span(init[k]);
                assert(out[j] == rest[j]);
            } else {
                assert(out[out.len() - 1] == entry_span(entries[k]));
            }
        }
    }
}

proof fn lemma_available_spans_nonempty(entries: Seq<MemoryMapEntry>)
    ensures
        forall|k: int| 0 <= k < available_spans(entries).len() ==> #[trigger] available_spans(entries)[k].len > 0,
    decreases entries.len(),
{
    if entries.len() > 0 {
        let rest = available_spans(entries.drop_last());
        lemma_available_spans_nonempty(entries.drop_last());
        assert forall|k: int| 0 <= k < available_spans(entries).len() implies #[trigger] available_spans(entries)[k].len > 0 by {
            if k < rest.len() {
                assert(available_spans(entries)[k] == rest[k]);
            }
        }
    }
}

proof fn lemma_available_spans_monotone(entries: Seq<MemoryMapEntry>, a: int, b: int)
    requires
        0 <= a <= b <= entries.len(),
    ensures
        available_spans(entries.subrange(0, a)).len() <= available_spans(entries.subrange(0, b)).len(),
    decreases b - a,
{
    if a < b {
        lemma_available_spans_monotone(entries, a, b - 1);
        assert(entries.subrange(0, b).drop_last() =~= entries.subrange(0, b - 1));
    }
}

proof fn lemma_available_spans_prefix(entries: Seq<MemoryMapEntry>, k: int)
    requires
        0 <= k <= entries.len(),
    ensures
        available_spans(entries.subrange(0, k)).len() <= available_spans(entries).len(),
{
    lemma_available_spans_monotone(entries, k, entries.len() as int);
    assert(entries.subrange(0, entries.len() as int) =~= entries);
}

/// Available memory regions and reserved address ranges of the machine.
pub struct MemoryLayout {
    available_regions: Vec<MemorySpan>,
    reserved_ranges: Vec<MemorySpan>,
}

impl MemoryLayout {
    pub closed spec fn available(&self) -> Seq<MemorySpan> {
        self.available_regions@
    }

    pub closed spec fn reserved(&self) -> Seq<MemorySpan> {
        self.reserved_ranges@
    }

    /// A layout with no regions and no reserved ranges.
    fn empty() -> (r: Self)
        ensures
            r.available() == Seq::<MemorySpan>::empty(),
            r.reserved() == Seq::<MemorySpan>::empty(),
    {
        MemoryLayout { available_regions: Vec::new(), reserved_ranges: Vec::new() }
    }

    /// Records an available region; empty spans are skipped.
    fn push_available(&mut self, span: MemorySpan) -> (r: Result<(), LayoutError>)
        ensures
            final(self).reserved() == old(self).reserved(),
            span.len == 0 ==> r is Ok && final(self).available() == old(self).available(),
            span.len != 0 && old(self).available().len() >= MAX_AVAILABLE_REGIONS ==> r
                == Err::<(), LayoutError>(LayoutError::TooManyAvailableRegions) && final(self).available()
                == old(self).available(),
            span.len != 0 && old(self).available().len() < MAX_AVAILABLE_REGIONS ==> r is Ok
                && final(self).available() == old(self).available().push(span),
    {
        if span.is_empty() {
            return Ok(());
        }
        if self.available_regions.len() >= MAX_AVAILABLE_REGIONS {
            return Err(LayoutError::TooManyAvailableRegions);
        }
        self.available_regions.push(span);
        Ok(())
    }

    /// Records a reserved range; empty spans are skipped.
    fn push_reserved(&mut self, span: MemorySpan) -> (r: Result<(), LayoutError>)
        ensures
            final(self).available() == old(self).available(),
            span.len == 0 ==> r is Ok && final(self).reserved() == old(self).reserved(),
            span.len != 0 && old(self).reserved().len() >= MAX_RESERVED_RANGES ==> r
                == Err::<(), LayoutError>(LayoutError::TooManyReservedRanges) && final(self).reserved()
                == old(self).reserved(),
            span.len != 0 && old(self).reserved().len() < MAX_RESERVED_RANGES ==> r is Ok
                && final(self).reserved() == old(self).reserved().push(span),
    {
        if span.is_empty() {
            return Ok(());
        }
        if self.reserved_ranges.len() >= MAX_RESERVED_RANGES {
            return Err(LayoutError::TooManyReservedRanges);
        }
        self.reserved_ranges.push(span);
        Ok(())
    }

    /// Sorts the available regions and merges those that overlap or touch.
    fn finalize_available_regions(&mut self)
        ensures
            final(self).reserved() == old(self).reserved(),
            coalesced(old(self).available(), final(self).available()),
    {
        if self.available_regions.len() == 0 {
            return;
        }
        let mut regions = self.available_regions.clone();
        proof {
            assert(regions@ =~= self.available_regions@);
        }
        let ghost input = regions@;
        insertion_sort(&mut regions);
        let ghost sorted = regions@;
        proof {
            lemma_multiset_same_coverage(input, sorted);
            if forall|k: int| 0 <= k < input.len() ==> #[trigger] input[k].len > 0 {
                lemma_multiset_nonempty_spans(input, sorted);
            }
            if forall|k: int| 0 <= k < input.len() ==> #[trigger] input[k].start_addr < usize::MAX {
                lemma_multiset_starts_below_top(input, sorted);
            }
        }
        let n = regions.len();
        let mut write_index: usize = 1;
        let mut read_index: usize = 1;
        while read_index < n
            invariant
                n == regions@.len() == sorted.len(),
                1 <= write_index <= read_index <= n,
                sorted_by_start(sorted),
                forall|j: int| read_index <= j < n ==> #[trigger] regions@[j] == sorted[j],
                separated(regions@.subrange(0, write_index as int)),
                regions@[write_index - 1].start_addr <= sorted[read_index - 1].start_addr,
                forall|a: int| covered(regions@.subrange(0, write_index as int), a) == covered(sorted.subrange(0, read_index as int), a),
                (forall|k: int| 0 <= k < n ==> #[trigger] sorted[k].len > 0) ==> forall|j: int| 0 <= j < write_index ==> #[trigger] covers_something(regions@[j]),
                (forall|k: int| 0 <= k < n ==> #[trigger] sorted[k].start_addr < usize::MAX) ==> forall|j: int| 0 <= j < write_index ==> #[trigger] regions@[j].start_addr < usize::MAX,
                (forall|k: int| 0 <= k < n ==> #[trigger] sorted[k].len > 0) ==> forall|j: int| 0 <= j < write_index ==> (#[trigger] regions@[j]).len > 0 || two_start_at_top(sorted, read_index as int),
                forall|j: int| 0 <= j < write_index ==> #[trigger] kept_or_exact(sorted, regions@[j]),
            decreases n - read_index,
        {
            let span = regions[read_index];
            let previous = regions[write_index - 1];
            let ghost out = regions@.subrange(0, write_index as int);
            let ghost consumed = sorted.subrange(0, read_index as int);
            let ghost consumed_next = sorted.subrange(0, read_index + 1);
            assert(span == sorted[read_index as int]);
            assert(previous.start_addr <= span.start_addr);
            if previous.end_addr() >= span.start_addr {
                let merged = previous.merge(span);
                let ghost before = regions@;
                regions.set(write_index - 1, merged);
                proof {
                    lemma_kept_or_exact_update(sorted, before, write_index as int, write_index - 1, merged);
                    assert(regions@ == before.update(write_index - 1, merged));
                    lemma_two_at_top_grows(sorted, read_index as int);
                    if forall|k: int| 0 <= k < n ==> #[trigger] sorted[k].len > 0 {
                        assert(covers_something(regions@[write_index - 1]));
                        lemma_merge_at_top(sorted, read_index as int, previous, merged);
                    }
                    lemma_merge_step(out, consumed, span, merged);
                    assert(regions@.subrange(0, write_index as int) =~= out.drop_last().push(merged));
                    assert(consumed_next =~= consumed.push(span));
                }
            } else {
                let ghost before = regions@;
                regions.set(write_index, span);
                proof {
                    assert(sorted.contains(span)) by {
                        assert(sorted[read_index as int] == span);
                    }
                    lemma_kept_or_exact_update(sorted, before, write_index as int, write_index as int, span);
                    assert(regions@ == before.update(write_index as int, span));
                    lemma_two_at_top_grows(sorted, read_index as int);
                    lemma_append_step(out, consumed, span);
                    assert(regions@.subrange(0, write_index + 1) =~= out.push(span));
                    assert(consumed_next =~= consumed.push(span));
                }
                write_index = write_index + 1;
            }
            read_index = read_index + 1;
        }
        regions.truncate(write_index);
        proof {
            if two_start_at_top(sorted, n as int) {
                lemma_multiset_two_at_top(input, sorted);
            }
            lemma_multiset_contains(input, sorted);
            assert forall|j: int| 0 <= j < write_index implies input.contains(#[trigger] regions@[j])
                || regions@[j].start_addr + regions@[j].len == span_end(regions@[j]) by {
                assert(kept_or_exact(sorted, regions@[j]));
            }
            assert(sorted.subrange(0, n as int) =~= sorted);
            assert(regions@ =~= regions@.subrange(0, write_index as int));
        }
        self.available_regions = regions;
    }

    /// Builds the layout from the boot information block at
    /// `boot_info_ptr`, whose bytes `memory` holds: the available entries of
    /// its memory map, sorted and merged, and as reserved ranges low memory,
    /// the kernel image and the block itself.
    pub fn from_boot_info(boot_info_ptr: usize, memory: &[u8], kernel_image: MemorySpan) -> (r: Result<
        Self,
        LayoutError,
    >)
        ensures
            match r {
                Ok(layout) => (layout_spec(boot_info_ptr, memory@, kernel_image) matches Ok(p)
                    && coalesced(p.0, layout.available()) && layout.reserved() == p.1
                    && forall|j: int| 0 <= j < layout.available().len() ==> (#[trigger] layout.available()[j]).len > 0
                        || two_start_at_top(p.0, p.0.len() as int)),
                Err(e) => layout_spec(boot_info_ptr, memory@, kernel_image) == Err::<
                    (Seq<MemorySpan>, Seq<MemorySpan>),
                    LayoutError,
                >(e),
            },
    {
        let info = match MultibootInfo::parse(boot_info_ptr, memory) {
            Ok(i) => i,
            Err(e) => return Err(LayoutError::from(e)),
        };
        let mut memory_map = match info.memory_map() {
            Some((_, m)) => m,
            None => return Err(LayoutError::MissingMemoryMap),
        };
        let ghost entries = memory_map@;
        let mut layout = Self::empty();
        let ghost mut k: int = 0;
        loop
            invariant
                parse_spec(boot_info_ptr, memory@) == Ok::<Seq<u8>, BootInfoError>(info@),
                memory_map_spec(tags_of(info@)) matches Some(s) && entries == entry_walk(s.1, s.0.entry_size as int),
                0 <= k <= entries.len(),
                memory_map@ == entries.subrange(k, entries.len() as int),
                layout.available() == available_spans(entries.subrange(0, k)),
                layout.available().len() <= MAX_AVAILABLE_REGIONS,
                layout.reserved() == Seq::<MemorySpan>::empty(),
            ensures
                layout.available() == available_spans(entries),
                layout.available().len() <= MAX_AVAILABLE_REGIONS,
                layout.reserved() == Seq::<MemorySpan>::empty(),
            decreases memory_map@.len(),
        {
            let entry = match memory_map.next() {
                Some(e) => e,
                None => {
                    assert(entries.subrange(0, k) =~= entries);
                    break;
                },
            };
            proof {
                assert(entry == entries[k]);
                assert(entries.subrange(0, k + 1).drop_last() =~= entries.subrange(0, k));
                assert(memory_map@ =~= entries.subrange(k + 1, entries.len() as int));
                k = k + 1;
            }
            if !entry.is_available() {
                continue;
            }
            match layout.push_available(MemorySpan::new(#[verifier::truncate] (entry.base_addr as usize), #[verifier::truncate] (entry.length as usize))) {
                Ok(()) => {},
                Err(e) => {
                    proof {
                        let pre = entries.subrange(0, k);
                        assert(pre.last() == entry);
                        assert(pre.drop_last() =~= entries.subrange(0, k - 1));
                        assert(available_spans(pre).len() == MAX_AVAILABLE_REGIONS + 1);
                        lemma_available_spans_prefix(entries, k);
                    }
                    return Err(e);
                },
            }
        }
        if layout.available_regions.len() == 0 {
            return Err(LayoutError::NoAvailableMemory);
        }
        proof {
            lemma_available_spans_nonempty(entries);
        }
        layout.finalize_available_regions();
        let low = MemorySpan::new(0, LOW_MEMORY_RESERVE);
        let pushed = layout.push_reserved(low);
        assert(pushed is Ok);
        let pushed = layout.push_reserved(kernel_image);
        assert(pushed is Ok);
        let pushed = layout.push_reserved(MemorySpan::new(boot_info_ptr, info.total_size()));
        assert(pushed is Ok);
        proof {
            assert(layout.reserved() =~= reserved_spec(kernel_image, boot_info_ptr, info@.len()));
        }
        Ok(layout)
    }

    pub fn available_regions(&self) -> (r: &[MemorySpan])
        ensures
            r@ == self.available(),
    {
        self.available_regions.as_slice()
    }

    pub fn reserved_ranges(&self) -> (r: &[MemorySpan])
        ensures
            r@ == self.reserved(),
    {
        self.reserved_ranges.as_slice()
    }
}

} // verus!
