use vstd::prelude::*;
use crate::memory::layout::{MemoryLayout, MemorySpan, span_end};
use crate::utils::{align_down, align_up, round_down, round_up, is_power_of_two, lemma_pow2_is_power_of_two};

verus! {

pub const PAGE_SIZE: usize = 4096;
pub const MAX_FRAMES: usize = 32768;
pub const BITMAP_WORDS: usize = 512;

/// Bit `b` of `w` is set.
pub open spec fn word_bit(w: u64, b: u64) -> bool {
    (w >> b) & 1u64 == 1u64
}

/// Bit positions `[start, end)` set, all others clear.
pub open spec fn mask_spec(start: u64, end: u64, b: u64) -> bool {
    start <= b && b < end
}

proof fn lemma_bits_or_and_not(w: u64, m: u64)
    ensures
        forall|b: u64| b < 64 ==> #[trigger] word_bit(w | m, b) == (word_bit(w, b) || word_bit(m, b)),
        forall|b: u64| b < 64 ==> #[trigger] word_bit(w & !m, b) == (word_bit(w, b) && !word_bit(m, b)),
{
    assert(forall|b: u64| b < 64 ==> (#[trigger] ((w | m) >> b) & 1u64 == 1u64 <==> ((w >> b) & 1u64 == 1u64 || (m >> b) & 1u64 == 1u64))) by (bit_vector);
    assert(forall|b: u64| b < 64 ==> (#[trigger] ((w & !m) >> b) & 1u64 == 1u64 <==> ((w >> b) & 1u64 == 1u64 && !((m >> b) & 1u64 == 1u64)))) by (bit_vector);
}

proof fn lemma_bits_full_empty()
    ensures
        forall|b: u64| b < 64 ==> #[trigger] word_bit(u64::MAX, b),
        forall|b: u64| b < 64 ==> !#[trigger] word_bit(0u64, b),
{
    assert(forall|b: u64| b < 64 ==> #[trigger] (u64::MAX >> b) & 1u64 == 1u64) by (bit_vector);
    assert(forall|b: u64| b < 64 ==> #[trigger] (0u64 >> b) & 1u64 != 1u64) by (bit_vector);
}

proof fn lemma_single_bit(w: u64, k: u64)
    requires
        k < 64,
    ensures
        forall|b: u64| b < 64 ==> #[trigger] word_bit(w | (1u64 << k), b) == (word_bit(w, b) || b == k),
        forall|b: u64| b < 64 ==> #[trigger] word_bit(w & !(1u64 << k), b) == (word_bit(w, b) && b != k),
        (w & (1u64 << k) != 0) == word_bit(w, k),
{
    assert(forall|b: u64| b < 64 ==> (#[trigger] ((w | (1u64 << k)) >> b) & 1u64 == 1u64 <==> ((w >> b) & 1u64 == 1u64 || b == k))) by (bit_vector)
        requires k < 64;
    assert(forall|b: u64| b < 64 ==> (#[trigger] ((w & !(1u64 << k)) >> b) & 1u64 == 1u64 <==> ((w >> b) & 1u64 == 1u64 && b != k))) by (bit_vector)
        requires k < 64;
    assert((w & (1u64 << k) != 0) == ((w >> k) & 1u64 == 1u64)) by (bit_vector)
        requires k < 64;
}

/// A mask with ones in bit positions `[start, end)`; both bounds lie in
/// `0..=64`, and the mask is empty when `start >= end`.
fn word_mask(start: usize, end: usize) -> (r: u64)
    requires
        start <= 64,
        end <= 64,
    ensures
        forall|b: u64| b < 64 ==> #[trigger] word_bit(r, b) == mask_spec(start as u64, end as u64, b),
{
    if start >= end {
        proof {
            lemma_bits_full_empty();
        }
        return 0;
    }
    let s = start as u64;
    let e = end as u64;
    if end == 64 {
        assert(forall|b: u64| b < 64 ==> (#[trigger] ((u64::MAX << s) >> b) & 1u64 == 1u64 <==> s <= b)) by (bit_vector)
            requires s < 64;
        u64::MAX << s
    } else {
        assert(forall|b: u64| b < 64 ==> (#[trigger] ((((1u64 << e) - 1u64) as u64 & !(((1u64 << s) - 1u64) as u64)) >> b) & 1u64 == 1u64 <==> (s <= b && b < e))) by (bit_vector)
            requires s < 64, e < 64;
        let hi: u64 = 1u64 << e;
        let lo: u64 = 1u64 << s;
        assert(hi >= 1 && lo >= 1) by (bit_vector) requires s < 64, e < 64, hi == 1u64 << e, lo == 1u64 << s;
        (hi - 1) & !(lo - 1)
    }
}


/// Words of the bitmap that cover `total` frames.
pub open spec fn words_for(total: int) -> int {
    (total + 63) / 64
}

/// Frame `i` is marked used in the bitmap.
pub open spec fn frame_bit(bitmap: Seq<u64>, i: int) -> bool {
    word_bit(bitmap[i / 64], (i % 64) as u64)
}

/// Frame `i` lies in the range that `apply_frames` touches: the requested
/// range clamped to `total`, where a range whose clamped end is a multiple of
/// 64 leaves out its last 64 frames.
pub open spec fn applied_range(total: int, start: int, end: int, i: int) -> bool {
    let s = if start < total { start } else { total };
    let e = if end < total { end } else { total };
    let eff_end = if e % 64 == 0 { e - 64 } else { e };
    s <= i < eff_end
}

/// Sets or clears, as `mark_used` says, the bits of word `w` that `mask` selects.
fn update_word(bitmap: &mut Vec<u64>, w: usize, mask: u64, mark_used: bool)
    requires
        old(bitmap)@.len() == BITMAP_WORDS,
        w < BITMAP_WORDS,
    ensures
        final(bitmap)@.len() == BITMAP_WORDS,
        forall|i: int| 0 <= i < MAX_FRAMES ==> #[trigger] frame_bit(final(bitmap)@, i) == if i / 64 == w
            && word_bit(mask, (i % 64) as u64) {
            mark_used
        } else {
            frame_bit(old(bitmap)@, i)
        },
{
    let old_word = bitmap[w];
    let new_word = if mark_used {
        old_word | mask
    } else {
        old_word & !mask
    };
    proof {
        lemma_bits_or_and_not(old_word, mask);
    }
    bitmap.set(w, new_word);
}

/// Marks the frames of every covering word used and clears all words past them.
fn set_all_used(bitmap: &mut Vec<u64>, total: usize)
    requires
        old(bitmap)@.len() == BITMAP_WORDS,
        total <= MAX_FRAMES,
    ensures
        final(bitmap)@.len() == BITMAP_WORDS,
        forall|i: int| 0 <= i < MAX_FRAMES ==> #[trigger] frame_bit(final(bitmap)@, i) == (i < 64 * words_for(total as int)),
{
    let words = bitmap_words_for_total(total);
    proof {
        lemma_bits_full_empty();
    }
    let mut i: usize = 0;
    while i < words
        invariant
            words == words_for(total as int),
            words <= BITMAP_WORDS,
            i <= words,
            bitmap@.len() == BITMAP_WORDS,
            forall|j: int| 0 <= j < i ==> #[trigger] bitmap@[j] == u64::MAX,
        decreases words - i,
    {
        bitmap.set(i, u64::MAX);
        i = i + 1;
    }
    let mut i: usize = words;
    while i < BITMAP_WORDS
        invariant
            words == words_for(total as int),
            words <= i <= BITMAP_WORDS,
            bitmap@.len() == BITMAP_WORDS,
            forall|j: int| 0 <= j < words ==> #[trigger] bitmap@[j] == u64::MAX,
            forall|j: int| words <= j < i ==> #[trigger] bitmap@[j] == 0,
        decreases BITMAP_WORDS - i,
    {
        bitmap.set(i, 0);
        i = i + 1;
    }
    assert forall|i: int| 0 <= i < MAX_FRAMES implies #[trigger] frame_bit(bitmap@, i) == (i < 64 * words_for(total as int)) by {
        if i / 64 < words {
            assert(bitmap@[i / 64] == u64::MAX);
        } else {
            assert(bitmap@[i / 64] == 0);
        }
    }
}

/// Bitmap words needed for `total_frames` frames.
fn bitmap_words_for_total(total_frames: usize) -> (r: usize)
    requires
        total_frames <= MAX_FRAMES,
    ensures
        r == words_for(total_frames as int),
        r <= BITMAP_WORDS,
{
    (total_frames + 63) / 64
}


/// Sets (`mark_used`) or clears the frames of `applied_range(total, start_frame, end_frame)`.
fn apply_frames(bitmap: &mut Vec<u64>, total: usize, start_frame: usize, end_frame: usize, mark_used: bool)
    requires
        old(bitmap)@.len() == BITMAP_WORDS,
        total <= MAX_FRAMES,
    ensures
        final(bitmap)@.len() == BITMAP_WORDS,
        forall|i: int| 0 <= i < MAX_FRAMES ==> #[trigger] frame_bit(final(bitmap)@, i) == if applied_range(
            total as int,
            start_frame as int,
            end_frame as int,
            i,
        ) {
            mark_used
        } else {
            frame_bit(old(bitmap)@, i)
        },
{
    let start = if start_frame < total { start_frame } else { total };
    let end = if end_frame < total { end_frame } else { total };
    if start >= end {
        return;
    }
    let start_word = start / 64;
    let end_word = (end - 1) / 64;
    if start_word == end_word {
        let mask = word_mask(start % 64, end % 64);
        update_word(bitmap, start_word, mask, mark_used);
        return;
    }
    let ghost old_bits = bitmap@;
    let head_mask = word_mask(start % 64, 64);
    update_word(bitmap, start_word, head_mask, mark_used);
    proof {
        lemma_bits_full_empty();
    }
    let mut w: usize = start_word + 1;
    while w < end_word
        invariant
            start < end <= total <= MAX_FRAMES,
            start_word == start / 64,
            end_word == (end - 1) / 64,
            start_word < w <= end_word,
            bitmap@.len() == BITMAP_WORDS,
            forall|i: int| 0 <= i < MAX_FRAMES ==> #[trigger] frame_bit(bitmap@, i) == if start <= i < 64 * w {
                mark_used
            } else {
                frame_bit(old_bits, i)
            },
        decreases end_word - w,
    {
        let ghost before = bitmap@;
        proof {
            lemma_bits_full_empty();
        }
        update_word(bitmap, w, u64::MAX, mark_used);
        assert forall|i: int| 0 <= i < MAX_FRAMES implies #[trigger] frame_bit(bitmap@, i) == if start <= i < 64 * (w + 1) {
            mark_used
        } else {
            frame_bit(old_bits, i)
        } by {
            assert(word_bit(u64::MAX, (i % 64) as u64));
            if i / 64 == w {
                assert(64 * w <= i < 64 * (w + 1));
            } else {
                assert(frame_bit(bitmap@, i) == frame_bit(before, i));
            }
        }
        w = w + 1;
    }
    let tail_mask = word_mask(0, end % 64);
    if tail_mask != 0 {
        update_word(bitmap, end_word, tail_mask, mark_used);
    } else {
        assert(word_bit(tail_mask, 0) == mask_spec(0, (end % 64) as u64, 0));
    }
}

/// Marks frames `[start_frame, end_frame)` free (see `applied_range`).
fn clear_frames(bitmap: &mut Vec<u64>, total: usize, start_frame: usize, end_frame: usize)
    requires
        old(bitmap)@.len() == BITMAP_WORDS,
        total <= MAX_FRAMES,
    ensures
        final(bitmap)@.len() == BITMAP_WORDS,
        forall|i: int| 0 <= i < MAX_FRAMES ==> #[trigger] frame_bit(final(bitmap)@, i) == (!applied_range(
            total as int,
            start_frame as int,
            end_frame as int,
            i,
        ) && frame_bit(old(bitmap)@, i)),
{
    apply_frames(bitmap, total, start_frame, end_frame, false);
}

/// Marks frames `[start_frame, end_frame)` used (see `applied_range`).
fn set_frames(bitmap: &mut Vec<u64>, total: usize, start_frame: usize, end_frame: usize)
    requires
        old(bitmap)@.len() == BITMAP_WORDS,
        total <= MAX_FRAMES,
    ensures
        final(bitmap)@.len() == BITMAP_WORDS,
        forall|i: int| 0 <= i < MAX_FRAMES ==> #[trigger] frame_bit(final(bitmap)@, i) == (applied_range(
            total as int,
            start_frame as int,
            end_frame as int,
            i,
        ) || frame_bit(old(bitmap)@, i)),
{
    apply_frames(bitmap, total, start_frame, end_frame, true);
}


/// Number of free frames among the first `n` frames.
pub open spec fn free_below(used: Seq<bool>, n: int) -> nat
    decreases n,
{
    if n <= 0 {
        0
    } else {
        free_below(used, n - 1) + if used[n - 1] {
            0nat
        } else {
            1nat
        }
    }
}

proof fn lemma_free_below_bound(used: Seq<bool>, n: int)
    ensures
        free_below(used, n) <= if n < 0 { 0 } else { n },
    decreases n,
{
    if n > 0 {
        lemma_free_below_bound(used, n - 1);
    }
}

proof fn lemma_free_below_used_tail(used: Seq<bool>, a: int, b: int)
    requires
        a <= b,
        forall|i: int| a <= i < b ==> #[trigger] used[i],
    ensures
        free_below(used, b) == free_below(used, a),
    decreases b - a,
{
    if a < b {
        lemma_free_below_used_tail(used, a, b - 1);
    }
}

/// Changing one entry below `n` changes the count by what that entry changed.
pub proof fn lemma_free_below_update(used: Seq<bool>, k: int, v: bool, n: int)
    requires
        0 <= k < n <= used.len(),
    ensures
        free_below(used.update(k, v), n) + (if used[k] { 0int } else { 1int }) == free_below(used, n) + (if v {
            0int
        } else {
            1int
        }),
    decreases n,
{
    if n - 1 > k {
        lemma_free_below_update(used, k, v, n - 1);
    } else {
        assert forall|j: int| 0 <= j < k implies used.update(k, v)[j] == used[j] by {}
        lemma_free_below_same(used.update(k, v), used, k);
    }
}

proof fn lemma_free_below_same(a: Seq<bool>, b: Seq<bool>, n: int)
    requires
        forall|j: int| 0 <= j < n ==> a[j] == b[j],
    ensures
        free_below(a, n) == free_below(b, n),
    decreases n,
{
    if n > 0 {
        lemma_free_below_same(a, b, n - 1);
    }
}

/// No frame below `n` is free exactly when the count below `n` is zero.
pub proof fn lemma_free_below_zero(used: Seq<bool>, n: int)
    requires
        0 <= n <= used.len(),
    ensures
        (free_below(used, n) == 0) == (forall|j: int| 0 <= j < n ==> #[trigger] used[j]),
    decreases n,
{
    if n > 0 {
        lemma_free_below_zero(used, n - 1);
        if free_below(used, n) == 0 {
            assert forall|j: int| 0 <= j < n implies #[trigger] used[j] by {
                if j < n - 1 {
                    assert(used[j]);
                }
            }
        }
    }
}

/// Frame `i` is used, for every frame the bitmap tracks.
pub open spec fn used_seq(bitmap: Seq<u64>) -> Seq<bool> {
    Seq::new(MAX_FRAMES as nat, |i: int| frame_bit(bitmap, i))
}

/// The frames `[start, end)` that lie wholly inside `span`, cut at the
/// tracked limit; `None` when there is none or the rounded start overflows.
pub open spec fn frame_range_spec(span: MemorySpan) -> Option<(int, int)> {
    let limit = MAX_FRAMES * PAGE_SIZE;
    if span.len == 0 {
        None
    } else if span.start_addr + PAGE_SIZE - 1 > usize::MAX {
        None
    } else {
        let s0 = round_up(span.start_addr as int, PAGE_SIZE as int);
        let s = if s0 < limit { s0 } else { limit as int };
        let e0 = round_down(span_end(span), PAGE_SIZE as int);
        let e = if e0 < limit { e0 } else { limit as int };
        if s >= e {
            None
        } else {
            Some((s / PAGE_SIZE as int, e / PAGE_SIZE as int))
        }
    }
}

/// The frames of a span are exactly the tracked pages that lie wholly
/// inside it: each frame of its range starts at or after the span's start
/// and ends at or before its end, and every tracked page that does so is in
/// the range.
pub proof fn law_frame_range_inside_span(span: MemorySpan)
    ensures
        frame_range_spec(span) matches Some(r) ==> {
            &&& 0 <= r.0 < r.1 <= MAX_FRAMES
            &&& r.0 * PAGE_SIZE >= span.start_addr
            &&& r.1 * PAGE_SIZE <= span_end(span)
        },
        forall|f: int|
            0 <= f < MAX_FRAMES && span.start_addr <= #[trigger] (f * PAGE_SIZE) && f * PAGE_SIZE + PAGE_SIZE
                <= span_end(span) ==> (frame_range_spec(span) matches Some(r) && r.0 <= f < r.1),
{
    let p = PAGE_SIZE as int;
    let limit = (MAX_FRAMES * PAGE_SIZE) as int;
    let x = span.start_addr as int;
    let y = span_end(span);
    let s0 = round_up(x, p);
    let e0 = round_down(y, p);
    assert(s0 >= x && s0 < x + p && s0 % p == 0) by {
        vstd::arithmetic::div_mod::lemma_fundamental_div_mod(x + p - 1, p);
        vstd::arithmetic::div_mod::lemma_mod_multiples_basic((x + p - 1) / p, p);
    }
    assert(e0 <= y && e0 > y - p && e0 % p == 0) by {
        vstd::arithmetic::div_mod::lemma_fundamental_div_mod(y, p);
        vstd::arithmetic::div_mod::lemma_mod_multiples_basic(y / p, p);
    }
    assert(limit % p == 0);
    assert forall|f: int|
        0 <= f < MAX_FRAMES && span.start_addr <= #[trigger] (f * PAGE_SIZE) && f * PAGE_SIZE + PAGE_SIZE
            <= span_end(span) implies (frame_range_spec(span) matches Some(r) && r.0 <= f < r.1) by {
        let a = f * p;
        assert(a % p == 0) by {
            vstd::arithmetic::div_mod::lemma_mod_multiples_basic(f, p);
        }
        assert(a / p == f) by {
            vstd::arithmetic::div_mod::lemma_div_multiples_vanish(f, p);
        }
        assert(span.len > 0);
        assert(x + p - 1 <= usize::MAX);
        // s0 is the least multiple of p at or above x, so s0 <= a.
        assert(s0 <= a) by {
            if s0 > a {
                vstd::arithmetic::div_mod::lemma_mod_multiples_basic(f, p);
                assert(s0 / p > f) by {
                    vstd::arithmetic::div_mod::lemma_fundamental_div_mod(s0, p);
                }
                assert(s0 >= (f + 1) * p) by {
                    vstd::arithmetic::div_mod::lemma_fundamental_div_mod(s0, p);
                    vstd::arithmetic::mul::lemma_mul_inequality(f + 1, s0 / p, p);
                }
                assert((f + 1) * p == a + p) by (nonlinear_arith)
                    requires a == f * p;
            }
        }
        assert(a + p <= e0) by {
            if a + p > e0 {
                assert(e0 / p < f + 1) by {
                    vstd::arithmetic::div_mod::lemma_fundamental_div_mod(e0, p);
                    assert((f + 1) * p == a + p) by (nonlinear_arith)
                        requires a == f * p;
                }
                assert(e0 <= f * p) by {
                    vstd::arithmetic::div_mod::lemma_fundamental_div_mod(e0, p);
                    vstd::arithmetic::mul::lemma_mul_inequality(e0 / p, f, p);
                }
            }
        }
        assert(a + p <= limit) by (nonlinear_arith)
            requires a == f * p, f < MAX_FRAMES, p == PAGE_SIZE, limit == MAX_FRAMES * PAGE_SIZE;
    }
    if frame_range_spec(span) is Some {
        let r = frame_range_spec(span)->Some_0;
        let s = if s0 < limit { s0 } else { limit };
        let e = if e0 < limit { e0 } else { limit };
        assert(s % p == 0 && e % p == 0);
        assert(r.0 * p == s) by {
            vstd::arithmetic::div_mod::lemma_fundamental_div_mod(s, p);
        }
        assert(r.1 * p == e) by {
            vstd::arithmetic::div_mod::lemma_fundamental_div_mod(e, p);
        }
    }
}

/// `apply_frames` over the frame range of `span` touches frame `i`.
pub open spec fn span_applies(span: MemorySpan, total: int, i: int) -> bool {
    match frame_range_spec(span) {
        Some(r) => applied_range(total, r.0, r.1, i),
        None => false,
    }
}

/// Some span of `spans` touches frame `i`.
pub open spec fn spans_apply(spans: Seq<MemorySpan>, total: int, i: int) -> bool {
    exists|k: int| 0 <= k < spans.len() && #[trigger] span_applies(spans[k], total, i)
}

/// Frame ranges of available spans: each exists, and each starts at or after
/// the end of the one before.
pub open spec fn available_ranges_ok(spans: Seq<MemorySpan>) -> bool {
    &&& spans.len() > 0
    &&& forall|k: int| 0 <= k < spans.len() ==> (#[trigger] frame_range_spec(spans[k])) is Some
    &&& forall|k: int| 0 < k < spans.len() ==> (#[trigger] frame_range_spec(spans[k])).unwrap().0 >= frame_range_spec(spans[k - 1]).unwrap().1
}

/// Frames in the ranges of the first `n` spans.
pub open spec fn usable_sum(spans: Seq<MemorySpan>, n: int) -> int
    decreases n,
{
    if n <= 0 {
        0
    } else {
        usable_sum(spans, n - 1) + (frame_range_spec(spans[n - 1]).unwrap().1 - frame_range_spec(spans[n - 1]).unwrap().0)
    }
}

/// Where the available frames end, and how many there are.
#[derive(Clone, Copy, Debug, PartialEq, Eq, Structural)]
struct AvailableFrameSummary {
    frame_limit: usize,
    usable_frames: usize,
}

proof fn lemma_page_size_pow2()
    ensures
        is_power_of_two(PAGE_SIZE),
{
    vstd::arithmetic::power2::lemma2_to64();
    lemma_pow2_is_power_of_two(PAGE_SIZE, 12);
}

/// The frames wholly inside `span`, below the tracked limit.
fn span_to_frame_range(span: MemorySpan) -> (r: Option<(usize, usize)>)
    ensures
        match r {
            Some(p) => frame_range_spec(span) == Some((p.0 as int, p.1 as int)),
            None => frame_range_spec(span) is None,
        },
        r matches Some(p) ==> p.0 < p.1 <= MAX_FRAMES,
{
    if span.len == 0 {
        return None;
    }
    proof {
        lemma_page_size_pow2();
    }
    let limit_addr = MAX_FRAMES * PAGE_SIZE;
    let start0 = match align_up(span.start_addr, PAGE_SIZE) {
        Some(v) => v,
        None => return None,
    };
    let start = if start0 < limit_addr { start0 } else { limit_addr };
    let end0 = align_down(span.end_addr(), PAGE_SIZE);
    let end = if end0 < limit_addr { end0 } else { limit_addr };
    if start >= end {
        return None;
    }
    Some((start / PAGE_SIZE, end / PAGE_SIZE))
}

/// Checks the available spans and sums up their frames.
fn validate_available_ranges(spans: &[MemorySpan]) -> (r: Result<AvailableFrameSummary, PmmError>)
    ensures
        match r {
            Ok(summary) => {
                &&& available_ranges_ok(spans@)
                &&& summary.frame_limit == frame_range_spec(spans@.last()).unwrap().1
                &&& summary.usable_frames == usable_sum(spans@, spans@.len() as int)
                &&& 0 < summary.usable_frames <= summary.frame_limit <= MAX_FRAMES
            },
            Err(e) => e == PmmError::InvalidConfig && !available_ranges_ok(spans@),
        },
{
    let mut previous_end: usize = 0;
    let mut frame_limit: usize = 0;
    let mut usable_frames: usize = 0;
    let mut saw_range = false;
    let mut k: usize = 0;
    while k < spans.len()
        invariant
            k <= spans@.len(),
            saw_range == (k > 0),
            forall|j: int| 0 <= j < k ==> (#[trigger] frame_range_spec(spans@[j])) is Some,
            forall|j: int| 0 < j < k ==> (#[trigger] frame_range_spec(spans@[j])).unwrap().0 >= frame_range_spec(spans@[j - 1]).unwrap().1,
            k > 0 ==> previous_end == frame_range_spec(spans@[k - 1]).unwrap().1,
            k == 0 ==> previous_end == 0,
            frame_limit == previous_end,
            previous_end <= MAX_FRAMES,
            usable_frames == usable_sum(spans@, k as int),
            usable_frames <= previous_end,
            k > 0 ==> usable_frames > 0,
        decreases spans@.len() - k,
    {
        let span = spans[k];
        let (start_frame, end_frame) = match span_to_frame_range(span) {
            Some(p) => p,
            None => return Err(PmmError::InvalidConfig),
        };
        if saw_range && start_frame < previous_end {
            return Err(PmmError::InvalidConfig);
        }
        usable_frames = usable_frames.saturating_add(end_frame.saturating_sub(start_frame));
        frame_limit = if frame_limit >= end_frame { frame_limit } else { end_frame };
        previous_end = end_frame;
        saw_range = true;
        k = k + 1;
    }
    if !saw_range || usable_frames == 0 || frame_limit == 0 {
        return Err(PmmError::InvalidConfig);
    }
    Ok(AvailableFrameSummary { frame_limit, usable_frames })
}

/// Sizes of a fallback frame pool: `total_frames` frames, the first
/// `reserved_frames` of them to be kept back.
#[derive(Clone, Copy, Debug, PartialEq, Eq, Structural)]
pub struct EarlyPmmConfig {
    pub total_frames: usize,
    pub reserved_frames: usize,
}

impl Default for EarlyPmmConfig {
    fn default() -> (r: Self)
        ensures
            r.total_frames == 16 * 1024,
            r.reserved_frames == 1024,
    {
        EarlyPmmConfig { total_frames: 16 * 1024, reserved_frames: 1024 }
    }
}

/// A physical frame, named by its index; its address is `index * PAGE_SIZE`.
#[derive(Clone, Copy, Debug, PartialEq, Eq, Structural)]
pub struct PhysFrame {
    index: usize,
}

impl View for PhysFrame {
    type V = nat;

    closed spec fn view(&self) -> nat {
        self.index as nat
    }
}

impl PhysFrame {
    #[verifier::type_invariant]
    spec fn index_in_range(self) -> bool {
        self.index < MAX_FRAMES
    }

    pub fn addr(self) -> (r: usize)
        ensures
            r == self@ * PAGE_SIZE,
            self@ < MAX_FRAMES,
    {
        proof {
            use_type_invariant(&self);
        }
        self.index * PAGE_SIZE
    }

    pub fn from_addr(addr: usize) -> (r: Option<Self>)
        ensures
            match r {
                Some(f) => addr % PAGE_SIZE == 0 && addr / PAGE_SIZE < MAX_FRAMES && f@ == addr / PAGE_SIZE,
                None => addr % PAGE_SIZE != 0 || addr / PAGE_SIZE >= MAX_FRAMES,
            },
    {
        if addr % PAGE_SIZE != 0 {
            return None;
        }
        let index = addr / PAGE_SIZE;
        if index >= MAX_FRAMES {
            return None;
        }
        Some(PhysFrame { index })
    }
}

/// A frame's address turns back into that frame, and an address that turns
/// into a frame is that frame's address.
pub proof fn law_frame_address_round_trip(index: nat, addr: usize)
    requires
        index < MAX_FRAMES,
    ensures
        index * PAGE_SIZE <= usize::MAX,
        (index * PAGE_SIZE) % (PAGE_SIZE as int) == 0,
        (index * PAGE_SIZE) / (PAGE_SIZE as int) == index,
        addr % PAGE_SIZE == 0 ==> (addr / PAGE_SIZE) * PAGE_SIZE == addr,
{
}

#[derive(Clone, Copy, Debug, PartialEq, Eq, Structural)]
pub struct PmmStats {
    pub tracked_frames: usize,
    pub usable_frames: usize,
    pub used_frames: usize,
    pub free_frames: usize,
}

#[derive(Clone, Copy, Debug, PartialEq, Eq, Structural)]
pub enum PmmError {
    NotInitialized,
    AlreadyInitialized,
    InvalidConfig,
    OutOfMemory,
    DoubleFree,
    OutOfRange,
}

/// What the allocator holds, as mathematical values.
#[verifier::ext_equal]
pub struct PmmView {
    pub initialized: bool,
    pub total_frames: nat,
    pub usable_frames: nat,
    /// `used[i]`: frame `i` may not be handed out.
    pub used: Seq<bool>,
}

/// The shape every allocator state has: the frames past `total_frames` in
/// the last covering word count as used, and no frame past that word does.
pub open spec fn view_wf(v: PmmView) -> bool {
    &&& v.used.len() == MAX_FRAMES
    &&& v.total_frames <= MAX_FRAMES
    &&& v.usable_frames <= v.total_frames
    &&& forall|i: int| v.total_frames <= i < 64 * words_for(v.total_frames as int) ==> #[trigger] v.used[i]
    &&& forall|i: int| 64 * words_for(v.total_frames as int) <= i < MAX_FRAMES ==> !#[trigger] v.used[i]
}

/// `f` is the lowest free frame among the tracked ones.
pub open spec fn is_lowest_free(v: PmmView, f: int) -> bool {
    &&& 0 <= f < v.total_frames
    &&& !v.used[f]
    &&& forall|j: int| 0 <= j < f ==> #[trigger] v.used[j]
}

/// Every tracked frame is used.
pub open spec fn all_used(v: PmmView) -> bool {
    forall|j: int| 0 <= j < v.total_frames ==> #[trigger] v.used[j]
}

/// The allocator after frame `f` is marked used.
pub open spec fn allocated(v: PmmView, f: int) -> PmmView {
    PmmView { used: v.used.update(f, true), ..v }
}

/// The allocator after frame `f` is marked free.
pub open spec fn freed(v: PmmView, f: int) -> PmmView {
    PmmView { used: v.used.update(f, false), ..v }
}

/// What giving frame `f` back answers.
pub open spec fn free_result(v: PmmView, f: int) -> Result<(), PmmError> {
    if !v.initialized {
        Err(PmmError::NotInitialized)
    } else if f >= v.total_frames {
        Err(PmmError::OutOfRange)
    } else if !v.used[f] {
        Err(PmmError::DoubleFree)
    } else {
        Ok(())
    }
}

/// The physical frame allocator: one bit per frame, set while the frame is
/// in use or not available.
pub struct FrameAllocator {
    initialized: bool,
    total_frames: usize,
    usable_frames: usize,
    bitmap: Vec<u64>,
}

impl View for FrameAllocator {
    type V = PmmView;

    closed spec fn view(&self) -> PmmView {
        PmmView {
            initialized: self.initialized,
            total_frames: self.total_frames as nat,
            usable_frames: self.usable_frames as nat,
            used: used_seq(self.bitmap@),
        }
    }
}

impl FrameAllocator {
    #[verifier::type_invariant]
    spec fn inv(self) -> bool {
        &&& self.bitmap@.len() == BITMAP_WORDS
        &&& self.total_frames <= MAX_FRAMES
        &&& self.usable_frames <= self.total_frames
        &&& forall|i: int| self.total_frames <= i < 64 * words_for(self.total_frames as int) ==> #[trigger] frame_bit(self.bitmap@, i)
        &&& forall|i: int| 64 * words_for(self.total_frames as int) <= i < MAX_FRAMES ==> !#[trigger] frame_bit(self.bitmap@, i)
    }

    /// An allocator that has not been initialized: no frame is tracked.
    pub fn new() -> (r: Self)
        ensures
            !r@.initialized,
            r@.total_frames == 0,
            r@.usable_frames == 0,
            forall|i: int| 0 <= i < MAX_FRAMES ==> !#[trigger] r@.used[i],
            view_wf(r@),
    {
        let bitmap = zeroed_bitmap();
        FrameAllocator { initialized: false, total_frames: 0, usable_frames: 0, bitmap }
    }

}

/// A bitmap with every frame free.
fn zeroed_bitmap() -> (r: Vec<u64>)
    ensures
        r@.len() == BITMAP_WORDS,
        forall|i: int| 0 <= i < MAX_FRAMES ==> !#[trigger] frame_bit(r@, i),
{
    let mut bitmap: Vec<u64> = Vec::new();
    let mut i: usize = 0;
    while i < BITMAP_WORDS
        invariant
            i <= BITMAP_WORDS,
            bitmap@.len() == i,
            forall|j: int| 0 <= j < i ==> #[trigger] bitmap@[j] == 0,
        decreases BITMAP_WORDS - i,
    {
        bitmap.push(0);
        i = i + 1;
    }
    proof {
        lemma_bits_full_empty();
        assert forall|i: int| 0 <= i < MAX_FRAMES implies !#[trigger] frame_bit(bitmap@, i) by {
            assert(bitmap@[i / 64] == 0);
        }
    }
    bitmap
}

/// Frame `i` after a fallback initialization with `total` frames of which
/// the first `reserved` are kept back.
pub open spec fn init_used(total: int, reserved: int, i: int) -> bool {
    if applied_range(total, 0, reserved, i) {
        true
    } else if applied_range(total, 0, total, i) {
        false
    } else {
        i < 64 * words_for(total)
    }
}

/// Sets the allocator up for `config.total_frames` frames: all of them are
/// freed and then the first `config.reserved_frames` marked used, each range
/// as `applied_range` clips it (see `init_used`).
pub fn init(pmm: &mut FrameAllocator, config: EarlyPmmConfig) -> (r: Result<(), PmmError>)
    ensures
        view_wf(old(pmm)@),
        view_wf(final(pmm)@),
        r == if old(pmm)@.initialized {
            Err(PmmError::AlreadyInitialized)
        } else if config.total_frames == 0 || config.total_frames > MAX_FRAMES || config.reserved_frames
            > config.total_frames {
            Err(PmmError::InvalidConfig)
        } else {
            Ok::<(), PmmError>(())
        },
        (r is Err) ==> final(pmm)@ == old(pmm)@,
        (r is Ok) ==> {
            &&& final(pmm)@.initialized
            &&& final(pmm)@.total_frames == config.total_frames
            &&& final(pmm)@.usable_frames == config.total_frames
            &&& forall|i: int| 0 <= i < MAX_FRAMES ==> #[trigger] final(pmm)@.used[i] == init_used(
                config.total_frames as int,
                config.reserved_frames as int,
                i,
            )
        },
{
    proof {
        use_type_invariant(&*pmm);
    }
    if pmm.initialized {
        return Err(PmmError::AlreadyInitialized);
    }
    if config.total_frames == 0 || config.total_frames > MAX_FRAMES || config.reserved_frames > config.total_frames {
        return Err(PmmError::InvalidConfig);
    }
    let total = config.total_frames;
    let mut bitmap = zeroed_bitmap();
    set_all_used(&mut bitmap, total);
    clear_frames(&mut bitmap, total, 0, total);
    set_frames(&mut bitmap, total, 0, config.reserved_frames);
    *pmm = FrameAllocator { initialized: true, total_frames: total, usable_frames: total, bitmap };
    Ok(())
}

/// Frame `i` after initializing from a layout whose available frames end at
/// `total`: used unless an available span frees it, and used again when a
/// reserved span covers it.
pub open spec fn layout_used(available: Seq<MemorySpan>, reserved: Seq<MemorySpan>, total: int, i: int) -> bool {
    if spans_apply(reserved, total, i) {
        true
    } else if spans_apply(available, total, i) {
        false
    } else {
        i < 64 * words_for(total)
    }
}

proof fn lemma_spans_apply_extend(spans: Seq<MemorySpan>, k: int, total: int, i: int)
    requires
        0 <= k < spans.len(),
    ensures
        spans_apply(spans.subrange(0, k + 1), total, i) == (spans_apply(spans.subrange(0, k), total, i)
            || span_applies(spans[k], total, i)),
{
    let pre = spans.subrange(0, k);
    let post = spans.subrange(0, k + 1);
    if spans_apply(post, total, i) {
        let j = choose|j: int| 0 <= j < post.len() && #[trigger] span_applies(post[j], total, i);
        if j < k {
            assert(pre[j] == post[j]);
        }
    }
    if spans_apply(pre, total, i) {
        let j = choose|j: int| 0 <= j < pre.len() && #[trigger] span_applies(pre[j], total, i);
        assert(pre[j] == post[j]);
    }
    if span_applies(spans[k], total, i) {
        assert(post[k] == spans[k]);
    }
}

/// Sets the allocator up from the available and reserved spans of `layout`.
pub fn init_from_layout(pmm: &mut FrameAllocator, layout: &MemoryLayout) -> (r: Result<(), PmmError>)
    ensures
        view_wf(old(pmm)@),
        view_wf(final(pmm)@),
        r == if old(pmm)@.initialized {
            Err(PmmError::AlreadyInitialized)
        } else if !available_ranges_ok(layout.available()) {
            Err(PmmError::InvalidConfig)
        } else {
            Ok::<(), PmmError>(())
        },
        (r is Err) ==> final(pmm)@ == old(pmm)@,
        (r is Ok) ==> {
            let total = frame_range_spec(layout.available().last()).unwrap().1;
            &&& final(pmm)@.initialized
            &&& final(pmm)@.total_frames == total
            &&& final(pmm)@.usable_frames == usable_sum(layout.available(), layout.available().len() as int)
            &&& forall|i: int| 0 <= i < MAX_FRAMES ==> #[trigger] final(pmm)@.used[i] == layout_used(
                layout.available(),
                layout.reserved(),
                total,
                i,
            )
        },
{
    proof {
        use_type_invariant(&*pmm);
    }
    if pmm.initialized {
        return Err(PmmError::AlreadyInitialized);
    }
    let available = match validate_available_ranges(layout.available_regions()) {
        Ok(a) => a,
        Err(e) => return Err(e),
    };
    let total = available.frame_limit;
    let mut bitmap = zeroed_bitmap();
    set_all_used(&mut bitmap, total);
    let avail = layout.available_regions();
    let mut k: usize = 0;
    while k < avail.len()
        invariant
            total <= MAX_FRAMES,
            k <= avail@.len(),
            bitmap@.len() == BITMAP_WORDS,
            forall|i: int| 0 <= i < MAX_FRAMES ==> #[trigger] frame_bit(bitmap@, i) == (i < 64 * words_for(total as int)
                && !spans_apply(avail@.subrange(0, k as int), total as int, i)),
        decreases avail@.len() - k,
    {
        let ghost before = bitmap@;
        if let Some((start_frame, end_frame)) = span_to_frame_range(avail[k]) {
            clear_frames(&mut bitmap, total, start_frame, end_frame);
        }
        assert forall|i: int| 0 <= i < MAX_FRAMES implies #[trigger] frame_bit(bitmap@, i) == (i < 64 * words_for(total as int)
            && !spans_apply(avail@.subrange(0, k + 1), total as int, i)) by {
            lemma_spans_apply_extend(avail@, k as int, total as int, i);
        }
        k = k + 1;
    }
    assert(avail@.subrange(0, avail@.len() as int) == avail@);
    let res = layout.reserved_ranges();
    let mut k: usize = 0;
    while k < res.len()
        invariant
            total <= MAX_FRAMES,
            k <= res@.len(),
            bitmap@.len() == BITMAP_WORDS,
            forall|i: int| 0 <= i < MAX_FRAMES ==> #[trigger] frame_bit(bitmap@, i) == (spans_apply(res@.subrange(0, k as int), total as int, i)
                || (i < 64 * words_for(total as int) && !spans_apply(avail@, total as int, i))),
        decreases res@.len() - k,
    {
        if let Some((start_frame, end_frame)) = span_to_frame_range(res[k]) {
            set_frames(&mut bitmap, total, start_frame, end_frame);
        }
        assert forall|i: int| 0 <= i < MAX_FRAMES implies #[trigger] frame_bit(bitmap@, i) == (spans_apply(res@.subrange(0, k + 1), total as int, i)
            || (i < 64 * words_for(total as int) && !spans_apply(avail@, total as int, i))) by {
            lemma_spans_apply_extend(res@, k as int, total as int, i);
        }
        k = k + 1;
    }
    assert(res@.subrange(0, res@.len() as int) == res@);
    *pmm = FrameAllocator {
        initialized: true,
        total_frames: total,
        usable_frames: available.usable_frames,
        bitmap,
    };
    assert forall|i: int| 0 <= i < MAX_FRAMES implies #[trigger] pmm@.used[i] == layout_used(
        layout.available(),
        layout.reserved(),
        total as int,
        i,
    ) by {
        assert(pmm@.used[i] == frame_bit(pmm.bitmap@, i));
    }
    Ok(())
}

/// Giving back the frame just handed out succeeds and leaves the allocator
/// as it was before the allocation.
pub proof fn law_free_undoes_alloc(v: PmmView, f: int)
    requires
        view_wf(v),
        v.initialized,
        is_lowest_free(v, f),
    ensures
        free_result(allocated(v, f), f) == Ok::<(), PmmError>(()),
        freed(allocated(v, f), f) == v,
{
    assert(freed(allocated(v, f), f).used =~= v.used);
}

/// A frame that is free cannot be given back: the release is refused as a
/// double free and changes nothing.
pub proof fn law_double_free_refused(v: PmmView, f: int)
    requires
        v.initialized,
        0 <= f < v.total_frames,
        !v.used[f],
    ensures
        free_result(v, f) == Err::<(), PmmError>(PmmError::DoubleFree),
{
}

/// Handing out a frame leaves one free frame fewer; giving one back leaves
/// one more.
pub proof fn law_free_count(v: PmmView, f: int)
    requires
        view_wf(v),
        0 <= f < v.total_frames,
    ensures
        !v.used[f] ==> free_below(allocated(v, f).used, v.total_frames as int) + 1 == free_below(v.used, v.total_frames as int),
        v.used[f] ==> free_below(freed(v, f).used, v.total_frames as int) == free_below(v.used, v.total_frames as int) + 1,
{
    lemma_free_below_update(v.used, f, true, v.total_frames as int);
    lemma_free_below_update(v.used, f, false, v.total_frames as int);
}

/// Allocation fails for want of memory exactly when no tracked frame is
/// free; otherwise there is a lowest free frame, and only one.
pub proof fn law_out_of_memory_iff_full(v: PmmView)
    requires
        view_wf(v),
    ensures
        all_used(v) == (free_below(v.used, v.total_frames as int) == 0),
        !all_used(v) ==> exists|f: int| is_lowest_free(v, f),
        forall|f: int, g: int| is_lowest_free(v, f) && is_lowest_free(v, g) ==> f == g,
{
    lemma_free_below_zero(v.used, v.total_frames as int);
    if !all_used(v) {
        let k = choose|k: int| 0 <= k < v.total_frames && !v.used[k];
        lemma_lowest_free_exists(v, k);
    }
}

proof fn lemma_lowest_free_exists(v: PmmView, k: int)
    requires
        0 <= k < v.total_frames,
        !v.used[k],
    ensures
        exists|f: int| is_lowest_free(v, f),
    decreases k,
{
    if forall|j: int| 0 <= j < k ==> #[trigger] v.used[j] {
        assert(is_lowest_free(v, k));
    } else {
        let j = choose|j: int| 0 <= j < k && !v.used[j];
        lemma_lowest_free_exists(v, j);
    }
}

/// Splits a frame index into its bitmap word and bit.
fn split_index(frame_idx: usize) -> (r: (usize, usize))
    ensures
        r.0 == frame_idx / 64,
        r.1 == frame_idx % 64,
    no_unwind
{
    (frame_idx / 64, frame_idx % 64)
}

/// Marks one frame used.
fn bitmap_set(bitmap: &mut Vec<u64>, frame_idx: usize)
    requires
        old(bitmap)@.len() == BITMAP_WORDS,
        frame_idx < MAX_FRAMES,
    ensures
        final(bitmap)@.len() == BITMAP_WORDS,
        used_seq(final(bitmap)@) == used_seq(old(bitmap)@).update(frame_idx as int, true),
        forall|i: int| 0 <= i < MAX_FRAMES ==> #[trigger] frame_bit(final(bitmap)@, i) == if i == frame_idx {
            true
        } else {
            frame_bit(old(bitmap)@, i)
        },
    no_unwind
{
    let (word_idx, bit_idx) = split_index(frame_idx);
    let old_word = bitmap[word_idx];
    proof {
        lemma_single_bit(old_word, bit_idx as u64);
    }
    bitmap[word_idx] = old_word | (1u64 << (bit_idx as u64));
    assert(used_seq(bitmap@) =~= used_seq(old(bitmap)@).update(frame_idx as int, true));
}

/// Marks one frame free.
fn bitmap_clear(bitmap: &mut Vec<u64>, frame_idx: usize)
    requires
        old(bitmap)@.len() == BITMAP_WORDS,
        frame_idx < MAX_FRAMES,
    ensures
        final(bitmap)@.len() == BITMAP_WORDS,
        used_seq(final(bitmap)@) == used_seq(old(bitmap)@).update(frame_idx as int, false),
        forall|i: int| 0 <= i < MAX_FRAMES ==> #[trigger] frame_bit(final(bitmap)@, i) == if i == frame_idx {
            false
        } else {
            frame_bit(old(bitmap)@, i)
        },
    no_unwind
{
    let (word_idx, bit_idx) = split_index(frame_idx);
    let old_word = bitmap[word_idx];
    proof {
        lemma_single_bit(old_word, bit_idx as u64);
    }
    bitmap[word_idx] = old_word & !(1u64 << (bit_idx as u64));
    assert(used_seq(bitmap@) =~= used_seq(old(bitmap)@).update(frame_idx as int, false));
}

/// Tells whether one frame is marked used.
fn bitmap_test(bitmap: &Vec<u64>, frame_idx: usize) -> (r: bool)
    requires
        bitmap@.len() == BITMAP_WORDS,
        frame_idx < MAX_FRAMES,
    ensures
        r == frame_bit(bitmap@, frame_idx as int),
{
    let (word_idx, bit_idx) = split_index(frame_idx);
    proof {
        lemma_single_bit(bitmap@[word_idx as int], bit_idx as u64);
    }
    (bitmap[word_idx] & (1u64 << (bit_idx as u64))) != 0
}

fn ensure_initialized(pmm: &FrameAllocator) -> (r: Result<(), PmmError>)
    ensures
        r == if pmm@.initialized {
            Ok::<(), PmmError>(())
        } else {
            Err(PmmError::NotInitialized)
        },
{
    if !pmm.initialized {
        return Err(PmmError::NotInitialized);
    }
    Ok(())
}

/// Counts the free frames in the words that cover `total_frames`.
fn count_free_frames(bitmap: &Vec<u64>, total_frames: usize) -> (r: usize)
    requires
        bitmap@.len() == BITMAP_WORDS,
        total_frames <= MAX_FRAMES,
    ensures
        r == free_below(used_seq(bitmap@), 64 * words_for(total_frames as int)),
{
    let words = bitmap_words_for_total(total_frames);
    let ghost used = used_seq(bitmap@);
    let mut count: usize = 0;
    let mut w: usize = 0;
    while w < words
        invariant
            words <= BITMAP_WORDS,
            words == words_for(total_frames as int),
            w <= words,
            bitmap@.len() == BITMAP_WORDS,
            used == used_seq(bitmap@),
            count == free_below(used, 64 * w),
        decreases words - w,
    {
        let word = bitmap[w];
        let mut b: usize = 0;
        while b < 64
            invariant
                w < words <= BITMAP_WORDS,
                b <= 64,
                bitmap@.len() == BITMAP_WORDS,
                used == used_seq(bitmap@),
                word == bitmap@[w as int],
                count == free_below(used, 64 * w + b),
            decreases 64 - b,
        {
            proof {
                lemma_free_below_bound(used, 64 * w + b);
                lemma_single_bit(word, b as u64);
                let i = 64 * w + b;
                assert(i / 64 == w && i % 64 == b);
                assert(used[i] == frame_bit(bitmap@, i));
            }
            if word & (1u64 << (b as u64)) == 0 {
                count = count + 1;
            }
            b = b + 1;
        }
        w = w + 1;
    }
    count
}

/// Hands out the lowest free frame and marks it used.
pub fn alloc_frame(pmm: &mut FrameAllocator) -> (r: Result<PhysFrame, PmmError>)
    ensures
        view_wf(old(pmm)@),
        view_wf(final(pmm)@),
        !old(pmm)@.initialized ==> r == Err::<PhysFrame, PmmError>(PmmError::NotInitialized) && final(pmm)@ == old(pmm)@,
        old(pmm)@.initialized ==> match r {
            Ok(frame) => {
                &&& is_lowest_free(old(pmm)@, frame@ as int)
                &&& final(pmm)@ == allocated(old(pmm)@, frame@ as int)
            },
            Err(e) => {
                &&& e == PmmError::OutOfMemory
                &&& all_used(old(pmm)@)
                &&& final(pmm)@ == old(pmm)@
            },
        },
{
    proof {
        use_type_invariant(&*pmm);
    }
    if let Err(e) = ensure_initialized(pmm) {
        return Err(e);
    }
    let total = pmm.total_frames;
    let words = bitmap_words_for_total(total);
    let mut word_idx: usize = 0;
    while word_idx < words
        invariant
            word_idx <= words,
            words == words_for(total as int),
            total == pmm.total_frames,
            pmm.initialized,
            pmm@ == old(pmm)@,
            pmm.bitmap@.len() == BITMAP_WORDS,
            pmm.total_frames <= MAX_FRAMES,
            pmm.usable_frames <= pmm.total_frames,
            forall|i: int| 64 * words_for(pmm.total_frames as int) <= i < MAX_FRAMES ==> !#[trigger] frame_bit(pmm.bitmap@, i),
            forall|j: int| 0 <= j < 64 * word_idx ==> #[trigger] frame_bit(pmm.bitmap@, j),
            forall|i: int| pmm.total_frames <= i < 64 * words_for(pmm.total_frames as int) ==> #[trigger] frame_bit(pmm.bitmap@, i),
        decreases words - word_idx,
    {
        let word = pmm.bitmap[word_idx];
        if word == u64::MAX {
            proof {
                lemma_bits_full_empty();
                assert forall|j: int| 0 <= j < 64 * (word_idx + 1) implies #[trigger] frame_bit(pmm.bitmap@, j) by {
                    if j >= 64 * word_idx {
                        assert(j / 64 == word_idx);
                    }
                }
            }
            word_idx = word_idx + 1;
            continue;
        }
        let flipped = !word;
        proof {
            vstd::std_specs::bits::axiom_u64_trailing_zeros(flipped);
            assert(flipped != 0) by (bit_vector)
                requires word != u64::MAX, flipped == !word;
            assert(forall|j: u64| j < 64 ==> (#[trigger] ((flipped >> j) & 1u64) == 0u64 <==> (word >> j) & 1u64 == 1u64)) by (bit_vector)
                requires flipped == !word;
        }
        let bit_idx = flipped.trailing_zeros() as usize;
        let frame_idx = word_idx * 64 + bit_idx;
        proof {
            assert(frame_idx / 64 == word_idx && frame_idx % 64 == bit_idx);
            assert(!frame_bit(pmm.bitmap@, frame_idx as int));
            assert forall|j: int| 0 <= j < frame_idx implies #[trigger] frame_bit(pmm.bitmap@, j) by {
                if j >= 64 * word_idx {
                    assert(j / 64 == word_idx);
                    let jb = (j % 64) as u64;
                    assert(jb < bit_idx);
                    assert((flipped >> jb) & 1u64 == 0u64);
                }
            }
        }
        if frame_idx >= pmm.total_frames {
            return Err(PmmError::OutOfMemory);
        }
        let ghost before = pmm@;
        bitmap_set(&mut pmm.bitmap, frame_idx);
        let frame = PhysFrame { index: frame_idx };
        assert(pmm@ =~= PmmView { used: before.used.update(frame_idx as int, true), ..before });
        return Ok(frame);
    }
    proof {
        assert forall|j: int| 0 <= j < pmm.total_frames implies #[trigger] frame_bit(pmm.bitmap@, j) by {
            assert(j < 64 * words_for(pmm.total_frames as int));
        }
    }
    Err(PmmError::OutOfMemory)
}

/// Gives a used frame back.
pub fn free_frame(pmm: &mut FrameAllocator, frame: PhysFrame) -> (r: Result<(), PmmError>)
    ensures
        view_wf(old(pmm)@),
        view_wf(final(pmm)@),
        r == free_result(old(pmm)@, frame@ as int),
        (r is Ok) ==> final(pmm)@ == freed(old(pmm)@, frame@ as int),
        (r is Err) ==> final(pmm)@ == old(pmm)@,
{
    proof {
        use_type_invariant(&*pmm);
        use_type_invariant(&frame);
    }
    if let Err(e) = ensure_initialized(pmm) {
        return Err(e);
    }
    if frame.index >= pmm.total_frames {
        return Err(PmmError::OutOfRange);
    }
    if !bitmap_test(&pmm.bitmap, frame.index) {
        return Err(PmmError::DoubleFree);
    }
    let ghost before = pmm@;
    bitmap_clear(&mut pmm.bitmap, frame.index);
    assert(pmm@ =~= PmmView { used: before.used.update(frame@ as int, false), ..before });
    Ok(())
}

/// Frame counts: `free_frames` counts the free tracked frames, and
/// `used_frames` is what remains of `usable_frames` (zero at least).
pub fn stats(pmm: &FrameAllocator) -> (r: Result<PmmStats, PmmError>)
    ensures
        view_wf(pmm@),
        !pmm@.initialized ==> r == Err::<PmmStats, PmmError>(PmmError::NotInitialized),
        pmm@.initialized ==> r == Ok::<PmmStats, PmmError>((PmmStats {
            tracked_frames: pmm@.total_frames as usize,
            usable_frames: pmm@.usable_frames as usize,
            used_frames: if pmm@.usable_frames >= free_below(pmm@.used, pmm@.total_frames as int) {
                (pmm@.usable_frames - free_below(pmm@.used, pmm@.total_frames as int)) as usize
            } else {
                0
            },
            free_frames: free_below(pmm@.used, pmm@.total_frames as int) as usize,
        })),
        free_below(pmm@.used, pmm@.total_frames as int) <= pmm@.total_frames,
{
    proof {
        use_type_invariant(pmm);
        lemma_free_below_used_tail(pmm@.used, pmm@.total_frames as int, 64 * words_for(pmm@.total_frames as int));
        lemma_free_below_bound(pmm@.used, pmm@.total_frames as int);
    }
    if let Err(e) = ensure_initialized(pmm) {
        return Err(e);
    }
    let free_frames = count_free_frames(&pmm.bitmap, pmm.total_frames);
    let used_frames = pmm.usable_frames.saturating_sub(free_frames);
    Ok(PmmStats {
        tracked_frames: pmm.total_frames,
        usable_frames: pmm.usable_frames,
        used_frames,
        free_frames,
    })
}

} // verus!
