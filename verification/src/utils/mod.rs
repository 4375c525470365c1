use vstd::prelude::*;
use vstd::arithmetic::power2::pow2;

pub mod console;

verus! {

/// One byte written to an I/O port.
#[derive(Clone, Copy, Debug, PartialEq, Eq, Structural)]
pub struct PortWrite {
    pub port: u16,
    pub value: u8,
}

/// `align` is a power of two that a `usize` can hold.
pub open spec fn is_power_of_two(align: usize) -> bool {
    exists|k: nat| k < usize::BITS && align == pow2(k)
}

/// The smallest multiple of `align` that is at least `value`.
pub open spec fn round_up(value: int, align: int) -> int {
    ((value + align - 1) / align) * align
}

/// The largest multiple of `align` that is at most `value`.
pub open spec fn round_down(value: int, align: int) -> int {
    (value / align) * align
}

/// A power of two whose exponent is known is a power of two.
pub proof fn lemma_pow2_is_power_of_two(align: usize, k: nat)
    requires
        k < usize::BITS,
        align == pow2(k),
    ensures
        is_power_of_two(align),
{
}

/// Zero is no power of two.
pub proof fn lemma_zero_not_power_of_two()
    ensures
        !is_power_of_two(0),
{
    assert forall|k: nat| k < usize::BITS implies pow2(k) != 0 by {
        vstd::arithmetic::power2::lemma_pow2_pos(k);
    }
}

proof fn lemma_mask_rounds_down(x: usize, align: usize)
    requires
        is_power_of_two(align),
    ensures
        (x & !((align - 1) as usize)) as int == round_down(x as int, align as int),
{
    let k = choose|k: nat| k < usize::BITS && align == pow2(k);
    vstd::bits::lemma_usize_pow2_no_overflow(k);
    vstd::bits::lemma_usize_low_bits_mask_is_mod(x, k);
    let m = x & !((align - 1) as usize);
    let low = x & ((align - 1) as usize);
    assert(low == x % align);
    assert(m + low == x) by (bit_vector)
        requires
            m == x & !((align - 1) as usize),
            low == x & ((align - 1) as usize);
    vstd::arithmetic::div_mod::lemma_fundamental_div_mod(x as int, align as int);
    assert(m as int == round_down(x as int, align as int)) by (nonlinear_arith)
        requires
            m + low == x,
            low == x % align,
            align > 0,
            x == align * (x / align) + x % align,
    {
    }
}

/// Tells whether `align` is a power of two.
pub fn is_power_of_two_exec(align: usize) -> (r: bool)
    ensures
        r == is_power_of_two(align),
{
    let mut k: u32 = 0;
    while k < usize::BITS
        invariant
            k <= usize::BITS,
            forall|j: nat| j < k ==> align != pow2(j),
        decreases usize::BITS - k,
    {
        proof {
            vstd::bits::lemma_usize_pow2_no_overflow(k as nat);
            vstd::bits::lemma_usize_shl_is_mul(1, k as usize);
        }
        if align == 1usize << (k as usize) {
            return true;
        }
        k = k + 1;
    }
    false
}

/// Rounds `value` up to the nearest multiple of `align`; `None` when that
/// multiple does not fit in a `usize`.
pub fn align_up(value: usize, align: usize) -> (r: Option<usize>)
    requires
        is_power_of_two(align),
    ensures
        match r {
            Some(v) => v == round_up(value as int, align as int)
                && value + align - 1 <= usize::MAX,
            None => value + align - 1 > usize::MAX,
        },
{
    proof {
        let k = choose|k: nat| k < usize::BITS && align == pow2(k);
        vstd::bits::lemma_usize_pow2_no_overflow(k);
    }
    match value.checked_add(align - 1) {
        Some(v) => {
            proof {
                lemma_mask_rounds_down(v, align);
            }
            Some(v & !(align - 1))
        },
        None => None,
    }
}

/// Rounds `value` down to the nearest multiple of `align`.
pub fn align_down(value: usize, align: usize) -> (r: usize)
    requires
        is_power_of_two(align),
    ensures
        r == round_down(value as int, align as int),
{
    proof {
        let k = choose|k: nat| k < usize::BITS && align == pow2(k);
        vstd::bits::lemma_usize_pow2_no_overflow(k);
        lemma_mask_rounds_down(value, align);
    }
    value & !(align - 1)
}

} // verus!
