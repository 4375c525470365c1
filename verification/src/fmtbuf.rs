use vstd::prelude::*;
use vstd::string::StringSliceAdditionalSpecFns;

verus! {

/// A write did not fit: the buffer is full.
#[derive(Clone, Copy, Debug, PartialEq, Eq, Structural)]
pub struct BufferFull;

/// Text written into a fixed buffer; writing past its end fails and keeps
/// what fitted.
pub struct FixedBuf {
    buf: Vec<u8>,
    pos: usize,
}

impl View for FixedBuf {
    type V = Seq<u8>;

    /// The bytes written so far.
    closed spec fn view(&self) -> Seq<u8> {
        self.buf@.subrange(0, self.pos as int)
    }
}

/// The first `n` bytes of `s`, or all of it when it is shorter.
pub open spec fn clip(s: Seq<u8>, n: int) -> Seq<u8> {
    if s.len() <= n {
        s
    } else {
        s.subrange(0, n)
    }
}

impl FixedBuf {
    #[verifier::type_invariant]
    spec fn pos_in_buf(self) -> bool {
        self.pos <= self.buf@.len()
    }

    pub closed spec fn capacity(&self) -> nat {
        self.buf@.len()
    }

    /// A writer into `buf`, empty at first; its capacity is `buf`'s length.
    pub fn new(buf: Vec<u8>) -> (r: Self)
        ensures
            r@ == Seq::<u8>::empty(),
            r.capacity() == buf@.len(),
    {
        FixedBuf { buf, pos: 0 }
    }

    /// Appends `bytes`; when they do not all fit, the part that fits is
    /// kept and `BufferFull` comes back.
    pub fn write_bytes(&mut self, bytes: &[u8]) -> (r: Result<(), BufferFull>)
        ensures
            final(self).capacity() == old(self).capacity(),
            final(self)@ == clip(old(self)@ + bytes@, old(self).capacity() as int),
            (r is Ok) == (old(self)@.len() + bytes@.len() <= old(self).capacity()),
    {
        proof {
            use_type_invariant(&*self);
        }
        let mut i: usize = 0;
        let ghost start = self@;
        while i < bytes.len()
            invariant
                i <= bytes@.len(),
                self.pos <= self.buf@.len(),
                self.buf@.len() == old(self).capacity(),
                self.pos == start.len() + i,
                self@ == start + bytes@.subrange(0, i as int),
                start == old(self)@,
            decreases bytes@.len() - i,
        {
            if self.pos >= self.buf.len() {
                assert(self@ =~= clip(start + bytes@, old(self).capacity() as int));
                return Err(BufferFull);
            }
            let b = bytes[i];
            let p = self.pos;
            let ghost prev = self.buf@;
            self.buf[p] = b;
            self.pos = p + 1;
            i = i + 1;
            assert(self.buf@.subrange(0, p as int) =~= prev.subrange(0, p as int));
            assert(bytes@.subrange(0, i as int) =~= bytes@.subrange(0, i - 1).push(b));
            assert(self@ =~= self.buf@.subrange(0, p as int).push(b));
            assert(self@ =~= start + bytes@.subrange(0, i as int));
        }
        assert(bytes@.subrange(0, i as int) =~= bytes@);
        Ok(())
    }

    /// Appends the UTF-8 bytes of `s`, as `write_bytes` does.
    pub fn write_str(&mut self, s: &str) -> (r: Result<(), BufferFull>)
        ensures
            final(self).capacity() == old(self).capacity(),
            final(self)@ == clip(old(self)@ + s.spec_bytes(), old(self).capacity() as int),
            (r is Ok) == (old(self)@.len() + s.spec_bytes().len() <= old(self).capacity()),
    {
        self.write_bytes(s.as_bytes())
    }

    /// The bytes written so far.
    pub fn as_bytes(&self) -> (r: &[u8])
        ensures
            r@ == self@,
    {
        proof {
            use_type_invariant(self);
        }
        &self.buf.as_slice()[0..self.pos]
    }

    /// The bytes written, as an owned vector.
    pub fn into_bytes(self) -> (r: Vec<u8>)
        ensures
            r@ == self@,
    {
        proof {
            use_type_invariant(&self);
        }
        let mut v = self.buf;
        v.truncate(self.pos);
        v
    }
}

/// The ASCII digit for `d` in base 16, lower case.
pub open spec fn hex_digit(d: nat) -> u8 {
    if d < 10 {
        (48 + d) as u8
    } else {
        (87 + d) as u8
    }
}

/// Decimal digits of `n`, no leading zeros.
pub open spec fn decimal(n: nat) -> Seq<u8>
    decreases n,
{
    if n < 10 {
        seq![(48 + n) as u8]
    } else {
        decimal(n / 10).push((48 + n % 10) as u8)
    }
}

/// Lower-case hexadecimal digits of `n`, no leading zeros.
pub open spec fn hex(n: nat) -> Seq<u8>
    decreases n,
{
    if n < 16 {
        seq![hex_digit(n)]
    } else {
        hex(n / 16).push(hex_digit(n % 16))
    }
}

/// `k` ASCII zeros.
pub open spec fn zeros(k: int) -> Seq<u8> {
    Seq::new(if k > 0 { k as nat } else { 0 }, |i: int| 48u8)
}

/// `0x` and the hexadecimal digits of `n`, zero-filled to `width` bytes in
/// all (the format `{:#0width$x}`; `{:#x}` has width 0).
pub open spec fn hex_prefixed(n: nat, width: int) -> Seq<u8> {
    seq![48u8, 120u8] + zeros(width - 2 - hex(n).len()) + hex(n)
}

/// Appends the UTF-8 bytes of `s`.
pub fn push_str(out: &mut Vec<u8>, s: &str)
    ensures
        final(out)@ == old(out)@ + s.spec_bytes(),
{
    let bytes = s.as_bytes();
    let mut i: usize = 0;
    while i < bytes.len()
        invariant
            i <= bytes@.len(),
            bytes@ == s.spec_bytes(),
            out@ == old(out)@ + bytes@.subrange(0, i as int),
        decreases bytes@.len() - i,
    {
        out.push(bytes[i]);
        i = i + 1;
        assert(out@ =~= old(out)@ + bytes@.subrange(0, i as int));
    }
    assert(bytes@.subrange(0, i as int) =~= bytes@);
}

/// The first `capacity` bytes of `text`: what a buffer of that size keeps.
pub fn fmt_line(capacity: usize, text: &[u8]) -> (r: Vec<u8>)
    ensures
        r@ == clip(text@, capacity as int),
{
    let mut b = FixedBuf::new(vec![0u8; capacity]);
    let _ = b.write_bytes(text);
    proof {
        assert(Seq::<u8>::empty() + text@ =~= text@);
    }
    b.into_bytes()
}

/// Appends the decimal digits of `n`.
pub fn push_decimal(out: &mut Vec<u8>, n: u64)
    ensures
        final(out)@ == old(out)@ + decimal(n as nat),
    decreases n,
{
    if n >= 10 {
        push_decimal(out, n / 10);
    }
    out.push(48 + (n % 10) as u8);
    proof {
        if n >= 10 {
            assert(decimal(n as nat) == decimal((n / 10) as nat).push((48 + n % 10) as u8));
        }
    }
}

spec fn pow16(k: nat) -> nat
    decreases k,
{
    if k == 0 {
        1
    } else {
        16 * pow16((k - 1) as nat)
    }
}

proof fn lemma_hex_len_bound(n: nat, k: nat)
    requires
        k >= 1,
        n < pow16(k),
    ensures
        1 <= hex(n).len() <= k,
    decreases k,
{
    if n >= 16 {
        let p = pow16((k - 1) as nat);
        assert(k >= 2) by {
            if k == 1 {
                assert(pow16(1) == 16 * pow16(0));
            }
        }
        assert(n / 16 < p) by (nonlinear_arith)
            requires n < 16 * p;
        lemma_hex_len_bound(n / 16, (k - 1) as nat);
    }
}

proof fn lemma_hex_len(n: nat)
    requires
        n <= u64::MAX,
    ensures
        1 <= hex(n).len() <= 16,
{
    assert(pow16(16) == 0x1_0000_0000_0000_0000) by {
        reveal_with_fuel(pow16, 17);
    }
    lemma_hex_len_bound(n, 16);
}

/// Number of hexadecimal digits of `n`.
fn hex_len(n: u64) -> (r: usize)
    ensures
        r == hex(n as nat).len(),
        1 <= r <= 16,
    decreases n,
{
    proof {
        lemma_hex_len(n as nat);
    }
    if n < 16 {
        1
    } else {
        hex_len(n / 16) + 1
    }
}

fn push_hex_digits(out: &mut Vec<u8>, n: u64)
    ensures
        final(out)@ == old(out)@ + hex(n as nat),
    decreases n,
{
    if n >= 16 {
        push_hex_digits(out, n / 16);
    }
    let d = (n % 16) as u8;
    let c = if d < 10 { 48 + d } else { 87 + d };
    out.push(c);
    proof {
        if n >= 16 {
            assert(hex(n as nat) == hex((n / 16) as nat).push(hex_digit((n % 16) as nat)));
        }
    }
}

/// Appends `n` in the format `{:#0width$x}`: `0x`, then its hexadecimal
/// digits zero-filled to `width` bytes in all.
pub fn push_hex_prefixed(out: &mut Vec<u8>, n: u64, width: usize)
    ensures
        final(out)@ == old(out)@ + hex_prefixed(n as nat, width as int),
{
    out.push(48);
    out.push(120);
    let digits = hex_len(n);
    let mut filled: usize = 0;
    let fill = if width >= 2 + digits { width - 2 - digits } else { 0 };
    let ghost start = old(out)@ + seq![48u8, 120u8];
    assert(out@ =~= start);
    while filled < fill
        invariant
            filled <= fill,
            fill == if width - 2 - hex(n as nat).len() > 0 { width - 2 - hex(n as nat).len() } else { 0 },
            out@ == start + zeros(filled as int),
        decreases fill - filled,
    {
        out.push(48);
        filled = filled + 1;
        assert(out@ =~= start + zeros(filled as int));
    }
    push_hex_digits(out, n);
    assert(out@ =~= old(out)@ + hex_prefixed(n as nat, width as int));
}

} // verus!
