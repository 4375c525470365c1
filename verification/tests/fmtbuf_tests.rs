use kernel::fmtbuf::{fmt_line, push_decimal, push_hex_prefixed, push_str, BufferFull, FixedBuf};

#[test]
fn fixed_buf_keeps_what_fits() {
    let mut b = FixedBuf::new(vec![0u8; 8]);
    assert_eq!(b.write_str("abc"), Ok(()));
    assert_eq!(b.as_bytes(), b"abc");
    assert_eq!(b.write_str("defgh"), Ok(()));
    assert_eq!(b.as_bytes(), b"abcdefgh");
    assert_eq!(b.write_str("i"), Err(BufferFull));
    assert_eq!(b.into_bytes(), b"abcdefgh".to_vec());
}

#[test]
fn fixed_buf_partial_write() {
    let mut b = FixedBuf::new(vec![0u8; 4]);
    assert_eq!(b.write_bytes(b"hello"), Err(BufferFull));
    assert_eq!(b.as_bytes(), b"hell");
}

#[test]
fn fixed_buf_empty_capacity() {
    let mut b = FixedBuf::new(Vec::new());
    assert_eq!(b.write_str(""), Ok(()));
    assert_eq!(b.write_str("x"), Err(BufferFull));
    assert_eq!(b.as_bytes(), b"");
}

#[test]
fn decimal_digits() {
    let mut v = Vec::new();
    push_decimal(&mut v, 0);
    assert_eq!(v, b"0".to_vec());
    let mut v = b"n=".to_vec();
    push_decimal(&mut v, 16384);
    assert_eq!(v, b"n=16384".to_vec());
    let mut v = Vec::new();
    push_decimal(&mut v, u64::MAX);
    assert_eq!(v, u64::MAX.to_string().into_bytes());
}

#[test]
fn hex_digits_like_format() {
    for (n, w) in [(0u64, 0usize), (255, 0), (0x1234, 18), (u64::MAX, 18), (0xabc, 4), (0xdead_beef, 2)] {
        let mut v = Vec::new();
        push_hex_prefixed(&mut v, n, w);
        assert_eq!(v, format!("{:#0w$x}", n, w = w).into_bytes());
    }
}

#[test]
fn push_str_and_fmt_line() {
    let mut v = Vec::new();
    push_str(&mut v, "héllo");
    assert_eq!(v, "héllo".as_bytes().to_vec());
    assert_eq!(fmt_line(3, b"abcdef"), b"abc".to_vec());
    assert_eq!(fmt_line(10, b"abc"), b"abc".to_vec());
}
