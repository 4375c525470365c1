use kernel::boot::multiboot2::{BootInfoError, BootInfoSummary, MemoryMapEntry, MemoryMapHeader, MultibootInfo};

fn tag(typ: u32, payload: &[u8]) -> Vec<u8> {
    let mut t = Vec::new();
    t.extend_from_slice(&typ.to_le_bytes());
    t.extend_from_slice(&((8 + payload.len()) as u32).to_le_bytes());
    t.extend_from_slice(payload);
    while t.len() % 8 != 0 {
        t.push(0);
    }
    t
}

fn mmap_payload(entries: &[(u64, u64, u32)]) -> Vec<u8> {
    let mut p = Vec::new();
    p.extend_from_slice(&24u32.to_le_bytes());
    p.extend_from_slice(&0u32.to_le_bytes());
    for &(base, len, typ) in entries {
        p.extend_from_slice(&base.to_le_bytes());
        p.extend_from_slice(&len.to_le_bytes());
        p.extend_from_slice(&typ.to_le_bytes());
        p.extend_from_slice(&0u32.to_le_bytes());
    }
    p
}

fn image(tags: &[Vec<u8>]) -> Vec<u8> {
    let mut body = Vec::new();
    for t in tags {
        body.extend_from_slice(t);
    }
    body.extend_from_slice(&tag(0, &[]));
    let total = (8 + body.len()) as u32;
    let mut img = Vec::new();
    img.extend_from_slice(&total.to_le_bytes());
    img.extend_from_slice(&0u32.to_le_bytes());
    img.extend_from_slice(&body);
    img
}

#[test]
fn parse_checks_pointer_and_size() {
    let img = image(&[]);
    assert_eq!(MultibootInfo::parse(0, &img).err(), Some(BootInfoError::NullPointer));
    assert_eq!(MultibootInfo::parse(0x1004, &img).err(), Some(BootInfoError::MisalignedPointer));
    assert_eq!(MultibootInfo::parse(0x1000, &[4, 0, 0, 0, 0, 0, 0, 0]).err(), Some(BootInfoError::InvalidSize));
    assert_eq!(MultibootInfo::parse(0x1000, &[0, 0]).err(), Some(BootInfoError::InvalidSize));
    let big = (64 * 1024 + 8) as u32;
    let mut huge = big.to_le_bytes().to_vec();
    huge.resize(big as usize, 0);
    assert_eq!(MultibootInfo::parse(0x1000, &huge).err(), Some(BootInfoError::InvalidSize));
    // the size field asks for more bytes than there are
    assert_eq!(MultibootInfo::parse(0x1000, &img[..img.len() - 1]).err(), Some(BootInfoError::InvalidSize));
    let info = MultibootInfo::parse(0x1000, &img).unwrap();
    assert_eq!(info.total_size(), img.len());
}

#[test]
fn parse_takes_declared_size_only() {
    let mut img = image(&[]);
    let total = img.len();
    img.extend_from_slice(&[0xff; 16]);
    let info = MultibootInfo::parse(8, &img).unwrap();
    assert_eq!(info.total_size(), total);
}

#[test]
fn summary_counts_tags() {
    let img = image(&[tag(1, b"cmdline\0"), tag(6, &mmap_payload(&[(0, 0x9fc00, 1)])), tag(8, &[0u8; 20])]);
    let info = MultibootInfo::parse(0x2000, &img).unwrap();
    let s = info.summary();
    assert_eq!(s, BootInfoSummary { has_mmap: true, has_framebuffer: true, tag_count: 3 });
    assert_eq!(s.label(), "boot info: mmap + framebuffer tags found");
}

#[test]
fn summary_labels() {
    let mk = |m, f| BootInfoSummary { has_mmap: m, has_framebuffer: f, tag_count: 0 };
    assert_eq!(mk(true, false).label(), "boot info: mmap tag found");
    assert_eq!(mk(false, true).label(), "boot info: framebuffer tag found");
    assert_eq!(mk(false, false).label(), "boot info: parsed, no mmap/framebuffer tags");
}

#[test]
fn tags_walk_in_order_and_stop_at_end() {
    let img = image(&[tag(1, b"abc"), tag(2, b"0123456789")]);
    let info = MultibootInfo::parse(8, &img).unwrap();
    let mut it = info.tags();
    let t1 = it.next().unwrap();
    assert_eq!((t1.typ, t1.payload), (1, &b"abc"[..]));
    let t2 = it.next().unwrap();
    assert_eq!((t2.typ, t2.payload), (2, &b"0123456789"[..]));
    assert!(it.next().is_none());
    assert!(it.next().is_none());
}

#[test]
fn tag_with_bad_size_stops_the_walk() {
    let mut bad = tag(5, b"xxxxxxxx");
    bad[4..8].copy_from_slice(&4u32.to_le_bytes());
    let img = image(&[tag(1, b"a"), bad, tag(2, b"b")]);
    let info = MultibootInfo::parse(8, &img).unwrap();
    assert_eq!(info.summary().tag_count, 1);
}

#[test]
fn memory_map_entries() {
    let img = image(&[tag(6, &mmap_payload(&[(0, 0x9fc00, 1), (0x100000, 0x7f00000, 1), (0xfffc0000, 0x40000, 2)]))]);
    let info = MultibootInfo::parse(8, &img).unwrap();
    let (header, mut it) = info.memory_map().unwrap();
    assert_eq!(header, MemoryMapHeader { entry_size: 24, entry_version: 0 });
    let e1 = it.next().unwrap();
    assert_eq!(e1, MemoryMapEntry { base_addr: 0, length: 0x9fc00, typ: 1 });
    assert!(e1.is_available());
    assert_eq!(it.next().unwrap().base_addr, 0x100000);
    let e3 = it.next().unwrap();
    assert_eq!(e3.typ, 2);
    assert!(!e3.is_available());
    assert!(it.next().is_none());
}

#[test]
fn memory_map_missing_or_malformed() {
    let img = image(&[tag(1, b"abc")]);
    assert!(MultibootInfo::parse(8, &img).unwrap().memory_map().is_none());
    let img = image(&[tag(6, &[24, 0, 0, 0])]);
    assert!(MultibootInfo::parse(8, &img).unwrap().memory_map().is_none());
    let mut p = mmap_payload(&[]);
    p[0..4].copy_from_slice(&16u32.to_le_bytes());
    let img = image(&[tag(6, &p)]);
    assert!(MultibootInfo::parse(8, &img).unwrap().memory_map().is_none());
}

#[test]
fn tag_walk_yields_at_most_one_tag_per_eight_bytes() {
    let img = image(&[tag(1, b""), tag(2, b""), tag(3, b"")]);
    let info = MultibootInfo::parse(8, &img).unwrap();
    let mut it = info.tags();
    let mut count = 0usize;
    while it.next().is_some() {
        count += 1;
    }
    assert_eq!(count, 3);
    assert!(count * 8 <= info.total_size() - 8);
    assert!(it.next().is_none());
}
