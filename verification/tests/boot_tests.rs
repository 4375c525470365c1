use kernel::boot::source::{BootReport, BootSource, MULTIBOOT2_MAGIC};
use kernel::kmain::{boot_info_state_label, parse_boot_info_label, write_boot_line};

fn tag(typ: u32, payload: &[u8]) -> Vec<u8> {
    let mut t = Vec::new();
    t.extend_from_slice(&typ.to_le_bytes());
    t.extend_from_slice(&((8 + payload.len()) as u32).to_le_bytes());
    t.extend_from_slice(payload);
    while t.len() % 8 != 0 {
        t.push(0);
    }
    t
}

fn image(tags: &[Vec<u8>]) -> Vec<u8> {
    let mut body = Vec::new();
    for t in tags {
        body.extend_from_slice(t);
    }
    body.extend_from_slice(&tag(0, &[]));
    let mut img = ((8 + body.len()) as u32).to_le_bytes().to_vec();
    img.extend_from_slice(&0u32.to_le_bytes());
    img.extend_from_slice(&body);
    img
}

#[test]
fn detect_loader() {
    let r = BootReport::detect(MULTIBOOT2_MAGIC);
    assert_eq!(r, BootReport { source: BootSource::GrubMultiboot2, magic: 0x36d7_6289 });
    assert_eq!(r.source_label(), "boot source: grub multiboot2");
    assert_eq!(r.validation_label(), "boot validation: magic matched");
    let u = BootReport::detect(0x2badb002);
    assert_eq!(u.source, BootSource::Unknown);
    assert_eq!(u.magic, 0x2badb002);
    assert_eq!(u.source_label(), "boot source: unknown");
    assert_eq!(u.validation_label(), "boot validation: magic mismatch");
}

#[test]
fn boot_info_labels() {
    assert_eq!(parse_boot_info_label(0, &[]), "boot info: not parsed");
    assert_eq!(parse_boot_info_label(0x1003, &[]), "boot info: pointer misaligned");
    assert_eq!(parse_boot_info_label(0x1000, &[1, 0, 0, 0]), "boot info: invalid size");
    assert_eq!(parse_boot_info_label(0x1000, &image(&[])), "boot info: parsed, no mmap/framebuffer tags");
    assert_eq!(parse_boot_info_label(0x1000, &image(&[tag(8, &[0; 8])])), "boot info: framebuffer tag found");
    assert_eq!(parse_boot_info_label(0x1000, &image(&[tag(6, &[24, 0, 0, 0, 0, 0, 0, 0])])), "boot info: mmap tag found");
    assert_eq!(boot_info_state_label(0), "boot info ptr: missing");
    assert_eq!(boot_info_state_label(0x1000), "boot info ptr: present");
}

#[test]
fn boot_lines_advance_rows() {
    let mut row = 3usize;
    let line = write_boot_line(&mut row, b"kernel");
    assert_eq!(row, 4);
    assert_eq!(line.serial, b"kernel\r\n".to_vec());
    assert_eq!(line.vga.unwrap().0, 3 * 160);
}
