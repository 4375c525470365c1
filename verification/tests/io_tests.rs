use kernel::interrupts::{self, InterruptInitReport};
use kernel::serial;
use kernel::utils::console;
use kernel::utils::PortWrite;
use kernel::vga;

fn pw(port: u16, value: u8) -> PortWrite {
    PortWrite { port, value }
}

#[test]
fn pic_setup_sequence() {
    let (report, writes) = interrupts::init();
    assert_eq!(report, InterruptInitReport { master_offset: 32, slave_offset: 40 });
    assert_eq!(report.label(), "interrupts: pic remapped and masked");
    let wait = pw(0x80, 0);
    assert_eq!(
        writes,
        vec![
            pw(0x20, 0x11), wait, pw(0xA0, 0x11), wait,
            pw(0x21, 32), wait, pw(0xA1, 40), wait,
            pw(0x21, 4), wait, pw(0xA1, 2), wait,
            pw(0x21, 1), wait, pw(0xA1, 1), wait,
            pw(0x21, 0xFF), pw(0xA1, 0xFF),
        ]
    );
    assert_eq!(interrupts::mask_all_irqs(), vec![pw(0x21, 0xFF), pw(0xA1, 0xFF)]);
}

#[test]
fn serial_setup_and_lines() {
    assert_eq!(
        serial::init(),
        vec![pw(0x3f9, 0), pw(0x3fb, 0x80), pw(0x3f8, 3), pw(0x3f9, 0), pw(0x3fb, 3), pw(0x3fa, 0xC7), pw(0x3fc, 0x0B)]
    );
    assert_eq!(serial::write_line(b"hi"), b"hi\r\n".to_vec());
    assert_eq!(serial::write_line(b""), b"\r\n".to_vec());
    assert!(serial::transmit_ready(0x20));
    assert!(serial::transmit_ready(0x60));
    assert!(!serial::transmit_ready(0x40));
}

#[test]
fn vga_cells() {
    let clear = vga::clear_screen(0x4f);
    assert_eq!(clear.len(), 80 * 25 * 2);
    assert_eq!(&clear[0..4], &[b' ', 0x4f, b' ', 0x4f]);
    assert_eq!(vga::write_line(2, b"ok"), Some((320, vec![b'o', 0x1f, b'k', 0x1f])));
    assert_eq!(vga::write_line(25, b"ok"), None);
    let long = vec![b'x'; 100];
    let (offset, cells) = vga::write_line(24, &long).unwrap();
    assert_eq!(offset, 24 * 160);
    assert_eq!(cells.len(), 160);
}

#[test]
fn console_writes_both() {
    assert_eq!(console::init(), serial::init());
    assert_eq!(console::clear_screen(0x1f), vga::clear_screen(0x1f));
    let line = console::write_line(1, b"abc");
    assert_eq!(line.serial, b"abc\r\n".to_vec());
    assert_eq!(line.vga, Some((160, vec![b'a', 0x1f, b'b', 0x1f, b'c', 0x1f])));
    assert_eq!(console::write_line(30, b"abc").vga, None);
}
