use kernel::cpu::{display_exception, exception_label, exception_vectors, CpuInitReport, EXCEPTION_COLOR};

#[test]
fn labels() {
    assert_eq!(CpuInitReport.label(), "cpu: idt loaded for core exceptions");
    assert_eq!(exception_label(0), "fault: divide error");
    assert_eq!(exception_label(6), "fault: invalid opcode");
    assert_eq!(exception_label(8), "fault: double fault");
    assert_eq!(exception_label(13), "fault: general protection");
    assert_eq!(exception_label(14), "fault: page fault");
    assert_eq!(exception_label(3), "fault: unknown exception");
    assert_eq!(exception_label(256 + 14), "fault: page fault");
    assert_eq!(exception_vectors(), vec![0, 6, 8, 13, 14]);
}

#[test]
fn general_protection_report() {
    let s = display_exception(13, 0x10, 0xffff_8000_0010_2030, 0);
    assert_eq!(s.color, EXCEPTION_COLOR);
    assert_eq!(s.lines.len(), 3);
    assert_eq!(s.lines[0], b"cpu exception".to_vec());
    assert_eq!(s.lines[1], b"fault: general protection".to_vec());
    assert_eq!(s.lines[2], b"rip 0xffff800000102030  err 0x0000000000000010".to_vec());
}

#[test]
fn page_fault_report() {
    let s = display_exception(14, 2, 0x1234, 0xdead_b000);
    assert_eq!(s.lines.len(), 4);
    assert_eq!(s.lines[1], b"fault: page fault".to_vec());
    assert_eq!(s.lines[2], format!("rip {:#018x}  err {:#018x}", 0x1234, 2).into_bytes());
    assert_eq!(s.lines[3], b"cr2 0x00000000deadb000".to_vec());
}
