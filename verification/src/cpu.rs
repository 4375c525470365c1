use vstd::prelude::*;
use vstd::string::StringSliceAdditionalSpecFns;
use crate::fmtbuf::{clip, fmt_line, hex_prefixed, push_hex_prefixed, push_str};

verus! {

pub const GATE_INTERRUPT_DPL0: u8 = 0x8E;

pub const EXCEPTION_DIVIDE_ERROR: u8 = 0;
pub const EXCEPTION_INVALID_OPCODE: u8 = 6;
pub const EXCEPTION_DOUBLE_FAULT: u8 = 8;
pub const EXCEPTION_GENERAL_PROTECTION: u8 = 13;
pub const EXCEPTION_PAGE_FAULT: u8 = 14;

/// Screen color of the exception report: white on red.
pub const EXCEPTION_COLOR: u8 = 0x4f;

#[derive(Clone, Copy, Debug, PartialEq, Eq, Structural)]
pub struct CpuInitReport;

impl CpuInitReport {
    pub fn label(self) -> (r: &'static str)
        ensures
            r@ == "cpu: idt loaded for core exceptions"@,
    {
        "cpu: idt loaded for core exceptions"
    }
}

/// The vectors that get an interrupt gate, in the order they are installed.
pub fn exception_vectors() -> (r: Vec<u8>)
    ensures
        r@ == seq![
            EXCEPTION_DIVIDE_ERROR,
            EXCEPTION_INVALID_OPCODE,
            EXCEPTION_DOUBLE_FAULT,
            EXCEPTION_GENERAL_PROTECTION,
            EXCEPTION_PAGE_FAULT,
        ],
{
    let mut v: Vec<u8> = Vec::new();
    v.push(EXCEPTION_DIVIDE_ERROR);
    v.push(EXCEPTION_INVALID_OPCODE);
    v.push(EXCEPTION_DOUBLE_FAULT);
    v.push(EXCEPTION_GENERAL_PROTECTION);
    v.push(EXCEPTION_PAGE_FAULT);
    assert(v@ =~= seq![0u8, 6u8, 8u8, 13u8, 14u8]);
    v
}

/// The name of the exception with the vector's low byte.
pub open spec fn exception_label_spec(vector: u64) -> Seq<char> {
    let v = vector % 256;
    if v == EXCEPTION_DIVIDE_ERROR {
        "fault: divide error"@
    } else if v == EXCEPTION_INVALID_OPCODE {
        "fault: invalid opcode"@
    } else if v == EXCEPTION_DOUBLE_FAULT {
        "fault: double fault"@
    } else if v == EXCEPTION_GENERAL_PROTECTION {
        "fault: general protection"@
    } else if v == EXCEPTION_PAGE_FAULT {
        "fault: page fault"@
    } else {
        "fault: unknown exception"@
    }
}

pub fn exception_label(vector: u64) -> (r: &'static str)
    ensures
        r@ == exception_label_spec(vector),
{
    let v = (vector % 256) as u8;
    if v == EXCEPTION_DIVIDE_ERROR {
        "fault: divide error"
    } else if v == EXCEPTION_INVALID_OPCODE {
        "fault: invalid opcode"
    } else if v == EXCEPTION_DOUBLE_FAULT {
        "fault: double fault"
    } else if v == EXCEPTION_GENERAL_PROTECTION {
        "fault: general protection"
    } else if v == EXCEPTION_PAGE_FAULT {
        "fault: page fault"
    } else {
        "fault: unknown exception"
    }
}

/// The register line of the exception report, before it is cut to 96 bytes.
pub open spec fn registers_text(error_code: u64, rip: u64) -> Seq<u8> {
    "rip ".spec_bytes() + hex_prefixed(rip as nat, 18) + "  err ".spec_bytes() + hex_prefixed(error_code as nat, 18)
}

/// The fault address line of a page fault report, before it is cut to 48 bytes.
pub open spec fn fault_address_text(cr2: u64) -> Seq<u8> {
    "cr2 ".spec_bytes() + hex_prefixed(cr2 as nat, 18)
}

/// The exception report: the screen color and the lines from the top row.
pub struct ExceptionScreen {
    pub color: u8,
    pub lines: Vec<Vec<u8>>,
}

/// The report of an exception: a heading, its name, the instruction
/// pointer and error code, and for a page fault the faulting address.
pub fn display_exception(vector: u64, error_code: u64, rip: u64, cr2: u64) -> (r: ExceptionScreen)
    ensures
        r.color == EXCEPTION_COLOR,
        r.lines@.len() == if vector == EXCEPTION_PAGE_FAULT { 4int } else { 3int },
        r.lines@[0]@ == "cpu exception".spec_bytes(),
        r.lines@[1]@ == vstd::utf8::encode_utf8(exception_label_spec(vector)),
        r.lines@[2]@ == clip(registers_text(error_code, rip), 96),
        vector == EXCEPTION_PAGE_FAULT ==> r.lines@[3]@ == clip(fault_address_text(cr2), 48),
{
    let mut lines: Vec<Vec<u8>> = Vec::new();
    let mut heading: Vec<u8> = Vec::new();
    push_str(&mut heading, "cpu exception");
    lines.push(heading);
    let mut name: Vec<u8> = Vec::new();
    push_str(&mut name, exception_label(vector));
    lines.push(name);
    let mut regs: Vec<u8> = Vec::new();
    push_str(&mut regs, "rip ");
    push_hex_prefixed(&mut regs, rip, 18);
    push_str(&mut regs, "  err ");
    push_hex_prefixed(&mut regs, error_code, 18);
    lines.push(fmt_line(96, regs.as_slice()));
    if vector == EXCEPTION_PAGE_FAULT as u64 {
        let mut fault: Vec<u8> = Vec::new();
        push_str(&mut fault, "cr2 ");
        push_hex_prefixed(&mut fault, cr2, 18);
        lines.push(fmt_line(48, fault.as_slice()));
    }
    ExceptionScreen { color: EXCEPTION_COLOR, lines }
}

} // verus!
