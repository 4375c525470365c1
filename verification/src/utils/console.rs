use vstd::prelude::*;
use crate::utils::PortWrite;
use crate::serial;
use crate::vga;

verus! {

/// What one console line becomes: the bytes for the serial port and the
/// cells for the text screen (none below the screen).
pub struct ConsoleLine {
    pub serial: Vec<u8>,
    pub vga: Option<(usize, Vec<u8>)>,
}

/// Sets up the output backends: the serial port's port writes.
pub fn init() -> (r: Vec<PortWrite>)
    ensures
        r@ == serial::init_spec(),
{
    serial::init()
}

/// The text screen cleared to `color`.
pub fn clear_screen(color: u8) -> (r: Vec<u8>)
    ensures
        r@ == vga::clear_spec(color),
{
    vga::clear_screen(color)
}

/// One line on both backends: serial and row `row` of the screen.
pub fn write_line(row: usize, msg: &[u8]) -> (r: ConsoleLine)
    ensures
        r.serial@ == msg@ + seq![13u8, 10u8],
        row >= vga::VGA_HEIGHT ==> r.vga is None,
        row < vga::VGA_HEIGHT ==> (r.vga matches Some(p) && p.0 == row * vga::VGA_WIDTH * 2 && p.1@
            == vga::line_cells(msg@)),
{
    ConsoleLine { serial: serial::write_line(msg), vga: vga::write_line(row, msg) }
}

} // verus!
