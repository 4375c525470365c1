use vstd::prelude::*;
use crate::utils::PortWrite;

verus! {

pub const COM1_PORT: u16 = 0x3f8;
/// The line status register of COM1.
pub const COM1_LINE_STATUS: u16 = 0x3fd;
/// Line status bit: the transmit holding register is empty.
pub const LINE_STATUS_THR_EMPTY: u8 = 0x20;

/// The port writes that set COM1 up: interrupts off, divisor 3 (38400
/// baud), 8N1, FIFO on, modem control set.
pub open spec fn init_spec() -> Seq<PortWrite> {
    seq![
        PortWrite { port: 0x3f9, value: 0x00 },
        PortWrite { port: 0x3fb, value: 0x80 },
        PortWrite { port: 0x3f8, value: 0x03 },
        PortWrite { port: 0x3f9, value: 0x00 },
        PortWrite { port: 0x3fb, value: 0x03 },
        PortWrite { port: 0x3fa, value: 0xC7 },
        PortWrite { port: 0x3fc, value: 0x0B },
    ]
}

/// The port writes that set the serial port up, in order.
pub fn init() -> (r: Vec<PortWrite>)
    ensures
        r@ == init_spec(),
{
    let mut w: Vec<PortWrite> = Vec::new();
    w.push(PortWrite { port: COM1_PORT + 1, value: 0x00 });
    w.push(PortWrite { port: COM1_PORT + 3, value: 0x80 });
    w.push(PortWrite { port: COM1_PORT + 0, value: 0x03 });
    w.push(PortWrite { port: COM1_PORT + 1, value: 0x00 });
    w.push(PortWrite { port: COM1_PORT + 3, value: 0x03 });
    w.push(PortWrite { port: COM1_PORT + 2, value: 0xC7 });
    w.push(PortWrite { port: COM1_PORT + 4, value: 0x0B });
    assert(w@ =~= init_spec());
    w
}

/// The bytes that send `msg` as a line: the message, then CR and LF.
pub fn write_line(msg: &[u8]) -> (r: Vec<u8>)
    ensures
        r@ == msg@ + seq![13u8, 10u8],
{
    let mut out: Vec<u8> = Vec::new();
    let mut i: usize = 0;
    while i < msg.len()
        invariant
            i <= msg@.len(),
            out@ == msg@.subrange(0, i as int),
        decreases msg@.len() - i,
    {
        out.push(msg[i]);
        i = i + 1;
        assert(out@ =~= msg@.subrange(0, i as int));
    }
    out.push(13);
    out.push(10);
    assert(out@ =~= msg@ + seq![13u8, 10u8]);
    out
}

/// A byte may be sent when the line status says the transmitter is empty.
pub fn transmit_ready(line_status: u8) -> (r: bool)
    ensures
        r == (line_status & LINE_STATUS_THR_EMPTY != 0),
{
    (line_status & LINE_STATUS_THR_EMPTY) != 0
}

} // verus!
