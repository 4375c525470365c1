use vstd::prelude::*;
use crate::utils::PortWrite;

verus! {

pub const PIC1_CMD: u16 = 0x20;
pub const PIC1_DATA: u16 = 0x21;
pub const PIC2_CMD: u16 = 0xA0;
pub const PIC2_DATA: u16 = 0xA1;

pub const PIC_ICW1_INIT: u8 = 0x10;
pub const PIC_ICW1_ICW4: u8 = 0x01;
pub const PIC_ICW4_8086: u8 = 0x01;

/// The slave PIC hangs off IRQ2 of the master.
pub const PIC_ICW3_MASTER: u8 = 4;
/// The slave's cascade identity.
pub const PIC_ICW3_SLAVE: u8 = 2;

/// Port whose write only takes time.
pub const IO_WAIT_PORT: u16 = 0x80;

pub const IRQ_BASE_VECTOR: u8 = 32;
pub const IRQ_SLAVE_BASE_VECTOR: u8 = 40;

#[derive(Clone, Copy, Debug, PartialEq, Eq, Structural)]
pub struct InterruptInitReport {
    pub master_offset: u8,
    pub slave_offset: u8,
}

impl InterruptInitReport {
    pub fn label(self) -> (r: &'static str)
        ensures
            r@ == "interrupts: pic remapped and masked"@,
    {
        "interrupts: pic remapped and masked"
    }
}

/// The short pause after a PIC command.
pub open spec fn wait_spec() -> PortWrite {
    PortWrite { port: IO_WAIT_PORT, value: 0 }
}

/// The port writes that remap both PICs to `master_offset` and `slave_offset`.
pub open spec fn remap_spec(master_offset: u8, slave_offset: u8) -> Seq<PortWrite> {
    seq![
        PortWrite { port: PIC1_CMD, value: 0x11 }, wait_spec(),
        PortWrite { port: PIC2_CMD, value: 0x11 }, wait_spec(),
        PortWrite { port: PIC1_DATA, value: master_offset }, wait_spec(),
        PortWrite { port: PIC2_DATA, value: slave_offset }, wait_spec(),
        PortWrite { port: PIC1_DATA, value: PIC_ICW3_MASTER }, wait_spec(),
        PortWrite { port: PIC2_DATA, value: PIC_ICW3_SLAVE }, wait_spec(),
        PortWrite { port: PIC1_DATA, value: PIC_ICW4_8086 }, wait_spec(),
        PortWrite { port: PIC2_DATA, value: PIC_ICW4_8086 }, wait_spec(),
    ]
}

/// The port writes that mask every IRQ line of both PICs.
pub open spec fn mask_spec() -> Seq<PortWrite> {
    seq![PortWrite { port: PIC1_DATA, value: 0xFF }, PortWrite { port: PIC2_DATA, value: 0xFF }]
}

/// Remaps the PICs past the exception vectors and masks all lines; the
/// port writes to make, in order, come with the report.
pub fn init() -> (r: (InterruptInitReport, Vec<PortWrite>))
    ensures
        r.0 == (InterruptInitReport { master_offset: IRQ_BASE_VECTOR, slave_offset: IRQ_SLAVE_BASE_VECTOR }),
        r.1@ == remap_spec(IRQ_BASE_VECTOR, IRQ_SLAVE_BASE_VECTOR) + mask_spec(),
{
    let mut writes = pic_remap(IRQ_BASE_VECTOR, IRQ_SLAVE_BASE_VECTOR);
    let mut mask = mask_all_irqs();
    writes.append(&mut mask);
    (InterruptInitReport { master_offset: IRQ_BASE_VECTOR, slave_offset: IRQ_SLAVE_BASE_VECTOR }, writes)
}

/// The port writes that mask every IRQ line.
pub fn mask_all_irqs() -> (r: Vec<PortWrite>)
    ensures
        r@ == mask_spec(),
{
    let mut writes: Vec<PortWrite> = Vec::new();
    writes.push(PortWrite { port: PIC1_DATA, value: 0xFF });
    writes.push(PortWrite { port: PIC2_DATA, value: 0xFF });
    assert(writes@ =~= mask_spec());
    writes
}

fn pic_remap(master_offset: u8, slave_offset: u8) -> (r: Vec<PortWrite>)
    ensures
        r@ == remap_spec(master_offset, slave_offset),
{
    let mut w: Vec<PortWrite> = Vec::new();
    w.push(PortWrite { port: PIC1_CMD, value: PIC_ICW1_INIT | PIC_ICW1_ICW4 });
    w.push(io_wait());
    w.push(PortWrite { port: PIC2_CMD, value: PIC_ICW1_INIT | PIC_ICW1_ICW4 });
    w.push(io_wait());
    w.push(PortWrite { port: PIC1_DATA, value: master_offset });
    w.push(io_wait());
    w.push(PortWrite { port: PIC2_DATA, value: slave_offset });
    w.push(io_wait());
    w.push(PortWrite { port: PIC1_DATA, value: PIC_ICW3_MASTER });
    w.push(io_wait());
    w.push(PortWrite { port: PIC2_DATA, value: PIC_ICW3_SLAVE });
    w.push(io_wait());
    w.push(PortWrite { port: PIC1_DATA, value: PIC_ICW4_8086 });
    w.push(io_wait());
    w.push(PortWrite { port: PIC2_DATA, value: PIC_ICW4_8086 });
    w.push(io_wait());
    assert(PIC_ICW1_INIT | PIC_ICW1_ICW4 == 0x11) by (bit_vector);
    assert(w@ =~= remap_spec(master_offset, slave_offset));
    w
}

fn io_wait() -> (r: PortWrite)
    ensures
        r == wait_spec(),
{
    PortWrite { port: IO_WAIT_PORT, value: 0 }
}

} // verus!
