//! The two cascaded 8259A programmable interrupt controllers.
//!
//! The controller keeps a copy of both interrupt-mask registers; each
//! operation updates that copy and returns the port writes that bring the
//! hardware in line with it.
use crate::port::{port_write, PortWrite};
use vstd::prelude::*;

verus! {

pub const MASTER_CMD: u16 = 0x20;
pub const MASTER_IMR: u16 = 0x21;
pub const MASTER_DATA: u16 = 0x21;
pub const SLAVE_CMD: u16 = 0xa0;
pub const SLAVE_IMR: u16 = 0xa1;
pub const SLAVE_DATA: u16 = 0xa1;
/// Mask bit of IRQ 2, the line that the slave controller is cascaded on.
pub const MASK_IRQ2: u8 = 0x04;
pub const MASK_ALL: u8 = 0xff;
/// Command byte that ends an interrupt.
pub const EOI: u8 = 0x20;

/// The interrupt-mask values last written to the two controllers; a set bit
/// masks its IRQ line.
#[derive(Clone, Copy, PartialEq, Eq, Debug, Structural)]
pub struct Pic {
    pub master_imr: u8,
    pub slave_imr: u8,
}

/// The mask bit of line `k` of one controller.
pub open spec fn irq_bit(k: int) -> u8 {
    (1u8 << (k as u8)) as u8
}

impl Pic {
    /// The controllers before initialisation: nothing masked.
    pub fn new() -> (r: Pic)
        ensures
            r.master_imr == 0,
            r.slave_imr == 0,
    {
        Pic { master_imr: 0, slave_imr: 0 }
    }
}

/// The port writes of `pic_init`.
pub open spec fn pic_init_writes() -> Seq<PortWrite> {
    seq![
        port_write(MASTER_CMD, 0x11),
        port_write(SLAVE_CMD, 0x11),
        port_write(MASTER_DATA, 0x20),
        port_write(SLAVE_DATA, 0x28),
        port_write(MASTER_DATA, 0x04),
        port_write(SLAVE_DATA, 0x02),
        port_write(MASTER_DATA, 0x01),
        port_write(SLAVE_DATA, 0x01),
        port_write(MASTER_IMR, !MASK_IRQ2),
        port_write(SLAVE_IMR, MASK_ALL),
    ]
}

/// Initialises both controllers: edge-triggered and cascaded, master vectors
/// from 0x20 and slave vectors from 0x28, 8086 mode; then masks every line
/// but the cascade.
pub fn pic_init(pic: &mut Pic) -> (w: Vec<PortWrite>)
    ensures
        final(pic).master_imr == !MASK_IRQ2,
        final(pic).slave_imr == MASK_ALL,
        w@ == pic_init_writes(),
{
    let mut w: Vec<PortWrite> = Vec::new();
    w.push(PortWrite { port: MASTER_CMD, value: 0x11 });
    w.push(PortWrite { port: SLAVE_CMD, value: 0x11 });
    w.push(PortWrite { port: MASTER_DATA, value: 0x20 });
    w.push(PortWrite { port: SLAVE_DATA, value: 0x28 });
    w.push(PortWrite { port: MASTER_DATA, value: 0x04 });
    w.push(PortWrite { port: SLAVE_DATA, value: 0x02 });
    w.push(PortWrite { port: MASTER_DATA, value: 0x01 });
    w.push(PortWrite { port: SLAVE_DATA, value: 0x01 });
    pic.master_imr = !MASK_IRQ2;
    pic.slave_imr = MASK_ALL;
    w.push(PortWrite { port: MASTER_IMR, value: pic.master_imr });
    w.push(PortWrite { port: SLAVE_IMR, value: pic.slave_imr });
    assert(w@ =~= pic_init_writes());
    w
}

/// Unmasks IRQ line `irq` (0 to 15) and writes the changed mask register; a
/// line number out of range changes and writes nothing.
pub fn pic_clearmask(pic: &mut Pic, irq: i32) -> (w: Vec<PortWrite>)
    ensures
        !(0 <= irq < 16) ==> *final(pic) == *old(pic) && w@.len() == 0,
        0 <= irq < 8 ==> {
            &&& final(pic).master_imr == old(pic).master_imr & !irq_bit(irq as int)
            &&& final(pic).slave_imr == old(pic).slave_imr
            &&& w@ == seq![port_write(MASTER_IMR, final(pic).master_imr)]
        },
        8 <= irq < 16 ==> {
            &&& final(pic).master_imr == old(pic).master_imr
            &&& final(pic).slave_imr == old(pic).slave_imr & !irq_bit(irq - 8)
            &&& w@ == seq![port_write(SLAVE_IMR, final(pic).slave_imr)]
        },
{
    let mut w: Vec<PortWrite> = Vec::new();
    if !(0 <= irq && irq < 16) {
        return w;
    }
    if irq < 8 {
        pic.master_imr = pic.master_imr & !(1u8 << (irq as u8));
        w.push(PortWrite { port: MASTER_IMR, value: pic.master_imr });
    } else {
        pic.slave_imr = pic.slave_imr & !(1u8 << ((irq - 8) as u8));
        w.push(PortWrite { port: SLAVE_IMR, value: pic.slave_imr });
    }
    assert(w@.len() == 1);
    w
}

/// Masks IRQ line `irq` (0 to 15) and writes the changed mask register; a
/// line number out of range changes and writes nothing.
pub fn pic_setmask(pic: &mut Pic, irq: i32) -> (w: Vec<PortWrite>)
    ensures
        !(0 <= irq < 16) ==> *final(pic) == *old(pic) && w@.len() == 0,
        0 <= irq < 8 ==> {
            &&& final(pic).master_imr == old(pic).master_imr | irq_bit(irq as int)
            &&& final(pic).slave_imr == old(pic).slave_imr
            &&& w@ == seq![port_write(MASTER_IMR, final(pic).master_imr)]
        },
        8 <= irq < 16 ==> {
            &&& final(pic).master_imr == old(pic).master_imr
            &&& final(pic).slave_imr == old(pic).slave_imr | irq_bit(irq - 8)
            &&& w@ == seq![port_write(SLAVE_IMR, final(pic).slave_imr)]
        },
{
    let mut w: Vec<PortWrite> = Vec::new();
    if !(0 <= irq && irq < 16) {
        return w;
    }
    if irq < 8 {
        pic.master_imr = pic.master_imr | (1u8 << (irq as u8));
        w.push(PortWrite { port: MASTER_IMR, value: pic.master_imr });
    } else {
        pic.slave_imr = pic.slave_imr | (1u8 << ((irq - 8) as u8));
        w.push(PortWrite { port: SLAVE_IMR, value: pic.slave_imr });
    }
    assert(w@.len() == 1);
    w
}

/// The port writes that end interrupt `irq` (0 to 15): the slave controller
/// too for a line it serves, then the master; none for a line out of range.
pub fn pic_sendeoi(irq: i32) -> (w: Vec<PortWrite>)
    ensures
        !(0 <= irq < 16) ==> w@.len() == 0,
        0 <= irq < 8 ==> w@ == seq![port_write(MASTER_CMD, EOI)],
        8 <= irq < 16 ==> w@ == seq![port_write(SLAVE_CMD, EOI), port_write(MASTER_CMD, EOI)],
{
    let mut w: Vec<PortWrite> = Vec::new();
    if !(0 <= irq && irq < 16) {
        return w;
    }
    if irq >= 8 {
        w.push(PortWrite { port: SLAVE_CMD, value: EOI });
    }
    w.push(PortWrite { port: MASTER_CMD, value: EOI });
    proof {
        if irq >= 8 {
            assert(w@ =~= seq![port_write(SLAVE_CMD, EOI), port_write(MASTER_CMD, EOI)]);
        } else {
            assert(w@ =~= seq![port_write(MASTER_CMD, EOI)]);
        }
    }
    w
}

/// Unmasking a line clears its mask bit and leaves the other lines of that
/// controller as they were; masking it sets the bit, likewise.
pub proof fn lemma_mask_bits(v: u8, k: u8, j: u8)
    by (bit_vector)
    requires
        k < 8,
        j < 8,
    ensures
        (v & !((1u8 << k) as u8)) & ((1u8 << k) as u8) == 0,
        (v | ((1u8 << k) as u8)) & ((1u8 << k) as u8) != 0,
        j != k ==> (v & !((1u8 << k) as u8)) & ((1u8 << j) as u8) == v & ((1u8 << j) as u8),
        j != k ==> (v | ((1u8 << k) as u8)) & ((1u8 << j) as u8) == v & ((1u8 << j) as u8),
{
}

} // verus!
