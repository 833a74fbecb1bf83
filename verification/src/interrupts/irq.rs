//! The two cascaded 8259A interrupt controllers.

use vstd::prelude::*;
use crate::arch::port::{PortWrite, UnsafePort, byte_write};

verus! {

/// Command port of the master controller; its data port is the next.
pub const PIC1_BASE: u16 = 0x20;

/// Command port of the slave controller.
pub const PIC2_BASE: u16 = 0xA0;

/// The mask at the start: every line masked but line 2, which the slave hangs on.
pub const IRQ_MASK: u16 = 0xfffb;

pub const ICW1_ICW4: u8 = 0x01;
pub const ICW1_INIT: u8 = 0x10;
pub const ICW4_8086: u8 = 0x01;

/// The command that ends an interrupt.
pub const EOI: u8 = 0x20;

/// The port that a write to gives the controllers time to settle.
pub const WAIT_PORT: u16 = 0x80;

/// The vectors of the sixteen lines.
#[derive(Debug, Clone, Copy, PartialEq, Eq, Structural)]
pub enum Irqs {
    TIMER,
    KBD,
    IRQ2,
    IRQ3,
    IRQ4,
    IRQ5,
    IRQ6,
    IRQ7,
    IRQ8,
    IRQ9,
    IRQ10,
    IRQ11,
    MOUSE,
    IRQ13,
    ATA1,
    ATA2,
}

impl Irqs {
    pub open spec fn spec_vector(self) -> usize {
        match self {
            Irqs::TIMER => 32,
            Irqs::KBD => 33,
            Irqs::IRQ2 => 34,
            Irqs::IRQ3 => 35,
            Irqs::IRQ4 => 36,
            Irqs::IRQ5 => 37,
            Irqs::IRQ6 => 38,
            Irqs::IRQ7 => 39,
            Irqs::IRQ8 => 40,
            Irqs::IRQ9 => 41,
            Irqs::IRQ10 => 42,
            Irqs::IRQ11 => 43,
            Irqs::MOUSE => 44,
            Irqs::IRQ13 => 45,
            Irqs::ATA1 => 46,
            Irqs::ATA2 => 47,
        }
    }

    pub fn vector(self) -> (v: usize)
        ensures
            v == self.spec_vector(),
            0x20 <= v < 0x30,
    {
        match self {
            Irqs::TIMER => 32,
            Irqs::KBD => 33,
            Irqs::IRQ2 => 34,
            Irqs::IRQ3 => 35,
            Irqs::IRQ4 => 36,
            Irqs::IRQ5 => 37,
            Irqs::IRQ6 => 38,
            Irqs::IRQ7 => 39,
            Irqs::IRQ8 => 40,
            Irqs::IRQ9 => 41,
            Irqs::IRQ10 => 42,
            Irqs::IRQ11 => 43,
            Irqs::MOUSE => 44,
            Irqs::IRQ13 => 45,
            Irqs::ATA1 => 46,
            Irqs::ATA2 => 47,
        }
    }
}

/// One 8259A.
#[derive(Debug)]
pub struct Pic8259A {
    /// The vector of its first line.
    pub offset: u8,
    pub command: UnsafePort<u8>,
    pub data: UnsafePort<u8>,
}

impl Pic8259A {
    pub fn new(base: u16, offset: u8) -> (p: Pic8259A)
        requires
            base < u16::MAX,
        ensures
            p.offset == offset,
            p.command.port == base,
            p.data.port == base + 1,
    {
        Pic8259A { offset, command: UnsafePort::new(base), data: UnsafePort::new(base + 1) }
    }

    /// The write that ends an interrupt.
    pub fn eoi(&self) -> (w: PortWrite)
        ensures
            w == byte_write(self.command.port, EOI),
    {
        self.command.write(EOI)
    }
}

/// The master and the slave, and the mask of the sixteen lines.
#[derive(Debug)]
pub struct PicChain {
    pub master: Pic8259A,
    pub slave: Pic8259A,
    pub irqmask: u16,
}

/// The two writes that set the mask: its low byte to the master, its high
/// byte to the slave.
pub open spec fn spec_mask_writes(mask: u16) -> Seq<PortWrite> {
    seq![byte_write(0x21, (mask % 256) as u8), byte_write(0xA1, (mask / 256) as u8)]
}

/// The writes that set the controllers up: initialisation, the vectors
/// 0x20 and 0x28, the cascade on line 2, the 8086 mode, each followed by a
/// write to the waiting port, and at last the mask.
pub open spec fn spec_init_writes(mask: u16) -> Seq<PortWrite> {
    seq![
        byte_write(0x20, 0x11),
        byte_write(0x80, 0),
        byte_write(0xA0, 0x11),
        byte_write(0x80, 0),
        byte_write(0x21, 0x20),
        byte_write(0x80, 0),
        byte_write(0xA1, 0x28),
        byte_write(0x80, 0),
        byte_write(0x21, 0x04),
        byte_write(0x80, 0),
        byte_write(0xA1, 0x02),
        byte_write(0x80, 0),
        byte_write(0x21, 0x01),
        byte_write(0x80, 0),
        byte_write(0xA1, 0x01),
        byte_write(0x80, 0),
    ] + spec_mask_writes(mask)
}

/// The writes that end the interrupt of line `isr`: to the slave first
/// where the line is one of the slave's, then to the master.
pub open spec fn spec_eoi_writes(isr: usize) -> Seq<PortWrite> {
    if isr >= 8 {
        seq![byte_write(0xA0, 0x20), byte_write(0x20, 0x20)]
    } else {
        seq![byte_write(0x20, 0x20)]
    }
}

/// The mask with the bit of one line cleared.
pub open spec fn spec_unmask(mask: u16, line: u16) -> u16 {
    mask & !(1u16 << line)
}

impl PicChain {
    pub open spec fn wf(self) -> bool {
        &&& self.master.command.port == PIC1_BASE
        &&& self.master.data.port == PIC1_BASE + 1
        &&& self.slave.command.port == PIC2_BASE
        &&& self.slave.data.port == PIC2_BASE + 1
        &&& self.master.offset == 0x20
        &&& self.slave.offset == 0x28
    }

    pub fn new() -> (c: PicChain)
        ensures
            c.wf(),
            c.irqmask == IRQ_MASK,
    {
        PicChain {
            master: Pic8259A::new(PIC1_BASE, 0x20),
            slave: Pic8259A::new(PIC2_BASE, 0x28),
            irqmask: IRQ_MASK,
        }
    }

    /// The writes that set the controllers up.
    pub fn init(&mut self) -> (w: Vec<PortWrite>)
        requires
            old(self).wf(),
        ensures
            final(self).wf(),
            final(self).irqmask == old(self).irqmask,
            w@ == spec_init_writes(old(self).irqmask),
    {
        let wait = PortWrite { port: WAIT_PORT, value: 0, width: 1 };
        let mut w: Vec<PortWrite> = Vec::new();
        w.push(self.master.command.write(ICW1_INIT + ICW1_ICW4));
        w.push(wait);
        w.push(self.slave.command.write(ICW1_INIT + ICW1_ICW4));
        w.push(wait);
        w.push(self.master.data.write(self.master.offset));
        w.push(wait);
        w.push(self.slave.data.write(self.slave.offset));
        w.push(wait);
        w.push(self.master.data.write(0b0000_0100));
        w.push(wait);
        w.push(self.slave.data.write(0x2));
        w.push(wait);
        w.push(self.master.data.write(ICW4_8086));
        w.push(wait);
        w.push(self.slave.data.write(ICW4_8086));
        w.push(wait);
        let mask = self.irqmask;
        let mut m = self.setmask(mask);
        w.append(&mut m);
        assert(w@ =~= spec_init_writes(old(self).irqmask));
        w
    }

    /// The writes that end the interrupt of line `isr`.
    pub fn eoi(&mut self, isr: usize) -> (w: Vec<PortWrite>)
        requires
            old(self).wf(),
            isr < 0x10,
        ensures
            *final(self) == *old(self),
            w@ == spec_eoi_writes(isr),
    {
        let mut w: Vec<PortWrite> = Vec::new();
        if isr >= 8 {
            w.push(self.slave.eoi());
        }
        w.push(self.master.eoi());
        assert(w@ =~= spec_eoi_writes(isr));
        w
    }

    /// Sets the mask, and returns the writes that tell the controllers.
    pub fn setmask(&mut self, mask: u16) -> (w: Vec<PortWrite>)
        requires
            old(self).wf(),
        ensures
            final(self).wf(),
            final(self).irqmask == mask,
            final(self).master == old(self).master,
            final(self).slave == old(self).slave,
            w@ == spec_mask_writes(mask),
    {
        self.irqmask = mask;
        let mut w: Vec<PortWrite> = Vec::new();
        w.push(self.master.data.write((mask % 256) as u8));
        w.push(self.slave.data.write((mask / 256) as u8));
        assert(w@ =~= spec_mask_writes(mask));
        w
    }

    /// Lets the line of vector `irq` through.
    pub fn enable(&mut self, irq: usize) -> (w: Vec<PortWrite>)
        requires
            old(self).wf(),
            0x20 <= irq < 0x30,
        ensures
            final(self).wf(),
            final(self).irqmask == spec_unmask(old(self).irqmask, (irq - 0x20) as u16),
            w@ == spec_mask_writes(final(self).irqmask),
    {
        let line = (irq - 0x20) as u16;
        let mask = self.irqmask & !(1u16 << line);
        self.setmask(mask)
    }
}

} // verus!
