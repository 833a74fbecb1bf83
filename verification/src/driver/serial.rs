//! The first serial line.

use vstd::prelude::*;
use crate::arch::port::{PortWrite, byte_write};

verus! {

/// The first port of the first serial line.
pub const SERIAL_PORT: u16 = 0x3f8;

/// In the line status: the transmit buffer is empty.
pub const LINE_TRANSMIT_EMPTY: u8 = 0x20;

/// In the line status: a byte was received.
pub const LINE_RECEIVED: u8 = 0x01;

/// A serial line at eight ports from `base`.
#[derive(Debug)]
pub struct Serial {
    pub base: u16,
}

/// The writes that set the line up: interrupts off, the divisor 3 for
/// 38400 baud, eight bits without parity and one stop bit, the buffers
/// cleared and on, and the modem lines set.
pub open spec fn spec_serial_init(base: u16) -> Seq<PortWrite> {
    seq![
        byte_write((base + 1) as u16, 0x00),
        byte_write((base + 3) as u16, 0x80),
        byte_write(base, 0x03),
        byte_write((base + 1) as u16, 0x00),
        byte_write((base + 3) as u16, 0x03),
        byte_write((base + 2) as u16, 0xC7),
        byte_write((base + 4) as u16, 0x0B),
    ]
}

impl Serial {
    pub fn new(base: u16) -> (s: Serial)
        requires
            base + 7 <= u16::MAX,
        ensures
            s.base == base,
    {
        Serial { base }
    }

    /// The writes that set the line up.
    pub fn init(&mut self) -> (w: Vec<PortWrite>)
        requires
            old(self).base + 7 <= u16::MAX,
        ensures
            final(self).base == old(self).base,
            w@ == spec_serial_init(old(self).base),
    {
        let b = self.base;
        let mut w: Vec<PortWrite> = Vec::new();
        w.push(PortWrite { port: b + 1, value: 0x00, width: 1 });
        w.push(PortWrite { port: b + 3, value: 0x80, width: 1 });
        w.push(PortWrite { port: b, value: 0x03, width: 1 });
        w.push(PortWrite { port: b + 1, value: 0x00, width: 1 });
        w.push(PortWrite { port: b + 3, value: 0x03, width: 1 });
        w.push(PortWrite { port: b + 2, value: 0xC7, width: 1 });
        w.push(PortWrite { port: b + 4, value: 0x0B, width: 1 });
        assert(w@ =~= spec_serial_init(old(self).base));
        w
    }

    /// The port that the line status is read from.
    pub fn status_port(&self) -> (p: u16)
        requires
            self.base + 7 <= u16::MAX,
        ensures
            p == self.base + 5,
    {
        self.base + 5
    }

    /// Whether, by the line status, a byte can be sent.
    pub fn is_transmit_empty(&self, status: u8) -> (r: bool)
        ensures
            r == (status & LINE_TRANSMIT_EMPTY != 0),
    {
        status & LINE_TRANSMIT_EMPTY != 0
    }

    /// Whether, by the line status, a byte is there to be read.
    pub fn serial_received(&self, status: u8) -> (r: bool)
        ensures
            r == (status & LINE_RECEIVED != 0),
    {
        status & LINE_RECEIVED != 0
    }

    /// The write that sends a byte; it is to be made once the transmit
    /// buffer is empty.
    pub fn write(&mut self, a: u8) -> (w: PortWrite)
        ensures
            final(self).base == old(self).base,
            w == byte_write(old(self).base, a),
    {
        PortWrite { port: self.base, value: a as u32, width: 1 }
    }
}

} // verus!
