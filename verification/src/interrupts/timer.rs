//! The programmable interval timer, set to 100 ticks a second.

use vstd::prelude::*;
use crate::arch::port::{Port, PortWrite, byte_write};

verus! {

/// The frequency of the timer's oscillator.
pub const FREQ: u32 = 1193180;

/// Ticks a second.
pub const HZ: u32 = 100;

pub const TIMER_DATA: u16 = 0x40;

pub const TIMER_CMD: u16 = 0x43;

/// Channel 0, both bytes of the divisor, mode 3, binary.
pub const TIMER_MODE: u8 = 0x36;

#[derive(Debug)]
pub struct Timer {
    pub data: Port<u8>,
    pub cmd: Port<u8>,
}

/// The writes that set the timer up: the mode, then the low and the high
/// byte of the divisor `FREQ / HZ`.
pub open spec fn spec_timer_writes() -> Seq<PortWrite> {
    seq![byte_write(0x43, 0x36), byte_write(0x40, 0x9b), byte_write(0x40, 0x2e)]
}

impl Timer {
    pub open spec fn wf(self) -> bool {
        self.data.port == TIMER_DATA && self.cmd.port == TIMER_CMD
    }

    pub fn new() -> (t: Timer)
        ensures
            t.wf(),
    {
        Timer { data: Port::new(TIMER_DATA), cmd: Port::new(TIMER_CMD) }
    }

    /// The writes that set the timer up.
    pub fn init(&mut self) -> (w: Vec<PortWrite>)
        requires
            old(self).wf(),
        ensures
            final(self).wf(),
            w@ == spec_timer_writes(),
    {
        let div = FREQ / HZ;
        let l = (div % 256) as u8;
        let h = ((div / 256) % 256) as u8;
        let mut w: Vec<PortWrite> = Vec::new();
        w.push(self.cmd.write(TIMER_MODE));
        w.push(self.data.write(l));
        w.push(self.data.write(h));
        assert(w@ =~= spec_timer_writes());
        w
    }
}

} // verus!
