//! I/O ports. A write to a port is a value that the caller sends to the
//! hardware; what a read returns is a value that the caller hands in.

use vstd::prelude::*;
use std::marker::PhantomData;

verus! {

/// One write to a port: `width` bytes of `value`.
#[derive(Debug, Clone, Copy, PartialEq, Eq, Structural)]
pub struct PortWrite {
    pub port: u16,
    pub value: u32,
    pub width: u8,
}

/// What can be written to a port: a byte, a word or a double word.
pub trait IO: Sized + Copy {
    /// The value as the 32 bits that go over the bus.
    spec fn spec_bits(self) -> u32;

    /// The number of bytes.
    spec fn spec_width() -> u8;

    fn bits(self) -> (r: u32)
        ensures
            r == self.spec_bits(),
    ;

    fn width() -> (r: u8)
        ensures
            r == Self::spec_width(),
    ;
}

impl IO for u8 {
    open spec fn spec_bits(self) -> u32 {
        self as u32
    }

    open spec fn spec_width() -> u8 {
        1
    }

    fn bits(self) -> (r: u32) {
        self as u32
    }

    fn width() -> (r: u8) {
        1
    }
}

impl IO for u16 {
    open spec fn spec_bits(self) -> u32 {
        self as u32
    }

    open spec fn spec_width() -> u8 {
        2
    }

    fn bits(self) -> (r: u32) {
        self as u32
    }

    fn width() -> (r: u8) {
        2
    }
}

impl IO for u32 {
    open spec fn spec_bits(self) -> u32 {
        self
    }

    open spec fn spec_width() -> u8 {
        4
    }

    fn bits(self) -> (r: u32) {
        self
    }

    fn width() -> (r: u8) {
        4
    }
}

/// A port that is safe to use at any time.
#[derive(Debug)]
pub struct Port<T: IO> {
    pub port: u16,
    pub phantom: PhantomData<T>,
}

impl<T: IO> Port<T> {
    pub fn new(port: u16) -> (p: Port<T>)
        ensures
            p.port == port,
    {
        Port { port, phantom: PhantomData }
    }

    /// The write of `v` to this port.
    pub fn write(&self, v: T) -> (w: PortWrite)
        ensures
            w == (PortWrite { port: self.port, value: v.spec_bits(), width: T::spec_width() }),
    {
        PortWrite { port: self.port, value: v.bits(), width: T::width() }
    }
}

/// A port whose use can break the machine's state.
#[derive(Debug)]
pub struct UnsafePort<T: IO> {
    pub port: u16,
    pub phantom: PhantomData<T>,
}

impl<T: IO> UnsafePort<T> {
    pub fn new(port: u16) -> (p: UnsafePort<T>)
        ensures
            p.port == port,
    {
        UnsafePort { port, phantom: PhantomData }
    }

    /// The write of `v` to this port.
    pub fn write(&self, v: T) -> (w: PortWrite)
        ensures
            w == (PortWrite { port: self.port, value: v.spec_bits(), width: T::spec_width() }),
    {
        PortWrite { port: self.port, value: v.bits(), width: T::width() }
    }
}

/// The write of one byte to a port.
pub open spec fn byte_write(port: u16, value: u8) -> PortWrite {
    PortWrite { port, value: value as u32, width: 1 }
}

pub fn outb(port: u16, value: u8) -> (w: PortWrite)
    ensures
        w == byte_write(port, value),
{
    PortWrite { port, value: value as u32, width: 1 }
}

} // verus!
