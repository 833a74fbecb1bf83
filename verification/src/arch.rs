//! The processor and its I/O ports, as far as the kernel core drives them.

pub mod cpu;
pub mod port;
