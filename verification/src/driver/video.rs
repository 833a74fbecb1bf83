//! The linear framebuffer and the terminal drawn on it.

pub mod framebuffer;
pub mod terminal;
