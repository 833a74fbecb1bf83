//! Device drivers that the kernel core routes into.

pub mod keyboard;
pub mod serial;
pub mod video;
