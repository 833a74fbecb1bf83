//! Verified core of a small x86_64 higher-half kernel: physical frames,
//! four-level paging over a model of physical memory, kernel stacks and heap,
//! descriptor tables, the task table and its round-robin scheduler.

pub mod arch;
pub mod bits;
pub mod console;
pub mod driver;
pub mod elf64;
pub mod heap;
pub mod interrupts;
pub mod memory;
pub mod syscall;
pub mod task;
pub mod vfs;
