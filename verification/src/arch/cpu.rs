//! The registers that the kernel core saves, restores and sets.

use vstd::prelude::*;

verus! {

/// The interrupt flag in `rflags`.
pub const RFLAGS_IF: u64 = 1 << 9;

/// Write protection in `cr0`: ring 0 honours read-only pages.
pub const CR0_WRITE_PROTECT: u64 = 1 << 16;

/// No-execute enable in the register `EFER`.
pub const EFER_NXE: u64 = 1 << 11;

/// System call extensions in the register `EFER`.
pub const EFER_SCE: u64 = 1 << 0;

pub const IA32_EFER: u32 = 0xc000_0080;
pub const IA32_STAR: u32 = 0xc000_0081;
pub const IA32_LSTAR: u32 = 0xc000_0082;
pub const IA32_FMASK: u32 = 0xc000_0084;
pub const IA32_GS_BASE: u32 = 0xc000_0101;

/// One write to a model-specific register.
#[derive(Debug, Clone, Copy, PartialEq, Eq, Structural)]
pub struct MsrWrite {
    pub msr: u32,
    pub value: u64,
}

/// The registers of the processor that a context switch touches, the base of
/// `%gs`, and the stack pointers of the task state segment.
#[derive(Debug, Clone, Copy, PartialEq, Eq, Structural)]
pub struct Cpu {
    pub rflags: u64,
    pub rbp: u64,
    pub rbx: u64,
    pub rsp: u64,
    pub r12: u64,
    pub r13: u64,
    pub r14: u64,
    pub r15: u64,
    pub cr0: u64,
    pub efer: u64,
    /// `IA32_GS_BASE`.
    pub gs_base: u64,
    /// Entry 0 of the privilege stack table: the stack for entering ring 0.
    pub rsp0: u64,
    /// Entry 0 of the interrupt stack table: the stack for double faults.
    pub ist0: u64,
}

impl Cpu {
    pub fn new() -> (c: Cpu)
        ensures
            c == (Cpu {
                rflags: 0,
                rbp: 0,
                rbx: 0,
                rsp: 0,
                r12: 0,
                r13: 0,
                r14: 0,
                r15: 0,
                cr0: 0,
                efer: 0,
                gs_base: 0,
                rsp0: 0,
                ist0: 0,
            }),
    {
        Cpu {
            rflags: 0,
            rbp: 0,
            rbx: 0,
            rsp: 0,
            r12: 0,
            r13: 0,
            r14: 0,
            r15: 0,
            cr0: 0,
            efer: 0,
            gs_base: 0,
            rsp0: 0,
            ist0: 0,
        }
    }

    pub open spec fn spec_interrupts_enabled(self) -> bool {
        self.rflags & RFLAGS_IF == RFLAGS_IF
    }

    pub fn interrupts_enabled(&self) -> (r: bool)
        ensures
            r == self.spec_interrupts_enabled(),
    {
        self.rflags & RFLAGS_IF == RFLAGS_IF
    }

    /// Sets the bit that makes `NO_EXECUTE` in page tables effective.
    pub fn enable_nxe_bit(&mut self)
        ensures
            *final(self) == (Cpu { efer: old(self).efer | EFER_NXE, ..*old(self) }),
    {
        self.efer = self.efer | EFER_NXE;
    }

    /// Sets the bit that enables `syscall` and `sysret`.
    pub fn enable_sce_bit(&mut self)
        ensures
            *final(self) == (Cpu { efer: old(self).efer | EFER_SCE, ..*old(self) }),
    {
        self.efer = self.efer | EFER_SCE;
    }

    /// Sets the bit that makes ring 0 honour read-only pages.
    pub fn enable_write_protect_bit(&mut self)
        ensures
            *final(self) == (Cpu { cr0: old(self).cr0 | CR0_WRITE_PROTECT, ..*old(self) }),
    {
        self.cr0 = self.cr0 | CR0_WRITE_PROTECT;
    }

    /// Returns the flags and turns interrupts off.
    pub fn push_flags(&mut self) -> (flags: u64)
        ensures
            flags == old(self).rflags,
            *final(self) == (Cpu { rflags: old(self).rflags & !RFLAGS_IF, ..*old(self) }),
    {
        let flags = self.rflags;
        self.rflags = self.rflags & !RFLAGS_IF;
        flags
    }

    /// Puts flags back.
    pub fn pop_flags(&mut self, flags: u64)
        ensures
            *final(self) == (Cpu { rflags: flags, ..*old(self) }),
    {
        self.rflags = flags;
    }
}

} // verus!
