//! The interrupt descriptor table and its gates.

use vstd::prelude::*;
use crate::bits::{set_bit_u16, set_bits_u16};
use super::gdt::DescriptorTablePointer;

verus! {

/// Vectors in the table.
pub const IDT_ENTRIES: usize = 256;

pub const DIVIDE_BY_ZERO: usize = 0;
pub const DEBUG: usize = 1;
pub const NON_MASKABLE_INTERRUPT: usize = 2;
pub const BREAKPOINT: usize = 3;
pub const OVERFLOW: usize = 4;
pub const BOUND_RANGE_EXCEEDED: usize = 5;
pub const INVALID_OPCODE: usize = 6;
pub const DEVICE_NOT_AVAILABLE: usize = 7;
pub const DOUBLE_FAULT: usize = 8;
pub const INVALID_TSS: usize = 10;
pub const SEGMENT_NOT_PRESENT: usize = 11;
pub const STACK_SEGMENT_FAULT: usize = 12;
pub const GENERAL_PROTECTION_FAULT: usize = 13;
pub const PAGE_FAULT: usize = 14;
pub const X87_FLOATING_POINT: usize = 16;
pub const ALIGNMENT_CHECK: usize = 17;
pub const MACHINE_CHECK: usize = 18;
pub const SIMD_FLOATING_POINT: usize = 19;
pub const VMM_COMMUNICATION_EXCEPTION: usize = 29;
pub const SECURITY_EXCEPTION: usize = 30;
/// The first of the sixteen vectors of the interrupt controllers.
pub const IRQ_BASE: usize = 32;

/// The options of a gate: bits 0..3 the index into the interrupt stack
/// table, bit 8 clear for an interrupt gate and set for a trap gate, bits
/// 9..12 all set, bits 13..15 the privilege level, bit 15 present.
#[derive(Debug, Clone, Copy, PartialEq, Eq, Structural)]
pub struct EntryOptions(pub u16);

impl EntryOptions {
    /// A present interrupt gate: interrupts are off on entry.
    pub fn new() -> (r: EntryOptions)
        ensures
            r.0 == 0x8e00,
    {
        let mut ret = EntryOptions::empty();
        proof {
            assert((0x0e00u16 | (1u16 << 15u16)) & !(1u16 << 8u16) == 0x8e00u16) by (bit_vector);
        }
        ret.set_present(true);
        ret.set_interrupt_gate();
        ret
    }

    /// Only the three bits that are always set.
    pub fn empty() -> (r: EntryOptions)
        ensures
            r.0 == 0x0e00,
    {
        proof {
            assert(crate::bits::fits_u16(0b111, 3) && (0u16 & !crate::bits::spec_mask_u16(9, 12)) | (0b111u16
                << 9u16) == 0x0e00u16) by (bit_vector);
        }
        EntryOptions(set_bits_u16(0, 9, 12, 0b111))
    }

    /// Sets the index into the interrupt stack table.
    pub fn set_ist_index(&mut self, ist: u16)
        requires
            ist < 8,
        ensures
            final(self).0 == (old(self).0 & !7u16) | ist,
    {
        let b = self.0;
        proof {
            assert(crate::bits::fits_u16(ist, 3) && (b & !crate::bits::spec_mask_u16(0, 3)) | (ist << 0u16)
                == (b & !7u16) | ist) by (bit_vector)
                requires
                    ist < 8,
            ;
        }
        self.0 = set_bits_u16(self.0, 0, 3, ist);
    }

    pub fn set_interrupt_gate(&mut self)
        ensures
            final(self).0 == old(self).0 & !(1u16 << 8u16),
    {
        self.0 = set_bit_u16(self.0, 8, false);
    }

    pub fn set_trap_gate(&mut self)
        ensures
            final(self).0 == old(self).0 | (1u16 << 8u16),
    {
        self.0 = set_bit_u16(self.0, 8, true);
    }

    /// Sets the descriptor privilege level.
    pub fn set_dpl(&mut self, dpl: u16)
        requires
            dpl < 4,
        ensures
            final(self).0 == (old(self).0 & !0x6000u16) | (dpl << 13u16),
    {
        let b = self.0;
        proof {
            assert(crate::bits::fits_u16(dpl, 2) && (b & !crate::bits::spec_mask_u16(13, 15)) | (dpl
                << 13u16) == (b & !0x6000u16) | (dpl << 13u16)) by (bit_vector)
                requires
                    dpl < 4,
            ;
        }
        self.0 = set_bits_u16(self.0, 13, 15, dpl);
    }

    pub fn set_present(&mut self, val: bool)
        ensures
            val ==> final(self).0 == old(self).0 | (1u16 << 15u16),
            !val ==> final(self).0 == old(self).0 & !(1u16 << 15u16),
    {
        self.0 = set_bit_u16(self.0, 15, val);
    }
}

/// One gate: the handler's address in three parts, the code segment it runs
/// in, and the options.
#[derive(Debug, Clone, Copy, PartialEq, Eq, Structural)]
pub struct Entry {
    pub pointer_low: u16,
    pub gdt_selector: u16,
    pub options: EntryOptions,
    pub pointer_middle: u16,
    pub pointer_high: u32,
    pub zero: u32,
}

impl Entry {
    /// The address of the handler.
    pub open spec fn spec_address(self) -> u64 {
        (self.pointer_low as u64) | ((self.pointer_middle as u64) << 16) | ((self.pointer_high as u64)
            << 32)
    }

    /// A present interrupt gate for the handler at `address`.
    pub open spec fn spec_new(selector: u16, address: u64) -> Entry {
        Entry {
            pointer_low: (address & 0xffff) as u16,
            pointer_middle: ((address >> 16) & 0xffff) as u16,
            pointer_high: (address >> 32) as u32,
            gdt_selector: selector,
            options: EntryOptions(0x8e00),
            zero: 0,
        }
    }

    /// A present interrupt gate for the handler at `address`.
    pub fn new(selector: u16, address: u64) -> (e: Entry)
        ensures
            e == Self::spec_new(selector, address),
            e.gdt_selector == selector,
            e.options.0 == 0x8e00,
            e.zero == 0,
            e.pointer_low == address & 0xffff,
            e.pointer_middle == (address >> 16) & 0xffff,
            e.pointer_high == address >> 32,
            e.spec_address() == address,
    {
        proof {
            assert(address & 0xffff <= 0xffff && (address >> 16) & 0xffff <= 0xffff && address >> 32
                <= 0xffff_ffff && ((address & 0xffff) | (((address >> 16) & 0xffff) << 16) | ((address
                >> 32) << 32)) == address) by (bit_vector);
        }
        Entry {
            pointer_low: (address & 0xffff) as u16,
            pointer_middle: ((address >> 16) & 0xffff) as u16,
            pointer_high: (address >> 32) as u32,
            gdt_selector: selector,
            options: EntryOptions::new(),
            zero: 0,
        }
    }

    /// The two quadwords of the entry as the table holds it: the low part
    /// of the address, the selector, the options and the middle part of the
    /// address in the first; the high part of the address in the second.
    pub fn encode(&self) -> (w: (u64, u64))
        ensures
            w.0 == (self.pointer_low as u64) | ((self.gdt_selector as u64) << 16) | ((self.options.0 as u64)
                << 32) | ((self.pointer_middle as u64) << 48),
            w.1 == (self.pointer_high as u64) | ((self.zero as u64) << 32),
    {
        let low = (self.pointer_low as u64) | ((self.gdt_selector as u64) << 16) | ((self.options.0 as u64)
            << 32) | ((self.pointer_middle as u64) << 48);
        let high = (self.pointer_high as u64) | ((self.zero as u64) << 32);
        (low, high)
    }

    /// A gate without a handler.
    pub fn empty() -> (e: Entry)
        ensures
            e == Self::spec_new(0, 0),
            e.gdt_selector == 0,
            e.options.0 == 0x8e00,
            e.zero == 0,
            e.pointer_low == 0,
            e.pointer_middle == 0,
            e.pointer_high == 0,
    {
        proof {
            assert(0u64 & 0xffff == 0 && (0u64 >> 16) & 0xffff == 0 && 0u64 >> 32 == 0) by (bit_vector);
        }
        Entry::new(0, 0)
    }
}

/// What the processor pushes before it calls a handler.
#[derive(Debug, Clone, Copy, PartialEq, Eq, Structural)]
pub struct ExceptionStackFrame {
    pub rip: u64,
    pub cs: u64,
    pub rflags: u64,
    pub old_rsp: u64,
    pub old_ss: u64,
}

/// The table: 256 gates, one for each vector.
#[derive(Debug)]
pub struct InterruptDescriptorTable {
    pub entries: Vec<Entry>,
}

impl InterruptDescriptorTable {
    pub open spec fn wf(self) -> bool {
        self.entries@.len() == IDT_ENTRIES
    }

    /// A table of gates without handlers.
    pub fn new() -> (t: InterruptDescriptorTable)
        ensures
            t.wf(),
            forall|i: int| 0 <= i < 256 ==> (#[trigger] t.entries@[i]) == Entry::spec_new(0, 0),
            forall|i: int|
                0 <= i < 256 ==> (#[trigger] t.entries@[i]).pointer_low == 0 && t.entries@[i].pointer_middle
                    == 0 && t.entries@[i].pointer_high == 0 && t.entries@[i].gdt_selector == 0
                    && t.entries@[i].options.0 == 0x8e00 && t.entries@[i].zero == 0,
    {
        let mut entries: Vec<Entry> = Vec::new();
        let mut i: usize = 0;
        while i < IDT_ENTRIES
            invariant
                i <= IDT_ENTRIES,
                entries@.len() == i,
                forall|j: int| 0 <= j < i ==> (#[trigger] entries@[j]) == Entry::spec_new(0, 0),
                forall|j: int|
                    0 <= j < i ==> (#[trigger] entries@[j]).pointer_low == 0 && entries@[j].pointer_middle
                        == 0 && entries@[j].pointer_high == 0 && entries@[j].gdt_selector == 0
                        && entries@[j].options.0 == 0x8e00 && entries@[j].zero == 0,
            decreases IDT_ENTRIES - i,
        {
            entries.push(Entry::empty());
            i += 1;
        }
        InterruptDescriptorTable { entries }
    }

    /// Puts a gate at a vector.
    pub fn set(&mut self, vector: usize, entry: Entry)
        requires
            old(self).wf(),
            vector < IDT_ENTRIES,
        ensures
            final(self).wf(),
            final(self).entries@ == old(self).entries@.update(vector as int, entry),
    {
        self.entries[vector] = entry;
    }

    /// What `lidt` is to be handed for the table at address `base`.
    pub fn pointer(&self, base: u64) -> (p: DescriptorTablePointer)
        ensures
            p.base == base,
            p.limit == 4095,
    {
        DescriptorTablePointer { base, limit: 4095 }
    }
}

} // verus!
