//! The global descriptor table with the segments of ring 0 and ring 3 and
//! the task state segment.

use vstd::prelude::*;
use crate::bits::{get_bits_u64, ring0_selector, set_bit_u64, set_bits_u64, tss_size};

verus! {

pub const CONFORMING: u64 = 1 << 42;
pub const EXECUTABLE: u64 = 1 << 43;
pub const USER_SEGMENT: u64 = 1 << 44;
pub const PRESENT: u64 = 1 << 47;
pub const LONG_MODE: u64 = 1 << 53;

/// Entries in the table.
pub const GDT_ENTRIES: usize = 8;

/// What `lgdt` and `lidt` are handed: the last byte of a table and its address.
#[derive(Debug, Clone, Copy, PartialEq, Eq, Structural)]
pub struct DescriptorTablePointer {
    pub limit: u16,
    pub base: u64,
}

#[derive(Debug, Clone, Copy, PartialEq, Eq, Structural)]
pub enum Descriptor {
    UserSegment(u64),
    SystemSegment(u64, u64),
}

impl Descriptor {
    /// Code segment of ring 3: a present, executable 64-bit user segment
    /// with descriptor privilege level 3.
    pub fn user_code_segment() -> (d: Descriptor)
        ensures
            d == Descriptor::UserSegment(0x0020_fa00_0000_0000),
    {
        let flags = USER_SEGMENT | PRESENT | EXECUTABLE | LONG_MODE;
        proof {
            assert(flags == 0x0020_9800_0000_0000u64 && crate::bits::fits_u64(0b11, 2) && (flags | (1u64
                << 41u64)) & !crate::bits::spec_mask_u64(45, 47) | (0b11u64 << 45u64)
                == 0x0020_fa00_0000_0000u64) by (bit_vector)
                requires
                    flags == (1u64 << 44) | (1u64 << 47) | (1u64 << 43) | (1u64 << 53),
            ;
        }
        let bits = set_bit_u64(flags, 41, true);
        let bits = set_bits_u64(bits, 45, 47, 0b11);
        Descriptor::UserSegment(bits)
    }

    /// Data segment of ring 3: a present, writable user segment with
    /// descriptor privilege level 3.
    pub fn user_data_segment() -> (d: Descriptor)
        ensures
            d == Descriptor::UserSegment(0x0020_f200_0000_0000),
    {
        let flags = USER_SEGMENT | PRESENT | LONG_MODE;
        proof {
            assert(flags == 0x0020_9000_0000_0000u64 && crate::bits::fits_u64(0b11, 2) && (flags | (1u64
                << 41u64)) & !crate::bits::spec_mask_u64(45, 47) | (0b11u64 << 45u64)
                == 0x0020_f200_0000_0000u64) by (bit_vector)
                requires
                    flags == (1u64 << 44) | (1u64 << 47) | (1u64 << 53),
            ;
        }
        let bits = set_bit_u64(flags, 41, true);
        let bits = set_bits_u64(bits, 45, 47, 0b11);
        Descriptor::UserSegment(bits)
    }

    /// Code segment of ring 0: a present, executable 64-bit user segment.
    pub fn kernel_code_segment() -> (d: Descriptor)
        ensures
            d == Descriptor::UserSegment(0x0020_9800_0000_0000),
    {
        let flags = USER_SEGMENT | PRESENT | EXECUTABLE | LONG_MODE;
        proof {
            assert(flags == 0x0020_9800_0000_0000u64) by (bit_vector)
                requires
                    flags == (1u64 << 44) | (1u64 << 47) | (1u64 << 43) | (1u64 << 53),
            ;
        }
        Descriptor::UserSegment(flags)
    }

    /// Data segment of ring 0: a present, writable user segment.
    pub fn kernel_data_segment() -> (d: Descriptor)
        ensures
            d == Descriptor::UserSegment(0x0020_9200_0000_0000),
    {
        let flags = USER_SEGMENT | PRESENT | LONG_MODE;
        proof {
            assert(flags | (1u64 << 41u64) == 0x0020_9200_0000_0000u64) by (bit_vector)
                requires
                    flags == (1u64 << 44) | (1u64 << 47) | (1u64 << 53),
            ;
        }
        let bits = set_bit_u64(flags, 41, true);
        Descriptor::UserSegment(bits)
    }

    /// The low word of the descriptor of a task state segment at `ptr`:
    /// present, of the type "available 64-bit TSS", with the limit 103 and
    /// the low 32 bits of the address.
    pub open spec fn spec_tss_low(ptr: u64) -> u64 {
        (1u64 << 47) | (0b1001u64 << 40) | 103u64 | ((ptr & 0xff_ffff) << 16) | (((ptr >> 24) & 0xff)
            << 56)
    }

    /// Descriptor of the task state segment at address `tss`.
    pub fn tss_segment(tss: u64) -> (d: Descriptor)
        ensures
            d == Descriptor::SystemSegment(Self::spec_tss_low(tss), tss >> 32),
    {
        let limit = tss_size() - 1;
        let base_low = get_bits_u64(tss, 0, 24);
        let base_mid = get_bits_u64(tss, 24, 32);
        let base_high = get_bits_u64(tss, 32, 64);
        proof {
            assert(base_low == tss & 0xff_ffff && base_mid == (tss >> 24) & 0xff && base_high == tss >> 32
                && crate::bits::fits_u64(base_low, 24) && crate::bits::fits_u64(base_mid, 8)
                && crate::bits::fits_u64(103, 16) && crate::bits::fits_u64(0b1001, 4)
                && crate::bits::fits_u64(base_high, 32)) by (bit_vector)
                requires
                    base_low == ((tss << 40u64) >> 40u64) >> 0u64,
                    base_mid == ((tss << 32u64) >> 32u64) >> 24u64,
                    base_high == ((tss << 0u64) >> 0u64) >> 32u64,
            ;
        }
        let low = PRESENT;
        let low1 = set_bits_u64(low, 16, 40, base_low);
        let low2 = set_bits_u64(low1, 56, 64, base_mid);
        let low3 = set_bits_u64(low2, 0, 16, limit);
        let low4 = set_bits_u64(low3, 40, 44, 0b1001);
        let high = set_bits_u64(0, 0, 32, base_high);
        proof {
            assert(low4 == (1u64 << 47) | (0b1001u64 << 40) | 103u64 | ((tss & 0xff_ffff) << 16) | (((tss
                >> 24) & 0xff) << 56) && high == tss >> 32) by (bit_vector)
                requires
                    base_low == tss & 0xff_ffff,
                    base_mid == (tss >> 24) & 0xff,
                    base_high == tss >> 32,
                    low1 == ((1u64 << 47) & !(((0xffff_ffff_ffff_ffffu64 >> 24u64) >> 16u64) << 16u64))
                        | (base_low << 16u64),
                    low2 == (low1 & !(((0xffff_ffff_ffff_ffffu64 >> 0u64) >> 56u64) << 56u64)) | (base_mid
                        << 56u64),
                    low3 == (low2 & !(((0xffff_ffff_ffff_ffffu64 >> 48u64) >> 0u64) << 0u64)) | (103u64
                        << 0u64),
                    low4 == (low3 & !(((0xffff_ffff_ffff_ffffu64 >> 20u64) >> 40u64) << 40u64)) | (0b1001u64
                        << 40u64),
                    high == (0u64 & !(((0xffff_ffff_ffff_ffffu64 >> 32u64) >> 0u64) << 0u64)) | (base_high
                        << 0u64),
            ;
        }
        Descriptor::SystemSegment(low4, high)
    }
}

/// The table: eight words, of which word 0 stays empty.
#[derive(Debug)]
pub struct GlobalDescriptorTable {
    pub table: Vec<u64>,
    /// The next free word.
    pub next: usize,
}

impl GlobalDescriptorTable {
    pub open spec fn wf(self) -> bool {
        self.table@.len() == GDT_ENTRIES && 1 <= self.next <= GDT_ENTRIES
    }

    /// How many words a descriptor takes.
    pub open spec fn spec_words(desc: Descriptor) -> int {
        match desc {
            Descriptor::UserSegment(_) => 1,
            Descriptor::SystemSegment(_, _) => 2,
        }
    }

    /// An empty table, with word 1 the next free one.
    pub fn new() -> (g: GlobalDescriptorTable)
        ensures
            g.wf(),
            g.next == 1,
            forall|i: int| 0 <= i < 8 ==> g.table@[i] == 0,
    {
        let mut table: Vec<u64> = Vec::new();
        let mut i: usize = 0;
        while i < GDT_ENTRIES
            invariant
                i <= GDT_ENTRIES,
                table@.len() == i,
                forall|j: int| 0 <= j < i ==> table@[j] == 0,
            decreases GDT_ENTRIES - i,
        {
            table.push(0);
            i += 1;
        }
        GlobalDescriptorTable { table, next: 1 }
    }

    /// Puts the descriptor into the next free words and returns its
    /// selector for ring 0: the index of its first word times eight. The
    /// table must have room for it.
    pub fn add_entry(&mut self, desc: Descriptor) -> (sel: u16)
        requires
            old(self).wf(),
            old(self).next + Self::spec_words(desc) <= GDT_ENTRIES,
        ensures
            final(self).wf(),
            final(self).next == old(self).next + Self::spec_words(desc),
            sel == old(self).next * 8,
            match desc {
                Descriptor::UserSegment(v) => final(self).table@ == old(self).table@.update(
                    old(self).next as int,
                    v,
                ),
                Descriptor::SystemSegment(v1, v2) => final(self).table@ == old(self).table@.update(
                    old(self).next as int,
                    v1,
                ).update(old(self).next + 1, v2),
            },
    {
        let index = self.next;
        match desc {
            Descriptor::UserSegment(v) => {
                self.table[index] = v;
                self.next = self.next + 1;
            },
            Descriptor::SystemSegment(v1, v2) => {
                self.table[index] = v1;
                self.table[index + 1] = v2;
                self.next = self.next + 2;
            },
        }
        let i = index as u16;
        proof {
            assert(i << 3u16 == i * 8) by (bit_vector)
                requires
                    i < 8,
            ;
        }
        ring0_selector(i)
    }

    /// What `lgdt` is to be handed for the table at address `base`.
    pub fn pointer(&self, base: u64) -> (p: DescriptorTablePointer)
        ensures
            p.base == base,
            p.limit == 63,
    {
        DescriptorTablePointer { base, limit: 63 }
    }
}

} // verus!
