//! Pages, page-table entries and tables of the four paging levels.

use vstd::prelude::*;
use super::PAGE_SIZE;
use super::frame::Frame;

verus! {

/// Number of entries in a table of any level.
pub const ENTRY_COUNT: usize = 512;

pub type PhysicalAddress = u64;

pub type VirtualAddress = u64;

/// Bits 12..52 of an entry: the physical address it refers to.
pub const ADDRESS_BITS_MASK: u64 = 0x000f_ffff_ffff_f000;

pub const PRESENT: u64 = 1 << 0;
pub const WRITABLE: u64 = 1 << 1;
pub const USER: u64 = 1 << 2;
pub const WRITE_THROUGH: u64 = 1 << 3;
pub const DISABLE_CACHE: u64 = 1 << 4;
pub const ACCESSED: u64 = 1 << 5;
pub const DIRTY: u64 = 1 << 6;
/// 2 MiB in a page directory, 1 GiB in a page directory pointer table.
pub const HUGE_PAGE: u64 = 1 << 7;
pub const GLOBAL: u64 = 1 << 8;
/// Software marker, ignored by the hardware.
pub const SWAPPED_OUT: u64 = 1 << 9;
pub const NO_EXECUTE: u64 = 1 << 63;

/// Every bit that is a flag.
pub const ALL_FLAGS: u64 = 0x8000_0000_0000_03ff;

/// First address above the lower canonical half.
pub const LOWER_HALF_END: u64 = 0x0000_8000_0000_0000;

/// First address of the upper canonical half.
pub const UPPER_HALF_START: u64 = 0xffff_8000_0000_0000;

/// A virtual page of `PAGE_SIZE` bytes, named by its number.
#[derive(Debug, Clone, Copy, PartialEq, Eq, PartialOrd, Ord, Structural)]
pub struct Page {
    pub number: u64,
}

impl Page {
    pub open spec fn spec_from_vaddress(vaddr: u64) -> Page {
        Page { number: vaddr / PAGE_SIZE }
    }

    pub open spec fn spec_start_address(self) -> int {
        self.number * PAGE_SIZE
    }

    pub open spec fn addressable(self) -> bool {
        self.number <= super::frame::MAX_FRAME_NUMBER
    }

    pub fn from_vaddress(vaddr: u64) -> (p: Page)
        ensures
            p == Self::spec_from_vaddress(vaddr),
            p.addressable(),
            p.spec_start_address() <= vaddr < p.spec_start_address() + PAGE_SIZE,
    {
        Page { number: vaddr / PAGE_SIZE }
    }

    pub fn start_address(&self) -> (a: u64)
        requires
            self.addressable(),
        ensures
            a == self.spec_start_address(),
            a % PAGE_SIZE == 0,
            a / PAGE_SIZE == self.number,
    {
        self.number * PAGE_SIZE
    }

    /// The page `rhs` pages further up.
    pub fn plus(self, rhs: u64) -> (p: Page)
        requires
            self.number + rhs <= u64::MAX,
        ensures
            p.number == self.number + rhs,
    {
        Page { number: self.number + rhs }
    }

    /// Moves the page by a signed count of pages.
    pub fn add_assign(&mut self, inc: i64)
        requires
            0 <= old(self).number + inc <= u64::MAX,
        ensures
            final(self).number == old(self).number + inc,
    {
        if inc < 0 {
            let dec: u64 = if inc == i64::MIN {
                0x8000_0000_0000_0000
            } else {
                (-inc) as u64
            };
            self.number = self.number - dec;
        } else {
            self.number = self.number + inc as u64;
        }
    }
}

/// Rounding an address down to its page and back clears the low twelve bits.
pub proof fn lemma_page_round_trip(v: u64)
    ensures
        Page::spec_from_vaddress(v).spec_start_address() == (v & !((PAGE_SIZE - 1) as u64)),
        Page::spec_from_vaddress(v).addressable(),
{
    super::frame::lemma_frame_round_trip(v);
}

/// Pages from `start` up to, not including, `end`.
#[derive(Debug, Clone, Copy)]
pub struct PageRange {
    pub start: Page,
    pub end: Page,
}

impl PageRange {
    /// How many pages are left.
    pub open spec fn spec_len(self) -> nat {
        if self.start.number < self.end.number {
            (self.end.number - self.start.number) as nat
        } else {
            0
        }
    }

    /// Whether the page is among those left.
    pub open spec fn contains(self, p: Page) -> bool {
        self.start.number <= p.number < self.end.number
    }

    /// The pages that overlap the bytes `[start, end)`.
    pub fn new(start: VirtualAddress, end: VirtualAddress) -> (r: PageRange)
        requires
            end >= 1,
        ensures
            r.start == Page::spec_from_vaddress(start),
            r.end.number == Page::spec_from_vaddress((end - 1) as u64).number + 1,
            r.start.number < r.end.number || start >= end,
    {
        PageRange { start: Page::from_vaddress(start), end: Page::from_vaddress(end - 1).plus(1) }
    }

    /// Hands out the first page of the range, if any is left.
    pub fn next(&mut self) -> (r: Option<Page>)
        ensures
            old(self).spec_len() == 0 ==> r.is_none() && *final(self) == *old(self),
            old(self).spec_len() > 0 ==> r == Some(old(self).start) && final(self).start.number
                == old(self).start.number + 1 && final(self).end == old(self).end,
    {
        if self.start.number < self.end.number {
            let p = self.start;
            self.start = Page { number: p.number + 1 };
            Some(p)
        } else {
            None
        }
    }

    /// Skips `n` pages and hands out the one after them, as an iterator's `nth` does.
    pub fn nth(&mut self, n: u64) -> (r: Option<Page>)
        ensures
            n < old(self).spec_len() ==> r == Some(Page { number: (old(self).start.number + n) as u64 })
                && final(self).start.number == old(self).start.number + n + 1
                && final(self).end == old(self).end,
            n >= old(self).spec_len() ==> r.is_none() && final(self).end == old(self).end
                && final(self).spec_len() == 0,
    {
        if self.start.number < self.end.number && n < self.end.number - self.start.number {
            let p = Page { number: self.start.number + n };
            self.start = Page { number: p.number + 1 };
            Some(p)
        } else {
            self.start = self.end;
            None
        }
    }
}

/// Whether the address lies in one of the two halves that the hardware can
/// translate: below the hole, or from `UPPER_HALF_START` on.
pub open spec fn spec_is_valid_address(v: VirtualAddress) -> bool {
    v < LOWER_HALF_END || v >= UPPER_HALF_START
}

pub fn is_valid_address(v: VirtualAddress) -> (r: bool)
    ensures
        r == spec_is_valid_address(v),
{
    v < LOWER_HALF_END || v >= UPPER_HALF_START
}

/// The table index that the address selects at a level, 4 for the top table down to 1.
pub open spec fn spec_index(v: VirtualAddress, level: int) -> int {
    if level == 4 {
        ((v >> 39) & 0o777) as int
    } else if level == 3 {
        ((v >> 30) & 0o777) as int
    } else if level == 2 {
        ((v >> 21) & 0o777) as int
    } else {
        ((v >> 12) & 0o777) as int
    }
}

pub open spec fn spec_offset(v: VirtualAddress) -> u64 {
    v & 0xfff
}

proof fn lemma_index_bounds(v: u64)
    by (bit_vector)
    ensures
        (v >> 39) & 0o777 < 512,
        (v >> 30) & 0o777 < 512,
        (v >> 21) & 0o777 < 512,
        (v >> 12) & 0o777 < 512,
        v & 0xfff < 4096,
{
}

/// Every index is below `ENTRY_COUNT`.
pub proof fn lemma_spec_index_range(v: VirtualAddress, level: int)
    ensures
        0 <= spec_index(v, level) < 512,
        spec_offset(v) < 4096,
{
    lemma_index_bounds(v);
}

pub fn offset(v: VirtualAddress) -> (r: u64)
    ensures
        r == spec_offset(v),
        r < 4096,
{
    proof {
        lemma_index_bounds(v);
    }
    v & 0xfff
}

pub fn pml4t_index(v: VirtualAddress) -> (r: usize)
    ensures
        r == spec_index(v, 4),
        r < 512,
{
    proof {
        lemma_index_bounds(v);
    }
    ((v >> 39) & 0o777) as usize
}

pub fn pdpt_index(v: VirtualAddress) -> (r: usize)
    ensures
        r == spec_index(v, 3),
        r < 512,
{
    proof {
        lemma_index_bounds(v);
    }
    ((v >> 30) & 0o777) as usize
}

pub fn pdt_index(v: VirtualAddress) -> (r: usize)
    ensures
        r == spec_index(v, 2),
        r < 512,
{
    proof {
        lemma_index_bounds(v);
    }
    ((v >> 21) & 0o777) as usize
}

pub fn pt_index(v: VirtualAddress) -> (r: usize)
    ensures
        r == spec_index(v, 1),
        r < 512,
{
    proof {
        lemma_index_bounds(v);
    }
    ((v >> 12) & 0o777) as usize
}

/// What masking with the flag bits does.
pub proof fn lemma_flag_bits(b: u64, mask: u64)
    by (bit_vector)
    ensures
        0u64 & !0x8000_0000_0000_03ffu64 == 0,
        (b & 0x8000_0000_0000_03ffu64) & !0x8000_0000_0000_03ffu64 == 0,
        b & !0x8000_0000_0000_03ffu64 == 0 ==> (b | (mask & 0x8000_0000_0000_03ffu64))
            & !0x8000_0000_0000_03ffu64 == 0,
        b & !0x8000_0000_0000_03ffu64 == 0 ==> (b | (1u64 << 0)) & !0x8000_0000_0000_03ffu64 == 0,
        (b | (1u64 << 0)) & (1u64 << 0) == (1u64 << 0),
        b & !0x8000_0000_0000_03ffu64 == 0 ==> b | ((1u64 << 0) & 0x8000_0000_0000_03ffu64) == b | (1u64
            << 0),
        (b & 0x000f_ffff_ffff_f000u64) / 4096 < 0x100_0000_0000u64,
        (b & 0x8000_0000_0000_03ffu64) & (1u64 << 0) == b & (1u64 << 0),
        (b & 0x8000_0000_0000_03ffu64) & (1u64 << 7) == b & (1u64 << 7),
        0u64 & (1u64 << 0) == 0,
        0u64 & (1u64 << 7) == 0,
        (1u64 << 0) != 0,
        (1u64 << 7) != 0,
        (1u64 << 0) == 1,
        (1u64 << 7) == 0x80,
        7u64 & !0x8000_0000_0000_03ffu64 == 0,
        7u64 & (1u64 << 0) == (1u64 << 0),
        7u64 & (1u64 << 7) != (1u64 << 7),
        ((1u64 << 1) | (1u64 << 0) | (1u64 << 2)) & 0x8000_0000_0000_03ffu64 == 7,
        3u64 & !0x8000_0000_0000_03ffu64 == 0,
        3u64 & 0x8000_0000_0000_03ffu64 == 3,
        3u64 | (1u64 << 0) == 3,
        3u64 & (1u64 << 0) == (1u64 << 0),
        3u64 & (1u64 << 7) != (1u64 << 7),
        (1u64 << 1) | (1u64 << 0) == 3,
        ((1u64 << 1) | (1u64 << 0)) & 0x8000_0000_0000_03ffu64 == 3,
        (1u64 << 1) & 0x8000_0000_0000_03ffu64 == (1u64 << 1),
{
}

/// A set of entry flags.
#[derive(Debug, Clone, Copy, PartialEq, Eq, Structural)]
pub struct EntryFlags {
    pub bits: u64,
}

impl EntryFlags {
    /// Only flag bits are set.
    pub open spec fn valid(self) -> bool {
        self.bits & !ALL_FLAGS == 0
    }

    pub open spec fn spec_contains(self, mask: u64) -> bool {
        self.bits & mask == mask
    }

    pub fn empty() -> (f: EntryFlags)
        ensures
            f.bits == 0,
            f.valid(),
    {
        proof {
            lemma_flag_bits(0, 0);
        }
        EntryFlags { bits: 0 }
    }

    /// The flags among `bits`; bits that are no flag are dropped.
    pub fn from_bits_truncate(bits: u64) -> (f: EntryFlags)
        ensures
            f.bits == bits & ALL_FLAGS,
            f.valid(),
    {
        proof {
            lemma_flag_bits(bits, 0);
        }
        EntryFlags { bits: bits & ALL_FLAGS }
    }

    pub fn bits(&self) -> (b: u64)
        ensures
            b == self.bits,
    {
        self.bits
    }

    /// Whether every flag of `mask` is set.
    pub fn contains(&self, mask: u64) -> (r: bool)
        ensures
            r == self.spec_contains(mask),
    {
        self.bits & mask == mask
    }

    pub fn is_empty(&self) -> (r: bool)
        ensures
            r == (self.bits == 0),
    {
        self.bits == 0
    }

    /// These flags and those of `mask` that are flags.
    pub fn union(self, mask: u64) -> (f: EntryFlags)
        requires
            self.valid(),
        ensures
            f.bits == self.bits | (mask & ALL_FLAGS),
            f.valid(),
    {
        proof {
            lemma_flag_bits(self.bits, mask);
        }
        EntryFlags { bits: self.bits | (mask & ALL_FLAGS) }
    }
}

/// One 64-bit entry of a table: a physical address in bits 12..52 and flags around it.
#[derive(Debug, Clone, Copy, PartialEq, Eq, Structural)]
pub struct PageEntry(pub u64);

impl PageEntry {
    /// An entry that is not present is unused, whatever its other bits hold.
    pub open spec fn spec_is_unused(self) -> bool {
        self.0 & PRESENT != PRESENT
    }

    pub open spec fn spec_flags(self) -> EntryFlags {
        EntryFlags { bits: self.0 & ALL_FLAGS }
    }

    pub open spec fn is_present(self) -> bool {
        self.0 & PRESENT == PRESENT
    }

    pub open spec fn is_huge(self) -> bool {
        self.0 & HUGE_PAGE == HUGE_PAGE
    }

    /// The entry refers to a table of the next level.
    pub open spec fn is_table_pointer(self) -> bool {
        self.is_present() && !self.is_huge()
    }

    /// The number of the frame in the address bits, whatever the flags.
    pub open spec fn frame_number(self) -> u64 {
        (self.0 & ADDRESS_BITS_MASK) / PAGE_SIZE
    }

    pub open spec fn spec_pointed_frame(self) -> Option<Frame> {
        if self.is_present() {
            Some(Frame { number: self.frame_number() })
        } else {
            None
        }
    }

    /// What `set` writes for a frame and flags.
    pub open spec fn spec_new(frame: Frame, flags: EntryFlags) -> PageEntry {
        PageEntry(((frame.number * PAGE_SIZE) as u64) | flags.bits)
    }

    pub fn new() -> (e: PageEntry)
        ensures
            e.0 == 0,
            e.spec_is_unused(),
    {
        proof {
            lemma_zero_entry();
        }
        PageEntry(0)
    }

    pub fn is_unused(&self) -> (r: bool)
        ensures
            r == self.spec_is_unused(),
    {
        self.0 & PRESENT != PRESENT
    }

    pub fn set_unused(&mut self)
        ensures
            final(self).0 == 0,
    {
        self.0 = 0;
    }

    pub fn flags(&self) -> (f: EntryFlags)
        ensures
            f == self.spec_flags(),
            f.valid(),
            f.spec_contains(PRESENT) == self.is_present(),
            f.spec_contains(HUGE_PAGE) == self.is_huge(),
    {
        proof {
            lemma_flag_bits(self.0, 0);
        }
        EntryFlags::from_bits_truncate(self.0)
    }

    /// The frame the entry refers to, when it is present.
    pub fn pointed_frame(&self) -> (r: Option<Frame>)
        ensures
            r == self.spec_pointed_frame(),
            r.is_some() ==> r.unwrap().number < 0x100_0000_0000,
    {
        proof {
            lemma_flag_bits(self.0, 0);
        }
        if self.flags().contains(PRESENT) {
            Some(Frame::from_paddress(self.0 & ADDRESS_BITS_MASK))
        } else {
            None
        }
    }

    /// Points the entry at `frame`, with `flags`.
    pub fn set(&mut self, frame: Frame, flags: EntryFlags)
        requires
            frame.number < 0x100_0000_0000,
            flags.valid(),
        ensures
            *final(self) == Self::spec_new(frame, flags),
            final(self).frame_number() == frame.number,
            final(self).spec_flags() == flags,
            final(self).is_present() == flags.spec_contains(PRESENT),
            final(self).is_huge() == flags.spec_contains(HUGE_PAGE),
    {
        proof {
            lemma_entry_compose(frame.number, flags.bits);
        }
        self.0 = frame.start_address() | flags.bits();
    }
}

/// What an entry made of a frame number and flags holds.
pub proof fn lemma_entry_compose(n: u64, fl: u64)
    requires
        n < 0x100_0000_0000,
        fl & !ALL_FLAGS == 0,
    ensures
        PageEntry(((n * 4096) as u64) | fl).frame_number() == n,
        PageEntry(((n * 4096) as u64) | fl).spec_flags().bits == fl,
        PageEntry(((n * 4096) as u64) | fl).is_present() == (fl & PRESENT == PRESENT),
        PageEntry(((n * 4096) as u64) | fl).is_huge() == (fl & HUGE_PAGE == HUGE_PAGE),
        n * 4096 <= u64::MAX,
{
    let a: u64 = (n * 4096) as u64;
    assert(a == n << 12 && ((n << 12) | fl) & 0x000f_ffff_ffff_f000u64 == (n << 12) && (((n << 12) | fl)
        & 0x000f_ffff_ffff_f000u64) / 4096 == n && ((n << 12) | fl) & 0x8000_0000_0000_03ffu64
        == fl && ((n << 12) | fl) & (1u64 << 0) == fl & (1u64 << 0) && ((n << 12) | fl) & (1u64 << 7)
        == fl & (1u64 << 7)) by (bit_vector)
        requires
            n < 0x100_0000_0000u64,
            a == n * 4096,
            fl & !0x8000_0000_0000_03ffu64 == 0,
    ;
}

/// An entry names a frame that 40 bits can number.
pub proof fn lemma_frame_number_bound(e: PageEntry)
    ensures
        e.frame_number() < 0x100_0000_0000,
        e.spec_flags().valid(),
        e.spec_flags().spec_contains(PRESENT) == e.is_present(),
        e.spec_flags().spec_contains(HUGE_PAGE) == e.is_huge(),
{
    lemma_flag_bits(e.0, 0);
}

/// The zero entry is not present.
pub proof fn lemma_zero_entry()
    ensures
        !PageEntry(0).is_present(),
        !PageEntry(0).is_huge(),
        PageEntry(0).spec_pointed_frame().is_none(),
{
    lemma_flag_bits(0, 0);
}

/// The four kinds of table, from the leaves up.
#[derive(Debug, Clone, Copy, PartialEq, Eq, Structural)]
pub enum Level {
    PT,
    PDT,
    PDPT,
    PML4T,
}

impl Level {
    /// 1 for a page table up to 4 for the top table.
    pub open spec fn rank(self) -> int {
        match self {
            Level::PT => 1,
            Level::PDT => 2,
            Level::PDPT => 3,
            Level::PML4T => 4,
        }
    }

    /// The level of the tables that this level's entries refer to.
    pub fn next_level(self) -> (r: Option<Level>)
        ensures
            self == Level::PT <==> r.is_none(),
            r.is_some() ==> r.unwrap().rank() == self.rank() - 1,
    {
        match self {
            Level::PT => None,
            Level::PDT => Some(Level::PT),
            Level::PDPT => Some(Level::PDT),
            Level::PML4T => Some(Level::PDPT),
        }
    }
}

/// What a table holds, as a value of mathematics.
pub struct TableView {
    pub entries: Seq<PageEntry>,
    pub level: Level,
}

/// One table: `ENTRY_COUNT` entries and the level they belong to.
#[derive(Debug, Clone)]
pub struct Table {
    pub entries: Vec<PageEntry>,
    pub level: Level,
}

impl View for Table {
    type V = TableView;

    open spec fn view(&self) -> TableView {
        TableView { entries: self.entries@, level: self.level }
    }
}

impl Table {
    pub open spec fn wf(self) -> bool {
        self.entries@.len() == ENTRY_COUNT
    }

    /// A table of the level with every entry unused.
    pub fn new(level: Level) -> (t: Table)
        ensures
            t.wf(),
            t.level == level,
            forall|i: int| 0 <= i < 512 ==> t.entries@[i] == PageEntry(0),
    {
        let mut entries: Vec<PageEntry> = Vec::new();
        let mut i: usize = 0;
        while i < ENTRY_COUNT
            invariant
                i <= ENTRY_COUNT,
                entries@.len() == i,
                forall|j: int| 0 <= j < i ==> entries@[j] == PageEntry(0),
            decreases ENTRY_COUNT - i,
        {
            entries.push(PageEntry(0));
            i += 1;
        }
        Table { entries, level }
    }

    /// Marks every entry unused.
    pub fn zero(&mut self)
        requires
            old(self).wf(),
        ensures
            final(self).wf(),
            final(self).level == old(self).level,
            forall|i: int| 0 <= i < 512 ==> final(self).entries@[i] == PageEntry(0),
    {
        let mut i: usize = 0;
        while i < ENTRY_COUNT
            invariant
                i <= ENTRY_COUNT,
                self.entries@.len() == ENTRY_COUNT,
                self.level == old(self).level,
                forall|j: int| 0 <= j < i ==> self.entries@[j] == PageEntry(0),
            decreases ENTRY_COUNT - i,
        {
            self.entries[i] = PageEntry(0);
            i += 1;
        }
    }

    pub fn get(&self, index: usize) -> (e: PageEntry)
        requires
            self.wf(),
            index < ENTRY_COUNT,
        ensures
            e == self.entries@[index as int],
    {
        self.entries[index]
    }

    pub fn put(&mut self, index: usize, entry: PageEntry)
        requires
            old(self).wf(),
            index < ENTRY_COUNT,
        ensures
            final(self).entries@ == old(self).entries@.update(index as int, entry),
            final(self).level == old(self).level,
            final(self).wf(),
    {
        self.entries[index] = entry;
    }
}

} // verus!
