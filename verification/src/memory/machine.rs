//! The machine that the kernel runs on, as far as paging sees it: the frames
//! that hold page tables, the register that names the active top table, the
//! translation cache, and the allocator that hands out frames.

use vstd::prelude::*;
use std::collections::HashMap;
use super::PAGE_SIZE;
use super::frame::{Frame, FrameAllocatorProxy, ProxyState};
use super::paging::{EntryFlags, Level, PageEntry, ENTRY_COUNT, PRESENT, USER, WRITABLE,
    HUGE_PAGE, lemma_entry_compose, lemma_zero_entry, spec_index, lemma_spec_index_range,
    lemma_flag_bits};
use super::physical::{MemView, PhysicalMemory, enters, is_pointer_slot, is_zero_table,
    lemma_walk_insert, lemma_walk_link, lemma_wf_insert, lemma_wf_link, mem_wf, recursive,
    spec_write, walk, zero_table, spec_translate, mappable, lemma_mappable_insert,
    lemma_mappable_link};

verus! {

broadcast use vstd::std_specs::hash::group_hash_axioms;

/// Why a page could not be mapped.
#[derive(Debug, Clone, Copy, PartialEq, Eq, Structural)]
pub enum MapError {
    /// The frame allocator has no frame left for a table.
    OutOfFrames,
    /// The frame that the allocator handed out for a table already holds one,
    /// or lies beyond the physical addresses that an entry can name.
    FrameUnusable,
}

/// The flags of an entry that refers to a table.
pub const TABLE_FLAGS: u64 = 7;

/// The table that entry `i` of table `t` refers to.
pub open spec fn spec_next_table(m: MemView, t: u64, i: int) -> Option<u64> {
    if m.contains_key(t) && m[t].entries[i].is_table_pointer() {
        Some(m[t].entries[i].frame_number())
    } else {
        None
    }
}

/// The level below `l`; the last level stays.
pub open spec fn spec_level_below(l: Level) -> Level {
    match l {
        Level::PML4T => Level::PDPT,
        Level::PDPT => Level::PDT,
        _ => Level::PT,
    }
}

/// The entry that refers to the table in frame `f`.
pub open spec fn table_entry(f: u64) -> PageEntry {
    PageEntry::spec_new(Frame { number: f }, EntryFlags { bits: TABLE_FLAGS })
}

/// The memory after frame `f` got an empty table and entry `i` of table `t`
/// was made to refer to it.
pub open spec fn spec_link(m: MemView, t: u64, i: int, f: u64) -> MemView {
    spec_write(m.insert(f, zero_table(spec_level_below(m[t].level))), t, i, table_entry(f))
}

/// Whether the frame can hold a new table: it holds none yet, and an entry
/// can name it.
pub open spec fn usable(dom: Set<u64>, f: Frame) -> bool {
    !dom.contains(f.number) && f.number < 0x100_0000_0000
}

/// What becomes of `k` requests for a frame to hold a new table, one after
/// the other, where the frames in `dom` hold tables already: the first
/// request that gets no frame, or a frame that cannot be used, ends it.
pub open spec fn create_outcome(dom: Set<u64>, st: ProxyState, k: int) -> (Option<MapError>, ProxyState)
    decreases k,
{
    if k <= 0 {
        (None, st)
    } else {
        let (f, st2) = st.step();
        match f {
            None => (Some(MapError::OutOfFrames), st2),
            Some(f) => if usable(dom, f) {
                create_outcome(dom.insert(f.number), st2, k - 1)
            } else {
                (Some(MapError::FrameUnusable), st2)
            },
        }
    }
}

/// Memory and allocator after a step of mapping, and the error that ended it, if any.
pub struct MapStep {
    pub err: Option<MapError>,
    pub mem: MemView,
    pub frames: ProxyState,
}

/// What `next_level_table_or_create` does to memory and allocator, and the
/// table it ends in (of no meaning where `err` is set).
pub open spec fn spec_descend(m: MemView, st: ProxyState, t: u64, i: int) -> (MapStep, u64) {
    match spec_next_table(m, t, i) {
        Some(c) => (MapStep { err: None, mem: m, frames: st }, c),
        None => {
            let (f, st2) = st.step();
            match f {
                None => (MapStep { err: Some(MapError::OutOfFrames), mem: m, frames: st2 }, 0),
                Some(f) => if usable(m.dom(), f) {
                    (MapStep { err: None, mem: spec_link(m, t, i, f.number), frames: st2 }, f.number)
                } else {
                    (MapStep { err: Some(MapError::FrameUnusable), mem: m, frames: st2 }, 0)
                },
            }
        },
    }
}

/// What `map_to` does to memory and allocator for the address `va`, the top
/// table `top` and the entry `e` to be written at the last level.
pub open spec fn spec_map_to(m: MemView, st: ProxyState, top: u64, va: u64, e: PageEntry) -> MapStep {
    let (s3, t3) = spec_descend(m, st, top, spec_index(va, 4));
    if s3.err.is_some() {
        s3
    } else {
        let (s2, t2) = spec_descend(s3.mem, s3.frames, t3, spec_index(va, 3));
        if s2.err.is_some() {
            s2
        } else {
            let (s1, t1) = spec_descend(s2.mem, s2.frames, t2, spec_index(va, 2));
            if s1.err.is_some() {
                s1
            } else {
                MapStep {
                    err: None,
                    mem: spec_write(s1.mem, t1, spec_index(va, 1), e),
                    frames: s1.frames,
                }
            }
        }
    }
}

/// What `map` does: a frame for the page first, then `map_to` with it.
pub open spec fn spec_map(m: MemView, st: ProxyState, top: u64, va: u64, flags: u64) -> MapStep {
    let (f, st1) = st.step();
    match f {
        None => MapStep { err: Some(MapError::OutOfFrames), mem: m, frames: st1 },
        Some(f) => if f.number >= 0x100_0000_0000 {
            MapStep { err: Some(MapError::FrameUnusable), mem: m, frames: st1 }
        } else {
            spec_map_to(
                m,
                st1,
                top,
                va,
                PageEntry::spec_new(f, EntryFlags { bits: flags | PRESENT }),
            )
        },
    }
}

/// What linking a fresh table changes and what it leaves alone.
pub proof fn lemma_link(m: MemView, t0: u64, i0: int, f: u64)
    requires
        mem_wf(m),
        m.contains_key(t0),
        0 <= i0 < 512,
        m[t0].level.rank() >= 2,
        !(m[t0].level == Level::PML4T && i0 == 511),
        !m[t0].entries[i0].is_table_pointer(),
        !m.contains_key(f),
        f < 0x100_0000_0000,
    ensures
        mem_wf(spec_link(m, t0, i0, f)),
        spec_link(m, t0, i0, f).dom() =~= m.dom().insert(f),
        is_zero_table(spec_link(m, t0, i0, f)[f]),
        spec_link(m, t0, i0, f)[f].level.rank() == m[t0].level.rank() - 1,
        spec_link(m, t0, i0, f)[t0].level == m[t0].level,
        spec_link(m, t0, i0, f)[t0].entries[i0].is_table_pointer(),
        spec_link(m, t0, i0, f)[t0].entries[i0].frame_number() == f,
        forall|i: int|
            0 <= i < 512 && i != i0 ==> spec_link(m, t0, i0, f)[t0].entries[i] == m[t0].entries[i],
        forall|t: u64| m.contains_key(t) && t != t0 ==> #[trigger] spec_link(m, t0, i0, f)[t] == m[t],
        forall|r: u64, level: int, va: u64| #[trigger]
            enters(m, r, level, va) ==> enters(spec_link(m, t0, i0, f), r, level, va),
        !m[t0].entries[i0].is_present() ==> forall|r: u64, level: int, va: u64|
            enters(m, r, level, va) ==> #[trigger] walk(spec_link(m, t0, i0, f), r, level, va)
                == walk(m, r, level, va),
        !m[t0].entries[i0].is_present() ==> forall|r: u64, level: int, va: u64|
            enters(m, r, level, va) ==> #[trigger] mappable(spec_link(m, t0, i0, f), r, level, va)
                == mappable(m, r, level, va),
{
    let zt = zero_table(spec_level_below(m[t0].level));
    let m1 = m.insert(f, zt);
    let e0 = table_entry(f);
    let m2 = spec_write(m1, t0, i0, e0);
    lemma_flag_bits(0, 0);
    lemma_entry_compose(f, TABLE_FLAGS);
    lemma_zero_entry();
    lemma_wf_insert(m, f, zt);
    assert(m1[t0] == m[t0]);
    assert(!is_pointer_slot(m1, t0, i0));
    lemma_wf_link(m1, t0, i0, e0);
    assert(m2[f] == zt);
    if !m[t0].entries[i0].is_present() {
        assert forall|r: u64, level: int, va: u64| enters(m, r, level, va) implies #[trigger] walk(
            m2,
            r,
            level,
            va,
        ) == walk(m, r, level, va) by {
            lemma_walk_insert(m, f, zt, r, level, va);
            lemma_walk_link(m1, t0, i0, e0, r, level, va);
        }
        assert forall|r: u64, level: int, va: u64| enters(m, r, level, va) implies #[trigger] mappable(
            m2,
            r,
            level,
            va,
        ) == mappable(m, r, level, va) by {
            lemma_mappable_insert(m, f, zt, r, level, va);
            lemma_mappable_link(m1, t0, i0, e0, r, level, va);
        }
    }
}

pub struct Machine {
    pub memory: PhysicalMemory,
    /// Physical address of the active top table.
    pub cr3: u64,
    /// Cached translations: page number to frame number.
    pub tlb: HashMap<u64, u64>,
    pub frames: FrameAllocatorProxy,
}

impl Machine {
    /// The frame of the active top table.
    pub open spec fn active(self) -> u64 {
        self.cr3 / PAGE_SIZE
    }

    /// The frame of the top table that the recursive mapping shows: the one
    /// that the last entry of the active top table refers to.
    pub open spec fn top(self) -> u64 {
        self.memory@[self.active()].entries[511].frame_number()
    }

    /// The tables are well formed, the active top table exists, and its last
    /// entry refers to a top table that refers to itself.
    pub open spec fn wf(self) -> bool {
        &&& mem_wf(self.memory@)
        &&& self.frames.wf()
        &&& self.active() < 0x100_0000_0000
        &&& self.memory@.contains_key(self.active())
        &&& self.memory@[self.active()].level == Level::PML4T
        &&& self.memory@[self.active()].entries[511].is_table_pointer()
        &&& recursive(self.memory@, self.top())
    }

    /// The active top table is the one that the recursive mapping shows.
    pub open spec fn settled(self) -> bool {
        self.top() == self.active()
    }

    /// The physical address of `va` in the address space that the recursive
    /// mapping shows.
    pub open spec fn translation(self, va: u64) -> Option<int> {
        spec_translate(self.memory@, self.top(), va)
    }

    /// The physical address of `va` as the hardware walks for it, from the
    /// active top table.
    pub open spec fn hw_translation(self, va: u64) -> Option<int> {
        spec_translate(self.memory@, self.active(), va)
    }

    pub fn new(memory: PhysicalMemory, cr3: u64, frames: FrameAllocatorProxy) -> (m: Machine)
        ensures
            m.memory == memory,
            m.cr3 == cr3,
            m.frames == frames,
            m.tlb@ =~= Map::<u64, u64>::empty(),
    {
        Machine { memory, cr3, tlb: HashMap::new(), frames }
    }

    /// A machine whose active address space is empty but for the recursive
    /// entry: the allocator's next frame becomes the top table.
    pub fn boot(frames: FrameAllocatorProxy) -> (r: Result<Machine, MapError>)
        requires
            frames.wf(),
        ensures
            match r {
                Ok(m) => {
                    &&& m.wf()
                    &&& m.settled()
                    &&& frames@.step().0.is_some()
                    &&& usable(Set::empty(), frames@.step().0.unwrap())
                    &&& m.active() == frames@.step().0.unwrap().number
                    &&& m.frames@ == frames@.step().1
                    &&& m.tlb@ =~= Map::<u64, u64>::empty()
                    &&& forall|va: u64| spec_index(va, 4) != 511 ==> m.translation(va).is_none()
                    &&& super::mapper::every_top_recursive(m.memory@)
                },
                Err(e) => match frames@.step().0 {
                    None => e == MapError::OutOfFrames,
                    Some(f) => e == MapError::FrameUnusable && !usable(Set::empty(), f),
                },
            },
    {
        let mut frames = frames;
        let mut memory = PhysicalMemory::new();
        match frames.alloc_frame() {
            None => Err(MapError::OutOfFrames),
            Some(f) => {
                if f.number >= 0x100_0000_0000 {
                    return Err(MapError::FrameUnusable);
                }
                memory.insert_zeroed(f.number, Level::PML4T);
                let mut e = PageEntry::new();
                proof {
                    lemma_flag_bits(0, 0);
                    lemma_entry_compose(f.number, 3);
                }
                e.set(f, EntryFlags::from_bits_truncate(WRITABLE | PRESENT));
                proof {
                    lemma_flag_bits(0, 0);
                    let m0 = Map::<u64, super::paging::TableView>::empty();
                    lemma_empty_wf();
                    lemma_wf_insert(m0, f.number, zero_table(Level::PML4T));
                    super::physical::lemma_wf_recursive(memory@, f.number, e);
                }
                let ghost m1 = memory@;
                memory.write(f.number, 511, e);
                let cr3 = f.start_address();
                let m = Machine::new(memory, cr3, frames);
                proof {
                    lemma_zero_entry();
                    assert(m.active() == f.number);
                    assert forall|va: u64| spec_index(va, 4) != 511 implies m.translation(
                        va,
                    ).is_none() by {
                        lemma_spec_index_range(va, 4);
                        assert(m.memory@[f.number].entries[spec_index(va, 4)] == PageEntry(0));
                    }
                }
                Ok(m)
            },
        }
    }

    /// The physical address of the active top table.
    pub fn cr3(&self) -> (r: u64)
        ensures
            r == self.cr3,
    {
        self.cr3
    }

    /// Makes the table at `paddr` the active top table. Every cached
    /// translation is dropped.
    pub fn cr3_set(&mut self, paddr: u64)
        ensures
            final(self).cr3 == paddr,
            final(self).memory == old(self).memory,
            final(self).frames == old(self).frames,
            final(self).tlb@ =~= Map::<u64, u64>::empty(),
    {
        self.cr3 = paddr;
        self.tlb.clear();
    }

    /// Drops the cached translation of the page of `addr`.
    pub fn tlb_flush(&mut self, addr: u64)
        ensures
            final(self).cr3 == old(self).cr3,
            final(self).memory == old(self).memory,
            final(self).frames == old(self).frames,
            final(self).tlb@ =~= old(self).tlb@.remove(addr / PAGE_SIZE),
    {
        let page = addr / PAGE_SIZE;
        self.tlb.remove(&page);
    }

    /// Drops every cached translation.
    pub fn tlb_flush_all(&mut self)
        ensures
            final(self).cr3 == old(self).cr3,
            final(self).memory == old(self).memory,
            final(self).frames == old(self).frames,
            final(self).tlb@ =~= Map::<u64, u64>::empty(),
    {
        self.tlb.clear();
    }

    /// Whether a translation of the page of `addr` is cached.
    pub fn tlb_contains(&self, addr: u64) -> (r: bool)
        ensures
            r == self.tlb@.contains_key(addr / PAGE_SIZE),
    {
        let page = addr / PAGE_SIZE;
        self.tlb.contains_key(&page)
    }

    /// Asks the frame allocator for a frame.
    pub fn alloc_frame(&mut self) -> (r: Option<Frame>)
        requires
            old(self).frames.wf(),
        ensures
            final(self).frames.wf(),
            (r, final(self).frames@) == old(self).frames@.step(),
            final(self).frames.initial == old(self).frames.initial,
            final(self).cr3 == old(self).cr3,
            final(self).memory == old(self).memory,
            final(self).tlb == old(self).tlb,
    {
        self.frames.alloc_frame()
    }

    /// Gives a frame back to the frame allocator.
    pub fn dealloc_frame(&mut self, frame: Frame)
        requires
            old(self).frames.wf(),
            !old(self).frames.initial,
            frame.addressable(),
        ensures
            final(self).frames.wf(),
            !final(self).frames.initial,
            final(self).frames.alternative.unwrap().allocated() == old(self).frames.alternative.unwrap().allocated().remove(
                frame.number - old(self).frames.alternative.unwrap().start / PAGE_SIZE,
            ),
            final(self).frames.alternative.unwrap().size == old(self).frames.alternative.unwrap().size,
            final(self).frames.alternative.unwrap().start == old(self).frames.alternative.unwrap().start,
            final(self).cr3 == old(self).cr3,
            final(self).memory == old(self).memory,
            final(self).tlb == old(self).tlb,
    {
        self.frames.dealloc_frame(frame)
    }

    /// The table that entry `index` of the table in frame `table` refers to:
    /// there is one where the entry is present and maps no huge page.
    pub fn next_level_table(&self, table: u64, index: usize) -> (r: Option<u64>)
        requires
            self.memory.shape(),
            index < ENTRY_COUNT,
        ensures
            r == spec_next_table(self.memory@, table, index as int),
    {
        match self.memory.read(table, index) {
            None => None,
            Some(e) => {
                let flags = e.flags();
                if flags.contains(PRESENT) && !flags.contains(HUGE_PAGE) {
                    match e.pointed_frame() {
                        Some(f) => Some(f.number),
                        None => None,
                    }
                } else {
                    None
                }
            },
        }
    }

    /// The frame of the top table as the recursive mapping shows it: the
    /// table found by following the last entry four times from the active
    /// top table.
    pub fn top_frame(&self) -> (r: u64)
        requires
            self.wf(),
        ensures
            r == self.top(),
    {
        let active = self.cr3 / PAGE_SIZE;
        let r1 = self.next_level_table(active, 511).unwrap();
        let r2 = self.next_level_table(r1, 511).unwrap();
        let r3 = self.next_level_table(r2, 511).unwrap();
        let e = self.memory.read(r3, 511).unwrap();
        e.pointed_frame().unwrap().number
    }

    /// The table that entry `index` of the table in frame `table` refers to;
    /// where it refers to none, a frame is taken from the allocator, an empty
    /// table of the next level is put into it, and the entry is made to refer
    /// to it: present, writable, and open to user mode, so that user pages
    /// below it can be reached.
    pub fn next_level_table_or_create(&mut self, table: u64, index: usize) -> (r: Result<
        u64,
        MapError,
    >)
        requires
            old(self).memory.shape(),
            old(self).frames.wf(),
            old(self).memory@.contains_key(table),
            index < ENTRY_COUNT,
        ensures
            final(self).memory.shape(),
            final(self).frames.wf(),
            final(self).frames.initial == old(self).frames.initial,
            final(self).cr3 == old(self).cr3,
            final(self).tlb == old(self).tlb,
            ({
                let (s, c) = spec_descend(old(self).memory@, old(self).frames@, table, index as int);
                &&& s.mem == final(self).memory@
                &&& s.frames == final(self).frames@
                &&& match s.err {
                    None => r == Ok::<u64, MapError>(c),
                    Some(e) => r == Err::<u64, MapError>(e),
                }
            }),
            match spec_next_table(old(self).memory@, table, index as int) {
                Some(c) => r == Ok::<u64, MapError>(c) && final(self).memory@ == old(self).memory@
                    && final(self).frames@ == old(self).frames@,
                None => {
                    &&& final(self).frames@ == old(self).frames@.step().1
                    &&& match old(self).frames@.step().0 {
                        None => r == Err::<u64, MapError>(MapError::OutOfFrames) && final(self).memory@ == old(self).memory@,
                        Some(f) => if usable(old(self).memory@.dom(), f) {
                            r == Ok::<u64, MapError>(f.number) && final(self).memory@ == spec_link(
                                old(self).memory@,
                                table,
                                index as int,
                                f.number,
                            )
                        } else {
                            r == Err::<u64, MapError>(MapError::FrameUnusable) && final(self).memory@ == old(self).memory@
                        },
                    }
                },
            },
    {
        match self.next_level_table(table, index) {
            Some(c) => Ok(c),
            None => {
                let level = match self.memory.level_of(table) {
                    Some(Level::PML4T) => Level::PDPT,
                    Some(Level::PDPT) => Level::PDT,
                    _ => Level::PT,
                };
                match self.frames.alloc_frame() {
                    None => Err(MapError::OutOfFrames),
                    Some(frame) => {
                        if frame.number >= 0x100_0000_0000 || self.memory.has_table(frame.number) {
                            return Err(MapError::FrameUnusable);
                        }
                        let mut e = PageEntry::new();
                        proof {
                            lemma_flag_bits(0, 0);
                        }
                        e.set(frame, EntryFlags::from_bits_truncate(WRITABLE | PRESENT | USER));
                        self.memory.insert_zeroed(frame.number, level);
                        self.memory.write(table, index, e);
                        Ok(frame.number)
                    },
                }
            },
        }
    }
}

/// A memory without tables is well formed.
pub proof fn lemma_empty_wf()
    ensures
        mem_wf(Map::<u64, super::paging::TableView>::empty()),
{
}

} // verus!
