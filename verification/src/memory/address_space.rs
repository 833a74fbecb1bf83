//! The active top table, and work done in an address space that is not active.

use vstd::prelude::*;
use super::PAGE_SIZE;
use super::frame::Frame;
use super::inactive::{InactivePML4Table, TemporaryPage, TEMPORARY_FLAGS, lemma_temporary_flags};
use super::machine::{Machine, MapError, MapStep, spec_map_to, usable};
use super::boot::BootInformation;
use super::mapper::{lemma_empty_space_range, spec_new_top};
use super::frame::ProxyState;
use super::physical::MemView;
use super::mapper::{Mapper, lemma_tops_kept_close, lemma_tops_kept_from_preserves,
    lemma_tops_kept_trans, lemma_tops_kept_widen, tops_kept, tops_kept_but, leaf_entry, lemma_page_va, lemma_preserves_tables, spec_unmap,
    all_pages, mapped_range, mapped_range_to, mappable_range, pages_ok, spec_map_range,
    spec_map_range_to, lemma_walks_kept_widen, lemma_walks_kept_refl, lemma_walks_kept_tables,
    lemma_walks_kept_from_preserves, lemma_walks_kept_other, lemma_walks_kept_trans, page_ok,
    page_va, preserves_outside, translate_from, walks_kept};
use super::paging::{EntryFlags, Level, Page, PageEntry, HUGE_PAGE, PRESENT, lemma_entry_compose,
    lemma_spec_index_range, spec_is_valid_address};
use super::physical::{enters, lemma_mappable, lemma_mappable_recursive, lemma_walk_recursive,
    lemma_wf_recursive, mappable, mem_wf, recursive, spec_write, walk};

verus! {

/// The active top table: the address space that the recursive mapping shows
/// as long as nothing else is put in its place.
pub struct ActivePML4Table {
    pub mapper: Mapper,
}

/// What is needed to leave an address space that was entered with `with_enter`.
#[derive(Debug, Clone, Copy)]
pub struct WithGuard {
    /// The frame of the active top table.
    pub backup: Frame,
    /// The flags of its last entry.
    pub flags: EntryFlags,
}

impl ActivePML4Table {
    pub fn new() -> ActivePML4Table {
        ActivePML4Table { mapper: Mapper::new() }
    }

    /// Puts the address space of `inactive` in the place of the active one,
    /// as far as the recursive mapping goes: the last entry of the active top
    /// table is made to refer to the top table of `inactive`, so that the
    /// mapper works on `inactive` from now on. Before that, the temporary
    /// page is mapped to the active top table, so that it can be reached and
    /// put back. Every cached translation is dropped.
    pub fn with_enter(
        &mut self,
        inactive: &InactivePML4Table,
        temp_page: &mut TemporaryPage,
        machine: &mut Machine,
    ) -> (r: Result<WithGuard, MapError>)
        requires
            old(machine).wf(),
            old(machine).settled(),
            recursive(old(machine).memory@, inactive.pml4_frame.number),
            inactive.pml4_frame.number != old(machine).active(),
            inactive.pml4_frame.number < 0x100_0000_0000,
            page_ok(old(temp_page).page.number as int),
            mappable(
                old(machine).memory@,
                old(machine).active(),
                4,
                page_va(old(temp_page).page.number as int),
            ),
        ensures
            *final(temp_page) == *old(temp_page),
            final(machine).wf(),
            final(machine).cr3 == old(machine).cr3,
            final(machine).frames.initial == old(machine).frames.initial,
            ({
                let a = old(machine).active();
                let va = page_va(old(temp_page).page.number as int);
                let s = spec_map_to(
                    old(machine).memory@,
                    old(machine).frames@,
                    a,
                    va,
                    leaf_entry(a, TEMPORARY_FLAGS),
                );
                &&& final(machine).frames@ == s.frames
                &&& match s.err {
                    Some(e) => r == Err::<WithGuard, MapError>(e) && final(machine).memory@ == s.mem
                        && final(machine).tlb == old(machine).tlb && final(machine).settled(),
                    None => {
                        &&& r.is_ok()
                        &&& r.unwrap().backup.number == a
                        &&& r.unwrap().flags == old(machine).memory@[a].entries[511].spec_flags()
                        &&& r.unwrap().flags.valid()
                        &&& r.unwrap().flags.spec_contains(PRESENT)
                        &&& !r.unwrap().flags.spec_contains(HUGE_PAGE)
                        &&& final(machine).top() == inactive.pml4_frame.number
                        &&& final(machine).tlb@ =~= Map::<u64, u64>::empty()
                        &&& final(machine).memory@ == spec_write(
                            s.mem,
                            a,
                            511,
                            PageEntry::spec_new(inactive.pml4_frame, r.unwrap().flags),
                        )
                        &&& walk(final(machine).memory@, a, 4, va) == Some(
                            (leaf_entry(a, TEMPORARY_FLAGS), 1int),
                        )
                    },
                }
            }),
            walks_kept(
                old(machine).memory@,
                final(machine).memory@,
                old(machine).active(),
                old(temp_page).page.number as int,
                if r.is_ok() {
                    old(temp_page).page.number + 1
                } else {
                    old(temp_page).page.number as int
                },
            ),
            forall|t: u64|
                old(machine).memory@.contains_key(t) && old(machine).memory@[t].level == Level::PML4T
                    && t != old(machine).active() ==> #[trigger] final(machine).memory@[t].entries[511]
                    == old(machine).memory@[t].entries[511],
            tops_kept_but(old(machine).memory@, final(machine).memory@, Some(old(machine).active())),
            r.is_err() ==> final(machine).memory@[old(machine).active()].entries[511] == old(machine).memory@[old(machine).active()].entries[511],
    {
        let ghost m0 = machine.memory@;
        let ghost a = machine.active();
        let ghost p = temp_page.page.number as int;
        let ghost va = page_va(p);
        let backup = Frame::from_paddress(machine.cr3());
        let top = machine.top_frame();
        let backup2 = machine.memory.read(top, 511).unwrap();
        let flags = backup2.flags();
        match temp_page.map_table_frame(backup, self, machine) {
            Err(e) => {
                proof {
                    let m1 = machine.memory@;
                    lemma_walks_kept_from_preserves(m0, m1, a, p, p);
                    lemma_tops_kept_from_preserves(m0, m1, a, p, p);
                    lemma_tops_kept_widen(m0, m1, a);
                    assert forall|t: u64|
                        m0.contains_key(t) && m0[t].level == Level::PML4T && t != a implies #[trigger] m1[t].entries[511]
                        == m0[t].entries[511] by {
                        lemma_preserves_tables(m0, m1, a, p, p, t);
                    }
                    lemma_preserves_tables(m0, m1, a, p, p, a);
                }
                return Err(e);
            },
            Ok(_) => {},
        }
        let ghost m1 = machine.memory@;
        let mut e = PageEntry::new();
        proof {
            lemma_walks_kept_from_preserves(m0, m1, a, p, p + 1);
            lemma_preserves_tables(m0, m1, a, p, p + 1, a);
            lemma_preserves_tables(m0, m1, a, p, p + 1, inactive.pml4_frame.number);
            lemma_entry_compose(inactive.pml4_frame.number, flags.bits);
            lemma_page_va(p);
        }
        e.set(inactive.pml4_frame, flags);
        proof {
            lemma_wf_recursive(m1, a, e);
            assert(enters(m1, a, 4, va));
            lemma_walk_recursive(m1, a, e, a, 4, va);
        }
        machine.memory.write(top, 511, e);
        machine.tlb_flush_all();
        proof {
            let m2 = machine.memory@;
            reveal(walks_kept);
            assert forall|root: u64, v: u64| enters(m1, root, 4, v) implies #[trigger] walk(
                m2,
                root,
                4,
                v,
            ) == walk(m1, root, 4, v) by {
                lemma_walk_recursive(m1, a, e, root, 4, v);
            }
            assert forall|root: u64, v: u64| enters(m1, root, 4, v) implies #[trigger] mappable(
                m2,
                root,
                4,
                v,
            ) == mappable(m1, root, 4, v) by {
                lemma_mappable_recursive(m1, a, e, root, 4, v);
            }
            assert(walks_kept(m1, m2, a, p, p + 1));
            lemma_walks_kept_trans(m0, m1, m2, a, p, p + 1);
            lemma_tops_kept_from_preserves(m0, m1, a, p, p + 1);
            lemma_tops_kept_widen(m0, m1, a);
            assert(tops_kept_but(m1, m2, Some(a))) by {
                reveal(tops_kept_but);
            }
            lemma_tops_kept_trans(m0, m1, m2, Some(a));
            assert(m2[inactive.pml4_frame.number] == m1[inactive.pml4_frame.number]);
            assert forall|t: u64|
                m0.contains_key(t) && m0[t].level == Level::PML4T && t != a implies #[trigger] m2[t].entries[511]
                == m0[t].entries[511] by {
                lemma_preserves_tables(m0, m1, a, p, p + 1, t);
                assert(m2[t] == m1[t]);
            }
        }
        Ok(WithGuard { backup, flags })
    }

    /// Puts the active address space back in its place: the last entry of
    /// the active top table, reached through the temporary page, is made to
    /// refer to the table itself again, every cached translation is dropped,
    /// and the temporary page is unmapped.
    pub fn with_leave(&mut self, guard: WithGuard, temp_page: &mut TemporaryPage, machine: &mut Machine)
        requires
            old(machine).wf(),
            guard.backup.number == old(machine).active(),
            guard.flags.valid(),
            guard.flags.spec_contains(PRESENT),
            !guard.flags.spec_contains(HUGE_PAGE),
            page_ok(old(temp_page).page.number as int),
            walk(
                old(machine).memory@,
                old(machine).active(),
                4,
                page_va(old(temp_page).page.number as int),
            ) == Some((leaf_entry(old(machine).active(), TEMPORARY_FLAGS), 1int)),
        ensures
            *final(temp_page) == *old(temp_page),
            final(machine).wf(),
            final(machine).settled(),
            final(machine).cr3 == old(machine).cr3,
            final(machine).frames == old(machine).frames,
            final(machine).tlb@ =~= Map::<u64, u64>::empty(),
            final(machine).memory@ == spec_unmap(
                spec_write(
                    old(machine).memory@,
                    old(machine).active(),
                    511,
                    PageEntry::spec_new(guard.backup, guard.flags),
                ),
                old(machine).active(),
                page_va(old(temp_page).page.number as int),
            ),
            walk(
                final(machine).memory@,
                old(machine).active(),
                4,
                page_va(old(temp_page).page.number as int),
            ).is_none(),
            mappable(
                final(machine).memory@,
                old(machine).active(),
                4,
                page_va(old(temp_page).page.number as int),
            ),
            walks_kept(
                old(machine).memory@,
                final(machine).memory@,
                old(machine).active(),
                old(temp_page).page.number as int,
                old(temp_page).page.number + 1,
            ),
            forall|t: u64|
                old(machine).memory@.contains_key(t) && old(machine).memory@[t].level == Level::PML4T
                    && t != old(machine).active() ==> #[trigger] final(machine).memory@[t].entries[511]
                    == old(machine).memory@[t].entries[511],
            tops_kept_but(old(machine).memory@, final(machine).memory@, Some(old(machine).active())),
            final(machine).memory@[old(machine).active()].entries[511] == PageEntry::spec_new(
                guard.backup,
                guard.flags,
            ),
    {
        let ghost m0 = machine.memory@;
        let ghost a = machine.active();
        let ghost p = temp_page.page.number as int;
        let ghost va = page_va(p);
        proof {
            lemma_temporary_flags();
            lemma_page_va(p);
            lemma_entry_compose(a, TEMPORARY_FLAGS);
            lemma_entry_compose(a, guard.flags.bits);
            lemma_spec_index_range(va, 1);
            super::mapper::lemma_aligned_offset(va);
        }
        let active = machine.cr3 / PAGE_SIZE;
        let reached = translate_from(&machine.memory, active, temp_page.page.start_address()).unwrap();
        let target = reached / PAGE_SIZE;
        let mut e = PageEntry::new();
        e.set(guard.backup, guard.flags);
        proof {
            assert(target == a);
            lemma_wf_recursive(m0, a, e);
            assert(enters(m0, a, 4, va));
            lemma_walk_recursive(m0, a, e, a, 4, va);
        }
        machine.memory.write(target, 511, e);
        machine.tlb_flush_all();
        let ghost m1 = machine.memory@;
        proof {
            reveal(walks_kept);
            assert forall|root: u64, v: u64| enters(m0, root, 4, v) implies #[trigger] walk(
                m1,
                root,
                4,
                v,
            ) == walk(m0, root, 4, v) by {
                lemma_walk_recursive(m0, a, e, root, 4, v);
            }
            assert forall|root: u64, v: u64| enters(m0, root, 4, v) implies #[trigger] mappable(
                m1,
                root,
                4,
                v,
            ) == mappable(m0, root, 4, v) by {
                lemma_mappable_recursive(m0, a, e, root, 4, v);
            }
            assert(walks_kept(m0, m1, a, p, p + 1));
            assert(machine.top() == a);
            assert(tops_kept_but(m0, m1, Some(a))) by {
                reveal(tops_kept_but);
            }
        }
        temp_page.unmap(self, machine);
        proof {
            let m2 = machine.memory@;
            lemma_walks_kept_from_preserves(m1, m2, a, p, p + 1);
            lemma_walks_kept_trans(m0, m1, m2, a, p, p + 1);
            lemma_tops_kept_from_preserves(m1, m2, a, p, p + 1);
            lemma_tops_kept_widen(m1, m2, a);
            lemma_tops_kept_trans(m0, m1, m2, Some(a));
            assert forall|t: u64|
                m0.contains_key(t) && m0[t].level == Level::PML4T && t != a implies #[trigger] m2[t].entries[511]
                == m0[t].entries[511] by {
                assert(m1[t] == m0[t]);
                lemma_preserves_tables(m1, m2, a, p, p + 1, t);
            }
        }
    }
}

/// A run of pages to be mapped: to the run of frames from `first`, or, where
/// `first` is `None`, each to a frame from the allocator.
#[derive(Debug, Clone, Copy)]
pub struct MapRange {
    pub start: Page,
    pub count: u64,
    pub first: Option<Frame>,
    pub flags: EntryFlags,
}

impl MapRange {
    pub open spec fn lo(self) -> int {
        self.start.number as int
    }

    pub open spec fn hi(self) -> int {
        self.start.number + self.count
    }

    /// The flags are flags, every page can be walked for, and every frame
    /// can be named by an entry.
    pub open spec fn wf(self) -> bool {
        &&& self.flags.valid()
        &&& pages_ok(self.lo(), self.hi())
        &&& match self.first {
            Some(f) => f.number + self.count <= 0x100_0000_0000,
            None => true,
        }
    }

    /// No page is in both ranges.
    pub open spec fn disjoint(self, other: MapRange) -> bool {
        self.lo() >= self.hi() || other.lo() >= other.hi() || self.hi() <= other.lo() || other.hi()
            <= self.lo()
    }

    /// Every page of the range is mapped as the range says, in the address
    /// space of `top`.
    pub open spec fn mapped(self, m: MemView, top: u64) -> bool {
        match self.first {
            Some(f) => mapped_range_to(m, top, self.lo(), self.hi(), f.number as int, self.flags.bits),
            None => mapped_range(m, top, self.lo(), self.hi(), self.flags.bits),
        }
    }

    /// What mapping the range does to memory and allocator.
    pub open spec fn spec_map(self, m: MemView, st: ProxyState, top: u64) -> MapStep {
        match self.first {
            Some(f) => spec_map_range_to(
                m,
                st,
                top,
                self.lo(),
                f.number as int,
                self.count as nat,
                self.flags.bits,
            ),
            None => spec_map_range(m, st, top, self.lo(), self.count as nat, self.flags.bits),
        }
    }
}

/// Every range is well formed, and no two share a page.
pub open spec fn ranges_ok(ranges: Seq<MapRange>) -> bool {
    &&& forall|k: int| 0 <= k < ranges.len() ==> (#[trigger] ranges[k]).wf()
    &&& forall|j: int, k: int|
        0 <= j < k < ranges.len() ==> (#[trigger] ranges[j]).disjoint(#[trigger] ranges[k])
}

/// No range holds a page from `lo` up to `hi`.
pub open spec fn clear_of(ranges: Seq<MapRange>, lo: int, hi: int) -> bool {
    forall|k: int|
        0 <= k < ranges.len() ==> lo >= hi || (#[trigger] ranges[k]).lo() >= ranges[k].hi() || hi
            <= ranges[k].lo() || ranges[k].hi() <= lo
}

/// Each page from `lo` up to `hi` is mapped in memory `b` as it is in memory
/// `a`, in the address space of `top`, and can be mapped if it can in `a`.
#[verifier::opaque]
pub open spec fn same_in(a: MemView, b: MemView, top: u64, lo: int, hi: int) -> bool {
    forall|p: int|
        lo <= p < hi ==> #[trigger] walk(b, top, 4, page_va(p)) == walk(a, top, 4, page_va(p))
            && mappable(b, top, 4, page_va(p)) == mappable(a, top, 4, page_va(p))
}

/// The pages that no range holds are mapped in memory `b`, in the address
/// space of `top`, as they are in memory `a`.
pub open spec fn bystanders_kept(ranges: Seq<MapRange>, a: MemView, b: MemView, top: u64) -> bool {
    forall|lo: int, hi: int|
        pages_ok(lo, hi) && #[trigger] clear_of(ranges, lo, hi) ==> same_in(a, b, top, lo, hi)
}

pub proof fn lemma_same_in_refl(a: MemView, top: u64, lo: int, hi: int)
    ensures
        same_in(a, a, top, lo, hi),
{
    reveal(same_in);
}

pub proof fn lemma_same_in_trans(a: MemView, b: MemView, c: MemView, top: u64, lo: int, hi: int)
    requires
        same_in(a, b, top, lo, hi),
        same_in(b, c, top, lo, hi),
    ensures
        same_in(a, c, top, lo, hi),
{
    reveal(same_in);
    assert forall|p: int| lo <= p < hi implies #[trigger] walk(c, top, 4, page_va(p)) == walk(
        a,
        top,
        4,
        page_va(p),
    ) && mappable(c, top, 4, page_va(p)) == mappable(a, top, 4, page_va(p)) by {
        assert(walk(b, top, 4, page_va(p)) == walk(a, top, 4, page_va(p)));
    }
}

/// Pages outside what a step changed are as they were.
pub proof fn lemma_same_in_outside(a: MemView, b: MemView, top: u64, lo: int, hi: int, klo: int, khi: int)
    requires
        preserves_outside(a, b, top, klo, khi),
        pages_ok(lo, hi),
        a.contains_key(top),
        a[top].level == Level::PML4T,
        lo >= hi || klo >= khi || hi <= klo || khi <= lo,
    ensures
        same_in(a, b, top, lo, hi),
{
    reveal(same_in);
    reveal(preserves_outside);
    reveal(pages_ok);
    assert forall|p: int| lo <= p < hi implies #[trigger] walk(b, top, 4, page_va(p)) == walk(
        a,
        top,
        4,
        page_va(p),
    ) && mappable(b, top, 4, page_va(p)) == mappable(a, top, 4, page_va(p)) by {
        assert(page_ok(p));
        lemma_page_va(p);
        assert(enters(a, top, 4, page_va(p)));
    }
}

/// Pages of one address space are as they were after steps in another.
pub proof fn lemma_same_in_other(a: MemView, b: MemView, top: u64, lo: int, hi: int, other: u64, klo: int, khi: int)
    requires
        walks_kept(a, b, other, klo, khi),
        pages_ok(lo, hi),
        other != top,
        a.contains_key(top),
        a[top].level == Level::PML4T,
    ensures
        same_in(a, b, top, lo, hi),
{
    reveal(same_in);
    reveal(walks_kept);
    reveal(pages_ok);
    assert forall|p: int| lo <= p < hi implies #[trigger] walk(b, top, 4, page_va(p)) == walk(
        a,
        top,
        4,
        page_va(p),
    ) && mappable(b, top, 4, page_va(p)) == mappable(a, top, 4, page_va(p)) by {
        assert(page_ok(p));
        assert(enters(a, top, 4, page_va(p)));
    }
}

/// Pages that can be mapped and are as they were can still be mapped.
pub proof fn lemma_same_in_mappable(a: MemView, b: MemView, top: u64, lo: int, hi: int)
    requires
        same_in(a, b, top, lo, hi),
        mappable_range(a, top, lo, hi),
    ensures
        mappable_range(b, top, lo, hi),
{
    reveal(same_in);
    reveal(mappable_range);
    assert forall|p: int| lo <= p < hi implies #[trigger] mappable(b, top, 4, page_va(p)) by {
        assert(walk(b, top, 4, page_va(p)) == walk(a, top, 4, page_va(p)));
    }
}

/// A range that is mapped and is as it was is still mapped.
pub proof fn lemma_same_in_mapped(r: MapRange, a: MemView, b: MemView, top: u64)
    requires
        same_in(a, b, top, r.lo(), r.hi()),
        r.mapped(a, top),
    ensures
        r.mapped(b, top),
{
    reveal(same_in);
    reveal(mapped_range);
    reveal(mapped_range_to);
}

/// Every page of every range can be mapped in the address space of `top`.
pub open spec fn ranges_mappable(ranges: Seq<MapRange>, from: int, m: MemView, top: u64) -> bool {
    forall|k: int|
        from <= k < ranges.len() ==> mappable_range(m, top, (#[trigger] ranges[k]).lo(), ranges[k].hi())
}

/// Every range before `upto` is mapped in the address space of `top`.
pub open spec fn ranges_mapped(ranges: Seq<MapRange>, upto: int, m: MemView, top: u64) -> bool {
    forall|k: int| 0 <= k < upto ==> (#[trigger] ranges[k]).mapped(m, top)
}

/// What mapping the ranges from position `from` on, one after the other, does
/// to memory and allocator. The first range that fails ends it.
pub open spec fn spec_map_ranges(ranges: Seq<MapRange>, from: int, m: MemView, st: ProxyState, top: u64) -> MapStep
    decreases ranges.len() - from,
{
    if from < 0 || from >= ranges.len() {
        MapStep { err: None, mem: m, frames: st }
    } else {
        let s = ranges[from].spec_map(m, st, top);
        if s.err.is_some() {
            s
        } else {
            spec_map_ranges(ranges, from + 1, s.mem, s.frames, top)
        }
    }
}

/// The frame of `with`: what was kept by entering, by work in the address
/// space of `t`, and by leaving, was kept in every address space but that of `t`.
pub proof fn lemma_with_frame(m0: MemView, m1: MemView, m2: MemView, m3: MemView, a: u64, t: u64, p: int)
    requires
        walks_kept(m0, m1, a, p, p + 1),
        walks_kept(m1, m2, t, 0, all_pages()),
        walks_kept(m2, m3, a, p, p + 1),
        a != t,
        page_ok(p),
        mem_wf(m0),
        m0.contains_key(a),
        m0[a].level == Level::PML4T,
        mappable(m0, a, 4, page_va(p)),
        mappable(m3, a, 4, page_va(p)),
        walk(m3, a, 4, page_va(p)).is_none(),
    ensures
        walks_kept(m0, m3, t, 0, all_pages()),
{
    reveal(walks_kept);
    lemma_page_va(p);
    assert(enters(m0, a, 4, page_va(p)));
    lemma_mappable(m0, a, 4, page_va(p));
    assert forall|t2: u64| #[trigger] m0.contains_key(t2) implies m3.contains_key(t2) && m3[t2].level
        == m0[t2].level by {
        assert(m1.contains_key(t2));
        assert(m2.contains_key(t2));
    }
    assert forall|root: u64, v: u64|
        enters(m0, root, 4, v) && spec_is_valid_address(v) && !(root == t && 0 <= v / PAGE_SIZE
            < all_pages()) implies #[trigger] walk(m3, root, 4, v) == walk(m0, root, 4, v) by {
        assert(m0.contains_key(root));
        assert(m1.contains_key(root));
        assert(enters(m1, root, 4, v));
        assert(enters(m2, root, 4, v));
        if root == a && v / PAGE_SIZE == p {
            super::physical::lemma_walk_same_page(m0, a, 4, v, page_va(p));
            super::physical::lemma_walk_same_page(m3, a, 4, v, page_va(p));
        } else {
            assert(walk(m1, root, 4, v) == walk(m0, root, 4, v));
            assert(walk(m2, root, 4, v) == walk(m1, root, 4, v));
            assert(walk(m3, root, 4, v) == walk(m2, root, 4, v));
        }
    }
    assert forall|root: u64, v: u64|
        enters(m0, root, 4, v) && spec_is_valid_address(v) && !(root == t && 0 <= v / PAGE_SIZE
            < all_pages()) implies #[trigger] mappable(m3, root, 4, v) == mappable(m0, root, 4, v) by {
        assert(m0.contains_key(root));
        assert(m1.contains_key(root));
        assert(enters(m1, root, 4, v));
        assert(enters(m2, root, 4, v));
        if root == a && v / PAGE_SIZE == p {
            super::physical::lemma_mappable_same_page(m0, a, 4, v, page_va(p));
            super::physical::lemma_mappable_same_page(m3, a, 4, v, page_va(p));
        } else {
            assert(mappable(m1, root, 4, v) == mappable(m0, root, 4, v));
            assert(mappable(m2, root, 4, v) == mappable(m1, root, 4, v));
            assert(mappable(m3, root, 4, v) == mappable(m2, root, 4, v));
        }
    }
}

/// Ranges that can be mapped in one address space can still be mapped after
/// steps that kept that address space.
pub proof fn lemma_ranges_mappable_kept(ranges: Seq<MapRange>, a: MemView, b: MemView, top: u64, other: u64, lo: int, hi: int)
    requires
        ranges_ok(ranges),
        ranges_mappable(ranges, 0, a, top),
        walks_kept(a, b, other, lo, hi),
        other != top,
        a.contains_key(top),
        a[top].level == Level::PML4T,
    ensures
        ranges_mappable(ranges, 0, b, top),
{
    assert forall|k: int| 0 <= k < ranges.len() implies mappable_range(
        b,
        top,
        (#[trigger] ranges[k]).lo(),
        ranges[k].hi(),
    ) by {
        let r = ranges[k];
        assert(r.wf());
        assert(mappable_range(a, top, r.lo(), r.hi()));
        reveal(mappable_range);
        reveal(walks_kept);
        reveal(pages_ok);
        assert forall|q: int| r.lo() <= q < r.hi() implies #[trigger] mappable(b, top, 4, page_va(q)) by {
            assert(page_ok(q));
            assert(mappable(a, top, 4, page_va(q)));
            assert(enters(a, top, 4, page_va(q)));
        }
    }
}

impl ActivePML4Table {
    /// Maps the ranges, one after the other, in the address space of
    /// `inactive`, which for that time takes the place of the active one in
    /// the recursive mapping. Whether the ranges could be mapped or not, the
    /// active address space is put back afterwards.
    pub fn with(
        &mut self,
        inactive: &mut InactivePML4Table,
        temp_page: &mut TemporaryPage,
        ranges: &Vec<MapRange>,
        machine: &mut Machine,
    ) -> (r: Result<(), MapError>)
        requires
            old(machine).wf(),
            old(machine).settled(),
            recursive(old(machine).memory@, old(inactive).pml4_frame.number),
            old(inactive).pml4_frame.number != old(machine).active(),
            page_ok(old(temp_page).page.number as int),
            mappable(
                old(machine).memory@,
                old(machine).active(),
                4,
                page_va(old(temp_page).page.number as int),
            ),
            ranges_ok(ranges@),
            ranges_mappable(ranges@, 0, old(machine).memory@, old(inactive).pml4_frame.number),
        ensures
            *final(temp_page) == *old(temp_page),
            *final(inactive) == *old(inactive),
            final(machine).wf(),
            final(machine).settled(),
            final(machine).cr3 == old(machine).cr3,
            final(machine).frames.initial == old(machine).frames.initial,
            recursive(final(machine).memory@, old(inactive).pml4_frame.number),
            // when it succeeds, and the allocator afterwards
            ({
                let a = old(machine).active();
                let t = old(inactive).pml4_frame.number;
                let va = page_va(old(temp_page).page.number as int);
                let s1 = spec_map_to(
                    old(machine).memory@,
                    old(machine).frames@,
                    a,
                    va,
                    leaf_entry(a, TEMPORARY_FLAGS),
                );
                match s1.err {
                    Some(e) => r == Err::<(), MapError>(e) && final(machine).frames@ == s1.frames
                        && final(machine).memory@ == s1.mem,
                    None => {
                        let flags = old(machine).memory@[a].entries[511].spec_flags();
                        let s2 = spec_map_ranges(
                            ranges@,
                            0,
                            spec_write(s1.mem, a, 511, PageEntry::spec_new(old(inactive).pml4_frame, flags)),
                            s1.frames,
                            t,
                        );
                        &&& final(machine).frames@ == s2.frames
                        &&& final(machine).memory@ == spec_unmap(
                            spec_write(s2.mem, a, 511, PageEntry::spec_new(Frame { number: a }, flags)),
                            a,
                            va,
                        )
                        &&& match s2.err {
                            None => r.is_ok(),
                            Some(e) => r == Err::<(), MapError>(e),
                        }
                    },
                }
            }),
            ({
                let s = spec_with(
                    old(machine).memory@,
                    old(machine).frames@,
                    old(machine).active(),
                    old(inactive).pml4_frame.number,
                    page_va(old(temp_page).page.number as int),
                    ranges@,
                );
                &&& final(machine).memory@ == s.mem
                &&& final(machine).frames@ == s.frames
                &&& match s.err {
                    None => r.is_ok(),
                    Some(e) => r == Err::<(), MapError>(e),
                }
            }),
            // what is mapped in the address space of `inactive`
            r.is_ok() ==> ranges_mapped(
                ranges@,
                ranges@.len() as int,
                final(machine).memory@,
                old(inactive).pml4_frame.number,
            ),
            // every other address space is as it was
            walks_kept(
                old(machine).memory@,
                final(machine).memory@,
                old(inactive).pml4_frame.number,
                0,
                all_pages(),
            ),
            // and what the ranges do not hold can be mapped as before
            bystanders_kept(
                ranges@,
                old(machine).memory@,
                final(machine).memory@,
                old(inactive).pml4_frame.number,
            ),
            tops_kept(old(machine).memory@, final(machine).memory@),
            // the last entry of the active top table refers to the table again,
            // with the flags that it had
            final(machine).memory@[old(machine).active()].entries[511].frame_number() == old(machine).active(),
            final(machine).memory@[old(machine).active()].entries[511].spec_flags() == old(machine).memory@[old(machine).active()].entries[511].spec_flags(),
    {
        let ghost m0 = machine.memory@;
        let ghost a = machine.active();
        let ghost t = inactive.pml4_frame.number;
        let ghost p = temp_page.page.number as int;
        let ghost va = page_va(p);
        proof {
            super::paging::lemma_frame_number_bound(m0[t].entries[511]);
        }
        let guard = match self.with_enter(inactive, temp_page, machine) {
            Err(e) => {
                proof {
                    lemma_walks_kept_widen_from(m0, machine.memory@, a, p, p, t);
                    lemma_bystanders_refl(ranges@, m0, t);
                    lemma_bystanders_other(ranges@, m0, m0, machine.memory@, t, a, p, p);
                    assert(recursive(m0, a) && recursive(machine.memory@, a));
                    lemma_tops_kept_close(m0, machine.memory@, a);
                }
                return Err(e);
            },
            Ok(g) => g,
        };
        let ghost m1 = machine.memory@;
        let ghost st1 = machine.frames@;
        proof {
            lemma_ranges_mappable_kept(ranges@, m0, m1, t, a, p, p + 1);
            lemma_walks_kept_refl(m1, t, 0);
            lemma_walks_kept_widen(m1, m1, t, 0, 0, 0, all_pages());
            lemma_walks_kept_tables(m0, m1, a, p, p + 1, a);
            lemma_walks_kept_tables(m0, m1, a, p, p + 1, t);
            lemma_bystanders_refl(ranges@, m0, t);
            lemma_bystanders_other(ranges@, m0, m0, m1, t, a, p, p + 1);
        }
        let mut result: Result<(), MapError> = Ok(());
        let mut k: usize = 0;
        while k < ranges.len() && result.is_ok()
            invariant
                k <= ranges@.len(),
                machine.wf(),
                machine.cr3 == old(machine).cr3,
                machine.active() == a,
                machine.top() == t,
                a != t,
                machine.frames.initial == old(machine).frames.initial,
                machine.tlb@ =~= Map::<u64, u64>::empty(),
                page_ok(p),
                va == page_va(p),
                ranges_ok(ranges@),
                m1.contains_key(a),
                m1[a].level == Level::PML4T,
                walk(machine.memory@, a, 4, va) == Some((leaf_entry(a, TEMPORARY_FLAGS), 1int)),
                walks_kept(m1, machine.memory@, t, 0, all_pages()),
                bystanders_kept(ranges@, m0, machine.memory@, t),
                tops_kept_but(m0, machine.memory@, Some(a)),
                m0.contains_key(a),
                m0 == old(machine).memory@,
                machine.memory@[a].entries[511] == m1[a].entries[511],
                result.is_ok() ==> ranges_mappable(ranges@, k as int, machine.memory@, t),
                result.is_ok() ==> ranges_mapped(ranges@, k as int, machine.memory@, t),
                ({
                    let s = spec_map_ranges(ranges@, 0, m1, st1, t);
                    match result {
                        Ok(_) => spec_map_ranges(ranges@, k as int, machine.memory@, machine.frames@, t)
                            == s,
                        Err(e) => s.err == Some(e) && s.mem == machine.memory@ && s.frames
                            == machine.frames@,
                    }
                }),
            decreases ranges@.len() - k + if result.is_ok() { 1int } else { 0int },
        {
            let ghost mi = machine.memory@;
            let range = ranges[k];
            proof {
                assert(ranges@[k as int].wf());
                assert(mappable_range(mi, t, range.lo(), range.hi()));
                lemma_walks_kept_tables(m1, mi, t, 0, all_pages(), a);
                assert(enters(mi, a, 4, va));
            }
            let r = match range.first {
                Some(f) => self.mapper.map_range_to(machine, range.start, f, range.count, range.flags),
                None => self.mapper.map_range(machine, range.start, range.count, range.flags),
            };
            proof {
                let mj = machine.memory@;
                lemma_walks_kept_from_preserves(mi, mj, t, range.lo(), range.hi());
                lemma_walks_kept_other(mi, mj, t, range.lo(), range.hi(), a, va);
                lemma_preserves_tables(mi, mj, t, range.lo(), range.hi(), a);
                lemma_walks_kept_all(mi, mj, t, range.lo(), range.hi());
                lemma_walks_kept_trans(m1, mi, mj, t, 0, all_pages());
                lemma_tops_kept_from_preserves(mi, mj, t, range.lo(), range.hi());
                lemma_tops_kept_widen(mi, mj, a);
                lemma_tops_kept_trans(m0, mi, mj, Some(a));
                assert forall|lo: int, hi: int|
                    pages_ok(lo, hi) && #[trigger] clear_of(ranges@, lo, hi) implies same_in(
                    m0,
                    mj,
                    t,
                    lo,
                    hi,
                ) by {
                    assert(same_in(m0, mi, t, lo, hi));
                    assert(lo >= hi || ranges@[k as int].lo() >= ranges@[k as int].hi() || hi
                        <= ranges@[k as int].lo() || ranges@[k as int].hi() <= lo);
                    lemma_same_in_outside(mi, mj, t, lo, hi, range.lo(), range.hi());
                    lemma_same_in_trans(m0, mi, mj, t, lo, hi);
                }
                if r.is_ok() {
                    assert forall|j: int| k + 1 <= j < ranges@.len() implies mappable_range(
                        mj,
                        t,
                        (#[trigger] ranges@[j]).lo(),
                        ranges@[j].hi(),
                    ) by {
                        let rj = ranges@[j];
                        assert(ranges@[k as int].disjoint(rj));
                        assert(rj.wf());
                        lemma_same_in_outside(mi, mj, t, rj.lo(), rj.hi(), range.lo(), range.hi());
                        lemma_same_in_mappable(mi, mj, t, rj.lo(), rj.hi());
                    }
                    assert forall|j: int| 0 <= j < k + 1 implies (#[trigger] ranges@[j]).mapped(mj, t) by {
                        let rj = ranges@[j];
                        if j < k {
                            assert(rj.disjoint(ranges@[k as int]));
                            assert(rj.wf());
                            assert(rj.mapped(mi, t));
                            lemma_same_in_outside(mi, mj, t, rj.lo(), rj.hi(), range.lo(), range.hi());
                            lemma_same_in_mapped(rj, mi, mj, t);
                        }
                    }
                }
            }
            match r {
                Ok(()) => {
                    k += 1;
                },
                Err(e) => {
                    result = Err(e);
                },
            }
        }
        let ghost m2 = machine.memory@;
        proof {
            lemma_walks_kept_tables(m1, m2, t, 0, all_pages(), a);
            lemma_walks_kept_tables(m1, m2, t, 0, all_pages(), t);
            lemma_entry_compose(a, guard.flags.bits);
        }
        self.with_leave(guard, temp_page, machine);
        proof {
            let m3 = machine.memory@;
            lemma_with_frame(m0, m1, m2, m3, a, t, p);
            lemma_tops_kept_trans(m0, m2, m3, Some(a));
            assert(recursive(m0, a) && recursive(m3, a));
            lemma_tops_kept_close(m0, m3, a);
            lemma_walks_kept_tables(m2, m3, a, p, p + 1, t);
            lemma_walks_kept_tables(m0, m1, a, p, p + 1, t);
            lemma_bystanders_other(ranges@, m0, m2, m3, t, a, p, p + 1);
            if result.is_ok() {
                assert forall|j: int| 0 <= j < ranges@.len() implies (#[trigger] ranges@[j]).mapped(
                    m3,
                    t,
                ) by {
                    let rj = ranges@[j];
                    assert(rj.wf());
                    assert(rj.mapped(m2, t));
                    lemma_range_mapped_other(rj, m2, m3, t, a, p, p + 1);
                }
            }
        }
        result
    }
}

/// What was kept outside some pages of one address space was kept outside
/// another address space altogether.
pub proof fn lemma_walks_kept_widen_from(a: MemView, b: MemView, top: u64, lo: int, hi: int, other: u64)
    requires
        walks_kept(a, b, top, lo, lo),
    ensures
        walks_kept(a, b, other, 0, all_pages()),
{
    reveal(walks_kept);
}

/// What was kept outside some pages of an address space was kept outside
/// that address space.
pub proof fn lemma_walks_kept_all(a: MemView, b: MemView, top: u64, lo: int, hi: int)
    requires
        walks_kept(a, b, top, lo, hi),
    ensures
        walks_kept(a, b, top, 0, all_pages()),
{
    reveal(walks_kept);
}

pub proof fn lemma_bystanders_refl(ranges: Seq<MapRange>, m0: MemView, top: u64)
    ensures
        bystanders_kept(ranges, m0, m0, top),
{
    assert forall|l: int, h: int| pages_ok(l, h) && #[trigger] clear_of(ranges, l, h) implies same_in(
        m0,
        m0,
        top,
        l,
        h,
    ) by {
        lemma_same_in_refl(m0, top, l, h);
    }
}

/// What steps in another address space leave of the bystanders of this one.
pub proof fn lemma_bystanders_other(ranges: Seq<MapRange>, m0: MemView, a: MemView, b: MemView, top: u64, other: u64, lo: int, hi: int)
    requires
        bystanders_kept(ranges, m0, a, top),
        walks_kept(a, b, other, lo, hi),
        other != top,
        a.contains_key(top),
        a[top].level == Level::PML4T,
    ensures
        bystanders_kept(ranges, m0, b, top),
{
    assert forall|l: int, h: int| pages_ok(l, h) && #[trigger] clear_of(ranges, l, h) implies same_in(
        m0,
        b,
        top,
        l,
        h,
    ) by {
        assert(same_in(m0, a, top, l, h));
        lemma_same_in_other(a, b, top, l, h, other, lo, hi);
        lemma_same_in_trans(m0, a, b, top, l, h);
    }
}

/// A range that is mapped in one address space stays mapped through steps in another.
pub proof fn lemma_range_mapped_other(r: MapRange, a: MemView, b: MemView, top: u64, other: u64, lo: int, hi: int)
    requires
        r.wf(),
        r.mapped(a, top),
        walks_kept(a, b, other, lo, hi),
        other != top,
        a.contains_key(top),
        a[top].level == Level::PML4T,
    ensures
        r.mapped(b, top),
{
    reveal(walks_kept);
    reveal(pages_ok);
    reveal(mapped_range);
    reveal(mapped_range_to);
    match r.first {
        Some(f) => {
            assert forall|q: int| r.lo() <= q < r.hi() implies #[trigger] walk(b, top, 4, page_va(q))
                == walk(a, top, 4, page_va(q)) by {
                assert(page_ok(q));
                assert(enters(a, top, 4, page_va(q)));
            }
        },
        None => {
            assert forall|q: int| r.lo() <= q < r.hi() implies #[trigger] walk(b, top, 4, page_va(q))
                == walk(a, top, 4, page_va(q)) by {
                assert(page_ok(q));
                assert(enters(a, top, 4, page_va(q)));
            }
        },
    }
}

/// The address of the temporary page that address spaces are built through.
pub const TEMPORARY_PAGE_ADDRESS: u64 = 0xffff_fcaf_ebee_f000;

/// The number of that page.
pub const TEMPORARY_PAGE_NUMBER: u64 = 0x000f_ffff_caf_ebee_f;

/// The temporary page can be walked for.
pub proof fn lemma_temporary_page_ok()
    ensures
        page_ok(TEMPORARY_PAGE_NUMBER as int),
        page_va(TEMPORARY_PAGE_NUMBER as int) == TEMPORARY_PAGE_ADDRESS,
        TEMPORARY_PAGE_ADDRESS / PAGE_SIZE == TEMPORARY_PAGE_NUMBER,
{
    assert((0xffff_fcaf_ebee_f000u64 >> 39) & 0o777 != 511) by (bit_vector);
}

/// What `InactivePML4Table::new` does to memory and allocator: the temporary
/// page `va` of the address space `a` is mapped to frame `f`, the frame
/// becomes an empty top table that refers to itself, and the page is
/// unmapped.
pub open spec fn spec_new_inactive(m: MemView, st: ProxyState, a: u64, va: u64, f: u64) -> MapStep {
    let s = spec_map_to(m, st, a, va, leaf_entry(f, TEMPORARY_FLAGS));
    if s.err.is_some() {
        s
    } else if s.mem.contains_key(f) {
        MapStep { err: Some(MapError::FrameUnusable), mem: spec_unmap(s.mem, a, va), frames: s.frames }
    } else {
        MapStep {
            err: None,
            mem: spec_unmap(spec_new_top(s.mem, f, leaf_entry(f, TEMPORARY_FLAGS)), a, va),
            frames: s.frames,
        }
    }
}

/// What `with` does to memory and allocator: the temporary page `va` of the
/// active address space `a` is mapped to the active top table, the last
/// entry of that table is pointed at the top table `t`, the ranges are
/// mapped in the address space of `t`, the entry is pointed back, and the
/// page is unmapped.
pub open spec fn spec_with(m: MemView, st: ProxyState, a: u64, t: u64, va: u64, ranges: Seq<MapRange>) -> MapStep {
    let s1 = spec_map_to(m, st, a, va, leaf_entry(a, TEMPORARY_FLAGS));
    if s1.err.is_some() {
        s1
    } else {
        let flags = m[a].entries[511].spec_flags();
        let s2 = spec_map_ranges(
            ranges,
            0,
            spec_write(s1.mem, a, 511, PageEntry::spec_new(Frame { number: t }, flags)),
            s1.frames,
            t,
        );
        MapStep {
            err: s2.err,
            mem: spec_unmap(
                spec_write(s2.mem, a, 511, PageEntry::spec_new(Frame { number: a }, flags)),
                a,
                va,
            ),
            frames: s2.frames,
        }
    }
}

/// What `create_address_space` does to memory and allocator, and the frame
/// of the new top table: three frames are set aside for the temporary page,
/// the next frame becomes the new top table, and the ranges are mapped in
/// its address space.
pub open spec fn spec_create_address_space(m: MemView, st: ProxyState, a: u64, va: u64, ranges: Seq<MapRange>) -> (
    MapStep,
    u64,
) {
    let (f, st2) = st.after(3).step();
    match f {
        None => (MapStep { err: Some(MapError::OutOfFrames), mem: m, frames: st2 }, 0),
        Some(f) => if !usable(m.dom(), f) {
            (MapStep { err: Some(MapError::FrameUnusable), mem: m, frames: st2 }, 0)
        } else {
            let s = spec_new_inactive(m, st2, a, va, f.number);
            if s.err.is_some() {
                (s, 0)
            } else {
                (spec_with(s.mem, s.frames, a, f.number, va, ranges), f.number)
            }
        },
    }
}

/// What was kept outside an address space that did not exist was kept everywhere.
pub proof fn lemma_walks_kept_fresh(a: MemView, b: MemView, t: u64)
    requires
        walks_kept(a, b, t, 0, all_pages()),
        !a.contains_key(t),
    ensures
        walks_kept(a, b, 0, 0, 0),
{
    reveal(walks_kept);
}

/// A new address space with the kernel mapped into it: the sections of the
/// kernel's image, the console's text buffer, the framebuffer, the boot
/// information and the kernel heap, as `spec_kernel_ranges` lists them. The
/// active address space is used to build it and is left as it was.
pub fn create_address_space(machine: &mut Machine, mbinfo: &BootInformation) -> (r: Result<
    InactivePML4Table,
    MapError,
>)
    requires
        old(machine).wf(),
        old(machine).settled(),
        mbinfo.wf(),
        ranges_ok(mbinfo.spec_kernel_ranges()),
        mappable(old(machine).memory@, old(machine).active(), 4, TEMPORARY_PAGE_ADDRESS),
    ensures
        final(machine).wf(),
        final(machine).settled(),
        final(machine).cr3 == old(machine).cr3,
        final(machine).frames.initial == old(machine).frames.initial,
        ({
            let (s, f) = spec_create_address_space(
                old(machine).memory@,
                old(machine).frames@,
                old(machine).active(),
                TEMPORARY_PAGE_ADDRESS,
                mbinfo.spec_kernel_ranges(),
            );
            &&& final(machine).memory@ == s.mem
            &&& final(machine).frames@ == s.frames
            &&& match s.err {
                None => r == Ok::<InactivePML4Table, MapError>(
                    InactivePML4Table { pml4_frame: Frame { number: f } },
                ),
                Some(e) => r == Err::<InactivePML4Table, MapError>(e),
            }
        }),
        r.is_ok() ==> ({
            let t = r.unwrap().pml4_frame.number;
            &&& !old(machine).memory@.contains_key(t)
            &&& recursive(final(machine).memory@, t)
            &&& ranges_mapped(
                mbinfo.spec_kernel_ranges(),
                mbinfo.spec_kernel_ranges().len() as int,
                final(machine).memory@,
                t,
            )
            &&& forall|lo: int, hi: int|
                pages_ok(lo, hi) && #[trigger] clear_of(mbinfo.spec_kernel_ranges(), lo, hi)
                    ==> mappable_range(final(machine).memory@, t, lo, hi)
        }),
        walks_kept(old(machine).memory@, final(machine).memory@, 0, 0, 0),
        tops_kept(old(machine).memory@, final(machine).memory@),
{
    let ghost m0 = machine.memory@;
    let ghost a = machine.active();
    let ghost p = TEMPORARY_PAGE_NUMBER as int;
    proof {
        lemma_temporary_page_ok();
        lemma_walks_kept_refl(m0, 0, 0);
        super::mapper::lemma_tops_kept_refl(m0);
    }
    let mut active = ActivePML4Table::new();
    let mut temp_page = TemporaryPage::new(Page::from_vaddress(TEMPORARY_PAGE_ADDRESS), machine);
    let frame = match machine.alloc_frame() {
        None => {
            return Err(MapError::OutOfFrames);
        },
        Some(f) => f,
    };
    if frame.number >= 0x100_0000_0000 || machine.memory.has_table(frame.number) {
        return Err(MapError::FrameUnusable);
    }
    let ghost t = frame.number;
    let mut new_map = match InactivePML4Table::new(frame, &mut active, &mut temp_page, machine) {
        Err(e) => {
            proof {
                lemma_walks_kept_none(m0, machine.memory@, a, p);
            }
            return Err(e);
        },
        Ok(t) => t,
    };
    let ghost m1 = machine.memory@;
    let ranges = mbinfo.kernel_ranges();
    proof {
        lemma_walks_kept_other(m0, m1, a, p, p, a, TEMPORARY_PAGE_ADDRESS);
        assert forall|k: int| 0 <= k < ranges@.len() implies mappable_range(
            m1,
            t,
            (#[trigger] ranges@[k]).lo(),
            ranges@[k].hi(),
        ) by {
            assert(ranges@[k].wf());
            lemma_empty_space_range(m1, t, ranges@[k].lo(), ranges@[k].hi());
        }
    }
    let r = active.with(&mut new_map, &mut temp_page, &ranges, machine);
    proof {
        let m2 = machine.memory@;
        lemma_tops_kept_trans(m0, m1, m2, None);
        lemma_walks_kept_widen_from(m0, m1, a, p, p, t);
        lemma_walks_kept_trans(m0, m1, m2, t, 0, all_pages());
        lemma_walks_kept_fresh(m0, m2, t);
        assert forall|lo: int, hi: int|
            pages_ok(lo, hi) && #[trigger] clear_of(mbinfo.spec_kernel_ranges(), lo, hi) implies mappable_range(
            m2,
            t,
            lo,
            hi,
        ) by {
            lemma_empty_space_range(m1, t, lo, hi);
            assert(same_in(m1, m2, t, lo, hi));
            lemma_same_in_mappable(m1, m2, t, lo, hi);
        }
    }
    match r {
        Err(e) => Err(e),
        Ok(()) => Ok(new_map),
    }
}

/// What was kept outside no page of some address space was kept everywhere.
pub proof fn lemma_walks_kept_none(a: MemView, b: MemView, t: u64, lo: int)
    requires
        walks_kept(a, b, t, lo, lo),
    ensures
        walks_kept(a, b, 0, 0, 0),
{
    reveal(walks_kept);
}

/// Makes the address space of `new_map` the active one, and returns the one
/// that was active. Every cached translation is dropped.
pub fn switch(machine: &mut Machine, new_map: InactivePML4Table) -> (old_map: InactivePML4Table)
    requires
        new_map.pml4_frame.addressable(),
    ensures
        final(machine).cr3 == new_map.pml4_frame.number * PAGE_SIZE,
        final(machine).active() == new_map.pml4_frame.number,
        final(machine).memory == old(machine).memory,
        final(machine).frames == old(machine).frames,
        final(machine).tlb@ =~= Map::<u64, u64>::empty(),
        old_map.pml4_frame.number == old(machine).active(),
        mem_wf(old(machine).memory@) && old(machine).frames.wf() && recursive(
            old(machine).memory@,
            new_map.pml4_frame.number,
        ) ==> final(machine).wf() && final(machine).settled(),
{
    let old_frame = Frame::from_paddress(machine.cr3());
    let paddr = new_map.pml4_frame.start_address();
    proof {
        if recursive(machine.memory@, new_map.pml4_frame.number) {
            super::paging::lemma_frame_number_bound(
                machine.memory@[new_map.pml4_frame.number].entries[511],
            );
        }
    }
    machine.cr3_set(paddr);
    InactivePML4Table { pml4_frame: old_frame }
}

/// Builds a new address space with the kernel mapped into it and makes it
/// the active one. Where it cannot be built, the active address space stays.
pub fn remap_the_kernel(machine: &mut Machine, mbinfo: &BootInformation) -> (r: Result<(), MapError>)
    requires
        old(machine).wf(),
        old(machine).settled(),
        mbinfo.wf(),
        ranges_ok(mbinfo.spec_kernel_ranges()),
        mappable(old(machine).memory@, old(machine).active(), 4, TEMPORARY_PAGE_ADDRESS),
    ensures
        final(machine).wf(),
        final(machine).settled(),
        final(machine).frames.initial == old(machine).frames.initial,
        ({
            let (s, f) = spec_create_address_space(
                old(machine).memory@,
                old(machine).frames@,
                old(machine).active(),
                TEMPORARY_PAGE_ADDRESS,
                mbinfo.spec_kernel_ranges(),
            );
            &&& final(machine).memory@ == s.mem
            &&& final(machine).frames@ == s.frames
            &&& match s.err {
                None => r.is_ok() && final(machine).active() == f,
                Some(e) => r == Err::<(), MapError>(e) && final(machine).cr3 == old(machine).cr3,
            }
        }),
        r.is_ok() ==> !old(machine).memory@.contains_key(final(machine).active()) && ranges_mapped(
            mbinfo.spec_kernel_ranges(),
            mbinfo.spec_kernel_ranges().len() as int,
            final(machine).memory@,
            final(machine).active(),
        ) && forall|lo: int, hi: int|
            pages_ok(lo, hi) && #[trigger] clear_of(mbinfo.spec_kernel_ranges(), lo, hi)
                ==> mappable_range(final(machine).memory@, final(machine).active(), lo, hi),
        walks_kept(old(machine).memory@, final(machine).memory@, 0, 0, 0),
        tops_kept(old(machine).memory@, final(machine).memory@),
{
    match create_address_space(machine, mbinfo) {
        Err(e) => Err(e),
        Ok(new_map) => {
            proof {
                super::paging::lemma_frame_number_bound(
                    machine.memory@[new_map.pml4_frame.number].entries[511],
                );
            }
            let _ = switch(machine, new_map);
            Ok(())
        },
    }
}

} // verus!
