//! A page for reaching frames that no address space shows, and top tables
//! that are not active.

use vstd::prelude::*;

use super::frame::{Frame, TinyAllocator};
use super::machine::{Machine, MapError, spec_map_to};
use super::mapper::{lemma_tops_kept_from_preserves, lemma_tops_kept_trans, tops_kept, empty_space, leaf_entry, lemma_empty_space_kept, lemma_new_top,
    lemma_page_va, lemma_preserves_tables, lemma_walks_kept_close,
    lemma_walks_kept_from_preserves, lemma_walks_kept_other, lemma_walks_kept_trans,
    lemma_walks_kept_widen, page_ok, page_va, preserves_outside, spec_new_top, spec_unmap,
    walks_kept};
use super::paging::{EntryFlags, Level, Page, PageEntry, VirtualAddress, PRESENT, WRITABLE,
    lemma_entry_compose};
use super::physical::{enters, lemma_mappable, mappable, recursive, walk};

verus! {

/// The flags of a temporary mapping and of a recursive entry: present and writable.
pub const TEMPORARY_FLAGS: u64 = 3;

/// What `TEMPORARY_FLAGS` are as flags of an entry.
pub proof fn lemma_temporary_flags()
    ensures
        TEMPORARY_FLAGS & !super::paging::ALL_FLAGS == 0,
        TEMPORARY_FLAGS & super::paging::ALL_FLAGS == TEMPORARY_FLAGS,
        TEMPORARY_FLAGS | PRESENT == TEMPORARY_FLAGS,
        TEMPORARY_FLAGS & PRESENT == PRESENT,
        TEMPORARY_FLAGS & super::paging::HUGE_PAGE != super::paging::HUGE_PAGE,
        WRITABLE | PRESENT == TEMPORARY_FLAGS,
{
    super::paging::lemma_flag_bits(0, 0);
}

/// A page that is mapped for a moment to reach one frame.
#[derive(Debug)]
pub struct TemporaryPage {
    pub page: Page,
    pub allocator: TinyAllocator,
}

impl TemporaryPage {
    /// A temporary page at `page`, with three frames taken from the
    /// allocator and set aside.
    pub fn new(page: Page, machine: &mut Machine) -> (t: TemporaryPage)
        requires
            old(machine).frames.wf(),
        ensures
            final(machine).frames.wf(),
            final(machine).frames.initial == old(machine).frames.initial,
            final(machine).cr3 == old(machine).cr3,
            final(machine).memory == old(machine).memory,
            final(machine).tlb == old(machine).tlb,
            final(machine).frames@ == old(machine).frames@.after(3),
            t.page == page,
            t.allocator.wf(),
            t.allocator.frames@ == seq![
                old(machine).frames@.supply(0),
                old(machine).frames@.supply(1),
                old(machine).frames@.supply(2),
            ],
    {
        proof {
            reveal_with_fuel(super::frame::ProxyState::after, 4);
        }
        let f0 = machine.alloc_frame();
        let f1 = machine.alloc_frame();
        let f2 = machine.alloc_frame();
        TemporaryPage { page, allocator: TinyAllocator::new(f0, f1, f2) }
    }

    /// Maps the page to `frame`, present and writable, in the address space
    /// that the recursive mapping shows. The page must be unmapped.
    pub fn map(&mut self, frame: Frame, active: &mut super::address_space::ActivePML4Table, machine: &mut Machine) -> (r:
        Result<VirtualAddress, MapError>)
        requires
            old(machine).wf(),
            page_ok(old(self).page.number as int),
            mappable(old(machine).memory@, old(machine).top(), 4, page_va(old(self).page.number as int)),
            frame.number < 0x100_0000_0000,
        ensures
            *final(self) == *old(self),
            final(machine).wf(),
            final(machine).cr3 == old(machine).cr3,
            final(machine).tlb == old(machine).tlb,
            final(machine).top() == old(machine).top(),
            final(machine).frames.initial == old(machine).frames.initial,
            ({
                let va = page_va(old(self).page.number as int);
                let s = spec_map_to(
                    old(machine).memory@,
                    old(machine).frames@,
                    old(machine).top(),
                    va,
                    leaf_entry(frame.number, TEMPORARY_FLAGS),
                );
                &&& final(machine).memory@ == s.mem
                &&& final(machine).frames@ == s.frames
                &&& match s.err {
                    None => r == Ok::<u64, MapError>(va) && walk(
                        final(machine).memory@,
                        old(machine).top(),
                        4,
                        va,
                    ) == Some((leaf_entry(frame.number, TEMPORARY_FLAGS), 1int)),
                    Some(e) => r == Err::<u64, MapError>(e),
                }
            }),
            preserves_outside(
                old(machine).memory@,
                final(machine).memory@,
                old(machine).top(),
                old(self).page.number as int,
                if r.is_ok() {
                    old(self).page.number + 1
                } else {
                    old(self).page.number as int
                },
            ),
    {
        proof {
            lemma_temporary_flags();
            lemma_page_va(self.page.number as int);
            assert(enters(
                machine.memory@,
                machine.top(),
                4,
                page_va(self.page.number as int),
            ));
            lemma_mappable(machine.memory@, machine.top(), 4, page_va(self.page.number as int));
        }
        let flags = EntryFlags::from_bits_truncate(WRITABLE | PRESENT);
        match active.mapper.map_to(machine, self.page, frame, flags) {
            Ok(()) => Ok(self.page.start_address()),
            Err(e) => Err(e),
        }
    }

    /// Unmaps the page again.
    pub fn unmap(&mut self, active: &mut super::address_space::ActivePML4Table, machine: &mut Machine)
        requires
            old(machine).wf(),
            page_ok(old(self).page.number as int),
            walk(
                old(machine).memory@,
                old(machine).top(),
                4,
                page_va(old(self).page.number as int),
            ).is_some(),
            walk(
                old(machine).memory@,
                old(machine).top(),
                4,
                page_va(old(self).page.number as int),
            ).unwrap().1 == 1,
        ensures
            *final(self) == *old(self),
            final(machine).wf(),
            final(machine).cr3 == old(machine).cr3,
            final(machine).frames == old(machine).frames,
            final(machine).top() == old(machine).top(),
            final(machine).tlb@ == old(machine).tlb@.remove(old(self).page.number),
            final(machine).memory@ == spec_unmap(
                old(machine).memory@,
                old(machine).top(),
                page_va(old(self).page.number as int),
            ),
            walk(
                final(machine).memory@,
                old(machine).top(),
                4,
                page_va(old(self).page.number as int),
            ).is_none(),
            mappable(
                final(machine).memory@,
                old(machine).top(),
                4,
                page_va(old(self).page.number as int),
            ),
            preserves_outside(
                old(machine).memory@,
                final(machine).memory@,
                old(machine).top(),
                old(self).page.number as int,
                old(self).page.number + 1,
            ),
    {
        proof {
            lemma_page_va(self.page.number as int);
        }
        active.mapper.unmap(machine, self.page)
    }

    /// Maps the page to the frame of a table, and returns the address at
    /// which the table can now be reached.
    pub fn map_table_frame(&mut self, frame: Frame, active: &mut super::address_space::ActivePML4Table, machine: &mut Machine) -> (r:
        Result<VirtualAddress, MapError>)
        requires
            old(machine).wf(),
            page_ok(old(self).page.number as int),
            mappable(old(machine).memory@, old(machine).top(), 4, page_va(old(self).page.number as int)),
            frame.number < 0x100_0000_0000,
        ensures
            *final(self) == *old(self),
            final(machine).wf(),
            final(machine).cr3 == old(machine).cr3,
            final(machine).tlb == old(machine).tlb,
            final(machine).top() == old(machine).top(),
            final(machine).frames.initial == old(machine).frames.initial,
            ({
                let va = page_va(old(self).page.number as int);
                let s = spec_map_to(
                    old(machine).memory@,
                    old(machine).frames@,
                    old(machine).top(),
                    va,
                    leaf_entry(frame.number, TEMPORARY_FLAGS),
                );
                &&& final(machine).memory@ == s.mem
                &&& final(machine).frames@ == s.frames
                &&& match s.err {
                    None => r == Ok::<u64, MapError>(va) && walk(
                        final(machine).memory@,
                        old(machine).top(),
                        4,
                        va,
                    ) == Some((leaf_entry(frame.number, TEMPORARY_FLAGS), 1int)),
                    Some(e) => r == Err::<u64, MapError>(e),
                }
            }),
            preserves_outside(
                old(machine).memory@,
                final(machine).memory@,
                old(machine).top(),
                old(self).page.number as int,
                if r.is_ok() {
                    old(self).page.number + 1
                } else {
                    old(self).page.number as int
                },
            ),
    {
        self.map(frame, active, machine)
    }
}

/// A top table that is not active, named by its frame.
#[derive(Debug, Clone, Copy, PartialEq, Eq, Structural)]
pub struct InactivePML4Table {
    pub pml4_frame: Frame,
}

impl InactivePML4Table {
    /// Makes the frame a top table that maps nothing and refers to itself in
    /// its last entry. The frame is reached through the temporary page, which
    /// is unmapped again afterwards.
    ///
    /// The frame must not hold a table yet; where mapping the temporary page
    /// puts a table into it, the result is `FrameUnusable`.
    pub fn new(
        frame: Frame,
        active: &mut super::address_space::ActivePML4Table,
        temp_page: &mut TemporaryPage,
        machine: &mut Machine,
    ) -> (r: Result<InactivePML4Table, MapError>)
        requires
            old(machine).wf(),
            old(machine).settled(),
            page_ok(old(temp_page).page.number as int),
            mappable(
                old(machine).memory@,
                old(machine).top(),
                4,
                page_va(old(temp_page).page.number as int),
            ),
            frame.number < 0x100_0000_0000,
            !old(machine).memory@.contains_key(frame.number),
        ensures
            *final(temp_page) == *old(temp_page),
            final(machine).wf(),
            final(machine).settled(),
            final(machine).cr3 == old(machine).cr3,
            final(machine).frames.initial == old(machine).frames.initial,
            ({
                let s = spec_map_to(
                    old(machine).memory@,
                    old(machine).frames@,
                    old(machine).top(),
                    page_va(old(temp_page).page.number as int),
                    leaf_entry(frame.number, TEMPORARY_FLAGS),
                );
                &&& final(machine).frames@ == s.frames
                &&& match s.err {
                    Some(e) => r == Err::<InactivePML4Table, MapError>(e) && final(machine).memory@
                        == s.mem && final(machine).tlb == old(machine).tlb,
                    None => final(machine).tlb@ == old(machine).tlb@.remove(
                        old(temp_page).page.number,
                    ) && if s.mem.contains_key(frame.number) {
                        r == Err::<InactivePML4Table, MapError>(MapError::FrameUnusable) && final(machine).memory@ == spec_unmap(
                            s.mem,
                            old(machine).top(),
                            page_va(old(temp_page).page.number as int),
                        )
                    } else {
                        r == Ok::<InactivePML4Table, MapError>(InactivePML4Table { pml4_frame: frame })
                            && final(machine).memory@ == spec_unmap(
                            spec_new_top(s.mem, frame.number, leaf_entry(frame.number, TEMPORARY_FLAGS)),
                            old(machine).top(),
                            page_va(old(temp_page).page.number as int),
                        )
                    },
                }
            }),
            r.is_ok() ==> recursive(final(machine).memory@, frame.number) && empty_space(
                final(machine).memory@,
                frame.number,
            ),
            walks_kept(
                old(machine).memory@,
                final(machine).memory@,
                old(machine).top(),
                old(temp_page).page.number as int,
                old(temp_page).page.number as int,
            ),
            tops_kept(old(machine).memory@, final(machine).memory@),
    {
        let ghost m0 = machine.memory@;
        let ghost top = machine.top();
        let ghost p = temp_page.page.number as int;
        let ghost va = page_va(p);
        proof {
            lemma_temporary_flags();
            lemma_page_va(p);
            assert(enters(m0, top, 4, va));
            lemma_mappable(m0, top, 4, va);
        }
        match temp_page.map_table_frame(frame, active, machine) {
            Err(e) => {
                proof {
                    let m1 = machine.memory@;
                    lemma_walks_kept_from_preserves(m0, m1, top, p, p);
                    lemma_tops_kept_from_preserves(m0, m1, top, p, p);
                }
                return Err(e);
            },
            Ok(_) => {},
        }
        let ghost m1 = machine.memory@;
        proof {
            lemma_walks_kept_from_preserves(m0, m1, top, p, p + 1);
            lemma_tops_kept_from_preserves(m0, m1, top, p, p + 1);
            lemma_preserves_tables(m0, m1, top, p, p + 1, top);
            assert(enters(m1, top, 4, va));
        }
        if machine.memory.has_table(frame.number) {
            temp_page.unmap(active, machine);
            proof {
                let m2 = machine.memory@;
                lemma_walks_kept_from_preserves(m1, m2, top, p, p + 1);
                lemma_tops_kept_from_preserves(m1, m2, top, p, p + 1);
                lemma_walks_kept_trans(m0, m1, m2, top, p, p + 1);
                lemma_tops_kept_trans(m0, m1, m2, None);
                lemma_walks_kept_close(m0, m2, top, p);
            }
            return Err(MapError::FrameUnusable);
        }
        // the table is reached through the temporary page
        let target = machine.access(temp_page.page.start_address());
        let mut e = PageEntry::new();
        proof {
            lemma_entry_compose(frame.number, TEMPORARY_FLAGS);
        }
        e.set(frame, EntryFlags::from_bits_truncate(WRITABLE | PRESENT));
        machine.memory.insert_zeroed(frame.number, Level::PML4T);
        machine.memory.write(frame.number, 511, e);
        proof {
            let m2 = machine.memory@;
            assert(m2 == spec_new_top(m1, frame.number, e));
            lemma_new_top(m1, frame.number, e, top);
            lemma_walks_kept_from_preserves(m1, m2, top, 0, 0);
            lemma_tops_kept_from_preserves(m1, m2, top, 0, 0);
            lemma_walks_kept_widen(m1, m2, top, 0, 0, 0, 0);
            lemma_walks_kept_other(m1, m2, top, 0, 0, top, va);
            assert(m2[machine.active()] == m1[machine.active()]);
        }
        let ghost m2 = machine.memory@;
        temp_page.unmap(active, machine);
        proof {
            let m3 = machine.memory@;
            lemma_walks_kept_from_preserves(m2, m3, top, p, p + 1);
            lemma_tops_kept_from_preserves(m2, m3, top, p, p + 1);
            lemma_walks_kept_from_preserves(m1, m2, top, 0, 0);
            lemma_tops_kept_from_preserves(m1, m2, top, 0, 0);
            lemma_walks_kept_widen_any(m1, m2, top, p, p + 1);
            lemma_walks_kept_trans(m0, m1, m2, top, p, p + 1);
            lemma_tops_kept_trans(m0, m1, m2, None);
            lemma_walks_kept_trans(m0, m2, m3, top, p, p + 1);
            lemma_tops_kept_trans(m0, m2, m3, None);
            lemma_walks_kept_close(m0, m3, top, p);
            lemma_preserves_tables(m2, m3, top, p, p + 1, frame.number);
            lemma_empty_space_kept(m2, m3, frame.number, top, p, p + 1);
        }
        Ok(InactivePML4Table { pml4_frame: frame })
    }
}

/// What was kept everywhere was kept outside any range.
pub proof fn lemma_walks_kept_widen_any(a: super::physical::MemView, b: super::physical::MemView, top: u64, lo: int, hi: int)
    requires
        walks_kept(a, b, top, 0, 0),
    ensures
        walks_kept(a, b, top, lo, hi),
{
    reveal(walks_kept);
}

} // verus!
