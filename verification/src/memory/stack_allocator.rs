//! Kernel stacks with a guard page below each.

use vstd::prelude::*;
use super::PAGE_SIZE;
use super::address_space::ActivePML4Table;
use super::machine::Machine;
use super::mapper::{lemma_mappable_range_kept, lemma_mappable_range_split, lemma_page_va,
    lemma_pages_ok_split, mappable_range, mapped_range, page_ok, page_va, pages_ok, preserves_outside,
    spec_map_range, lemma_preserves_tables};
use super::paging::{EntryFlags, Page, PageRange};
use super::physical::{enters, lemma_mappable, mappable, walk};

verus! {

/// The flags of a stack's pages: writable, not executable.
pub const STACK_FLAGS: u64 = 0x8000_0000_0000_0002;

/// A stack that grows down from `top` to `bottom`.
#[derive(Debug)]
pub struct Stack {
    top: u64,
    bottom: u64,
}

impl Stack {
    pub closed spec fn spec_top(self) -> u64 {
        self.top
    }

    pub closed spec fn spec_bottom(self) -> u64 {
        self.bottom
    }

    /// The top of a stack lies above its bottom.
    #[verifier::type_invariant]
    closed spec fn inv(self) -> bool {
        self.top > self.bottom
    }

    pub fn new(top: u64, bottom: u64) -> (s: Stack)
        requires
            top > bottom,
        ensures
            s.spec_top() == top,
            s.spec_bottom() == bottom,
    {
        Stack { top, bottom }
    }

    pub fn top(&self) -> (r: u64)
        ensures
            r == self.spec_top(),
            r > self.spec_bottom(),
    {
        proof {
            use_type_invariant(self);
        }
        self.top
    }

    pub fn bottom(&self) -> (r: u64)
        ensures
            r == self.spec_bottom(),
            r < self.spec_top(),
    {
        proof {
            use_type_invariant(self);
        }
        self.bottom
    }
}

/// Hands out stacks from a run of pages: for each stack one page that stays
/// unmapped, then the pages of the stack.
pub struct StackAllocator {
    pub pages: PageRange,
}

impl StackAllocator {
    /// The pages that are left can be walked for, and none of them is mapped
    /// in the address space that the recursive mapping shows.
    pub open spec fn wf(self, machine: Machine) -> bool {
        &&& pages_ok(self.pages.start.number as int, self.pages.end.number as int)
        &&& mappable_range(
            machine.memory@,
            machine.top(),
            self.pages.start.number as int,
            self.pages.end.number as int,
        )
    }

    pub fn new(start: Page, end: Page) -> (a: StackAllocator)
        ensures
            a.pages.start == start,
            a.pages.end == end,
    {
        StackAllocator { pages: PageRange { start, end } }
    }

    /// A stack of `size_in_pages` pages. One page is taken from the run and
    /// left unmapped as a guard, then the stack's pages are taken and mapped,
    /// writable and not executable, each to a frame from the allocator. With fewer than
    /// `size_in_pages + 1` pages left, nothing is taken and the result is
    /// `None`; it is `None` too where a page cannot be mapped, and then the
    /// pages are gone.
    pub fn alloc_stack(&mut self, active: &mut ActivePML4Table, machine: &mut Machine, size_in_pages: u64) -> (r:
        Option<Stack>)
        requires
            size_in_pages > 0,
            old(machine).wf(),
            old(self).wf(*old(machine)),
        ensures
            super::mapper::tops_kept(old(machine).memory@, final(machine).memory@),
            final(machine).wf(),
            final(self).wf(*final(machine)),
            final(machine).cr3 == old(machine).cr3,
            final(machine).tlb == old(machine).tlb,
            final(machine).top() == old(machine).top(),
            final(self).pages.end == old(self).pages.end,
            old(self).pages.spec_len() < size_in_pages + 1 ==> r.is_none() && final(self).pages == old(self).pages && final(machine).memory@ == old(machine).memory@ && final(machine).frames@ == old(machine).frames@,
            old(self).pages.spec_len() >= size_in_pages + 1 ==> ({
                let guard = old(self).pages.start.number as int;
                let s = spec_map_range(
                    old(machine).memory@,
                    old(machine).frames@,
                    old(machine).top(),
                    guard + 1,
                    size_in_pages as nat,
                    STACK_FLAGS,
                );
                &&& final(self).pages.start.number == guard + 1 + size_in_pages
                &&& final(machine).memory@ == s.mem
                &&& final(machine).frames@ == s.frames
                &&& r.is_some() == s.err.is_none()
                &&& mappable(final(machine).memory@, old(machine).top(), 4, page_va(guard))
                &&& walk(final(machine).memory@, old(machine).top(), 4, page_va(guard)).is_none()
                &&& preserves_outside(
                    old(machine).memory@,
                    final(machine).memory@,
                    old(machine).top(),
                    guard + 1,
                    guard + 1 + size_in_pages,
                )
                &&& r.is_some() ==> {
                    &&& r.unwrap().spec_bottom() == (guard + 1) * PAGE_SIZE
                    &&& r.unwrap().spec_top() == (guard + 1 + size_in_pages) * PAGE_SIZE
                    &&& mapped_range(
                        final(machine).memory@,
                        old(machine).top(),
                        guard + 1,
                        guard + 1 + size_in_pages,
                        STACK_FLAGS,
                    )
                }
            }),
    {
        let ghost m0 = machine.memory@;
        let ghost top = machine.top();
        let ghost lo = self.pages.start.number as int;
        let ghost hi = self.pages.end.number as int;
        let mut range = self.pages;
        let guard = range.next();
        let start = range.next();
        let end = if size_in_pages == 1 {
            start
        } else {
            range.nth(size_in_pages - 2)
        };
        match (guard, start, end) {
            (Some(g), Some(start), Some(end)) => {
                self.pages = range;
                proof {
                    assert(end.number == lo + size_in_pages);
                    lemma_pages_ok_split(lo, lo + 1, hi);
                    lemma_pages_ok_split(lo + 1, lo + 1 + size_in_pages, hi);
                    lemma_mappable_range_split(m0, top, lo, lo + 1, hi);
                    lemma_mappable_range_split(m0, top, lo + 1, lo + 1 + size_in_pages, hi);
                    assert(page_ok(lo + size_in_pages)) by {
                        reveal(pages_ok);
                    }
                    lemma_page_va(lo);
                    lemma_page_va(lo + 1);
                    lemma_page_va(lo + size_in_pages);
                    let last = page_va(lo + size_in_pages);
                    assert(last <= 0xffff_ff7f_ffff_ffffu64) by (bit_vector)
                        requires
                            (last >> 39) & 0o777 != 511,
                    ;
                    super::paging::lemma_flag_bits(0, 0);
                    assert(0x8000_0000_0000_0002u64 & 0x8000_0000_0000_03ffu64 == 0x8000_0000_0000_0002u64)
                        by (bit_vector);
                }
                let flags = EntryFlags::from_bits_truncate(STACK_FLAGS);
                let mapped = active.mapper.map_range(machine, start, size_in_pages, flags);
                proof {
                    let m1 = machine.memory@;
                    lemma_mappable_range_kept(
                        m0,
                        m1,
                        top,
                        lo + 1 + size_in_pages,
                        hi,
                        lo + 1,
                        lo + 1 + size_in_pages,
                    );
                    lemma_mappable_range_kept(m0, m1, top, lo, lo + 1, lo + 1, lo + 1 + size_in_pages);
                    lemma_mappable_range_split(m1, top, lo, lo, lo + 1);
                    lemma_preserves_tables(m0, m1, top, lo + 1, lo + 1 + size_in_pages, top);
                    super::mapper::lemma_tops_kept_from_preserves(
                        m0,
                        m1,
                        top,
                        lo + 1,
                        lo + 1 + size_in_pages,
                    );
                    assert(enters(m1, top, 4, page_va(lo)));
                    lemma_mappable(m1, top, 4, page_va(lo));
                }
                match mapped {
                    Err(_) => None,
                    Ok(()) => {
                        let top_address = end.start_address() + PAGE_SIZE;
                        let bottom = start.start_address();
                        Some(Stack::new(top_address, bottom))
                    },
                }
            },
            _ => {
                proof {
                    super::mapper::lemma_tops_kept_refl(m0);
                }
                None
            },
        }
    }
}

} // verus!
