//! Translating, mapping and unmapping pages in the address space that the
//! recursive mapping shows.

use vstd::prelude::*;
use super::PAGE_SIZE;
use super::frame::{Frame, ProxyState};
use super::machine::{Machine, MapError, MapStep, create_outcome, lemma_link, spec_descend,
    spec_map, spec_map_to, spec_next_table};
use super::paging::{EntryFlags, Level, Page, PageEntry, Table, HUGE_PAGE, PRESENT, offset,
    pdpt_index, pdt_index, pml4t_index, pt_index, spec_index, spec_is_valid_address, spec_offset,
    lemma_spec_index_range, lemma_zero_entry, is_valid_address};
use super::physical::{MemView, PhysicalMemory, enters, leaf_in_use, leaf_table,
    lemma_enters_child, lemma_path_unique, lemma_same_indices_same_page, lemma_walk_clear,
    lemma_walk_leaf, lemma_wf_clear, lemma_wf_leaf, mem_wf, missing_tables, pt_of, recursive,
    replaces_huge, spec_translate, spec_write, walk, lemma_walk_same_page, mappable, pt_unused,
    lemma_mappable, lemma_mappable_leaf, lemma_pt_no_huge, lemma_mappable_same_page,
    lemma_walk_insert, lemma_mappable_insert, lemma_walk_recursive, lemma_mappable_recursive,
    lemma_wf_insert, lemma_wf_recursive, zero_table};

verus! {

broadcast use vstd::std_specs::hash::group_hash_axioms;

/// The physical address of `vaddr` for a walk that starts at the top table in
/// frame `root`: down the four levels, stopping at a huge page of 1 GiB or
/// 2 MiB, and absent where an entry on the way is not present.
pub fn translate_from(memory: &PhysicalMemory, root: u64, vaddr: u64) -> (r: Option<u64>)
    requires
        memory.shape(),
    ensures
        match r {
            Some(a) => spec_translate(memory@, root, vaddr) == Some(a as int),
            None => spec_translate(memory@, root, vaddr).is_none(),
        },
{
    proof {
        reveal_with_fuel(walk, 5);
        lemma_spec_index_range(vaddr, 1);
    }
    let off = offset(vaddr);
    let i1 = pt_index(vaddr) as u64;
    let i2 = pdt_index(vaddr) as u64;
    let e4 = match memory.read(root, pml4t_index(vaddr)) {
        None => {
            return None;
        },
        Some(e) => e,
    };
    let f4 = match e4.pointed_frame() {
        None => {
            return None;
        },
        Some(f) => f,
    };
    if e4.flags().contains(HUGE_PAGE) {
        return None;
    }
    let e3 = match memory.read(f4.number, pdpt_index(vaddr)) {
        None => {
            return None;
        },
        Some(e) => e,
    };
    let f3 = match e3.pointed_frame() {
        None => {
            return None;
        },
        Some(f) => f,
    };
    if e3.flags().contains(HUGE_PAGE) {
        return Some((f3.number + i2 * 512 + i1) * PAGE_SIZE + off);
    }
    let e2 = match memory.read(f3.number, pdt_index(vaddr)) {
        None => {
            return None;
        },
        Some(e) => e,
    };
    let f2 = match e2.pointed_frame() {
        None => {
            return None;
        },
        Some(f) => f,
    };
    if e2.flags().contains(HUGE_PAGE) {
        return Some((f2.number + i1) * PAGE_SIZE + off);
    }
    let e1 = match memory.read(f2.number, pt_index(vaddr)) {
        None => {
            return None;
        },
        Some(e) => e,
    };
    match e1.pointed_frame() {
        None => None,
        Some(f) => Some(f.number * PAGE_SIZE + off),
    }
}

/// One step down for `map_to`: the table below `table` on the way of `vaddr`,
/// made if it is missing.
fn descend_or_create(machine: &mut Machine, table: u64, Ghost(level): Ghost<int>, index: usize, vaddr: u64) -> (r:
    Result<u64, MapError>)
    requires
        mem_wf(old(machine).memory@),
        old(machine).frames.wf(),
        enters(old(machine).memory@, table, level, vaddr),
        level >= 2,
        index == spec_index(vaddr, level),
    ensures
        tops_kept(old(machine).memory@, final(machine).memory@),
        mem_wf(final(machine).memory@),
        final(machine).frames.wf(),
        final(machine).frames.initial == old(machine).frames.initial,
        final(machine).cr3 == old(machine).cr3,
        final(machine).tlb == old(machine).tlb,
        forall|t: u64| #[trigger]
            old(machine).memory@.contains_key(t) ==> final(machine).memory@.contains_key(t) && final(machine).memory@[t].level == old(machine).memory@[t].level,
        forall|t: u64|
            old(machine).memory@.contains_key(t) && t != table ==> #[trigger] final(machine).memory@[t] == old(machine).memory@[t],
        forall|i: int|
            0 <= i < 512 && i != index ==> final(machine).memory@[table].entries[i] == old(machine).memory@[table].entries[i],
        forall|r: u64, l: int, v: u64| #[trigger]
            enters(old(machine).memory@, r, l, v) ==> enters(final(machine).memory@, r, l, v),
        !replaces_huge(old(machine).memory@, table, level, vaddr) ==> forall|r: u64, l: int, v: u64|
            enters(old(machine).memory@, r, l, v) ==> #[trigger] walk(
                final(machine).memory@,
                r,
                l,
                v,
            ) == walk(old(machine).memory@, r, l, v),
        !replaces_huge(old(machine).memory@, table, level, vaddr) ==> forall|r: u64, l: int, v: u64|
            enters(old(machine).memory@, r, l, v) ==> #[trigger] mappable(
                final(machine).memory@,
                r,
                l,
                v,
            ) == mappable(old(machine).memory@, r, l, v),
        ({
            let (s, c) = spec_descend(old(machine).memory@, old(machine).frames@, table, index as int);
            &&& s.mem == final(machine).memory@
            &&& s.frames == final(machine).frames@
            &&& match s.err {
                None => r == Ok::<u64, MapError>(c),
                Some(e) => r == Err::<u64, MapError>(e),
            }
        }),
        match r {
            Ok(c) => {
                &&& enters(final(machine).memory@, c, level - 1, vaddr)
                &&& c != table
                &&& final(machine).memory@[table].entries[index as int].is_table_pointer()
                &&& final(machine).memory@[table].entries[index as int].frame_number() == c
                &&& create_outcome(
                    old(machine).memory@.dom(),
                    old(machine).frames@,
                    missing_tables(old(machine).memory@, table, level, vaddr),
                ) == create_outcome(
                    final(machine).memory@.dom(),
                    final(machine).frames@,
                    missing_tables(final(machine).memory@, c, level - 1, vaddr),
                )
                &&& !replaces_huge(old(machine).memory@, table, level, vaddr) ==> !replaces_huge(
                    final(machine).memory@,
                    c,
                    level - 1,
                    vaddr,
                )
                &&& pt_unused(old(machine).memory@, table, level, vaddr) ==> pt_unused(
                    final(machine).memory@,
                    c,
                    level - 1,
                    vaddr,
                )
            },
            Err(e) => {
                &&& final(machine).memory@ == old(machine).memory@
                &&& create_outcome(
                    old(machine).memory@.dom(),
                    old(machine).frames@,
                    missing_tables(old(machine).memory@, table, level, vaddr),
                ) == (Some(e), final(machine).frames@)
            },
        },
{
    let ghost m = machine.memory@;
    proof {
        lemma_spec_index_range(vaddr, level);
        lemma_spec_index_range(vaddr, level - 1);
        lemma_zero_entry();
        reveal_with_fuel(create_outcome, 2);
    }
    let r = machine.next_level_table_or_create(table, index);
    proof {
        match spec_next_table(m, table, index as int) {
            Some(c) => {
                lemma_enters_child(m, table, level, vaddr);
            },
            None => {
                match r {
                    Ok(c) => {
                        lemma_link(m, table, index as int, c);
                        let m2 = machine.memory@;
                        assert(m2[c].entries[spec_index(vaddr, level - 1)] == PageEntry(0));
                        assert(missing_tables(m, table, level, vaddr) == level - 1);
                        assert(missing_tables(m2, c, level - 1, vaddr) == level - 2);
                        assert(!replaces_huge(m2, c, level - 1, vaddr));
                        if level - 1 == 1 {
                            assert(pt_of(m2, c, level - 1, vaddr) == Some(c));
                        } else {
                            assert(pt_of(m2, c, level - 1, vaddr).is_none());
                        }
                        assert forall|t: u64| #[trigger] m.contains_key(t) implies m2.contains_key(t)
                            && m2[t].level == m[t].level by {
                            if t != table {
                                assert(m2[t] == m[t]);
                            }
                        }
                    },
                    Err(e) => {},
                }
            },
        }
        assert(tops_kept(m, machine.memory@)) by {
            reveal(tops_kept_but);
            let m2 = machine.memory@;
            assert forall|t: u64| #[trigger] m2.contains_key(t) && !m.contains_key(t) implies m2[t].level
                != Level::PML4T by {
                if r.is_ok() && spec_next_table(m, table, index as int).is_none() {
                    assert(m2 == super::machine::spec_link(m, table, index as int, r.unwrap()));
                    assert(t == r.unwrap());
                }
            }
            assert forall|t: u64| #[trigger] m.contains_key(t) implies m2.contains_key(t) && m2[t].level
                == m[t].level && (m[t].level == Level::PML4T ==> same_target(
                m2[t].entries[511],
                m[t].entries[511],
            )) by {
                if t != table {
                    assert(m2[t] == m[t]);
                }
            }
        }
    }
    r
}

/// The memory after the entry that maps `va` was cleared.
pub open spec fn spec_unmap(m: MemView, top: u64, va: u64) -> MemView {
    spec_write(
        m,
        leaf_table(m, top, 4, va),
        spec_index(va, walk(m, top, 4, va).unwrap().1),
        PageEntry(0),
    )
}

/// A handle on the address space that the recursive mapping shows.
pub struct Mapper {}

impl Mapper {
    pub fn new() -> Mapper {
        Mapper {  }
    }

    /// The top table.
    pub fn get<'a>(&self, machine: &'a Machine) -> (t: &'a Table)
        requires
            machine.wf(),
        ensures
            t@ == machine.memory@[machine.top()],
            t.level == Level::PML4T,
    {
        let top = machine.top_frame();
        assert(machine.memory@.contains_key(top));
        let t = machine.memory.tables.get(&top).unwrap();
        t
    }

    /// The physical address that `vaddr` is mapped to, if it is mapped.
    pub fn translate(&self, machine: &Machine, vaddr: u64) -> (r: Option<u64>)
        requires
            machine.wf(),
            spec_is_valid_address(vaddr),
        ensures
            match r {
                Some(a) => machine.translation(vaddr) == Some(a as int),
                None => machine.translation(vaddr).is_none(),
            },
    {
        let top = machine.top_frame();
        translate_from(&machine.memory, top, vaddr)
    }

    /// Maps `page` to `frame` with `flags` and `PRESENT`. Tables that are
    /// missing on the way are made, each in a frame from the allocator.
    ///
    /// The entry for the page must be unused. The page must not lie in the
    /// window of the recursive mapping.
    pub fn map_to(&mut self, machine: &mut Machine, page: Page, frame: Frame, flags: EntryFlags) -> (r:
        Result<(), MapError>)
        requires
            old(machine).wf(),
            page.addressable(),
            spec_is_valid_address((page.number * PAGE_SIZE) as u64),
            spec_index((page.number * PAGE_SIZE) as u64, 4) != 511,
            frame.number < 0x100_0000_0000,
            flags.valid(),
            !leaf_in_use(old(machine).memory@, old(machine).top(), (page.number * PAGE_SIZE) as u64),
        ensures
            tops_kept(old(machine).memory@, final(machine).memory@),
            final(machine).wf(),
            final(machine).cr3 == old(machine).cr3,
            final(machine).tlb == old(machine).tlb,
            final(machine).top() == old(machine).top(),
            final(machine).frames.initial == old(machine).frames.initial,
            // which tables exist, and the last entry of each top table
            forall|t: u64| #[trigger]
                old(machine).memory@.contains_key(t) ==> final(machine).memory@.contains_key(t)
                    && final(machine).memory@[t].level == old(machine).memory@[t].level && (old(machine).memory@[t].level == Level::PML4T ==> final(machine).memory@[t].entries[511] == old(machine).memory@[t].entries[511]),
            // when it succeeds
            ({
                let va = (page.number * PAGE_SIZE) as u64;
                let (err, st) = create_outcome(
                    old(machine).memory@.dom(),
                    old(machine).frames@,
                    missing_tables(old(machine).memory@, old(machine).top(), 4, va),
                );
                &&& final(machine).frames@ == st
                &&& match err {
                    None => r.is_ok(),
                    Some(e) => r == Err::<(), MapError>(e),
                }
            }),
            // memory and allocator afterwards
            ({
                let va = (page.number * PAGE_SIZE) as u64;
                let s = spec_map_to(
                    old(machine).memory@,
                    old(machine).frames@,
                    old(machine).top(),
                    va,
                    PageEntry::spec_new(frame, EntryFlags { bits: flags.bits | PRESENT }),
                );
                &&& final(machine).memory@ == s.mem
                &&& final(machine).frames@ == s.frames
                &&& match s.err {
                    None => r.is_ok(),
                    Some(e) => r == Err::<(), MapError>(e),
                }
            }),
            // what the page is mapped to
            r.is_ok() ==> ({
                let va = (page.number * PAGE_SIZE) as u64;
                &&& walk(final(machine).memory@, old(machine).top(), 4, va) == Some(
                    (PageEntry::spec_new(frame, EntryFlags { bits: flags.bits | PRESENT }), 1int),
                )
                &&& final(machine).translation(va) == Some(frame.number * PAGE_SIZE as int)
            }),
            // what every other page is mapped to, in this address space and in any other
            !replaces_huge(
                old(machine).memory@,
                old(machine).top(),
                4,
                (page.number * PAGE_SIZE) as u64,
            ) ==> forall|root: u64, v: u64|
                enters(old(machine).memory@, root, 4, v) && spec_is_valid_address(v) && !(r.is_ok()
                    && root == old(machine).top() && v / PAGE_SIZE == page.number) ==> #[trigger] walk(
                    final(machine).memory@,
                    root,
                    4,
                    v,
                ) == walk(old(machine).memory@, root, 4, v),
            !replaces_huge(
                old(machine).memory@,
                old(machine).top(),
                4,
                (page.number * PAGE_SIZE) as u64,
            ) ==> preserves_outside(
                old(machine).memory@,
                final(machine).memory@,
                old(machine).top(),
                page.number as int,
                if r.is_ok() {
                    page.number + 1
                } else {
                    page.number as int
                },
            ),
            // and what can still be mapped
            !replaces_huge(
                old(machine).memory@,
                old(machine).top(),
                4,
                (page.number * PAGE_SIZE) as u64,
            ) ==> forall|root: u64, v: u64|
                enters(old(machine).memory@, root, 4, v) && spec_is_valid_address(v) && !(r.is_ok()
                    && root == old(machine).top() && v / PAGE_SIZE == page.number) ==> #[trigger] mappable(
                    final(machine).memory@,
                    root,
                    4,
                    v,
                ) == mappable(old(machine).memory@, root, 4, v),
    {
        let vaddr = page.start_address();
        let top = machine.top_frame();
        let ghost m0 = machine.memory@;
        let ghost st0 = machine.frames@;
        let ghost clean = !replaces_huge(m0, top, 4, vaddr);
        proof {
            reveal(preserves_outside);
            lemma_spec_index_range(vaddr, 4);
            lemma_spec_index_range(vaddr, 3);
            lemma_spec_index_range(vaddr, 2);
            lemma_spec_index_range(vaddr, 1);
            assert(enters(m0, top, 4, vaddr));
            assert(pt_unused(m0, top, 4, vaddr));
        }
        let t3 = match descend_or_create(machine, top, Ghost(4), pml4t_index(vaddr), vaddr) {
            Ok(t) => t,
            Err(e) => {
                return Err(e);
            },
        };
        let ghost m1 = machine.memory@;
        let t2 = match descend_or_create(machine, t3, Ghost(3), pdpt_index(vaddr), vaddr) {
            Ok(t) => t,
            Err(e) => {
                proof {
                    assert forall|root: u64, v: u64| enters(m0, root, 4, v) && clean implies #[trigger] walk(
                        machine.memory@,
                        root,
                        4,
                        v,
                    ) == walk(m0, root, 4, v) by {
                        assert(enters(m1, root, 4, v));
                    }
                    assert forall|root: u64, v: u64| enters(m0, root, 4, v) && clean implies #[trigger] mappable(
                        machine.memory@,
                        root,
                        4,
                        v,
                    ) == mappable(m0, root, 4, v) by {
                        assert(enters(m1, root, 4, v));
                    }
                    assert(recursive(machine.memory@, top));
                }
                return Err(e);
            },
        };
        let ghost m2 = machine.memory@;
        proof {
            lemma_tops_kept_trans(m0, m1, m2, None);
        }
        let t1 = match descend_or_create(machine, t2, Ghost(2), pdt_index(vaddr), vaddr) {
            Ok(t) => t,
            Err(e) => {
                proof {
                    assert forall|root: u64, v: u64| enters(m0, root, 4, v) && clean implies #[trigger] walk(
                        machine.memory@,
                        root,
                        4,
                        v,
                    ) == walk(m0, root, 4, v) by {
                        assert(enters(m1, root, 4, v));
                        assert(enters(m2, root, 4, v));
                        assert(walk(m2, root, 4, v) == walk(m1, root, 4, v));
                    }
                    assert forall|root: u64, v: u64| enters(m0, root, 4, v) && clean implies #[trigger] mappable(
                        machine.memory@,
                        root,
                        4,
                        v,
                    ) == mappable(m0, root, 4, v) by {
                        assert(enters(m1, root, 4, v));
                        assert(enters(m2, root, 4, v));
                        assert(mappable(m2, root, 4, v) == mappable(m1, root, 4, v));
                    }
                    assert(recursive(machine.memory@, top));
                }
                return Err(e);
            },
        };
        let ghost m3 = machine.memory@;
        proof {
            lemma_tops_kept_trans(m0, m2, m3, None);
        }
        let i1 = pt_index(vaddr);
        let mut e = PageEntry::new();
        let leaf_flags = flags.union(PRESENT);
        proof {
            super::paging::lemma_flag_bits(flags.bits, 0);
            lemma_aligned_offset(vaddr);
        }
        e.set(frame, leaf_flags);
        proof {
            assert(m3[top] == m1[top]);
            assert(m3[t3] == m2[t3]);
            assert(pt_of(m3, t1, 1, vaddr) == Some(t1));
            assert(pt_of(m3, t2, 2, vaddr) == Some(t1));
            assert(pt_of(m3, t3, 3, vaddr) == Some(t1));
            assert(pt_of(m3, top, 4, vaddr) == Some(t1));
            assert(m3[t1].level == Level::PT);
            lemma_wf_leaf(m3, t1, i1 as int, e);
            lemma_walk_leaf(m3, t1, i1 as int, e, top, 4, vaddr);
            assert(enters(m3, top, 4, vaddr));
        }
        machine.memory.write(t1, i1, e);
        proof {
            let m4 = machine.memory@;
            assert(m4 == spec_write(m3, t1, i1 as int, e));
            lemma_tops_kept_write_low(m3, t1, i1 as int, e);
            lemma_tops_kept_trans(m0, m3, m4, None);
            assert(recursive(m4, top)) by {
                assert(m4[top] == m3[top]);
            }
            assert(m4[machine.active()] == m3[machine.active()]);
            assert forall|t: u64| #[trigger] m0.contains_key(t) implies m4.contains_key(t) && m4[t].level
                == m0[t].level && (m0[t].level == Level::PML4T ==> m4[t].entries[511]
                == m0[t].entries[511]) by {
                assert(m1.contains_key(t));
                assert(m2.contains_key(t));
                assert(m3.contains_key(t));
                if m0[t].level == Level::PML4T {
                    assert(t != t3 && t != t2 && t != t1);
                    assert(m2[t] == m1[t]);
                    assert(m3[t] == m2[t]);
                    assert(m4[t] == m3[t]);
                    if t != top {
                        assert(m1[t] == m0[t]);
                    }
                }
            }
            if clean {
                assert forall|root: u64, v: u64|
                    enters(m0, root, 4, v) && spec_is_valid_address(v) && !(root == top && v
                        / PAGE_SIZE == page.number) implies #[trigger] walk(m4, root, 4, v) == walk(
                    m0,
                    root,
                    4,
                    v,
                ) by {
                    assert(enters(m1, root, 4, v));
                    assert(enters(m2, root, 4, v));
                    assert(enters(m3, root, 4, v));
                    assert(walk(m1, root, 4, v) == walk(m0, root, 4, v));
                    assert(walk(m2, root, 4, v) == walk(m1, root, 4, v));
                    assert(walk(m3, root, 4, v) == walk(m2, root, 4, v));
                    lemma_walk_leaf(m3, t1, i1 as int, e, root, 4, v);
                    if pt_of(m3, root, 4, v) == Some(t1) && spec_index(v, 1) == i1 {
                        lemma_path_unique(m3, root, top, 4, v, vaddr);
                        lemma_same_indices_same_page(v, vaddr);
                        assert(false);
                    }
                }
                assert forall|root: u64, v: u64|
                    enters(m0, root, 4, v) && spec_is_valid_address(v) && !(root == top && v
                        / PAGE_SIZE == page.number) implies #[trigger] mappable(m4, root, 4, v)
                    == mappable(m0, root, 4, v) by {
                    assert(enters(m1, root, 4, v));
                    assert(enters(m2, root, 4, v));
                    assert(enters(m3, root, 4, v));
                    assert(mappable(m1, root, 4, v) == mappable(m0, root, 4, v));
                    assert(mappable(m2, root, 4, v) == mappable(m1, root, 4, v));
                    assert(mappable(m3, root, 4, v) == mappable(m2, root, 4, v));
                    if pt_of(m3, root, 4, v) == Some(t1) && spec_index(v, 1) == i1 {
                        lemma_path_unique(m3, root, top, 4, v, vaddr);
                        lemma_same_indices_same_page(v, vaddr);
                        assert(false);
                    }
                    lemma_mappable_leaf(m3, t1, i1 as int, e, root, 4, v);
                }
            }
        }
        Ok(())
    }

    /// Maps `page` to a frame from the allocator.
    pub fn map(&mut self, machine: &mut Machine, page: Page, flags: EntryFlags) -> (r: Result<
        Frame,
        MapError,
    >)
        requires
            old(machine).wf(),
            page.addressable(),
            spec_is_valid_address((page.number * PAGE_SIZE) as u64),
            spec_index((page.number * PAGE_SIZE) as u64, 4) != 511,
            flags.valid(),
            !leaf_in_use(old(machine).memory@, old(machine).top(), (page.number * PAGE_SIZE) as u64),
        ensures
            tops_kept(old(machine).memory@, final(machine).memory@),
            final(machine).wf(),
            final(machine).cr3 == old(machine).cr3,
            final(machine).tlb == old(machine).tlb,
            final(machine).top() == old(machine).top(),
            final(machine).frames.initial == old(machine).frames.initial,
            forall|t: u64| #[trigger]
                old(machine).memory@.contains_key(t) ==> final(machine).memory@.contains_key(t)
                    && final(machine).memory@[t].level == old(machine).memory@[t].level && (old(machine).memory@[t].level == Level::PML4T ==> final(machine).memory@[t].entries[511] == old(machine).memory@[t].entries[511]),
            ({
                let va = (page.number * PAGE_SIZE) as u64;
                let (first, st1) = old(machine).frames@.step();
                match first {
                    None => r == Err::<Frame, MapError>(MapError::OutOfFrames) && final(machine).frames@ == st1 && final(machine).memory@ == old(machine).memory@,
                    Some(f) => if f.number >= 0x100_0000_0000 {
                        r == Err::<Frame, MapError>(MapError::FrameUnusable) && final(machine).frames@ == st1 && final(machine).memory@ == old(machine).memory@
                    } else {
                        let (err, st) = create_outcome(
                            old(machine).memory@.dom(),
                            st1,
                            missing_tables(old(machine).memory@, old(machine).top(), 4, va),
                        );
                        &&& final(machine).frames@ == st
                        &&& match err {
                            None => r == Ok::<Frame, MapError>(f),
                            Some(e) => r == Err::<Frame, MapError>(e),
                        }
                    },
                }
            }),
            ({
                let s = spec_map(
                    old(machine).memory@,
                    old(machine).frames@,
                    old(machine).top(),
                    (page.number * PAGE_SIZE) as u64,
                    flags.bits,
                );
                &&& final(machine).memory@ == s.mem
                &&& final(machine).frames@ == s.frames
                &&& match s.err {
                    None => r.is_ok() && Some(r.unwrap()) == old(machine).frames@.step().0,
                    Some(e) => r == Err::<Frame, MapError>(e),
                }
            }),
            r.is_ok() ==> ({
                let va = (page.number * PAGE_SIZE) as u64;
                &&& walk(final(machine).memory@, old(machine).top(), 4, va) == Some(
                    (
                        PageEntry::spec_new(r.unwrap(), EntryFlags { bits: flags.bits | PRESENT }),
                        1int,
                    ),
                )
                &&& final(machine).translation(va) == Some(r.unwrap().number * PAGE_SIZE as int)
            }),
            !replaces_huge(
                old(machine).memory@,
                old(machine).top(),
                4,
                (page.number * PAGE_SIZE) as u64,
            ) ==> forall|root: u64, v: u64|
                enters(old(machine).memory@, root, 4, v) && spec_is_valid_address(v) && !(r.is_ok()
                    && root == old(machine).top() && v / PAGE_SIZE == page.number) ==> #[trigger] walk(
                    final(machine).memory@,
                    root,
                    4,
                    v,
                ) == walk(old(machine).memory@, root, 4, v),
            !replaces_huge(
                old(machine).memory@,
                old(machine).top(),
                4,
                (page.number * PAGE_SIZE) as u64,
            ) ==> forall|root: u64, v: u64|
                enters(old(machine).memory@, root, 4, v) && spec_is_valid_address(v) && !(r.is_ok()
                    && root == old(machine).top() && v / PAGE_SIZE == page.number) ==> #[trigger] mappable(
                    final(machine).memory@,
                    root,
                    4,
                    v,
                ) == mappable(old(machine).memory@, root, 4, v),
            !replaces_huge(
                old(machine).memory@,
                old(machine).top(),
                4,
                (page.number * PAGE_SIZE) as u64,
            ) ==> preserves_outside(
                old(machine).memory@,
                final(machine).memory@,
                old(machine).top(),
                page.number as int,
                if r.is_ok() {
                    page.number + 1
                } else {
                    page.number as int
                },
            ),
    {
        proof {
            reveal(preserves_outside);
            lemma_tops_kept_refl(machine.memory@);
        }
        match machine.alloc_frame() {
            None => Err(MapError::OutOfFrames),
            Some(frame) => {
                if frame.number >= 0x100_0000_0000 {
                    return Err(MapError::FrameUnusable);
                }
                match self.map_to(machine, page, frame, flags) {
                    Ok(()) => Ok(frame),
                    Err(e) => Err(e),
                }
            },
        }
    }

    /// Maps the page with the frame's own address to the frame.
    pub fn identity_map(&mut self, machine: &mut Machine, frame: Frame, flags: EntryFlags) -> (r:
        Result<(), MapError>)
        requires
            old(machine).wf(),
            frame.number < 0x100_0000_0000,
            spec_is_valid_address((frame.number * PAGE_SIZE) as u64),
            spec_index((frame.number * PAGE_SIZE) as u64, 4) != 511,
            flags.valid(),
            !leaf_in_use(old(machine).memory@, old(machine).top(), (frame.number * PAGE_SIZE) as u64),
        ensures
            tops_kept(old(machine).memory@, final(machine).memory@),
            final(machine).wf(),
            final(machine).cr3 == old(machine).cr3,
            final(machine).tlb == old(machine).tlb,
            final(machine).top() == old(machine).top(),
            ({
                let va = (frame.number * PAGE_SIZE) as u64;
                let (err, st) = create_outcome(
                    old(machine).memory@.dom(),
                    old(machine).frames@,
                    missing_tables(old(machine).memory@, old(machine).top(), 4, va),
                );
                &&& final(machine).frames@ == st
                &&& match err {
                    None => r.is_ok(),
                    Some(e) => r == Err::<(), MapError>(e),
                }
            }),
            r.is_ok() ==> final(machine).translation((frame.number * PAGE_SIZE) as u64) == Some(
                frame.number * PAGE_SIZE as int,
            ),
            !replaces_huge(
                old(machine).memory@,
                old(machine).top(),
                4,
                (frame.number * PAGE_SIZE) as u64,
            ) ==> forall|root: u64, v: u64|
                enters(old(machine).memory@, root, 4, v) && spec_is_valid_address(v) && !(r.is_ok()
                    && root == old(machine).top() && v / PAGE_SIZE == frame.number) ==> #[trigger] walk(
                    final(machine).memory@,
                    root,
                    4,
                    v,
                ) == walk(old(machine).memory@, root, 4, v),
    {
        let page = Page::from_vaddress(frame.start_address());
        self.map_to(machine, page, frame, flags)
    }

    /// Clears the entry that maps `page` and drops the page's cached
    /// translation. Tables that this leaves empty stay.
    ///
    /// The page must be mapped, and must not lie in the window of the
    /// recursive mapping.
    pub fn unmap(&mut self, machine: &mut Machine, page: Page)
        requires
            old(machine).wf(),
            page.addressable(),
            spec_is_valid_address((page.number * PAGE_SIZE) as u64),
            spec_index((page.number * PAGE_SIZE) as u64, 4) != 511,
            old(machine).translation((page.number * PAGE_SIZE) as u64).is_some(),
        ensures
            tops_kept(old(machine).memory@, final(machine).memory@),
            final(machine).wf(),
            final(machine).cr3 == old(machine).cr3,
            final(machine).frames == old(machine).frames,
            final(machine).top() == old(machine).top(),
            final(machine).translation((page.number * PAGE_SIZE) as u64).is_none(),
            final(machine).tlb@ == old(machine).tlb@.remove(page.number),
            !final(machine).tlb@.contains_key(page.number),
            ({
                let va = (page.number * PAGE_SIZE) as u64;
                let l = walk(old(machine).memory@, old(machine).top(), 4, va).unwrap().1;
                let tl = leaf_table(old(machine).memory@, old(machine).top(), 4, va);
                &&& final(machine).memory@ == spec_unmap(old(machine).memory@, old(machine).top(), va)
                &&& l == 1 ==> forall|root: u64, v: u64|
                    enters(old(machine).memory@, root, 4, v) && spec_is_valid_address(v) && !(root
                        == old(machine).top() && v / PAGE_SIZE == page.number) ==> #[trigger] walk(
                        final(machine).memory@,
                        root,
                        4,
                        v,
                    ) == walk(old(machine).memory@, root, 4, v)
                &&& l == 1 ==> preserves_outside(
                    old(machine).memory@,
                    final(machine).memory@,
                    old(machine).top(),
                    page.number as int,
                    page.number + 1,
                )
                &&& l == 1 ==> mappable(final(machine).memory@, old(machine).top(), 4, va)
            }),
    {
        let vaddr = page.start_address();
        let top = machine.top_frame();
        let ghost m0 = machine.memory@;
        proof {
            reveal_with_fuel(walk, 5);
            reveal_with_fuel(leaf_table, 5);
            lemma_spec_index_range(vaddr, 4);
            lemma_spec_index_range(vaddr, 3);
            lemma_spec_index_range(vaddr, 2);
            lemma_spec_index_range(vaddr, 1);
            assert(enters(m0, top, 4, vaddr));
            lemma_walk_clear(m0, top, 4, vaddr);
        }
        let t3 = machine.next_level_table(top, pml4t_index(vaddr)).unwrap();
        let (table, index) = match machine.next_level_table(t3, pdpt_index(vaddr)) {
            None => (t3, pdpt_index(vaddr)),
            Some(t2) => match machine.next_level_table(t2, pdt_index(vaddr)) {
                None => (t2, pdt_index(vaddr)),
                Some(t1) => (t1, pt_index(vaddr)),
            },
        };
        proof {
            let l = walk(m0, top, 4, vaddr).unwrap().1;
            assert(table == leaf_table(m0, top, 4, vaddr));
            assert(index == spec_index(vaddr, l));
            lemma_wf_clear(m0, table, index as int);
            assert(m0[table].level != Level::PML4T);
            lemma_tops_kept_write_low(m0, table, index as int, PageEntry(0));
            if l == 1 {
                reveal(preserves_outside);
                let m1 = spec_write(m0, table, index as int, PageEntry(0));
                lemma_walk_leaf(m0, table, index as int, PageEntry(0), top, 4, vaddr);
                lemma_pt_no_huge(m1, top, 4, vaddr);
                assert(enters(m1, top, 4, vaddr));
                lemma_mappable(m1, top, 4, vaddr);
                assert(m1[table].entries[index as int] == PageEntry(0));
                assert forall|root: u64, v: u64|
                    enters(m0, root, 4, v) && spec_is_valid_address(v) && !(root == top && v
                        / PAGE_SIZE == page.number) implies #[trigger] mappable(m1, root, 4, v)
                    == mappable(m0, root, 4, v) by {
                    if pt_of(m0, root, 4, v) == Some(table) && spec_index(v, 1) == index {
                        lemma_path_unique(m0, root, top, 4, v, vaddr);
                        lemma_same_indices_same_page(v, vaddr);
                        assert(false);
                    }
                    lemma_mappable_leaf(m0, table, index as int, PageEntry(0), root, 4, v);
                }
                assert forall|t: u64| #[trigger] m0.contains_key(t) implies m1.contains_key(t)
                    && m1[t].level == m0[t].level && (m0[t].level == Level::PML4T
                    ==> m1[t].entries[511] == m0[t].entries[511]) by {
                    if t != table {
                        assert(m1[t] == m0[t]);
                    }
                }
                assert forall|root: u64, v: u64|
                    enters(m0, root, 4, v) && spec_is_valid_address(v) && !(root == top && v
                        / PAGE_SIZE == page.number) implies #[trigger] walk(
                    spec_write(m0, table, index as int, PageEntry(0)),
                    root,
                    4,
                    v,
                ) == walk(m0, root, 4, v) by {
                    lemma_walk_leaf(m0, table, index as int, PageEntry(0), root, 4, v);
                    if pt_of(m0, root, 4, v) == Some(table) && spec_index(v, 1) == index {
                        lemma_path_unique(m0, root, top, 4, v, vaddr);
                        lemma_same_indices_same_page(v, vaddr);
                        assert(false);
                    }
                }
            }
        }
        machine.memory.write(table, index, PageEntry(0));
        machine.tlb_flush(vaddr);
        proof {
            let m1 = machine.memory@;
            assert(table != top);
            assert(m1[top] == m0[top]);
            assert(m1[machine.active()].entries[511] == m0[machine.active()].entries[511]);
        }
    }
}

/// The leaf entry that `map_to` writes for a frame and flags.
pub open spec fn leaf_entry(frame: u64, flags: u64) -> PageEntry {
    PageEntry::spec_new(Frame { number: frame }, EntryFlags { bits: flags | PRESENT })
}

/// The first address of page `p`.
pub open spec fn page_va(p: int) -> u64 {
    (p * PAGE_SIZE) as u64
}

/// Page `p` can be walked for: its start is an address that the hardware can
/// translate, and it lies outside the window of the recursive mapping.
pub open spec fn page_ok(p: int) -> bool {
    &&& 0 <= p <= super::frame::MAX_FRAME_NUMBER
    &&& spec_is_valid_address(page_va(p))
    &&& spec_index(page_va(p), 4) != 511
}

/// Every page from `lo` up to, not including, `hi` can be walked for.
#[verifier::opaque]
pub open spec fn pages_ok(lo: int, hi: int) -> bool {
    forall|p: int| lo <= p < hi ==> #[trigger] page_ok(p)
}

/// What memory `b` has kept of memory `a`: every table of `a` is there, with
/// its level, and every top table has kept its last entry; and but for the
/// pages from `lo` up to `hi` of the address space of `top`, every address
/// that the hardware can translate is mapped as before, in every address
/// space, and can be mapped if it could be before.
#[verifier::opaque]
pub open spec fn preserves_outside(a: MemView, b: MemView, top: u64, lo: int, hi: int) -> bool {
    &&& forall|t: u64| #[trigger]
        a.contains_key(t) ==> b.contains_key(t) && b[t].level == a[t].level && (a[t].level
            == Level::PML4T ==> b[t].entries[511] == a[t].entries[511])
    &&& forall|t: u64| #[trigger]
        b.contains_key(t) && !a.contains_key(t) && b[t].level == Level::PML4T ==> recursive(b, t)
    &&& forall|root: u64, v: u64|
        enters(a, root, 4, v) && spec_is_valid_address(v) && !(root == top && lo <= v / PAGE_SIZE
            < hi) ==> #[trigger] walk(b, root, 4, v) == walk(a, root, 4, v)
    &&& forall|root: u64, v: u64|
        enters(a, root, 4, v) && spec_is_valid_address(v) && !(root == top && lo <= v / PAGE_SIZE
            < hi) ==> #[trigger] mappable(b, root, 4, v) == mappable(a, root, 4, v)
}

/// Each page from `lo` up to `hi` can be mapped in the address space of `top`
/// without writing over anything.
#[verifier::opaque]
pub open spec fn mappable_range(m: MemView, top: u64, lo: int, hi: int) -> bool {
    forall|p: int| lo <= p < hi ==> #[trigger] mappable(m, top, 4, page_va(p))
}

/// Each page from `lo` up to `hi` is mapped, by an entry of the last level,
/// to the frame as far from `first` as the page is from `lo`, with `flags`
/// and `PRESENT`.
#[verifier::opaque]
pub open spec fn mapped_range_to(m: MemView, top: u64, lo: int, hi: int, first: int, flags: u64) -> bool {
    forall|p: int|
        lo <= p < hi ==> #[trigger] walk(m, top, 4, page_va(p)) == Some(
            (leaf_entry((first + p - lo) as u64, flags), 1int),
        )
}

/// Each page from `lo` up to `hi` is mapped, by a present entry of the last
/// level with `flags` and `PRESENT`.
#[verifier::opaque]
pub open spec fn mapped_range(m: MemView, top: u64, lo: int, hi: int, flags: u64) -> bool {
    forall|p: int|
        lo <= p < hi ==> ({
            let w = #[trigger] walk(m, top, 4, page_va(p));
            &&& w.is_some()
            &&& w.unwrap().1 == 1
            &&& w.unwrap().0.is_present()
            &&& w.unwrap().0.spec_flags().bits == flags | PRESENT
        })
}

/// The first address of a page has the offset 0.
pub proof fn lemma_aligned_offset(v: u64)
    requires
        v % 4096 == 0,
    ensures
        v & 0xfff == 0,
        spec_offset(v) == 0,
{
    assert(v & 0xfff == 0) by (bit_vector)
        requires
            v % 4096 == 0,
    ;
}

/// The page of a page's first address is that page.
pub proof fn lemma_page_va(p: int)
    requires
        0 <= p <= super::frame::MAX_FRAME_NUMBER,
    ensures
        page_va(p) == p * PAGE_SIZE,
        page_va(p) / PAGE_SIZE == p,
        page_va(p) % PAGE_SIZE == 0,
{
}

/// Nothing changed is kept whole.
pub proof fn lemma_preserves_refl(a: MemView, top: u64, lo: int)
    ensures
        preserves_outside(a, a, top, lo, lo),
{
    reveal(preserves_outside);
}

/// What is kept outside a range is kept outside a wider one.
pub proof fn lemma_preserves_widen(a: MemView, b: MemView, top: u64, lo: int, hi: int, lo2: int, hi2: int)
    requires
        preserves_outside(a, b, top, lo, hi),
        lo2 <= lo,
        hi <= hi2,
    ensures
        preserves_outside(a, b, top, lo2, hi2),
{
    reveal(preserves_outside);
}

/// Two steps that each keep what lies outside a range keep what lies outside both.
pub proof fn lemma_preserves_trans(a: MemView, b: MemView, c: MemView, top: u64, lo: int, hi: int)
    requires
        preserves_outside(a, b, top, lo, hi),
        preserves_outside(b, c, top, lo, hi),
    ensures
        preserves_outside(a, c, top, lo, hi),
{
    reveal(preserves_outside);
    assert forall|root: u64, v: u64|
        enters(a, root, 4, v) && spec_is_valid_address(v) && !(root == top && lo <= v / PAGE_SIZE
            < hi) implies #[trigger] walk(c, root, 4, v) == walk(a, root, 4, v) by {
        assert(a.contains_key(root));
        assert(enters(b, root, 4, v));
        assert(walk(b, root, 4, v) == walk(a, root, 4, v));
    }
    assert forall|root: u64, v: u64|
        enters(a, root, 4, v) && spec_is_valid_address(v) && !(root == top && lo <= v / PAGE_SIZE
            < hi) implies #[trigger] mappable(c, root, 4, v) == mappable(a, root, 4, v) by {
        assert(a.contains_key(root));
        assert(enters(b, root, 4, v));
        assert(mappable(b, root, 4, v) == mappable(a, root, 4, v));
    }
    assert forall|t: u64| #[trigger] a.contains_key(t) implies c.contains_key(t) && c[t].level
        == a[t].level && (a[t].level == Level::PML4T ==> c[t].entries[511] == a[t].entries[511]) by {
        assert(b.contains_key(t));
    }
}

/// Pages that can be mapped can still be mapped after a step that kept what
/// lies outside another range.
pub proof fn lemma_mappable_range_kept(a: MemView, b: MemView, top: u64, lo: int, hi: int, klo: int, khi: int)
    requires
        mappable_range(a, top, lo, hi),
        pages_ok(lo, hi),
        a.contains_key(top),
        a[top].level == Level::PML4T,
        preserves_outside(a, b, top, klo, khi),
        hi <= klo || khi <= lo,
    ensures
        mappable_range(b, top, lo, hi),
{
    reveal(preserves_outside);
    reveal(mappable_range);
    reveal(pages_ok);
    assert forall|p: int| lo <= p < hi implies #[trigger] mappable(b, top, 4, page_va(p)) by {
        assert(page_ok(p));
        lemma_page_va(p);
        assert(mappable(a, top, 4, page_va(p)));
        assert(enters(a, top, 4, page_va(p)));
    }
}

/// Pages that are mapped stay mapped through a step that kept what lies
/// outside another range.
pub proof fn lemma_mapped_range_to_kept(
    a: MemView,
    b: MemView,
    top: u64,
    lo: int,
    hi: int,
    first: int,
    flags: u64,
    klo: int,
    khi: int,
)
    requires
        mapped_range_to(a, top, lo, hi, first, flags),
        pages_ok(lo, hi),
        a.contains_key(top),
        a[top].level == Level::PML4T,
        preserves_outside(a, b, top, klo, khi),
        hi <= klo || khi <= lo,
    ensures
        mapped_range_to(b, top, lo, hi, first, flags),
{
    reveal(preserves_outside);
    reveal(mapped_range_to);
    reveal(pages_ok);
    assert forall|p: int| lo <= p < hi implies #[trigger] walk(b, top, 4, page_va(p)) == Some(
        (leaf_entry((first + p - lo) as u64, flags), 1int),
    ) by {
        assert(page_ok(p));
        lemma_page_va(p);
        assert(walk(a, top, 4, page_va(p)) == Some(
            (leaf_entry((first + p - lo) as u64, flags), 1int),
        ));
        assert(enters(a, top, 4, page_va(p)));
    }
}

/// The same for pages mapped to frames from the allocator.
pub proof fn lemma_mapped_range_kept(
    a: MemView,
    b: MemView,
    top: u64,
    lo: int,
    hi: int,
    flags: u64,
    klo: int,
    khi: int,
)
    requires
        mapped_range(a, top, lo, hi, flags),
        pages_ok(lo, hi),
        a.contains_key(top),
        a[top].level == Level::PML4T,
        preserves_outside(a, b, top, klo, khi),
        hi <= klo || khi <= lo,
    ensures
        mapped_range(b, top, lo, hi, flags),
{
    reveal(preserves_outside);
    reveal(mapped_range);
    reveal(pages_ok);
    assert forall|p: int| lo <= p < hi implies ({
        let w = #[trigger] walk(b, top, 4, page_va(p));
        &&& w.is_some()
        &&& w.unwrap().1 == 1
        &&& w.unwrap().0.is_present()
        &&& w.unwrap().0.spec_flags().bits == flags | PRESENT
    }) by {
        assert(page_ok(p));
        lemma_page_va(p);
        let w = walk(a, top, 4, page_va(p));
        assert(w.is_some());
        assert(enters(a, top, 4, page_va(p)));
    }
}

/// A mapped range grows by the page after it.
pub proof fn lemma_mapped_range_to_push(m: MemView, top: u64, lo: int, hi: int, first: int, flags: u64)
    requires
        mapped_range_to(m, top, lo, hi, first, flags),
        walk(m, top, 4, page_va(hi)) == Some((leaf_entry((first + hi - lo) as u64, flags), 1int)),
    ensures
        mapped_range_to(m, top, lo, hi + 1, first, flags),
{
    reveal(mapped_range_to);
}

pub proof fn lemma_mapped_range_push(m: MemView, top: u64, lo: int, hi: int, flags: u64, e: PageEntry)
    requires
        mapped_range(m, top, lo, hi, flags),
        walk(m, top, 4, page_va(hi)) == Some((e, 1int)),
        e.is_present(),
        e.spec_flags().bits == flags | PRESENT,
    ensures
        mapped_range(m, top, lo, hi + 1, flags),
{
    reveal(mapped_range);
}

/// A range of pages that can be mapped, less its first page.
pub proof fn lemma_mappable_range_split(m: MemView, top: u64, lo: int, mid: int, hi: int)
    requires
        mappable_range(m, top, lo, hi),
        lo <= mid <= hi,
    ensures
        mappable_range(m, top, lo, mid),
        mappable_range(m, top, mid, hi),
        lo < hi ==> mappable(m, top, 4, page_va(lo)),
{
    reveal(mappable_range);
}

pub proof fn lemma_pages_ok_split(lo: int, mid: int, hi: int)
    requires
        pages_ok(lo, hi),
        lo <= mid <= hi,
    ensures
        pages_ok(lo, mid),
        pages_ok(mid, hi),
        lo < hi ==> page_ok(lo),
{
    reveal(pages_ok);
}

/// What memory `b` has kept of memory `a` where top tables may have changed
/// their last entry: every table of `a` is there, with its level; and but for
/// the pages from `lo` up to `hi` of the address space of `top`, every
/// address that the hardware can translate is mapped as before, in every
/// address space, and can be mapped if it could be before.
#[verifier::opaque]
pub open spec fn walks_kept(a: MemView, b: MemView, top: u64, lo: int, hi: int) -> bool {
    &&& forall|t: u64| #[trigger]
        a.contains_key(t) ==> b.contains_key(t) && b[t].level == a[t].level
    &&& forall|root: u64, v: u64|
        enters(a, root, 4, v) && spec_is_valid_address(v) && !(root == top && lo <= v / PAGE_SIZE
            < hi) ==> #[trigger] walk(b, root, 4, v) == walk(a, root, 4, v)
    &&& forall|root: u64, v: u64|
        enters(a, root, 4, v) && spec_is_valid_address(v) && !(root == top && lo <= v / PAGE_SIZE
            < hi) ==> #[trigger] mappable(b, root, 4, v) == mappable(a, root, 4, v)
}

/// The two entries refer to the same table, or neither refers to one.
pub open spec fn same_target(e1: PageEntry, e2: PageEntry) -> bool {
    e1.is_table_pointer() == e2.is_table_pointer() && e1.frame_number() == e2.frame_number()
}

/// Every top table refers to itself in its last entry.
pub open spec fn every_top_recursive(m: MemView) -> bool {
    forall|t: u64| #[trigger] m.contains_key(t) && m[t].level == Level::PML4T ==> recursive(m, t)
}

/// What memory `b` has kept of the top tables of memory `a`: every table
/// of `a` is there, with its level; every top table of `a`, but for the
/// one that `x` names, refers in its last entry to what it referred to;
/// and every top table that is new refers to itself.
#[verifier::opaque]
pub open spec fn tops_kept_but(a: MemView, b: MemView, x: Option<u64>) -> bool {
    &&& forall|t: u64| #[trigger]
        a.contains_key(t) ==> b.contains_key(t) && b[t].level == a[t].level && (a[t].level
            == Level::PML4T && x != Some(t) ==> same_target(b[t].entries[511], a[t].entries[511]))
    &&& forall|t: u64| #[trigger]
        b.contains_key(t) && !a.contains_key(t) && b[t].level == Level::PML4T ==> recursive(b, t)
}

/// What memory `b` has kept of the top tables of memory `a`: every top
/// table refers in its last entry to what it referred to, and every new
/// one to itself.
pub open spec fn tops_kept(a: MemView, b: MemView) -> bool {
    tops_kept_but(a, b, None)
}

pub proof fn lemma_tops_kept_refl(a: MemView)
    ensures
        tops_kept(a, a),
{
    reveal(tops_kept_but);
}

/// What holds of every top table holds of every top table but one.
pub proof fn lemma_tops_kept_widen(a: MemView, b: MemView, x: u64)
    requires
        tops_kept(a, b),
    ensures
        tops_kept_but(a, b, Some(x)),
{
    reveal(tops_kept_but);
}

/// What holds of every top table but `x` holds of every top table where
/// `x` refers to what it referred to.
pub proof fn lemma_tops_kept_close(a: MemView, b: MemView, x: u64)
    requires
        tops_kept_but(a, b, Some(x)),
        a.contains_key(x) && a[x].level == Level::PML4T ==> same_target(b[x].entries[511], a[x].entries[511]),
    ensures
        tops_kept(a, b),
{
    reveal(tops_kept_but);
}

/// Keeping the top tables but one goes on from change to change, as long
/// as that one was there from the start.
pub proof fn lemma_tops_kept_trans(a: MemView, b: MemView, c: MemView, x: Option<u64>)
    requires
        tops_kept_but(a, b, x),
        tops_kept_but(b, c, x),
        match x {
            Some(t) => a.contains_key(t),
            None => true,
        },
    ensures
        tops_kept_but(a, c, x),
{
    reveal(tops_kept_but);
    assert forall|t: u64| #[trigger]
        c.contains_key(t) && !a.contains_key(t) && c[t].level == Level::PML4T implies recursive(c, t) by {
        if b.contains_key(t) {
            assert(recursive(b, t));
        }
    }
}

/// Writing an entry of a table that is no top table keeps the top tables.
pub proof fn lemma_tops_kept_write_low(m: MemView, t: u64, i: int, e: PageEntry)
    requires
        m.contains_key(t),
        m[t].level != Level::PML4T,
    ensures
        tops_kept(m, spec_write(m, t, i, e)),
{
    reveal(tops_kept_but);
    let b = spec_write(m, t, i, e);
    assert forall|x: u64| #[trigger] m.contains_key(x) implies b.contains_key(x) && b[x].level == m[x].level
        && (m[x].level == Level::PML4T ==> same_target(b[x].entries[511], m[x].entries[511])) by {
        if x != t {
            assert(b[x] == m[x]);
        }
    }
}

/// Memory that has kept everything outside some pages has kept its top tables.
pub proof fn lemma_tops_kept_from_preserves(a: MemView, b: MemView, top: u64, lo: int, hi: int)
    requires
        preserves_outside(a, b, top, lo, hi),
    ensures
        tops_kept(a, b),
{
    reveal(preserves_outside);
    reveal(tops_kept_but);
}

/// Where every top table referred to itself, every top table still does
/// once memory has changed and kept its top tables.
pub proof fn lemma_every_top_recursive(a: MemView, b: MemView)
    requires
        every_top_recursive(a),
        tops_kept(a, b),
    ensures
        every_top_recursive(b),
{
    reveal(tops_kept_but);
    assert forall|t: u64| #[trigger] b.contains_key(t) && b[t].level == Level::PML4T implies recursive(
        b,
        t,
    ) by {
        if a.contains_key(t) {
            assert(recursive(a, t));
        }
    }
}

/// One more than the greatest page number.
pub open spec fn all_pages() -> int {
    super::frame::MAX_FRAME_NUMBER + 1
}

pub proof fn lemma_walks_kept_from_preserves(a: MemView, b: MemView, top: u64, lo: int, hi: int)
    requires
        preserves_outside(a, b, top, lo, hi),
    ensures
        walks_kept(a, b, top, lo, hi),
{
    reveal(preserves_outside);
    reveal(walks_kept);
}

pub proof fn lemma_walks_kept_refl(a: MemView, top: u64, lo: int)
    ensures
        walks_kept(a, a, top, lo, lo),
{
    reveal(walks_kept);
}

pub proof fn lemma_walks_kept_widen(a: MemView, b: MemView, top: u64, lo: int, hi: int, lo2: int, hi2: int)
    requires
        walks_kept(a, b, top, lo, hi),
        lo2 <= lo,
        hi <= hi2,
    ensures
        walks_kept(a, b, top, lo2, hi2),
{
    reveal(walks_kept);
}

pub proof fn lemma_walks_kept_trans(a: MemView, b: MemView, c: MemView, top: u64, lo: int, hi: int)
    requires
        walks_kept(a, b, top, lo, hi),
        walks_kept(b, c, top, lo, hi),
    ensures
        walks_kept(a, c, top, lo, hi),
{
    reveal(walks_kept);
    assert forall|root: u64, v: u64|
        enters(a, root, 4, v) && spec_is_valid_address(v) && !(root == top && lo <= v / PAGE_SIZE
            < hi) implies #[trigger] walk(c, root, 4, v) == walk(a, root, 4, v) by {
        assert(a.contains_key(root));
        assert(enters(b, root, 4, v));
        assert(walk(b, root, 4, v) == walk(a, root, 4, v));
    }
    assert forall|root: u64, v: u64|
        enters(a, root, 4, v) && spec_is_valid_address(v) && !(root == top && lo <= v / PAGE_SIZE
            < hi) implies #[trigger] mappable(c, root, 4, v) == mappable(a, root, 4, v) by {
        assert(a.contains_key(root));
        assert(enters(b, root, 4, v));
        assert(mappable(b, root, 4, v) == mappable(a, root, 4, v));
    }
    assert forall|t: u64| #[trigger] a.contains_key(t) implies c.contains_key(t) && c[t].level
        == a[t].level by {
        assert(b.contains_key(t));
    }
}

/// Where everything but one page was kept, and the page is mapped and can be
/// mapped as before, everything was kept.
pub proof fn lemma_walks_kept_close(a: MemView, b: MemView, top: u64, p: int)
    requires
        walks_kept(a, b, top, p, p + 1),
        0 <= p <= super::frame::MAX_FRAME_NUMBER,
        walk(b, top, 4, page_va(p)) == walk(a, top, 4, page_va(p)),
        mappable(b, top, 4, page_va(p)) == mappable(a, top, 4, page_va(p)),
    ensures
        walks_kept(a, b, top, p, p),
{
    reveal(walks_kept);
    lemma_page_va(p);
    assert forall|root: u64, v: u64|
        enters(a, root, 4, v) && spec_is_valid_address(v) && !(root == top && p <= v / PAGE_SIZE
            < p) implies #[trigger] walk(b, root, 4, v) == walk(a, root, 4, v) by {
        if root == top && v / PAGE_SIZE == p {
            lemma_walk_same_page(a, top, 4, v, page_va(p));
            lemma_walk_same_page(b, top, 4, v, page_va(p));
        }
    }
    assert forall|root: u64, v: u64|
        enters(a, root, 4, v) && spec_is_valid_address(v) && !(root == top && p <= v / PAGE_SIZE
            < p) implies #[trigger] mappable(b, root, 4, v) == mappable(a, root, 4, v) by {
        if root == top && v / PAGE_SIZE == p {
            lemma_mappable_same_page(a, top, 4, v, page_va(p));
            lemma_mappable_same_page(b, top, 4, v, page_va(p));
        }
    }
}

/// Steps in two address spaces: what the first kept outside one page of
/// `t1` and the second kept outside `t2` altogether, both kept outside that
/// page of `t1` for every address space but `t2`.
pub proof fn lemma_walks_kept_other(a: MemView, b: MemView, top: u64, lo: int, hi: int, root: u64, v: u64)
    requires
        walks_kept(a, b, top, lo, hi),
        enters(a, root, 4, v),
        spec_is_valid_address(v),
        !(root == top && lo <= v / PAGE_SIZE < hi),
    ensures
        walk(b, root, 4, v) == walk(a, root, 4, v),
        mappable(b, root, 4, v) == mappable(a, root, 4, v),
        enters(b, root, 4, v),
{
    reveal(walks_kept);
    assert(a.contains_key(root));
}

/// Every table of `a` is in `b`, with its level.
pub proof fn lemma_walks_kept_tables(a: MemView, b: MemView, top: u64, lo: int, hi: int, t: u64)
    requires
        walks_kept(a, b, top, lo, hi),
        a.contains_key(t),
    ensures
        b.contains_key(t),
        b[t].level == a[t].level,
{
    reveal(walks_kept);
}

/// Every table of `a` is in `b`, with its level, and a top table with its last entry.
pub proof fn lemma_preserves_tables(a: MemView, b: MemView, top: u64, lo: int, hi: int, t: u64)
    requires
        preserves_outside(a, b, top, lo, hi),
        a.contains_key(t),
    ensures
        b.contains_key(t),
        b[t].level == a[t].level,
        a[t].level == Level::PML4T ==> b[t].entries[511] == a[t].entries[511],
{
    reveal(preserves_outside);
}

/// In the address space of `root` every page outside the window of the
/// recursive mapping can be mapped, so none is mapped.
#[verifier::opaque]
pub open spec fn empty_space(m: MemView, root: u64) -> bool {
    forall|v: u64|
        spec_is_valid_address(v) && spec_index(v, 4) != 511 ==> #[trigger] mappable(m, root, 4, v)
}

/// In an empty address space every range of pages can be mapped.
pub proof fn lemma_empty_space_range(m: MemView, root: u64, lo: int, hi: int)
    requires
        empty_space(m, root),
        pages_ok(lo, hi),
    ensures
        mappable_range(m, root, lo, hi),
{
    reveal(empty_space);
    reveal(pages_ok);
    reveal(mappable_range);
    assert forall|p: int| lo <= p < hi implies #[trigger] mappable(m, root, 4, page_va(p)) by {
        assert(page_ok(p));
    }
}

/// An address space stays empty through steps in another.
pub proof fn lemma_empty_space_kept(a: MemView, b: MemView, root: u64, top: u64, lo: int, hi: int)
    requires
        empty_space(a, root),
        walks_kept(a, b, top, lo, hi),
        root != top,
        a.contains_key(root),
        a[root].level == Level::PML4T,
    ensures
        empty_space(b, root),
{
    reveal(empty_space);
    reveal(walks_kept);
    assert forall|v: u64| spec_is_valid_address(v) && spec_index(v, 4) != 511 implies #[trigger] mappable(
        b,
        root,
        4,
        v,
    ) by {
        assert(mappable(a, root, 4, v));
        assert(enters(a, root, 4, v));
    }
}

/// The memory after frame `f` got an empty top table whose last entry is `e`.
pub open spec fn spec_new_top(m: MemView, f: u64, e: PageEntry) -> MemView {
    spec_write(m.insert(f, zero_table(Level::PML4T)), f, 511, e)
}

/// A new top table that refers to itself in its last entry is an empty
/// address space, and changes nothing in any other.
pub proof fn lemma_new_top(m: MemView, f: u64, e: PageEntry, top: u64)
    requires
        mem_wf(m),
        !m.contains_key(f),
        e.is_table_pointer(),
        e.frame_number() == f,
    ensures
        mem_wf(spec_new_top(m, f, e)),
        recursive(spec_new_top(m, f, e), f),
        empty_space(spec_new_top(m, f, e), f),
        preserves_outside(m, spec_new_top(m, f, e), top, 0, 0),
        forall|t: u64| m.contains_key(t) ==> #[trigger] spec_new_top(m, f, e)[t] == m[t],
{
    reveal(empty_space);
    reveal(preserves_outside);
    let zt = zero_table(Level::PML4T);
    let m1 = m.insert(f, zt);
    let m2 = spec_write(m1, f, 511, e);
    lemma_zero_entry();
    lemma_wf_insert(m, f, zt);
    lemma_wf_recursive(m1, f, e);
    assert forall|root: u64, v: u64| enters(m, root, 4, v) implies #[trigger] walk(m2, root, 4, v)
        == walk(m, root, 4, v) && mappable(m2, root, 4, v) == mappable(m, root, 4, v) by {
        lemma_walk_insert(m, f, zt, root, 4, v);
        lemma_mappable_insert(m, f, zt, root, 4, v);
        assert(enters(m1, root, 4, v));
        lemma_walk_recursive(m1, f, e, root, 4, v);
        lemma_mappable_recursive(m1, f, e, root, 4, v);
    }
    assert forall|root: u64, v: u64| enters(m, root, 4, v) implies #[trigger] mappable(m2, root, 4, v)
        == mappable(m, root, 4, v) by {
        assert(walk(m2, root, 4, v) == walk(m, root, 4, v));
    }
    assert forall|v: u64| spec_is_valid_address(v) && spec_index(v, 4) != 511 implies #[trigger] mappable(
        m2,
        f,
        4,
        v,
    ) by {
        lemma_spec_index_range(v, 4);
        assert(m2[f].entries[spec_index(v, 4)] == PageEntry(0));
    }
}

/// What mapping the `n` pages from page `p0` to the `n` frames from frame
/// `f0`, in rising order, does to memory and allocator. The first page that
/// fails ends it.
pub open spec fn spec_map_range_to(
    m: MemView,
    st: ProxyState,
    top: u64,
    p0: int,
    f0: int,
    n: nat,
    flags: u64,
) -> MapStep
    decreases n,
{
    if n == 0 {
        MapStep { err: None, mem: m, frames: st }
    } else {
        let s = spec_map_to(m, st, top, page_va(p0), leaf_entry(f0 as u64, flags));
        if s.err.is_some() {
            s
        } else {
            spec_map_range_to(s.mem, s.frames, top, p0 + 1, f0 + 1, (n - 1) as nat, flags)
        }
    }
}

/// What mapping the `n` pages from page `p0`, each to a frame from the
/// allocator, does to memory and allocator.
pub open spec fn spec_map_range(m: MemView, st: ProxyState, top: u64, p0: int, n: nat, flags: u64) -> MapStep
    decreases n,
{
    if n == 0 {
        MapStep { err: None, mem: m, frames: st }
    } else {
        let s = spec_map(m, st, top, page_va(p0), flags);
        if s.err.is_some() {
            s
        } else {
            spec_map_range(s.mem, s.frames, top, p0 + 1, (n - 1) as nat, flags)
        }
    }
}

impl Mapper {
    /// Maps `count` pages from `start` to the `count` frames from `first`,
    /// page by page in rising order, and stops at the first page that fails.
    pub fn map_range_to(
        &mut self,
        machine: &mut Machine,
        start: Page,
        first: Frame,
        count: u64,
        flags: EntryFlags,
    ) -> (r: Result<(), MapError>)
        requires
            old(machine).wf(),
            flags.valid(),
            first.number + count <= 0x100_0000_0000,
            pages_ok(start.number as int, start.number + count),
            mappable_range(
                old(machine).memory@,
                old(machine).top(),
                start.number as int,
                start.number + count,
            ),
        ensures
            tops_kept(old(machine).memory@, final(machine).memory@),
            final(machine).wf(),
            final(machine).cr3 == old(machine).cr3,
            final(machine).tlb == old(machine).tlb,
            final(machine).top() == old(machine).top(),
            final(machine).frames.initial == old(machine).frames.initial,
            ({
                let s = spec_map_range_to(
                    old(machine).memory@,
                    old(machine).frames@,
                    old(machine).top(),
                    start.number as int,
                    first.number as int,
                    count as nat,
                    flags.bits,
                );
                &&& final(machine).memory@ == s.mem
                &&& final(machine).frames@ == s.frames
                &&& match s.err {
                    None => r.is_ok(),
                    Some(e) => r == Err::<(), MapError>(e),
                }
            }),
            r.is_ok() ==> mapped_range_to(
                final(machine).memory@,
                old(machine).top(),
                start.number as int,
                start.number + count,
                first.number as int,
                flags.bits,
            ),
            preserves_outside(
                old(machine).memory@,
                final(machine).memory@,
                old(machine).top(),
                start.number as int,
                start.number + count,
            ),
    {
        let ghost m0 = machine.memory@;
        let ghost st0 = machine.frames@;
        let ghost top = machine.top();
        let ghost lo = start.number as int;
        let ghost hi = start.number + count;
        let mut i: u64 = 0;
        proof {
            lemma_preserves_refl(m0, top, lo);
            lemma_preserves_widen(m0, m0, top, lo, lo, lo, hi);
            assert(mapped_range_to(m0, top, lo, lo, first.number as int, flags.bits)) by {
                reveal(mapped_range_to);
            }
        }
        while i < count
            invariant
                i <= count,
                machine.wf(),
                flags.valid(),
                first.number + count <= 0x100_0000_0000,
                machine.cr3 == old(machine).cr3,
                machine.tlb == old(machine).tlb,
                machine.top() == top,
                top == old(machine).top(),
                m0 == old(machine).memory@,
                st0 == old(machine).frames@,
                machine.frames.initial == old(machine).frames.initial,
                lo == start.number,
                hi == start.number + count,
                pages_ok(lo, hi),
                mappable_range(machine.memory@, top, lo + i, hi),
                mapped_range_to(machine.memory@, top, lo, lo + i, first.number as int, flags.bits),
                preserves_outside(m0, machine.memory@, top, lo, hi),
                spec_map_range_to(
                    machine.memory@,
                    machine.frames@,
                    top,
                    lo + i,
                    first.number + i,
                    (count - i) as nat,
                    flags.bits,
                ) == spec_map_range_to(m0, st0, top, lo, first.number as int, count as nat, flags.bits),
            decreases count - i,
        {
            let ghost mi = machine.memory@;
            let ghost sti = machine.frames@;
            let ghost pi = lo + i;
            proof {
                lemma_pages_ok_split(lo, pi, hi);
                lemma_pages_ok_split(pi, pi + 1, hi);
                lemma_mappable_range_split(mi, top, pi, pi + 1, hi);
                lemma_page_va(pi);
                assert(enters(mi, top, 4, page_va(pi)));
                lemma_mappable(mi, top, 4, page_va(pi));
            }
            let page = Page { number: start.number + i };
            let frame = Frame { number: first.number + i };
            let r = self.map_to(machine, page, frame, flags);
            proof {
                let mj = machine.memory@;
                lemma_preserves_widen(
                    mi,
                    mj,
                    top,
                    pi,
                    if r.is_ok() {
                        pi + 1
                    } else {
                        pi
                    },
                    lo,
                    hi,
                );
                lemma_preserves_trans(m0, mi, mj, top, lo, hi);
            }
            match r {
                Err(e) => {
                    proof {
                        lemma_tops_kept_from_preserves(m0, machine.memory@, top, lo, hi);
                    }
                    return Err(e);
                },
                Ok(()) => {},
            }
            proof {
                let mj = machine.memory@;
                lemma_mappable_range_kept(mi, mj, top, pi + 1, hi, pi, pi + 1);
                lemma_pages_ok_split(lo, pi, hi);
                lemma_mapped_range_to_kept(
                    mi,
                    mj,
                    top,
                    lo,
                    pi,
                    first.number as int,
                    flags.bits,
                    pi,
                    pi + 1,
                );
                lemma_mapped_range_to_push(mj, top, lo, pi, first.number as int, flags.bits);
            }
            i += 1;
        }
        proof {
            lemma_tops_kept_from_preserves(m0, machine.memory@, top, lo, hi);
        }
        Ok(())
    }

    /// Maps `count` pages from `start`, each to a frame from the allocator,
    /// page by page in rising order, and stops at the first page that fails.
    pub fn map_range(&mut self, machine: &mut Machine, start: Page, count: u64, flags: EntryFlags) -> (r:
        Result<(), MapError>)
        requires
            old(machine).wf(),
            flags.valid(),
            pages_ok(start.number as int, start.number + count),
            mappable_range(
                old(machine).memory@,
                old(machine).top(),
                start.number as int,
                start.number + count,
            ),
        ensures
            tops_kept(old(machine).memory@, final(machine).memory@),
            final(machine).wf(),
            final(machine).cr3 == old(machine).cr3,
            final(machine).tlb == old(machine).tlb,
            final(machine).top() == old(machine).top(),
            final(machine).frames.initial == old(machine).frames.initial,
            ({
                let s = spec_map_range(
                    old(machine).memory@,
                    old(machine).frames@,
                    old(machine).top(),
                    start.number as int,
                    count as nat,
                    flags.bits,
                );
                &&& final(machine).memory@ == s.mem
                &&& final(machine).frames@ == s.frames
                &&& match s.err {
                    None => r.is_ok(),
                    Some(e) => r == Err::<(), MapError>(e),
                }
            }),
            r.is_ok() ==> mapped_range(
                final(machine).memory@,
                old(machine).top(),
                start.number as int,
                start.number + count,
                flags.bits,
            ),
            preserves_outside(
                old(machine).memory@,
                final(machine).memory@,
                old(machine).top(),
                start.number as int,
                start.number + count,
            ),
    {
        let ghost m0 = machine.memory@;
        let ghost st0 = machine.frames@;
        let ghost top = machine.top();
        let ghost lo = start.number as int;
        let ghost hi = start.number + count;
        let mut i: u64 = 0;
        proof {
            lemma_preserves_refl(m0, top, lo);
            lemma_preserves_widen(m0, m0, top, lo, lo, lo, hi);
            assert(mapped_range(m0, top, lo, lo, flags.bits)) by {
                reveal(mapped_range);
            }
        }
        while i < count
            invariant
                i <= count,
                machine.wf(),
                flags.valid(),
                machine.cr3 == old(machine).cr3,
                machine.tlb == old(machine).tlb,
                machine.top() == top,
                top == old(machine).top(),
                m0 == old(machine).memory@,
                st0 == old(machine).frames@,
                machine.frames.initial == old(machine).frames.initial,
                lo == start.number,
                hi == start.number + count,
                pages_ok(lo, hi),
                mappable_range(machine.memory@, top, lo + i, hi),
                mapped_range(machine.memory@, top, lo, lo + i, flags.bits),
                preserves_outside(m0, machine.memory@, top, lo, hi),
                spec_map_range(
                    machine.memory@,
                    machine.frames@,
                    top,
                    lo + i,
                    (count - i) as nat,
                    flags.bits,
                ) == spec_map_range(m0, st0, top, lo, count as nat, flags.bits),
            decreases count - i,
        {
            let ghost mi = machine.memory@;
            let ghost sti = machine.frames@;
            let ghost pi = lo + i;
            proof {
                lemma_pages_ok_split(lo, pi, hi);
                lemma_pages_ok_split(pi, pi + 1, hi);
                lemma_mappable_range_split(mi, top, pi, pi + 1, hi);
                lemma_page_va(pi);
                assert(enters(mi, top, 4, page_va(pi)));
                lemma_mappable(mi, top, 4, page_va(pi));
            }
            let page = Page { number: start.number + i };
            let r = self.map(machine, page, flags);
            proof {
                let mj = machine.memory@;
                lemma_preserves_widen(
                    mi,
                    mj,
                    top,
                    pi,
                    if r.is_ok() {
                        pi + 1
                    } else {
                        pi
                    },
                    lo,
                    hi,
                );
                lemma_preserves_trans(m0, mi, mj, top, lo, hi);
            }
            let frame = match r {
                Err(e) => {
                    proof {
                        lemma_tops_kept_from_preserves(m0, machine.memory@, top, lo, hi);
                    }
                    return Err(e);
                },
                Ok(f) => f,
            };
            proof {
                let mj = machine.memory@;
                let b = flags.bits;
                super::paging::lemma_flag_bits(b, 0);
                super::paging::lemma_entry_compose(frame.number, b | PRESENT);
                lemma_mappable_range_kept(mi, mj, top, pi + 1, hi, pi, pi + 1);
                lemma_pages_ok_split(lo, pi, hi);
                lemma_mapped_range_kept(mi, mj, top, lo, pi, flags.bits, pi, pi + 1);
                lemma_mapped_range_push(mj, top, lo, pi, flags.bits, leaf_entry(frame.number, b));
            }
            i += 1;
        }
        proof {
            lemma_tops_kept_from_preserves(m0, machine.memory@, top, lo, hi);
        }
        Ok(())
    }
}

/// Whether `vaddr` can be mapped, in the address space whose top table is in
/// frame `root`, without writing over anything.
pub fn mappable_from(memory: &PhysicalMemory, root: u64, vaddr: u64) -> (r: bool)
    requires
        memory.shape(),
    ensures
        r == mappable(memory@, root, 4, vaddr),
{
    proof {
        reveal_with_fuel(mappable, 5);
        super::paging::lemma_flag_bits(0, 0);
    }
    let e4 = match memory.read(root, pml4t_index(vaddr)) {
        None => {
            return false;
        },
        Some(e) => e,
    };
    let f4 = e4.flags();
    if !f4.contains(PRESENT) {
        return true;
    }
    if f4.contains(HUGE_PAGE) {
        return false;
    }
    let t3 = match e4.pointed_frame() {
        None => {
            return false;
        },
        Some(f) => f.number,
    };
    let e3 = match memory.read(t3, pdpt_index(vaddr)) {
        None => {
            return false;
        },
        Some(e) => e,
    };
    let f3 = e3.flags();
    if !f3.contains(PRESENT) {
        return true;
    }
    if f3.contains(HUGE_PAGE) {
        return false;
    }
    let t2 = match e3.pointed_frame() {
        None => {
            return false;
        },
        Some(f) => f.number,
    };
    let e2 = match memory.read(t2, pdt_index(vaddr)) {
        None => {
            return false;
        },
        Some(e) => e,
    };
    let f2 = e2.flags();
    if !f2.contains(PRESENT) {
        return true;
    }
    if f2.contains(HUGE_PAGE) {
        return false;
    }
    let t1 = match e2.pointed_frame() {
        None => {
            return false;
        },
        Some(f) => f.number,
    };
    match memory.read(t1, pt_index(vaddr)) {
        None => false,
        Some(e) => e.is_unused(),
    }
}

/// Whether page `p` can be walked for.
pub fn is_page_ok(p: u64) -> (r: bool)
    ensures
        r == page_ok(p as int),
{
    if p > super::frame::MAX_FRAME_NUMBER {
        return false;
    }
    let va = p * PAGE_SIZE;
    is_valid_address(va) && pml4t_index(va) != 511
}

/// Whether each of the `count` pages from `start` can be walked for and can
/// be mapped, in the address space whose top table is in frame `root`,
/// without writing over anything.
pub fn range_mappable(memory: &PhysicalMemory, root: u64, start: Page, count: u64) -> (r: bool)
    requires
        memory.shape(),
    ensures
        r == (start.number + count <= u64::MAX && pages_ok(
            start.number as int,
            start.number + count,
        ) && mappable_range(memory@, root, start.number as int, start.number + count)),
{
    if count > u64::MAX - start.number {
        return false;
    }
    let ghost lo = start.number as int;
    let ghost hi = start.number + count;
    proof {
        assert(pages_ok(lo, lo)) by {
            reveal(pages_ok);
        }
        assert(mappable_range(memory@, root, lo, lo)) by {
            reveal(mappable_range);
        }
    }
    let mut i: u64 = 0;
    while i < count
        invariant
            i <= count,
            lo == start.number,
            hi == start.number + count,
            hi <= u64::MAX,
            memory.shape(),
            pages_ok(lo, lo + i),
            mappable_range(memory@, root, lo, lo + i),
        decreases count - i,
    {
        let p = start.number + i;
        if !is_page_ok(p) {
            proof {
                if pages_ok(lo, hi) {
                    reveal(pages_ok);
                    assert(page_ok(p as int));
                }
            }
            return false;
        }
        if !mappable_from(memory, root, p * PAGE_SIZE) {
            proof {
                if mappable_range(memory@, root, lo, hi) {
                    reveal(mappable_range);
                    assert(mappable(memory@, root, 4, page_va(p as int)));
                }
            }
            return false;
        }
        proof {
            reveal(pages_ok);
            reveal(mappable_range);
        }
        i += 1;
    }
    true
}

impl Machine {
    /// What a load or store at `vaddr` finds. An address that the hardware
    /// cannot translate, one in the hole between the two halves of the
    /// address space, finds nothing, whatever the tables hold. Any other
    /// finds the cached translation of its page where there is one, else
    /// what the walk from the active top table finds, which is then cached.
    pub fn access(&mut self, vaddr: u64) -> (r: Option<u64>)
        requires
            old(self).memory.shape(),
        ensures
            final(self).memory == old(self).memory,
            final(self).cr3 == old(self).cr3,
            final(self).frames == old(self).frames,
            !spec_is_valid_address(vaddr) ==> r.is_none() && final(self).tlb@ == old(self).tlb@,
            spec_is_valid_address(vaddr) && old(self).tlb@.contains_key(vaddr / PAGE_SIZE) ==> final(self).tlb@ == old(self).tlb@ && r.is_some() && r.unwrap() as int == (old(self).tlb@[vaddr
                / PAGE_SIZE] * PAGE_SIZE + spec_offset(vaddr)) % 0x1_0000_0000_0000_0000,
            spec_is_valid_address(vaddr) && !old(self).tlb@.contains_key(vaddr / PAGE_SIZE) ==> match r {
                Some(a) => old(self).hw_translation(vaddr) == Some(a as int) && final(self).tlb@
                    == old(self).tlb@.insert(vaddr / PAGE_SIZE, a / PAGE_SIZE),
                None => old(self).hw_translation(vaddr).is_none() && final(self).tlb@ == old(self).tlb@,
            },
    {
        if !is_valid_address(vaddr) {
            return None;
        }
        let page = vaddr / PAGE_SIZE;
        let off = offset(vaddr);
        match self.tlb.get(&page) {
            Some(f) => {
                let base = (*f).wrapping_mul(PAGE_SIZE);
                Some(base.wrapping_add(off))
            },
            None => {
                let active = self.cr3 / PAGE_SIZE;
                match translate_from(&self.memory, active, vaddr) {
                    Some(a) => {
                        self.tlb.insert(page, a / PAGE_SIZE);
                        Some(a)
                    },
                    None => None,
                }
            },
        }
    }
}

/// In a 2 MiB huge page every offset is mapped to the same offset from the
/// page's physical start.
pub proof fn lemma_huge_page_2m(m: MemView, root: u64, base: u64, off: u64)
    requires
        base % 0x20_0000 == 0,
        off < 0x20_0000,
        base + off <= u64::MAX,
        m.contains_key(root),
        spec_next_table(m, root, spec_index(base, 4)).is_some(),
        spec_next_table(
            m,
            spec_next_table(m, root, spec_index(base, 4)).unwrap(),
            spec_index(base, 3),
        ).is_some(),
        ({
            let t3 = spec_next_table(m, root, spec_index(base, 4)).unwrap();
            let t2 = spec_next_table(m, t3, spec_index(base, 3)).unwrap();
            let e = m[t2].entries[spec_index(base, 2)];
            &&& m.contains_key(t2)
            &&& e.is_present()
            &&& e.is_huge()
            &&& e.frame_number() % 512 == 0
        }),
    ensures
        ({
            let t3 = spec_next_table(m, root, spec_index(base, 4)).unwrap();
            let t2 = spec_next_table(m, t3, spec_index(base, 3)).unwrap();
            let e = m[t2].entries[spec_index(base, 2)];
            spec_translate(m, root, (base + off) as u64) == Some(e.frame_number() * 4096 + off)
        }),
{
    reveal_with_fuel(walk, 5);
    let v = (base + off) as u64;
    assert(((v >> 39) & 0o777) == ((base >> 39) & 0o777) && ((v >> 30) & 0o777) == ((base >> 30)
        & 0o777) && ((v >> 21) & 0o777) == ((base >> 21) & 0o777) && ((v >> 12) & 0o777) * 4096 + (v
        & 0xfff) == off) by (bit_vector)
        requires
            base % 0x20_0000 == 0,
            off < 0x20_0000,
            v == base + off,
    ;
}

} // verus!
