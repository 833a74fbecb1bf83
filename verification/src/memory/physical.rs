//! The frames of physical memory that hold page tables, and what the
//! hardware's walk through them finds.
//!
//! A table is reached by the number of its frame. The walk for a virtual
//! address starts at a top table and follows one entry per level; the laws of
//! this file say which writes leave which walks alone.

use vstd::prelude::*;
use std::collections::HashMap;
use super::paging::{Level, PageEntry, Table, TableView, ENTRY_COUNT, spec_index, spec_offset,
    spec_is_valid_address, lemma_spec_index_range, lemma_zero_entry};

verus! {

broadcast use vstd::std_specs::hash::group_hash_axioms;

/// Tables by the number of the frame that holds them.
pub type MemView = Map<u64, TableView>;

/// A table with every entry unused.
pub open spec fn zero_table(level: Level) -> TableView {
    TableView { entries: Seq::new(512, |i: int| PageEntry(0)), level }
}

/// Whether every entry of the table is unused.
pub open spec fn is_zero_table(tv: TableView) -> bool {
    tv.entries.len() == 512 && forall|i: int| 0 <= i < 512 ==> tv.entries[i] == PageEntry(0)
}

/// The memory after entry `i` of table `t` was set to `e`.
pub open spec fn spec_write(m: MemView, t: u64, i: int, e: PageEntry) -> MemView {
    m.insert(t, TableView { entries: m[t].entries.update(i, e), level: m[t].level })
}

/// The entry that maps `va` and the level it stands at, for a walk that
/// enters table `t` at `level`: an entry of the last level, or one of a
/// level above that is marked huge.
pub open spec fn walk(m: MemView, t: u64, level: int, va: u64) -> Option<(PageEntry, int)>
    decreases level,
{
    if level < 1 || level > 4 || !m.contains_key(t) {
        None
    } else {
        let e = m[t].entries[spec_index(va, level)];
        if !e.is_present() {
            None
        } else if level == 1 {
            Some((e, 1))
        } else if e.is_huge() {
            if level == 4 {
                None
            } else {
                Some((e, level))
            }
        } else {
            walk(m, e.frame_number(), level - 1, va)
        }
    }
}

/// The table of the last level on the way of `va`, where all three entries
/// above it refer to tables.
pub open spec fn pt_of(m: MemView, t: u64, level: int, va: u64) -> Option<u64>
    decreases level,
{
    if level < 1 || level > 4 || !m.contains_key(t) {
        None
    } else if level == 1 {
        Some(t)
    } else {
        let e = m[t].entries[spec_index(va, level)];
        if e.is_table_pointer() {
            pt_of(m, e.frame_number(), level - 1, va)
        } else {
            None
        }
    }
}

/// The physical address that an entry found at `level` gives to `va`.
pub open spec fn leaf_address(e: PageEntry, level: int, va: u64) -> int {
    if level == 3 {
        (e.frame_number() + spec_index(va, 2) * 512 + spec_index(va, 1)) * 4096 + spec_offset(va)
    } else if level == 2 {
        (e.frame_number() + spec_index(va, 1)) * 4096 + spec_offset(va)
    } else {
        e.frame_number() * 4096 + spec_offset(va)
    }
}

/// The physical address of `va` in the address space whose top table is in
/// frame `root`, if it is mapped.
pub open spec fn spec_translate(m: MemView, root: u64, va: u64) -> Option<int> {
    match walk(m, root, 4, va) {
        Some((e, l)) => Some(leaf_address(e, l, va)),
        None => None,
    }
}

/// Entry `i` of table `t` refers to a table of the next level.
pub open spec fn is_pointer_slot(m: MemView, t: u64, i: int) -> bool {
    &&& m.contains_key(t)
    &&& 0 <= i < 512
    &&& m[t].level != Level::PT
    &&& m[t].entries[i].is_table_pointer()
}

/// The last entry of a top table: the one kept for the recursive mapping.
pub open spec fn is_recursive_slot(m: MemView, t: u64, i: int) -> bool {
    m[t].level == Level::PML4T && i == 511
}

/// An entry that refers to a table of the next level and is not a recursive one.
pub open spec fn is_tree_slot(m: MemView, t: u64, i: int) -> bool {
    is_pointer_slot(m, t, i) && !is_recursive_slot(m, t, i)
}

/// Entry `i` of table `t` maps a huge page, or would in a table above the last level.
pub open spec fn is_huge_slot(m: MemView, t: u64, i: int) -> bool {
    &&& m.contains_key(t)
    &&& 0 <= i < 512
    &&& m[t].level != Level::PT
    &&& m[t].entries[i].is_present()
    &&& m[t].entries[i].is_huge()
}

/// What a referring entry refers to is a table one level down; a recursive
/// entry refers to a top table.
pub open spec fn child_ok(m: MemView, t: u64, i: int) -> bool {
    let c = m[t].entries[i].frame_number();
    &&& m.contains_key(c)
    &&& if is_recursive_slot(m, t, i) {
        m[c].level == Level::PML4T
    } else {
        m[c].level.rank() == m[t].level.rank() - 1
    }
}

/// A huge page starts at a multiple of its size; top tables map none.
pub open spec fn huge_ok(m: MemView, t: u64, i: int) -> bool {
    let n = m[t].entries[i].frame_number();
    match m[t].level {
        Level::PML4T => false,
        Level::PDPT => n % 262144 == 0,
        Level::PDT => n % 512 == 0,
        Level::PT => true,
    }
}

pub open spec fn mem_shape(m: MemView) -> bool {
    forall|t: u64| m.contains_key(t) ==> (#[trigger] m[t]).entries.len() == 512
}

pub open spec fn mem_typed(m: MemView) -> bool {
    forall|t: u64, i: int| #[trigger] is_pointer_slot(m, t, i) ==> child_ok(m, t, i)
}

pub open spec fn mem_aligned(m: MemView) -> bool {
    forall|t: u64, i: int| #[trigger] is_huge_slot(m, t, i) ==> huge_ok(m, t, i)
}

/// No table is referred to twice, recursive entries aside.
pub open spec fn mem_injective(m: MemView) -> bool {
    forall|t1: u64, i1: int, t2: u64, i2: int|
        #[trigger] is_tree_slot(m, t1, i1) && #[trigger] is_tree_slot(m, t2, i2)
            && m[t1].entries[i1].frame_number() == m[t2].entries[i2].frame_number() ==> t1 == t2
            && i1 == i2
}

/// The tables form trees: each has 512 entries, each referring entry leads to
/// a table one level down that nothing else refers to, and huge pages are
/// aligned.
pub open spec fn mem_wf(m: MemView) -> bool {
    &&& mem_shape(m)
    &&& mem_typed(m)
    &&& mem_aligned(m)
    &&& mem_injective(m)
}

/// No entry of a tree refers to table `f`.
pub open spec fn unreferenced(m: MemView, f: u64) -> bool {
    forall|t: u64, i: int| #[trigger] is_tree_slot(m, t, i) ==> m[t].entries[i].frame_number() != f
}

/// A walk may enter table `t` at `level`: the table is of that level, and a
/// walk from the top does not go through the recursive entry.
pub open spec fn enters(m: MemView, t: u64, level: int, va: u64) -> bool {
    &&& m.contains_key(t)
    &&& 1 <= level <= 4
    &&& m[t].level.rank() == level
    &&& level == 4 ==> spec_index(va, 4) != 511
}

/// A walk that may enter a table may enter the table that the entry on its way refers to.
pub proof fn lemma_enters_child(m: MemView, t: u64, level: int, va: u64)
    requires
        mem_wf(m),
        enters(m, t, level, va),
        level >= 2,
        m[t].entries[spec_index(va, level)].is_table_pointer(),
    ensures
        enters(m, m[t].entries[spec_index(va, level)].frame_number(), level - 1, va),
        m[t].entries[spec_index(va, level)].frame_number() != t,
{
    lemma_spec_index_range(va, level);
    assert(is_pointer_slot(m, t, spec_index(va, level)));
}

/// A table that nothing refers to can be added without changing any walk.
pub proof fn lemma_walk_insert(m: MemView, f: u64, tv: TableView, t: u64, level: int, va: u64)
    requires
        mem_wf(m),
        !m.contains_key(f),
        enters(m, t, level, va),
    ensures
        walk(m.insert(f, tv), t, level, va) == walk(m, t, level, va),
        pt_of(m.insert(f, tv), t, level, va) == pt_of(m, t, level, va),
    decreases level,
{
    let m2 = m.insert(f, tv);
    let e = m[t].entries[spec_index(va, level)];
    if level >= 2 && e.is_table_pointer() {
        lemma_enters_child(m, t, level, va);
        lemma_walk_insert(m, f, tv, e.frame_number(), level - 1, va);
    }
}

/// Adding an empty table keeps the tables well formed, and nothing refers to it.
pub proof fn lemma_wf_insert(m: MemView, f: u64, tv: TableView)
    requires
        mem_wf(m),
        !m.contains_key(f),
        is_zero_table(tv),
    ensures
        mem_wf(m.insert(f, tv)),
        unreferenced(m.insert(f, tv), f),
{
    let m2 = m.insert(f, tv);
    lemma_zero_entry();
    assert forall|t: u64, i: int| #[trigger] is_pointer_slot(m2, t, i) implies child_ok(m2, t, i)
        && is_pointer_slot(m, t, i) by {
        if t != f {
            assert(is_pointer_slot(m, t, i));
        }
    }
    assert forall|t: u64, i: int| #[trigger] is_huge_slot(m2, t, i) implies huge_ok(m2, t, i) by {
        if t != f {
            assert(is_huge_slot(m, t, i));
        }
    }
    assert forall|t1: u64, i1: int, t2: u64, i2: int|
        #[trigger] is_tree_slot(m2, t1, i1) && #[trigger] is_tree_slot(m2, t2, i2)
            && m2[t1].entries[i1].frame_number() == m2[t2].entries[i2].frame_number() implies t1
        == t2 && i1 == i2 by {
        assert(is_pointer_slot(m2, t1, i1));
        assert(is_pointer_slot(m2, t2, i2));
        assert(is_tree_slot(m, t1, i1));
        assert(is_tree_slot(m, t2, i2));
    }
    assert forall|t: u64, i: int| #[trigger] is_tree_slot(m2, t, i) implies m2[t].entries[i].frame_number()
        != f by {
        assert(is_pointer_slot(m2, t, i));
        assert(is_pointer_slot(m, t, i));
    }
}

/// Where an entry that was not present is made to refer to an empty table,
/// every walk finds what it found before.
pub proof fn lemma_walk_link(m: MemView, t0: u64, i0: int, e0: PageEntry, t: u64, level: int, va: u64)
    requires
        mem_wf(m),
        m.contains_key(t0),
        0 <= i0 < 512,
        m[t0].level.rank() >= 2,
        !m[t0].entries[i0].is_present(),
        e0.is_table_pointer(),
        m.contains_key(e0.frame_number()),
        is_zero_table(m[e0.frame_number()]),
        m[e0.frame_number()].level.rank() == m[t0].level.rank() - 1,
        enters(m, t, level, va),
    ensures
        walk(spec_write(m, t0, i0, e0), t, level, va) == walk(m, t, level, va),
    decreases level,
{
    let m2 = spec_write(m, t0, i0, e0);
    let idx = spec_index(va, level);
    lemma_spec_index_range(va, level);
    lemma_zero_entry();
    let e = m[t].entries[idx];
    if t == t0 && idx == i0 {
        let f0 = e0.frame_number();
        assert(m2[t].entries[idx] == e0);
        assert(m2[f0] == m[f0]);
        lemma_spec_index_range(va, level - 1);
        assert(m2[f0].entries[spec_index(va, level - 1)] == PageEntry(0));
        assert(walk(m2, f0, level - 1, va).is_none());
    } else {
        assert(m2[t].entries[idx] == e);
        if level >= 2 && e.is_table_pointer() {
            lemma_enters_child(m, t, level, va);
            lemma_walk_link(m, t0, i0, e0, e.frame_number(), level - 1, va);
        }
    }
}

/// Making an entry above the last level refer to a table that nothing refers
/// to keeps the tables well formed.
pub proof fn lemma_wf_link(m: MemView, t0: u64, i0: int, e0: PageEntry)
    requires
        mem_wf(m),
        m.contains_key(t0),
        0 <= i0 < 512,
        m[t0].level.rank() >= 2,
        !(m[t0].level == Level::PML4T && i0 == 511),
        !m[t0].entries[i0].is_table_pointer(),
        e0.is_table_pointer(),
        m.contains_key(e0.frame_number()),
        m[e0.frame_number()].level.rank() == m[t0].level.rank() - 1,
        unreferenced(m, e0.frame_number()),
    ensures
        mem_wf(spec_write(m, t0, i0, e0)),
{
    let m2 = spec_write(m, t0, i0, e0);
    assert forall|t: u64, i: int| #[trigger] is_pointer_slot(m2, t, i) implies child_ok(m2, t, i) by {
        if !(t == t0 && i == i0) {
            assert(is_pointer_slot(m, t, i));
            assert(child_ok(m, t, i));
        }
    }
    assert forall|t: u64, i: int| #[trigger] is_huge_slot(m2, t, i) implies huge_ok(m2, t, i) by {
        if !(t == t0 && i == i0) {
            assert(is_huge_slot(m, t, i));
        }
    }
    assert forall|t1: u64, i1: int, t2: u64, i2: int|
        #[trigger] is_tree_slot(m2, t1, i1) && #[trigger] is_tree_slot(m2, t2, i2)
            && m2[t1].entries[i1].frame_number() == m2[t2].entries[i2].frame_number() implies t1
        == t2 && i1 == i2 by {
        if !(t1 == t0 && i1 == i0) {
            assert(is_tree_slot(m, t1, i1));
        }
        if !(t2 == t0 && i2 == i0) {
            assert(is_tree_slot(m, t2, i2));
        }
    }
}

/// Writing an entry of a table of the last level keeps the tables well formed.
pub proof fn lemma_wf_leaf(m: MemView, t1: u64, i1: int, e1: PageEntry)
    requires
        mem_wf(m),
        m.contains_key(t1),
        0 <= i1 < 512,
        m[t1].level == Level::PT,
    ensures
        mem_wf(spec_write(m, t1, i1, e1)),
        forall|f: u64| unreferenced(m, f) ==> unreferenced(spec_write(m, t1, i1, e1), f),
{
    let m2 = spec_write(m, t1, i1, e1);
    assert forall|t: u64, i: int| #[trigger] is_pointer_slot(m2, t, i) implies child_ok(m2, t, i)
        && is_pointer_slot(m, t, i) by {
        assert(is_pointer_slot(m, t, i));
        assert(child_ok(m, t, i));
    }
    assert forall|t: u64, i: int| #[trigger] is_huge_slot(m2, t, i) implies huge_ok(m2, t, i) by {
        assert(is_huge_slot(m, t, i));
    }
    assert forall|t1: u64, i1: int, t2: u64, i2: int|
        #[trigger] is_tree_slot(m2, t1, i1) && #[trigger] is_tree_slot(m2, t2, i2)
            && m2[t1].entries[i1].frame_number() == m2[t2].entries[i2].frame_number() implies t1
        == t2 && i1 == i2 by {
        assert(is_pointer_slot(m2, t1, i1));
        assert(is_pointer_slot(m2, t2, i2));
        assert(is_tree_slot(m, t1, i1));
        assert(is_tree_slot(m, t2, i2));
    }
    assert forall|f: u64| unreferenced(m, f) implies unreferenced(m2, f) by {
        assert forall|t: u64, i: int| #[trigger] is_tree_slot(m2, t, i) implies m2[t].entries[i].frame_number()
            != f by {
            assert(is_pointer_slot(m2, t, i));
            assert(is_tree_slot(m, t, i));
        }
    }
}

/// Pointing the recursive entry of a top table at a top table keeps the
/// tables well formed.
pub proof fn lemma_wf_recursive(m: MemView, t0: u64, e0: PageEntry)
    requires
        mem_wf(m),
        m.contains_key(t0),
        m[t0].level == Level::PML4T,
        e0.is_table_pointer(),
        m.contains_key(e0.frame_number()),
        m[e0.frame_number()].level == Level::PML4T,
    ensures
        mem_wf(spec_write(m, t0, 511, e0)),
        forall|f: u64| unreferenced(m, f) ==> unreferenced(spec_write(m, t0, 511, e0), f),
{
    let m2 = spec_write(m, t0, 511, e0);
    assert forall|t: u64, i: int| #[trigger] is_pointer_slot(m2, t, i) implies child_ok(m2, t, i) by {
        if !(t == t0 && i == 511) {
            assert(is_pointer_slot(m, t, i));
            assert(child_ok(m, t, i));
        }
    }
    assert forall|t: u64, i: int| #[trigger] is_huge_slot(m2, t, i) implies huge_ok(m2, t, i) by {
        if !(t == t0 && i == 511) {
            assert(is_huge_slot(m, t, i));
        }
    }
    assert forall|t1: u64, i1: int, t2: u64, i2: int|
        #[trigger] is_tree_slot(m2, t1, i1) && #[trigger] is_tree_slot(m2, t2, i2)
            && m2[t1].entries[i1].frame_number() == m2[t2].entries[i2].frame_number() implies t1
        == t2 && i1 == i2 by {
        assert(is_tree_slot(m, t1, i1));
        assert(is_tree_slot(m, t2, i2));
    }
    assert forall|f: u64| unreferenced(m, f) implies unreferenced(m2, f) by {
        assert forall|t: u64, i: int| #[trigger] is_tree_slot(m2, t, i) implies m2[t].entries[i].frame_number()
            != f by {
            assert(is_tree_slot(m, t, i));
        }
    }
}

/// A walk that does not go through the recursive entry never reads it.
pub proof fn lemma_walk_recursive(m: MemView, t0: u64, e0: PageEntry, t: u64, level: int, va: u64)
    requires
        mem_wf(m),
        m.contains_key(t0),
        m[t0].level == Level::PML4T,
        enters(m, t, level, va),
    ensures
        walk(spec_write(m, t0, 511, e0), t, level, va) == walk(m, t, level, va),
        pt_of(spec_write(m, t0, 511, e0), t, level, va) == pt_of(m, t, level, va),
    decreases level,
{
    let m2 = spec_write(m, t0, 511, e0);
    let idx = spec_index(va, level);
    lemma_spec_index_range(va, level);
    let e = m[t].entries[idx];
    assert(m2[t].entries[idx] == e);
    if level >= 2 && e.is_table_pointer() {
        lemma_enters_child(m, t, level, va);
        lemma_walk_recursive(m, t0, e0, e.frame_number(), level - 1, va);
    }
}

/// Writing entry `i1` of a table of the last level changes the walk of the
/// addresses that reach that entry, and of no other.
pub proof fn lemma_walk_leaf(m: MemView, t1: u64, i1: int, e1: PageEntry, t: u64, level: int, va: u64)
    requires
        mem_wf(m),
        m.contains_key(t1),
        0 <= i1 < 512,
        m[t1].level == Level::PT,
        enters(m, t, level, va),
    ensures
        pt_of(spec_write(m, t1, i1, e1), t, level, va) == pt_of(m, t, level, va),
        pt_of(m, t, level, va) == Some(t1) && spec_index(va, 1) == i1 ==> walk(
            spec_write(m, t1, i1, e1),
            t,
            level,
            va,
        ) == if e1.is_present() {
            Some((e1, 1int))
        } else {
            None
        },
        !(pt_of(m, t, level, va) == Some(t1) && spec_index(va, 1) == i1) ==> walk(
            spec_write(m, t1, i1, e1),
            t,
            level,
            va,
        ) == walk(m, t, level, va),
    decreases level,
{
    let m2 = spec_write(m, t1, i1, e1);
    let idx = spec_index(va, level);
    lemma_spec_index_range(va, level);
    let e = m[t].entries[idx];
    if level >= 2 {
        assert(m2[t].entries[idx] == e);
        if e.is_table_pointer() {
            lemma_enters_child(m, t, level, va);
            lemma_walk_leaf(m, t1, i1, e1, e.frame_number(), level - 1, va);
        }
    } else {
        if t == t1 && idx == i1 {
            assert(m2[t].entries[idx] == e1);
        } else {
            assert(m2[t].entries[idx] == e);
        }
    }
}

/// Two walks that end in the same table of the last level started in the
/// same table and took the same entries.
pub proof fn lemma_path_unique(m: MemView, r1: u64, r2: u64, level: int, va1: u64, va2: u64)
    requires
        mem_wf(m),
        enters(m, r1, level, va1),
        enters(m, r2, level, va2),
        pt_of(m, r1, level, va1).is_some(),
        pt_of(m, r1, level, va1) == pt_of(m, r2, level, va2),
    ensures
        r1 == r2,
        forall|k: int| 2 <= k <= level ==> spec_index(va1, k) == spec_index(va2, k),
    decreases level,
{
    if level >= 2 {
        let i1 = spec_index(va1, level);
        let i2 = spec_index(va2, level);
        lemma_spec_index_range(va1, level);
        lemma_spec_index_range(va2, level);
        let e1 = m[r1].entries[i1];
        let e2 = m[r2].entries[i2];
        lemma_enters_child(m, r1, level, va1);
        lemma_enters_child(m, r2, level, va2);
        lemma_path_unique(m, e1.frame_number(), e2.frame_number(), level - 1, va1, va2);
        assert(is_tree_slot(m, r1, i1));
        assert(is_tree_slot(m, r2, i2));
    }
}

/// Two addresses that the hardware can translate and that agree in all four
/// indices lie in the same page.
pub proof fn lemma_same_indices_same_page(v1: u64, v2: u64)
    requires
        spec_is_valid_address(v1),
        spec_is_valid_address(v2),
        forall|k: int| 1 <= k <= 4 ==> spec_index(v1, k) == spec_index(v2, k),
    ensures
        v1 / 4096 == v2 / 4096,
{
    assert(spec_index(v1, 1) == spec_index(v2, 1));
    assert(spec_index(v1, 2) == spec_index(v2, 2));
    assert(spec_index(v1, 3) == spec_index(v2, 3));
    assert(spec_index(v1, 4) == spec_index(v2, 4));
    assert(v1 / 4096 == v2 / 4096) by (bit_vector)
        requires
            v1 < 0x0000_8000_0000_0000u64 || v1 >= 0xffff_8000_0000_0000u64,
            v2 < 0x0000_8000_0000_0000u64 || v2 >= 0xffff_8000_0000_0000u64,
            (v1 >> 12) & 0o777 == (v2 >> 12) & 0o777,
            (v1 >> 21) & 0o777 == (v2 >> 21) & 0o777,
            (v1 >> 30) & 0o777 == (v2 >> 30) & 0o777,
            (v1 >> 39) & 0o777 == (v2 >> 39) & 0o777,
    ;
}

/// Two addresses of one page take the same entries at every level.
pub proof fn lemma_same_page_same_indices(v1: u64, v2: u64)
    requires
        v1 / 4096 == v2 / 4096,
    ensures
        forall|k: int| spec_index(v1, k) == spec_index(v2, k),
{
    assert((v1 >> 12) & 0o777 == (v2 >> 12) & 0o777 && (v1 >> 21) & 0o777 == (v2 >> 21) & 0o777 && (v1
        >> 30) & 0o777 == (v2 >> 30) & 0o777 && (v1 >> 39) & 0o777 == (v2 >> 39) & 0o777)
        by (bit_vector)
        requires
            v1 / 4096 == v2 / 4096,
    ;
}

/// A walk depends on the page of the address alone.
pub proof fn lemma_walk_same_page(m: MemView, t: u64, level: int, v1: u64, v2: u64)
    requires
        v1 / 4096 == v2 / 4096,
    ensures
        walk(m, t, level, v1) == walk(m, t, level, v2),
        pt_of(m, t, level, v1) == pt_of(m, t, level, v2),
    decreases level,
{
    lemma_same_page_same_indices(v1, v2);
    if 1 <= level <= 4 && m.contains_key(t) {
        let e = m[t].entries[spec_index(v1, level)];
        if level >= 2 {
            lemma_walk_same_page(m, e.frame_number(), level - 1, v1, v2);
        }
    }
}

/// Clearing an entry that refers to no table keeps the tables well formed.
pub proof fn lemma_wf_clear(m: MemView, t0: u64, i0: int)
    requires
        mem_wf(m),
        m.contains_key(t0),
        0 <= i0 < 512,
        !is_pointer_slot(m, t0, i0),
    ensures
        mem_wf(spec_write(m, t0, i0, PageEntry(0))),
{
    let m2 = spec_write(m, t0, i0, PageEntry(0));
    lemma_zero_entry();
    assert forall|t: u64, i: int| #[trigger] is_pointer_slot(m2, t, i) implies child_ok(m2, t, i)
        && is_pointer_slot(m, t, i) by {
        assert(is_pointer_slot(m, t, i));
        assert(child_ok(m, t, i));
    }
    assert forall|t: u64, i: int| #[trigger] is_huge_slot(m2, t, i) implies huge_ok(m2, t, i) by {
        assert(is_huge_slot(m, t, i));
    }
    assert forall|t1: u64, i1: int, t2: u64, i2: int|
        #[trigger] is_tree_slot(m2, t1, i1) && #[trigger] is_tree_slot(m2, t2, i2)
            && m2[t1].entries[i1].frame_number() == m2[t2].entries[i2].frame_number() implies t1
        == t2 && i1 == i2 by {
        assert(is_pointer_slot(m2, t1, i1));
        assert(is_pointer_slot(m2, t2, i2));
        assert(is_tree_slot(m, t1, i1));
        assert(is_tree_slot(m, t2, i2));
    }
}

/// The table that holds the entry which maps `va`.
pub open spec fn leaf_table(m: MemView, t: u64, level: int, va: u64) -> u64
    decreases level,
{
    if level < 1 || level > 4 || !m.contains_key(t) {
        t
    } else {
        let e = m[t].entries[spec_index(va, level)];
        if level >= 2 && e.is_table_pointer() {
            leaf_table(m, e.frame_number(), level - 1, va)
        } else {
            t
        }
    }
}

/// Once the entry that maps an address is cleared, the address is mapped no more.
pub proof fn lemma_walk_clear(m: MemView, t: u64, level: int, va: u64)
    requires
        mem_wf(m),
        enters(m, t, level, va),
        walk(m, t, level, va).is_some(),
    ensures
        ({
            let l = walk(m, t, level, va).unwrap().1;
            let tl = leaf_table(m, t, level, va);
            &&& 1 <= l <= level
            &&& m.contains_key(tl)
            &&& m[tl].level.rank() == l
            &&& !is_pointer_slot(m, tl, spec_index(va, l))
            &&& m[tl].entries[spec_index(va, l)] == walk(m, t, level, va).unwrap().0
            &&& l == 1 ==> pt_of(m, t, level, va) == Some(tl)
            &&& walk(spec_write(m, tl, spec_index(va, l), PageEntry(0)), t, level, va).is_none()
        }),
    decreases level,
{
    let idx = spec_index(va, level);
    lemma_spec_index_range(va, level);
    lemma_zero_entry();
    let e = m[t].entries[idx];
    if level >= 2 && e.is_table_pointer() {
        lemma_enters_child(m, t, level, va);
        lemma_walk_clear(m, e.frame_number(), level - 1, va);
        let l = walk(m, t, level, va).unwrap().1;
        let tl = leaf_table(m, t, level, va);
        let m2 = spec_write(m, tl, spec_index(va, l), PageEntry(0));
        assert(tl != t);
        assert(m2[t] == m[t]);
    } else {
        let m2 = spec_write(m, t, idx, PageEntry(0));
        assert(m2[t].entries[idx] == PageEntry(0));
    }
}

/// Whether mapping `va` would write over a huge page on the way down.
pub open spec fn replaces_huge(m: MemView, t: u64, level: int, va: u64) -> bool
    decreases level,
{
    if level <= 1 || level > 4 || !m.contains_key(t) {
        false
    } else {
        let e = m[t].entries[spec_index(va, level)];
        if e.is_table_pointer() {
            replaces_huge(m, e.frame_number(), level - 1, va)
        } else {
            e.is_present()
        }
    }
}

/// How many tables are missing on the way of `va` from table `t` down to the last level.
pub open spec fn missing_tables(m: MemView, t: u64, level: int, va: u64) -> int
    decreases level,
{
    if level <= 1 || level > 4 || !m.contains_key(t) {
        0
    } else {
        let e = m[t].entries[spec_index(va, level)];
        if e.is_table_pointer() {
            missing_tables(m, e.frame_number(), level - 1, va)
        } else {
            level - 1
        }
    }
}

/// Whether the entry of the last level that `va` selects is in use; false
/// where a table on the way to it is missing.
pub open spec fn leaf_in_use(m: MemView, t: u64, va: u64) -> bool {
    match pt_of(m, t, 4, va) {
        Some(t1) => !m[t1].entries[spec_index(va, 1)].spec_is_unused(),
        None => false,
    }
}

/// Top table `t` refers to itself in its last entry.
pub open spec fn recursive(m: MemView, t: u64) -> bool {
    &&& m.contains_key(t)
    &&& m[t].level == Level::PML4T
    &&& m[t].entries[511].is_table_pointer()
    &&& m[t].entries[511].frame_number() == t
}

/// Whether `va` can be mapped without writing over anything: every table on
/// its way exists or can be put where no entry is present, and the entry of
/// the last level is unused.
pub open spec fn mappable(m: MemView, t: u64, level: int, va: u64) -> bool
    decreases level,
{
    if level < 1 || level > 4 || !m.contains_key(t) {
        false
    } else {
        let e = m[t].entries[spec_index(va, level)];
        if level == 1 {
            e.spec_is_unused()
        } else if e.is_table_pointer() {
            mappable(m, e.frame_number(), level - 1, va)
        } else {
            !e.is_present()
        }
    }
}

/// The entry of the last level that `va` selects is unused, wherever the
/// tables on the way to it exist.
pub open spec fn pt_unused(m: MemView, t: u64, level: int, va: u64) -> bool {
    match pt_of(m, t, level, va) {
        Some(t1) => m[t1].entries[spec_index(va, 1)].spec_is_unused(),
        None => true,
    }
}

/// An address can be mapped without writing over anything exactly when no
/// huge page is in its way and its entry of the last level is unused; it is
/// then mapped to nothing.
pub proof fn lemma_mappable(m: MemView, t: u64, level: int, va: u64)
    requires
        mem_wf(m),
        enters(m, t, level, va),
    ensures
        mappable(m, t, level, va) == (!replaces_huge(m, t, level, va) && pt_unused(m, t, level, va)),
        mappable(m, t, level, va) ==> walk(m, t, level, va).is_none(),
    decreases level,
{
    lemma_zero_entry();
    let e = m[t].entries[spec_index(va, level)];
    if level >= 2 && e.is_table_pointer() {
        lemma_enters_child(m, t, level, va);
        lemma_mappable(m, e.frame_number(), level - 1, va);
    }
}

/// Adding a table that nothing refers to changes nothing about what can be mapped.
pub proof fn lemma_mappable_insert(m: MemView, f: u64, tv: TableView, t: u64, level: int, va: u64)
    requires
        mem_wf(m),
        !m.contains_key(f),
        enters(m, t, level, va),
    ensures
        mappable(m.insert(f, tv), t, level, va) == mappable(m, t, level, va),
    decreases level,
{
    let e = m[t].entries[spec_index(va, level)];
    if level >= 2 && e.is_table_pointer() {
        lemma_enters_child(m, t, level, va);
        lemma_mappable_insert(m, f, tv, e.frame_number(), level - 1, va);
    }
}

/// Linking an empty table where no entry was present changes nothing about
/// what can be mapped.
pub proof fn lemma_mappable_link(m: MemView, t0: u64, i0: int, e0: PageEntry, t: u64, level: int, va: u64)
    requires
        mem_wf(m),
        m.contains_key(t0),
        0 <= i0 < 512,
        m[t0].level.rank() >= 2,
        !m[t0].entries[i0].is_present(),
        e0.is_table_pointer(),
        m.contains_key(e0.frame_number()),
        is_zero_table(m[e0.frame_number()]),
        m[e0.frame_number()].level.rank() == m[t0].level.rank() - 1,
        enters(m, t, level, va),
    ensures
        mappable(spec_write(m, t0, i0, e0), t, level, va) == mappable(m, t, level, va),
    decreases level,
{
    let m2 = spec_write(m, t0, i0, e0);
    let idx = spec_index(va, level);
    lemma_spec_index_range(va, level);
    lemma_zero_entry();
    let e = m[t].entries[idx];
    if t == t0 && idx == i0 {
        let f0 = e0.frame_number();
        assert(m2[t].entries[idx] == e0);
        assert(m2[f0] == m[f0]);
        lemma_spec_index_range(va, level - 1);
        assert(m2[f0].entries[spec_index(va, level - 1)] == PageEntry(0));
        assert(mappable(m2, f0, level - 1, va));
    } else {
        assert(m2[t].entries[idx] == e);
        if level >= 2 && e.is_table_pointer() {
            lemma_enters_child(m, t, level, va);
            lemma_mappable_link(m, t0, i0, e0, e.frame_number(), level - 1, va);
        }
    }
}

/// Writing an entry of the last level changes what can be mapped for the
/// addresses that reach that entry, and for no other.
pub proof fn lemma_mappable_leaf(m: MemView, t1: u64, i1: int, e1: PageEntry, t: u64, level: int, va: u64)
    requires
        mem_wf(m),
        m.contains_key(t1),
        0 <= i1 < 512,
        m[t1].level == Level::PT,
        enters(m, t, level, va),
        !(pt_of(m, t, level, va) == Some(t1) && spec_index(va, 1) == i1),
    ensures
        mappable(spec_write(m, t1, i1, e1), t, level, va) == mappable(m, t, level, va),
    decreases level,
{
    let m2 = spec_write(m, t1, i1, e1);
    let idx = spec_index(va, level);
    lemma_spec_index_range(va, level);
    let e = m[t].entries[idx];
    if level >= 2 {
        assert(m2[t].entries[idx] == e);
        if e.is_table_pointer() {
            lemma_enters_child(m, t, level, va);
            lemma_mappable_leaf(m, t1, i1, e1, e.frame_number(), level - 1, va);
        }
    } else {
        assert(m2[t].entries[idx] == e);
    }
}

/// The recursive entry plays no part in what can be mapped.
pub proof fn lemma_mappable_recursive(m: MemView, t0: u64, e0: PageEntry, t: u64, level: int, va: u64)
    requires
        mem_wf(m),
        m.contains_key(t0),
        m[t0].level == Level::PML4T,
        enters(m, t, level, va),
    ensures
        mappable(spec_write(m, t0, 511, e0), t, level, va) == mappable(m, t, level, va),
    decreases level,
{
    let m2 = spec_write(m, t0, 511, e0);
    let idx = spec_index(va, level);
    lemma_spec_index_range(va, level);
    let e = m[t].entries[idx];
    assert(m2[t].entries[idx] == e);
    if level >= 2 && e.is_table_pointer() {
        lemma_enters_child(m, t, level, va);
        lemma_mappable_recursive(m, t0, e0, e.frame_number(), level - 1, va);
    }
}

/// Where all the tables on the way of an address exist, no huge page is in its way.
pub proof fn lemma_pt_no_huge(m: MemView, t: u64, level: int, va: u64)
    requires
        pt_of(m, t, level, va).is_some(),
    ensures
        !replaces_huge(m, t, level, va),
    decreases level,
{
    if level >= 2 {
        let e = m[t].entries[spec_index(va, level)];
        lemma_pt_no_huge(m, e.frame_number(), level - 1, va);
    }
}

/// What can be mapped depends on the page of the address alone.
pub proof fn lemma_mappable_same_page(m: MemView, t: u64, level: int, v1: u64, v2: u64)
    requires
        v1 / 4096 == v2 / 4096,
    ensures
        mappable(m, t, level, v1) == mappable(m, t, level, v2),
    decreases level,
{
    lemma_same_page_same_indices(v1, v2);
    if 1 <= level <= 4 && m.contains_key(t) {
        let e = m[t].entries[spec_index(v1, level)];
        if level >= 2 {
            lemma_mappable_same_page(m, e.frame_number(), level - 1, v1, v2);
        }
    }
}

/// The frames of physical memory that hold page tables.
pub struct PhysicalMemory {
    pub tables: HashMap<u64, Table>,
}

impl View for PhysicalMemory {
    type V = MemView;

    open spec fn view(&self) -> MemView {
        Map::new(|f: u64| self.tables@.contains_key(f), |f: u64| self.tables@[f]@)
    }
}

impl PhysicalMemory {
    /// Every table has its 512 entries.
    pub open spec fn shape(self) -> bool {
        mem_shape(self@)
    }

    /// A memory in which no frame holds a table.
    pub fn new() -> (m: PhysicalMemory)
        ensures
            m@ =~= Map::<u64, TableView>::empty(),
            mem_wf(m@),
    {
        PhysicalMemory { tables: HashMap::new() }
    }

    /// Whether the frame holds a table.
    pub fn has_table(&self, frame: u64) -> (r: bool)
        ensures
            r == self@.contains_key(frame),
    {
        self.tables.contains_key(&frame)
    }

    /// The level of the table in the frame.
    pub fn level_of(&self, frame: u64) -> (r: Option<Level>)
        ensures
            r.is_some() == self@.contains_key(frame),
            r.is_some() ==> r.unwrap() == self@[frame].level,
    {
        match self.tables.get(&frame) {
            Some(t) => Some(t.level),
            None => None,
        }
    }

    /// Entry `index` of the table in the frame.
    pub fn read(&self, frame: u64, index: usize) -> (r: Option<PageEntry>)
        requires
            self.shape(),
            index < ENTRY_COUNT,
        ensures
            r.is_some() == self@.contains_key(frame),
            r.is_some() ==> r.unwrap() == self@[frame].entries[index as int],
    {
        match self.tables.get(&frame) {
            Some(t) => {
                assert(self@.contains_key(frame));
                assert(self@[frame].entries.len() == 512);
                Some(t.get(index))
            },
            None => None,
        }
    }

    /// Sets entry `index` of the table in the frame. A frame without a table
    /// is left alone.
    pub fn write(&mut self, frame: u64, index: usize, entry: PageEntry)
        requires
            old(self).shape(),
            index < ENTRY_COUNT,
        ensures
            final(self).shape(),
            old(self)@.contains_key(frame) ==> final(self)@ == spec_write(
                old(self)@,
                frame,
                index as int,
                entry,
            ),
            !old(self)@.contains_key(frame) ==> final(self)@ == old(self)@,
    {
        match self.tables.remove(&frame) {
            Some(t) => {
                let mut t = t;
                assert(old(self)@.contains_key(frame));
                assert(old(self)@[frame].entries.len() == 512);
                t.put(index, entry);
                self.tables.insert(frame, t);
                assert(self@ =~= spec_write(old(self)@, frame, index as int, entry));
            },
            None => {
                assert(self@ =~= old(self)@);
            },
        }
    }

    /// Puts an empty table of the level into the frame, in place of whatever
    /// table the frame held.
    pub fn insert_zeroed(&mut self, frame: u64, level: Level)
        requires
            old(self).shape(),
        ensures
            final(self).shape(),
            final(self)@ == old(self)@.insert(frame, zero_table(level)),
    {
        let t = Table::new(level);
        assert(t@.entries =~= zero_table(level).entries);
        assert(t@ == zero_table(level));
        self.tables.insert(frame, t);
        assert(self@ =~= old(self)@.insert(frame, zero_table(level)));
    }
}

} // verus!
