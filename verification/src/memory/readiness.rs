//! Tests of what the boot loader hands over, to be made before the kernel's
//! memory is set up from it.

use vstd::prelude::*;
use std::collections::HashSet;
use super::PAGE_SIZE;
use super::paging::{Level, ADDRESS_BITS_MASK, HUGE_PAGE, PRESENT};
use super::physical::{child_ok, huge_ok, is_huge_slot, is_pointer_slot, is_tree_slot, mappable,
    mem_aligned, mem_injective, mem_shape, mem_typed, mem_wf, recursive, MemView, PhysicalMemory};
use super::address_space::TEMPORARY_PAGE_ADDRESS;
use super::frame::MemoryArea;
use super::paging::ALL_FLAGS;
use super::mapper::{is_page_ok, page_ok, pages_ok};
use super::address_space::{clear_of, ranges_ok, MapRange};
use super::boot::{spec_max_section_end, spec_min_start, BootInformation, ElfSection, KERNEL_BASE,
    KERNEL_HEAP_SIZE};
use super::{spec_arena_start, STACK_ARENA_PAGES};

verus! {

/// Whether the section is laid out as a section of the kernel's image must be.
pub fn section_ok(s: &ElfSection) -> (r: bool)
    ensures
        r == s.wf(),
{
    if !(s.is_allocated() && s.size != 0) {
        return true;
    }
    if s.addr % PAGE_SIZE != 0 || s.size % PAGE_SIZE != 0 {
        return false;
    }
    if s.size > u64::MAX - s.addr {
        return false;
    }
    if s.addr < KERNEL_BASE && s.addr + s.size > u64::MAX - KERNEL_BASE {
        return false;
    }
    true
}

/// Whether the area is not empty and ends within the address space.
pub fn area_ok(a: &MemoryArea) -> (r: bool)
    ensures
        r == a.wf(),
{
    a.length >= 1 && a.length <= u64::MAX - a.base_addr
}

/// Whether each of the `count` pages from `start` can be walked for.
pub fn pages_walkable(start: u64, count: u64) -> (r: bool)
    ensures
        r == pages_ok(start as int, start + count),
{
    let ghost lo = start as int;
    let ghost hi = start + count;
    if count > u64::MAX - start {
        proof {
            if pages_ok(lo, hi) {
                reveal(pages_ok);
                assert(page_ok(u64::MAX as int));
            }
        }
        return false;
    }
    proof {
        assert(pages_ok(lo, lo)) by {
            reveal(pages_ok);
        }
    }
    let mut i: u64 = 0;
    while i < count
        invariant
            i <= count,
            lo == start,
            hi == start + count,
            hi <= u64::MAX,
            pages_ok(lo, lo + i),
        decreases count - i,
    {
        if !is_page_ok(start + i) {
            proof {
                if pages_ok(lo, hi) {
                    reveal(pages_ok);
                    assert(page_ok(start + i));
                }
            }
            return false;
        }
        proof {
            reveal(pages_ok);
        }
        i += 1;
    }
    true
}

/// Whether the range can be mapped as it stands: its flags are flags, its
/// pages can be walked for, and its frames can be named by entries.
pub fn range_ok(r: &MapRange) -> (ok: bool)
    ensures
        ok == r.wf(),
{
    if r.flags.bits & !ALL_FLAGS != 0 {
        return false;
    }
    if !pages_walkable(r.start.number, r.count) {
        return false;
    }
    match r.first {
        Some(f) => f.number <= 0x100_0000_0000 && r.count <= 0x100_0000_0000 - f.number,
        None => true,
    }
}

/// Whether no page is in both ranges.
pub fn ranges_disjoint(a: &MapRange, b: &MapRange) -> (r: bool)
    requires
        a.start.number + a.count <= u64::MAX,
        b.start.number + b.count <= u64::MAX,
    ensures
        r == a.disjoint(*b),
{
    a.count == 0 || b.count == 0 || a.start.number + a.count <= b.start.number || b.start.number
        + b.count <= a.start.number
}

/// Whether each of the ranges can be mapped as it stands, and no page is
/// in two of them.
pub fn ranges_fit(ranges: &Vec<MapRange>) -> (r: bool)
    ensures
        r == ranges_ok(ranges@),
{
    let n = ranges.len();
    let mut k: usize = 0;
    while k < n
        invariant
            k <= n,
            n == ranges@.len(),
            forall|j: int| 0 <= j < k ==> (#[trigger] ranges@[j]).wf(),
            forall|i: int, j: int| 0 <= i < j < k ==> (#[trigger] ranges@[i]).disjoint(#[trigger] ranges@[j]),
        decreases n - k,
    {
        if !range_ok(&ranges[k]) {
            return false;
        }
        proof {
            lemma_range_end(ranges@[k as int]);
        }
        let mut i: usize = 0;
        while i < k
            invariant
                i <= k < n,
                n == ranges@.len(),
                ranges@[k as int].start.number + ranges@[k as int].count <= u64::MAX,
                forall|j: int| 0 <= j < k ==> (#[trigger] ranges@[j]).wf(),
                forall|j: int| 0 <= j < i ==> (#[trigger] ranges@[j]).disjoint(ranges@[k as int]),
            decreases k - i,
        {
            proof {
                lemma_range_end(ranges@[i as int]);
            }
            if !ranges_disjoint(&ranges[i], &ranges[k]) {
                return false;
            }
            i += 1;
        }
        k += 1;
    }
    true
}

/// A range whose pages can be walked for ends within the page numbers.
pub proof fn lemma_range_end(r: MapRange)
    requires
        r.wf(),
    ensures
        r.start.number + r.count <= u64::MAX,
{
    if r.start.number + r.count > u64::MAX {
        reveal(pages_ok);
        assert(page_ok(u64::MAX as int));
    }
}

/// Whether none of the ranges holds one of the `count` pages from `start`.
pub fn ranges_clear_of(ranges: &Vec<MapRange>, start: u64, count: u64) -> (r: bool)
    requires
        start + count <= u64::MAX,
        forall|k: int| 0 <= k < ranges@.len() ==> (#[trigger] ranges@[k]).wf(),
    ensures
        r == clear_of(ranges@, start as int, start + count),
{
    let n = ranges.len();
    let mut k: usize = 0;
    while k < n
        invariant
            k <= n,
            n == ranges@.len(),
            start + count <= u64::MAX,
            forall|j: int| 0 <= j < ranges@.len() ==> (#[trigger] ranges@[j]).wf(),
            clear_of(ranges@.take(k as int), start as int, start + count),
        decreases n - k,
    {
        let r = &ranges[k];
        proof {
            lemma_range_end(*r);
        }
        if !(count == 0 || r.count == 0 || start + count <= r.start.number || r.start.number + r.count
            <= start) {
            return false;
        }
        assert(ranges@.take(k as int + 1) =~= ranges@.take(k as int).push(ranges@[k as int]));
        assert forall|j: int| 0 <= j < k + 1 implies start as int >= start + count || (
        #[trigger] ranges@.take(k as int + 1)[j]).lo() >= ranges@.take(k as int + 1)[j].hi() || start
            + count <= ranges@.take(k as int + 1)[j].lo() || ranges@.take(k as int + 1)[j].hi()
            <= start as int by {
            if j < k {
                assert(ranges@.take(k as int + 1)[j] == ranges@.take(k as int)[j]);
            }
        }
        k += 1;
    }
    assert(ranges@.take(n as int) =~= ranges@);
    true
}

/// Whether the boot information is in good order and tells of a kernel
/// image and of a module.
pub fn information_ok(mbinfo: &BootInformation) -> (r: bool)
    ensures
        r == (mbinfo.wf() && mbinfo.has_image()),
{
    if mbinfo.modules.len() < 1 || mbinfo.start_address < KERNEL_BASE || mbinfo.start_address
        >= mbinfo.end_address {
        return false;
    }
    let mut i: usize = 0;
    while i < mbinfo.memory_areas.len()
        invariant
            i <= mbinfo.memory_areas@.len(),
            forall|j: int| 0 <= j < i ==> (#[trigger] mbinfo.memory_areas@[j]).wf(),
        decreases mbinfo.memory_areas@.len() - i,
    {
        if !area_ok(&mbinfo.memory_areas[i]) {
            return false;
        }
        i += 1;
    }
    let mut allocated = false;
    let mut end: u64 = 0;
    let mut i: usize = 0;
    while i < mbinfo.elf_sections.len()
        invariant
            i <= mbinfo.elf_sections@.len(),
            forall|j: int| 0 <= j < i ==> (#[trigger] mbinfo.elf_sections@[j]).wf(),
            forall|j: int|
                0 <= j < i ==> (#[trigger] mbinfo.elf_sections@[j]).addr + mbinfo.elf_sections@[j].size
                    <= u64::MAX,
            allocated == spec_min_start(mbinfo.elf_sections@, i as int).is_some(),
            end == spec_max_section_end(mbinfo.elf_sections@, i as int),
        decreases mbinfo.elf_sections@.len() - i,
    {
        let s = &mbinfo.elf_sections[i];
        if !section_ok(s) || s.size > u64::MAX - s.addr {
            return false;
        }
        if s.is_allocated() {
            allocated = true;
            if s.addr + s.size > end {
                end = s.addr + s.size;
            }
        }
        i += 1;
    }
    if !allocated || end < 1 {
        return false;
    }
    let fb = &mbinfo.framebuffer;
    assert(fb.pitch * fb.height <= 0xffff_ffff * 0xffff_ffff) by (nonlinear_arith)
        requires
            0 <= fb.pitch <= 0xffff_ffff,
            0 <= fb.height <= 0xffff_ffff,
    ;
    let bytes: u64 = (fb.pitch as u64) * (fb.height as u64);
    if bytes > u64::MAX - fb.addr || fb.addr + bytes < 1 {
        return false;
    }
    mbinfo.max_area_end() >= KERNEL_HEAP_SIZE
}

/// What setting the kernel's memory up asks of the boot information: it is
/// in good order and tells of an image and a module; what is mapped of the
/// kernel can be mapped as it stands, and no page of it twice; and the
/// stack arena after the boot information can be walked for and holds
/// nothing of the kernel.
pub open spec fn spec_boot_ready(mbinfo: BootInformation) -> bool {
    &&& mbinfo.has_image()
    &&& mbinfo.wf()
    &&& ranges_ok(mbinfo.spec_kernel_ranges())
    &&& mbinfo.end_address + PAGE_SIZE - 1 <= u64::MAX
    &&& pages_ok(spec_arena_start(mbinfo), spec_arena_start(mbinfo) + STACK_ARENA_PAGES)
    &&& clear_of(
        mbinfo.spec_kernel_ranges(),
        spec_arena_start(mbinfo),
        spec_arena_start(mbinfo) + STACK_ARENA_PAGES,
    )
}

/// Whether the kernel's memory can be set up from the boot information.
pub fn boot_ready(mbinfo: &BootInformation) -> (r: bool)
    ensures
        r == spec_boot_ready(*mbinfo),
{
    if !information_ok(mbinfo) {
        return false;
    }
    let ranges = mbinfo.kernel_ranges();
    if !ranges_fit(&ranges) {
        return false;
    }
    if mbinfo.end_address > u64::MAX - (PAGE_SIZE - 1) {
        return false;
    }
    let arena = (mbinfo.end_address + (PAGE_SIZE - 1)) / PAGE_SIZE;
    if !pages_walkable(arena, STACK_ARENA_PAGES) {
        return false;
    }
    ranges_clear_of(&ranges, arena, STACK_ARENA_PAGES)
}

/// The frames listed are the frames that hold tables, each named once.
pub open spec fn lists_tables(m: MemView, frames: Seq<u64>) -> bool {
    &&& frames.no_duplicates()
    &&& forall|t: u64| m.contains_key(t) <==> frames.contains(t)
}

/// Whether the frames listed are the frames that hold tables, each named once.
pub fn tables_listed(memory: &PhysicalMemory, frames: &Vec<u64>) -> (r: bool)
    ensures
        r == lists_tables(memory@, frames@),
{
    broadcast use vstd::std_specs::hash::group_hash_axioms;

    let n = frames.len();
    proof {
        assert(memory@.dom() =~= memory.tables@.dom());
    }
    if n != memory.tables.len() {
        proof {
            if lists_tables(memory@, frames@) {
                frames@.unique_seq_to_set();
                assert(frames@.to_set() =~= memory@.dom());
            }
        }
        return false;
    }
    let mut k: usize = 0;
    while k < n
        invariant
            k <= n,
            n == frames@.len(),
            forall|i: int, j: int| 0 <= i < j < k ==> frames@[i] != frames@[j],
            forall|i: int| 0 <= i < k ==> memory@.contains_key(#[trigger] frames@[i]),
        decreases n - k,
    {
        if !memory.has_table(frames[k]) {
            proof {
                assert(frames@.contains(frames@[k as int]));
            }
            return false;
        }
        let mut i: usize = 0;
        while i < k
            invariant
                i <= k < n,
                n == frames@.len(),
                forall|j: int| 0 <= j < i ==> frames@[j] != frames@[k as int],
            decreases k - i,
        {
            if frames[i] == frames[k] {
                return false;
            }
            i += 1;
        }
        k += 1;
    }
    proof {
        assert(frames@.no_duplicates());
        frames@.unique_seq_to_set();
        assert(frames@.to_set().subset_of(memory@.dom())) by {
            assert forall|t: u64| frames@.to_set().contains(t) implies memory@.dom().contains(t) by {
                let i = choose|i: int| 0 <= i < frames@.len() && frames@[i] == t;
                assert(memory@.contains_key(frames@[i]));
            }
        }
        vstd::set_lib::lemma_len_subset(frames@.to_set(), memory@.dom());
        vstd::set_lib::lemma_subset_equality(frames@.to_set(), memory@.dom());
        assert forall|t: u64| memory@.contains_key(t) <==> frames@.contains(t) by {
            assert(frames@.to_set().contains(t) == memory@.dom().contains(t));
        }
    }
    true
}

/// Table `t` has its 512 entries; each that refers to a table refers to
/// one of the level below, or, as a recursive entry, to a top table; and each
/// huge page starts at a multiple of its size.
pub open spec fn table_sound(m: MemView, t: u64) -> bool {
    &&& m[t].entries.len() == 512
    &&& forall|i: int| #[trigger] is_pointer_slot(m, t, i) ==> child_ok(m, t, i)
    &&& forall|i: int| #[trigger] is_huge_slot(m, t, i) ==> huge_ok(m, t, i)
}

/// Whether the table in frame `t` is sound.
pub fn is_table_sound(memory: &PhysicalMemory, t: u64) -> (r: bool)
    requires
        memory@.contains_key(t),
    ensures
        r == table_sound(memory@, t),
{
    broadcast use vstd::std_specs::hash::group_hash_axioms;

    let ghost m = memory@;
    let table = match memory.tables.get(&t) {
        Some(table) => table,
        None => {
            return false;
        },
    };
    assert(table@ == m[t]);
    if table.entries.len() != 512 {
        return false;
    }
    let mut i: usize = 0;
    while i < 512
        invariant
            i <= 512,
            m == memory@,
            m.contains_key(t),
            table@ == m[t],
            table.entries@.len() == 512,
            forall|j: int| 0 <= j < i && #[trigger] is_pointer_slot(m, t, j) ==> child_ok(m, t, j),
            forall|j: int| 0 <= j < i && #[trigger] is_huge_slot(m, t, j) ==> huge_ok(m, t, j),
        decreases 512 - i,
    {
        let e = table.entries[i];
        assert(e == m[t].entries[i as int]);
        let present = e.0 & PRESENT == PRESENT;
        let huge = e.0 & HUGE_PAGE == HUGE_PAGE;
        let c = (e.0 & ADDRESS_BITS_MASK) / PAGE_SIZE;
        let last = match table.level {
            Level::PT => true,
            _ => false,
        };
        if !last && present && !huge {
            assert(is_pointer_slot(m, t, i as int));
            let top = match table.level {
                Level::PML4T => true,
                _ => false,
            };
            let fits = match (memory.level_of(c), table.level.next_level()) {
                (Some(l), Some(below)) => if top && i == 511 {
                    l == Level::PML4T
                } else {
                    l == below
                },
                _ => false,
            };
            if !fits {
                assert(!child_ok(m, t, i as int));
                return false;
            }
            assert(child_ok(m, t, i as int));
        }
        if !last && present && huge {
            assert(is_huge_slot(m, t, i as int));
            let aligned = match table.level {
                Level::PML4T => false,
                Level::PDPT => c % 262144 == 0,
                Level::PDT => c % 512 == 0,
                Level::PT => true,
            };
            if !aligned {
                assert(!huge_ok(m, t, i as int));
                return false;
            }
        }
        i += 1;
    }
    true
}

/// The frame that entry `i` of the table in the `a`th frame listed names.
pub open spec fn slot_target(m: MemView, frames: Seq<u64>, a: int, i: int) -> u64 {
    m[frames[a]].entries[i].frame_number()
}

/// Entry `i` of the table in the `a`th frame listed refers to a table, and
/// is no recursive entry.
pub open spec fn tree_at(m: MemView, frames: Seq<u64>, a: int, i: int) -> bool {
    0 <= a < frames.len() && is_tree_slot(m, frames[a], i)
}

/// Entry `i` of the `a`th table comes before entry `idx` of the `k`th.
pub open spec fn comes_before(a: int, i: int, k: int, idx: int) -> bool {
    0 <= a && 0 <= i < 512 && (a < k || (a == k && i < idx))
}

/// Whether no table is referred to twice, recursive entries aside.
pub fn referred_once(memory: &PhysicalMemory, frames: &Vec<u64>) -> (r: bool)
    requires
        lists_tables(memory@, frames@),
        mem_shape(memory@),
    ensures
        r == mem_injective(memory@),
{
    broadcast use vstd::std_specs::hash::group_hash_axioms;

    let ghost m = memory@;
    let ghost fs = frames@;
    let n = frames.len();
    let mut seen: HashSet<u64> = HashSet::new();
    let ghost mut who: Map<u64, (int, int)> = Map::empty();
    let mut k: usize = 0;
    while k < n
        invariant
            k <= n,
            n == fs.len(),
            m == memory@,
            fs == frames@,
            lists_tables(m, fs),
            mem_shape(m),
            forall|a: int, i: int, b: int, j: int|
                #[trigger] tree_at(m, fs, a, i) && #[trigger] tree_at(m, fs, b, j) && comes_before(a, i, k as int, 0)
                    && comes_before(b, j, k as int, 0) && slot_target(m, fs, a, i) == slot_target(m, fs, b, j)
                    ==> a == b && i == j,
            forall|a: int, i: int|
                comes_before(a, i, k as int, 0) && #[trigger] tree_at(m, fs, a, i) ==> seen@.contains(
                    slot_target(m, fs, a, i),
                ),
            forall|c: u64| #[trigger]
                seen@.contains(c) ==> who.contains_key(c) && comes_before(who[c].0, who[c].1, k as int, 0)
                    && tree_at(m, fs, who[c].0, who[c].1) && slot_target(m, fs, who[c].0, who[c].1) == c,
        decreases n - k,
    {
        let t = frames[k];
        assert(fs.contains(fs[k as int]));
        assert(m.contains_key(t));
        assert(memory@.dom() =~= memory.tables@.dom());
        let table = match memory.tables.get(&t) {
            Some(table) => table,
            None => {
                return false;
            },
        };
        assert(table@ == m[t]);
        let top = match table.level {
            Level::PML4T => true,
            _ => false,
        };
        let last = match table.level {
            Level::PT => true,
            _ => false,
        };
        let mut idx: usize = 0;
        while idx < 512
            invariant
                idx <= 512,
                k < n,
                n == fs.len(),
                m == memory@,
                fs == frames@,
                t == fs[k as int],
                m.contains_key(t),
                table@ == m[t],
                table.entries@.len() == 512,
                top == (m[t].level == Level::PML4T),
                last == (m[t].level == Level::PT),
                lists_tables(m, fs),
                forall|a: int, i: int, b: int, j: int|
                    #[trigger] tree_at(m, fs, a, i) && #[trigger] tree_at(m, fs, b, j) && comes_before(
                        a,
                        i,
                        k as int,
                        idx as int,
                    ) && comes_before(b, j, k as int, idx as int) && slot_target(m, fs, a, i) == slot_target(
                        m,
                        fs,
                        b,
                        j,
                    ) ==> a == b && i == j,
                forall|a: int, i: int|
                    comes_before(a, i, k as int, idx as int) && #[trigger] tree_at(m, fs, a, i)
                        ==> seen@.contains(slot_target(m, fs, a, i)),
                forall|c: u64| #[trigger]
                    seen@.contains(c) ==> who.contains_key(c) && comes_before(
                        who[c].0,
                        who[c].1,
                        k as int,
                        idx as int,
                    ) && tree_at(m, fs, who[c].0, who[c].1) && slot_target(m, fs, who[c].0, who[c].1) == c,
            decreases 512 - idx,
        {
            let e = table.entries[idx];
            assert(e == m[t].entries[idx as int]);
            let present = e.0 & PRESENT == PRESENT;
            let huge = e.0 & HUGE_PAGE == HUGE_PAGE;
            let c = (e.0 & ADDRESS_BITS_MASK) / PAGE_SIZE;
            let tree = !last && present && !huge && !(top && idx == 511);
            assert(tree == tree_at(m, fs, k as int, idx as int));
            if tree {
                assert(c == slot_target(m, fs, k as int, idx as int));
                if seen.contains(&c) {
                    proof {
                        let (a, i) = who[c];
                        assert(tree_at(m, fs, a, i) && comes_before(a, i, k as int, idx as int));
                        assert(is_tree_slot(m, fs[a], i) && is_tree_slot(m, t, idx as int));
                        assert(fs[a] != t || i != idx);
                    }
                    return false;
                }
                seen.insert(c);
                proof {
                    who = who.insert(c, (k as int, idx as int));
                }
            }
            idx += 1;
        }
        k += 1;
    }
    proof {
        assert forall|t1: u64, i1: int, t2: u64, i2: int|
            #[trigger] is_tree_slot(m, t1, i1) && #[trigger] is_tree_slot(m, t2, i2) && m[t1].entries[i1].frame_number()
                == m[t2].entries[i2].frame_number() implies t1 == t2 && i1 == i2 by {
            assert(fs.contains(t1) && fs.contains(t2));
            let a = choose|a: int| 0 <= a < fs.len() && fs[a] == t1;
            let b = choose|b: int| 0 <= b < fs.len() && fs[b] == t2;
            assert(tree_at(m, fs, a, i1) && tree_at(m, fs, b, i2));
            assert(comes_before(a, i1, n as int, 0) && comes_before(b, i2, n as int, 0));
            assert(slot_target(m, fs, a, i1) == slot_target(m, fs, b, i2));
        }
    }
    true
}

/// What setting the kernel's memory up asks of the tables that the boot
/// code leaves, of which the one at `cr3` is active: `frames` lists them;
/// they form trees; the active one refers to itself in its last entry; and
/// the page that inactive tables are edited through can be mapped.
pub open spec fn spec_image_ready(m: MemView, frames: Seq<u64>, cr3: u64) -> bool {
    &&& lists_tables(m, frames)
    &&& mem_wf(m)
    &&& cr3 / PAGE_SIZE < 0x100_0000_0000
    &&& recursive(m, cr3 / PAGE_SIZE)
    &&& mappable(m, cr3 / PAGE_SIZE, 4, TEMPORARY_PAGE_ADDRESS)
}

/// Whether the kernel's memory can be set up on the tables in `memory`.
pub fn image_ready(memory: &PhysicalMemory, frames: &Vec<u64>, cr3: u64) -> (r: bool)
    ensures
        r == spec_image_ready(memory@, frames@, cr3),
{
    let ghost m = memory@;
    if !tables_listed(memory, frames) {
        return false;
    }
    let mut k: usize = 0;
    while k < frames.len()
        invariant
            k <= frames@.len(),
            m == memory@,
            lists_tables(m, frames@),
            forall|a: int| 0 <= a < k ==> table_sound(m, #[trigger] frames@[a]),
        decreases frames@.len() - k,
    {
        assert(frames@.contains(frames@[k as int]));
        if !is_table_sound(memory, frames[k]) {
            proof {
                let t = frames@[k as int];
                if mem_wf(m) {
                    assert(m[t].entries.len() == 512);
                    assert(mem_typed(m) && mem_aligned(m));
                }
            }
            return false;
        }
        k += 1;
    }
    proof {
        assert forall|t: u64| m.contains_key(t) implies table_sound(m, t) by {
            assert(frames@.contains(t));
            let a = choose|a: int| 0 <= a < frames@.len() && frames@[a] == t;
            assert(table_sound(m, frames@[a]));
        }
        assert forall|t: u64| m.contains_key(t) implies (#[trigger] m[t]).entries.len() == 512 by {
            assert(table_sound(m, t));
        }
        assert forall|t: u64, i: int| #[trigger] is_pointer_slot(m, t, i) implies child_ok(m, t, i) by {
            assert(table_sound(m, t));
        }
        assert forall|t: u64, i: int| #[trigger] is_huge_slot(m, t, i) implies huge_ok(m, t, i) by {
            assert(table_sound(m, t));
        }
    }
    if !referred_once(memory, frames) {
        return false;
    }
    let root = cr3 / PAGE_SIZE;
    if root >= 0x100_0000_0000 {
        return false;
    }
    let own = match (memory.level_of(root), memory.read(root, 511)) {
        (Some(l), Some(e)) => l == Level::PML4T && e.0 & PRESENT == PRESENT && e.0 & HUGE_PAGE != HUGE_PAGE
            && (e.0 & ADDRESS_BITS_MASK) / PAGE_SIZE == root,
        _ => false,
    };
    if !own {
        return false;
    }
    super::mapper::mappable_from(memory, root, TEMPORARY_PAGE_ADDRESS)
}

} // verus!
