use sos2::memory::frame::{AreaFrameAllocator, Frame, FrameAllocatorProxy, FrameRange, MemoryArea};
use sos2::memory::machine::{Machine, MapError};
use sos2::memory::mapper::{is_page_ok, mappable_from, range_mappable, translate_from, Mapper};
use sos2::memory::paging::{is_valid_address, offset, pdpt_index, pdt_index, pml4t_index,
    pt_index, EntryFlags, Level, Page, PageEntry, PageRange, Table, ADDRESS_BITS_MASK, HUGE_PAGE,
    NO_EXECUTE, PRESENT, SWAPPED_OUT, USER, WRITABLE};
use sos2::memory::physical::PhysicalMemory;

fn frames_from(base: u64, length: u64) -> FrameAllocatorProxy {
    let kernel = FrameRange::new(0x10_0000, 0x10_1000);
    let multiboot = FrameRange::new(0x10_1000, 0x10_2000);
    FrameAllocatorProxy::new(AreaFrameAllocator::new(
        vec![MemoryArea { base_addr: base, length }],
        kernel,
        multiboot,
    ))
}

fn booted(frames: u64) -> Machine {
    Machine::boot(frames_from(0x40_0000, frames * 4096)).unwrap()
}

fn flags(bits: u64) -> EntryFlags {
    EntryFlags::from_bits_truncate(bits)
}

#[test]
fn page_round_trip_clears_low_bits() {
    for v in [0u64, 0xfff, 0x1000, 0x7fff_dead_beef, 0xffff_8800_0000_1234, u64::MAX] {
        assert_eq!(Page::from_vaddress(v).start_address(), v & !(4096 - 1));
    }
}

#[test]
fn page_range_steps_through_pages() {
    let mut r = PageRange::new(0x3000, 0x5001);
    assert_eq!(r.start.number, 3);
    assert_eq!(r.end.number, 6);
    assert_eq!(r.next(), Some(Page { number: 3 }));
    assert_eq!(r.nth(1), Some(Page { number: 5 }));
    assert_eq!(r.next(), None);
    let mut s = PageRange::new(0x3000, 0x5001);
    assert_eq!(s.nth(3), None);
    assert_eq!(s.next(), None);
}

#[test]
fn address_parts() {
    let v: u64 = 0xffff_8801_0020_3abc;
    assert_eq!(pml4t_index(v), 272);
    assert_eq!(pdpt_index(v), 4);
    assert_eq!(pdt_index(v), 1);
    assert_eq!(pt_index(v), 3);
    assert_eq!(offset(v), 0xabc);
    assert_eq!(pml4t_index(0o177777_777_777_777_777_0000), 511);
}

#[test]
fn valid_addresses() {
    assert!(is_valid_address(0));
    assert!(is_valid_address(0x0000_7fff_ffff_ffff));
    assert!(!is_valid_address(0x0000_8000_0000_0000));
    assert!(!is_valid_address(0xffff_7fff_ffff_ffff));
    assert!(is_valid_address(0xffff_8000_0000_0000));
    assert!(is_valid_address(0xffff_8000_0000_0001));
    assert!(is_page_ok(0xffff_8000_0000_0));
    assert!(is_valid_address(u64::MAX));
    assert!(is_page_ok(0x4000));
    assert!(!is_page_ok(0x8_0000_0000));
    assert!(is_page_ok(0xffff_8800_0000_0));
    assert!(!is_page_ok(0xffff_ff80_0000_0));
}

#[test]
fn entry_flags_operations() {
    let f = flags(PRESENT | WRITABLE | ADDRESS_BITS_MASK);
    assert_eq!(f.bits(), 3);
    assert!(f.contains(PRESENT));
    assert!(f.contains(PRESENT | WRITABLE));
    assert!(!f.contains(USER));
    assert!(!f.is_empty());
    assert!(EntryFlags::empty().is_empty());
    assert_eq!(f.union(NO_EXECUTE).bits(), 0x8000_0000_0000_0003);
}

#[test]
fn page_entry_holds_frame_and_flags() {
    let mut e = PageEntry::new();
    assert!(e.is_unused());
    assert_eq!(e.pointed_frame(), None);
    e.set(Frame { number: 0x1234 }, flags(PRESENT | USER | NO_EXECUTE));
    assert_eq!(e.0, 0x8000_0000_0123_4005);
    assert!(!e.is_unused());
    assert_eq!(e.pointed_frame(), Some(Frame { number: 0x1234 }));
    assert_eq!(e.flags().bits(), 0x8000_0000_0000_0005);
    // without PRESENT the entry names no frame
    e.set(Frame { number: 0x1234 }, flags(WRITABLE));
    assert_eq!(e.pointed_frame(), None);
    e.set_unused();
    assert!(e.is_unused());
}

#[test]
fn table_has_512_entries() {
    let mut t = Table::new(Level::PT);
    assert_eq!(t.entries.len(), 512);
    t.put(511, PageEntry(7));
    assert_eq!(t.get(511), PageEntry(7));
    t.zero();
    assert!(t.entries.iter().all(|e| e.is_unused()));
    assert_eq!(Level::PML4T.next_level(), Some(Level::PDPT));
    assert_eq!(Level::PT.next_level(), None);
}

#[test]
fn boot_gives_recursive_top_table() {
    let m = booted(16);
    assert_eq!(m.cr3(), 0x40_0000);
    assert_eq!(m.top_frame(), 0x400);
    let e = m.memory.read(0x400, 511).unwrap();
    assert_eq!(e.pointed_frame(), Some(Frame { number: 0x400 }));
    assert!(e.flags().contains(PRESENT | WRITABLE));
    assert_eq!(m.memory.level_of(0x400), Some(Level::PML4T));
    assert_eq!(m.memory.level_of(0x401), None);
}

#[test]
fn boot_fails_without_frames() {
    let kernel = FrameRange::new(0x10_0000, 0x10_1000);
    let multiboot = FrameRange::new(0x10_1000, 0x10_2000);
    let empty = FrameAllocatorProxy::new(AreaFrameAllocator::new(vec![], kernel, multiboot));
    assert!(matches!(Machine::boot(empty), Err(MapError::OutOfFrames)));
}

#[test]
fn map_to_then_translate() {
    let mut m = booted(16);
    let mut mapper = Mapper::new();
    let page = Page::from_vaddress(0x6218_2035_3201);
    let va = page.start_address();
    assert_eq!(mapper.translate(&m, va), None);
    assert_eq!(mapper.map_to(&mut m, page, Frame { number: 0x999 }, EntryFlags::empty()), Ok(()));
    assert_eq!(mapper.translate(&m, va), Some(0x999 * 4096));
    assert_eq!(mapper.translate(&m, va + 0x123), Some(0x999 * 4096 + 0x123));
    assert_eq!(mapper.translate(&m, va + 4096), None);
    assert_eq!(mapper.translate(&m, va - 1), None);
    // three tables were made, in the next three frames
    assert_eq!(m.memory.level_of(0x401), Some(Level::PDPT));
    assert_eq!(m.memory.level_of(0x402), Some(Level::PDT));
    assert_eq!(m.memory.level_of(0x403), Some(Level::PT));
    assert_eq!(m.alloc_frame(), Some(Frame { number: 0x404 }));
    // the tables between are present, writable and open to user mode
    let e = m.memory.read(0x400, pml4t_index(va)).unwrap();
    assert_eq!(e.flags().bits(), PRESENT | WRITABLE | USER);
    // the recursive entry is as it was
    assert_eq!(m.top_frame(), 0x400);
}

#[test]
fn map_to_sets_present_with_the_flags() {
    let mut m = booted(16);
    let mut mapper = Mapper::new();
    let page = Page::from_vaddress(0x7fff_dead_b000);
    mapper.map_to(&mut m, page, Frame { number: 0x55 }, flags(WRITABLE | NO_EXECUTE)).unwrap();
    let t3 = m.next_level_table(0x400, pml4t_index(page.start_address())).unwrap();
    let t2 = m.next_level_table(t3, pdpt_index(page.start_address())).unwrap();
    let t1 = m.next_level_table(t2, pdt_index(page.start_address())).unwrap();
    let leaf = m.memory.read(t1, pt_index(page.start_address())).unwrap();
    assert_eq!(leaf.flags().bits(), PRESENT | WRITABLE | NO_EXECUTE);
    assert_eq!(leaf.pointed_frame(), Some(Frame { number: 0x55 }));
}

#[test]
fn map_to_reuses_tables() {
    let mut m = booted(16);
    let mut mapper = Mapper::new();
    let first = Page::from_vaddress(0x20_0000);
    assert_eq!(mapper.map_to(&mut m, first, Frame { number: 1 }, flags(WRITABLE)), Ok(()));
    assert_eq!(mapper.map_to(&mut m, first.plus(1), Frame { number: 2 }, flags(WRITABLE)), Ok(()));
    assert_eq!(m.alloc_frame(), Some(Frame { number: 0x404 }));
    assert_eq!(mapper.translate(&m, 0x20_0000), Some(0x1000));
    assert_eq!(mapper.translate(&m, 0x20_1fff), Some(0x2fff));
}

#[test]
fn map_takes_a_frame_from_the_allocator() {
    let mut m = booted(16);
    let mut mapper = Mapper::new();
    let page = Page::from_vaddress(0x1000_0000);
    let frame = mapper.map(&mut m, page, flags(USER)).unwrap();
    assert_eq!(frame, Frame { number: 0x401 });
    assert_eq!(mapper.translate(&m, 0x1000_0abc), Some(0x401 * 4096 + 0xabc));
}

#[test]
fn identity_map_maps_a_frame_to_its_own_address() {
    let mut m = booted(16);
    let mut mapper = Mapper::new();
    assert_eq!(mapper.identity_map(&mut m, Frame { number: 0xb8 }, flags(WRITABLE)), Ok(()));
    assert_eq!(mapper.translate(&m, 0xb8000), Some(0xb8000));
    assert_eq!(mapper.translate(&m, 0xb8f9f), Some(0xb8f9f));
}

#[test]
fn map_to_reports_exhaustion() {
    // one frame for the top table, two for tables: the third table cannot be made
    let mut m = booted(3);
    let mut mapper = Mapper::new();
    let page = Page::from_vaddress(0x4000_0000);
    assert_eq!(
        mapper.map_to(&mut m, page, Frame { number: 9 }, flags(WRITABLE)),
        Err(MapError::OutOfFrames)
    );
    assert_eq!(mapper.translate(&m, 0x4000_0000), None);
    assert_eq!(mapper.map(&mut m, page, flags(WRITABLE)), Err(MapError::OutOfFrames));
}

#[test]
fn map_to_reports_frames_that_hold_tables() {
    // two areas over the same frames: the allocator hands the top table's frame out again
    let kernel = FrameRange::new(0x10_0000, 0x10_1000);
    let multiboot = FrameRange::new(0x10_1000, 0x10_2000);
    let frames = FrameAllocatorProxy::new(AreaFrameAllocator::new(
        vec![
            MemoryArea { base_addr: 0x40_0000, length: 0x1000 },
            MemoryArea { base_addr: 0x40_0000, length: 0x1000 },
        ],
        kernel,
        multiboot,
    ));
    let mut m = Machine::boot(frames).unwrap();
    let mut mapper = Mapper::new();
    let page = Page::from_vaddress(0x4000_0000);
    assert_eq!(
        mapper.map_to(&mut m, page, Frame { number: 9 }, flags(WRITABLE)),
        Err(MapError::FrameUnusable)
    );
}

#[test]
fn boot_reports_frames_beyond_the_address_bits() {
    let kernel = FrameRange::new(0x10_0000, 0x10_1000);
    let multiboot = FrameRange::new(0x10_1000, 0x10_2000);
    let frames = FrameAllocatorProxy::new(AreaFrameAllocator::new(
        vec![MemoryArea { base_addr: 0x0010_0000_0000_0000, length: 0x4000 }],
        kernel,
        multiboot,
    ));
    assert!(matches!(Machine::boot(frames), Err(MapError::FrameUnusable)));
}

#[test]
fn unmap_clears_translation_and_cache() {
    let mut m = booted(16);
    let mut mapper = Mapper::new();
    let page = Page::from_vaddress(0x7fff_dead_b000);
    let other = page.plus(100);
    mapper.map_to(&mut m, page, Frame { number: 0x70 }, flags(WRITABLE)).unwrap();
    mapper.map_to(&mut m, other, Frame { number: 0x71 }, flags(WRITABLE)).unwrap();
    // both pages are touched, so both translations are cached
    assert_eq!(m.access(0x7fff_dead_b010), Some(0x70 * 4096 + 0x10));
    assert_eq!(m.access(other.start_address()), Some(0x71 * 4096));
    assert!(m.tlb_contains(0x7fff_dead_b000));
    mapper.unmap(&mut m, page);
    assert_eq!(mapper.translate(&m, 0x7fff_dead_b000), None);
    assert!(!m.tlb_contains(0x7fff_dead_b000));
    assert_eq!(m.access(0x7fff_dead_b010), None);
    // the other page is as it was
    assert!(m.tlb_contains(other.start_address()));
    assert_eq!(mapper.translate(&m, other.start_address()), Some(0x71 * 4096));
    // the tables stay
    assert_eq!(m.memory.level_of(0x403), Some(Level::PT));
    // the page can be mapped again
    assert_eq!(mapper.map_to(&mut m, page, Frame { number: 0x72 }, flags(WRITABLE)), Ok(()));
    assert_eq!(mapper.translate(&m, 0x7fff_dead_b000), Some(0x72 * 4096));
}

#[test]
fn stale_translation_stays_until_flushed() {
    let mut m = booted(16);
    let mut mapper = Mapper::new();
    let page = Page::from_vaddress(0x5000_0000);
    mapper.map_to(&mut m, page, Frame { number: 0x70 }, flags(WRITABLE)).unwrap();
    assert_eq!(m.access(0x5000_0000), Some(0x70 * 4096));
    m.tlb_flush_all();
    assert!(!m.tlb_contains(0x5000_0000));
    assert_eq!(m.access(0x5000_0004), Some(0x70 * 4096 + 4));
    m.tlb_flush(0x5000_0fff);
    assert!(!m.tlb_contains(0x5000_0000));
    m.cr3_set(m.cr3());
    assert!(!m.tlb_contains(0x5000_0000));
}

fn with_huge_pages() -> (PhysicalMemory, u64) {
    // top table in frame 1, a table of the third level in frame 2, one of the second in frame 3
    let mut mem = PhysicalMemory::new();
    mem.insert_zeroed(1, Level::PML4T);
    mem.insert_zeroed(2, Level::PDPT);
    mem.insert_zeroed(3, Level::PDT);
    let mut e = PageEntry::new();
    e.set(Frame { number: 1 }, flags(PRESENT | WRITABLE));
    mem.write(1, 511, e);
    e.set(Frame { number: 2 }, flags(PRESENT | WRITABLE));
    mem.write(1, 0, e);
    e.set(Frame { number: 3 }, flags(PRESENT | WRITABLE));
    mem.write(2, 0, e);
    // 2 MiB at 4 MiB -> physical 0x4000_0000
    e.set(Frame { number: 0x40000 }, flags(PRESENT | WRITABLE | HUGE_PAGE));
    mem.write(3, 2, e);
    // 1 GiB at 1 GiB -> physical 0x1_0000_0000
    e.set(Frame { number: 0x100000 }, flags(PRESENT | WRITABLE | HUGE_PAGE));
    mem.write(2, 1, e);
    (mem, 1)
}

#[test]
fn huge_page_of_2mib_translates_every_offset() {
    let (mem, root) = with_huge_pages();
    let base: u64 = 0x40_0000;
    for off in [0u64, 1, 0xfff, 0x1000, 0x12_3456, 0x1f_ffff] {
        assert_eq!(translate_from(&mem, root, base + off), Some(0x4000_0000 + off));
    }
    assert_eq!(translate_from(&mem, root, base + 0x20_0000), None);
    assert_eq!(translate_from(&mem, root, base - 1), None);
}

#[test]
fn huge_page_of_1gib_translates_every_offset() {
    let (mem, root) = with_huge_pages();
    let base: u64 = 0x4000_0000;
    for off in [0u64, 0xfff, 0x20_0000, 0x3fff_ffff] {
        assert_eq!(translate_from(&mem, root, base + off), Some(0x1_0000_0000 + off));
    }
    assert_eq!(translate_from(&mem, root, 0x8000_0000), None);
}

#[test]
fn translate_stops_at_entries_that_are_not_present() {
    let (mut mem, root) = with_huge_pages();
    assert_eq!(translate_from(&mem, root, 0x8_0000_0000), None);
    assert_eq!(translate_from(&mem, 99, 0x40_0000), None);
    // a huge page in the top table maps nothing
    let mut e = PageEntry::new();
    e.set(Frame { number: 0x40000 }, flags(PRESENT | HUGE_PAGE));
    mem.write(1, 5, e);
    assert_eq!(translate_from(&mem, root, 5 << 39), None);
}

#[test]
fn mappable_pages() {
    let mut m = booted(16);
    let mut mapper = Mapper::new();
    let page = Page::from_vaddress(0x20_0000);
    assert!(mappable_from(&m.memory, 0x400, 0x20_0000));
    assert!(range_mappable(&m.memory, 0x400, page, 4));
    mapper.map_to(&mut m, page.plus(2), Frame { number: 1 }, flags(WRITABLE)).unwrap();
    assert!(mappable_from(&m.memory, 0x400, 0x20_0000));
    assert!(!mappable_from(&m.memory, 0x400, 0x20_2000));
    assert!(range_mappable(&m.memory, 0x400, page, 2));
    assert!(!range_mappable(&m.memory, 0x400, page, 3));
    // pages in the hole cannot be walked for
    assert!(!range_mappable(&m.memory, 0x400, Page { number: 0x7_ffff_ffff }, 2));
    assert!(!range_mappable(&m.memory, 0x400, Page { number: u64::MAX }, 2));
    // a page under a huge page cannot be mapped without writing over it
    let (mem, root) = with_huge_pages();
    assert!(!mappable_from(&mem, root, 0x40_0000));
    assert!(mappable_from(&mem, root, 0x60_0000));
}

#[test]
fn mapper_gets_top_table() {
    let m = booted(4);
    let mapper = Mapper::new();
    let t = mapper.get(&m);
    assert_eq!(t.level, Level::PML4T);
    assert_eq!(t.entries[511].pointed_frame(), Some(Frame { number: 0x400 }));
}

#[test]
fn the_hole_is_never_reached() {
    let mut m = booted(16);
    let mut mapper = Mapper::new();
    let page = Page::from_vaddress(0x7fff_dead_b000);
    mapper.map_to(&mut m, page, Frame { number: 0x70 }, flags(WRITABLE)).unwrap();
    assert_eq!(m.access(0x0000_7fff_dead_b010), Some(0x70 * 4096 + 0x10));
    // the same bits below bit 48, in the hole: the tables are not asked
    for hole in [0x0001_7fff_dead_b010u64, 0x8000_7fff_dead_b010, 0xffff_7fff_dead_b010, 0x0000_8000_0000_0000] {
        assert!(!is_valid_address(hole));
        assert_eq!(m.access(hole), None);
    }
    assert!(!is_page_ok(0x8_0000_0000));
    assert!(is_page_ok(0x7_ffff_ffff));
}

#[test]
fn an_entry_that_is_not_present_is_unused() {
    assert!(PageEntry::new().is_unused());
    assert!(PageEntry(SWAPPED_OUT | 0x5000).is_unused());
    assert!(!PageEntry(PRESENT).is_unused());
    let mut m = booted(16);
    let mut mapper = Mapper::new();
    let page = Page::from_vaddress(0x5000_0000);
    mapper.map_to(&mut m, page, Frame { number: 0x70 }, flags(WRITABLE)).unwrap();
    mapper.unmap(&mut m, page);
    // what is left in an entry without PRESENT does not count
    let root = m.cr3() / 4096;
    let t3 = m.next_level_table(root, pml4t_index(0x5000_0000)).unwrap();
    let t2 = m.next_level_table(t3, pdpt_index(0x5000_0000)).unwrap();
    let t1 = m.next_level_table(t2, pdt_index(0x5000_0000)).unwrap();
    m.memory.write(t1, pt_index(0x5000_0000), PageEntry(SWAPPED_OUT | 0x1234_5000));
    assert!(mappable_from(&m.memory, root, 0x5000_0000));
    assert_eq!(mapper.translate(&m, 0x5000_0000), None);
    assert_eq!(mapper.map_to(&mut m, page, Frame { number: 0x71 }, flags(WRITABLE | USER)), Ok(()));
    assert_eq!(mapper.translate(&m, 0x5000_0123), Some(0x71 * 4096 + 0x123));
    assert_eq!(m.memory.read(t1, pt_index(0x5000_0000)).unwrap(), PageEntry(0x71 * 4096 | PRESENT | WRITABLE | USER));
}
