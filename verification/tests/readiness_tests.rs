use sos2::console::{Attribute, Char};
use sos2::driver::video::framebuffer::{Framebuffer, Point, Rgba};
use sos2::interrupts::idt::Entry;
use sos2::memory::address_space::MapRange;
use sos2::memory::boot::{BootInformation, ElfSection, FramebufferInfo, Module, ELF_SECTION_ALLOCATED,
    ELF_SECTION_EXECUTABLE, KERNEL_BASE};
use sos2::memory::frame::{Frame, MemoryArea};
use sos2::memory::paging::{EntryFlags, Level, Page, PageEntry, HUGE_PAGE, PRESENT, WRITABLE};
use sos2::memory::physical::PhysicalMemory;
use sos2::memory::readiness::{area_ok, boot_ready, image_ready, information_ok, pages_walkable, range_ok,
    ranges_clear_of, ranges_disjoint, ranges_fit, referred_once, section_ok, tables_listed};

fn information() -> BootInformation {
    BootInformation {
        start_address: KERNEL_BASE + 0x30_0000,
        end_address: KERNEL_BASE + 0x30_0800,
        memory_areas: vec![MemoryArea { base_addr: 0x10_0000, length: 0x7f0_0000 }],
        elf_sections: vec![ElfSection {
            addr: KERNEL_BASE + 0x10_0000,
            size: 0x3000,
            flags: ELF_SECTION_ALLOCATED | ELF_SECTION_EXECUTABLE,
        }],
        framebuffer: FramebufferInfo { addr: 0xb8000, pitch: 160, width: 80, height: 25, bpp: 16, is_rgb: false },
        modules: vec![Module { start: 0x20_0000, end: 0x20_1000, name: String::from("init") }],
    }
}

fn entry(frame: u64, flags: u64) -> PageEntry {
    let mut e = PageEntry::new();
    e.set(Frame { number: frame }, EntryFlags::from_bits_truncate(flags));
    e
}

/// A top table in frame 0x80 that refers to itself, and under its first
/// entry a table in frame 0x81.
fn image() -> PhysicalMemory {
    let mut m = PhysicalMemory::new();
    m.insert_zeroed(0x80, Level::PML4T);
    m.insert_zeroed(0x81, Level::PDPT);
    m.write(0x80, 511, entry(0x80, PRESENT | WRITABLE));
    m.write(0x80, 0, entry(0x81, PRESENT | WRITABLE));
    m
}

fn range(start: u64, count: u64) -> MapRange {
    MapRange { start: Page { number: start }, count, first: None, flags: EntryFlags::from_bits_truncate(WRITABLE) }
}

#[test]
fn sections_and_areas() {
    let mut s = ElfSection { addr: 0x1000, size: 0x2000, flags: ELF_SECTION_ALLOCATED };
    assert!(section_ok(&s));
    s.addr = 0x1800;
    assert!(!section_ok(&s));
    s.flags = 0;
    assert!(section_ok(&s));
    s = ElfSection { addr: 0x1000, size: 0x2001, flags: ELF_SECTION_ALLOCATED };
    assert!(!section_ok(&s));
    s = ElfSection { addr: 0xffff_ffff_ffff_f000, size: 0x1000, flags: ELF_SECTION_ALLOCATED };
    assert!(!section_ok(&s));
    s = ElfSection { addr: 0x1000, size: 0, flags: ELF_SECTION_ALLOCATED };
    assert!(section_ok(&s));
    assert!(area_ok(&MemoryArea { base_addr: 0, length: 1 }));
    assert!(!area_ok(&MemoryArea { base_addr: 0, length: 0 }));
    assert!(!area_ok(&MemoryArea { base_addr: u64::MAX, length: 1 }));
}

#[test]
fn pages_that_can_be_walked_for() {
    assert!(pages_walkable(0, 16));
    assert!(pages_walkable(5, 0));
    // the last page below the hole, and the first in it
    assert!(pages_walkable(0x7_ffff_fff0, 16));
    assert!(!pages_walkable(0x7_ffff_fff0, 17));
    // the window of the recursive mapping
    assert!(pages_walkable(0xf_ffff_f7ff_ffff, 1));
    assert!(!pages_walkable(0xf_ffff_f800_0000, 1));
    assert!(!pages_walkable(0xf_ffff_f7ff_ffff, 2));
    assert!(!pages_walkable(u64::MAX, 2));
}

#[test]
fn ranges_that_fit() {
    assert!(range_ok(&range(0x100, 4)));
    assert!(!range_ok(&range(0x8_0000_0000, 1)));
    let mut to = range(0x100, 4);
    to.first = Some(Frame { number: 0xff_ffff_fffc });
    assert!(range_ok(&to));
    to.first = Some(Frame { number: 0xff_ffff_fffd });
    assert!(!range_ok(&to));
    to = range(0x100, 4);
    to.flags = EntryFlags { bits: 0x1000 };
    assert!(!range_ok(&to));

    assert!(ranges_disjoint(&range(0, 4), &range(4, 4)));
    assert!(!ranges_disjoint(&range(0, 5), &range(4, 4)));
    assert!(ranges_disjoint(&range(4, 0), &range(0, 8)));

    assert!(ranges_fit(&vec![]));
    assert!(ranges_fit(&vec![range(0, 4), range(8, 4), range(4, 4)]));
    assert!(!ranges_fit(&vec![range(0, 4), range(8, 4), range(3, 2)]));
    assert!(!ranges_fit(&vec![range(0, 4), range(0x8_0000_0000, 1)]));

    let rs = vec![range(0, 4), range(8, 4)];
    assert!(ranges_clear_of(&rs, 4, 4));
    assert!(!ranges_clear_of(&rs, 4, 5));
    assert!(ranges_clear_of(&rs, 2, 0));
    assert!(!ranges_clear_of(&rs, 3, 1));
}

#[test]
fn boot_information_that_can_be_used() {
    let info = information();
    assert!(information_ok(&info));
    assert!(boot_ready(&info));

    let mut no_module = information();
    no_module.modules.clear();
    assert!(!information_ok(&no_module));
    assert!(!boot_ready(&no_module));

    let mut no_image = information();
    no_image.elf_sections[0].flags = 0;
    assert!(!information_ok(&no_image));

    let mut low = information();
    low.start_address = 0x30_0000;
    assert!(!information_ok(&low));

    let mut small = information();
    small.memory_areas[0].length = 0x100_0000;
    assert!(!information_ok(&small));

    let mut crooked = information();
    crooked.elf_sections[0].addr += 8;
    assert!(!information_ok(&crooked));

    // a section on the pages of the boot information
    let mut twice = information();
    twice.elf_sections.push(ElfSection { addr: KERNEL_BASE + 0x30_0000, size: 0x1000, flags: ELF_SECTION_ALLOCATED });
    assert!(information_ok(&twice));
    assert!(!boot_ready(&twice));

    // a section on the stack arena, which begins after the boot information
    let mut arena = information();
    arena.elf_sections.push(ElfSection { addr: KERNEL_BASE + 0x30_5000, size: 0x1000, flags: ELF_SECTION_ALLOCATED });
    assert!(information_ok(&arena));
    assert!(!boot_ready(&arena));
}

#[test]
fn tables_that_can_be_used() {
    let m = image();
    assert!(tables_listed(&m, &vec![0x80, 0x81]));
    assert!(tables_listed(&m, &vec![0x81, 0x80]));
    assert!(!tables_listed(&m, &vec![0x80]));
    assert!(!tables_listed(&m, &vec![0x80, 0x80]));
    assert!(!tables_listed(&m, &vec![0x80, 0x82]));
    assert!(!tables_listed(&m, &vec![0x80, 0x81, 0x82]));
    assert!(referred_once(&m, &vec![0x80, 0x81]));
    assert!(image_ready(&m, &vec![0x80, 0x81], 0x80 * 4096));
    assert!(image_ready(&m, &vec![0x80, 0x81], 0x80 * 4096 + 0x18));
    // no top table there
    assert!(!image_ready(&m, &vec![0x80, 0x81], 0x81 * 4096));
    assert!(!image_ready(&m, &vec![0x80, 0x81], 0x90 * 4096));
    assert!(!image_ready(&m, &vec![0x80], 0x80 * 4096));
}

#[test]
fn tables_that_cannot_be_used() {
    // a table referred to twice
    let mut twice = image();
    twice.write(0x80, 1, entry(0x81, PRESENT));
    assert!(!referred_once(&twice, &vec![0x80, 0x81]));
    assert!(!image_ready(&twice, &vec![0x80, 0x81], 0x80 * 4096));
    // an entry that refers to no table
    let mut loose = image();
    loose.write(0x81, 3, entry(0x99, PRESENT));
    assert!(!image_ready(&loose, &vec![0x80, 0x81], 0x80 * 4096));
    // an entry that refers to a table of the wrong level
    let mut level = image();
    level.insert_zeroed(0x82, Level::PT);
    level.write(0x81, 3, entry(0x82, PRESENT));
    assert!(!image_ready(&level, &vec![0x80, 0x81, 0x82], 0x80 * 4096));
    // a huge page that does not start at a multiple of its size
    let mut huge = image();
    huge.write(0x81, 3, entry(0x4_0000, PRESENT | HUGE_PAGE));
    assert!(image_ready(&huge, &vec![0x80, 0x81], 0x80 * 4096));
    huge.write(0x81, 4, entry(0x4_0001, PRESENT | HUGE_PAGE));
    assert!(!image_ready(&huge, &vec![0x80, 0x81], 0x80 * 4096));
    // no last entry that refers to the table itself
    let mut plain = image();
    plain.write(0x80, 511, PageEntry::new());
    assert!(!image_ready(&plain, &vec![0x80, 0x81], 0x80 * 4096));
    // the page that inactive tables are edited through is taken: a huge
    // page lies on its way
    let mut taken = image();
    let index = ((0xffff_fcaf_ebee_f000u64 >> 39) & 511) as usize;
    taken.insert_zeroed(0x83, Level::PDPT);
    taken.write(0x80, index, entry(0x83, PRESENT));
    assert!(image_ready(&taken, &vec![0x80, 0x81, 0x83], 0x80 * 4096));
    let below = ((0xffff_fcaf_ebee_f000u64 >> 30) & 511) as usize;
    taken.write(0x83, below, entry(0x4_0000, PRESENT | HUGE_PAGE));
    assert!(!image_ready(&taken, &vec![0x80, 0x81, 0x83], 0x80 * 4096));
}

#[test]
fn entries_and_cells_as_the_hardware_reads_them() {
    let e = Entry::new(8, 0xffff_8800_1234_5678);
    assert_eq!(e.encode(), (0x1234_8e00_0008_5678, 0x0000_0000_ffff_8800));
    assert_eq!(Entry::empty().encode(), (0x0000_8e00_0000_0000, 0));
    assert_eq!(Char { ascii: b'A', attr: Attribute(0x1f) }.word(), 0x1f41);
}

#[test]
fn discs() {
    let ink = Rgba(0x00ff_ffff);
    let mut fb = Framebuffer::new(7, 7, 28);
    fb.spread_circle(Point { x: 3, y: 3 }, 2, ink);
    let inked = |x: i32, y: i32| fb.buf[(y * 7 + x) as usize] == ink;
    // the centre, the ends of the axes and what lies between them
    for p in [(3, 3), (1, 3), (2, 3), (4, 3), (5, 3), (3, 1), (3, 2), (3, 4), (3, 5)] {
        assert!(inked(p.0, p.1));
    }
    // nothing further than the radius away
    for y in 0..7 {
        for x in 0..7 {
            if inked(x, y) {
                assert!((x - 3) * (x - 3) + (y - 3) * (y - 3) <= 5);
            }
        }
    }
    let mut dot = Framebuffer::new(3, 3, 12);
    dot.spread_circle(Point { x: 1, y: 1 }, 0, ink);
    assert_eq!(dot.buf.iter().filter(|p| **p == ink).count(), 1);
    assert_eq!(dot.buf[4], ink);
}
