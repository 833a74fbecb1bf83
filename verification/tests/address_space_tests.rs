use sos2::arch::cpu::{Cpu, CR0_WRITE_PROTECT, EFER_NXE};
use sos2::memory::address_space::{create_address_space, remap_the_kernel, switch, ActivePML4Table,
    MapRange, TEMPORARY_PAGE_ADDRESS};
use sos2::memory::boot::{BootInformation, ElfSection, FramebufferInfo, Module,
    ELF_SECTION_ALLOCATED, ELF_SECTION_EXECUTABLE, ELF_SECTION_WRITABLE, KERNEL_BASE};
use sos2::memory::frame::{Frame, MemoryArea};
use sos2::memory::inactive::{InactivePML4Table, TemporaryPage};
use sos2::memory::machine::{Machine, MapError};
use sos2::memory::mapper::{translate_from, Mapper};
use sos2::memory::paging::{pml4t_index, pdpt_index, pdt_index, pt_index, EntryFlags, Level, Page,
    PageEntry, NO_EXECUTE, PRESENT, WRITABLE};
use sos2::memory::physical::PhysicalMemory;
use sos2::memory::stack_allocator::{Stack, StackAllocator};
use sos2::memory::{align_up, init, kernel_mapping, MemoryManager};

fn boot_information() -> BootInformation {
    BootInformation {
        start_address: KERNEL_BASE + 0x30_0000,
        end_address: KERNEL_BASE + 0x30_0800,
        memory_areas: vec![MemoryArea { base_addr: 0x10_0000, length: 0x7f0_0000 }],
        elf_sections: vec![
            ElfSection {
                addr: KERNEL_BASE + 0x10_0000,
                size: 0x3000,
                flags: ELF_SECTION_ALLOCATED | ELF_SECTION_EXECUTABLE,
            },
            ElfSection {
                addr: KERNEL_BASE + 0x10_3000,
                size: 0x2000,
                flags: ELF_SECTION_ALLOCATED | ELF_SECTION_WRITABLE,
            },
            ElfSection { addr: 0, size: 0x100, flags: 0 },
            ElfSection {
                addr: 0x8000,
                size: 0x3000,
                flags: ELF_SECTION_ALLOCATED | ELF_SECTION_WRITABLE,
            },
        ],
        framebuffer: FramebufferInfo {
            addr: 0xfd00_0000,
            pitch: 4096,
            width: 1024,
            height: 768,
            bpp: 32,
            is_rgb: true,
        },
        modules: vec![Module { start: 0x20_0000, end: 0x20_1000, name: String::from("init") }],
    }
}

fn booted(info: &BootInformation) -> Machine {
    Machine::boot(info.frame_allocator()).unwrap()
}

fn leaf_flags(m: &Machine, root: u64, va: u64) -> u64 {
    let t3 = m.next_level_table(root, pml4t_index(va)).unwrap();
    let t2 = m.next_level_table(t3, pdpt_index(va)).unwrap();
    let t1 = m.next_level_table(t2, pdt_index(va)).unwrap();
    m.memory.read(t1, pt_index(va)).unwrap().flags().bits()
}

#[test]
fn frame_allocator_from_boot_information() {
    let info = boot_information();
    let mut frames = info.frame_allocator();
    // the kernel holds the frames from its boot section at 0x8000 up to 0x105
    assert_eq!(frames.allocator.kernel.start, Frame { number: 8 });
    assert_eq!(frames.allocator.kernel.end, Frame { number: 0x105 });
    // the module and the boot information hold 0x200..0x301
    assert_eq!(frames.allocator.multiboot.start, Frame { number: 0x200 });
    assert_eq!(frames.allocator.multiboot.end, Frame { number: 0x301 });
    assert_eq!(frames.alloc_frame(), Some(Frame { number: 0x105 }));
    for n in 0x106..0x200u64 {
        assert_eq!(frames.alloc_frame(), Some(Frame { number: n }));
    }
    assert_eq!(frames.alloc_frame(), Some(Frame { number: 0x301 }));
}

#[test]
fn kernel_ranges_follow_the_boot_information() {
    let info = boot_information();
    let ranges = info.kernel_ranges();
    let base = KERNEL_BASE / 4096;
    let expect: Vec<(u64, u64, u64, u64)> = vec![
        (base + 0x100, 3, 0x100, PRESENT),
        (base + 0x103, 2, 0x103, PRESENT | NO_EXECUTE | WRITABLE),
        (base + 9, 2, 9, PRESENT | NO_EXECUTE | WRITABLE),
        (base + 0xb8, 1, 0xb8, WRITABLE),
        (base + 0xfd000, 768, 0xfd000, WRITABLE),
        (base + 0x300, 1, 0x300, 0),
        (0xffff_8801_0000_0, 8192, 0x6000, WRITABLE),
    ];
    assert_eq!(ranges.len(), expect.len());
    for (r, e) in ranges.iter().zip(expect.iter()) {
        assert_eq!(r.start.number, e.0);
        assert_eq!(r.count, e.1);
        assert_eq!(r.first, Some(Frame { number: e.2 }));
        assert_eq!(r.flags.bits(), e.3);
    }
}

#[test]
fn legacy_console_is_not_mapped_twice() {
    let mut info = boot_information();
    info.framebuffer.addr = 0xb8000;
    info.framebuffer.pitch = 160;
    info.framebuffer.height = 25;
    let ranges = info.kernel_ranges();
    assert_eq!(ranges.len(), 6);
    assert_eq!(ranges[3].start.number, KERNEL_BASE / 4096 + 0xb8);
    assert_eq!(ranges[3].count, 1);
}

#[test]
fn new_inactive_table_is_recursive_and_empty() {
    let info = boot_information();
    let mut m = booted(&info);
    let mut active = ActivePML4Table::new();
    let mut temp = TemporaryPage::new(Page::from_vaddress(TEMPORARY_PAGE_ADDRESS), &mut m);
    assert_eq!(temp.allocator.frames.len(), 3);
    let frame = m.alloc_frame().unwrap();
    let t = InactivePML4Table::new(frame, &mut active, &mut temp, &mut m).unwrap();
    assert_eq!(t.pml4_frame, frame);
    let e = m.memory.read(frame.number, 511).unwrap();
    assert_eq!(e.pointed_frame(), Some(frame));
    for i in 0..511 {
        assert!(m.memory.read(frame.number, i).unwrap().is_unused());
    }
    // the temporary page is unmapped again, and the active table still refers to itself
    assert_eq!(active.mapper.translate(&m, TEMPORARY_PAGE_ADDRESS), None);
    assert_eq!(m.top_frame(), m.cr3() / 4096);
}

#[test]
fn with_maps_into_the_inactive_space_only() {
    let info = boot_information();
    let mut m = booted(&info);
    let mut active = ActivePML4Table::new();
    active.mapper.map_to(&mut m, Page::from_vaddress(0x1000), Frame { number: 0x77 },
        EntryFlags::from_bits_truncate(WRITABLE)).unwrap();
    let mut temp = TemporaryPage::new(Page::from_vaddress(TEMPORARY_PAGE_ADDRESS), &mut m);
    let frame = m.alloc_frame().unwrap();
    let mut inactive = InactivePML4Table::new(frame, &mut active, &mut temp, &mut m).unwrap();
    let ranges = vec![
        MapRange {
            start: Page::from_vaddress(0x40_0000),
            count: 3,
            first: Some(Frame { number: 0x500 }),
            flags: EntryFlags::from_bits_truncate(WRITABLE),
        },
        MapRange {
            start: Page::from_vaddress(0x80_0000),
            count: 2,
            first: None,
            flags: EntryFlags::from_bits_truncate(NO_EXECUTE),
        },
    ];
    let active_frame = m.cr3() / 4096;
    assert_eq!(active.with(&mut inactive, &mut temp, &ranges, &mut m), Ok(()));
    // entry 511 of both top tables refers to the table's own frame
    assert_eq!(m.top_frame(), active_frame);
    assert_eq!(m.memory.read(active_frame, 511).unwrap().pointed_frame(), Some(Frame { number: active_frame }));
    assert_eq!(m.memory.read(frame.number, 511).unwrap().pointed_frame(), Some(frame));
    // the inactive space has the ranges
    for i in 0..3u64 {
        assert_eq!(
            translate_from(&m.memory, frame.number, 0x40_0000 + i * 4096 + 5),
            Some((0x500 + i) * 4096 + 5)
        );
    }
    assert!(translate_from(&m.memory, frame.number, 0x80_0000).is_some());
    assert!(translate_from(&m.memory, frame.number, 0x80_1000).is_some());
    assert_eq!(translate_from(&m.memory, frame.number, 0x80_2000), None);
    assert_eq!(leaf_flags(&m, frame.number, 0x80_0000), NO_EXECUTE | PRESENT);
    assert_eq!(translate_from(&m.memory, frame.number, 0x1000), None);
    // the active space is as it was
    assert_eq!(active.mapper.translate(&m, 0x1000), Some(0x77 * 4096));
    assert_eq!(active.mapper.translate(&m, 0x40_0000), None);
    assert_eq!(active.mapper.translate(&m, TEMPORARY_PAGE_ADDRESS), None);
}

#[test]
fn create_address_space_maps_the_kernel() {
    let info = boot_information();
    let mut m = booted(&info);
    let active_frame = m.cr3() / 4096;
    let t = create_address_space(&mut m, &info).unwrap();
    let root = t.pml4_frame.number;
    assert_ne!(root, active_frame);
    assert_eq!(m.cr3() / 4096, active_frame);
    assert_eq!(m.memory.read(root, 511).unwrap().pointed_frame(), Some(t.pml4_frame));
    // kernel code and data
    assert_eq!(translate_from(&m.memory, root, KERNEL_BASE + 0x10_0000), Some(0x10_0000));
    assert_eq!(translate_from(&m.memory, root, KERNEL_BASE + 0x10_2fff), Some(0x10_2fff));
    assert_eq!(leaf_flags(&m, root, KERNEL_BASE + 0x10_0000), PRESENT);
    assert_eq!(translate_from(&m.memory, root, KERNEL_BASE + 0x10_4abc), Some(0x10_4abc));
    assert_eq!(leaf_flags(&m, root, KERNEL_BASE + 0x10_3000), PRESENT | WRITABLE | NO_EXECUTE);
    assert_eq!(translate_from(&m.memory, root, KERNEL_BASE + 0x10_5000), None);
    // the boot section: its first page is a guard
    assert_eq!(translate_from(&m.memory, root, KERNEL_BASE + 0x8000), None);
    assert_eq!(translate_from(&m.memory, root, KERNEL_BASE + 0x9000), Some(0x9000));
    assert_eq!(translate_from(&m.memory, root, KERNEL_BASE + 0xafff), Some(0xafff));
    assert_eq!(translate_from(&m.memory, root, KERNEL_BASE + 0xb000), None);
    // console, framebuffer, boot information
    assert_eq!(translate_from(&m.memory, root, KERNEL_BASE + 0xb8000), Some(0xb8000));
    assert_eq!(translate_from(&m.memory, root, KERNEL_BASE + 0xfd00_0000), Some(0xfd00_0000));
    assert_eq!(translate_from(&m.memory, root, KERNEL_BASE + 0xfd2f_ffff), Some(0xfd2f_ffff));
    assert_eq!(translate_from(&m.memory, root, KERNEL_BASE + 0xfd30_0000), None);
    assert_eq!(translate_from(&m.memory, root, KERNEL_BASE + 0x30_0123), Some(0x30_0123));
    // the heap: the last 32 MiB of memory
    assert_eq!(translate_from(&m.memory, root, 0xffff_8801_0000_0000), Some(0x600_0000));
    assert_eq!(translate_from(&m.memory, root, 0xffff_8801_01ff_ffff), Some(0x7ff_ffff));
    assert_eq!(translate_from(&m.memory, root, 0xffff_8801_0200_0000), None);
    // nothing of it shows in the active space
    let mapper = Mapper::new();
    assert_eq!(mapper.translate(&m, KERNEL_BASE + 0x10_0000), None);
    assert_eq!(mapper.translate(&m, TEMPORARY_PAGE_ADDRESS), None);
}

#[test]
fn create_address_space_reports_exhaustion() {
    let info = boot_information();
    let mut m = booted(&info);
    while m.alloc_frame().is_some() {}
    let active_frame = m.cr3() / 4096;
    assert!(matches!(create_address_space(&mut m, &info), Err(MapError::OutOfFrames)));
    assert_eq!(m.cr3() / 4096, active_frame);
    assert_eq!(m.top_frame(), active_frame);
    let mapper = Mapper::new();
    assert_eq!(mapper.translate(&m, TEMPORARY_PAGE_ADDRESS), None);
}

#[test]
fn remap_switches_to_the_new_space() {
    let info = boot_information();
    let mut m = booted(&info);
    m.access(0x1234);
    let before = m.cr3();
    assert_eq!(remap_the_kernel(&mut m, &info), Ok(()));
    assert_ne!(m.cr3(), before);
    assert_eq!(m.top_frame(), m.cr3() / 4096);
    let mapper = Mapper::new();
    assert_eq!(mapper.translate(&m, KERNEL_BASE + 0x10_0123), Some(0x10_0123));
    // a mapped byte of kernel code is read at the same physical address as before
    assert_eq!(m.access(KERNEL_BASE + 0x10_0123), Some(0x10_0123));
    let kernel = m.cr3();
    let old = switch(&mut m, InactivePML4Table { pml4_frame: Frame::from_paddress(before) });
    assert_eq!(m.cr3(), before);
    assert_eq!(old.pml4_frame.start_address(), kernel);
    assert!(!m.tlb_contains(KERNEL_BASE + 0x10_0123));
}

#[test]
fn alloc_stack_leaves_a_guard_page() {
    let info = boot_information();
    let mut m = booted(&info);
    let mut active = ActivePML4Table::new();
    let start = Page::from_vaddress(0x7000_0000);
    let mut stacks = StackAllocator::new(start, start.plus(5));
    let s = stacks.alloc_stack(&mut active, &mut m, 1).unwrap();
    // one guard page and one page of stack are gone
    assert_eq!(stacks.pages.start.number, start.number + 2);
    assert_eq!(s.bottom(), 0x7000_1000);
    assert_eq!(s.top(), 0x7000_2000);
    assert!(s.top() > s.bottom());
    assert_eq!(active.mapper.translate(&m, s.bottom() - 1), None);
    assert_eq!(active.mapper.translate(&m, 0x7000_0000), None);
    assert!(active.mapper.translate(&m, s.bottom()).is_some());
    assert!(active.mapper.translate(&m, s.top() - 1).is_some());
    assert_eq!(active.mapper.translate(&m, s.top()), None);
    // the stack can be written to and not executed
    let root = m.cr3() / 4096;
    assert_eq!(leaf_flags(&m, root, s.bottom()), PRESENT | WRITABLE | NO_EXECUTE);
    let t = stacks.alloc_stack(&mut active, &mut m, 2).unwrap();
    assert_eq!(t.bottom(), 0x7000_3000);
    assert_eq!(t.top(), 0x7000_5000);
    assert_eq!(active.mapper.translate(&m, 0x7000_2000), None);
    assert_eq!(stacks.pages.start.number, start.number + 5);
    // the arena is used up
    assert!(stacks.alloc_stack(&mut active, &mut m, 1).is_none());
    assert_eq!(stacks.pages.start.number, start.number + 5);
}

#[test]
fn alloc_stack_needs_room_for_the_guard() {
    let info = boot_information();
    let mut m = booted(&info);
    let mut active = ActivePML4Table::new();
    let start = Page::from_vaddress(0x7000_0000);
    let mut stacks = StackAllocator::new(start, start.plus(3));
    assert!(stacks.alloc_stack(&mut active, &mut m, 3).is_none());
    assert_eq!(stacks.pages.start, start);
    assert_eq!(active.mapper.translate(&m, 0x7000_1000), None);
    assert!(stacks.alloc_stack(&mut active, &mut m, 2).is_some());
}

#[test]
fn stack_keeps_top_and_bottom() {
    let s = Stack::new(0x5000, 0x3000);
    assert_eq!(s.top(), 0x5000);
    assert_eq!(s.bottom(), 0x3000);
}

#[test]
fn memory_schema() {
    let k = kernel_mapping();
    assert_eq!(k.UserCode.start, 0x0400_0000);
    assert_eq!(k.UserStack.start, 0x7fff_ff80_0000);
    assert_eq!(k.UserStack.end, 0x7fff_ffff_efff);
    assert_eq!(k.KernelMap.start, 0xffff_8800_0000_0000);
    assert_eq!(k.KernelHeap.end - k.KernelHeap.start + 1, 32 * 1024 * 1024);
    assert!(k.Invalid.contains(0x8000_0000_0000));
    assert!(!k.Invalid.contains(0x7fff_ffff_ffff));
    assert_eq!(align_up(0x1001, 0x1000), 0x2000);
    assert_eq!(align_up(0x2000, 0x1000), 0x2000);
    assert_eq!(align_up(7, 1), 7);
}

#[test]
fn memory_init_sets_up_the_kernel_space() {
    let info = boot_information();
    // what the boot code leaves: a top table in frame 0x80 that refers to itself
    let mut tables = PhysicalMemory::new();
    tables.insert_zeroed(0x80, Level::PML4T);
    let mut e = PageEntry::new();
    e.set(Frame { number: 0x80 }, EntryFlags::from_bits_truncate(PRESENT | WRITABLE));
    tables.write(0x80, 511, e);
    let mut cpu = Cpu::new();
    let mut mm: MemoryManager = init(info, tables, 0x80 * 4096, &mut cpu).unwrap();
    assert_eq!(cpu.efer & EFER_NXE, EFER_NXE);
    assert_eq!(cpu.cr0 & CR0_WRITE_PROTECT, CR0_WRITE_PROTECT);
    assert_ne!(mm.machine.cr3(), 0x80 * 4096);
    assert_eq!(mm.kernelPML4Table.pml4_frame.start_address(), mm.machine.cr3());
    let start = (KERNEL_BASE + 0x30_1000) / 4096;
    assert_eq!(mm.stackAllocator.pages.start.number, start);
    assert_eq!(mm.stackAllocator.pages.end.number, start + 32);
    let s = mm.alloc_stack(1).unwrap();
    assert_eq!(s.bottom(), KERNEL_BASE + 0x30_2000);
    assert_eq!(s.top(), KERNEL_BASE + 0x30_3000);
    assert_eq!(mm.stackAllocator.pages.start.number, start + 2);
    assert_eq!(mm.activePML4Table.mapper.translate(&mm.machine, KERNEL_BASE + 0x30_1000), None);
    assert_eq!(
        mm.activePML4Table.mapper.translate(&mm.machine, KERNEL_BASE + 0x10_0000),
        Some(0x10_0000)
    );
}
