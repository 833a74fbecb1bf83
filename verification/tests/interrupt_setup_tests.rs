use sos2::arch::cpu::{Cpu, EFER_SCE, RFLAGS_IF};
use sos2::interrupts::idt::{Entry, PAGE_FAULT};
use sos2::interrupts::{init, HandlerAddresses, KERN_CS_SEL};
use sos2::memory::boot::{BootInformation, ElfSection, FramebufferInfo, Module,
    ELF_SECTION_ALLOCATED, ELF_SECTION_EXECUTABLE, KERNEL_BASE};
use sos2::memory::frame::{Frame, MemoryArea};
use sos2::memory::paging::{EntryFlags, Level, PageEntry, PRESENT, WRITABLE};
use sos2::memory::physical::PhysicalMemory;
use sos2::memory::MemoryManager;

fn manager() -> MemoryManager {
    let info = BootInformation {
        start_address: KERNEL_BASE + 0x30_0000,
        end_address: KERNEL_BASE + 0x30_0800,
        memory_areas: vec![MemoryArea { base_addr: 0x10_0000, length: 0x7f0_0000 }],
        elf_sections: vec![ElfSection {
            addr: KERNEL_BASE + 0x10_0000,
            size: 0x3000,
            flags: ELF_SECTION_ALLOCATED | ELF_SECTION_EXECUTABLE,
        }],
        framebuffer: FramebufferInfo { addr: 0xb8000, pitch: 160, width: 80, height: 25, bpp: 16, is_rgb: false },
        modules: vec![Module { start: 0x20_0000, end: 0x20_1000, name: String::from("init") }],
    };
    let mut tables = PhysicalMemory::new();
    tables.insert_zeroed(0x80, Level::PML4T);
    let mut e = PageEntry::new();
    e.set(Frame { number: 0x80 }, EntryFlags::from_bits_truncate(PRESENT | WRITABLE));
    tables.write(0x80, 511, e);
    let mut cpu = Cpu::new();
    sos2::memory::init(info, tables, 0x80 * 4096, &mut cpu).unwrap()
}

fn handlers() -> HandlerAddresses {
    HandlerAddresses {
        divide_by_zero: 0x1000,
        breakpoint: 0x2000,
        double_fault: 0x3000,
        general_protection_fault: 0x4000,
        page_fault: 0x5000,
        timer: 0x6000,
        keyboard: 0x7000,
    }
}

#[test]
fn interrupts_are_set_up() {
    let mut mm = manager();
    let mut cpu = Cpu::new();
    let s = init(&mut mm, &mut cpu, &handlers(), 0xffff_8800_0010_9000, 0xffff_8800_0010_4000).unwrap();
    // the stack for double faults: one page above a guard page
    assert_eq!(s.double_fault_stack.top(), s.double_fault_stack.bottom() + 4096);
    assert_eq!(cpu.ist0, s.double_fault_stack.top());
    assert_eq!(mm.activePML4Table.mapper.translate(&mm.machine, s.double_fault_stack.bottom() - 1), None);
    assert!(mm.activePML4Table.mapper.translate(&mm.machine, s.double_fault_stack.bottom()).is_some());
    assert_eq!(cpu.efer & EFER_SCE, EFER_SCE);
    assert_eq!(cpu.rflags & RFLAGS_IF, RFLAGS_IF);
    assert_eq!(s.gdt.next, 7);
    assert_eq!(s.gdt.table[1], 0x0020_9800_0000_0000);
    assert_eq!(s.gdt.table[5] & 0xffff, 103);
    assert_eq!(s.gdt.table[6], 0xffff_8800);
    assert_eq!(s.idt.entries[PAGE_FAULT], Entry::new(KERN_CS_SEL, 0x5000));
    assert_eq!(s.msr_writes.len(), 3);
    assert_eq!(s.msr_writes[1].value, 0xffff_8800_0010_4000);
    // timer (3 writes), keyboard (5), controllers (18), three lines let through (6)
    assert_eq!(s.port_writes.len(), 32);
    assert_eq!((s.port_writes[0].port, s.port_writes[0].value), (0x43, 0x36));
    assert_eq!((s.port_writes[3].port, s.port_writes[3].value), (0x60, 0xF4));
    assert_eq!((s.port_writes[8].port, s.port_writes[8].value), (0x20, 0x11));
    assert_eq!((s.port_writes[30].port, s.port_writes[30].value), (0x21, 0xf8));
    assert_eq!((s.port_writes[31].port, s.port_writes[31].value), (0xA1, 0xff));
    assert_eq!(s.pic.irqmask, 0xfff8);
}

#[test]
fn interrupts_need_a_stack() {
    let mut mm = manager();
    // use the arena up
    while mm.alloc_stack(1).is_some() {}
    let mut cpu = Cpu::new();
    assert!(init(&mut mm, &mut cpu, &handlers(), 0x9000, 0x4000).is_none());
    assert_eq!(cpu, Cpu::new());
}
