use sos2::arch::cpu::{Cpu, MsrWrite, EFER_SCE, IA32_FMASK, IA32_LSTAR, IA32_STAR, RFLAGS_IF};
use sos2::arch::port::{outb, Port, PortWrite, UnsafePort};
use sos2::interrupts::gdt::{Descriptor, GlobalDescriptorTable};
use sos2::interrupts::idt::{Entry, EntryOptions, InterruptDescriptorTable, BREAKPOINT,
    DIVIDE_BY_ZERO, DOUBLE_FAULT, GENERAL_PROTECTION_FAULT, PAGE_FAULT};
use sos2::interrupts::irq::{Irqs, Pic8259A, PicChain};
use sos2::interrupts::timer::Timer;
use sos2::interrupts::{build_idt, HandlerAddresses, KERN_CS_SEL, KERN_DS_SEL, TSS_SEL,
    USER_CS_SEL, USER_DS_SEL};
use sos2::syscall::{Syscall, STAR_VALUE};

fn byte(port: u16, value: u8) -> PortWrite {
    PortWrite { port, value: value as u32, width: 1 }
}

#[test]
fn selectors_are_fixed() {
    assert_eq!(KERN_CS_SEL, 1 * 8);
    assert_eq!(KERN_DS_SEL, 2 * 8);
    assert_eq!(USER_DS_SEL, (3 * 8) | 3);
    assert_eq!(USER_CS_SEL, (4 * 8) | 3);
    assert_eq!(TSS_SEL, 5 * 8);
}

#[test]
fn segment_descriptors() {
    let present = 1u64 << 47;
    let user_segment = 1u64 << 44;
    let executable = 1u64 << 43;
    let long_mode = 1u64 << 53;
    let writable = 1u64 << 41;
    let dpl3 = 3u64 << 45;
    assert_eq!(
        Descriptor::kernel_code_segment(),
        Descriptor::UserSegment(present | user_segment | executable | long_mode)
    );
    assert_eq!(
        Descriptor::kernel_data_segment(),
        Descriptor::UserSegment(present | user_segment | long_mode | writable)
    );
    assert_eq!(
        Descriptor::user_code_segment(),
        Descriptor::UserSegment(present | user_segment | executable | long_mode | writable | dpl3)
    );
    assert_eq!(
        Descriptor::user_data_segment(),
        Descriptor::UserSegment(present | user_segment | long_mode | writable | dpl3)
    );
}

#[test]
fn tss_descriptor_holds_address_and_limit() {
    let tss: u64 = 0xffff_8800_1234_5678;
    match Descriptor::tss_segment(tss) {
        Descriptor::SystemSegment(low, high) => {
            assert_eq!(low & 0xffff, 103);
            assert_eq!((low >> 16) & 0xff_ffff, 0x34_5678);
            assert_eq!((low >> 40) & 0xf, 0b1001);
            assert_eq!((low >> 47) & 1, 1);
            assert_eq!((low >> 45) & 3, 0);
            assert_eq!(low >> 56, 0x12);
            assert_eq!(high, 0xffff_8800);
        }
        _ => panic!("a system segment"),
    }
    assert_eq!(Descriptor::tss_segment(0), Descriptor::SystemSegment((1 << 47) | (0b1001 << 40) | 103, 0));
}

#[test]
fn gdt_hands_out_selectors_in_order() {
    let mut gdt = GlobalDescriptorTable::new();
    assert_eq!(gdt.next, 1);
    assert_eq!(gdt.table, vec![0; 8]);
    assert_eq!(gdt.add_entry(Descriptor::kernel_code_segment()), KERN_CS_SEL);
    assert_eq!(gdt.add_entry(Descriptor::kernel_data_segment()), KERN_DS_SEL);
    assert_eq!(gdt.add_entry(Descriptor::user_data_segment()) | 3, USER_DS_SEL);
    assert_eq!(gdt.add_entry(Descriptor::user_code_segment()) | 3, USER_CS_SEL);
    assert_eq!(gdt.add_entry(Descriptor::tss_segment(0x1000)), TSS_SEL);
    assert_eq!(gdt.next, 7);
    assert_eq!(gdt.table[0], 0);
    assert_eq!(gdt.table[1], 0x0020_9800_0000_0000);
    assert_eq!(gdt.table[2], 0x0020_9200_0000_0000);
    assert_eq!(gdt.table[3], 0x0020_f200_0000_0000);
    assert_eq!(gdt.table[4], 0x0020_fa00_0000_0000);
    assert_eq!(gdt.table[5], (1 << 47) | (0b1001 << 40) | (0x1000 << 16) | 103);
    assert_eq!(gdt.table[6], 0);
    assert_eq!(gdt.table[7], 0);
    let p = gdt.pointer(0xffff_8800_0000_2000);
    assert_eq!((p.limit, p.base), (63, 0xffff_8800_0000_2000));
}

#[test]
fn entry_options() {
    assert_eq!(EntryOptions::empty().0, 0b0000_1110_0000_0000);
    assert_eq!(EntryOptions::new().0, 0b1000_1110_0000_0000);
    let mut o = EntryOptions::new();
    o.set_trap_gate();
    assert_eq!(o.0, 0b1000_1111_0000_0000);
    o.set_interrupt_gate();
    assert_eq!(o.0, 0b1000_1110_0000_0000);
    o.set_ist_index(5);
    assert_eq!(o.0, 0b1000_1110_0000_0101);
    o.set_ist_index(0);
    assert_eq!(o.0, 0b1000_1110_0000_0000);
    o.set_dpl(3);
    assert_eq!(o.0, 0b1110_1110_0000_0000);
    o.set_dpl(1);
    assert_eq!(o.0, 0b1010_1110_0000_0000);
    o.set_present(false);
    assert_eq!(o.0, 0b0010_1110_0000_0000);
    o.set_present(true);
    assert_eq!(o.0, 0b1010_1110_0000_0000);
}

#[test]
fn idt_entries_split_the_address() {
    let e = Entry::new(8, 0xffff_8800_1234_5678);
    assert_eq!(e.pointer_low, 0x5678);
    assert_eq!(e.pointer_middle, 0x1234);
    assert_eq!(e.pointer_high, 0xffff_8800);
    assert_eq!(e.gdt_selector, 8);
    assert_eq!(e.options, EntryOptions(0x8e00));
    assert_eq!(e.zero, 0);
    assert_eq!(Entry::empty(), Entry::new(0, 0));
    let t = InterruptDescriptorTable::new();
    assert_eq!(t.entries.len(), 256);
    assert!(t.entries.iter().all(|e| *e == Entry::empty()));
    let p = t.pointer(0x1000);
    assert_eq!((p.limit, p.base), (256 * 16 - 1, 0x1000));
}

#[test]
fn kernel_idt_has_the_handlers() {
    let h = HandlerAddresses {
        divide_by_zero: 0x1000,
        breakpoint: 0x2000,
        double_fault: 0x3000,
        general_protection_fault: 0x4000,
        page_fault: 0x5000,
        timer: 0x6000,
        keyboard: 0x7000,
    };
    let t = build_idt(KERN_CS_SEL, &h);
    let served = [
        (DIVIDE_BY_ZERO, 0x1000u64),
        (BREAKPOINT, 0x2000),
        (DOUBLE_FAULT, 0x3000),
        (GENERAL_PROTECTION_FAULT, 0x4000),
        (PAGE_FAULT, 0x5000),
        (Irqs::TIMER.vector(), 0x6000),
        (Irqs::KBD.vector(), 0x7000),
    ];
    for (v, e) in t.entries.iter().enumerate() {
        match served.iter().find(|s| s.0 == v) {
            Some(s) => assert_eq!(*e, Entry::new(KERN_CS_SEL, s.1)),
            None => assert_eq!(*e, Entry::empty()),
        }
        // present interrupt gates of ring 0
        assert_eq!(e.options.0 & 0x8000, 0x8000);
        assert_eq!(e.options.0 & 0x0100, 0);
        assert_eq!(e.options.0 & 0x6000, 0);
    }
    // double faults run on entry 0 of the interrupt stack table
    assert_eq!(t.entries[DOUBLE_FAULT].options.0 & 7, 0);
}

#[test]
fn ports_give_writes() {
    let p: Port<u8> = Port::new(0x3f8);
    assert_eq!(p.write(0x41), byte(0x3f8, 0x41));
    let q: Port<u16> = Port::new(0x1f0);
    assert_eq!(q.write(0xbeef), PortWrite { port: 0x1f0, value: 0xbeef, width: 2 });
    let r: UnsafePort<u32> = UnsafePort::new(0xcf8);
    assert_eq!(r.write(0x8000_0000), PortWrite { port: 0xcf8, value: 0x8000_0000, width: 4 });
    assert_eq!(outb(0x80, 0), byte(0x80, 0));
}

#[test]
fn pic_is_set_up_in_order() {
    let mut pic = PicChain::new();
    assert_eq!(pic.irqmask, 0xfffb);
    let w = pic.init();
    let wait = byte(0x80, 0);
    assert_eq!(w, vec![
        byte(0x20, 0x11), wait,
        byte(0xA0, 0x11), wait,
        byte(0x21, 0x20), wait,
        byte(0xA1, 0x28), wait,
        byte(0x21, 0x04), wait,
        byte(0xA1, 0x02), wait,
        byte(0x21, 0x01), wait,
        byte(0xA1, 0x01), wait,
        byte(0x21, 0xfb),
        byte(0xA1, 0xff),
    ]);
}

#[test]
fn pic_lets_lines_through() {
    let mut pic = PicChain::new();
    assert_eq!(pic.enable(Irqs::IRQ2.vector()), vec![byte(0x21, 0xfb), byte(0xA1, 0xff)]);
    assert_eq!(pic.enable(Irqs::TIMER.vector()), vec![byte(0x21, 0xfa), byte(0xA1, 0xff)]);
    assert_eq!(pic.enable(Irqs::KBD.vector()), vec![byte(0x21, 0xf8), byte(0xA1, 0xff)]);
    assert_eq!(pic.irqmask, 0xfff8);
    assert_eq!(pic.enable(Irqs::MOUSE.vector()), vec![byte(0x21, 0xf8), byte(0xA1, 0xef)]);
    assert_eq!(pic.irqmask, 0xeff8);
    assert_eq!(pic.setmask(0x1234), vec![byte(0x21, 0x34), byte(0xA1, 0x12)]);
    assert_eq!(Irqs::TIMER.vector(), 32);
    assert_eq!(Irqs::ATA2.vector(), 47);
}

#[test]
fn pic_ends_interrupts() {
    let mut pic = PicChain::new();
    assert_eq!(pic.eoi(0), vec![byte(0x20, 0x20)]);
    assert_eq!(pic.eoi(7), vec![byte(0x20, 0x20)]);
    assert_eq!(pic.eoi(8), vec![byte(0xA0, 0x20), byte(0x20, 0x20)]);
    assert_eq!(pic.eoi(15), vec![byte(0xA0, 0x20), byte(0x20, 0x20)]);
    let chip = Pic8259A::new(0xA0, 0x28);
    assert_eq!(chip.eoi(), byte(0xA0, 0x20));
    assert_eq!(chip.data.port, 0xA1);
}

#[test]
fn timer_divides_to_100_hz() {
    let mut t = Timer::new();
    let w = t.init();
    let divisor = 1_193_180u32 / 100;
    assert_eq!(divisor, 11931);
    assert_eq!(w, vec![
        byte(0x43, 0x36),
        byte(0x40, (divisor & 0xff) as u8),
        byte(0x40, (divisor >> 8) as u8),
    ]);
}

#[test]
fn syscall_registers() {
    let mut cpu = Cpu::new();
    cpu.efer = 1 << 11;
    let w = sos2::syscall::init(&mut cpu, 0xffff_8800_0010_4000);
    assert_eq!(w, vec![
        MsrWrite { msr: IA32_STAR, value: ((KERN_CS_SEL as u64) << 32) | ((USER_CS_SEL as u64) << 48) },
        MsrWrite { msr: IA32_LSTAR, value: 0xffff_8800_0010_4000 },
        MsrWrite { msr: IA32_FMASK, value: RFLAGS_IF },
    ]);
    assert_eq!(STAR_VALUE, 0x0023_0008_0000_0000);
    assert_eq!(cpu.efer, (1 << 11) | EFER_SCE);
    assert_eq!(IA32_STAR, 0xc000_0081);
}

#[test]
fn syscall_numbers() {
    assert_eq!(Syscall::from_number(0), Some(Syscall::NONE));
    assert_eq!(Syscall::from_number(16), Some(Syscall::WRITE));
    assert_eq!(Syscall::from_number(41), Some(Syscall::NR_SYSCALL));
    assert_eq!(Syscall::from_number(42), None);
    assert_eq!(Syscall::WRITE.number(), 16);
    assert_eq!(Syscall::GETCWD.number(), 40);
    for n in 0..=41 {
        assert_eq!(Syscall::from_number(n).unwrap().number(), n);
    }
}

#[test]
fn cpu_flags() {
    let mut cpu = Cpu::new();
    cpu.rflags = RFLAGS_IF | 2;
    assert!(cpu.interrupts_enabled());
    let saved = cpu.push_flags();
    assert_eq!(saved, RFLAGS_IF | 2);
    assert!(!cpu.interrupts_enabled());
    assert_eq!(cpu.rflags, 2);
    cpu.pop_flags(saved);
    assert!(cpu.interrupts_enabled());
    cpu.enable_nxe_bit();
    cpu.enable_sce_bit();
    cpu.enable_write_protect_bit();
    assert_eq!(cpu.efer, (1 << 11) | 1);
    assert_eq!(cpu.cr0, 1 << 16);
}
