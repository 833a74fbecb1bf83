use sos2::arch::cpu::{Cpu, RFLAGS_IF};
use sos2::elf64::{ElfError, PF_R, PF_W, PF_X, PT_LOAD};
use sos2::heap::KHeapAllocator;
use sos2::interrupts::irq::PicChain;
use sos2::interrupts::timer_handler;
use sos2::memory::boot::{BootInformation, ElfSection, FramebufferInfo, Module,
    ELF_SECTION_ALLOCATED, ELF_SECTION_EXECUTABLE, ELF_SECTION_WRITABLE, KERNEL_BASE};
use sos2::memory::frame::{Frame, MemoryArea};
use sos2::memory::inactive::InactivePML4Table;
use sos2::memory::machine::{Machine, MapError};
use sos2::memory::mapper::translate_from;
use sos2::memory::paging::{pml4t_index, pdpt_index, pdt_index, pt_index, EntryFlags, Level, NO_EXECUTE,
    PRESENT, USER, WRITABLE};
use sos2::task::{init, ret_to_userspace, sched, switch_to, user_stack_area, Context, KernelThreads,
    Task, TaskError, TaskList, TaskState, TLSSegment, VirtualMemoryArea, MAX_TASK};

fn boot_information() -> BootInformation {
    BootInformation {
        start_address: KERNEL_BASE + 0x30_0000,
        end_address: KERNEL_BASE + 0x30_0800,
        memory_areas: vec![MemoryArea { base_addr: 0x10_0000, length: 0x7f0_0000 }],
        elf_sections: vec![
            ElfSection {
                addr: KERNEL_BASE + 0x10_0000,
                size: 0x3000,
                flags: ELF_SECTION_ALLOCATED | ELF_SECTION_EXECUTABLE,
            },
            ElfSection {
                addr: KERNEL_BASE + 0x10_3000,
                size: 0x2000,
                flags: ELF_SECTION_ALLOCATED | ELF_SECTION_WRITABLE,
            },
        ],
        framebuffer: FramebufferInfo {
            addr: 0xb8000,
            pitch: 160,
            width: 80,
            height: 25,
            bpp: 16,
            is_rgb: false,
        },
        modules: vec![Module { start: 0x20_0000, end: 0x20_1000, name: String::from("init") }],
    }
}

fn heap() -> KHeapAllocator {
    let mut h = KHeapAllocator::new();
    h.init(0xffff_8801_0000_0000, 0xffff_8801_0200_0000);
    h
}

fn kernel_table() -> InactivePML4Table {
    InactivePML4Table { pml4_frame: Frame { number: 0x105 } }
}

fn put(b: &mut Vec<u8>, off: usize, bytes: &[u8]) {
    b[off..off + bytes.len()].copy_from_slice(bytes);
}

/// (type, flags, offset, vaddr, filesz, memsz) of each program header
fn elf_image(segments: &[(u32, u32, u64, u64, u64, u64)], payload: &[u8]) -> Vec<u8> {
    let mut b = vec![0u8; 64 + 56 * segments.len()];
    put(&mut b, 0, &[0x7f, 0x45, 0x4c, 0x46, 2]);
    put(&mut b, 16, &2u16.to_le_bytes());
    put(&mut b, 24, &0x0400_0010u64.to_le_bytes());
    put(&mut b, 32, &64u64.to_le_bytes());
    put(&mut b, 54, &56u16.to_le_bytes());
    put(&mut b, 56, &(segments.len() as u16).to_le_bytes());
    for (i, s) in segments.iter().enumerate() {
        let off = 64 + 56 * i;
        put(&mut b, off, &s.0.to_le_bytes());
        put(&mut b, off + 4, &s.1.to_le_bytes());
        put(&mut b, off + 8, &s.2.to_le_bytes());
        put(&mut b, off + 16, &s.3.to_le_bytes());
        put(&mut b, off + 32, &s.4.to_le_bytes());
        put(&mut b, off + 40, &s.5.to_le_bytes());
    }
    b.extend_from_slice(payload);
    b
}

fn leaf_flags(m: &Machine, root: u64, va: u64) -> u64 {
    let t3 = m.next_level_table(root, pml4t_index(va)).unwrap();
    let t2 = m.next_level_table(t3, pdpt_index(va)).unwrap();
    let t1 = m.next_level_table(t2, pdt_index(va)).unwrap();
    m.memory.read(t1, pt_index(va)).unwrap().flags().bits()
}

#[test]
fn empty_task() {
    let t = Task::empty();
    assert_eq!(t.pid, 0);
    assert_eq!(t.state, TaskState::Unused);
    assert_eq!(t.ctx, Context::new());
    assert!(t.name.is_none() && t.cr3.is_none() && t.kern_stack.is_none());
    assert_eq!(TLSSegment::empty(), TLSSegment { user_rsp: 0, kern_rsp: 0 });
    assert_eq!(TLSSegment::new(8, 9), TLSSegment { user_rsp: 9, kern_rsp: 8 });
    assert_eq!(MAX_TASK, 64);
}

#[test]
fn kernel_task_has_a_frame_for_iretq() {
    let mut tasks = TaskList::new();
    let mut h = heap();
    let pid = tasks.alloc_kernel_task("idle", 0xffff_8800_0010_1230, 0xffff_8800_0010_0040,
        kernel_table(), &mut h).unwrap();
    assert_eq!(pid, 1);
    assert_eq!(tasks.next_id, 2);
    let t = tasks.get_task(1).unwrap();
    let bottom = 0xffff_8801_0000_0000u64;
    let top = bottom + 8192;
    let tlsbase = top - 16;
    assert_eq!(t.pid, 1);
    assert_eq!(t.ppid, 0);
    assert_eq!(t.name.as_deref(), Some("idle"));
    assert_eq!(t.state, TaskState::Ready);
    assert_eq!(t.exec_entry, 0xffff_8800_0010_1230);
    assert_eq!(t.cr3, Some(kernel_table()));
    let stack = t.kern_stack.as_ref().unwrap();
    assert_eq!(stack.bottom(), bottom);
    assert_eq!(stack.top(), top);
    assert_eq!(t.tls, TLSSegment { user_rsp: 0, kern_rsp: tlsbase });
    assert_eq!(t.frame, vec![16, tlsbase, 0x0202, 8, 0xffff_8800_0010_1230, 0xffff_8800_0010_0040]);
    assert_eq!(t.ctx.rsp, tlsbase - 40 - 8);
    assert_eq!(t.ctx.rflags, 0x0202);
    assert_eq!(t.ctx.cr3, 0x105 * 4096);
    assert!(t.user_stack.is_none());
    // the next task gets the next id and the next stack
    assert_eq!(tasks.alloc_kernel_task("t2", 1, 2, kernel_table(), &mut h), Ok(2));
    assert_eq!(tasks.get_task(2).unwrap().kern_stack.as_ref().unwrap().bottom(), top);
    assert!(tasks.get_task(3).is_none());
    assert!(tasks.get_task(0).is_none());
    assert_eq!(tasks.current(2).unwrap().pid, 2);
}

#[test]
fn kernel_task_needs_heap() {
    let mut tasks = TaskList::new();
    let mut h = KHeapAllocator::new();
    h.init(0x10_0000, 0x10_1000);
    assert_eq!(
        tasks.alloc_kernel_task("idle", 1, 2, kernel_table(), &mut h),
        Err(TaskError::OutOfMemory)
    );
    assert_eq!(tasks.next_id, 1);
    assert!(tasks.get_task(1).is_none());
}

#[test]
fn switch_saves_and_loads() {
    let mut cpu = Cpu::new();
    cpu.rflags = 0x2;
    cpu.rbp = 1;
    cpu.rbx = 2;
    cpu.rsp = 3;
    cpu.r12 = 4;
    cpu.r13 = 5;
    cpu.r14 = 6;
    cpu.r15 = 7;
    cpu.gs_base = 0x99;
    let at_first = cpu;
    let mut a = Task::empty();
    a.ctx.cr3 = 0x1000;
    let mut b = Task::empty();
    b.ctx = Context { rflags: 0x202, cr3: 0x2000, rbp: 11, rbx: 12, rsp: 13, r12: 14, r13: 15, r14: 16, r15: 17 };
    switch_to(&mut cpu, &mut a, &b);
    assert_eq!(a.ctx, Context { rflags: 0x2, cr3: 0x1000, rbp: 1, rbx: 2, rsp: 3, r12: 4, r13: 5, r14: 6, r15: 7 });
    assert_eq!((cpu.rflags, cpu.rbp, cpu.rbx, cpu.rsp), (0x202, 11, 12, 13));
    assert_eq!((cpu.r12, cpu.r13, cpu.r14, cpu.r15), (14, 15, 16, 17));
    assert_eq!(cpu.gs_base, 0x99);
    // b runs for a while, then the switch back brings a's registers back
    cpu.rbx = 0xdead;
    cpu.r15 = 0xbeef;
    cpu.rsp = 0x7000;
    switch_to(&mut cpu, &mut b, &a);
    assert_eq!(cpu, at_first);
    assert_eq!(b.ctx.rbx, 0xdead);
    assert_eq!(b.ctx.cr3, 0x2000);
}

fn three_kernel_tasks() -> TaskList {
    let mut tasks = TaskList::new();
    let mut h = heap();
    for (name, rip) in [("idle", 0x100u64), ("kthread1", 0x200), ("kthread2", 0x300)] {
        tasks.alloc_kernel_task(name, rip, 0x40, kernel_table(), &mut h).unwrap();
    }
    tasks
}

fn small_machine() -> Machine {
    Machine::boot(boot_information().frame_allocator()).unwrap()
}

#[test]
fn scheduler_goes_round() {
    let mut tasks = three_kernel_tasks();
    let mut machine = small_machine();
    let cr3 = machine.cr3();
    let mut cpu = Cpu::new();
    cpu.rsp = 0x1111;
    let mut current = 1;
    let mut seen = Vec::new();
    for step in 0..7 {
        // the timer's interrupt enters with interrupts off
        cpu.rflags &= !RFLAGS_IF;
        assert!(sched(&mut tasks, &mut current, &mut cpu, &mut machine));
        seen.push(current);
        assert_eq!(tasks.get_task(current).unwrap().state, TaskState::Running);
        if step == 0 {
            // a new thread starts with interrupts on
            assert_eq!(cpu.rflags, 0x0202);
        }
        if step == 2 {
            // the first task comes back with the stack pointer it was left with
            assert_eq!(cpu.rsp, 0x1111);
        }
    }
    assert_eq!(seen, vec![2, 3, 1, 2, 3, 1, 2]);
    assert_eq!(machine.cr3(), cr3);
    assert_eq!(tasks.get_task(1).unwrap().ctx.rsp, 0x1111);
    assert_eq!(tasks.get_task(1).unwrap().state, TaskState::Ready);
    assert_eq!(cpu.rsp, tasks.get_task(2).unwrap().ctx.rsp);
}

#[test]
fn scheduler_rests_without_tasks() {
    let mut machine = small_machine();
    let mut cpu = Cpu::new();
    let before = cpu;
    // no task runs
    let mut tasks = three_kernel_tasks();
    let mut current = 0;
    assert!(!sched(&mut tasks, &mut current, &mut cpu, &mut machine));
    assert_eq!(current, 0);
    assert_eq!(cpu, before);
    // one task only
    let mut single = TaskList::new();
    single.alloc_kernel_task("idle", 1, 2, kernel_table(), &mut heap()).unwrap();
    let mut current = 1;
    assert!(!sched(&mut single, &mut current, &mut cpu, &mut machine));
    assert_eq!(current, 1);
    assert_eq!(cpu, before);
}

#[test]
fn timer_counts_ticks_and_schedules() {
    let mut tasks = three_kernel_tasks();
    let mut machine = small_machine();
    let mut cpu = Cpu::new();
    let mut pic = PicChain::new();
    let mut ticks = 0u64;
    let mut current = 0;
    let (w, switched) = timer_handler(&mut ticks, &mut pic, &mut tasks, &mut current, &mut cpu, &mut machine);
    assert_eq!(w.len(), 1);
    assert_eq!((w[0].port, w[0].value, w[0].width), (0x20, 0x20, 1));
    assert!(!switched);
    assert_eq!(ticks, 1);
    current = 3;
    for _ in 0..100 {
        cpu.rflags &= !RFLAGS_IF;
        let (_, switched) = timer_handler(&mut ticks, &mut pic, &mut tasks, &mut current, &mut cpu, &mut machine);
        assert!(switched);
    }
    assert_eq!(ticks, 101);
    assert_eq!(current, 1);
    let mut last = u64::MAX;
    cpu.rflags &= !RFLAGS_IF;
    timer_handler(&mut last, &mut pic, &mut tasks, &mut current, &mut cpu, &mut machine);
    assert_eq!(last, 0);
}

#[test]
fn areas_and_their_pages() {
    let v = VirtualMemoryArea::new(0x0400_0800, 0x1801, EntryFlags::from_bits_truncate(USER | WRITABLE));
    assert!(!v.mapped);
    let pages = v.get_pages();
    assert_eq!(pages.start.number, 0x4000);
    assert_eq!(pages.end.number, 0x4003);
    let r = v.range();
    assert_eq!((r.start.number, r.count, r.first), (0x4000, 3, None));
    let s = user_stack_area();
    assert_eq!(s.start, 0x7fff_ff80_0000);
    assert_eq!(s.size, 0x7f_f000);
    assert_eq!(s.flags.bits(), USER | WRITABLE | NO_EXECUTE);
    assert_eq!(s.get_pages().end.number - s.get_pages().start.number, 2047);
}

#[test]
fn area_is_mapped_with_its_flags() {
    let info = boot_information();
    let mut m = Machine::boot(info.frame_allocator()).unwrap();
    let mut table = sos2::memory::address_space::create_address_space(&mut m, &info).unwrap();
    let root = table.pml4_frame.number;
    let v = VirtualMemoryArea::new(0x0400_0000, 0x3000, EntryFlags::from_bits_truncate(USER | NO_EXECUTE));
    assert!(v.can_map(&table, &m));
    assert_eq!(v.map(&mut table, &mut m), Ok(()));
    for page in 0..3u64 {
        let va = 0x0400_0000 + page * 4096;
        assert!(translate_from(&m.memory, root, va).is_some());
        // the flags of the area, and PRESENT from the mapping
        assert_eq!(leaf_flags(&m, root, va), USER | NO_EXECUTE | PRESENT);
    }
    assert_eq!(translate_from(&m.memory, root, 0x0400_3000), None);
    assert!(!v.can_map(&table, &m));
    // the kernel is still there
    assert_eq!(translate_from(&m.memory, root, KERNEL_BASE + 0x10_0000), Some(0x10_0000));
    // an area in the hole cannot be mapped
    let hole = VirtualMemoryArea::new(0x7fff_ffff_f000, 0x2000, EntryFlags::from_bits_truncate(USER));
    assert!(!hole.can_map(&table, &m));
}

#[test]
fn user_task_is_loaded() {
    let info = boot_information();
    let mut m = Machine::boot(info.frame_allocator()).unwrap();
    let active = m.cr3();
    let mut h = heap();
    let mut tasks = three_kernel_tasks();
    let payload: Vec<u8> = (1..=12u8).collect();
    // code: 8 bytes of the image, 16 in memory; data: 4 bytes, one page later
    let elf = elf_image(
        &[
            (PT_LOAD, PF_R | PF_X, 176, 0x0400_0000, 8, 16),
            (PT_LOAD, PF_R | PF_W, 184, 0x0400_1000, 4, 0x1004),
        ],
        &payload,
    );
    let segs = tasks.load_task("init", 1, &mut m, &info, &elf, &mut h).unwrap();
    assert_eq!(tasks.next_id, 5);
    let t = tasks.get_task(4).unwrap();
    assert_eq!((t.pid, t.ppid), (4, 1));
    assert_eq!(t.name.as_deref(), Some("init"));
    assert_eq!(t.state, TaskState::Ready);
    assert_eq!(t.exec_entry, 0x0400_0010);
    // what the segments put into memory: the bytes of the image, then zeros
    assert_eq!(segs.len(), 2);
    assert_eq!(segs[0].vaddr, 0x0400_0000);
    assert!(segs[0].executable);
    assert_eq!(segs[0].bytes, vec![1, 2, 3, 4, 5, 6, 7, 8, 0, 0, 0, 0, 0, 0, 0, 0]);
    assert_eq!(segs[1].vaddr, 0x0400_1000);
    assert!(!segs[1].executable);
    assert_eq!(segs[1].bytes.len(), 0x1004);
    assert_eq!(&segs[1].bytes[..4], &[9, 10, 11, 12]);
    assert!(segs[1].bytes[4..].iter().all(|b| *b == 0));
    // the areas
    assert_eq!(t.user_stack, Some(user_stack_area()));
    let code = t.code.unwrap();
    assert_eq!((code.start, code.size, code.flags.bits()), (0x0400_0000, 16, USER | WRITABLE));
    let data = t.data.unwrap();
    assert_eq!((data.start, data.size, data.flags.bits()), (0x0400_1000, 0x1004, USER | WRITABLE | NO_EXECUTE));
    // the address space: user code, data and stack are mapped for ring 3
    let root = t.cr3.unwrap().pml4_frame.number;
    assert_eq!(t.ctx.cr3, root * 4096);
    assert_eq!(m.cr3(), active);
    assert_eq!(leaf_flags(&m, root, 0x0400_0000) & USER, USER);
    assert_eq!(leaf_flags(&m, root, 0x0400_0000), USER | WRITABLE | PRESENT);
    assert_eq!(leaf_flags(&m, root, 0x0400_1000), USER | WRITABLE | NO_EXECUTE | PRESENT);
    assert!(translate_from(&m.memory, root, 0x0400_2003).is_some());
    assert_eq!(translate_from(&m.memory, root, 0x0400_3000), None);
    assert_eq!(leaf_flags(&m, root, 0x7fff_ffff_efff) & USER, USER);
    assert_eq!(leaf_flags(&m, root, 0x7fff_ff80_0000), USER | WRITABLE | NO_EXECUTE | PRESENT);
    assert_eq!(translate_from(&m.memory, root, 0x7fff_ffff_f000), None);
    assert_eq!(translate_from(&m.memory, root, 0x7fff_ff7f_ffff), None);
    assert_eq!(translate_from(&m.memory, root, 0x7fff_0000_0000), None);
    assert_eq!(translate_from(&m.memory, root, KERNEL_BASE + 0x10_0000), Some(0x10_0000));
    assert_eq!(m.memory.read(root, 511).unwrap().pointed_frame(), Some(Frame { number: root }));
    // the kernel stack and the two stack pointers at its top
    let stack = t.kern_stack.as_ref().unwrap();
    assert_eq!(stack.top() - stack.bottom(), 8192);
    assert_eq!(t.tls, TLSSegment { user_rsp: 0x7fff_ffff_f000, kern_rsp: stack.top() - 16 });
    assert_eq!(t.ctx.rsp, stack.top() - 16);
    assert_eq!(t.ctx.rflags, 0x0202);
}

#[test]
fn bad_images_make_no_task() {
    let info = boot_information();
    let mut m = Machine::boot(info.frame_allocator()).unwrap();
    let mut h = heap();
    let mut tasks = TaskList::new();
    let mut elf = elf_image(&[], &[]);
    elf[0] = 0;
    assert_eq!(
        tasks.load_task("init", 0, &mut m, &info, &elf, &mut h).unwrap_err(),
        TaskError::Elf(ElfError::BadMagic)
    );
    assert_eq!(m.alloc_frame(), Some(Frame { number: 0x106 }));
    // a segment whose bytes are not in the image
    let elf = elf_image(&[(PT_LOAD, PF_X, 4000, 0x0400_0000, 8, 8)], &[]);
    assert_eq!(
        tasks.load_task("init", 0, &mut m, &info, &elf, &mut h).unwrap_err(),
        TaskError::Elf(ElfError::BadSegment)
    );
    // a segment in the hole of the address space
    let elf = elf_image(&[(PT_LOAD, PF_X, 0, 0x8000_0000_0000, 8, 8)], &[]);
    assert_eq!(
        tasks.load_task("init", 0, &mut m, &info, &elf, &mut h).unwrap_err(),
        TaskError::BadLayout
    );
    // two segments on one page
    let elf = elf_image(
        &[(PT_LOAD, PF_X, 0, 0x0400_0000, 8, 8), (PT_LOAD, PF_W, 0, 0x0400_0800, 8, 8)],
        &[],
    );
    assert_eq!(
        tasks.load_task("init", 0, &mut m, &info, &elf, &mut h).unwrap_err(),
        TaskError::BadLayout
    );
    assert_eq!(tasks.next_id, 1);
    assert!(tasks.get_task(1).is_none());
}

#[test]
fn loading_reports_exhaustion() {
    let info = boot_information();
    let mut m = Machine::boot(info.frame_allocator()).unwrap();
    while m.alloc_frame().is_some() {}
    let mut h = heap();
    let mut tasks = TaskList::new();
    let elf = elf_image(&[], &[]);
    assert_eq!(
        tasks.load_task("init", 0, &mut m, &info, &elf, &mut h).unwrap_err(),
        TaskError::Mapping(MapError::OutOfFrames)
    );
    let mut m = Machine::boot(info.frame_allocator()).unwrap();
    let mut tiny = KHeapAllocator::new();
    tiny.init(0x1000, 0x2000);
    assert_eq!(
        tasks.load_task("init", 0, &mut m, &info, &elf, &mut tiny).unwrap_err(),
        TaskError::OutOfMemory
    );
    assert_eq!(tasks.next_id, 1);
}

#[test]
fn tasking_starts_in_init() {
    let info = boot_information();
    let mut m = Machine::boot(info.frame_allocator()).unwrap();
    let mut h = heap();
    let mut tasks = TaskList::new();
    let mut current = 0;
    let mut cpu = Cpu::new();
    cpu.rflags = RFLAGS_IF | 2;
    let elf = elf_image(&[(PT_LOAD, PF_R | PF_X, 120, 0x0400_0000, 4, 4)], &[0xf, 0x5, 0xeb, 0xfe]);
    let threads = KernelThreads { idle: 0x1000, test_thread: 0x2000, test_thread2: 0x3000, start_task: 0x40 };
    let table = InactivePML4Table { pml4_frame: Frame::from_paddress(m.cr3()) };
    let (segs, frame) = init(&mut tasks, &mut current, &mut cpu, &mut m, &info, &elf, &mut h, table, &threads).unwrap();
    assert_eq!(current, 4);
    assert_eq!(tasks.next_id, 5);
    assert_eq!(tasks.get_task(1).unwrap().name.as_deref(), Some("idle"));
    assert_eq!(tasks.get_task(2).unwrap().name.as_deref(), Some("kthread1"));
    assert_eq!(tasks.get_task(3).unwrap().name.as_deref(), Some("kthread2"));
    assert_eq!(tasks.get_task(3).unwrap().exec_entry, 0x3000);
    let t = tasks.get_task(4).unwrap();
    assert_eq!(t.name.as_deref(), Some("init"));
    assert_eq!(segs.len(), 1);
    assert_eq!(segs[0].bytes, vec![0xf, 0x5, 0xeb, 0xfe]);
    // ring 3 is entered at the image's entry point, on the user stack, with the user selectors
    assert_eq!((frame.rip, frame.cs, frame.rflags, frame.old_rsp, frame.old_ss),
        (0x0400_0010, (4 << 3) | 3, 0x0202, 0x7fff_ffff_f000, (3 << 3) | 3));
    assert_eq!(m.cr3(), t.cr3.unwrap().pml4_frame.start_address());
    assert_eq!(cpu.gs_base, t.tls.kern_rsp);
    assert_eq!(cpu.rsp0, t.tls.kern_rsp);
    assert!(!cpu.interrupts_enabled());
    // from here the timer goes round: init -> idle, with the kernel's address space
    let mut pic = PicChain::new();
    let mut ticks = 0;
    timer_handler(&mut ticks, &mut pic, &mut tasks, &mut current, &mut cpu, &mut m);
    assert_eq!(current, 1);
    assert_eq!(cpu.rsp, tasks.get_task(1).unwrap().ctx.rsp);
    cpu.rflags &= !RFLAGS_IF;
    timer_handler(&mut ticks, &mut pic, &mut tasks, &mut current, &mut cpu, &mut m);
    cpu.rflags &= !RFLAGS_IF;
    timer_handler(&mut ticks, &mut pic, &mut tasks, &mut current, &mut cpu, &mut m);
    let user = tasks.get_task(4).unwrap().ctx.cr3;
    let kernel_rsp = tasks.get_task(4).unwrap().tls.kern_rsp;
    cpu.rsp0 = 0;
    cpu.rflags &= !RFLAGS_IF;
    timer_handler(&mut ticks, &mut pic, &mut tasks, &mut current, &mut cpu, &mut m);
    assert_eq!(current, 4);
    assert_eq!(cpu.rsp0, kernel_rsp);
    assert_eq!(m.cr3(), user);
}

#[test]
fn entering_ring3() {
    let mut m = small_machine();
    let mut cpu = Cpu::new();
    let mut t = Task::empty();
    t.exec_entry = 0x0400_0000;
    t.ctx.rflags = 0x202;
    t.cr3 = Some(InactivePML4Table { pml4_frame: Frame { number: 0x777 } });
    t.tls = TLSSegment { user_rsp: 0, kern_rsp: 0 };
    cpu.gs_base = 5;
    let frame = ret_to_userspace(&t, &mut cpu, &mut m);
    assert_eq!(frame.rip, 0x0400_0000);
    assert_eq!(m.cr3(), 0x777000);
    // without a kernel stack pointer the base of gs stays
    assert_eq!(cpu.gs_base, 5);
    assert_eq!(cpu.rsp0, 0);
}

#[test]
fn every_address_space_keeps_referring_to_itself() {
    let info = boot_information();
    let mut m = Machine::boot(info.frame_allocator()).unwrap();
    let kernel = m.cr3() / 4096;
    let mut h = heap();
    let mut tasks = TaskList::new();
    let elf = elf_image(&[(PT_LOAD, PF_R | PF_X, 120, 0x0400_0000, 4, 4)], &[1, 2, 3, 4]);
    tasks.load_task("one", 0, &mut m, &info, &elf, &mut h).unwrap();
    tasks.load_task("two", 1, &mut m, &info, &elf, &mut h).unwrap();
    let one = tasks.get_task(1).unwrap().cr3.unwrap().pml4_frame.number;
    let two = tasks.get_task(2).unwrap().cr3.unwrap().pml4_frame.number;
    assert!(one != two && one != kernel && two != kernel);
    for top in [kernel, one, two] {
        let last = m.memory.read(top, 511).unwrap();
        assert_eq!(last.pointed_frame(), Some(Frame { number: top }));
        assert_eq!(m.memory.level_of(top), Some(Level::PML4T));
    }
    // the second stack lies above the first in the heap
    let s1 = tasks.get_task(1).unwrap().kern_stack.as_ref().unwrap().bottom();
    let s2 = tasks.get_task(2).unwrap().kern_stack.as_ref().unwrap().bottom();
    assert_eq!(s2, s1 + 8192);
}

#[test]
fn what_stops_tasking() {
    let info = boot_information();
    let threads = KernelThreads { idle: 0x1000, test_thread: 0x2000, test_thread2: 0x3000, start_task: 0x4000 };
    let elf = elf_image(&[(PT_LOAD, PF_R | PF_X, 120, 0x0400_0000, 4, 4)], &[1, 2, 3, 4]);
    // room for two kernel stacks only
    let mut m = Machine::boot(info.frame_allocator()).unwrap();
    let table = InactivePML4Table { pml4_frame: Frame { number: m.cr3() / 4096 } };
    let mut small = KHeapAllocator::new();
    small.init(0xffff_8801_0000_0000, 0xffff_8801_0000_0000 + 2 * 8192);
    let mut tasks = TaskList::new();
    let mut current = 0;
    let mut cpu = Cpu::new();
    cpu.rflags = 0x202;
    let r = init(&mut tasks, &mut current, &mut cpu, &mut m, &info, &elf, &mut small, table, &threads);
    assert_eq!(r.unwrap_err(), TaskError::OutOfMemory);
    assert_eq!(tasks.next_id, 3);
    assert_eq!(current, 0);
    assert_eq!(cpu.rflags, 0x202);
    assert_eq!(m.alloc_frame(), Some(Frame { number: 0x106 }));
    // room for the three, none for the stack of the user task
    let mut m = Machine::boot(info.frame_allocator()).unwrap();
    let mut three = KHeapAllocator::new();
    three.init(0xffff_8801_0000_0000, 0xffff_8801_0000_0000 + 3 * 8192);
    let mut tasks = TaskList::new();
    let r = init(&mut tasks, &mut current, &mut cpu, &mut m, &info, &elf, &mut three, table, &threads);
    assert_eq!(r.unwrap_err(), TaskError::OutOfMemory);
    assert_eq!(tasks.next_id, 4);
    assert_eq!(m.cr3() / 4096, table.pml4_frame.number);
    // an image that is turned down
    let mut m = Machine::boot(info.frame_allocator()).unwrap();
    let mut h = heap();
    let mut tasks = TaskList::new();
    let mut bad = elf.clone();
    bad[0] = 0;
    let r = init(&mut tasks, &mut current, &mut cpu, &mut m, &info, &bad, &mut h, table, &threads);
    assert_eq!(r.unwrap_err(), TaskError::Elf(ElfError::BadMagic));
    assert_eq!(tasks.next_id, 4);
    assert_eq!(m.alloc_frame(), Some(Frame { number: 0x106 }));
}
