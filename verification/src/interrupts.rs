//! Descriptor tables, the interrupt controllers and the timer.

pub mod gdt;
pub mod idt;
pub mod irq;
pub mod timer;

use vstd::prelude::*;

verus! {

/// Selector of the code segment of ring 0.
pub const KERN_CS_SEL: u16 = 8;

/// Selector of the data segment of ring 0.
pub const KERN_DS_SEL: u16 = 16;

/// Selector of the data segment of ring 3.
pub const USER_DS_SEL: u16 = 27;

/// Selector of the code segment of ring 3.
pub const USER_CS_SEL: u16 = 35;

/// Selector of the task state segment.
pub const TSS_SEL: u16 = 40;

/// The entry of the interrupt stack table that double faults run on.
pub const IST_INDEX_DBL_FAULT: usize = 0;

/// Where the handlers of the vectors that the kernel serves begin.
#[derive(Debug, Clone, Copy, PartialEq, Eq, Structural)]
pub struct HandlerAddresses {
    pub divide_by_zero: u64,
    pub breakpoint: u64,
    pub double_fault: u64,
    pub general_protection_fault: u64,
    pub page_fault: u64,
    pub timer: u64,
    pub keyboard: u64,
}

/// The entry at vector `v`: that of a handler where the kernel serves the
/// vector, else an entry without a handler. All are present interrupt gates
/// of ring 0; double faults run on entry 0 of the interrupt stack table.
pub open spec fn spec_idt_entry(cs: u16, h: HandlerAddresses, v: int) -> idt::Entry {
    if v == 0 {
        idt::Entry::spec_new(cs, h.divide_by_zero)
    } else if v == 3 {
        idt::Entry::spec_new(cs, h.breakpoint)
    } else if v == 8 {
        idt::Entry::spec_new(cs, h.double_fault)
    } else if v == 13 {
        idt::Entry::spec_new(cs, h.general_protection_fault)
    } else if v == 14 {
        idt::Entry::spec_new(cs, h.page_fault)
    } else if v == 32 {
        idt::Entry::spec_new(cs, h.timer)
    } else if v == 33 {
        idt::Entry::spec_new(cs, h.keyboard)
    } else {
        idt::Entry::spec_new(0, 0)
    }
}

/// The interrupt descriptor table of the kernel.
pub fn build_idt(cs: u16, handlers: &HandlerAddresses) -> (t: idt::InterruptDescriptorTable)
    ensures
        t.wf(),
        forall|v: int| 0 <= v < 256 ==> #[trigger] t.entries@[v] == spec_idt_entry(cs, *handlers, v),
{
    let mut t = idt::InterruptDescriptorTable::new();
    t.set(idt::PAGE_FAULT, idt::Entry::new(cs, handlers.page_fault));
    t.set(idt::GENERAL_PROTECTION_FAULT, idt::Entry::new(cs, handlers.general_protection_fault));
    t.set(idt::BREAKPOINT, idt::Entry::new(cs, handlers.breakpoint));
    let mut df = idt::Entry::new(cs, handlers.double_fault);
    proof {
        assert((0x8e00u16 & !7u16) | 0u16 == 0x8e00u16 && 0xfffbu16 & !(1u16 << 2u16) == 0xfffbu16
            && 0xfffbu16 & !(1u16 << 0u16) == 0xfffau16 && 0xfffau16 & !(1u16 << 1u16) == 0xfff8u16)
            by (bit_vector);
    }
    df.options.set_ist_index(IST_INDEX_DBL_FAULT as u16);
    t.set(idt::DOUBLE_FAULT, df);
    t.set(idt::DIVIDE_BY_ZERO, idt::Entry::new(cs, handlers.divide_by_zero));
    t.set(idt::IRQ_BASE, idt::Entry::new(cs, handlers.timer));
    t.set(idt::IRQ_BASE + 1, idt::Entry::new(cs, handlers.keyboard));
    t
}

/// What sets the interrupts up: the tables to be loaded, the devices, and
/// the writes to be sent, in their order.
pub struct InterruptSetup {
    pub gdt: gdt::GlobalDescriptorTable,
    pub idt: idt::InterruptDescriptorTable,
    pub pic: irq::PicChain,
    pub timer: timer::Timer,
    pub keyboard: crate::driver::keyboard::Keyboard,
    pub msr_writes: Vec<crate::arch::cpu::MsrWrite>,
    pub port_writes: Vec<crate::arch::port::PortWrite>,
    /// The stack that double faults run on.
    pub double_fault_stack: crate::memory::stack_allocator::Stack,
}

/// The words of the global descriptor table: the null descriptor, the code
/// and data segments of ring 0, the data and code segments of ring 3, and
/// the two words of the task state segment at `tss`.
pub open spec fn spec_gdt_table(tss: u64) -> Seq<u64> {
    seq![
        0u64,
        0x0020_9800_0000_0000u64,
        0x0020_9200_0000_0000u64,
        0x0020_f200_0000_0000u64,
        0x0020_fa00_0000_0000u64,
        gdt::Descriptor::spec_tss_low(tss),
        tss >> 32,
        0u64,
    ]
}

/// The writes to the ports that set the devices up: the timer, the
/// keyboard, the interrupt controllers, and the lines of the slave, the
/// timer and the keyboard let through.
pub open spec fn spec_setup_port_writes() -> Seq<crate::arch::port::PortWrite> {
    timer::spec_timer_writes() + seq![
        crate::arch::port::byte_write(0x60, 0xF4),
        crate::arch::port::byte_write(0x64, 0x60),
        crate::arch::port::byte_write(0x60, 0x47),
        crate::arch::port::byte_write(0x60, 0xED),
        crate::arch::port::byte_write(0x60, 0),
    ] + irq::spec_init_writes(0xfffb) + irq::spec_mask_writes(0xfffb) + irq::spec_mask_writes(0xfffa)
        + irq::spec_mask_writes(0xfff8)
}

/// Sets the interrupts up. A stack of one page is taken for double faults
/// and entered into the interrupt stack table; the global descriptor table
/// gets its five descriptors; `syscall` and `sysret` are set up; the
/// interrupt descriptor table gets the kernel's handlers; the timer, the
/// keyboard and the interrupt controllers are set up, and interrupts are
/// switched on. Nothing of this happens where no stack can be had.
pub fn init(
    mm: &mut crate::memory::MemoryManager,
    cpu: &mut crate::arch::cpu::Cpu,
    handlers: &HandlerAddresses,
    tss: u64,
    syscall_entry: u64,
) -> (r: Option<InterruptSetup>)
    requires
        old(mm).wf(),
    ensures
        final(mm).wf(),
        crate::memory::mapper::tops_kept(old(mm).machine.memory@, final(mm).machine.memory@),
        r.is_none() ==> *final(cpu) == *old(cpu),
        r.is_some() == (old(mm).stackAllocator.pages.spec_len() >= 2
            && crate::memory::mapper::spec_map_range(
            old(mm).machine.memory@,
            old(mm).machine.frames@,
            old(mm).machine.top(),
            old(mm).stackAllocator.pages.start.number + 1,
            1,
            crate::memory::stack_allocator::STACK_FLAGS,
        ).err.is_none()),
        r.is_some() ==> ({
            let s = r.unwrap();
            &&& s.double_fault_stack.spec_bottom() == (old(mm).stackAllocator.pages.start.number + 1)
                * crate::memory::PAGE_SIZE
            &&& s.double_fault_stack.spec_top() == (old(mm).stackAllocator.pages.start.number + 2)
                * crate::memory::PAGE_SIZE
            &&& *final(cpu) == (crate::arch::cpu::Cpu {
                ist0: s.double_fault_stack.spec_top(),
                efer: old(cpu).efer | crate::arch::cpu::EFER_SCE,
                rflags: old(cpu).rflags | crate::arch::cpu::RFLAGS_IF,
                ..*old(cpu)
            })
            &&& s.gdt.wf()
            &&& s.gdt.next == 7
            &&& s.gdt.table@ == spec_gdt_table(tss)
            &&& s.idt.wf()
            &&& forall|v: int|
                0 <= v < 256 ==> #[trigger] s.idt.entries@[v] == spec_idt_entry(
                    KERN_CS_SEL,
                    *handlers,
                    v,
                )
            &&& s.msr_writes@ == crate::syscall::spec_syscall_msrs(syscall_entry)
            &&& s.port_writes@ == spec_setup_port_writes()
            &&& s.pic.wf()
            &&& s.pic.irqmask == 0xfff8
            &&& s.timer.wf()
            &&& s.keyboard.wf()
            &&& s.keyboard.status.is_none()
        }),
{
    let stack = match mm.alloc_stack(1) {
        None => {
            return None;
        },
        Some(s) => s,
    };
    cpu.ist0 = stack.top();
    let mut gdt = gdt::GlobalDescriptorTable::new();
    let kcs = gdt.add_entry(gdt::Descriptor::kernel_code_segment());
    let kds = gdt.add_entry(gdt::Descriptor::kernel_data_segment());
    let uds = gdt.add_entry(gdt::Descriptor::user_data_segment());
    let ucs = gdt.add_entry(gdt::Descriptor::user_code_segment());
    let tss_sel = gdt.add_entry(gdt::Descriptor::tss_segment(tss));
    assert(gdt.table@ =~= spec_gdt_table(tss));
    let msr_writes = crate::syscall::init(cpu, syscall_entry);
    let idt = build_idt(kcs, handlers);
    let mut timer = timer::Timer::new();
    let mut keyboard = crate::driver::keyboard::Keyboard::new();
    let mut pic = irq::PicChain::new();
    let mut port_writes = timer.init();
    let mut w = keyboard.init();
    port_writes.append(&mut w);
    let mut w = pic.init();
    port_writes.append(&mut w);
    proof {
        assert(0xfffbu16 & !(1u16 << 2u16) == 0xfffbu16 && 0xfffbu16 & !(1u16 << 0u16) == 0xfffau16
            && 0xfffau16 & !(1u16 << 1u16) == 0xfff8u16) by (bit_vector);
    }
    let mut w = pic.enable(irq::Irqs::IRQ2.vector());
    port_writes.append(&mut w);
    let mut w = pic.enable(irq::Irqs::TIMER.vector());
    port_writes.append(&mut w);
    let mut w = pic.enable(irq::Irqs::KBD.vector());
    port_writes.append(&mut w);
    assert(port_writes@ =~= spec_setup_port_writes());
    cpu.rflags = cpu.rflags | crate::arch::cpu::RFLAGS_IF;
    Some(
        InterruptSetup {
            gdt,
            idt,
            pic,
            timer,
            keyboard,
            msr_writes,
            port_writes,
            double_fault_stack: stack,
        },
    )
}

/// What the timer's handler does at each tick: the interrupt is ended, the
/// ticks are counted, and, where a task runs, the scheduler takes its turn.
/// Returns the writes that end the interrupt, and whether the task changed.
pub fn timer_handler(
    ticks: &mut u64,
    pic: &mut irq::PicChain,
    tasks: &mut crate::task::TaskList,
    current_id: &mut crate::task::ProcId,
    cpu: &mut crate::arch::cpu::Cpu,
    machine: &mut crate::memory::machine::Machine,
) -> (r: (Vec<crate::arch::port::PortWrite>, bool))
    requires
        old(pic).wf(),
        old(tasks).wf(),
        !old(cpu).spec_interrupts_enabled(),
        *old(current_id) == 0 || old(tasks).tasks@.contains_key(*old(current_id)),
        forall|pid: crate::task::ProcId| #[trigger]
            old(tasks).tasks@.contains_key(pid) && old(tasks).tasks@[pid].is_user() ==> old(tasks).tasks@[pid].cr3.is_some() && old(tasks).tasks@[pid].cr3.unwrap().pml4_frame.addressable(),
    ensures
        *final(pic) == *old(pic),
        r.0@ == irq::spec_eoi_writes(0),
        *final(ticks) == if *old(ticks) == u64::MAX {
            0
        } else {
            (*old(ticks) + 1) as u64
        },
        final(tasks).wf(),
        r.1 == (*old(current_id) > 0 && old(tasks).next_id > 2),
        !r.1 ==> *final(tasks) == *old(tasks) && *final(current_id) == *old(current_id) && *final(cpu)
            == *old(cpu) && *final(machine) == *old(machine),
        r.1 ==> *final(current_id) == crate::task::spec_next_task(
            *old(current_id) as int,
            old(tasks).next_id as int,
        ) && *final(cpu) == old(tasks).tasks@[*final(current_id)].ctx.loaded(
            if old(tasks).tasks@[*final(current_id)].is_user() {
                crate::task::spec_enter_user(
                    *old(cpu),
                    old(tasks).tasks@[*final(current_id)].tls.kern_rsp,
                )
            } else {
                *old(cpu)
            },
        ),
{
    let w = pic.eoi(0);
    *ticks = if *ticks == u64::MAX {
        0
    } else {
        *ticks + 1
    };
    let switched = if *current_id > 0 {
        crate::task::sched(tasks, current_id, cpu, machine)
    } else {
        false
    };
    (w, switched)
}

} // verus!
