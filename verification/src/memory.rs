//! Physical and virtual memory: frames, page tables, address spaces.

use vstd::prelude::*;

pub mod frame;
pub mod frame_allocator;
pub mod paging;
pub mod physical;
pub mod machine;
pub mod mapper;
pub mod inactive;
pub mod address_space;
pub mod boot;
pub mod readiness;
pub mod stack_allocator;

verus! {

/// Size in bytes of a frame and of a page.
pub const PAGE_SIZE: u64 = 4096;

/// A range of addresses, from `start` up to and with `end`.
#[derive(Debug, Clone, Copy, PartialEq, Eq, Structural)]
pub struct AddressRange {
    pub start: u64,
    pub end: u64,
}

impl AddressRange {
    pub open spec fn spec_contains(self, addr: u64) -> bool {
        self.start <= addr <= self.end
    }

    pub fn contains(&self, addr: u64) -> (r: bool)
        ensures
            r == self.spec_contains(addr),
    {
        self.start <= addr && addr <= self.end
    }
}

pub const USER_MAP_START: u64 = 0;
pub const USER_MAP_END: u64 = 0x7fff_ff7f_ffff;
pub const USER_CODE_START: u64 = 0x0400_0000;
pub const USER_CODE_END: u64 = 0x7fff_ff7f_ffff;
pub const USER_STACK_START: u64 = 0x7fff_ff80_0000;
pub const USER_STACK_END: u64 = 0x7fff_ffff_efff;
pub const INVALID_START: u64 = 0x8000_0000_0000;
pub const INVALID_END: u64 = 0xffff_7fff_ffff_ffff;
pub const PHYSICAL_DIRECT_MAP_START: u64 = 0xffff_8000_0000_0000;
pub const PHYSICAL_DIRECT_MAP_END: u64 = 0xffff_8007_ffff_ffff;
pub const KERNEL_MAP_START: u64 = 0xffff_8800_0000_0000;
pub const KERNEL_MAP_END: u64 = 0xffff_8800_ffff_ffff;
pub const KERNEL_HEAP_START: u64 = 0xffff_8801_0000_0000;
pub const KERNEL_HEAP_END: u64 = 0xffff_8801_01ff_ffff;

/// How the virtual addresses are shared out.
#[allow(non_snake_case)]
#[derive(Debug, Clone, Copy, PartialEq, Eq, Structural)]
pub struct MemorySchema {
    /// Code and data of a user task.
    pub UserMap: AddressRange,
    pub UserCode: AddressRange,
    pub UserStack: AddressRange,
    /// The hole that the hardware cannot translate.
    pub Invalid: AddressRange,
    /// Kept for a direct mapping of physical memory.
    pub PhysicalDirectMap: AddressRange,
    /// The kernel's image, in the higher half.
    pub KernelMap: AddressRange,
    /// The kernel heap: 32 MiB.
    pub KernelHeap: AddressRange,
}

/// The kernel's memory schema.
pub fn kernel_mapping() -> (m: MemorySchema)
    ensures
        m == (MemorySchema {
            UserMap: AddressRange { start: 0, end: 0x7fff_ff7f_ffff },
            UserCode: AddressRange { start: 0x0400_0000, end: 0x7fff_ff7f_ffff },
            UserStack: AddressRange { start: 0x7fff_ff80_0000, end: 0x7fff_ffff_efff },
            Invalid: AddressRange { start: 0x8000_0000_0000, end: 0xffff_7fff_ffff_ffff },
            PhysicalDirectMap: AddressRange {
                start: 0xffff_8000_0000_0000,
                end: 0xffff_8007_ffff_ffff,
            },
            KernelMap: AddressRange { start: 0xffff_8800_0000_0000, end: 0xffff_8800_ffff_ffff },
            KernelHeap: AddressRange { start: 0xffff_8801_0000_0000, end: 0xffff_8801_01ff_ffff },
        }),
{
    MemorySchema {
        UserMap: AddressRange { start: USER_MAP_START, end: USER_MAP_END },
        UserCode: AddressRange { start: USER_CODE_START, end: USER_CODE_END },
        UserStack: AddressRange { start: USER_STACK_START, end: USER_STACK_END },
        Invalid: AddressRange { start: INVALID_START, end: INVALID_END },
        PhysicalDirectMap: AddressRange {
            start: PHYSICAL_DIRECT_MAP_START,
            end: PHYSICAL_DIRECT_MAP_END,
        },
        KernelMap: AddressRange { start: KERNEL_MAP_START, end: KERNEL_MAP_END },
        KernelHeap: AddressRange { start: KERNEL_HEAP_START, end: KERNEL_HEAP_END },
    }
}

/// `start` rounded up to a multiple of `align`.
pub fn align_up(start: u64, align: u64) -> (r: u64)
    requires
        align >= 1,
        start + align - 1 <= u64::MAX,
    ensures
        r == ((start + align - 1) / align as int) * align,
        r % align == 0,
        start <= r < start + align,
{
    proof {
        let x = (start + align - 1) as int;
        let a = align as int;
        vstd::arithmetic::div_mod::lemma_fundamental_div_mod(x, a);
        vstd::arithmetic::div_mod::lemma_mod_bound(x, a);
        vstd::arithmetic::div_mod::lemma_mod_multiples_basic(x / a, a);
        assert(a * (x / a) == (x / a) * a) by (nonlinear_arith);
    }
    ((start + (align - 1)) / align) * align
}

/// Pages in the arena that kernel stacks with guards are taken from.
pub const STACK_ARENA_PAGES: u64 = 32;

/// What manages the kernel's memory once paging is set up.
#[allow(non_snake_case)]
pub struct MemoryManager {
    pub machine: machine::Machine,
    pub activePML4Table: address_space::ActivePML4Table,
    /// The kernel's address space.
    pub kernelPML4Table: inactive::InactivePML4Table,
    pub stackAllocator: stack_allocator::StackAllocator,
    pub mbinfo: boot::BootInformation,
}

impl MemoryManager {
    /// The machine is in good order, the kernel's address space is the
    /// active one, and the pages of the stack arena that are left are unmapped.
    pub open spec fn wf(self) -> bool {
        &&& self.machine.wf()
        &&& self.machine.settled()
        &&& self.stackAllocator.wf(self.machine)
    }

    /// A stack of `size_in_pages` pages from the arena, with a guard page
    /// below it.
    pub fn alloc_stack(&mut self, size_in_pages: u64) -> (r: Option<stack_allocator::Stack>)
        requires
            old(self).wf(),
            size_in_pages > 0,
        ensures
            mapper::tops_kept(old(self).machine.memory@, final(self).machine.memory@),
            final(self).wf(),
            final(self).machine.cr3 == old(self).machine.cr3,
            final(self).kernelPML4Table == old(self).kernelPML4Table,
            final(self).stackAllocator.pages.end == old(self).stackAllocator.pages.end,
            old(self).stackAllocator.pages.spec_len() < size_in_pages + 1 ==> r.is_none() && final(self).stackAllocator.pages == old(self).stackAllocator.pages && final(self).machine.memory@
                == old(self).machine.memory@,
            old(self).stackAllocator.pages.spec_len() >= size_in_pages + 1 ==> ({
                let guard = old(self).stackAllocator.pages.start.number as int;
                let s = mapper::spec_map_range(
                    old(self).machine.memory@,
                    old(self).machine.frames@,
                    old(self).machine.top(),
                    guard + 1,
                    size_in_pages as nat,
                    stack_allocator::STACK_FLAGS,
                );
                &&& final(self).stackAllocator.pages.start.number == guard + 1 + size_in_pages
                &&& final(self).machine.memory@ == s.mem
                &&& final(self).machine.frames@ == s.frames
                &&& r.is_some() == s.err.is_none()
                &&& physical::walk(
                    final(self).machine.memory@,
                    old(self).machine.top(),
                    4,
                    mapper::page_va(guard),
                ).is_none()
                &&& r.is_some() ==> {
                    &&& r.unwrap().spec_bottom() == (guard + 1) * PAGE_SIZE
                    &&& r.unwrap().spec_top() == (guard + 1 + size_in_pages) * PAGE_SIZE
                    &&& mapper::mapped_range(
                        final(self).machine.memory@,
                        old(self).machine.top(),
                        guard + 1,
                        guard + 1 + size_in_pages,
                        stack_allocator::STACK_FLAGS,
                    )
                }
            }),
    {
        self.stackAllocator.alloc_stack(&mut self.activePML4Table, &mut self.machine, size_in_pages)
    }
}

/// The first page of the stack arena: the first page boundary at or after
/// the end of the boot information.
pub open spec fn spec_arena_start(mbinfo: boot::BootInformation) -> int {
    (mbinfo.end_address + PAGE_SIZE - 1) / PAGE_SIZE as int
}

/// Sets the kernel's memory up from the state that the boot code leaves:
/// `memory` holds the page tables of the boot code, of which the one at
/// `cr3` is active. A frame allocator is made over the memory areas;
/// execution protection and write protection are switched on; the kernel
/// is mapped into a new address space, which becomes the active one; the
/// stack arena of `STACK_ARENA_PAGES` pages begins after the boot
/// information.
pub fn init(mbinfo: boot::BootInformation, memory: physical::PhysicalMemory, cr3: u64, cpu: &mut crate::arch::cpu::Cpu) -> (r:
    Result<MemoryManager, machine::MapError>)
    requires
        readiness::spec_boot_ready(mbinfo),
        physical::mem_wf(memory@),
        cr3 / PAGE_SIZE < 0x100_0000_0000,
        physical::recursive(memory@, cr3 / PAGE_SIZE),
        physical::mappable(memory@, cr3 / PAGE_SIZE, 4, address_space::TEMPORARY_PAGE_ADDRESS),
    ensures
        *final(cpu) == (crate::arch::cpu::Cpu {
            efer: old(cpu).efer | crate::arch::cpu::EFER_NXE,
            cr0: old(cpu).cr0 | crate::arch::cpu::CR0_WRITE_PROTECT,
            ..*old(cpu)
        }),
        ({
            let frames = mbinfo.frame_allocator_view();
            let (s, f) = address_space::spec_create_address_space(
                memory@,
                frames,
                cr3 / PAGE_SIZE,
                address_space::TEMPORARY_PAGE_ADDRESS,
                mbinfo.spec_kernel_ranges(),
            );
            match s.err {
                Some(e) => r == Err::<MemoryManager, machine::MapError>(e),
                None => {
                    &&& r.is_ok()
                    &&& r.unwrap().wf()
                    &&& r.unwrap().machine.memory@ == s.mem
                    &&& r.unwrap().machine.frames@ == s.frames
                    &&& r.unwrap().machine.active() == f
                    &&& r.unwrap().kernelPML4Table.pml4_frame.number == f
                    &&& r.unwrap().stackAllocator.pages.start.number == spec_arena_start(mbinfo)
                    &&& r.unwrap().stackAllocator.pages.end.number == spec_arena_start(mbinfo)
                        + STACK_ARENA_PAGES
                    &&& address_space::ranges_mapped(
                        mbinfo.spec_kernel_ranges(),
                        mbinfo.spec_kernel_ranges().len() as int,
                        s.mem,
                        f,
                    )
                    // every top table of the boot code refers to what it referred
                    // to, and the new one to itself
                    &&& mapper::tops_kept(memory@, s.mem)
                },
            }
        }),
{
    let frames = frame::init(&mbinfo);
    let mut machine = machine::Machine::new(memory, cr3, frames);
    cpu.enable_nxe_bit();
    cpu.enable_write_protect_bit();
    match address_space::remap_the_kernel(&mut machine, &mbinfo) {
        Err(e) => Err(e),
        Ok(()) => {
            let start = paging::Page::from_vaddress(align_up(mbinfo.end_address, PAGE_SIZE));
            let end = start.plus(STACK_ARENA_PAGES);
            let stack_allocator = stack_allocator::StackAllocator::new(start, end);
            let kernel = inactive::InactivePML4Table {
                pml4_frame: frame::Frame::from_paddress(machine.cr3()),
            };
            Ok(
                MemoryManager {
                    machine,
                    activePML4Table: address_space::ActivePML4Table::new(),
                    kernelPML4Table: kernel,
                    stackAllocator: stack_allocator,
                    mbinfo,
                },
            )
        },
    }
}

} // verus!
