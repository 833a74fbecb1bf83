//! Tasks: the table of tasks, kernel threads, the switch from one task to
//! another, and the round-robin scheduler.

use vstd::prelude::*;
use std::collections::BTreeMap;
use crate::arch::cpu::Cpu;
use crate::heap::KHeapAllocator;
use crate::memory::PAGE_SIZE;
use crate::memory::address_space::{ActivePML4Table, MapRange, TEMPORARY_PAGE_ADDRESS,
    bystanders_kept, lemma_temporary_page_ok, ranges_mapped, ranges_ok, spec_with};
use crate::memory::inactive::{InactivePML4Table, TemporaryPage};
use crate::memory::machine::{Machine, MapError};
use crate::memory::mapper::{all_pages, mappable_range, mapped_range, page_va, pages_ok, range_mappable,
    walks_kept};
use crate::memory::paging::{EntryFlags, Page, PageRange, Level, NO_EXECUTE, PRESENT, USER, WRITABLE};
use crate::memory::boot::BootInformation;
use crate::memory::address_space::{create_address_space, clear_of, same_in, lemma_same_in_mapped,
    spec_create_address_space};
use crate::memory::frame::ProxyState;
use crate::memory::mapper::{lemma_walks_kept_trans, lemma_walks_kept_other, page_ok, tops_kept,
    lemma_tops_kept_refl, lemma_tops_kept_trans};
use crate::memory::physical::{MemView, enters, lemma_mappable, mem_wf, walk};
use crate::elf64::{Elf64, ElfError, ProgramHeader, spec_check, spec_header, spec_ph_offset,
    spec_program_header, Header};
use crate::memory::{USER_STACK_END, USER_STACK_START};
use crate::memory::physical::{mappable, recursive};
use crate::memory::stack_allocator::Stack;

verus! {

broadcast use vstd::std_specs::btree::group_btree_axioms;

pub type ProcId = isize;

/// More tasks than this there cannot be.
pub const MAX_TASK: isize = 64;

/// Size of a task's kernel stack.
pub const KERNEL_STACK_SIZE: u64 = 8192;

/// The flags that a task starts with: interrupts on.
pub const INITIAL_RFLAGS: u64 = 0x0202;

#[derive(Debug, Clone, Copy, PartialEq, Eq, Structural)]
pub enum TaskState {
    Unused,
    Created,
    Ready,
    Running,
    Sleep,
    Zombie,
}

/// What is kept of a task's registers while it does not run.
#[derive(Debug, Clone, Copy, PartialEq, Eq, Structural)]
pub struct Context {
    pub rflags: u64,
    /// Physical address of the task's top table.
    pub cr3: u64,
    pub rbp: u64,
    pub rbx: u64,
    pub rsp: u64,
    pub r12: u64,
    pub r13: u64,
    pub r14: u64,
    pub r15: u64,
}

impl Context {
    pub fn new() -> (c: Context)
        ensures
            c == (Context {
                rflags: 0,
                cr3: 0,
                rbp: 0,
                rbx: 0,
                rsp: 0,
                r12: 0,
                r13: 0,
                r14: 0,
                r15: 0,
            }),
    {
        Context { rflags: 0, cr3: 0, rbp: 0, rbx: 0, rsp: 0, r12: 0, r13: 0, r14: 0, r15: 0 }
    }

    /// The context with the registers of the processor saved in it. The
    /// top table stays.
    pub open spec fn saved(self, cpu: Cpu) -> Context {
        Context {
            rflags: cpu.rflags,
            cr3: self.cr3,
            rbp: cpu.rbp,
            rbx: cpu.rbx,
            rsp: cpu.rsp,
            r12: cpu.r12,
            r13: cpu.r13,
            r14: cpu.r14,
            r15: cpu.r15,
        }
    }

    /// The processor with the registers of the context loaded into it.
    pub open spec fn loaded(self, cpu: Cpu) -> Cpu {
        Cpu {
            rflags: self.rflags,
            rbp: self.rbp,
            rbx: self.rbx,
            rsp: self.rsp,
            r12: self.r12,
            r13: self.r13,
            r14: self.r14,
            r15: self.r15,
            ..cpu
        }
    }
}

/// The registers that a switch keeps: the callee-saved registers, the
/// stack pointer and the flags.
pub open spec fn kept_registers(cpu: Cpu) -> (u64, u64, u64, u64, u64, u64, u64, u64) {
    (cpu.rflags, cpu.rbp, cpu.rbx, cpu.rsp, cpu.r12, cpu.r13, cpu.r14, cpu.r15)
}

/// A switch away from a task and, whatever the processor did meanwhile, a
/// switch back to it bring back the registers that the task had at the
/// first switch.
pub proof fn lemma_switch_round_trip(at_first: Cpu, context: Context, meanwhile: Cpu)
    ensures
        kept_registers(context.saved(at_first).loaded(meanwhile)) == kept_registers(at_first),
{
}

/// A range of a task's address space.
#[derive(Debug, Clone, Copy, PartialEq, Eq, Structural)]
pub struct VirtualMemoryArea {
    pub start: u64,
    pub size: u64,
    pub mapped: bool,
    pub flags: EntryFlags,
}

impl VirtualMemoryArea {
    /// The area is not empty and ends within the address space.
    pub open spec fn wf(self) -> bool {
        self.size >= 1 && self.start + self.size <= u64::MAX && self.flags.valid()
    }

    /// The first page of the area.
    pub open spec fn lo(self) -> int {
        self.start as int / PAGE_SIZE as int
    }

    /// The page after the last page of the area.
    pub open spec fn hi(self) -> int {
        (self.start + self.size - 1) / PAGE_SIZE as int + 1
    }

    /// The pages of the area as a range to be mapped, each to a frame from
    /// the allocator.
    pub open spec fn spec_range(self) -> MapRange {
        MapRange {
            start: Page { number: (self.start / PAGE_SIZE) as u64 },
            count: (self.hi() - self.lo()) as u64,
            first: None,
            flags: self.flags,
        }
    }

    /// An area that is not mapped yet. `PRESENT` is no flag of an area.
    pub fn new(start: u64, size: u64, flags: EntryFlags) -> (v: VirtualMemoryArea)
        requires
            !flags.spec_contains(PRESENT),
        ensures
            v == (VirtualMemoryArea { start, size, mapped: false, flags }),
    {
        VirtualMemoryArea { start, size, mapped: false, flags }
    }

    /// The pages that the area overlaps.
    pub fn get_pages(&self) -> (r: PageRange)
        requires
            self.wf(),
        ensures
            r.start.number == self.lo(),
            r.end.number == self.hi(),
            r.start.number < r.end.number,
    {
        PageRange::new(self.start, self.start + self.size)
    }

    pub fn range(&self) -> (r: MapRange)
        requires
            self.wf(),
        ensures
            r == self.spec_range(),
            r.lo() == self.lo(),
            r.hi() == self.hi(),
    {
        let pages = self.get_pages();
        MapRange {
            start: pages.start,
            count: pages.end.number - pages.start.number,
            first: None,
            flags: self.flags,
        }
    }

    /// Whether every page of the area can be walked for and is unmapped in
    /// the address space of `inactive`.
    pub fn can_map(&self, inactive: &InactivePML4Table, machine: &Machine) -> (r: bool)
        requires
            self.wf(),
            machine.memory.shape(),
        ensures
            r == (pages_ok(self.lo(), self.hi()) && mappable_range(
                machine.memory@,
                inactive.pml4_frame.number,
                self.lo(),
                self.hi(),
            )),
    {
        let range = self.range();
        range_mappable(&machine.memory, inactive.pml4_frame.number, range.start, range.count)
    }

    /// Maps each page of the area to a frame from the allocator, with the
    /// area's flags, in the address space of `inactive`. Three frames are
    /// set aside for the temporary page through which that is done.
    pub fn map(&self, inactive: &mut InactivePML4Table, machine: &mut Machine) -> (r: Result<
        (),
        MapError,
    >)
        requires
            self.wf(),
            old(machine).wf(),
            old(machine).settled(),
            recursive(old(machine).memory@, old(inactive).pml4_frame.number),
            old(inactive).pml4_frame.number != old(machine).active(),
            mappable(old(machine).memory@, old(machine).active(), 4, TEMPORARY_PAGE_ADDRESS),
            pages_ok(self.lo(), self.hi()),
            mappable_range(
                old(machine).memory@,
                old(inactive).pml4_frame.number,
                self.lo(),
                self.hi(),
            ),
        ensures
            *final(inactive) == *old(inactive),
            final(machine).wf(),
            final(machine).settled(),
            final(machine).cr3 == old(machine).cr3,
            final(machine).frames.initial == old(machine).frames.initial,
            recursive(final(machine).memory@, old(inactive).pml4_frame.number),
            ({
                let s = spec_with(
                    old(machine).memory@,
                    old(machine).frames@.after(3),
                    old(machine).active(),
                    old(inactive).pml4_frame.number,
                    TEMPORARY_PAGE_ADDRESS,
                    seq![self.spec_range()],
                );
                &&& final(machine).memory@ == s.mem
                &&& final(machine).frames@ == s.frames
                &&& match s.err {
                    None => r.is_ok(),
                    Some(e) => r == Err::<(), MapError>(e),
                }
            }),
            r.is_ok() ==> mapped_range(
                final(machine).memory@,
                old(inactive).pml4_frame.number,
                self.lo(),
                self.hi(),
                self.flags.bits,
            ),
            walks_kept(
                old(machine).memory@,
                final(machine).memory@,
                old(inactive).pml4_frame.number,
                0,
                all_pages(),
            ),
            bystanders_kept(
                seq![self.spec_range()],
                old(machine).memory@,
                final(machine).memory@,
                old(inactive).pml4_frame.number,
            ),
            tops_kept(old(machine).memory@, final(machine).memory@),
    {
        proof {
            lemma_temporary_page_ok();
        }
        let mut active = ActivePML4Table::new();
        let mut temp_page = TemporaryPage::new(Page::from_vaddress(TEMPORARY_PAGE_ADDRESS), machine);
        let mut ranges: Vec<MapRange> = Vec::new();
        ranges.push(self.range());
        proof {
            assert(ranges@ =~= seq![self.spec_range()]);
            assert(ranges@[0].wf());
        }
        let r = active.with(inactive, &mut temp_page, &ranges, machine);
        proof {
            if r.is_ok() {
                assert(ranges@[0].mapped(machine.memory@, inactive.pml4_frame.number));
            }
        }
        r
    }

    /// Unmapping an area is not done yet: nothing changes.
    pub fn unmap(&mut self, inactive: &mut InactivePML4Table)
        ensures
            *final(self) == *old(self),
            *final(inactive) == *old(inactive),
    {
    }
}

/// The two stack pointers at the top of a task's kernel stack, which the
/// base of `%gs` points at while the task runs.
#[derive(Debug, Clone, Copy, PartialEq, Eq, Structural)]
pub struct TLSSegment {
    pub user_rsp: u64,
    pub kern_rsp: u64,
}

impl TLSSegment {
    pub fn empty() -> (t: TLSSegment)
        ensures
            t == (TLSSegment { user_rsp: 0, kern_rsp: 0 }),
    {
        TLSSegment { user_rsp: 0, kern_rsp: 0 }
    }

    pub fn new(kern_rsp: u64, user_rsp: u64) -> (t: TLSSegment)
        ensures
            t == (TLSSegment { user_rsp, kern_rsp }),
    {
        TLSSegment { user_rsp, kern_rsp }
    }
}

/// Bytes of the two stack pointers.
pub const TLS_SEGMENT_SIZE: u64 = 16;

/// Bytes of what the processor pushes before it calls a handler.
pub const EXCEPTION_FRAME_SIZE: u64 = 40;

#[derive(Debug)]
pub struct Task {
    pub pid: ProcId,
    pub ppid: ProcId,
    pub name: Option<String>,
    /// The task's address space.
    pub cr3: Option<InactivePML4Table>,
    pub kern_stack: Option<Stack>,
    pub user_stack: Option<VirtualMemoryArea>,
    pub code: Option<VirtualMemoryArea>,
    /// Data and zeroed memory.
    pub data: Option<VirtualMemoryArea>,
    /// Where the task starts to run.
    pub exec_entry: u64,
    pub ctx: Context,
    pub state: TaskState,
    /// The two stack pointers at the top of the kernel stack.
    pub tls: TLSSegment,
    /// The words that lie ready on the kernel stack below them, from the
    /// top down.
    pub frame: Vec<u64>,
}

impl Task {
    pub fn empty() -> (t: Task)
        ensures
            t.pid == 0,
            t.ppid == 0,
            t.name.is_none(),
            t.cr3.is_none(),
            t.kern_stack.is_none(),
            t.user_stack.is_none(),
            t.code.is_none(),
            t.data.is_none(),
            t.exec_entry == 0,
            t.state == TaskState::Unused,
            t.ctx == (Context {
                rflags: 0,
                cr3: 0,
                rbp: 0,
                rbx: 0,
                rsp: 0,
                r12: 0,
                r13: 0,
                r14: 0,
                r15: 0,
            }),
            t.tls == (TLSSegment { user_rsp: 0, kern_rsp: 0 }),
            t.frame@.len() == 0,
    {
        Task {
            pid: 0,
            ppid: 0,
            name: None,
            cr3: None,
            kern_stack: None,
            user_stack: None,
            code: None,
            data: None,
            exec_entry: 0,
            state: TaskState::Unused,
            ctx: Context::new(),
            tls: TLSSegment::empty(),
            frame: Vec::new(),
        }
    }

    /// Whether the task runs in ring 3.
    pub open spec fn is_user(self) -> bool {
        self.user_stack.is_some()
    }
}

/// Saves the registers of the processor in the context of `current` and
/// loads those of `next`: the flags, the frame pointer, the stack pointer
/// and the callee-saved registers. Nothing else of the processor changes.
pub fn switch_to(cpu: &mut Cpu, current: &mut Task, next: &Task)
    ensures
        final(current).ctx == old(current).ctx.saved(*old(cpu)),
        *final(cpu) == next.ctx.loaded(*old(cpu)),
        final(current).pid == old(current).pid,
        final(current).ppid == old(current).ppid,
        final(current).name == old(current).name,
        final(current).cr3 == old(current).cr3,
        final(current).kern_stack == old(current).kern_stack,
        final(current).user_stack == old(current).user_stack,
        final(current).code == old(current).code,
        final(current).data == old(current).data,
        final(current).exec_entry == old(current).exec_entry,
        final(current).state == old(current).state,
        final(current).tls == old(current).tls,
        final(current).frame == old(current).frame,
{
    current.ctx.rflags = cpu.rflags;
    current.ctx.rbp = cpu.rbp;
    current.ctx.rbx = cpu.rbx;
    current.ctx.r12 = cpu.r12;
    current.ctx.r13 = cpu.r13;
    current.ctx.r14 = cpu.r14;
    current.ctx.r15 = cpu.r15;
    current.ctx.rsp = cpu.rsp;
    cpu.rbx = next.ctx.rbx;
    cpu.r12 = next.ctx.r12;
    cpu.r13 = next.ctx.r13;
    cpu.r14 = next.ctx.r14;
    cpu.r15 = next.ctx.r15;
    cpu.rsp = next.ctx.rsp;
    cpu.rflags = next.ctx.rflags;
    cpu.rbp = next.ctx.rbp;
}

/// Why a task could not be made.
#[derive(Debug, Clone, Copy, PartialEq, Eq, Structural)]
pub enum TaskError {
    /// The heap has no room for the kernel stack.
    OutOfMemory,
    /// The address space could not be built.
    Mapping(MapError),
    /// The image was turned down.
    Elf(crate::elf64::ElfError),
    /// An area of the task cannot be mapped where it belongs.
    BadLayout,
}

pub struct TaskList {
    pub tasks: BTreeMap<ProcId, Task>,
    pub next_id: ProcId,
}

/// The task after the one with the id `id` in the round of the tasks `1`
/// up to `next_id - 1`.
pub open spec fn spec_next_task(id: int, next_id: int) -> int {
    if id + 1 >= next_id {
        1
    } else {
        id + 1
    }
}

/// The words below the two stack pointers of a new kernel thread, from the
/// top down: what `iretq` pops (stack segment, stack pointer, flags, code
/// segment, instruction pointer), and below it the address of the stub that
/// consists of `iretq`.
pub open spec fn spec_thread_frame(tlsbase: u64, rip: u64, start_task: u64) -> Seq<u64> {
    seq![16u64, tlsbase, INITIAL_RFLAGS, 8u64, rip, start_task]
}

impl TaskList {
    /// Each task is kept under its id, and the ids are the numbers from 1
    /// up to `next_id - 1`.
    pub open spec fn wf(self) -> bool {
        &&& 1 <= self.next_id <= MAX_TASK
        &&& forall|pid: ProcId| #[trigger] self.tasks@.contains_key(pid) <==> 1 <= pid < self.next_id
        &&& forall|pid: ProcId| #[trigger]
            self.tasks@.contains_key(pid) ==> self.tasks@[pid].pid == pid
    }

    pub fn new() -> (l: TaskList)
        ensures
            l.wf(),
            l.next_id == 1,
    {
        TaskList { tasks: BTreeMap::new(), next_id: 1 }
    }

    pub fn get_task(&self, id: ProcId) -> (r: Option<&Task>)
        ensures
            r.is_some() == self.tasks@.contains_key(id),
            r.is_some() ==> *r.unwrap() == self.tasks@[id],
    {
        self.tasks.get(&id)
    }

    /// The task that runs.
    pub fn current(&self, current_id: ProcId) -> (r: Option<&Task>)
        ensures
            r.is_some() == self.tasks@.contains_key(current_id),
            r.is_some() ==> *r.unwrap() == self.tasks@[current_id],
    {
        self.get_task(current_id)
    }

    /// Makes a kernel thread that starts at `rip`. Its kernel stack of
    /// 8 KiB is taken from the heap. At the stack's top lie the two stack
    /// pointers, below them a frame for `iretq` that leads to `rip` in ring
    /// 0 with interrupts on, and below that the address `start_task` of the
    /// stub that consists of `iretq`; the saved stack pointer points at it.
    /// The thread runs in the kernel's address space `kernel_table`.
    pub fn alloc_kernel_task(
        &mut self,
        name: &str,
        rip: u64,
        start_task: u64,
        kernel_table: InactivePML4Table,
        heap: &mut KHeapAllocator,
    ) -> (r: Result<ProcId, TaskError>)
        requires
            old(self).wf(),
            old(self).next_id < MAX_TASK,
            old(heap).wf(),
            old(heap).range.is_some(),
            kernel_table.pml4_frame.addressable(),
        ensures
            final(self).wf(),
            final(heap).wf(),
            final(heap).range == old(heap).range,
            final(heap).free@ == crate::heap::spec_after_allocate(
                old(heap).free@,
                KERNEL_STACK_SIZE as int,
                1,
            ),
            ({
                let i = crate::heap::first_fit(old(heap).free@, 0, KERNEL_STACK_SIZE as int, 1);
                if i < old(heap).free@.len() {
                    let bottom = old(heap).free@[i].start;
                    let top = (bottom + KERNEL_STACK_SIZE) as u64;
                    let tlsbase = (top - TLS_SEGMENT_SIZE) as u64;
                    let pid = old(self).next_id;
                    let t = final(self).tasks@[pid];
                    &&& r == Ok::<ProcId, TaskError>(pid)
                    &&& final(self).next_id == pid + 1
                    &&& final(self).tasks@.dom() == old(self).tasks@.dom().insert(pid)
                    &&& forall|q: ProcId| #[trigger]
                        old(self).tasks@.contains_key(q) ==> final(self).tasks@[q] == old(self).tasks@[q]
                    &&& t.pid == pid
                    &&& t.ppid == 0
                    &&& t.name.is_some()
                    &&& t.name.unwrap()@ == name@
                    &&& t.state == TaskState::Ready
                    &&& t.exec_entry == rip
                    &&& t.cr3 == Some(kernel_table)
                    &&& t.user_stack.is_none()
                    &&& t.code.is_none()
                    &&& t.data.is_none()
                    &&& t.kern_stack.is_some()
                    &&& t.kern_stack.unwrap().spec_top() == top
                    &&& t.kern_stack.unwrap().spec_bottom() == bottom
                    &&& t.tls == (TLSSegment { user_rsp: 0, kern_rsp: tlsbase })
                    &&& t.frame@ == spec_thread_frame(tlsbase, rip, start_task)
                    &&& t.ctx == (Context {
                        rflags: INITIAL_RFLAGS,
                        cr3: (kernel_table.pml4_frame.number * PAGE_SIZE) as u64,
                        rsp: (tlsbase - EXCEPTION_FRAME_SIZE - 8) as u64,
                        rbp: 0,
                        rbx: 0,
                        r12: 0,
                        r13: 0,
                        r14: 0,
                        r15: 0,
                    })
                    &&& forall|x: int|
                        final(heap).is_free(x) <==> old(heap).is_free(x) && !(bottom <= x < top)
                } else {
                    &&& r == Err::<ProcId, TaskError>(TaskError::OutOfMemory)
                    &&& final(self).tasks@ == old(self).tasks@
                    &&& final(self).next_id == old(self).next_id
                    &&& *final(heap) == *old(heap)
                }
            }),
    {
        let pid = self.next_id;
        let bottom = match heap.allocate(KERNEL_STACK_SIZE, 1) {
            None => {
                return Err(TaskError::OutOfMemory);
            },
            Some(a) => a,
        };
        let top = bottom + KERNEL_STACK_SIZE;
        let tlsbase = top - TLS_SEGMENT_SIZE;
        let mut task = Task::empty();
        task.pid = pid;
        task.ppid = 0;
        task.name = Some(name.to_string());
        task.state = TaskState::Created;
        task.exec_entry = rip;
        task.kern_stack = Some(Stack::new(top, bottom));
        task.cr3 = Some(kernel_table);
        task.ctx = Context::new();
        task.ctx.rflags = INITIAL_RFLAGS;
        task.ctx.rsp = tlsbase - EXCEPTION_FRAME_SIZE - 8;
        task.tls = TLSSegment { user_rsp: 0, kern_rsp: tlsbase };
        let mut frame: Vec<u64> = Vec::new();
        frame.push(crate::interrupts::KERN_DS_SEL as u64);
        frame.push(tlsbase);
        frame.push(task.ctx.rflags);
        frame.push(crate::interrupts::KERN_CS_SEL as u64);
        frame.push(task.exec_entry);
        frame.push(start_task);
        assert(frame@ =~= spec_thread_frame(tlsbase, rip, start_task));
        task.frame = frame;
        task.ctx.cr3 = kernel_table.pml4_frame.start_address();
        task.state = TaskState::Ready;
        self.tasks.insert(pid, task);
        self.next_id = self.next_id + 1;
        Ok(pid)
    }
}

/// What a loadable segment puts into a task's memory.
#[derive(Debug)]
pub struct LoadedSegment {
    pub vaddr: u64,
    pub bytes: Vec<u8>,
    pub executable: bool,
}

/// The flags of a user task's stack: for ring 3, writable, not executable.
pub const USER_STACK_FLAGS: u64 = 0x8000_0000_0000_0006;

/// The flags of a segment that can be executed: for ring 3, writable.
pub const USER_CODE_FLAGS: u64 = 0x0000_0000_0000_0006;

/// The flags of any other segment: for ring 3, writable, not executable.
pub const USER_DATA_FLAGS: u64 = 0x8000_0000_0000_0006;

/// The three sets of flags are flags, and `PRESENT` is none of them.
pub proof fn lemma_user_flags()
    ensures
        (EntryFlags { bits: USER_STACK_FLAGS }).valid(),
        (EntryFlags { bits: USER_CODE_FLAGS }).valid(),
        USER_STACK_FLAGS == USER | WRITABLE | NO_EXECUTE,
        USER_CODE_FLAGS == USER | WRITABLE,
        USER_STACK_FLAGS & USER == USER,
        USER_CODE_FLAGS & USER == USER,
{
    assert(0x8000_0000_0000_0006u64 & !0x8000_0000_0000_03ffu64 == 0 && 0x6u64
        & !0x8000_0000_0000_03ffu64 == 0 && 0x8000_0000_0000_0006u64 == (1u64 << 2) | (1u64 << 1) | (1u64
        << 63) && 0x6u64 == (1u64 << 2) | (1u64 << 1) && 0x8000_0000_0000_0006u64 & (1u64 << 2) == (1u64
        << 2) && 0x6u64 & (1u64 << 2) == (1u64 << 2)) by (bit_vector);
}

/// The stack of a user task.
pub open spec fn spec_user_stack() -> VirtualMemoryArea {
    VirtualMemoryArea {
        start: USER_STACK_START,
        size: (USER_STACK_END - USER_STACK_START + 1) as u64,
        mapped: true,
        flags: EntryFlags { bits: USER_STACK_FLAGS },
    }
}

/// The area of a loadable segment: as many bytes as the segment has in
/// memory, from its address on, executable or not as the segment is.
pub open spec fn spec_segment_area(ph: ProgramHeader) -> VirtualMemoryArea {
    VirtualMemoryArea {
        start: ph.p_vaddr,
        size: ph.p_memsz,
        mapped: true,
        flags: EntryFlags {
            bits: if ph.spec_is_executable() {
                USER_CODE_FLAGS
            } else {
                USER_DATA_FLAGS
            },
        },
    }
}

/// Whether program header `i` can be read: its 56 bytes lie in the image.
pub open spec fn spec_readable(data: Seq<u8>, h: Header, i: int) -> bool {
    i < h.e_phnum && spec_ph_offset(h, i) + 56 <= data.len()
}

/// The loadable segments among the program headers from header `i` on, in
/// their order, up to the first header that cannot be read.
pub open spec fn spec_loadable(data: Seq<u8>, h: Header, i: int) -> Seq<ProgramHeader>
    decreases h.e_phnum - i,
{
    if i < 0 || !spec_readable(data, h, i) {
        Seq::empty()
    } else {
        let ph = spec_program_header(data, spec_ph_offset(h, i));
        let rest = spec_loadable(data, h, i + 1);
        if ph.spec_is_load() {
            seq![ph] + rest
        } else {
            rest
        }
    }
}

/// The area of the last among the segments that is not empty and is
/// executable, or is not, as `executable` says.
pub open spec fn spec_last_area(phs: Seq<ProgramHeader>, n: int, executable: bool) -> Option<
    VirtualMemoryArea,
>
    decreases n,
{
    if n <= 0 {
        None
    } else if phs[n - 1].p_memsz > 0 && phs[n - 1].spec_is_executable() == executable {
        Some(spec_segment_area(phs[n - 1]))
    } else {
        spec_last_area(phs, n - 1, executable)
    }
}

/// A range that is mapped shares no page with pages that can be mapped.
pub proof fn lemma_mapped_mappable_disjoint(r: MapRange, m: MemView, top: u64, lo: int, hi: int)
    requires
        mem_wf(m),
        m.contains_key(top),
        m[top].level == Level::PML4T,
        r.wf(),
        r.mapped(m, top),
        pages_ok(lo, hi),
        mappable_range(m, top, lo, hi),
    ensures
        lo >= hi || r.lo() >= r.hi() || hi <= r.lo() || r.hi() <= lo,
{
    if !(lo >= hi || r.lo() >= r.hi() || hi <= r.lo() || r.hi() <= lo) {
        let p = if lo >= r.lo() {
            lo
        } else {
            r.lo()
        };
        reveal(pages_ok);
        reveal(mappable_range);
        reveal(mapped_range);
        reveal(crate::memory::mapper::mapped_range_to);
        assert(page_ok(p));
        assert(enters(m, top, 4, page_va(p)));
        assert(mappable(m, top, 4, page_va(p)));
        lemma_mappable(m, top, 4, page_va(p));
        assert(walk(m, top, 4, page_va(p)).is_none());
    }
}

/// A range that is mapped stays mapped when pages that could be mapped are.
pub proof fn lemma_keep_mapped(r: MapRange, mi: MemView, mj: MemView, top: u64, new: MapRange)
    requires
        mem_wf(mi),
        mi.contains_key(top),
        mi[top].level == Level::PML4T,
        r.wf(),
        r.mapped(mi, top),
        pages_ok(new.lo(), new.hi()),
        mappable_range(mi, top, new.lo(), new.hi()),
        bystanders_kept(seq![new], mi, mj, top),
    ensures
        r.mapped(mj, top),
{
    lemma_mapped_mappable_disjoint(r, mi, top, new.lo(), new.hi());
    assert(clear_of(seq![new], r.lo(), r.hi()));
    assert(same_in(mi, mj, top, r.lo(), r.hi()));
    lemma_same_in_mapped(r, mi, mj, top);
}

/// Every one of the ranges is well formed and mapped in the address space
/// of `table`.
#[verifier::opaque]
pub open spec fn space_mapped(m: MemView, table: u64, ranges: Seq<MapRange>) -> bool {
    forall|k: int| 0 <= k < ranges.len() ==> (#[trigger] ranges[k]).wf() && ranges[k].mapped(m, table)
}

/// The range of a loadable segment: the pages of its area, or no page
/// where the segment has no byte in memory.
pub open spec fn spec_segment_range(ph: ProgramHeader) -> MapRange {
    if ph.p_memsz > 0 {
        spec_segment_area(ph).spec_range()
    } else {
        MapRange {
            start: Page { number: 0 },
            count: 0,
            first: None,
            flags: EntryFlags { bits: 0 },
        }
    }
}

/// The ranges of the first `n` of the segments, in their order.
pub open spec fn spec_segment_ranges(phs: Seq<ProgramHeader>, n: int) -> Seq<MapRange>
    decreases n,
{
    if n <= 0 {
        Seq::empty()
    } else {
        spec_segment_ranges(phs, n - 1).push(spec_segment_range(phs[n - 1]))
    }
}

/// What a user task maps besides the kernel: its stack, then its segments.
pub open spec fn spec_task_ranges(phs: Seq<ProgramHeader>) -> Seq<MapRange> {
    seq![spec_user_stack().spec_range()] + spec_segment_ranges(phs, phs.len() as int)
}

/// No page outside the ranges is mapped in the address space of `table`:
/// each run of pages that the ranges leave clear can be mapped.
#[verifier::opaque]
pub open spec fn rest_unmapped(m: MemView, table: u64, ranges: Seq<MapRange>) -> bool {
    forall|lo: int, hi: int|
        pages_ok(lo, hi) && #[trigger] clear_of(ranges, lo, hi) ==> mappable_range(m, table, lo, hi)
}

/// Where nothing outside the ranges was mapped, nothing outside them and
/// one more range is mapped after that range was mapped.
pub proof fn lemma_rest_unmapped_push(a: MemView, b: MemView, table: u64, ranges: Seq<MapRange>, r: MapRange)
    requires
        rest_unmapped(a, table, ranges),
        bystanders_kept(seq![r], a, b, table),
    ensures
        rest_unmapped(b, table, ranges.push(r)),
{
    reveal(rest_unmapped);
    let longer = ranges.push(r);
    assert forall|lo: int, hi: int| pages_ok(lo, hi) && #[trigger] clear_of(longer, lo, hi) implies mappable_range(
        b,
        table,
        lo,
        hi,
    ) by {
        assert forall|k: int| 0 <= k < ranges.len() implies lo >= hi || (#[trigger] ranges[k]).lo()
            >= ranges[k].hi() || hi <= ranges[k].lo() || ranges[k].hi() <= lo by {
            assert(longer[k] == ranges[k]);
        }
        assert(clear_of(ranges, lo, hi));
        assert(longer[ranges.len() as int] == r);
        assert forall|k: int| 0 <= k < seq![r].len() implies lo >= hi || (#[trigger] seq![r][k]).lo()
            >= seq![r][k].hi() || hi <= seq![r][k].lo() || seq![r][k].hi() <= lo by {
            assert(seq![r][k] == longer[ranges.len() as int]);
        }
        assert(clear_of(seq![r], lo, hi));
        crate::memory::address_space::lemma_same_in_mappable(a, b, table, lo, hi);
    }
}

/// What building a user task's address space has come to: the first error,
/// if there was one, the page tables, and the frame allocator.
pub struct LoadStep {
    pub err: Option<TaskError>,
    pub mem: MemView,
    pub frames: ProxyState,
}

/// What mapping an area into the address space of `table` comes to. An
/// area with a page that cannot be walked for, or that is mapped there
/// already, is turned down and nothing changes. Else three frames are set
/// aside for the temporary page and the area's pages are mapped, each to a
/// frame from the allocator.
#[verifier::opaque]
pub open spec fn spec_map_area(m: MemView, st: ProxyState, active: u64, table: u64, vma: VirtualMemoryArea) -> LoadStep {
    if !(pages_ok(vma.lo(), vma.hi()) && mappable_range(m, table, vma.lo(), vma.hi())) {
        LoadStep { err: Some(TaskError::BadLayout), mem: m, frames: st }
    } else {
        let s = spec_with(m, st.after(3), active, table, TEMPORARY_PAGE_ADDRESS, seq![vma.spec_range()]);
        LoadStep {
            err: match s.err {
                None => None,
                Some(e) => Some(TaskError::Mapping(e)),
            },
            mem: s.mem,
            frames: s.frames,
        }
    }
}

/// What beginning a user task's address space comes to, and the frame of
/// its top table: a new address space with the kernel mapped into it, then
/// the user stack mapped into that.
#[verifier::opaque]
pub open spec fn spec_begin_user_space(m: MemView, st: ProxyState, active: u64, kernel: Seq<MapRange>) -> (
    LoadStep,
    u64,
) {
    let (c, table) = spec_create_address_space(m, st, active, TEMPORARY_PAGE_ADDRESS, kernel);
    match c.err {
        Some(e) => (LoadStep { err: Some(TaskError::Mapping(e)), mem: c.mem, frames: c.frames }, table),
        None => (spec_map_area(c.mem, c.frames, active, table, spec_user_stack()), table),
    }
}

/// What loading one segment comes to, after what came before it: after an
/// error nothing more is done. A segment whose bytes do not lie in the
/// image of `len` bytes, or do not fit into its memory, is turned down as
/// a bad segment; one without memory maps nothing; one whose memory ends
/// beyond the address space is turned down as badly laid out; any other is
/// mapped as its area.
pub open spec fn spec_load_segment(s: LoadStep, active: u64, table: u64, ph: ProgramHeader, len: int) -> LoadStep {
    if s.err.is_some() {
        s
    } else if !(ph.fits(len) && ph.p_memsz <= usize::MAX) {
        LoadStep { err: Some(TaskError::Elf(ElfError::BadSegment)), ..s }
    } else if ph.p_memsz == 0 {
        s
    } else if ph.p_vaddr + ph.p_memsz > u64::MAX {
        LoadStep { err: Some(TaskError::BadLayout), ..s }
    } else {
        spec_map_area(s.mem, s.frames, active, table, spec_segment_area(ph))
    }
}

/// What loading the first `n` of the segments, in their order, comes to.
pub open spec fn spec_load_segments(
    s: LoadStep,
    active: u64,
    table: u64,
    phs: Seq<ProgramHeader>,
    n: int,
    len: int,
) -> LoadStep
    decreases n,
{
    if n <= 0 {
        s
    } else {
        spec_load_segment(spec_load_segments(s, active, table, phs, n - 1, len), active, table, phs[n - 1], len)
    }
}

/// After an error no further segment changes anything.
pub proof fn lemma_load_segments_stuck(
    s: LoadStep,
    active: u64,
    table: u64,
    phs: Seq<ProgramHeader>,
    k: int,
    n: int,
    len: int,
)
    requires
        0 <= k <= n,
        spec_load_segments(s, active, table, phs, k, len).err.is_some(),
    ensures
        spec_load_segments(s, active, table, phs, n, len) == spec_load_segments(s, active, table, phs, k, len),
    decreases n - k,
{
    if k < n {
        lemma_load_segments_stuck(s, active, table, phs, k, n - 1, len);
    }
}

/// What making a user task from the loadable segments `phs` of an image of
/// `len` bytes comes to, and the frame of the task's top table: the
/// address space is begun, the segments are loaded in their order, and the
/// heap, whose free blocks are `free`, must have room for the kernel stack.
pub open spec fn spec_load_task(
    m: MemView,
    st: ProxyState,
    active: u64,
    kernel: Seq<MapRange>,
    phs: Seq<ProgramHeader>,
    len: int,
    free: Seq<crate::heap::HeapBlock>,
) -> (LoadStep, u64) {
    let (b, table) = spec_begin_user_space(m, st, active, kernel);
    let l = spec_load_segments(b, active, table, phs, phs.len() as int, len);
    if l.err.is_none() && crate::heap::first_fit(free, 0, KERNEL_STACK_SIZE as int, 1) >= free.len() {
        (LoadStep { err: Some(TaskError::OutOfMemory), ..l }, table)
    } else {
        (l, table)
    }
}

/// Maps an area of a user task into the task's address space, unless one
/// of its pages cannot be walked for or is mapped there.
fn map_area(
    vma: &VirtualMemoryArea,
    inactive: &mut InactivePML4Table,
    machine: &mut Machine,
    Ghost(m0): Ghost<MemView>,
    Ghost(ranges): Ghost<Seq<MapRange>>,
) -> (r: Result<(), TaskError>)
    requires
        vma.wf(),
        old(machine).wf(),
        old(machine).settled(),
        recursive(old(machine).memory@, old(inactive).pml4_frame.number),
        old(inactive).pml4_frame.number != old(machine).active(),
        mappable(old(machine).memory@, old(machine).active(), 4, TEMPORARY_PAGE_ADDRESS),
        space_mapped(old(machine).memory@, old(inactive).pml4_frame.number, ranges),
        walks_kept(m0, old(machine).memory@, old(inactive).pml4_frame.number, 0, all_pages()),
    ensures
        *final(inactive) == *old(inactive),
        final(machine).wf(),
        final(machine).settled(),
        final(machine).cr3 == old(machine).cr3,
        recursive(final(machine).memory@, old(inactive).pml4_frame.number),
        mappable(final(machine).memory@, old(machine).active(), 4, TEMPORARY_PAGE_ADDRESS),
        walks_kept(m0, final(machine).memory@, old(inactive).pml4_frame.number, 0, all_pages()),
        r.is_ok() ==> space_mapped(
            final(machine).memory@,
            old(inactive).pml4_frame.number,
            ranges.push(vma.spec_range()),
        ),
        match r {
            Ok(_) => true,
            Err(e) => e == TaskError::BadLayout || (exists|x: MapError| e == TaskError::Mapping(x)),
        },
        (r == Err::<(), TaskError>(TaskError::BadLayout)) == !(pages_ok(vma.lo(), vma.hi())
            && mappable_range(
            old(machine).memory@,
            old(inactive).pml4_frame.number,
            vma.lo(),
            vma.hi(),
        )),
        r == Err::<(), TaskError>(TaskError::BadLayout) ==> *final(machine) == *old(machine),
        ({
            let s = spec_map_area(
                old(machine).memory@,
                old(machine).frames@,
                old(machine).active(),
                old(inactive).pml4_frame.number,
                *vma,
            );
            &&& final(machine).memory@ == s.mem
            &&& final(machine).frames@ == s.frames
            &&& match s.err {
                None => r.is_ok(),
                Some(e) => r == Err::<(), TaskError>(e),
            }
        }),
        bystanders_kept(
            seq![vma.spec_range()],
            old(machine).memory@,
            final(machine).memory@,
            old(inactive).pml4_frame.number,
        ),
        tops_kept(old(machine).memory@, final(machine).memory@),
{
    let ghost mi = machine.memory@;
    let ghost table = inactive.pml4_frame.number;
    let ghost a = machine.active();
    proof {
        lemma_temporary_page_ok();
        reveal(spec_map_area);
        lemma_tops_kept_refl(mi);
    }
    if !vma.can_map(inactive, machine) {
        proof {
            crate::memory::address_space::lemma_bystanders_refl(seq![vma.spec_range()], mi, table);
        }
        return Err(TaskError::BadLayout);
    }
    let r = vma.map(inactive, machine);
    proof {
        let mj = machine.memory@;
        lemma_walks_kept_trans(m0, mi, mj, table, 0, all_pages());
        lemma_walks_kept_other(mi, mj, table, 0, all_pages(), a, TEMPORARY_PAGE_ADDRESS);
        if r.is_ok() {
            reveal(space_mapped);
            let longer = ranges.push(vma.spec_range());
            assert forall|k: int| 0 <= k < longer.len() implies (#[trigger] longer[k]).wf()
                && longer[k].mapped(mj, table) by {
                if k < ranges.len() {
                    assert(ranges[k].wf());
                    lemma_keep_mapped(ranges[k], mi, mj, table, vma.spec_range());
                }
            }
        }
    }
    match r {
        Ok(()) => Ok(()),
        Err(e) => Err(TaskError::Mapping(e)),
    }
}

/// The ranges of the first `n` segments do not depend on the segments after them.
pub proof fn lemma_segment_ranges_prefix(longer: Seq<ProgramHeader>, shorter: Seq<ProgramHeader>, n: int)
    requires
        0 <= n <= shorter.len() <= longer.len(),
        forall|k: int| 0 <= k < shorter.len() ==> longer[k] == shorter[k],
    ensures
        spec_segment_ranges(longer, n) == spec_segment_ranges(shorter, n),
    decreases n,
{
    if n > 0 {
        lemma_segment_ranges_prefix(longer, shorter, n - 1);
    }
}

/// An empty range is mapped wherever.
pub proof fn lemma_space_mapped_push_empty(m: MemView, table: u64, ranges: Seq<MapRange>)
    requires
        space_mapped(m, table, ranges),
    ensures
        space_mapped(
            m,
            table,
            ranges.push(
                MapRange { start: Page { number: 0 }, count: 0, first: None, flags: EntryFlags { bits: 0 } },
            ),
        ),
{
    reveal(space_mapped);
    reveal(pages_ok);
    reveal(mapped_range);
    crate::memory::paging::lemma_flag_bits(0, 0);
}

/// The kernel's ranges are mapped, each as the range says.
pub proof fn lemma_space_mapped_kernel(m: MemView, table: u64, ranges: Seq<MapRange>)
    requires
        ranges_ok(ranges),
        ranges_mapped(ranges, ranges.len() as int, m, table),
    ensures
        space_mapped(m, table, ranges),
{
    reveal(space_mapped);
}

impl TaskList {
    /// Makes a user task from the program image `module`. A new address
    /// space is built with the kernel mapped into it; the task's stack and
    /// each loadable segment of the image that is not empty are mapped into
    /// it, each page to a frame from the allocator. The kernel stack of
    /// 8 KiB is taken from the heap, with the two stack pointers at its top.
    /// What the segments put into memory is returned, for the caller to copy
    /// there once the address space is active.
    pub fn load_task(
        &mut self,
        name: &str,
        parent: ProcId,
        machine: &mut Machine,
        mbinfo: &BootInformation,
        module: &[u8],
        heap: &mut KHeapAllocator,
    ) -> (r: Result<Vec<LoadedSegment>, TaskError>)
        requires
            old(self).wf(),
            old(self).next_id < MAX_TASK,
            old(machine).wf(),
            old(machine).settled(),
            mbinfo.wf(),
            ranges_ok(mbinfo.spec_kernel_ranges()),
            mappable(old(machine).memory@, old(machine).active(), 4, TEMPORARY_PAGE_ADDRESS),
            old(heap).wf(),
            old(heap).range.is_some(),
        ensures
            final(self).wf(),
            final(machine).wf(),
            final(machine).settled(),
            final(machine).cr3 == old(machine).cr3,
            final(heap).wf(),
            final(heap).range == old(heap).range,
            // every address space that was there is as it was
            walks_kept(old(machine).memory@, final(machine).memory@, 0, 0, 0),
            // every address space that was there still refers to itself, and so does the new one
            tops_kept(old(machine).memory@, final(machine).memory@),
            // an image that is turned down changes nothing
            spec_check(module@).is_some() ==> r == Err::<Vec<LoadedSegment>, TaskError>(
                TaskError::Elf(spec_check(module@).unwrap()),
            ) && *final(machine) == *old(machine) && *final(heap) == *old(heap),
            r.is_err() ==> final(self).tasks@ == old(self).tasks@ && final(self).next_id == old(self).next_id
                && *final(heap) == *old(heap),
            // an image that is taken is loaded as far as frames and heap allow
            spec_check(module@).is_none() ==> ({
                let phs = spec_loadable(module@, spec_header(module@), 0);
                let (s, table) = spec_load_task(
                    old(machine).memory@,
                    old(machine).frames@,
                    old(machine).active(),
                    mbinfo.spec_kernel_ranges(),
                    phs,
                    module@.len() as int,
                    old(heap).free@,
                );
                &&& final(machine).memory@ == s.mem
                &&& final(machine).frames@ == s.frames
                &&& match s.err {
                    None => r.is_ok() && final(self).tasks@[old(self).next_id].cr3 == Some(
                        InactivePML4Table { pml4_frame: crate::memory::frame::Frame { number: table } },
                    ),
                    Some(e) => r.is_err() && r.unwrap_err() == e,
                }
            }),
            r.is_ok() ==> ({
                let segs = r.unwrap();
                let pid = old(self).next_id;
                let t = final(self).tasks@[pid];
                let h = spec_header(module@);
                let phs = spec_loadable(module@, h, 0);
                let table = t.cr3.unwrap().pml4_frame.number;
                let m = final(machine).memory@;
                &&& spec_check(module@).is_none()
                &&& final(self).next_id == pid + 1
                &&& final(self).tasks@.dom() == old(self).tasks@.dom().insert(pid)
                &&& forall|q: ProcId| #[trigger]
                    old(self).tasks@.contains_key(q) ==> final(self).tasks@[q] == old(self).tasks@[q]
                // what the segments put into memory
                &&& segs@.len() == phs.len()
                &&& forall|k: int|
                    0 <= k < phs.len() ==> (#[trigger] segs@[k]).vaddr == phs[k].p_vaddr
                        && segs@[k].bytes@ == phs[k].spec_image(module@) && segs@[k].executable
                        == phs[k].spec_is_executable()
                // the task
                &&& t.pid == pid
                &&& t.ppid == parent
                &&& t.name.is_some()
                &&& t.name.unwrap()@ == name@
                &&& t.state == TaskState::Ready
                &&& t.exec_entry == h.e_entry
                &&& t.user_stack == Some(spec_user_stack())
                &&& t.code == spec_last_area(phs, phs.len() as int, true)
                &&& t.data == spec_last_area(phs, phs.len() as int, false)
                &&& t.kern_stack.is_some()
                &&& t.kern_stack.unwrap().spec_top() == t.kern_stack.unwrap().spec_bottom()
                    + KERNEL_STACK_SIZE
                &&& t.tls == (TLSSegment {
                    user_rsp: (USER_STACK_END + 1) as u64,
                    kern_rsp: (t.kern_stack.unwrap().spec_top() - TLS_SEGMENT_SIZE) as u64,
                })
                &&& t.ctx == (Context {
                    rflags: INITIAL_RFLAGS,
                    cr3: (table * PAGE_SIZE) as u64,
                    rsp: t.tls.kern_rsp,
                    rbp: 0,
                    rbx: 0,
                    r12: 0,
                    r13: 0,
                    r14: 0,
                    r15: 0,
                })
                // its address space: the kernel, the stack and the segments
                &&& t.cr3.is_some()
                &&& !old(machine).memory@.contains_key(table)
                &&& recursive(m, table)
                &&& space_mapped(m, table, mbinfo.spec_kernel_ranges() + spec_task_ranges(phs))
                // and nothing else
                &&& rest_unmapped(m, table, mbinfo.spec_kernel_ranges() + spec_task_ranges(phs))
                // the kernel stack is taken from the first block of the heap that has room
                &&& t.kern_stack.unwrap().spec_bottom() == old(heap).free@[crate::heap::first_fit(
                    old(heap).free@,
                    0,
                    KERNEL_STACK_SIZE as int,
                    1,
                )].start
                &&& final(heap).free@ == crate::heap::spec_after_allocate(
                    old(heap).free@,
                    KERNEL_STACK_SIZE as int,
                    1,
                )
            }),
    {
        proof {
            crate::memory::mapper::lemma_walks_kept_refl(old(machine).memory@, 0, 0);
            lemma_tops_kept_refl(old(machine).memory@);
        }
        let elf = match Elf64::from(module) {
            Err(e) => {
                return Err(TaskError::Elf(e));
            },
            Ok(elf) => elf,
        };
        let ghost m0 = machine.memory@;
        let ghost a = machine.active();
        let ghost phs = spec_loadable(module@, spec_header(module@), 0);
        let ghost len = module@.len() as int;
        let ghost (b, table) = spec_begin_user_space(m0, machine.frames@, a, mbinfo.spec_kernel_ranges());
        let mut new_map = match begin_user_space(machine, mbinfo) {
            Err(e) => {
                proof {
                    lemma_load_segments_stuck(b, a, table, phs, 0, phs.len() as int, len);
                }
                return Err(e);
            },
            Ok(t) => t,
        };
        proof {
            assert(b == (LoadStep { err: None, mem: machine.memory@, frames: machine.frames@ }));
            assert(new_map.pml4_frame.number == table);
        }
        let ghost m1 = machine.memory@;
        let loaded = match load_segments(&elf, module, &mut new_map, machine, mbinfo, Ghost(m0)) {
            Err(e) => {
                proof {
                    lemma_tops_kept_trans(m0, m1, machine.memory@, None);
                }
                return Err(e);
            },
            Ok(l) => l,
        };
        proof {
            lemma_tops_kept_trans(m0, m1, machine.memory@, None);
        }
        let stack = user_stack_area();
        finish_user_task(
            self,
            name,
            parent,
            new_map,
            stack,
            loaded.code,
            loaded.data,
            elf.header.e_entry,
            heap,
            machine,
            loaded.segments,
            Ghost(m0),
        )
    }
}

/// The stack of a user task.
pub fn user_stack_area() -> (stack: VirtualMemoryArea)
    ensures
        stack == spec_user_stack(),
        stack.wf(),
{
    proof {
        lemma_user_flags();
        assert((USER | WRITABLE | NO_EXECUTE) & crate::memory::paging::ALL_FLAGS == USER_STACK_FLAGS && (
        USER | WRITABLE) & crate::memory::paging::ALL_FLAGS == USER_CODE_FLAGS) by (bit_vector);
    }
    VirtualMemoryArea {
        start: USER_STACK_START,
        size: USER_STACK_END - USER_STACK_START + 1,
        mapped: true,
        flags: EntryFlags::from_bits_truncate(USER | WRITABLE | NO_EXECUTE),
    }
}

/// The flags of the area of a segment.
pub fn segment_flags(executable: bool) -> (flags: EntryFlags)
    ensures
        flags.bits == if executable {
            USER_CODE_FLAGS
        } else {
            USER_DATA_FLAGS
        },
        flags.valid(),
{
    proof {
        lemma_user_flags();
        assert((USER | WRITABLE | NO_EXECUTE) & crate::memory::paging::ALL_FLAGS == USER_STACK_FLAGS && (
        USER | WRITABLE) & crate::memory::paging::ALL_FLAGS == USER_CODE_FLAGS) by (bit_vector);
    }
    if executable {
        EntryFlags::from_bits_truncate(USER | WRITABLE)
    } else {
        EntryFlags::from_bits_truncate(USER | WRITABLE | NO_EXECUTE)
    }
}

/// A new address space with the kernel and the stack of a user task mapped
/// into it.
fn begin_user_space(machine: &mut Machine, mbinfo: &BootInformation) -> (r: Result<
    InactivePML4Table,
    TaskError,
>)
    requires
        old(machine).wf(),
        old(machine).settled(),
        mbinfo.wf(),
        ranges_ok(mbinfo.spec_kernel_ranges()),
        mappable(old(machine).memory@, old(machine).active(), 4, TEMPORARY_PAGE_ADDRESS),
    ensures
        final(machine).wf(),
        final(machine).settled(),
        final(machine).cr3 == old(machine).cr3,
        mappable(final(machine).memory@, old(machine).active(), 4, TEMPORARY_PAGE_ADDRESS),
        walks_kept(old(machine).memory@, final(machine).memory@, 0, 0, 0),
        tops_kept(old(machine).memory@, final(machine).memory@),
        r.is_ok() ==> ({
            let table = r.unwrap().pml4_frame.number;
            &&& table != old(machine).active()
            &&& !old(machine).memory@.contains_key(table)
            &&& recursive(final(machine).memory@, table)
            &&& walks_kept(old(machine).memory@, final(machine).memory@, table, 0, all_pages())
            &&& space_mapped(
                final(machine).memory@,
                table,
                mbinfo.spec_kernel_ranges().push(spec_user_stack().spec_range()),
            )
            &&& rest_unmapped(
                final(machine).memory@,
                table,
                mbinfo.spec_kernel_ranges().push(spec_user_stack().spec_range()),
            )
        }),
        ({
            let (s, table) = spec_begin_user_space(
                old(machine).memory@,
                old(machine).frames@,
                old(machine).active(),
                mbinfo.spec_kernel_ranges(),
            );
            &&& final(machine).memory@ == s.mem
            &&& final(machine).frames@ == s.frames
            &&& match s.err {
                None => r == Ok::<InactivePML4Table, TaskError>(
                    InactivePML4Table { pml4_frame: crate::memory::frame::Frame { number: table } },
                ),
                Some(e) => r == Err::<InactivePML4Table, TaskError>(e),
            }
        }),
{
    let ghost m0 = machine.memory@;
    let ghost a = machine.active();
    proof {
        lemma_temporary_page_ok();
        reveal(spec_begin_user_space);
    }
    let mut new_map = match create_address_space(machine, mbinfo) {
        Err(e) => {
            proof {
                lemma_walks_kept_other(m0, machine.memory@, 0, 0, 0, a, TEMPORARY_PAGE_ADDRESS);
            }
            return Err(TaskError::Mapping(e));
        },
        Ok(t) => t,
    };
    let ghost table = new_map.pml4_frame.number;
    let ghost kranges = mbinfo.spec_kernel_ranges();
    let ghost m1 = machine.memory@;
    proof {
        lemma_walks_kept_other(m0, m1, 0, 0, 0, a, TEMPORARY_PAGE_ADDRESS);
        crate::memory::address_space::lemma_walks_kept_widen_from(m0, m1, 0, 0, 0, table);
        lemma_space_mapped_kernel(m1, table, kranges);
        assert(rest_unmapped(m1, table, kranges)) by {
            reveal(rest_unmapped);
        }
    }
    let stack = user_stack_area();
    let r = map_area(&stack, &mut new_map, machine, Ghost(m0), Ghost(kranges));
    proof {
        crate::memory::address_space::lemma_walks_kept_fresh(m0, machine.memory@, table);
        lemma_rest_unmapped_push(m1, machine.memory@, table, kranges, stack.spec_range());
        lemma_tops_kept_trans(m0, m1, machine.memory@, None);
    }
    match r {
        Err(e) => Err(e),
        Ok(()) => Ok(new_map),
    }
}

/// What the loadable segments of an image give a task.
pub struct LoadedImage {
    pub segments: Vec<LoadedSegment>,
    pub code: Option<VirtualMemoryArea>,
    pub data: Option<VirtualMemoryArea>,
}

/// Maps the loadable segments of an image into a user task's address space.
#[verifier::rlimit(80)]
fn load_segments(
    elf: &Elf64,
    module: &[u8],
    new_map: &mut InactivePML4Table,
    machine: &mut Machine,
    mbinfo: &BootInformation,
    Ghost(m0): Ghost<MemView>,
) -> (r: Result<LoadedImage, TaskError>)
    requires
        old(machine).wf(),
        old(machine).settled(),
        old(new_map).pml4_frame.number != old(machine).active(),
        !m0.contains_key(old(new_map).pml4_frame.number),
        recursive(old(machine).memory@, old(new_map).pml4_frame.number),
        walks_kept(m0, old(machine).memory@, old(new_map).pml4_frame.number, 0, all_pages()),
        mappable(old(machine).memory@, old(machine).active(), 4, TEMPORARY_PAGE_ADDRESS),
        space_mapped(
            old(machine).memory@,
            old(new_map).pml4_frame.number,
            mbinfo.spec_kernel_ranges().push(spec_user_stack().spec_range()),
        ),
        rest_unmapped(
            old(machine).memory@,
            old(new_map).pml4_frame.number,
            mbinfo.spec_kernel_ranges().push(spec_user_stack().spec_range()),
        ),
        elf.data@ == module@,
        elf.header == spec_header(module@),
    ensures
        *final(new_map) == *old(new_map),
        final(machine).wf(),
        final(machine).settled(),
        final(machine).cr3 == old(machine).cr3,
        recursive(final(machine).memory@, old(new_map).pml4_frame.number),
        walks_kept(m0, final(machine).memory@, 0, 0, 0),
        tops_kept(old(machine).memory@, final(machine).memory@),
        r.is_ok() ==> ({
            let l = r.unwrap();
            let phs = spec_loadable(module@, spec_header(module@), 0);
            &&& l.segments@.len() == phs.len()
            &&& forall|k: int|
                0 <= k < phs.len() ==> (#[trigger] l.segments@[k]).vaddr == phs[k].p_vaddr
                    && l.segments@[k].bytes@ == phs[k].spec_image(module@)
                    && l.segments@[k].executable == phs[k].spec_is_executable()
            &&& l.code == spec_last_area(phs, phs.len() as int, true)
            &&& l.data == spec_last_area(phs, phs.len() as int, false)
            &&& space_mapped(
                final(machine).memory@,
                old(new_map).pml4_frame.number,
                mbinfo.spec_kernel_ranges() + spec_task_ranges(phs),
            )
            &&& rest_unmapped(
                final(machine).memory@,
                old(new_map).pml4_frame.number,
                mbinfo.spec_kernel_ranges() + spec_task_ranges(phs),
            )
        }),
        ({
            let phs = spec_loadable(module@, spec_header(module@), 0);
            let s = spec_load_segments(
                LoadStep { err: None, mem: old(machine).memory@, frames: old(machine).frames@ },
                old(machine).active(),
                old(new_map).pml4_frame.number,
                phs,
                phs.len() as int,
                module@.len() as int,
            );
            &&& final(machine).memory@ == s.mem
            &&& final(machine).frames@ == s.frames
            &&& match s.err {
                None => r.is_ok(),
                Some(e) => r == Err::<LoadedImage, TaskError>(e),
            }
        }),
{
    let ghost a = machine.active();
    let ghost table = new_map.pml4_frame.number;
    let ghost h = elf.header;
    let ghost kranges = mbinfo.spec_kernel_ranges();
    let ghost stack = spec_user_stack();
    let mut code: Option<VirtualMemoryArea> = None;
    let mut data: Option<VirtualMemoryArea> = None;
    let mut segs: Vec<LoadedSegment> = Vec::new();
    let mut it = elf.program_headers();
    let ghost mut done: Seq<ProgramHeader> = Seq::empty();
    let ghost mut mapped: Seq<MapRange> = kranges.push(stack.spec_range());
    let ghost start = LoadStep { err: None, mem: machine.memory@, frames: machine.frames@ };
    let ghost full = spec_loadable(module@, h, 0);
    let ghost len = module@.len() as int;
    proof {
        lemma_tops_kept_refl(machine.memory@);
    }
    loop
        invariant
            tops_kept(old(machine).memory@, machine.memory@),
            start == (LoadStep { err: None, mem: old(machine).memory@, frames: old(machine).frames@ }),
            full == spec_loadable(module@, h, 0),
            len == module@.len(),
            spec_load_segments(start, a, table, full, done.len() as int, len) == (LoadStep {
                err: None,
                mem: machine.memory@,
                frames: machine.frames@,
            }),
            rest_unmapped(machine.memory@, table, mapped),
            machine.wf(),
            machine.settled(),
            machine.cr3 == old(machine).cr3,
            machine.active() == a,
            *new_map == *old(new_map),
            table == new_map.pml4_frame.number,
            table != a,
            !m0.contains_key(table),
            recursive(machine.memory@, table),
            walks_kept(m0, machine.memory@, table, 0, all_pages()),
            mappable(machine.memory@, a, 4, TEMPORARY_PAGE_ADDRESS),
            kranges == mbinfo.spec_kernel_ranges(),
            stack == spec_user_stack(),
            space_mapped(machine.memory@, table, mapped),
            mapped == kranges.push(stack.spec_range()) + spec_segment_ranges(done, done.len() as int),
            it.data@ == module@,
            it.header == h,
            h == spec_header(module@),
            0 <= it.next <= h.e_phnum,
            done + spec_loadable(module@, h, it.next as int) == spec_loadable(module@, h, 0),
            segs@.len() == done.len(),
            forall|k: int|
                0 <= k < done.len() ==> (#[trigger] segs@[k]).vaddr == done[k].p_vaddr
                    && segs@[k].bytes@ == done[k].spec_image(module@) && segs@[k].executable
                    == done[k].spec_is_executable(),
            code == spec_last_area(done, done.len() as int, true),
            data == spec_last_area(done, done.len() as int, false),
        ensures
            done == spec_loadable(module@, h, 0),
        decreases h.e_phnum - it.next,
    {
        let ghost i0 = it.next as int;
        let ph = match it.next() {
            None => {
                proof {
                    assert(spec_loadable(module@, h, i0) =~= Seq::<ProgramHeader>::empty());
                    assert(done =~= spec_loadable(module@, h, 0));
                }
                break ;
            },
            Some(ph) => ph,
        };
        proof {
            assert(spec_readable(module@, h, i0));
        }
        if !ph.is_load() {
            continue ;
        }
        let ghost n = done.len() as int;
        let ghost before_step = spec_load_segments(start, a, table, full, n, len);
        let ghost m_before = machine.memory@;
        proof {
            assert(spec_loadable(module@, h, i0) == seq![ph] + spec_loadable(module@, h, i0 + 1));
            assert(full[n] == (done + spec_loadable(module@, h, i0))[n]);
            assert(n < full.len());
            assert(full[n] == ph);
            assert(spec_load_segments(start, a, table, full, n + 1, len) == spec_load_segment(
                before_step,
                a,
                table,
                ph,
                len,
            ));
        }
        let bytes = match ph.image(module) {
            Err(e) => {
                proof {
                    crate::memory::address_space::lemma_walks_kept_fresh(m0, machine.memory@, table);
                    lemma_load_segments_stuck(start, a, table, full, n + 1, full.len() as int, len);
                }
                return Err(TaskError::Elf(e));
            },
            Ok(b) => b,
        };
        let executable = ph.is_executable();
        if ph.p_memsz > 0 {
            let flags = segment_flags(executable);
            if ph.p_vaddr > u64::MAX - ph.p_memsz {
                proof {
                    crate::memory::address_space::lemma_walks_kept_fresh(m0, machine.memory@, table);
                    lemma_load_segments_stuck(start, a, table, full, n + 1, full.len() as int, len);
                }
                return Err(TaskError::BadLayout);
            }
            let vma = VirtualMemoryArea { start: ph.p_vaddr, size: ph.p_memsz, mapped: true, flags };
            assert(vma == spec_segment_area(ph));
            let r = map_area(&vma, new_map, machine, Ghost(m0), Ghost(mapped));
            proof {
                crate::memory::address_space::lemma_walks_kept_fresh(m0, machine.memory@, table);
                lemma_tops_kept_trans(old(machine).memory@, m_before, machine.memory@, None);
            }
            match r {
                Err(e) => {
                    proof {
                        lemma_load_segments_stuck(start, a, table, full, n + 1, full.len() as int, len);
                    }
                    return Err(e);
                },
                Ok(()) => {},
            }
            proof {
                lemma_rest_unmapped_push(m_before, machine.memory@, table, mapped, vma.spec_range());
            }
            if executable {
                code = Some(vma);
            } else {
                data = Some(vma);
            }
        } else {
            proof {
                lemma_space_mapped_push_empty(machine.memory@, table, mapped);
                crate::memory::address_space::lemma_bystanders_refl(
                    seq![spec_segment_range(ph)],
                    machine.memory@,
                    table,
                );
                lemma_rest_unmapped_push(
                    machine.memory@,
                    machine.memory@,
                    table,
                    mapped,
                    spec_segment_range(ph),
                );
            }
        }
        segs.push(LoadedSegment { vaddr: ph.p_vaddr, bytes, executable });
        proof {
            let before = done;
            done = done.push(ph);
            mapped = mapped.push(spec_segment_range(ph));
            lemma_segment_ranges_prefix(done, before, before.len() as int);
            assert(mapped =~= kranges.push(stack.spec_range()) + spec_segment_ranges(
                done,
                done.len() as int,
            ));
            assert(spec_loadable(module@, h, i0) == seq![ph] + spec_loadable(module@, h, i0 + 1));
            assert(done + spec_loadable(module@, h, i0 + 1) =~= before + (seq![ph] + spec_loadable(
                module@,
                h,
                i0 + 1,
            )));
            assert forall|k: int| 0 <= k < done.len() implies (#[trigger] segs@[k]).vaddr
                == done[k].p_vaddr && segs@[k].bytes@ == done[k].spec_image(module@)
                && segs@[k].executable == done[k].spec_is_executable() by {
                if k < before.len() {
                    assert(done[k] == before[k]);
                }
            }
            lemma_last_area_prefix(done, before, before.len() as int, true);
            lemma_last_area_prefix(done, before, before.len() as int, false);
        }
    }
    proof {
        assert(mapped =~= kranges + spec_task_ranges(done));
        crate::memory::address_space::lemma_walks_kept_fresh(m0, machine.memory@, table);
    }
    Ok(LoadedImage { segments: segs, code, data })
}

/// Gives a user task whose address space is built its kernel stack, and
/// puts it into the table of tasks.
fn finish_user_task(
    tasks: &mut TaskList,
    name: &str,
    parent: ProcId,
    new_map: InactivePML4Table,
    stack: VirtualMemoryArea,
    code: Option<VirtualMemoryArea>,
    data: Option<VirtualMemoryArea>,
    entry: u64,
    heap: &mut KHeapAllocator,
    machine: &Machine,
    segs: Vec<LoadedSegment>,
    Ghost(m0): Ghost<MemView>,
) -> (r: Result<Vec<LoadedSegment>, TaskError>)
    requires
        old(tasks).wf(),
        old(tasks).next_id < MAX_TASK,
        old(heap).wf(),
        old(heap).range.is_some(),
        recursive(machine.memory@, new_map.pml4_frame.number),
    ensures
        final(tasks).wf(),
        final(heap).wf(),
        final(heap).range == old(heap).range,
        ({
            let i = crate::heap::first_fit(old(heap).free@, 0, KERNEL_STACK_SIZE as int, 1);
            if i < old(heap).free@.len() {
                // the first free block of the heap that has room holds the kernel stack
                let bottom = old(heap).free@[i].start;
                let top = (bottom + KERNEL_STACK_SIZE) as u64;
                let tlsbase = (top - TLS_SEGMENT_SIZE) as u64;
                let pid = old(tasks).next_id;
                let t = final(tasks).tasks@[pid];
                &&& r.is_ok()
                &&& r.unwrap() == segs
                &&& old(heap).range.unwrap().0 <= bottom
                &&& bottom + KERNEL_STACK_SIZE <= old(heap).range.unwrap().1
                &&& final(tasks).next_id == pid + 1
                &&& final(tasks).tasks@.dom() == old(tasks).tasks@.dom().insert(pid)
                &&& forall|q: ProcId| #[trigger]
                    old(tasks).tasks@.contains_key(q) ==> final(tasks).tasks@[q] == old(tasks).tasks@[q]
                &&& t.pid == pid
                &&& t.ppid == parent
                &&& t.name.is_some()
                &&& t.name.unwrap()@ == name@
                &&& t.state == TaskState::Ready
                &&& t.exec_entry == entry
                &&& t.user_stack == Some(stack)
                &&& t.code == code
                &&& t.data == data
                &&& t.cr3 == Some(new_map)
                &&& t.kern_stack.is_some()
                &&& t.kern_stack.unwrap().spec_bottom() == bottom
                &&& t.kern_stack.unwrap().spec_top() == top
                &&& t.tls == (TLSSegment { user_rsp: (USER_STACK_END + 1) as u64, kern_rsp: tlsbase })
                &&& t.frame@.len() == 0
                &&& t.ctx == (Context {
                    rflags: INITIAL_RFLAGS,
                    cr3: (new_map.pml4_frame.number * PAGE_SIZE) as u64,
                    rsp: tlsbase,
                    rbp: 0,
                    rbx: 0,
                    r12: 0,
                    r13: 0,
                    r14: 0,
                    r15: 0,
                })
                &&& forall|x: int|
                    final(heap).is_free(x) <==> old(heap).is_free(x) && !(bottom <= x < top)
                &&& final(heap).free@ == crate::heap::spec_after_allocate(
                    old(heap).free@,
                    KERNEL_STACK_SIZE as int,
                    1,
                )
            } else {
                // the heap has no room for it: nothing changes
                &&& r.is_err()
                &&& r.unwrap_err() == TaskError::OutOfMemory
                &&& final(tasks).tasks@ == old(tasks).tasks@
                &&& final(tasks).next_id == old(tasks).next_id
                &&& *final(heap) == *old(heap)
            }
        }),
{
    let bottom = match heap.allocate(KERNEL_STACK_SIZE, 1) {
        None => {
            return Err(TaskError::OutOfMemory);
        },
        Some(b) => b,
    };
    let top = bottom + KERNEL_STACK_SIZE;
    let tlsbase = top - TLS_SEGMENT_SIZE;
    let pid = tasks.next_id;
    proof {
        crate::memory::paging::lemma_frame_number_bound(
            machine.memory@[new_map.pml4_frame.number].entries[511],
        );
    }
    let mut task = Task::empty();
    task.pid = pid;
    task.ppid = parent;
    task.name = Some(name.to_string());
    task.state = TaskState::Created;
    task.cr3 = Some(new_map);
    task.user_stack = Some(stack);
    task.code = code;
    task.data = data;
    task.exec_entry = entry;
    task.kern_stack = Some(Stack::new(top, bottom));
    task.ctx = Context::new();
    task.ctx.rflags = INITIAL_RFLAGS;
    task.ctx.rsp = tlsbase;
    task.tls = TLSSegment { user_rsp: USER_STACK_END + 1, kern_rsp: tlsbase };
    task.ctx.cr3 = new_map.pml4_frame.start_address();
    task.state = TaskState::Ready;
    tasks.tasks.insert(pid, task);
    tasks.next_id = tasks.next_id + 1;
    Ok(segs)
}

/// The last area among the first `n` segments does not depend on the
/// segments after them.
pub proof fn lemma_last_area_prefix(longer: Seq<ProgramHeader>, shorter: Seq<ProgramHeader>, n: int, executable: bool)
    requires
        0 <= n <= shorter.len() <= longer.len(),
        forall|k: int| 0 <= k < shorter.len() ==> longer[k] == shorter[k],
    ensures
        spec_last_area(longer, n, executable) == spec_last_area(shorter, n, executable),
    decreases n,
{
    if n > 0 {
        lemma_last_area_prefix(longer, shorter, n - 1, executable);
    }
}

/// What the scheduler does to the processor when the task to run next is a
/// user task whose top table is at `next_cr3` and whose kernel stack
/// pointer is `kern_rsp`: the base of `%gs` and the stack for entering
/// ring 0 are set to that pointer, the base only where the pointer is set.
pub open spec fn spec_enter_user(cpu: Cpu, kern_rsp: u64) -> Cpu {
    Cpu {
        gs_base: if kern_rsp != 0 {
            kern_rsp
        } else {
            cpu.gs_base
        },
        rsp0: kern_rsp,
        ..cpu
    }
}

/// One turn of the round-robin scheduler, as the timer calls it with
/// interrupts off. With no task running (`current_id` 0), or with fewer
/// than two tasks, nothing happens. Else the task after the current one in
/// the round becomes the current one: the registers are saved in the
/// context of the task that ran and loaded from that of the next. Before a
/// user task runs, the base of `%gs` and the stack for entering ring 0 are
/// pointed at its kernel stack, and its top table is made the active one
/// unless it is that of the task that ran.
pub fn sched(tasks: &mut TaskList, current_id: &mut ProcId, cpu: &mut Cpu, machine: &mut Machine) -> (switched:
    bool)
    requires
        old(tasks).wf(),
        !old(cpu).spec_interrupts_enabled(),
        *old(current_id) == 0 || old(tasks).tasks@.contains_key(*old(current_id)),
        forall|pid: ProcId| #[trigger]
            old(tasks).tasks@.contains_key(pid) && old(tasks).tasks@[pid].is_user() ==> old(tasks).tasks@[pid].cr3.is_some() && old(tasks).tasks@[pid].cr3.unwrap().pml4_frame.addressable(),
    ensures
        final(tasks).wf(),
        final(tasks).next_id == old(tasks).next_id,
        final(machine).memory == old(machine).memory,
        final(machine).frames == old(machine).frames,
        switched == (*old(current_id) != 0 && old(tasks).next_id > 2),
        !switched ==> *final(tasks) == *old(tasks) && *final(current_id) == *old(current_id) && *final(cpu) == *old(cpu) && *final(machine) == *old(machine),
        switched ==> ({
            let id = *old(current_id);
            let nid = spec_next_task(id as int, old(tasks).next_id as int) as ProcId;
            let ran = old(tasks).tasks@[id];
            let next = old(tasks).tasks@[nid];
            let cpu1 = if next.is_user() {
                spec_enter_user(*old(cpu), next.tls.kern_rsp)
            } else {
                *old(cpu)
            };
            &&& *final(current_id) == nid
            &&& nid != id
            &&& final(tasks).tasks@.dom() == old(tasks).tasks@.dom()
            &&& forall|q: ProcId| #[trigger]
                old(tasks).tasks@.contains_key(q) && q != id && q != nid ==> final(tasks).tasks@[q]
                    == old(tasks).tasks@[q]
            &&& final(tasks).tasks@[id].ctx == ran.ctx.saved(cpu1)
            &&& final(tasks).tasks@[id].state == TaskState::Ready
            &&& final(tasks).tasks@[nid].ctx == next.ctx
            &&& final(tasks).tasks@[nid].state == TaskState::Running
            &&& *final(cpu) == next.ctx.loaded(cpu1)
            &&& if next.is_user() && ran.ctx.cr3 != next.ctx.cr3 {
                final(machine).cr3 == next.cr3.unwrap().pml4_frame.number * PAGE_SIZE && final(machine).tlb@ =~= Map::<u64, u64>::empty()
            } else {
                final(machine).cr3 == old(machine).cr3 && final(machine).tlb == old(machine).tlb
            }
        }),
{
    let id = *current_id;
    if id == 0 || tasks.next_id <= 2 {
        return false;
    }
    let nid = if id + 1 >= tasks.next_id {
        1
    } else {
        id + 1
    };
    *current_id = nid;
    let ghost before = tasks.tasks@;
    let mut current = match tasks.tasks.remove(&id) {
        Some(t) => t,
        None => {
            return false;
        },
    };
    let mut next = match tasks.tasks.remove(&nid) {
        Some(t) => t,
        None => {
            tasks.tasks.insert(id, current);
            return false;
        },
    };
    if next.user_stack.is_some() {
        let kern_rsp = next.tls.kern_rsp;
        if kern_rsp != 0 {
            cpu.gs_base = kern_rsp;
        }
        cpu.rsp0 = kern_rsp;
        if current.ctx.cr3 != next.ctx.cr3 {
            match next.cr3 {
                Some(table) => {
                    let _ = crate::memory::address_space::switch(machine, table);
                },
                None => {},
            }
        }
    }
    switch_to(cpu, &mut current, &next);
    current.state = TaskState::Ready;
    next.state = TaskState::Running;
    tasks.tasks.insert(id, current);
    tasks.tasks.insert(nid, next);
    proof {
        assert(tasks.tasks@.dom() =~= before.dom());
    }
    true
}

/// Where the kernel's own threads and the stub that starts a thread begin.
#[derive(Debug, Clone, Copy, PartialEq, Eq, Structural)]
pub struct KernelThreads {
    pub idle: u64,
    pub test_thread: u64,
    pub test_thread2: u64,
    /// The stub that consists of `iretq`.
    pub start_task: u64,
}

/// Makes the processor and the machine ready to enter ring 3 in the user
/// task `init`: the base of `%gs` and the stack for entering ring 0 are
/// pointed at the task's kernel stack, and the task's address space is made
/// the active one. Returns what `sysret` is to be executed with: the
/// task's entry point, its flags, and the top of the user stack.
pub fn ret_to_userspace(init: &Task, cpu: &mut Cpu, machine: &mut Machine) -> (frame:
    crate::interrupts::idt::ExceptionStackFrame)
    requires
        init.cr3.is_some(),
        init.cr3.unwrap().pml4_frame.addressable(),
    ensures
        frame == (crate::interrupts::idt::ExceptionStackFrame {
            rip: init.exec_entry,
            cs: 35,
            rflags: init.ctx.rflags,
            old_rsp: (USER_STACK_END + 1) as u64,
            old_ss: 27,
        }),
        *final(cpu) == spec_enter_user(*old(cpu), init.tls.kern_rsp),
        final(machine).cr3 == init.cr3.unwrap().pml4_frame.number * PAGE_SIZE,
        final(machine).memory == old(machine).memory,
        final(machine).frames == old(machine).frames,
        final(machine).tlb@ =~= Map::<u64, u64>::empty(),
        mem_wf(old(machine).memory@) && old(machine).frames.wf() && recursive(
            old(machine).memory@,
            init.cr3.unwrap().pml4_frame.number,
        ) ==> final(machine).wf() && final(machine).settled(),
{
    let frame = crate::interrupts::idt::ExceptionStackFrame {
        rip: init.exec_entry,
        cs: crate::interrupts::USER_CS_SEL as u64,
        rflags: init.ctx.rflags,
        old_rsp: USER_STACK_END + 1,
        old_ss: crate::interrupts::USER_DS_SEL as u64,
    };
    let kern_rsp = init.tls.kern_rsp;
    if kern_rsp != 0 {
        cpu.gs_base = kern_rsp;
    }
    cpu.rsp0 = kern_rsp;
    match init.cr3 {
        Some(table) => {
            let _ = crate::memory::address_space::switch(machine, table);
        },
        None => {},
    }
    frame
}

/// Whether a heap with the free blocks `free` has room for a kernel stack.
pub open spec fn spec_stack_room(free: Seq<crate::heap::HeapBlock>) -> bool {
    crate::heap::first_fit(free, 0, KERNEL_STACK_SIZE as int, 1) < free.len()
}

/// The free blocks of the heap after `k` kernel stacks were taken from it,
/// one after the other, each from the first block that had room.
pub open spec fn spec_stacks_taken(free: Seq<crate::heap::HeapBlock>, k: int) -> Seq<crate::heap::HeapBlock>
    decreases k,
{
    if k <= 0 {
        free
    } else {
        crate::heap::spec_after_allocate(spec_stacks_taken(free, k - 1), KERNEL_STACK_SIZE as int, 1)
    }
}

/// Starts tasking: makes the three threads of the kernel (`idle`,
/// `kthread1`, `kthread2`) and, with interrupts off, the user task `init`
/// from the image `module`; makes `init` the current task and the machine
/// ready to enter ring 3 in it. Returns what the segments of `init` put
/// into memory, and what `sysret` is to be executed with.
pub fn init(
    tasks: &mut TaskList,
    current_id: &mut ProcId,
    cpu: &mut Cpu,
    machine: &mut Machine,
    mbinfo: &BootInformation,
    module: &[u8],
    heap: &mut KHeapAllocator,
    kernel_table: InactivePML4Table,
    threads: &KernelThreads,
) -> (r: Result<(Vec<LoadedSegment>, crate::interrupts::idt::ExceptionStackFrame), TaskError>)
    requires
        old(tasks).wf(),
        old(tasks).next_id == 1,
        old(machine).wf(),
        old(machine).settled(),
        mbinfo.wf(),
        ranges_ok(mbinfo.spec_kernel_ranges()),
        mappable(old(machine).memory@, old(machine).active(), 4, TEMPORARY_PAGE_ADDRESS),
        old(heap).wf(),
        old(heap).range.is_some(),
        kernel_table.pml4_frame.addressable(),
    ensures
        final(tasks).wf(),
        final(machine).wf(),
        final(machine).settled(),
        final(heap).wf(),
        walks_kept(old(machine).memory@, final(machine).memory@, 0, 0, 0),
        tops_kept(old(machine).memory@, final(machine).memory@),
        r.is_err() ==> *final(current_id) == *old(current_id) && final(machine).cr3 == old(machine).cr3
            && *final(cpu) == *old(cpu),
        // when tasking starts, and what stops it: the heap must have room for
        // the stacks of the three kernel threads, one after the other; the
        // image must be taken; and the user task must be loaded
        ({
            let f0 = old(heap).free@;
            let f1 = spec_stacks_taken(f0, 1);
            let f2 = spec_stacks_taken(f0, 2);
            let f3 = spec_stacks_taken(f0, 3);
            if !spec_stack_room(f0) || !spec_stack_room(f1) || !spec_stack_room(f2) {
                &&& r.is_err()
                &&& r.unwrap_err() == TaskError::OutOfMemory
                &&& final(machine).memory@ == old(machine).memory@
                &&& final(machine).frames@ == old(machine).frames@
                &&& final(tasks).next_id == if !spec_stack_room(f0) {
                    1int
                } else if !spec_stack_room(f1) {
                    2int
                } else {
                    3int
                }
            } else if spec_check(module@).is_some() {
                &&& r.is_err()
                &&& r.unwrap_err() == TaskError::Elf(spec_check(module@).unwrap())
                &&& final(machine).memory@ == old(machine).memory@
                &&& final(machine).frames@ == old(machine).frames@
                &&& final(tasks).next_id == 4
                &&& final(heap).free@ == f3
            } else {
                let (s, table) = spec_load_task(
                    old(machine).memory@,
                    old(machine).frames@,
                    old(machine).active(),
                    mbinfo.spec_kernel_ranges(),
                    spec_loadable(module@, spec_header(module@), 0),
                    module@.len() as int,
                    f3,
                );
                &&& final(machine).memory@ == s.mem
                &&& final(machine).frames@ == s.frames
                &&& match s.err {
                    None => r.is_ok() && final(tasks).tasks@[4].cr3 == Some(
                        InactivePML4Table { pml4_frame: crate::memory::frame::Frame { number: table } },
                    ),
                    Some(e) => r.is_err() && r.unwrap_err() == e && final(tasks).next_id == 4
                        && final(heap).free@ == f3,
                }
            }
        }),
        r.is_ok() ==> ({
            let t = final(tasks).tasks@[4];
            let table = t.cr3.unwrap().pml4_frame.number;
            let phs = spec_loadable(module@, spec_header(module@), 0);
            &&& final(tasks).next_id == 5
            &&& *final(current_id) == 4
            &&& final(tasks).tasks@[1].name.unwrap()@ == "idle"@
            &&& final(tasks).tasks@[1].exec_entry == threads.idle
            &&& final(tasks).tasks@[2].name.unwrap()@ == "kthread1"@
            &&& final(tasks).tasks@[2].exec_entry == threads.test_thread
            &&& final(tasks).tasks@[3].name.unwrap()@ == "kthread2"@
            &&& final(tasks).tasks@[3].exec_entry == threads.test_thread2
            &&& forall|k: ProcId|
                1 <= k <= 3 ==> !(#[trigger] final(tasks).tasks@[k]).is_user() && final(tasks).tasks@[k].cr3 == Some(kernel_table) && final(tasks).tasks@[k].state
                    == TaskState::Ready
            &&& t.is_user()
            &&& t.name.unwrap()@ == "init"@
            &&& t.ppid == 1
            &&& t.exec_entry == spec_header(module@).e_entry
            &&& r.unwrap().1 == (crate::interrupts::idt::ExceptionStackFrame {
                rip: t.exec_entry,
                cs: 35,
                rflags: INITIAL_RFLAGS,
                old_rsp: (USER_STACK_END + 1) as u64,
                old_ss: 27,
            })
            &&& final(machine).active() == table
            &&& !old(machine).memory@.contains_key(table)
            &&& space_mapped(
                final(machine).memory@,
                table,
                mbinfo.spec_kernel_ranges() + spec_task_ranges(phs),
            )
            &&& rest_unmapped(
                final(machine).memory@,
                table,
                mbinfo.spec_kernel_ranges() + spec_task_ranges(phs),
            )
            &&& r.unwrap().0@.len() == phs.len()
            &&& forall|k: int|
                0 <= k < phs.len() ==> (#[trigger] r.unwrap().0@[k]).vaddr == phs[k].p_vaddr
                    && r.unwrap().0@[k].bytes@ == phs[k].spec_image(module@)
            &&& *final(cpu) == spec_enter_user(
                Cpu { rflags: old(cpu).rflags & !crate::arch::cpu::RFLAGS_IF, ..*old(cpu) },
                t.tls.kern_rsp,
            )
        }),
{
    proof {
        crate::memory::mapper::lemma_walks_kept_refl(machine.memory@, 0, 0);
        lemma_tops_kept_refl(machine.memory@);
        reveal_with_fuel(spec_stacks_taken, 4);
    }
    let flags = cpu.push_flags();
    match tasks.alloc_kernel_task("idle", threads.idle, threads.start_task, kernel_table, heap) {
        Err(e) => {
            cpu.pop_flags(flags);
            return Err(e);
        },
        Ok(_) => {},
    }
    proof {
        assert(tasks.tasks@.contains_key(1));
    }
    match tasks.alloc_kernel_task(
        "kthread1",
        threads.test_thread,
        threads.start_task,
        kernel_table,
        heap,
    ) {
        Err(e) => {
            cpu.pop_flags(flags);
            return Err(e);
        },
        Ok(_) => {},
    }
    proof {
        assert(tasks.tasks@.contains_key(1));
        assert(tasks.tasks@.contains_key(2));
    }
    match tasks.alloc_kernel_task(
        "kthread2",
        threads.test_thread2,
        threads.start_task,
        kernel_table,
        heap,
    ) {
        Err(e) => {
            cpu.pop_flags(flags);
            return Err(e);
        },
        Ok(_) => {},
    }
    proof {
        assert(tasks.tasks@.contains_key(1));
        assert(tasks.tasks@.contains_key(2));
        assert(tasks.tasks@.contains_key(3));
    }
    let segs = match tasks.load_task("init", 1, machine, mbinfo, module, heap) {
        Err(e) => {
            cpu.pop_flags(flags);
            return Err(e);
        },
        Ok(s) => s,
    };
    let frame = match tasks.get_task(4) {
        None => {
            cpu.pop_flags(flags);
            return Err(TaskError::BadLayout);
        },
        Some(task) => {
            proof {
                crate::memory::paging::lemma_frame_number_bound(
                    machine.memory@[task.cr3.unwrap().pml4_frame.number].entries[511],
                );
            }
            ret_to_userspace(task, cpu, machine)
        },
    };
    *current_id = 4;
    Ok((segs, frame))
}

} // verus!
