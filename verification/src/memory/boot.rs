//! What the boot loader reports, as plain values, and the plan it gives for
//! mapping the kernel into a new address space.

use vstd::prelude::*;
use super::PAGE_SIZE;
use super::address_space::MapRange;
use super::frame::{AreaFrameAllocator, Frame, FrameAllocatorProxy, FrameRange, MemoryArea};
use super::paging::{EntryFlags, Page, ALL_FLAGS, NO_EXECUTE, PRESENT, WRITABLE};

verus! {

/// Where physical memory is mapped in the higher half.
pub const KERNEL_BASE: u64 = 0xffff_8800_0000_0000;

/// First address of the kernel heap.
pub const KERNEL_HEAP_START: u64 = 0xffff_8801_0000_0000;

/// Size of the kernel heap: 32 MiB.
pub const KERNEL_HEAP_SIZE: u64 = 0x0200_0000;

/// Physical address of the text buffer of the legacy console.
pub const VGA_TEXT_BUFFER: u64 = 0xb8000;

/// Bytes of that buffer: 25 rows of 80 cells of two bytes.
pub const VGA_TEXT_BYTES: u64 = 4000;

pub const ELF_SECTION_WRITABLE: u64 = 0x1;

pub const ELF_SECTION_ALLOCATED: u64 = 0x2;

pub const ELF_SECTION_EXECUTABLE: u64 = 0x4;

/// One section of the running kernel's image.
#[derive(Debug, Clone, Copy, PartialEq, Eq, Structural)]
pub struct ElfSection {
    pub addr: u64,
    pub size: u64,
    pub flags: u64,
}

impl ElfSection {
    pub open spec fn spec_is_allocated(self) -> bool {
        self.flags & ELF_SECTION_ALLOCATED == ELF_SECTION_ALLOCATED
    }

    pub fn is_allocated(&self) -> (r: bool)
        ensures
            r == self.spec_is_allocated(),
    {
        self.flags & ELF_SECTION_ALLOCATED == ELF_SECTION_ALLOCATED
    }

    /// Whether the section is mapped at all.
    pub open spec fn is_mapped(self) -> bool {
        self.spec_is_allocated() && self.size != 0
    }

    /// A section that is mapped starts and ends at a page boundary, within
    /// the address space; one below the kernel's base can be moved up by the
    /// base.
    pub open spec fn wf(self) -> bool {
        self.is_mapped() ==> {
            &&& self.addr % PAGE_SIZE == 0
            &&& self.size % PAGE_SIZE == 0
            &&& self.addr + self.size <= u64::MAX
            &&& self.addr < KERNEL_BASE ==> self.addr + self.size + KERNEL_BASE <= u64::MAX
        }
    }

    /// The flags that the section's pages are mapped with: no execution
    /// unless the section is executable, writing if it is writable.
    pub open spec fn spec_page_flags(self) -> EntryFlags {
        EntryFlags {
            bits: (PRESENT | (if self.flags & ELF_SECTION_EXECUTABLE == ELF_SECTION_EXECUTABLE {
                0
            } else {
                NO_EXECUTE
            }) | (if self.flags & ELF_SECTION_WRITABLE == ELF_SECTION_WRITABLE {
                WRITABLE
            } else {
                0
            })) & ALL_FLAGS,
        }
    }

    pub fn page_flags(&self) -> (f: EntryFlags)
        ensures
            f == self.spec_page_flags(),
            f.valid(),
    {
        let x: u64 = if self.flags & ELF_SECTION_EXECUTABLE == ELF_SECTION_EXECUTABLE {
            0
        } else {
            NO_EXECUTE
        };
        let w: u64 = if self.flags & ELF_SECTION_WRITABLE == ELF_SECTION_WRITABLE {
            WRITABLE
        } else {
            0
        };
        EntryFlags::from_bits_truncate(PRESENT | x | w)
    }

    /// The pages that the section is mapped to, if it is mapped. A section
    /// above the kernel's base lies where it is mapped. A section below it
    /// is boot code and the boot stack: it is mapped, moved up by the base,
    /// writable and not executable, but for its first page, which stays
    /// unmapped as a guard.
    pub open spec fn spec_range(self) -> Option<MapRange> {
        if !self.is_mapped() {
            None
        } else if self.addr >= KERNEL_BASE {
            Some(
                MapRange {
                    start: Page { number: self.addr / PAGE_SIZE },
                    count: self.size / PAGE_SIZE,
                    first: Some(Frame { number: ((self.addr - KERNEL_BASE) / PAGE_SIZE as int) as u64 }),
                    flags: self.spec_page_flags(),
                },
            )
        } else {
            Some(
                MapRange {
                    start: Page { number: ((self.addr + KERNEL_BASE) / PAGE_SIZE as int + 1) as u64 },
                    count: (self.size / PAGE_SIZE - 1) as u64,
                    first: Some(Frame { number: (self.addr / PAGE_SIZE + 1) as u64 }),
                    flags: EntryFlags { bits: (PRESENT | NO_EXECUTE | WRITABLE) & ALL_FLAGS },
                },
            )
        }
    }

    pub fn range(&self) -> (r: Option<MapRange>)
        requires
            self.wf(),
        ensures
            r == self.spec_range(),
    {
        if !self.is_allocated() || self.size == 0 {
            None
        } else if self.addr >= KERNEL_BASE {
            Some(
                MapRange {
                    start: Page { number: self.addr / PAGE_SIZE },
                    count: self.size / PAGE_SIZE,
                    first: Some(Frame { number: (self.addr - KERNEL_BASE) / PAGE_SIZE }),
                    flags: self.page_flags(),
                },
            )
        } else {
            Some(
                MapRange {
                    start: Page { number: (self.addr + KERNEL_BASE) / PAGE_SIZE + 1 },
                    count: self.size / PAGE_SIZE - 1,
                    first: Some(Frame { number: self.addr / PAGE_SIZE + 1 }),
                    flags: EntryFlags::from_bits_truncate(PRESENT | NO_EXECUTE | WRITABLE),
                },
            )
        }
    }
}

/// The linear framebuffer.
#[derive(Debug, Clone, Copy, PartialEq, Eq, Structural)]
pub struct FramebufferInfo {
    pub addr: u64,
    pub pitch: u32,
    pub width: u32,
    pub height: u32,
    pub bpp: u8,
    pub is_rgb: bool,
}

/// A module that the boot loader put into memory.
#[derive(Debug, Clone)]
pub struct Module {
    pub start: u64,
    pub end: u64,
    pub name: String,
}

/// The boot information that the kernel core reads.
#[derive(Debug, Clone)]
pub struct BootInformation {
    /// Where the information itself lies, as the kernel sees it in the higher half.
    pub start_address: u64,
    pub end_address: u64,
    pub memory_areas: Vec<MemoryArea>,
    pub elf_sections: Vec<ElfSection>,
    pub framebuffer: FramebufferInfo,
    pub modules: Vec<Module>,
}

/// The frames that overlap the bytes `[start, end)`, mapped at their own
/// address moved up by the kernel's base.
pub open spec fn spec_span(start: u64, end: u64, flags: u64) -> MapRange {
    let first = start / PAGE_SIZE;
    let last = (end - 1) / PAGE_SIZE as int + 1;
    MapRange {
        start: Page { number: (first + KERNEL_BASE / PAGE_SIZE) as u64 },
        count: if last > first {
            (last - first) as u64
        } else {
            0
        },
        first: Some(Frame { number: first }),
        flags: EntryFlags { bits: flags & ALL_FLAGS },
    }
}

pub fn span(start: u64, end: u64, flags: u64) -> (r: MapRange)
    requires
        end >= 1,
        start / PAGE_SIZE + KERNEL_BASE / PAGE_SIZE <= u64::MAX,
    ensures
        r == spec_span(start, end, flags),
{
    let first = start / PAGE_SIZE;
    let last = (end - 1) / PAGE_SIZE + 1;
    MapRange {
        start: Page { number: first + KERNEL_BASE / PAGE_SIZE },
        count: if last > first {
            last - first
        } else {
            0
        },
        first: Some(Frame { number: first }),
        flags: EntryFlags::from_bits_truncate(flags),
    }
}

/// The ranges of the first `n` sections, in order.
pub open spec fn spec_section_ranges(sections: Seq<ElfSection>, n: int) -> Seq<MapRange>
    decreases n,
{
    if n <= 0 {
        Seq::empty()
    } else {
        let before = spec_section_ranges(sections, n - 1);
        match sections[n - 1].spec_range() {
            Some(r) => before.push(r),
            None => before,
        }
    }
}

/// The greatest end among the first `n` areas; 0 for none.
pub open spec fn spec_max_end(areas: Seq<MemoryArea>, n: int) -> int
    decreases n,
{
    if n <= 0 {
        0
    } else {
        let before = spec_max_end(areas, n - 1);
        let end = areas[n - 1].base_addr + areas[n - 1].length;
        if end > before {
            end
        } else {
            before
        }
    }
}

impl BootInformation {
    /// Everything that is mapped lies where its addresses can be computed.
    pub open spec fn wf(self) -> bool {
        &&& forall|i: int| 0 <= i < self.elf_sections@.len() ==> (#[trigger] self.elf_sections@[i]).wf()
        &&& forall|i: int| 0 <= i < self.memory_areas@.len() ==> (#[trigger] self.memory_areas@[i]).wf()
        &&& self.framebuffer.addr + self.framebuffer.pitch * self.framebuffer.height <= u64::MAX
        &&& self.framebuffer.addr + self.framebuffer.pitch * self.framebuffer.height >= 1
        &&& self.framebuffer.addr / PAGE_SIZE + KERNEL_BASE / PAGE_SIZE <= u64::MAX
        &&& KERNEL_BASE <= self.start_address
        &&& self.start_address < self.end_address
        &&& spec_max_end(self.memory_areas@, self.memory_areas@.len() as int) >= KERNEL_HEAP_SIZE
    }

    /// The frames that back the kernel heap: the last 32 MiB below the
    /// greatest end of a memory area.
    pub open spec fn spec_heap_range(self) -> MapRange {
        let end = spec_max_end(self.memory_areas@, self.memory_areas@.len() as int);
        MapRange {
            start: Page { number: KERNEL_HEAP_START / PAGE_SIZE },
            count: KERNEL_HEAP_SIZE / PAGE_SIZE,
            first: Some(Frame { number: ((end - KERNEL_HEAP_SIZE) / PAGE_SIZE as int) as u64 }),
            flags: EntryFlags { bits: WRITABLE & ALL_FLAGS },
        }
    }

    /// What a new address space maps of the kernel, in the order in which it
    /// is mapped: each section of the image that is allocated and not empty;
    /// the text buffer of the legacy console, unless the framebuffer is that
    /// buffer; the framebuffer; the boot information; the kernel heap.
    pub open spec fn spec_kernel_ranges(self) -> Seq<MapRange> {
        let sections = spec_section_ranges(self.elf_sections@, self.elf_sections@.len() as int);
        let vga = if self.framebuffer.addr != VGA_TEXT_BUFFER {
            sections.push(spec_span(VGA_TEXT_BUFFER, (VGA_TEXT_BUFFER + VGA_TEXT_BYTES) as u64, WRITABLE))
        } else {
            sections
        };
        vga.push(
            spec_span(
                self.framebuffer.addr,
                (self.framebuffer.addr + self.framebuffer.pitch * self.framebuffer.height) as u64,
                WRITABLE,
            ),
        ).push(
            spec_span(
                (self.start_address - KERNEL_BASE) as u64,
                (self.end_address - KERNEL_BASE) as u64,
                0,
            ),
        ).push(self.spec_heap_range())
    }

    /// The greatest end of a memory area.
    pub fn max_area_end(&self) -> (end: u64)
        requires
            forall|i: int| 0 <= i < self.memory_areas@.len() ==> (#[trigger] self.memory_areas@[i]).wf(),
        ensures
            end == spec_max_end(self.memory_areas@, self.memory_areas@.len() as int),
    {
        let mut end: u64 = 0;
        let mut i: usize = 0;
        while i < self.memory_areas.len()
            invariant
                i <= self.memory_areas@.len(),
                end == spec_max_end(self.memory_areas@, i as int),
                forall|i: int|
                    0 <= i < self.memory_areas@.len() ==> (#[trigger] self.memory_areas@[i]).wf(),
            decreases self.memory_areas@.len() - i,
        {
            let a = self.memory_areas[i];
            assert(a.wf());
            let e = a.base_addr + a.length;
            if e > end {
                end = e;
            }
            i += 1;
        }
        end
    }

    pub fn kernel_ranges(&self) -> (r: Vec<MapRange>)
        requires
            self.wf(),
        ensures
            r@ == self.spec_kernel_ranges(),
    {
        let mut ranges: Vec<MapRange> = Vec::new();
        let mut i: usize = 0;
        while i < self.elf_sections.len()
            invariant
                i <= self.elf_sections@.len(),
                ranges@ == spec_section_ranges(self.elf_sections@, i as int),
                self.wf(),
            decreases self.elf_sections@.len() - i,
        {
            let sect = self.elf_sections[i];
            assert(sect.wf());
            match sect.range() {
                Some(r) => {
                    ranges.push(r);
                },
                None => {},
            }
            i += 1;
        }
        let fb = self.framebuffer;
        if fb.addr != VGA_TEXT_BUFFER {
            ranges.push(span(VGA_TEXT_BUFFER, VGA_TEXT_BUFFER + VGA_TEXT_BYTES, WRITABLE));
        }
        let fb_size: u64 = (fb.pitch as u64) * (fb.height as u64);
        ranges.push(span(fb.addr, fb.addr + fb_size, WRITABLE));
        ranges.push(span(self.start_address - KERNEL_BASE, self.end_address - KERNEL_BASE, 0));
        let end = self.max_area_end();
        ranges.push(
            MapRange {
                start: Page { number: KERNEL_HEAP_START / PAGE_SIZE },
                count: KERNEL_HEAP_SIZE / PAGE_SIZE,
                first: Some(Frame { number: (end - KERNEL_HEAP_SIZE) / PAGE_SIZE }),
                flags: EntryFlags::from_bits_truncate(WRITABLE),
            },
        );
        ranges
    }
}

/// The least start among the allocated ones of the first `n` sections;
/// none where none of them is allocated.
pub open spec fn spec_min_start(sections: Seq<ElfSection>, n: int) -> Option<u64>
    decreases n,
{
    if n <= 0 {
        None
    } else {
        let before = spec_min_start(sections, n - 1);
        let s = sections[n - 1];
        if !s.spec_is_allocated() {
            before
        } else {
            match before {
                Some(b) => if s.addr < b {
                    Some(s.addr)
                } else {
                    before
                },
                None => Some(s.addr),
            }
        }
    }
}

/// The greatest end among the allocated ones of the first `n` sections; 0
/// where none of them is allocated.
pub open spec fn spec_max_section_end(sections: Seq<ElfSection>, n: int) -> int
    decreases n,
{
    if n <= 0 {
        0
    } else {
        let before = spec_max_section_end(sections, n - 1);
        let s = sections[n - 1];
        if s.spec_is_allocated() && s.addr + s.size > before {
            s.addr + s.size
        } else {
            before
        }
    }
}

/// The least start among the first `n` modules, which are at least one.
pub open spec fn spec_min_module_start(modules: Seq<Module>, n: int) -> u64
    decreases n,
{
    if n <= 1 {
        modules[0].start
    } else {
        let before = spec_min_module_start(modules, n - 1);
        if modules[n - 1].start < before {
            modules[n - 1].start
        } else {
            before
        }
    }
}

/// The greatest end among the first `n` modules.
pub open spec fn spec_max_module_end(modules: Seq<Module>, n: int) -> u64
    decreases n,
{
    if n <= 0 {
        0
    } else {
        let before = spec_max_module_end(modules, n - 1);
        if modules[n - 1].end > before {
            modules[n - 1].end
        } else {
            before
        }
    }
}

/// An address of the higher half as the physical address it stands for;
/// any other address as it is.
pub open spec fn spec_to_physical(addr: u64) -> u64 {
    if addr > KERNEL_BASE {
        (addr - KERNEL_BASE) as u64
    } else {
        addr
    }
}

impl BootInformation {
    /// There is a section that is allocated, and a module; no section ends
    /// beyond the address space.
    pub open spec fn has_image(self) -> bool {
        &&& spec_min_start(self.elf_sections@, self.elf_sections@.len() as int).is_some()
        &&& spec_max_section_end(self.elf_sections@, self.elf_sections@.len() as int) >= 1
        &&& self.modules@.len() >= 1
        &&& forall|i: int|
            0 <= i < self.elf_sections@.len() ==> (#[trigger] self.elf_sections@[i]).addr
                + self.elf_sections@[i].size <= u64::MAX
        &&& forall|i: int| 0 <= i < self.memory_areas@.len() ==> (#[trigger] self.memory_areas@[i]).wf()
        &&& KERNEL_BASE <= self.start_address
        &&& self.start_address < self.end_address
    }

    /// The frames of the kernel's image: from the least start to the
    /// greatest end of an allocated section, as physical addresses.
    pub open spec fn spec_kernel_frames(self) -> FrameRange {
        let n = self.elf_sections@.len() as int;
        let start = spec_to_physical(spec_min_start(self.elf_sections@, n).unwrap());
        let end = spec_to_physical(spec_max_section_end(self.elf_sections@, n) as u64);
        FrameRange {
            start: Frame { number: start / PAGE_SIZE },
            end: Frame { number: ((end - 1) / PAGE_SIZE as int + 1) as u64 },
        }
    }

    /// The frames of the boot information and of the modules.
    pub open spec fn spec_multiboot_frames(self) -> FrameRange {
        let n = self.modules@.len() as int;
        let mods_start = spec_min_module_start(self.modules@, n);
        let mods_end = spec_max_module_end(self.modules@, n);
        let info_start = (self.start_address - KERNEL_BASE) as u64;
        let info_end = (self.end_address - KERNEL_BASE) as u64;
        let start = if mods_start < info_start {
            mods_start
        } else {
            info_start
        };
        let end = if mods_end > info_end {
            mods_end
        } else {
            info_end
        };
        FrameRange {
            start: Frame { number: start / PAGE_SIZE },
            end: Frame { number: ((end - 1) / PAGE_SIZE as int + 1) as u64 },
        }
    }

    /// The frame allocator of the first stage: over the memory areas, less
    /// the frames of the kernel's image and those of the boot information
    /// and the modules.
    pub fn frame_allocator(&self) -> (p: FrameAllocatorProxy)
        requires
            self.has_image(),
        ensures
            p.wf(),
            p.initial,
            p.alternative.is_none(),
            p@ == self.frame_allocator_view(),
            p.allocator.areas@ == self.memory_areas@,
            p.allocator.kernel == self.spec_kernel_frames(),
            p.allocator.multiboot == self.spec_multiboot_frames(),
            p.allocator.used == 0,
            p.allocator.next_index == if self.memory_areas@.len() > 0 {
                1int
            } else {
                0int
            },
            self.memory_areas@.len() > 0 ==> p.allocator.current_area == Some(
                self.memory_areas@[0].spec_frames(),
            ) && p.allocator.next_free_frame == self.memory_areas@[0].spec_frames().start,
            self.memory_areas@.len() == 0 ==> p.allocator.current_area.is_none(),
    {
        let mut kernel_start: Option<u64> = None;
        let mut kernel_end: u64 = 0;
        let mut i: usize = 0;
        while i < self.elf_sections.len()
            invariant
                i <= self.elf_sections@.len(),
                self.has_image(),
                kernel_start == spec_min_start(self.elf_sections@, i as int),
                kernel_end == spec_max_section_end(self.elf_sections@, i as int),
                kernel_start.is_some() ==> kernel_end >= kernel_start.unwrap(),
            decreases self.elf_sections@.len() - i,
        {
            let s = self.elf_sections[i];
            if s.is_allocated() {
                kernel_start = match kernel_start {
                    Some(b) => if s.addr < b {
                        Some(s.addr)
                    } else {
                        Some(b)
                    },
                    None => Some(s.addr),
                };
                if s.addr + s.size > kernel_end {
                    kernel_end = s.addr + s.size;
                }
            }
            i += 1;
        }
        let mut ks = kernel_start.unwrap();
        let mut ke = kernel_end;
        if ks > KERNEL_BASE {
            ks = ks - KERNEL_BASE;
        }
        if ke > KERNEL_BASE {
            ke = ke - KERNEL_BASE;
        }
        let kr = FrameRange {
            start: Frame::from_paddress(ks),
            end: Frame::from_paddress(ke - 1).plus(1),
        };
        let mut mods_start: u64 = self.modules[0].start;
        let mut mods_end: u64 = 0;
        let mut j: usize = 0;
        while j < self.modules.len()
            invariant
                j <= self.modules@.len(),
                self.modules@.len() >= 1,
                mods_start == spec_min_module_start(self.modules@, j as int),
                mods_end == spec_max_module_end(self.modules@, j as int),
            decreases self.modules@.len() - j,
        {
            let ms = self.modules[j].start;
            let me = self.modules[j].end;
            if ms < mods_start {
                mods_start = ms;
            }
            if me > mods_end {
                mods_end = me;
            }
            j += 1;
        }
        let info_start = self.start_address - KERNEL_BASE;
        let info_end = self.end_address - KERNEL_BASE;
        let mb_start = if mods_start < info_start {
            mods_start
        } else {
            info_start
        };
        let mb_end = if mods_end > info_end {
            mods_end
        } else {
            info_end
        };
        let mr = FrameRange {
            start: Frame::from_paddress(mb_start),
            end: Frame::from_paddress(mb_end - 1).plus(1),
        };
        let mut areas: Vec<MemoryArea> = Vec::new();
        let mut k: usize = 0;
        while k < self.memory_areas.len()
            invariant
                k <= self.memory_areas@.len(),
                areas@ == self.memory_areas@.subrange(0, k as int),
            decreases self.memory_areas@.len() - k,
        {
            areas.push(self.memory_areas[k]);
            assert(areas@ =~= self.memory_areas@.subrange(0, k + 1));
            k += 1;
        }
        assert(areas@ =~= self.memory_areas@);
        let afa = AreaFrameAllocator::new(areas, kr, mr);
        FrameAllocatorProxy::new(afa)
    }
}

impl BootInformation {
    /// The frame allocator of the first stage as a value of mathematics.
    pub open spec fn frame_allocator_view(self) -> super::frame::ProxyState {
        super::frame::ProxyState {
            initial: true,
            area: (super::frame::AreaState {
                next_free_frame: Frame { number: 0 },
                current_area: None,
                areas: self.memory_areas@,
                next_index: 0,
                kernel: self.spec_kernel_frames(),
                multiboot: self.spec_multiboot_frames(),
                used: 0,
            }).spec_next_area(),
            tree: Seq::empty(),
            start: 0,
            size: 0,
        }
    }
}

} // verus!
