//! Physical page frames and ranges of them.

use vstd::prelude::*;
use super::PAGE_SIZE;
use super::frame_allocator::{BuddyAllocator, buddy_next_frame, buddy_tree_after, MAX_UNITS, UNIT, rounds_down_to};

verus! {

/// Largest frame number whose start address still fits in 64 bits.
pub const MAX_FRAME_NUMBER: u64 = 0x000f_ffff_ffff_ffff;

/// A physical frame of `PAGE_SIZE` bytes, named by its number.
#[derive(Debug, Clone, Copy, PartialEq, Eq, PartialOrd, Ord, Structural)]
pub struct Frame {
    pub number: u64,
}

impl Frame {
    /// The frame that holds the physical address.
    pub open spec fn spec_from_paddress(physical: u64) -> Frame {
        Frame { number: physical / PAGE_SIZE }
    }

    /// The first address of the frame.
    pub open spec fn spec_start_address(self) -> int {
        self.number * PAGE_SIZE
    }

    /// A frame is addressable when its start address fits in 64 bits.
    pub open spec fn addressable(self) -> bool {
        self.number <= MAX_FRAME_NUMBER
    }

    pub fn from_paddress(physical: u64) -> (f: Frame)
        ensures
            f == Self::spec_from_paddress(physical),
            f.addressable(),
            f.spec_start_address() <= physical < f.spec_start_address() + PAGE_SIZE,
    {
        Frame { number: physical / PAGE_SIZE }
    }

    pub fn start_address(&self) -> (a: u64)
        requires
            self.addressable(),
        ensures
            a == self.spec_start_address(),
            a % PAGE_SIZE == 0,
    {
        self.number * PAGE_SIZE
    }

    /// The frame `rhs` frames further up.
    pub fn plus(self, rhs: u64) -> (f: Frame)
        requires
            self.number + rhs <= u64::MAX,
        ensures
            f.number == self.number + rhs,
    {
        Frame { number: self.number + rhs }
    }

    /// Moves the frame by a signed count of frames.
    pub fn add_assign(&mut self, inc: i64)
        requires
            0 <= old(self).number + inc <= u64::MAX,
        ensures
            final(self).number == old(self).number + inc,
    {
        if inc < 0 {
            let dec: u64 = if inc == i64::MIN {
                0x8000_0000_0000_0000
            } else {
                (-inc) as u64
            };
            self.number = self.number - dec;
        } else {
            self.number = self.number + inc as u64;
        }
    }
}

/// Rounding an address down to its frame and back clears the low twelve bits.
pub proof fn lemma_frame_round_trip(a: u64)
    ensures
        Frame::spec_from_paddress(a).spec_start_address() == (a & !((PAGE_SIZE - 1) as u64)),
        Frame::spec_from_paddress(a).addressable(),
{
    assert((a / 4096) * 4096 == a & !4095u64 && a / 4096 <= 0x000f_ffff_ffff_ffffu64) by (bit_vector);
}

/// Frames from `start` up to, not including, `end`.
#[derive(Debug, Clone, Copy)]
pub struct FrameRange {
    pub start: Frame,
    pub end: Frame,
}

impl FrameRange {
    /// The frame numbers still to come, in order.
    pub open spec fn view(self) -> Seq<u64> {
        Seq::new(
            if self.start.number < self.end.number {
                (self.end.number - self.start.number) as nat
            } else {
                0
            },
            |i: int| (self.start.number + i) as u64,
        )
    }

    pub open spec fn spec_contains(self, f: Frame) -> bool {
        self.start.number <= f.number < self.end.number
    }

    pub fn contains(&self, f: Frame) -> (r: bool)
        ensures
            r == self.spec_contains(f),
    {
        self.start.number <= f.number && f.number < self.end.number
    }

    /// The frames that overlap the bytes `[start, end)`.
    pub fn new(start: u64, end: u64) -> (r: FrameRange)
        requires
            end >= 1,
        ensures
            r.start == Frame::spec_from_paddress(start),
            r.end.number == Frame::spec_from_paddress((end - 1) as u64).number + 1,
    {
        FrameRange { start: Frame::from_paddress(start), end: Frame::from_paddress(end - 1).plus(1) }
    }

    /// Hands out the first frame of the range, if any is left.
    pub fn next(&mut self) -> (r: Option<Frame>)
        ensures
            old(self)@.len() == 0 ==> r.is_none() && *final(self) == *old(self),
            old(self)@.len() > 0 ==> r == Some(old(self).start) && final(self).start.number
                == old(self).start.number + 1 && final(self).end == old(self).end
                && final(self)@ == old(self)@.skip(1),
    {
        if self.start.number < self.end.number {
            let f = self.start;
            self.start = Frame { number: f.number + 1 };
            assert(self@ =~= old(self)@.skip(1));
            Some(f)
        } else {
            None
        }
    }
}

/// One area of usable memory, as the boot loader reports it.
#[derive(Debug, Clone, Copy, PartialEq, Eq, Structural)]
pub struct MemoryArea {
    pub base_addr: u64,
    pub length: u64,
}

impl MemoryArea {
    /// The area is not empty and ends within the address space.
    pub open spec fn wf(self) -> bool {
        self.length >= 1 && self.base_addr + self.length <= u64::MAX
    }

    /// The frames that the area overlaps.
    pub open spec fn spec_frames(self) -> FrameRange {
        FrameRange {
            start: Frame { number: self.base_addr / PAGE_SIZE },
            end: Frame { number: ((self.base_addr + self.length - 1) / PAGE_SIZE as int + 1) as u64 },
        }
    }

    pub fn frames(&self) -> (r: FrameRange)
        requires
            self.wf(),
        ensures
            r == self.spec_frames(),
    {
        FrameRange {
            start: Frame::from_paddress(self.base_addr),
            end: Frame::from_paddress(self.base_addr + self.length - 1).plus(1),
        }
    }
}

/// What the bump allocator is, as a value of mathematics.
pub struct AreaState {
    pub next_free_frame: Frame,
    pub current_area: Option<FrameRange>,
    pub areas: Seq<MemoryArea>,
    /// How many of `areas` were entered so far.
    pub next_index: int,
    pub kernel: FrameRange,
    pub multiboot: FrameRange,
    pub used: u64,
}

impl AreaState {
    /// Frames left in the current area, counted from the next free frame.
    pub open spec fn gap(self) -> int {
        match self.current_area {
            Some(c) => if self.next_free_frame.number < c.end.number {
                c.end.number - self.next_free_frame.number
            } else {
                0
            },
            None => 0,
        }
    }

    /// The allocator after it has entered the next area, or with no current
    /// area when none is left.
    pub open spec fn spec_next_area(self) -> AreaState {
        if 0 <= self.next_index < self.areas.len() {
            let r = self.areas[self.next_index].spec_frames();
            AreaState {
                current_area: Some(r),
                next_free_frame: r.start,
                next_index: self.next_index + 1,
                ..self
            }
        } else {
            AreaState { current_area: None, ..self }
        }
    }

    /// What `alloc_frame` returns and the allocator it leaves.
    pub open spec fn spec_alloc(self) -> (Option<Frame>, AreaState)
        decreases self.areas.len() - self.next_index, self.gap(),
    {
        match self.current_area {
            None => (None, self),
            Some(cur) => {
                let f = self.next_free_frame;
                if f.number >= cur.end.number {
                    if 0 <= self.next_index < self.areas.len() {
                        self.spec_next_area().spec_alloc()
                    } else {
                        (None, self.spec_next_area())
                    }
                } else if self.kernel.spec_contains(f) {
                    (AreaState { next_free_frame: self.kernel.end, ..self }).spec_alloc()
                } else if self.multiboot.spec_contains(f) {
                    (AreaState { next_free_frame: self.multiboot.end, ..self }).spec_alloc()
                } else {
                    (
                        Some(f),
                        AreaState {
                            next_free_frame: Frame { number: (f.number + 1) as u64 },
                            used: if self.used < u64::MAX {
                                (self.used + 1) as u64
                            } else {
                                self.used
                            },
                            ..self
                        },
                    )
                }
            },
        }
    }
}

/// Bump allocator for the time before the heap exists: walks the memory areas
/// in the order given, and skips the frames of the kernel image and of the
/// boot information. It cannot take a frame back.
#[derive(Debug)]
pub struct AreaFrameAllocator {
    pub next_free_frame: Frame,
    pub current_area: Option<FrameRange>,
    pub areas: Vec<MemoryArea>,
    /// How many of `areas` were entered so far.
    pub next_index: usize,
    pub kernel: FrameRange,
    pub multiboot: FrameRange,
    pub used: u64,
}

impl AreaFrameAllocator {
    pub open spec fn wf(self) -> bool {
        &&& self.next_index <= self.areas@.len()
        &&& forall|i: int| 0 <= i < self.areas@.len() ==> (#[trigger] self.areas@[i]).wf()
    }

    pub open spec fn view(self) -> AreaState {
        AreaState {
            next_free_frame: self.next_free_frame,
            current_area: self.current_area,
            areas: self.areas@,
            next_index: self.next_index as int,
            kernel: self.kernel,
            multiboot: self.multiboot,
            used: self.used,
        }
    }

    /// An allocator at the start of the first area.
    pub fn new(areas: Vec<MemoryArea>, kernel: FrameRange, mb: FrameRange) -> (a: AreaFrameAllocator)
        requires
            forall|i: int| 0 <= i < areas@.len() ==> (#[trigger] areas@[i]).wf(),
        ensures
            a.wf(),
            a@ == (AreaState {
                next_free_frame: Frame { number: 0 },
                current_area: None,
                areas: areas@,
                next_index: 0,
                kernel,
                multiboot: mb,
                used: 0,
            }).spec_next_area(),
            a.areas@ == areas@,
            a.kernel == kernel,
            a.multiboot == mb,
            a.used == 0,
            a.next_index == if areas@.len() > 0 {
                1int
            } else {
                0int
            },
            areas@.len() > 0 ==> a.current_area == Some(areas@[0].spec_frames())
                && a.next_free_frame == areas@[0].spec_frames().start,
            areas@.len() == 0 ==> a.current_area.is_none(),
    {
        let mut afa = AreaFrameAllocator {
            next_free_frame: Frame::from_paddress(0),
            current_area: None,
            areas,
            next_index: 0,
            kernel,
            multiboot: mb,
            used: 0,
        };
        afa.next_area();
        afa
    }

    /// Enters the next area, if one is left.
    pub fn next_area(&mut self)
        requires
            old(self).wf(),
        ensures
            final(self).wf(),
            final(self)@ == old(self)@.spec_next_area(),
    {
        if self.next_index < self.areas.len() {
            let r = self.areas[self.next_index].frames();
            self.current_area = Some(r);
            self.next_free_frame = r.start;
            self.next_index = self.next_index + 1;
        } else {
            self.current_area = None;
        }
    }

    /// Hands out the next frame, in area order, that belongs neither to the
    /// kernel image nor to the boot information.
    pub fn alloc_frame(&mut self) -> (r: Option<Frame>)
        requires
            old(self).wf(),
        ensures
            final(self).wf(),
            (r, final(self)@) == old(self)@.spec_alloc(),
            r.is_some() ==> !old(self).kernel.spec_contains(r.unwrap()) && !old(self).multiboot.spec_contains(r.unwrap()) && final(self).current_area.is_some() && r.unwrap().number < final(self).current_area.unwrap().end.number,
            r.is_none() ==> final(self).current_area.is_none(),
            final(self).areas@ == old(self).areas@,
            final(self).kernel == old(self).kernel,
            final(self).multiboot == old(self).multiboot,
    {
        loop
            invariant
                self.wf(),
                self@.spec_alloc() == old(self)@.spec_alloc(),
                self.areas@ == old(self).areas@,
                self.kernel == old(self).kernel,
                self.multiboot == old(self).multiboot,
            decreases self.areas@.len() - self.next_index, self@.gap(),
        {
            match self.current_area {
                None => {
                    return None;
                },
                Some(cur) => {
                    let frame = self.next_free_frame;
                    if frame.number >= cur.end.number {
                        if self.next_index >= self.areas.len() {
                            self.next_area();
                            return None;
                        }
                        self.next_area();
                    } else if self.kernel.contains(frame) {
                        self.next_free_frame = self.kernel.end;
                    } else if self.multiboot.contains(frame) {
                        self.next_free_frame = self.multiboot.end;
                    } else {
                        self.next_free_frame = Frame { number: frame.number + 1 };
                        if self.used < u64::MAX {
                            self.used = self.used + 1;
                        }
                        return Some(frame);
                    }
                },
            }
        }
    }
}

/// A store for up to three frames.
#[derive(Debug)]
pub struct TinyAllocator {
    pub frames: Vec<Option<Frame>>,
}

/// The first position below `n` at which `frames` holds a frame (`want`) or
/// holds none (`!want`); `n` where there is no such position.
pub open spec fn first_slot(frames: Seq<Option<Frame>>, want: bool, n: int) -> int
    decreases n,
{
    if n <= 0 {
        0
    } else {
        let i = first_slot(frames, want, n - 1);
        if i < n - 1 {
            i
        } else if frames[n - 1].is_some() == want {
            n - 1
        } else {
            n
        }
    }
}

impl TinyAllocator {
    pub open spec fn wf(self) -> bool {
        self.frames@.len() == 3
    }

    /// A store of the three frames given; a `None` is an empty slot.
    pub fn new(f0: Option<Frame>, f1: Option<Frame>, f2: Option<Frame>) -> (t: TinyAllocator)
        ensures
            t.wf(),
            t.frames@ == seq![f0, f1, f2],
    {
        let mut frames: Vec<Option<Frame>> = Vec::new();
        frames.push(f0);
        frames.push(f1);
        frames.push(f2);
        assert(frames@ =~= seq![f0, f1, f2]);
        TinyAllocator { frames }
    }

    /// Takes the frame out of the first slot that holds one.
    pub fn alloc_frame(&mut self) -> (r: Option<Frame>)
        requires
            old(self).wf(),
        ensures
            final(self).wf(),
            ({
                let i = first_slot(old(self).frames@, true, 3);
                if i < 3 {
                    r == old(self).frames@[i] && final(self).frames@ == old(self).frames@.update(
                        i,
                        None,
                    )
                } else {
                    r.is_none() && final(self).frames@ == old(self).frames@
                }
            }),
    {
        let mut i: usize = 0;
        while i < 3
            invariant
                i <= 3,
                self.frames@ == old(self).frames@,
                self.wf(),
                first_slot(self.frames@, true, i as int) == i,
            decreases 3 - i,
        {
            if self.frames[i].is_some() {
                let f = self.frames[i];
                self.frames[i] = None;
                proof {
                    reveal_with_fuel(first_slot, 4);
                }
                return f;
            }
            i += 1;
        }
        None
    }

    /// Puts the frame into the first empty slot; with no slot empty the frame
    /// is dropped.
    pub fn dealloc_frame(&mut self, frame: Frame)
        requires
            old(self).wf(),
        ensures
            final(self).wf(),
            ({
                let i = first_slot(old(self).frames@, false, 3);
                if i < 3 {
                    final(self).frames@ == old(self).frames@.update(i, Some(frame))
                } else {
                    final(self).frames@ == old(self).frames@
                }
            }),
    {
        let mut i: usize = 0;
        while i < 3
            invariant
                i <= 3,
                self.frames@ == old(self).frames@,
                self.wf(),
                first_slot(self.frames@, false, i as int) == i,
            decreases 3 - i,
        {
            if self.frames[i].is_none() {
                self.frames[i] = Some(frame);
                proof {
                    reveal_with_fuel(first_slot, 4);
                }
                return ;
            }
            i += 1;
        }
    }
}

/// What the two-stage allocator is, as a value of mathematics.
pub struct ProxyState {
    pub initial: bool,
    pub area: AreaState,
    pub tree: Seq<u64>,
    pub start: u64,
    pub size: u64,
}

impl ProxyState {
    /// The frame handed out next and the state after it.
    pub open spec fn step(self) -> (Option<Frame>, ProxyState) {
        if self.initial {
            let (f, a) = self.area.spec_alloc();
            (f, ProxyState { area: a, ..self })
        } else {
            (
                buddy_next_frame(self.tree, self.start, self.size),
                ProxyState { tree: buddy_tree_after(self.tree, self.size), ..self },
            )
        }
    }

    /// The state after `n` frames were asked for.
    pub open spec fn after(self, n: nat) -> ProxyState
        decreases n,
    {
        if n == 0 {
            self
        } else {
            self.step().1.after((n - 1) as nat)
        }
    }

    /// What the `n`-th request from now, counted from 0, is answered with.
    pub open spec fn supply(self, n: nat) -> Option<Frame> {
        self.after(n).step().0
    }
}

/// Two stages behind one face: the bump allocator while the kernel sets up
/// paging and its heap, the buddy allocator from then on.
#[derive(Debug)]
pub struct FrameAllocatorProxy {
    pub initial: bool,
    pub allocator: AreaFrameAllocator,
    pub alternative: Option<BuddyAllocator>,
}

/// The position of the last area among the first `n` whose base address is
/// the greatest.
pub open spec fn last_max_base(areas: Seq<MemoryArea>, n: int) -> int
    decreases n,
{
    if n <= 1 {
        0
    } else {
        let i = last_max_base(areas, n - 1);
        if areas[n - 1].base_addr >= areas[i].base_addr {
            n - 1
        } else {
            i
        }
    }
}

pub open spec fn spec_max4(a: int, b: int, c: int, d: int) -> int {
    vstd::math::max(vstd::math::max(a, b), vstd::math::max(c, d))
}

impl FrameAllocatorProxy {
    pub open spec fn wf(self) -> bool {
        &&& self.allocator.wf()
        &&& !self.initial ==> self.alternative.is_some() && self.alternative.unwrap().wf()
    }

    pub open spec fn view(self) -> ProxyState {
        ProxyState {
            initial: self.initial,
            area: self.allocator@,
            tree: match self.alternative {
                Some(b) => b.tree@,
                None => Seq::empty(),
            },
            start: match self.alternative {
                Some(b) => b.start,
                None => 0,
            },
            size: match self.alternative {
                Some(b) => b.size,
                None => 0,
            },
        }
    }

    /// The first stage, over the bump allocator given.
    pub fn new(allocator: AreaFrameAllocator) -> (p: FrameAllocatorProxy)
        requires
            allocator.wf(),
        ensures
            p.wf(),
            p.initial,
            p.allocator == allocator,
            p@.area == allocator@,
            p.alternative.is_none(),
    {
        FrameAllocatorProxy { initial: true, allocator, alternative: None }
    }

    /// Asks the allocator of the current stage for a frame.
    pub fn alloc_frame(&mut self) -> (r: Option<Frame>)
        requires
            old(self).wf(),
        ensures
            final(self).wf(),
            (r, final(self)@) == old(self)@.step(),
            final(self).initial == old(self).initial,
    {
        if self.initial {
            self.allocator.alloc_frame()
        } else {
            let mut b = self.alternative.take().unwrap();
            let r = b.alloc_frame();
            self.alternative = Some(b);
            r
        }
    }

    /// Gives a frame back to the buddy allocator. The first stage cannot take
    /// frames back.
    pub fn dealloc_frame(&mut self, frame: Frame)
        requires
            old(self).wf(),
            !old(self).initial,
            frame.addressable(),
        ensures
            final(self).wf(),
            !final(self).initial,
            final(self).allocator == old(self).allocator,
            final(self).alternative.unwrap().start == old(self).alternative.unwrap().start,
            final(self).alternative.unwrap().size == old(self).alternative.unwrap().size,
            final(self).alternative.unwrap().allocated() == old(self).alternative.unwrap().allocated().remove(
                frame.number - old(self).alternative.unwrap().start / UNIT,
            ),
    {
        let mut b = self.alternative.take().unwrap();
        b.dealloc_frame(frame);
        self.alternative = Some(b);
    }

    /// Where the second stage starts: past everything the first stage has
    /// handed out, past the kernel image and the boot information, inside the
    /// area with the greatest base address, rounded up to a frame.
    pub open spec fn spec_upgrade_start(self) -> int {
        let m = self.allocator.areas@[last_max_base(
            self.allocator.areas@,
            self.allocator.areas@.len() as int,
        )];
        let raw = spec_max4(
            self.allocator.next_free_frame.number * PAGE_SIZE,
            m.base_addr as int,
            self.allocator.kernel.end.number * PAGE_SIZE,
            self.allocator.multiboot.end.number * PAGE_SIZE,
        );
        (raw + PAGE_SIZE - 1) / PAGE_SIZE as int * PAGE_SIZE
    }

    /// Where that area ends.
    pub open spec fn spec_upgrade_end(self) -> int {
        let m = self.allocator.areas@[last_max_base(
            self.allocator.areas@,
            self.allocator.areas@.len() as int,
        )];
        m.base_addr + m.length
    }

    /// Whether the second stage can be entered: there is an area, and at least
    /// one whole frame lies between the start and the area's end.
    pub open spec fn can_upgrade(self) -> bool {
        &&& self.allocator.areas@.len() > 0
        &&& self.spec_upgrade_start() + PAGE_SIZE <= self.spec_upgrade_end()
    }

    /// Enters the second stage where `can_upgrade` holds: a buddy allocator
    /// over the frames from the start to the area's end, at most `MAX_UNITS`
    /// of them, all free. There is no way back.
    pub fn upgrade_allocator(&mut self) -> (ok: bool)
        requires
            old(self).wf(),
        ensures
            final(self).wf(),
            ok == old(self).can_upgrade(),
            final(self).allocator == old(self).allocator,
            !ok ==> *final(self) == *old(self),
            ok ==> ({
                let b = final(self).alternative.unwrap();
                &&& !final(self).initial
                &&& b.start == old(self).spec_upgrade_start()
                &&& rounds_down_to(
                    vstd::math::min(
                        (old(self).spec_upgrade_end() - old(self).spec_upgrade_start())
                            / PAGE_SIZE as int,
                        MAX_UNITS as int,
                    ),
                    b.size as int,
                )
                &&& b.allocated() =~= Set::<int>::empty()
            }),
    {
        let n = self.allocator.areas.len();
        if n == 0 {
            return false;
        }
        let mut best: usize = 0;
        let mut i: usize = 1;
        while i < n
            invariant
                1 <= i <= n,
                n == self.allocator.areas@.len(),
                best < i,
                best == last_max_base(self.allocator.areas@, i as int),
            decreases n - i,
        {
            if self.allocator.areas[i].base_addr >= self.allocator.areas[best].base_addr {
                best = i;
            }
            i += 1;
        }
        let m = self.allocator.areas[best];
        let end: u64 = m.base_addr + m.length;
        let limit: u64 = 0x000f_ffff_ffff_ffff;
        if self.allocator.next_free_frame.number > limit || self.allocator.kernel.end.number > limit
            || self.allocator.multiboot.end.number > limit {
            // one of the three lies beyond every area's end
            proof {
                assert(self.spec_upgrade_end() <= u64::MAX);
            }
            return false;
        }
        let a = self.allocator.next_free_frame.start_address();
        let c = self.allocator.kernel.end.start_address();
        let d = self.allocator.multiboot.end.start_address();
        let ab = if a >= m.base_addr {
            a
        } else {
            m.base_addr
        };
        let cd = if c >= d {
            c
        } else {
            d
        };
        let raw = if ab >= cd {
            ab
        } else {
            cd
        };
        if raw > end || end - raw < PAGE_SIZE {
            return false;
        }
        let start = (raw + PAGE_SIZE - 1) / PAGE_SIZE * PAGE_SIZE;
        if start > end || end - start < PAGE_SIZE {
            return false;
        }
        let avail = end - start;
        let size = if avail / PAGE_SIZE > MAX_UNITS {
            MAX_UNITS * PAGE_SIZE
        } else {
            avail
        };
        let b = BuddyAllocator::new(start, size);
        self.initial = false;
        self.alternative = Some(b);
        true
    }
}

/// The frame allocator as the kernel starts with it: the first stage, over
/// the memory areas that the boot loader reports.
pub fn init(mbinfo: &super::boot::BootInformation) -> (p: FrameAllocatorProxy)
    requires
        mbinfo.has_image(),
    ensures
        p.wf(),
        p.initial,
        p@ == mbinfo.frame_allocator_view(),
        p.allocator.areas@ == mbinfo.memory_areas@,
        p.allocator.kernel == mbinfo.spec_kernel_frames(),
        p.allocator.multiboot == mbinfo.spec_multiboot_frames(),
{
    mbinfo.frame_allocator()
}

} // verus!
