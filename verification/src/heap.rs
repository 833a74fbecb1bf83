//! The kernel heap: a first-fit allocator over one range of addresses,
//! which keeps its free blocks in the order of their addresses and joins
//! blocks that touch.

use vstd::prelude::*;

verus! {

/// A run of free bytes.
#[derive(Debug, Clone, Copy, PartialEq, Eq, Structural)]
pub struct HeapBlock {
    pub start: u64,
    pub size: u64,
}

impl HeapBlock {
    pub open spec fn end(self) -> int {
        self.start + self.size
    }

    pub open spec fn holds(self, x: int) -> bool {
        self.start <= x < self.start + self.size
    }
}

/// `start` rounded up to a multiple of `align`.
pub open spec fn spec_align_up(start: int, align: int) -> int {
    if start % align == 0 {
        start
    } else {
        start + (align - start % align)
    }
}

/// `start` rounded up to a multiple of `align`, where that is an address.
pub fn align_up(start: u64, align: u64) -> (r: Option<u64>)
    requires
        align >= 1,
    ensures
        match r {
            Some(a) => a == spec_align_up(start as int, align as int) && a % align == 0 && start <= a
                < start + align,
            None => spec_align_up(start as int, align as int) > u64::MAX,
        },
{
    let rem = start % align;
    if rem == 0 {
        Some(start)
    } else {
        let add = align - rem;
        if start > u64::MAX - add {
            None
        } else {
            let a = start + add;
            proof {
                vstd::arithmetic::div_mod::lemma_fundamental_div_mod(start as int, align as int);
                let q = start as int / align as int;
                assert(a == align * (q + 1)) by (nonlinear_arith)
                    requires
                        start == align * q + rem,
                        a == start + align - rem,
                ;
                vstd::arithmetic::div_mod::lemma_mod_multiples_basic(q + 1, align as int);
                assert(align * (q + 1) == (q + 1) * align) by (nonlinear_arith);
            }
            Some(a)
        }
    }
}

/// Whether a block can hold `size` bytes from an address that is a multiple
/// of `align`.
pub open spec fn block_fits(b: HeapBlock, size: int, align: int) -> bool {
    spec_align_up(b.start as int, align) + size <= b.end()
}

/// The first block at or after position `from` that fits; the number of
/// blocks where none does.
pub open spec fn first_fit(blocks: Seq<HeapBlock>, from: int, size: int, align: int) -> int
    decreases blocks.len() - from,
{
    if from < 0 || from >= blocks.len() {
        blocks.len() as int
    } else if block_fits(blocks[from], size, align) {
        from
    } else {
        first_fit(blocks, from + 1, size, align)
    }
}

/// The free blocks after `size` bytes from address `a` on were taken out of
/// block `i`: what is left of the block before and after them stays, in
/// its place.
pub open spec fn spec_carve(blocks: Seq<HeapBlock>, i: int, a: int, size: int) -> Seq<HeapBlock> {
    let b = blocks[i];
    let left = a - b.start;
    let right = b.end() - (a + size);
    if size == 0 {
        blocks
    } else if left == 0 && right == 0 {
        blocks.remove(i)
    } else if left == 0 {
        blocks.update(i, HeapBlock { start: (a + size) as u64, size: right as u64 })
    } else if right == 0 {
        blocks.update(i, HeapBlock { start: b.start, size: left as u64 })
    } else {
        blocks.update(i, HeapBlock { start: b.start, size: left as u64 }).insert(
            i + 1,
            HeapBlock { start: (a + size) as u64, size: right as u64 },
        )
    }
}

/// The free blocks after `size` bytes were taken from the first block that
/// fits; they are as before where none fits.
pub open spec fn spec_after_allocate(blocks: Seq<HeapBlock>, size: int, align: int) -> Seq<HeapBlock> {
    let i = first_fit(blocks, 0, size, align);
    if i < blocks.len() {
        spec_carve(blocks, i, spec_align_up(blocks[i].start as int, align), size)
    } else {
        blocks
    }
}

/// The blocks are in rising order of their addresses, none is empty, and
/// between any two there is a gap.
pub open spec fn blocks_ordered(blocks: Seq<HeapBlock>, lo: int, hi: int) -> bool {
    &&& forall|i: int|
        0 <= i < blocks.len() ==> (#[trigger] blocks[i]).size > 0 && lo <= blocks[i].start
            && blocks[i].end() <= hi
    &&& forall|i: int, j: int|
        0 <= i < j < blocks.len() ==> (#[trigger] blocks[i]).end() < (#[trigger] blocks[j]).start
}

/// Whether the byte at `x` is free.
pub open spec fn bytes_free(blocks: Seq<HeapBlock>, x: int) -> bool {
    exists|i: int| 0 <= i < blocks.len() && (#[trigger] blocks[i]).holds(x)
}

pub struct KHeapAllocator {
    /// The address up to which the heap was in use at most.
    pub current: u64,
    /// The range of the heap, once it is set.
    pub range: Option<(u64, u64)>,
    pub free: Vec<HeapBlock>,
}

impl KHeapAllocator {
    pub open spec fn wf(self) -> bool {
        match self.range {
            Some((lo, hi)) => lo <= hi && blocks_ordered(self.free@, lo as int, hi as int),
            None => self.free@.len() == 0,
        }
    }

    /// Whether the byte at `x` is free.
    pub open spec fn is_free(self, x: int) -> bool {
        bytes_free(self.free@, x)
    }

    /// An allocator that has no range yet.
    pub fn new() -> (h: KHeapAllocator)
        ensures
            h.wf(),
            h.range.is_none(),
            h.current == 0,
    {
        KHeapAllocator { current: 0, range: None, free: Vec::new() }
    }

    /// Sets the range of the heap, all of it free. The range is set once:
    /// a second call changes nothing.
    pub fn init(&mut self, start: u64, end: u64)
        requires
            old(self).wf(),
            start <= end,
        ensures
            final(self).wf(),
            old(self).range.is_some() ==> *final(self) == *old(self),
            old(self).range.is_none() ==> final(self).range == Some((start, end)) && final(self).current == start && forall|x: int| final(self).is_free(x) <==> start <= x < end,
    {
        if self.range.is_some() {
            return ;
        }
        self.range = Some((start, end));
        self.current = start;
        if start < end {
            self.free.push(HeapBlock { start, size: end - start });
            assert forall|x: int| self.is_free(x) <==> start <= x < end by {
                if start <= x < end {
                    assert(self.free@[0].holds(x));
                }
            }
        }
    }

    /// Takes `size` bytes from an address that is a multiple of `align` out
    /// of the first free block that can hold them, at the lowest such
    /// address in that block. `None` where no block can.
    pub fn allocate(&mut self, size: u64, align: u64) -> (r: Option<u64>)
        requires
            old(self).wf(),
            old(self).range.is_some(),
            align >= 1,
        ensures
            final(self).wf(),
            final(self).range == old(self).range,
            final(self).free@ == spec_after_allocate(old(self).free@, size as int, align as int),
            ({
                let i = first_fit(old(self).free@, 0, size as int, align as int);
                if i < old(self).free@.len() {
                    let a = spec_align_up(old(self).free@[i].start as int, align as int);
                    &&& r == Some(a as u64)
                    &&& a % (align as int) == 0
                    &&& old(self).range.unwrap().0 <= a
                    &&& a + size <= old(self).range.unwrap().1
                    &&& forall|x: int| a <= x < a + size ==> old(self).is_free(x)
                    &&& forall|x: int|
                        final(self).is_free(x) <==> old(self).is_free(x) && !(a <= x < a + size)
                    &&& final(self).current == if a + size > old(self).current {
                        (a + size) as u64
                    } else {
                        old(self).current
                    }
                } else {
                    r.is_none() && *final(self) == *old(self)
                }
            }),
    {
        let n = self.free.len();
        let mut i: usize = 0;
        while i < n
            invariant
                i <= n,
                n == self.free@.len(),
                *self == *old(self),
                self.wf(),
                align >= 1,
                first_fit(self.free@, i as int, size as int, align as int) == first_fit(
                    self.free@,
                    0,
                    size as int,
                    align as int,
                ),
            decreases n - i,
        {
            let b = self.free[i];
            let fit = match align_up(b.start, align) {
                Some(a) => if a <= b.start + b.size && size <= b.start + b.size - a {
                    Some(a)
                } else {
                    None
                },
                None => None,
            };
            match fit {
                None => {
                    i += 1;
                },
                Some(a) => {
                    let ghost before = self.free@;
                    assert(before[i as int].size > 0);
                    let end = b.start + b.size;
                    let left = a - b.start;
                    let right = end - (a + size);
                    if size == 0 {
                    } else if left == 0 && right == 0 {
                        self.free.remove(i);
                    } else if left == 0 {
                        self.free[i] = HeapBlock { start: a + size, size: right };
                    } else if right == 0 {
                        self.free[i] = HeapBlock { start: b.start, size: left };
                    } else {
                        self.free[i] = HeapBlock { start: b.start, size: left };
                        self.free.insert(i + 1, HeapBlock { start: a + size, size: right });
                    }
                    if a + size > self.current {
                        self.current = a + size;
                    }
                    proof {
                        let after = self.free@;
                        let lo = self.range.unwrap().0 as int;
                        let hi = self.range.unwrap().1 as int;
                        lemma_carved(before, after, i as int, a as int, size as int, lo, hi);
                        assert forall|x: int| a <= x < a + size implies old(self).is_free(x) by {
                            assert(bytes_free(before, x));
                        }
                        assert forall|x: int|
                            self.is_free(x) <==> old(self).is_free(x) && !(a <= x < a + size) by {
                            assert(bytes_free(after, x) <==> bytes_free(before, x) && !(a <= x < a
                                + size));
                        }
                    }
                    return Some(a);
                },
            }
        }
        None
    }

    /// Gives `size` bytes from `addr` back, and joins them with the free
    /// blocks that they touch. The bytes must lie in the heap and must not
    /// be free.
    pub fn dealloc(&mut self, addr: u64, size: u64)
        requires
            old(self).wf(),
            old(self).range.is_some(),
            size >= 1,
            old(self).range.unwrap().0 <= addr,
            addr + size <= old(self).range.unwrap().1,
            forall|x: int| addr <= x < addr + size ==> !old(self).is_free(x),
        ensures
            final(self).wf(),
            final(self).range == old(self).range,
            final(self).current == old(self).current,
            forall|x: int| final(self).is_free(x) <==> old(self).is_free(x) || addr <= x < addr + size,
    {
        let ghost before = self.free@;
        let ghost lo = self.range.unwrap().0 as int;
        let ghost hi = self.range.unwrap().1 as int;
        let n = self.free.len();
        let mut i: usize = 0;
        while i < n && self.free[i].start < addr
            invariant
                i <= n,
                n == self.free@.len(),
                *self == *old(self),
                forall|j: int| 0 <= j < i ==> (#[trigger] self.free@[j]).start < addr,
            decreases n - i,
        {
            i += 1;
        }
        proof {
            assert forall|x: int| addr <= x < addr + size implies !bytes_free(before, x) by {
                assert(!old(self).is_free(x));
            }
            lemma_gap(before, i as int, addr as int, size as int, lo, hi);
        }
        let joins_prev = i > 0 && self.free[i - 1].start + self.free[i - 1].size == addr;
        let joins_next = i < n && addr + size == self.free[i].start;
        if joins_prev && joins_next {
            let p = self.free[i - 1];
            let q = self.free[i];
            self.free[i - 1] = HeapBlock { start: p.start, size: p.size + size + q.size };
            self.free.remove(i);
        } else if joins_prev {
            let p = self.free[i - 1];
            self.free[i - 1] = HeapBlock { start: p.start, size: p.size + size };
        } else if joins_next {
            let q = self.free[i];
            self.free[i] = HeapBlock { start: addr, size: size + q.size };
        } else {
            self.free.insert(i, HeapBlock { start: addr, size });
        }
        proof {
            lemma_joined(before, self.free@, i as int, addr as int, size as int, lo, hi);
            assert forall|x: int| self.is_free(x) <==> old(self).is_free(x) || addr <= x < addr + size by {
                assert(bytes_free(self.free@, x) <==> bytes_free(before, x) || addr <= x < addr + size);
            }
        }
    }
}

/// What taking `[a, a + size)` out of block `i` leaves: the blocks are in
/// order again, and exactly those bytes are no longer free.
pub proof fn lemma_carved(before: Seq<HeapBlock>, after: Seq<HeapBlock>, i: int, a: int, size: int, lo: int, hi: int)
    requires
        blocks_ordered(before, lo, hi),
        0 <= i < before.len(),
        before[i].start <= a,
        a + size <= before[i].end(),
        size >= 0,
        hi <= u64::MAX,
        ({
            let b = before[i];
            let left = a - b.start;
            let right = b.end() - (a + size);
            let l = HeapBlock { start: b.start, size: left as u64 };
            let r = HeapBlock { start: (a + size) as u64, size: right as u64 };
            if size == 0 {
                after == before
            } else if left == 0 && right == 0 {
                after == before.remove(i)
            } else if left == 0 {
                after == before.update(i, r)
            } else if right == 0 {
                after == before.update(i, l)
            } else {
                after == before.update(i, l).insert(i + 1, r)
            }
        }),
    ensures
        blocks_ordered(after, lo, hi),
        forall|x: int| a <= x < a + size ==> bytes_free(before, x),
        forall|x: int| bytes_free(after, x) <==> bytes_free(before, x) && !(a <= x < a + size),
{
    let b = before[i];
    let left = a - b.start;
    let right = b.end() - (a + size);
    let l = HeapBlock { start: b.start, size: left as u64 };
    let r = HeapBlock { start: (a + size) as u64, size: right as u64 };
    assert forall|x: int| a <= x < a + size implies bytes_free(before, x) by {
        assert(before[i].holds(x));
    }
    if size == 0 {
    } else if left == 0 && right == 0 {
        assert forall|x: int| bytes_free(after, x) <==> bytes_free(before, x) && !(a <= x < a + size) by {
            if bytes_free(after, x) {
                let j = choose|j: int| 0 <= j < after.len() && (#[trigger] after[j]).holds(x);
                if j < i {
                    assert(before[j].holds(x));
                    assert(before[j].end() < before[i].start);
                } else {
                    assert(before[j + 1].holds(x));
                    assert(before[i].end() < before[j + 1].start);
                }
            }
            if bytes_free(before, x) && !(a <= x < a + size) {
                let j = choose|j: int| 0 <= j < before.len() && (#[trigger] before[j]).holds(x);
                if j < i {
                    assert(after[j].holds(x));
                } else {
                    assert(j != i);
                    assert(after[j - 1].holds(x));
                }
            }
        }
        assert forall|j: int, k: int| 0 <= j < k < after.len() implies (#[trigger] after[j]).end() < (
        #[trigger] after[k]).start by {
            let j2 = if j < i {
                j
            } else {
                j + 1
            };
            let k2 = if k < i {
                k
            } else {
                k + 1
            };
            assert(before[j2].end() < before[k2].start);
        }
        assert forall|j: int| 0 <= j < after.len() implies (#[trigger] after[j]).size > 0 && lo
            <= after[j].start && after[j].end() <= hi by {
            let j2 = if j < i {
                j
            } else {
                j + 1
            };
            assert(before[j2].size > 0);
        }
    } else if left == 0 || right == 0 {
        let nb = if left == 0 {
            r
        } else {
            l
        };
        assert(after == before.update(i, nb));
        assert forall|x: int| bytes_free(after, x) <==> bytes_free(before, x) && !(a <= x < a + size) by {
            if bytes_free(after, x) {
                let j = choose|j: int| 0 <= j < after.len() && (#[trigger] after[j]).holds(x);
                if j == i {
                    assert(before[i].holds(x));
                } else {
                    assert(before[j].holds(x));
                    if j < i {
                        assert(before[j].end() < before[i].start);
                    } else {
                        assert(before[i].end() < before[j].start);
                    }
                }
            }
            if bytes_free(before, x) && !(a <= x < a + size) {
                let j = choose|j: int| 0 <= j < before.len() && (#[trigger] before[j]).holds(x);
                assert(after[j].holds(x));
            }
        }
        assert forall|j: int, k: int| 0 <= j < k < after.len() implies (#[trigger] after[j]).end() < (
        #[trigger] after[k]).start by {
            assert(before[j].end() < before[k].start);
        }
        assert forall|j: int| 0 <= j < after.len() implies (#[trigger] after[j]).size > 0 && lo
            <= after[j].start && after[j].end() <= hi by {
            assert(before[j].size > 0);
        }
    } else {
        let mid = before.update(i, l);
        assert(after == mid.insert(i + 1, r));
        assert forall|j: int| 0 <= j < after.len() implies #[trigger] after[j] == if j <= i {
            mid[j]
        } else if j == i + 1 {
            r
        } else {
            mid[j - 1]
        } by {}
        assert forall|x: int| bytes_free(after, x) <==> bytes_free(before, x) && !(a <= x < a + size) by {
            if bytes_free(after, x) {
                let j = choose|j: int| 0 <= j < after.len() && (#[trigger] after[j]).holds(x);
                if j == i || j == i + 1 {
                    assert(before[i].holds(x));
                } else if j < i {
                    assert(before[j].holds(x));
                    assert(before[j].end() < before[i].start);
                } else {
                    assert(before[j - 1].holds(x));
                    assert(before[i].end() < before[j - 1].start);
                }
            }
            if bytes_free(before, x) && !(a <= x < a + size) {
                let j = choose|j: int| 0 <= j < before.len() && (#[trigger] before[j]).holds(x);
                if j < i {
                    assert(after[j].holds(x));
                } else if j == i {
                    if x < a {
                        assert(after[i].holds(x));
                    } else {
                        assert(after[i + 1].holds(x));
                    }
                } else {
                    assert(after[j + 1].holds(x));
                }
            }
        }
        assert forall|j: int, k: int| 0 <= j < k < after.len() implies (#[trigger] after[j]).end() < (
        #[trigger] after[k]).start by {
            let j2 = if j <= i {
                j
            } else {
                j - 1
            };
            let k2 = if k <= i {
                k
            } else {
                k - 1
            };
            if j2 < k2 {
                assert(before[j2].end() < before[k2].start);
            }
        }
        assert forall|j: int| 0 <= j < after.len() implies (#[trigger] after[j]).size > 0 && lo
            <= after[j].start && after[j].end() <= hi by {
            let j2 = if j <= i {
                j
            } else {
                j - 1
            };
            assert(before[j2].size > 0);
        }
    }
}

/// Bytes that are not free and lie between the blocks before position `i`
/// and those from it on do not reach into either.
pub proof fn lemma_gap(blocks: Seq<HeapBlock>, i: int, addr: int, size: int, lo: int, hi: int)
    requires
        blocks_ordered(blocks, lo, hi),
        0 <= i <= blocks.len(),
        size >= 1,
        forall|j: int| 0 <= j < i ==> (#[trigger] blocks[j]).start < addr,
        i < blocks.len() ==> blocks[i].start >= addr,
        forall|x: int| addr <= x < addr + size ==> !bytes_free(blocks, x),
    ensures
        i > 0 ==> blocks[i - 1].end() <= addr,
        i < blocks.len() ==> addr + size <= blocks[i].start,
{
    if i > 0 {
        if blocks[i - 1].end() > addr {
            assert(blocks[i - 1].holds(addr));
            assert(bytes_free(blocks, addr));
        }
    }
    if i < blocks.len() {
        if addr + size > blocks[i].start {
            assert(blocks[i].holds(blocks[i].start as int));
            assert(bytes_free(blocks, blocks[i].start as int));
        }
    }
}

/// What putting `[addr, addr + size)` between the blocks before position
/// `i` and those from it on gives, joined with the blocks it touches: the
/// blocks are in order again, and exactly those bytes are free in addition.
pub proof fn lemma_joined(before: Seq<HeapBlock>, after: Seq<HeapBlock>, i: int, addr: int, size: int, lo: int, hi: int)
    requires
        blocks_ordered(before, lo, hi),
        0 <= i <= before.len(),
        size >= 1,
        0 <= lo <= addr,
        addr + size <= hi,
        hi <= u64::MAX,
        i > 0 ==> before[i - 1].end() <= addr,
        i < before.len() ==> addr + size <= before[i].start,
        ({
            let joins_prev = i > 0 && before[i - 1].end() == addr;
            let joins_next = i < before.len() && addr + size == before[i].start;
            if joins_prev && joins_next {
                after == before.update(
                    i - 1,
                    HeapBlock {
                        start: before[i - 1].start,
                        size: (before[i - 1].size + size + before[i].size) as u64,
                    },
                ).remove(i)
            } else if joins_prev {
                after == before.update(
                    i - 1,
                    HeapBlock { start: before[i - 1].start, size: (before[i - 1].size + size) as u64 },
                )
            } else if joins_next {
                after == before.update(
                    i,
                    HeapBlock { start: addr as u64, size: (size + before[i].size) as u64 },
                )
            } else {
                after == before.insert(i, HeapBlock { start: addr as u64, size: size as u64 })
            }
        }),
    ensures
        blocks_ordered(after, lo, hi),
        forall|x: int| bytes_free(after, x) <==> bytes_free(before, x) || addr <= x < addr + size,
{
    let joins_prev = i > 0 && before[i - 1].end() == addr;
    let joins_next = i < before.len() && addr + size == before[i].start;
    if i > 0 {
        assert(before[i - 1].size > 0);
    }
    if i < before.len() {
        assert(before[i].size > 0);
    }
    if joins_prev && joins_next {
        assert(before[i - 1].end() < before[i].start || true);
        assert forall|j: int| 0 <= j < after.len() implies #[trigger] after[j] == if j < i - 1 {
            before[j]
        } else if j == i - 1 {
            HeapBlock {
                start: before[i - 1].start,
                size: (before[i - 1].size + size + before[i].size) as u64,
            }
        } else {
            before[j + 1]
        } by {}
        assert forall|x: int| bytes_free(after, x) <==> bytes_free(before, x) || addr <= x < addr + size by {
            if bytes_free(after, x) {
                let j = choose|j: int| 0 <= j < after.len() && (#[trigger] after[j]).holds(x);
                if j < i - 1 {
                    assert(before[j].holds(x));
                } else if j == i - 1 {
                    if x < addr {
                        assert(before[i - 1].holds(x));
                    } else if x >= addr + size {
                        assert(before[i].holds(x));
                    }
                } else {
                    assert(before[j + 1].holds(x));
                }
            }
            if bytes_free(before, x) {
                let j = choose|j: int| 0 <= j < before.len() && (#[trigger] before[j]).holds(x);
                if j < i - 1 {
                    assert(after[j].holds(x));
                } else if j == i - 1 || j == i {
                    assert(after[i - 1].holds(x));
                } else {
                    assert(after[j - 1].holds(x));
                }
            }
            if addr <= x < addr + size {
                assert(after[i - 1].holds(x));
            }
        }
        assert forall|j: int, k: int| 0 <= j < k < after.len() implies (#[trigger] after[j]).end() < (
        #[trigger] after[k]).start by {
            let j2 = if j < i - 1 {
                j
            } else {
                j + 1
            };
            let k2 = if k <= i - 1 {
                k
            } else {
                k + 1
            };
            assert(before[j2].end() < before[k2].start);
        }
        assert forall|j: int| 0 <= j < after.len() implies (#[trigger] after[j]).size > 0 && lo
            <= after[j].start && after[j].end() <= hi by {
            let j2 = if j < i {
                j
            } else {
                j + 1
            };
            assert(before[j2].size > 0);
            assert(before[i].end() <= hi);
        }
    } else if joins_prev || joins_next {
        let k0 = if joins_prev {
            i - 1
        } else {
            i
        };
        assert forall|x: int| bytes_free(after, x) <==> bytes_free(before, x) || addr <= x < addr + size by {
            if bytes_free(after, x) {
                let j = choose|j: int| 0 <= j < after.len() && (#[trigger] after[j]).holds(x);
                if j == k0 {
                    if !(addr <= x < addr + size) {
                        assert(before[k0].holds(x));
                    }
                } else {
                    assert(before[j].holds(x));
                }
            }
            if bytes_free(before, x) {
                let j = choose|j: int| 0 <= j < before.len() && (#[trigger] before[j]).holds(x);
                assert(after[j].holds(x));
            }
            if addr <= x < addr + size {
                assert(after[k0].holds(x));
            }
        }
        assert forall|j: int, k: int| 0 <= j < k < after.len() implies (#[trigger] after[j]).end() < (
        #[trigger] after[k]).start by {
            assert(before[j].end() < before[k].start);
            if joins_prev && j == i - 1 {
                assert(k >= i);
                if k > i {
                    assert(before[i].end() < before[k].start);
                }
            }
            if joins_next && k == i {
                if j < i - 1 {
                    assert(before[j].end() < before[i - 1].start);
                }
            }
        }
        assert forall|j: int| 0 <= j < after.len() implies (#[trigger] after[j]).size > 0 && lo
            <= after[j].start && after[j].end() <= hi by {
            assert(before[j].size > 0);
        }
    } else {
        let nb = HeapBlock { start: addr as u64, size: size as u64 };
        assert forall|j: int| 0 <= j < after.len() implies #[trigger] after[j] == if j < i {
            before[j]
        } else if j == i {
            nb
        } else {
            before[j - 1]
        } by {}
        assert forall|x: int| bytes_free(after, x) <==> bytes_free(before, x) || addr <= x < addr + size by {
            if bytes_free(after, x) {
                let j = choose|j: int| 0 <= j < after.len() && (#[trigger] after[j]).holds(x);
                if j < i {
                    assert(before[j].holds(x));
                } else if j > i {
                    assert(before[j - 1].holds(x));
                }
            }
            if bytes_free(before, x) {
                let j = choose|j: int| 0 <= j < before.len() && (#[trigger] before[j]).holds(x);
                if j < i {
                    assert(after[j].holds(x));
                } else {
                    assert(after[j + 1].holds(x));
                }
            }
            if addr <= x < addr + size {
                assert(after[i].holds(x));
            }
        }
        assert forall|j: int, k: int| 0 <= j < k < after.len() implies (#[trigger] after[j]).end() < (
        #[trigger] after[k]).start by {
            let j2 = if j < i {
                j
            } else {
                j - 1
            };
            let k2 = if k < i {
                k
            } else {
                k - 1
            };
            if j != i && k != i {
                assert(before[j2].end() < before[k2].start);
            } else if j == i {
                if k2 > i {
                    assert(before[i].end() < before[k2].start);
                }
            } else {
                if j2 < i - 1 {
                    assert(before[j2].end() < before[i - 1].start);
                }
            }
        }
        assert forall|j: int| 0 <= j < after.len() implies (#[trigger] after[j]).size > 0 && lo
            <= after[j].start && after[j].end() <= hi by {
            if j != i {
                let j2 = if j < i {
                    j
                } else {
                    j - 1
                };
                assert(before[j2].size > 0);
            }
        }
    }
}

/// The face of the heap to the rest of the kernel.
pub struct Allocator {}

} // verus!
