//! Buddy allocator over a contiguous run of frames.
//!
//! The tree is a complete binary tree stored in an array: node `k` has the
//! children `2k` and `2k + 1`, node 1 is the root and slot 0 is unused. Each
//! node stores the size, in frames, of the largest free block below it.

use vstd::prelude::*;
use super::PAGE_SIZE;
use super::frame::Frame;

verus! {

/// The unit of allocation: one frame.
pub const UNIT: u64 = PAGE_SIZE;

/// Largest capacity, in frames, that an allocator is built for.
pub const MAX_UNITS: u64 = 0x4000_0000;

pub open spec fn is_pow2(n: int) -> bool
    decreases n,
{
    if n <= 0 {
        false
    } else if n == 1 {
        true
    } else {
        n % 2 == 0 && is_pow2(n / 2)
    }
}

/// `w` is the least power of two that is at least `x`.
pub open spec fn rounds_up_to(x: int, w: int) -> bool {
    is_pow2(w) && w >= x && (w == 1 || w / 2 < x)
}

/// `w` is the greatest power of two that is at most `x`.
pub open spec fn rounds_down_to(x: int, w: int) -> bool {
    is_pow2(w) && w <= x && x < 2 * w
}

/// Of two different powers of two, the larger is at least twice the smaller.
pub proof fn lemma_pow2_gap(a: int, b: int)
    requires
        is_pow2(a),
        is_pow2(b),
        a < b,
    ensures
        2 * a <= b,
    decreases b,
{
    if a > b / 2 {
        if a > 1 {
            lemma_pow2_gap(a / 2, b / 2);
        }
    }
}

/// Only one power of two rounds `x` up.
pub proof fn lemma_rounds_up_unique(x: int, a: int, b: int)
    requires
        rounds_up_to(x, a),
        rounds_up_to(x, b),
    ensures
        a == b,
{
    if a < b {
        lemma_pow2_gap(a, b);
    } else if b < a {
        lemma_pow2_gap(b, a);
    }
}

/// The least power of two that is at least `x`.
pub open spec fn spec_next_power_of_two(x: int) -> int {
    choose|w: int| rounds_up_to(x, w)
}

pub fn next_power_of_two(x: u64) -> (r: u64)
    requires
        x <= 0x4000_0000_0000_0000,
    ensures
        rounds_up_to(x as int, r as int),
        r == spec_next_power_of_two(x as int),
{

    let mut r: u64 = 1;
    while r < x
        invariant
            x <= 0x4000_0000_0000_0000,
            is_pow2(r as int),
            r >= 1,
            r == 1 || r / 2 < x,
        decreases 0x8000_0000_0000_0000 - r,
    {
        assert(is_pow2(2 * r as int)) by {
            reveal_with_fuel(is_pow2, 2);
        }
        r = r * 2;
    }
    proof {
        assert(rounds_up_to(x as int, r as int));
        lemma_rounds_up_unique(x as int, r as int, spec_next_power_of_two(x as int));
    }
    r
}

pub fn prev_power_of_two(x: u64) -> (r: u64)
    requires
        x >= 1,
    ensures
        rounds_down_to(x as int, r as int),
{
    let mut r: u64 = 1;
    while r <= x / 2
        invariant
            is_pow2(r as int),
            1 <= r <= x,
        decreases x - r,
    {
        assert(is_pow2(2 * r as int)) by {
            reveal_with_fuel(is_pow2, 2);
        }
        r = r * 2;
    }
    r
}

/// The size, in frames, of the block that node `k` stands for.
pub open spec fn node_size(size: int, k: int) -> int
    decreases k,
{
    if k <= 1 {
        size
    } else {
        node_size(size, k / 2) / 2
    }
}

/// Whether `a` is `n` or lies on the way from `n` up to the root.
pub open spec fn on_path(a: int, n: int) -> bool
    decreases n,
{
    if n < 1 {
        false
    } else {
        a == n || on_path(a, n / 2)
    }
}

/// What a node stores given its children: its whole block when both halves are
/// free, else the larger of the two.
pub open spec fn combine(s: int, l: int, r: int) -> int {
    if l + r == s {
        s
    } else if l >= r {
        l
    } else {
        r
    }
}

/// The tree after every node above `m` has taken the larger of its two
/// children, from `m` up to the root.
pub open spec fn mark_from(tree: Seq<u64>, m: int) -> Seq<u64>
    decreases m,
{
    if m <= 1 {
        tree
    } else {
        let a = m / 2;
        let l = tree[2 * a];
        let r = tree[2 * a + 1];
        mark_from(
            tree.update(
                a,
                if l >= r {
                    l
                } else {
                    r
                },
            ),
            a,
        )
    }
}

/// The frame that a tree of single frames hands out next: the free frame with
/// the lowest address.
pub open spec fn buddy_next_frame(tree: Seq<u64>, start: u64, size: u64) -> Option<Frame> {
    if tree[1] == 0 {
        None
    } else {
        Some(Frame { number: (start / UNIT + descend(tree, 1, size as int, 1) - size) as u64 })
    }
}

/// The tree after that frame was handed out.
pub open spec fn buddy_tree_after(tree: Seq<u64>, size: u64) -> Seq<u64> {
    if tree[1] == 0 {
        tree
    } else {
        let leaf = descend(tree, 1, size as int, 1);
        mark_from(tree.update(leaf, 0), leaf)
    }
}

/// Node `k` stores what its children make it.
pub open spec fn node_ok(tree: Seq<u64>, size: int, k: int) -> bool {
    tree[k] == combine(node_size(size, k), tree[2 * k] as int, tree[2 * k + 1] as int)
}

/// The node that a search for a block of `want` frames ends in, starting at
/// node `n` whose block has `sz` frames: left where the left child can hold it,
/// else right.
pub open spec fn descend(tree: Seq<u64>, n: int, sz: int, want: int) -> int
    decreases sz,
{
    if sz <= want || sz <= 1 || 2 * n + 1 >= tree.len() {
        n
    } else if tree[2 * n] >= want {
        descend(tree, 2 * n, sz / 2, want)
    } else {
        descend(tree, 2 * n + 1, sz / 2, want)
    }
}

/// The width of the row that node `k` is in: the greatest power of two that is
/// at most `k`.
pub open spec fn row_width(k: int) -> int
    decreases k,
{
    if k <= 1 {
        1
    } else {
        2 * row_width(k / 2)
    }
}

/// The nodes of one row share the run among them: `row_width(k) * node_size(k)`
/// is the whole capacity.
pub proof fn lemma_row(size: int, k: int)
    requires
        is_pow2(size),
        1 <= k < 2 * size,
    ensures
        is_pow2(row_width(k)),
        is_pow2(node_size(size, k)),
        row_width(k) <= k < 2 * row_width(k),
        row_width(k) * node_size(size, k) == size,
        node_size(size, k) >= 1,
        k < size ==> node_size(size, k) >= 2 && node_size(size, k) % 2 == 0,
        k >= size ==> node_size(size, k) == 1,
    decreases k,
{
    if k == 1 {
        assert(1 * size == size);
    } else {
        let h = k / 2;
        lemma_row(size, h);
        let wh = row_width(h);
        let nh = node_size(size, h);
        assert(h < size);
        assert(is_pow2(nh / 2));
        assert(is_pow2(2 * wh)) by {
            reveal_with_fuel(is_pow2, 2);
        }
        assert(row_width(k) == 2 * wh);
        assert(node_size(size, k) == nh / 2);
        assert((2 * wh) * (nh / 2) == size) by (nonlinear_arith)
            requires
                wh * nh == size,
                nh % 2 == 0,
        ;
        let w = 2 * wh;
        let n = nh / 2;
        assert(k < size ==> n >= 2) by (nonlinear_arith)
            requires
                w * n == size,
                w <= k,
                n >= 1,
        ;
        if k >= size && n >= 2 {
            assert(w * n >= 2 * w) by (nonlinear_arith)
                requires
                    n >= 2,
                    w >= 1,
            ;
        }
    }
}

/// Nodes on the row of width `w` stand for blocks of `size / w` frames.
pub proof fn lemma_node_size(size: int, k: int, w: int, sz: int)
    requires
        is_pow2(w),
        sz >= 1,
        w * sz == size,
        w <= k < 2 * w,
    ensures
        node_size(size, k) == sz,
    decreases w,
{
    if w == 1 {
        assert(k == 1);
        assert(sz == size) by (nonlinear_arith)
            requires
                w * sz == size,
                w == 1,
        ;
    } else {
        assert(w % 2 == 0 && is_pow2(w / 2));
        assert((w / 2) * (2 * sz) == size) by (nonlinear_arith)
            requires
                w % 2 == 0,
                w * sz == size,
        ;
        lemma_node_size(size, k / 2, w / 2, 2 * sz);
        assert(k > 1);
        assert(node_size(size, k) == node_size(size, k / 2) / 2);
    }
}

/// Going up from a node keeps you on the way from any node below it.
pub proof fn lemma_on_path_up(a: int, n: int)
    requires
        on_path(a, n),
        a / 2 >= 1,
    ensures
        on_path(a / 2, n),
    decreases n,
{
    if a == n {
        assert(on_path(a / 2, n / 2));
    } else {
        lemma_on_path_up(a, n / 2);
    }
}

/// A node on the way up from `n` is no larger than `n`.
pub proof fn lemma_on_path_le(a: int, n: int)
    requires
        on_path(a, n),
    ensures
        1 <= a <= n,
    decreases n,
{
    if a != n {
        lemma_on_path_le(a, n / 2);
    }
}

#[derive(Debug)]
pub struct BuddyAllocator {
    /// Physical address of the first frame.
    pub start: u64,
    /// Capacity in frames, a power of two.
    pub size: u64,
    pub tree: Vec<u64>,
}

/// The first node with a zero on the way from `n` up to the root, or 0.
pub open spec fn find_block(tree: Seq<u64>, n: int) -> int
    decreases n,
{
    if n < 1 || n >= tree.len() {
        0
    } else if tree[n] == 0 {
        n
    } else {
        find_block(tree, n / 2)
    }
}

impl BuddyAllocator {
    /// The array has the shape of a tree over `size` frames and no node claims
    /// more than its block.
    pub open spec fn shape(self) -> bool {
        &&& 1 <= self.size <= MAX_UNITS
        &&& is_pow2(self.size as int)
        &&& self.tree@.len() == 2 * self.size
        &&& self.tree@[0] == 0
        &&& self.start + self.size * UNIT <= u64::MAX
        &&& forall|k: int|
            1 <= k < 2 * self.size ==> #[trigger] self.tree@[k] <= node_size(self.size as int, k)
    }

    /// Every block in use is a single frame: each leaf is 0 (in use) or 1
    /// (free), and each inner node is what its children make it.
    pub open spec fn wf(self) -> bool {
        &&& self.shape()
        &&& self.start % UNIT == 0
        &&& forall|k: int|
            self.size <= k < 2 * self.size ==> #[trigger] self.tree@[k] == 0 || self.tree@[k] == 1
        &&& forall|k: int|
            1 <= k < self.size ==> #[trigger] node_ok(self.tree@, self.size as int, k as int)
    }

    /// The tree by itself, wherever the run of frames lies: it has the
    /// shape of a tree over `size` frames, each leaf is 0 or 1, and each
    /// inner node is what its children make it.
    pub open spec fn tree_ok(self) -> bool {
        &&& 1 <= self.size <= MAX_UNITS
        &&& is_pow2(self.size as int)
        &&& self.tree@.len() == 2 * self.size
        &&& self.tree@[0] == 0
        &&& forall|k: int|
            1 <= k < 2 * self.size ==> #[trigger] self.tree@[k] <= node_size(self.size as int, k)
        &&& forall|k: int|
            self.size <= k < 2 * self.size ==> #[trigger] self.tree@[k] == 0 || self.tree@[k] == 1
        &&& forall|k: int|
            1 <= k < self.size ==> #[trigger] node_ok(self.tree@, self.size as int, k as int)
    }

    /// Whether frame `j` of the run, counted from 0, is free.
    pub open spec fn is_free(self, j: int) -> bool {
        0 <= j < self.size && self.tree@[self.size + j] == 1
    }

    /// The frames in use, counted from 0.
    pub open spec fn allocated(self) -> Set<int> {
        Set::new(|j: int| 0 <= j < self.size && self.tree@[self.size + j] == 0)
    }

    /// Size of the largest free block, in frames.
    pub open spec fn root_free(self) -> int {
        self.tree@[1] as int
    }

    /// The physical address of the block of node `n`, whose block has `sz` frames.
    pub open spec fn spec_address_of(self, n: int, sz: int) -> int {
        self.start + (n * sz - self.size) * UNIT
    }

    /// An allocator over the largest power-of-two number of whole frames that
    /// fits in `size` bytes from `start`, all of them free. Frames can be
    /// taken from it where the run starts at a frame and ends within the
    /// address space.
    pub fn new(start: u64, size: u64) -> (b: BuddyAllocator)
        requires
            size >= UNIT,
            size / UNIT <= MAX_UNITS,
        ensures
            b.tree_ok(),
            start % UNIT == 0 && start + size <= u64::MAX ==> b.wf(),
            forall|k: int| 1 <= k < 2 * b.size ==> #[trigger] b.tree@[k] == node_size(b.size as int, k),
            b.start == start,
            rounds_down_to((size / UNIT) as int, b.size as int),
            b.allocated() =~= Set::<int>::empty(),
            b.root_free() == b.size,
    {
        let units = prev_power_of_two(size / UNIT);
        let len: usize = (units * 2) as usize;
        let mut tree: Vec<u64> = Vec::new();
        tree.push(0);
        tree.push(units);
        let mut i: usize = 2;
        while i < len
            invariant
                len == 2 * units,
                tree@.len() == i,
                2 <= i <= len,
                tree@[0] == 0,
                forall|k: int| 1 <= k < i ==> #[trigger] tree@[k] == node_size(units as int, k),
            decreases len - i,
        {
            let half = tree[i / 2] / 2;
            tree.push(half);
            i += 1;
        }
        let b = BuddyAllocator { start, size: units, tree };
        proof {
            assert forall|k: int| 1 <= k < 2 * b.size implies (#[trigger] b.tree@[k] <= node_size(
                b.size as int,
                k,
            ) && (k >= b.size ==> b.tree@[k] == 1)) by {
                lemma_row(units as int, k);
            }
            assert forall|k: int| 1 <= k < b.size implies #[trigger] node_ok(b.tree@, b.size as int, k as int) by {
                lemma_row(units as int, k);
                assert((2 * k + 1) / 2 == k);
                assert(b.tree@[2 * k] == node_size(units as int, 2 * k));
                assert(b.tree@[2 * k + 1] == node_size(units as int, 2 * k + 1));
            }
            if start + size <= u64::MAX {
                assert(b.start + b.size * UNIT <= u64::MAX) by (nonlinear_arith)
                    requires
                        b.size <= size / 4096,
                        b.start + size <= u64::MAX,
                        UNIT == 4096,
                ;
            }
            lemma_row(units as int, 1);
        }
        b
    }

    /// The physical address of the block of node `n`, whose block has `sz` frames.
    fn address_of(&self, n: usize, sz: u64, Ghost(w): Ghost<int>) -> (a: u64)
        requires
            self.shape(),
            w * sz == self.size,
            w <= n < 2 * w,
            sz >= 1,
        ensures
            a == self.spec_address_of(n as int, sz as int),
            self.start <= a,
            a + sz * UNIT <= self.start + self.size * UNIT,
    {
        proof {
            assert(self.size <= n * sz && n * sz + sz <= 2 * self.size) by (nonlinear_arith)
                requires
                    w * sz == self.size,
                    w <= n < 2 * w,
                    sz >= 1,
            ;
            assert((n * sz - self.size) * UNIT + sz * UNIT <= self.size * UNIT) by (nonlinear_arith)
                requires
                    n * sz + sz <= 2 * self.size,
            ;
        }
        let offset = (n as u64) * sz - self.size;
        self.start + offset * UNIT
    }

    /// Marks node `n` as in use and lets every node above it store the larger
    /// of its two children.
    fn mark_used(&mut self, n: usize, Ghost(w): Ghost<int>, Ghost(sz): Ghost<int>)
        requires
            old(self).shape(),
            is_pow2(w),
            w * sz == old(self).size,
            w <= n < 2 * w,
            sz >= 1,
        ensures
            final(self).shape(),
            final(self).start == old(self).start,
            final(self).size == old(self).size,
            final(self).tree@[n as int] == 0,
            final(self).tree@ == mark_from(old(self).tree@.update(n as int, 0), n as int),
            forall|k: int|
                0 <= k < 2 * old(self).size && !on_path(k, n as int) ==> final(self).tree@[k] == old(self).tree@[k],
            forall|a: int|
                #[trigger] on_path(a, n as int / 2) ==> final(self).tree@[a] == vstd::math::max(
                    final(self).tree@[2 * a] as int,
                    final(self).tree@[2 * a + 1] as int,
                ),
            old(self).wf() && sz == 1 ==> final(self).wf(),
    {
        let ghost n0 = n as int;
        proof {
            assert(n < 2 * self.size) by (nonlinear_arith)
                requires
                    w * sz == self.size,
                    n < 2 * w,
                    sz >= 1,
            ;
            lemma_row(self.size as int, n0);
            lemma_node_size(self.size as int, n0, w, sz);
        }
        self.tree[n] = 0;
        let mut m = n;
        proof {
            assert forall|a: int| #[trigger] on_path(a, n0 / 2) && a >= m implies self.tree@[a]
                == vstd::math::max(self.tree@[2 * a] as int, self.tree@[2 * a + 1] as int) by {
                lemma_on_path_le(a, n0 / 2);
            }
            if old(self).wf() && sz == 1 {
                assert forall|k: int| 1 <= k < self.size && !on_path(k, m as int / 2) implies #[trigger] node_ok(self.tree@, self.size as int, k as int) by {
                    assert(node_ok(old(self).tree@, self.size as int, k));
                    if 2 * k == n0 || 2 * k + 1 == n0 {
                        assert(k == n0 / 2);
                    }
                }
            }
        }
        while m > 1
            invariant
                self.start == old(self).start,
                self.size == old(self).size,
                old(self).shape(),
                self.tree@.len() == 2 * self.size,
                self.tree@[0] == 0,
                1 <= m <= n0 < 2 * self.size,
                on_path(m as int, n0),
                self.tree@[n0] == 0,
                mark_from(self.tree@, m as int) == mark_from(old(self).tree@.update(n0, 0), n0),
                forall|k: int|
                    1 <= k < 2 * self.size ==> #[trigger] self.tree@[k] <= node_size(
                        self.size as int,
                        k,
                    ),
                forall|k: int|
                    0 <= k < 2 * self.size && !on_path(k, n0) ==> self.tree@[k] == old(self).tree@[k],
                forall|a: int|
                    #[trigger] on_path(a, n0 / 2) && a >= m ==> self.tree@[a] == vstd::math::max(
                        self.tree@[2 * a] as int,
                        self.tree@[2 * a + 1] as int,
                    ),
                old(self).wf() && sz == 1 ==> {
                    &&& forall|k: int|
                        self.size <= k < 2 * self.size ==> #[trigger] self.tree@[k] == 0
                            || self.tree@[k] == 1
                    &&& forall|k: int|
                        1 <= k < self.size && !on_path(k, m as int / 2) ==> #[trigger] node_ok(self.tree@, self.size as int, k as int)
                    &&& self.tree@[m as int] < node_size(self.size as int, m as int)
                },
            decreases m,
        {
            let ghost cur = m as int;
            let ghost before = self.tree@;
            m = m / 2;
            proof {
                lemma_on_path_up(cur, n0);
                lemma_row(self.size as int, m as int);
                lemma_row(self.size as int, 2 * m as int);
                lemma_row(self.size as int, 2 * m as int + 1);
                assert((2 * m + 1) / 2 == m as int);
                assert(node_size(self.size as int, 2 * m as int) == node_size(
                    self.size as int,
                    m as int,
                ) / 2);
                assert(node_size(self.size as int, 2 * m as int + 1) == node_size(
                    self.size as int,
                    m as int,
                ) / 2);
            }
            let l = self.tree[m * 2];
            let r = self.tree[m * 2 + 1];
            self.tree[m] = if l >= r {
                l
            } else {
                r
            };
            proof {
                let a = m as int;
                assert(cur == 2 * a || cur == 2 * a + 1);
                assert(on_path(a, n0 / 2)) by {
                    if cur != n0 {
                        lemma_on_path_up(cur, n0 / 2);
                    }
                }
                assert forall|b: int| #[trigger] on_path(b, n0 / 2) && b >= a implies self.tree@[b]
                    == vstd::math::max(self.tree@[2 * b] as int, self.tree@[2 * b + 1] as int) by {
                    if b != a {
                        lemma_on_path_le(b, n0 / 2);
                        assert(on_path(b, n0));
                        lemma_on_path_total(b, cur, n0);
                        if on_path(b, cur) && b != cur {
                            lemma_on_path_le(b, cur / 2);
                        }
                        if on_path(cur, b) {
                            lemma_on_path_le(cur, b);
                        }
                        assert(b >= cur);
                        assert(before[b] == vstd::math::max(
                            before[2 * b] as int,
                            before[2 * b + 1] as int,
                        ));
                    }
                }
                if old(self).wf() && sz == 1 {
                    assert forall|k: int|
                        1 <= k < self.size && !on_path(k, a / 2) implies #[trigger] node_ok(self.tree@, self.size as int, k as int) by {
                        if k != a {
                            assert(!on_path(k, a));
                            assert(!on_path(k, cur / 2));
                            assert(node_ok(before, self.size as int, k));
                            if 2 * k == a || 2 * k + 1 == a {
                                assert(k == a / 2);
                            }
                        }
                    }
                }
            }
        }
        proof {
            assert forall|a: int| #[trigger] on_path(a, n0 / 2) implies self.tree@[a]
                == vstd::math::max(self.tree@[2 * a] as int, self.tree@[2 * a + 1] as int) by {
                lemma_on_path_le(a, n0 / 2);
            }
            if old(self).wf() && sz == 1 {
                assert forall|k: int| 1 <= k < self.size implies #[trigger] node_ok(self.tree@, self.size as int, k as int) by {
                    assert(!on_path(k, 0));
                }
            }
        }
    }
}

/// Two nodes on one way up are in line: one lies on the way up from the other.
pub proof fn lemma_on_path_total(b: int, c: int, n: int)
    requires
        on_path(b, n),
        on_path(c, n),
    ensures
        on_path(b, c) || on_path(c, b),
    decreases n,
{
    if b == n {
    } else if c == n {
    } else {
        lemma_on_path_total(b, c, n / 2);
    }
}

/// A node that stores 0 in a tree of single frames has no free frame below it.
pub proof fn lemma_zero_subtree(b: BuddyAllocator, n: int, w: int, sz: int, base: int)
    requires
        b.wf(),
        is_pow2(w),
        is_pow2(sz),
        w * sz == b.size,
        w <= n < 2 * w,
        base == n * sz,
        b.tree@[n] == 0,
    ensures
        b.size <= base,
        base + sz <= 2 * b.size,
        forall|k: int| base <= k < base + sz ==> b.tree@[k] == 0,
    decreases sz,
{
    assert(b.size <= n * sz && n * sz + sz <= 2 * b.size) by (nonlinear_arith)
        requires
            w * sz == b.size,
            w <= n < 2 * w,
            sz >= 1,
    ;
    if sz == 1 {
        assert(n * 1 == n) by (nonlinear_arith);
    } else {
        lemma_node_size(b.size as int, n, w, sz);
        assert(n < b.size) by (nonlinear_arith)
            requires
                w * sz == b.size,
                n < 2 * w,
                sz >= 2,
        ;
        assert(node_ok(b.tree@, b.size as int, n));
        assert(is_pow2(2 * w)) by {
            reveal_with_fuel(is_pow2, 2);
        }
        assert((2 * w) * (sz / 2) == b.size) by (nonlinear_arith)
            requires
                w * sz == b.size,
                sz % 2 == 0,
        ;
        assert((2 * n) * (sz / 2) == base && (2 * n + 1) * (sz / 2) == base + sz / 2)
            by (nonlinear_arith)
            requires
                base == n * sz,
                sz % 2 == 0,
        ;
        assert(b.tree@[2 * n] == 0 && b.tree@[2 * n + 1] == 0);
        lemma_zero_subtree(b, 2 * n, 2 * w, sz / 2, base);
        lemma_zero_subtree(b, 2 * n + 1, 2 * w, sz / 2, base + sz / 2);
        assert forall|k: int| base <= k < base + sz implies b.tree@[k] == 0 by {
            if k < base + sz / 2 {
            } else {
            }
        }
    }
}

/// In a tree of single frames each node is fixed by the leaves: two trees over
/// the same frames in use agree at every node.
pub proof fn lemma_node_determined(a: BuddyAllocator, b: BuddyAllocator, k: int)
    requires
        a.wf(),
        b.wf(),
        a.size == b.size,
        a.allocated() == b.allocated(),
        1 <= k < 2 * a.size,
    ensures
        a.tree@[k] == b.tree@[k],
    decreases 2 * a.size - k,
{
    if k >= a.size {
        let j = k - a.size;
        assert(a.allocated().contains(j) == b.allocated().contains(j));
        assert(a.tree@[a.size + j] == a.tree@[k]);
        assert(b.tree@[b.size + j] == b.tree@[k]);
        assert(a.tree@[k] == 0 || a.tree@[k] == 1);
        assert(b.tree@[k] == 0 || b.tree@[k] == 1);
        assert(a.allocated().contains(j) <==> a.tree@[a.size + j] == 0);
        assert(b.allocated().contains(j) <==> b.tree@[b.size + j] == 0);
        assert(a.tree@[k] == b.tree@[k]);
    } else {
        lemma_node_determined(a, b, 2 * k);
        lemma_node_determined(a, b, 2 * k + 1);
        assert(node_ok(a.tree@, a.size as int, k));
        assert(node_ok(b.tree@, b.size as int, k));
        assert(a.tree@[k] == b.tree@[k]);
    }
}

/// Handing frames out and taking them back, in whatever order, leaves no
/// trace: an allocator in which the same frames are in use as before has the
/// same tree as before, and so the same free size at its root.
pub proof fn lemma_tree_determined_by_frames_in_use(a: BuddyAllocator, b: BuddyAllocator)
    requires
        a.wf(),
        b.wf(),
        a.size == b.size,
        a.allocated() == b.allocated(),
    ensures
        a.tree@ == b.tree@,
        a.root_free() == b.root_free(),
{
    assert forall|k: int| 0 <= k < a.tree@.len() implies a.tree@[k] == b.tree@[k] by {
        if k >= 1 {
            lemma_node_determined(a, b, k);
        }
    }
    assert(a.tree@ =~= b.tree@);
    lemma_node_determined(a, b, 1);
}

/// With no frame in use the whole run is one free block.
pub proof fn lemma_all_free_root(b: BuddyAllocator, k: int)
    requires
        b.wf(),
        b.allocated() =~= Set::<int>::empty(),
        1 <= k < 2 * b.size,
    ensures
        b.tree@[k] == node_size(b.size as int, k),
    decreases 2 * b.size - k,
{
    lemma_row(b.size as int, k);
    if k >= b.size {
        let j = k - b.size;
        assert(!b.allocated().contains(j));
        assert(b.tree@[b.size + j] == b.tree@[k]);
    } else {
        lemma_all_free_root(b, 2 * k);
        lemma_all_free_root(b, 2 * k + 1);
        assert(node_ok(b.tree@, b.size as int, k));
        assert((2 * k + 1) / 2 == k);
        assert(node_size(b.size as int, 2 * k) == node_size(b.size as int, k) / 2);
        assert(node_size(b.size as int, 2 * k + 1) == node_size(b.size as int, k) / 2);
    }
}

/// Each inner node of a tree of single frames stores its own block size or
/// what one of its two children stores.
pub proof fn lemma_node_is_size_or_child(b: BuddyAllocator, k: int)
    requires
        b.wf(),
        1 <= k < b.size,
    ensures
        b.tree@[k] == node_size(b.size as int, k) || b.tree@[k] == b.tree@[2 * k] || b.tree@[k]
            == b.tree@[2 * k + 1],
{
    assert(node_ok(b.tree@, b.size as int, k));
}

impl BuddyAllocator {
    /// Looks for a free block of the least power-of-two number of frames that
    /// holds `size` bytes: from the root, left where the left child can hold
    /// it, else right. Marks the block used and returns its address.
    pub fn allocate(&mut self, size: u64) -> (r: Option<u64>)
        requires
            old(self).shape(),
        ensures
            final(self).shape(),
            final(self).start == old(self).start,
            final(self).size == old(self).size,
            r.is_none() <==> spec_next_power_of_two((size / UNIT) as int) > old(self).tree@[1],
            r.is_none() ==> final(self).tree@ == old(self).tree@,
            r.is_some() ==> ({
                let want = spec_next_power_of_two((size / UNIT) as int);
                let n = descend(old(self).tree@, 1, old(self).size as int, want);
                &&& 1 <= n < 2 * old(self).size
                &&& r.unwrap() == old(self).spec_address_of(n, want)
                &&& final(self).tree@ == mark_from(old(self).tree@.update(n, 0), n)
                &&& final(self).tree@[n] == 0
                &&& forall|k: int|
                    0 <= k < 2 * old(self).size && !on_path(k, n) ==> final(self).tree@[k] == old(self).tree@[k]
                &&& forall|a: int|
                    #[trigger] on_path(a, n / 2) ==> final(self).tree@[a] == vstd::math::max(
                        final(self).tree@[2 * a] as int,
                        final(self).tree@[2 * a + 1] as int,
                    )
            }),
            old(self).wf() && size / UNIT <= 1 ==> final(self).wf() && match r {
                None => forall|j: int| !old(self).is_free(j),
                Some(a) => ({
                    let j = (a - old(self).start) / (UNIT as int);
                    &&& a == old(self).start + j * UNIT
                    &&& old(self).is_free(j)
                    &&& forall|i: int| 0 <= i < j ==> !old(self).is_free(i)
                    &&& final(self).allocated() == old(self).allocated().insert(j)
                }),
            },
    {
        let want = next_power_of_two(size / UNIT);
        proof {
            lemma_row(self.size as int, 1);
            if size / UNIT <= 1 {
                assert(rounds_up_to((size / UNIT) as int, 1));
                lemma_rounds_up_unique((size / UNIT) as int, 1, want as int);
            }
        }
        if want == 0 || want > self.tree[1] {
            proof {
                if self.wf() && size / UNIT <= 1 {
                    assert(self.tree@[1] == 0);
                    lemma_zero_subtree(*self, 1, 1, self.size as int, self.size as int);
                    assert forall|j: int| !self.is_free(j) by {
                        if 0 <= j < self.size {
                            assert(self.tree@[self.size + j] == 0);
                        }
                    }
                }
            }
            return None;
        }
        let mut n: usize = 1;
        let mut sz: u64 = self.size;
        let ghost mut w: int = 1;
        let ghost unit_mode = self.wf() && size / UNIT <= 1;
        while sz > want
            invariant
                self == old(self),
                self.shape(),
                is_pow2(w),
                is_pow2(sz as int),
                is_pow2(want as int),
                w * sz == self.size,
                w <= n < 2 * w,
                want <= sz,
                want <= self.tree@[1],
                unit_mode == (self.wf() && size / UNIT <= 1),
                descend(self.tree@, n as int, sz as int, want as int) == descend(
                    self.tree@,
                    1,
                    self.size as int,
                    want as int,
                ),
                unit_mode ==> want == 1 && self.tree@[n as int] >= 1 && forall|k: int|
                    self.size <= k < n * sz ==> self.tree@[k] == 0,
            decreases sz,
        {
            proof {
                lemma_pow2_gap(want as int, sz as int);
                assert(n < self.size && 2 * n + 1 < 2 * self.size) by (nonlinear_arith)
                    requires
                        w * sz == self.size,
                        n < 2 * w,
                        sz >= 2,
                ;
                assert(is_pow2(2 * w)) by {
                    reveal_with_fuel(is_pow2, 2);
                }
                assert((2 * w) * (sz / 2) == self.size) by (nonlinear_arith)
                    requires
                        w * sz == self.size,
                        sz % 2 == 0,
                ;
                assert((2 * n) * (sz / 2) == n * sz && (2 * n + 1) * (sz / 2) == n * sz + sz / 2)
                    by (nonlinear_arith)
                    requires
                        sz % 2 == 0,
                ;
                if unit_mode {
                    lemma_node_size(self.size as int, n as int, w, sz as int);
                    assert(node_ok(self.tree@, self.size as int, n as int));
                    if self.tree@[2 * n] < want {
                        lemma_zero_subtree(*self, 2 * n, 2 * w, sz as int / 2, n * sz);
                    }
                }
            }
            n = if self.tree[n * 2] >= want {
                n * 2
            } else {
                n * 2 + 1
            };
            sz = sz / 2;
            proof {
                w = 2 * w;
            }
        }
        let ghost leaf = n as int;
        proof {
            assert(n * sz < 2 * self.size && self.size <= n * sz && n <= n * sz) by (nonlinear_arith)
                requires
                    w * sz == self.size,
                    w <= n < 2 * w,
                    sz >= 1,
            ;
            if unit_mode {
                assert(n * sz == n) by (nonlinear_arith)
                    requires
                        sz == 1,
                ;
                assert(w == self.size) by (nonlinear_arith)
                    requires
                        w * sz == self.size,
                        sz == 1,
                ;
                assert(self.tree@[leaf] == 1);
            }
        }
        let a = self.address_of(n, sz, Ghost(w));
        self.mark_used(n, Ghost(w), Ghost(sz as int));
        proof {
            assert(sz == want);
            assert(want == spec_next_power_of_two((size / UNIT) as int));
            assert(leaf == descend(old(self).tree@, 1, old(self).size as int, want as int));
            assert(1 <= leaf < 2 * old(self).size);
            assert(a == old(self).spec_address_of(leaf, want as int));
            assert(self.tree@[leaf] == 0);
            if unit_mode {
                let j = leaf - self.size;
                assert((a - self.start) / (UNIT as int) == j) by (nonlinear_arith)
                    requires
                        a - self.start == (leaf * 1 - self.size) * UNIT,
                        j == leaf - self.size,
                        UNIT == 4096,
                ;
                assert(old(self).is_free(j));
                assert forall|i: int| 0 <= i < j implies !old(self).is_free(i) by {
                    assert(old(self).tree@[self.size + i] == 0);
                }
                assert forall|k: int| self.size <= k < 2 * self.size && k != leaf implies self.tree@[k]
                    == old(self).tree@[k] by {
                    if on_path(k, leaf) {
                        lemma_on_path_le(k, leaf / 2);
                    }
                }
                assert(self.allocated() =~= old(self).allocated().insert(j));
            }
        }
        Some(a)
    }

    /// Gives back the block in use that holds `addr`: the first node marked
    /// used on the way up from the frame of `addr`. Its ancestors store their
    /// whole block again where both halves are free. An address outside the
    /// run, or in no block in use, changes nothing.
    pub fn dealloc(&mut self, addr: u64)
        requires
            old(self).shape(),
        ensures
            final(self).shape(),
            final(self).start == old(self).start,
            final(self).size == old(self).size,
            addr < old(self).start || (addr - old(self).start) / (UNIT as int) >= old(self).size
                ==> final(self).tree@ == old(self).tree@,
            addr >= old(self).start && (addr - old(self).start) / (UNIT as int) < old(self).size
                ==> ({
                let leaf = old(self).size + (addr - old(self).start) / (UNIT as int);
                let b = find_block(old(self).tree@, leaf);
                &&& b == 0 ==> final(self).tree@ == old(self).tree@
                &&& b >= 1 ==> {
                    &&& final(self).tree@[b] == node_size(old(self).size as int, b)
                    &&& forall|k: int|
                        0 <= k < 2 * old(self).size && !on_path(k, b) ==> final(self).tree@[k]
                            == old(self).tree@[k]
                    &&& forall|a: int|
                        #[trigger] on_path(a, b / 2) ==> node_ok(final(self).tree@, old(self).size as int, a as int)
                }
            }),
            old(self).wf() ==> final(self).wf() && final(self).allocated() == old(self).allocated().remove(
                if addr >= old(self).start {
                    (addr - old(self).start) / (UNIT as int)
                } else {
                    -1
                },
            ),
    {
        if addr < self.start {
            proof {
                assert(self.allocated() =~= self.allocated().remove(-1));
            }
            return ;
        }
        let offset = (addr - self.start) / UNIT;
        if offset >= self.size {
            proof {
                assert(self.allocated() =~= self.allocated().remove(offset as int));
            }
            return ;
        }
        let ghost leaf = (offset + self.size) as int;
        let mut size: u64 = 1;
        let mut n: usize = (offset + self.size) as usize;
        let ghost mut w: int = self.size as int;
        proof {
            assert(w * 1 == self.size) by (nonlinear_arith)
                requires
                    w == self.size,
            ;
        }
        while n >= 1 && self.tree[n] != 0
            invariant
                self == old(self),
                self.shape(),
                n <= leaf < 2 * self.size,
                leaf >= self.size,
                n >= 1 ==> is_pow2(w) && is_pow2(size as int) && w * size == self.size && w <= n < 2
                    * w,
                n >= 1 ==> on_path(n as int, leaf),
                n == 0 ==> find_block(self.tree@, leaf) == 0,
                find_block(self.tree@, n as int) == find_block(self.tree@, leaf),
                self.wf() && self.tree@[leaf] != 0 ==> (n >= 1 ==> self.tree@[n as int] >= 1),
                self.wf() && self.tree@[leaf] == 0 ==> n == leaf,
            decreases n,
        {
            let ghost cur = n as int;
            n = n / 2;
            proof {
                assert(find_block(self.tree@, cur) == find_block(self.tree@, cur / 2));
                assert(find_block(self.tree@, 0) == 0);
                if n >= 1 {
                    lemma_on_path_up(cur, leaf);
                    assert(w >= 2);
                    assert(is_pow2(2 * size)) by {
                        reveal_with_fuel(is_pow2, 2);
                    }
                    assert((w / 2) * (2 * size) == self.size) by (nonlinear_arith)
                        requires
                            w * size == self.size,
                            w % 2 == 0,
                    ;
                    assert(2 * size <= self.size) by (nonlinear_arith)
                        requires
                            (w / 2) * (2 * size) == self.size,
                            w / 2 >= 1,
                    ;
                    if self.wf() {
                        lemma_row(self.size as int, n as int);
                        assert(n < self.size);
                        assert(node_ok(self.tree@, self.size as int, n as int));
                        assert(cur == 2 * n || cur == 2 * n + 1);
                    }
                    w = w / 2;
                } else {
                    assert(cur == 1);
                }
            }
            if n >= 1 {
                size = size * 2;
            }
        }
        if n == 0 {
            proof {
                if self.wf() {
                    assert(self.tree@[leaf] == 1);
                    assert(!self.allocated().contains(offset as int));
                    assert(self.allocated() =~= self.allocated().remove(offset as int));
                }
            }
            return ;
        }
        let ghost b = n as int;
        proof {
            lemma_node_size(self.size as int, b, w, size as int);
            lemma_row(self.size as int, b);
        }
        self.tree[n] = size;
        proof {
            assert forall|a: int| #[trigger] on_path(a, b / 2) && a >= n implies node_ok(self.tree@, self.size as int, a as int) by {
                lemma_on_path_le(a, b / 2);
            }
            if old(self).wf() {
                assert forall|k: int| 1 <= k < self.size && !on_path(k, n as int / 2) implies #[trigger] node_ok(self.tree@, self.size as int, k as int) by {
                    assert(node_ok(old(self).tree@, self.size as int, k));
                    if 2 * k == b || 2 * k + 1 == b {
                        assert(k == b / 2);
                    }
                }
            }
        }
        while n > 1
            invariant
                self.start == old(self).start,
                self.size == old(self).size,
                old(self).shape(),
                self.tree@.len() == 2 * self.size,
                self.tree@[0] == 0,
                1 <= n <= b < 2 * self.size,
                on_path(n as int, b),
                is_pow2(w),
                is_pow2(size as int),
                w * size == self.size,
                w <= n < 2 * w,
                self.tree@[b] == node_size(self.size as int, b),
                forall|k: int|
                    1 <= k < 2 * self.size ==> #[trigger] self.tree@[k] <= node_size(
                        self.size as int,
                        k,
                    ),
                forall|k: int|
                    0 <= k < 2 * self.size && !on_path(k, b) ==> self.tree@[k] == old(self).tree@[k],
                forall|a: int|
                    #[trigger] on_path(a, b / 2) && a >= n ==> node_ok(self.tree@, self.size as int, a as int),
                old(self).wf() ==> {
                    &&& b == leaf
                    &&& forall|k: int|
                        self.size <= k < 2 * self.size ==> #[trigger] self.tree@[k] == 0
                            || self.tree@[k] == 1
                    &&& forall|k: int|
                        1 <= k < self.size && !on_path(k, n as int / 2) ==> #[trigger] node_ok(self.tree@, self.size as int, k as int)
                },
            decreases n,
        {
            let ghost cur = n as int;
            let ghost before = self.tree@;
            n = n / 2;
            proof {
                lemma_on_path_up(cur, b);
                assert(w >= 2);
                assert(is_pow2(2 * size)) by {
                    reveal_with_fuel(is_pow2, 2);
                }
                assert((w / 2) * (2 * size) == self.size) by (nonlinear_arith)
                    requires
                        w * size == self.size,
                        w % 2 == 0,
                ;
                assert(2 * size <= self.size) by (nonlinear_arith)
                    requires
                        (w / 2) * (2 * size) == self.size,
                        w / 2 >= 1,
                ;
                w = w / 2;
                lemma_node_size(self.size as int, n as int, w, 2 * size);
                lemma_row(self.size as int, n as int);
                lemma_row(self.size as int, 2 * n as int);
                lemma_row(self.size as int, 2 * n as int + 1);
                assert((2 * n + 1) / 2 == n as int);
                assert(node_size(self.size as int, 2 * n as int) == size);
                assert(node_size(self.size as int, 2 * n as int + 1) == size);
            }
            size = size * 2;
            let l = self.tree[n * 2];
            let r = self.tree[n * 2 + 1];
            self.tree[n] = if l + r == size {
                size
            } else if l >= r {
                l
            } else {
                r
            };
            proof {
                let a = n as int;
                assert(cur == 2 * a || cur == 2 * a + 1);
                assert(on_path(a, b / 2)) by {
                    if cur != b {
                        lemma_on_path_up(cur, b / 2);
                    }
                }
                assert forall|c: int| #[trigger] on_path(c, b / 2) && c >= a implies node_ok(self.tree@, self.size as int, c as int) by {
                    if c != a {
                        lemma_on_path_le(c, b / 2);
                        assert(on_path(c, b));
                        lemma_on_path_total(c, cur, b);
                        if on_path(c, cur) && c != cur {
                            lemma_on_path_le(c, cur / 2);
                        }
                        if on_path(cur, c) {
                            lemma_on_path_le(cur, c);
                        }
                        assert(c >= cur);
                        assert(node_ok(before, self.size as int, c as int));
                    }
                }
                if old(self).wf() {
                    assert forall|k: int|
                        1 <= k < self.size && !on_path(k, a / 2) implies #[trigger] node_ok(self.tree@, self.size as int, k as int) by {
                        if k != a {
                            assert(!on_path(k, a));
                            assert(!on_path(k, cur / 2));
                            assert(node_ok(before, self.size as int, k));
                            if 2 * k == a || 2 * k + 1 == a {
                                assert(k == a / 2);
                            }
                        }
                    }
                }
            }
        }
        proof {
            assert forall|a: int| #[trigger] on_path(a, b / 2) implies node_ok(self.tree@, self.size as int, a as int) by {
                lemma_on_path_le(a, b / 2);
            }
            if old(self).wf() {
                assert forall|k: int| 1 <= k < self.size implies #[trigger] node_ok(self.tree@, self.size as int, k as int) by {
                    assert(!on_path(k, 0));
                }
                assert forall|k: int| self.size <= k < 2 * self.size && k != leaf implies self.tree@[k]
                    == old(self).tree@[k] by {
                    if on_path(k, leaf) {
                        lemma_on_path_le(k, leaf / 2);
                    }
                }
                assert(self.allocated() =~= old(self).allocated().remove(offset as int));
            }
        }
    }

    /// The frame that `alloc_frame` hands out next.
    pub open spec fn spec_next_frame(self) -> Option<Frame> {
        buddy_next_frame(self.tree@, self.start, self.size)
    }

    /// The tree after `alloc_frame`.
    pub open spec fn spec_tree_after(self) -> Seq<u64> {
        buddy_tree_after(self.tree@, self.size)
    }

    /// Hands out the free frame with the lowest address, if any frame is free.
    pub fn alloc_frame(&mut self) -> (r: Option<Frame>)
        requires
            old(self).wf(),
        ensures
            final(self).wf(),
            r == old(self).spec_next_frame(),
            final(self).tree@ == old(self).spec_tree_after(),
            final(self).start == old(self).start,
            final(self).size == old(self).size,
            match r {
                None => final(self).tree@ == old(self).tree@ && forall|j: int| !old(self).is_free(j),
                Some(f) => ({
                    let j = f.number - old(self).start / UNIT;
                    &&& old(self).is_free(j)
                    &&& forall|i: int| 0 <= i < j ==> !old(self).is_free(i)
                    &&& final(self).allocated() == old(self).allocated().insert(j)
                    &&& f.addressable()
                }),
            },
    {
        proof {
            assert(rounds_up_to(1, 1));
            lemma_rounds_up_unique(1, 1, spec_next_power_of_two(1));
            lemma_row(self.size as int, 1);
        }
        match self.allocate(UNIT) {
            None => None,
            Some(addr) => {
                proof {
                    let j = (addr - self.start) / (UNIT as int);
                    let leaf = descend(old(self).tree@, 1, old(self).size as int, 1);
                    assert(addr == self.start + (leaf * 1 - self.size) * UNIT);
                    assert(j == leaf - self.size) by (nonlinear_arith)
                        requires
                            j == (addr - self.start) / 4096,
                            addr == self.start + (leaf * 1 - self.size) * 4096,
                    ;
                    assert((self.start + j * 4096) / 4096 == self.start / 4096 + j) by (nonlinear_arith)
                        requires
                            self.start % 4096 == 0,
                            j >= 0,
                    ;
                }
                Some(Frame::from_paddress(addr))
            },
        }
    }

    /// Takes a frame back. A frame outside the run or not in use changes nothing.
    pub fn dealloc_frame(&mut self, frame: Frame)
        requires
            old(self).wf(),
            frame.addressable(),
        ensures
            final(self).wf(),
            final(self).start == old(self).start,
            final(self).size == old(self).size,
            final(self).allocated() == old(self).allocated().remove(
                frame.number - old(self).start / UNIT,
            ),
    {
        proof {
            let s = self.start;
            let f = frame.number;
            assert(f * 4096 >= s ==> (f * 4096 - s) / 4096 == f - s / 4096) by (nonlinear_arith)
                requires
                    s % 4096 == 0,
            ;
            assert(f * 4096 < s ==> f - s / 4096 < 0) by (nonlinear_arith)
                requires
                    s % 4096 == 0,
            ;
            if f * 4096 < s {
                assert(self.allocated().remove(-1) =~= self.allocated().remove(f - s / 4096));
            }
        }
        self.dealloc(frame.start_address())
    }
}

} // verus!
