use sos2::memory::frame::{AreaFrameAllocator, Frame, FrameAllocatorProxy, FrameRange, MemoryArea,
    TinyAllocator};
use sos2::memory::frame_allocator::{next_power_of_two, prev_power_of_two, BuddyAllocator};

fn area_allocator(areas: Vec<MemoryArea>) -> AreaFrameAllocator {
    let kernel = FrameRange::new(0x10_0000, 0x10_3000);
    let multiboot = FrameRange::new(0x10_5000, 0x10_6000);
    AreaFrameAllocator::new(areas, kernel, multiboot)
}

#[test]
fn frame_from_address_rounds_down() {
    let f = Frame::from_paddress(0x1234_5678);
    assert_eq!(f.number, 0x12345);
    assert_eq!(f.start_address(), 0x1234_5000);
    assert_eq!(f.start_address(), 0x1234_5678 & !0xfff);
}

#[test]
fn frame_round_trip_clears_low_bits() {
    for a in [0u64, 1, 4095, 4096, 4097, 0xdead_beef, 0x000f_ffff_ffff_ffff, u64::MAX] {
        assert_eq!(Frame::from_paddress(a).start_address(), a & !(4096 - 1));
    }
}

#[test]
fn frame_arithmetic() {
    let mut f = Frame { number: 10 };
    assert_eq!(f.plus(5).number, 15);
    f.add_assign(3);
    assert_eq!(f.number, 13);
    f.add_assign(-13);
    assert_eq!(f.number, 0);
    assert!(Frame { number: 1 } < Frame { number: 2 });
}

#[test]
fn frame_range_covers_touched_frames() {
    let mut r = FrameRange::new(0x1800, 0x3001);
    assert_eq!(r.start.number, 1);
    assert_eq!(r.end.number, 4);
    assert_eq!(r.next(), Some(Frame { number: 1 }));
    assert_eq!(r.next(), Some(Frame { number: 2 }));
    assert_eq!(r.next(), Some(Frame { number: 3 }));
    assert_eq!(r.next(), None);
    assert_eq!(r.next(), None);
}

#[test]
fn frame_range_contains() {
    let r = FrameRange::new(0x2000, 0x4000);
    assert!(!r.contains(Frame { number: 1 }));
    assert!(r.contains(Frame { number: 2 }));
    assert!(r.contains(Frame { number: 3 }));
    assert!(!r.contains(Frame { number: 4 }));
}

#[test]
fn area_allocator_skips_kernel_and_boot_information() {
    // frames 0x100..0x108; the kernel holds 0x100..0x103, the boot information 0x105
    let mut a = area_allocator(vec![MemoryArea { base_addr: 0x10_0000, length: 0x8000 }]);
    assert_eq!(a.alloc_frame(), Some(Frame { number: 0x103 }));
    assert_eq!(a.alloc_frame(), Some(Frame { number: 0x104 }));
    assert_eq!(a.alloc_frame(), Some(Frame { number: 0x106 }));
    assert_eq!(a.alloc_frame(), Some(Frame { number: 0x107 }));
    assert_eq!(a.alloc_frame(), None);
    assert_eq!(a.alloc_frame(), None);
    assert_eq!(a.used, 4);
}

#[test]
fn area_allocator_walks_the_areas_in_order() {
    let mut a = area_allocator(vec![
        MemoryArea { base_addr: 0x1000, length: 0x2000 },
        MemoryArea { base_addr: 0x20_0000, length: 0x1001 },
    ]);
    assert_eq!(a.alloc_frame(), Some(Frame { number: 1 }));
    assert_eq!(a.alloc_frame(), Some(Frame { number: 2 }));
    assert_eq!(a.alloc_frame(), Some(Frame { number: 0x200 }));
    assert_eq!(a.alloc_frame(), Some(Frame { number: 0x201 }));
    assert_eq!(a.alloc_frame(), None);
}

#[test]
fn area_allocator_without_areas_is_exhausted() {
    let mut a = area_allocator(vec![]);
    assert_eq!(a.alloc_frame(), None);
}

#[test]
fn tiny_allocator_hands_out_its_three_frames() {
    let mut t = TinyAllocator::new(Some(Frame { number: 7 }), None, Some(Frame { number: 9 }));
    assert_eq!(t.alloc_frame(), Some(Frame { number: 7 }));
    assert_eq!(t.alloc_frame(), Some(Frame { number: 9 }));
    assert_eq!(t.alloc_frame(), None);
    t.dealloc_frame(Frame { number: 3 });
    t.dealloc_frame(Frame { number: 4 });
    t.dealloc_frame(Frame { number: 5 });
    t.dealloc_frame(Frame { number: 6 });
    assert_eq!(t.alloc_frame(), Some(Frame { number: 3 }));
    assert_eq!(t.alloc_frame(), Some(Frame { number: 4 }));
    assert_eq!(t.alloc_frame(), Some(Frame { number: 5 }));
    assert_eq!(t.alloc_frame(), None);
}

#[test]
fn powers_of_two() {
    assert_eq!(next_power_of_two(0), 1);
    assert_eq!(next_power_of_two(1), 1);
    assert_eq!(next_power_of_two(2), 2);
    assert_eq!(next_power_of_two(3), 4);
    assert_eq!(next_power_of_two(1000), 1024);
    assert_eq!(next_power_of_two(1024), 1024);
    assert_eq!(prev_power_of_two(1), 1);
    assert_eq!(prev_power_of_two(3), 2);
    assert_eq!(prev_power_of_two(1000), 512);
    assert_eq!(prev_power_of_two(1024), 1024);
}

#[test]
fn buddy_new_rounds_capacity_down() {
    let b = BuddyAllocator::new(0x10_0000, 13 * 4096 + 100);
    assert_eq!(b.size, 8);
    assert_eq!(b.start, 0x10_0000);
    assert_eq!(b.tree.len(), 16);
    assert_eq!(b.tree[1], 8);
    assert_eq!(&b.tree[2..4], &[4, 4]);
    assert_eq!(&b.tree[4..8], &[2, 2, 2, 2]);
    assert_eq!(&b.tree[8..16], &[1, 1, 1, 1, 1, 1, 1, 1]);
}

#[test]
fn buddy_allocates_lowest_free_frame() {
    let mut b = BuddyAllocator::new(0x10_0000, 4 * 4096);
    assert_eq!(b.alloc_frame(), Some(Frame { number: 0x100 }));
    assert_eq!(b.alloc_frame(), Some(Frame { number: 0x101 }));
    b.dealloc_frame(Frame { number: 0x100 });
    assert_eq!(b.alloc_frame(), Some(Frame { number: 0x100 }));
    assert_eq!(b.alloc_frame(), Some(Frame { number: 0x102 }));
    assert_eq!(b.alloc_frame(), Some(Frame { number: 0x103 }));
    assert_eq!(b.alloc_frame(), None);
    assert_eq!(b.tree[1], 0);
}

#[test]
fn buddy_tree_after_one_allocation() {
    let mut b = BuddyAllocator::new(0, 8 * 4096);
    assert_eq!(b.allocate(4096), Some(0));
    // the leaf is in use; the nodes above it store the larger child
    assert_eq!(b.tree, vec![0, 4, 2, 4, 1, 2, 2, 2, 0, 1, 1, 1, 1, 1, 1, 1]);
}

#[test]
fn buddy_allocates_blocks_of_several_frames() {
    let mut b = BuddyAllocator::new(0x8000, 8 * 4096);
    // 3 frames are rounded up to a block of 4
    assert_eq!(b.allocate(3 * 4096), Some(0x8000));
    assert_eq!(b.tree[2], 0);
    assert_eq!(b.tree[1], 4);
    assert_eq!(b.allocate(2 * 4096), Some(0x8000 + 4 * 4096));
    assert_eq!(b.allocate(4 * 4096), None);
    b.dealloc(0x8000);
    assert_eq!(b.tree[2], 4);
    assert_eq!(b.allocate(4 * 4096), Some(0x8000));
}

#[test]
fn buddy_free_in_any_order_restores_root() {
    let orders: [[usize; 5]; 4] = [[0, 1, 2, 3, 4], [4, 3, 2, 1, 0], [2, 0, 4, 1, 3], [1, 3, 0, 4, 2]];
    for order in orders {
        let mut b = BuddyAllocator::new(0x40_0000, 16 * 4096);
        let initial = b.tree.clone();
        let mut frames = Vec::new();
        for _ in 0..5 {
            frames.push(b.alloc_frame().unwrap());
        }
        assert!(b.tree[1] < 16);
        for i in order {
            b.dealloc_frame(frames[i]);
        }
        assert_eq!(b.tree[1], 16);
        assert_eq!(b.tree, initial);
    }
}

#[test]
fn buddy_inner_nodes_are_size_or_child() {
    let mut b = BuddyAllocator::new(0, 32 * 4096);
    let mut held = Vec::new();
    for step in 0..40u64 {
        if step % 3 == 2 && !held.is_empty() {
            let f = held.remove((step as usize * 7) % held.len());
            b.dealloc_frame(f);
        } else if let Some(f) = b.alloc_frame() {
            held.push(f);
        }
        let n = b.size as usize;
        let mut size_k = b.size;
        let mut row = 1;
        for k in 1..n {
            if k == 2 * row {
                row *= 2;
                size_k /= 2;
            }
            let v = b.tree[k];
            assert!(v == size_k || v == b.tree[2 * k] || v == b.tree[2 * k + 1]);
        }
    }
}

#[test]
fn buddy_double_free_changes_nothing() {
    let mut b = BuddyAllocator::new(0, 4 * 4096);
    let f = b.alloc_frame().unwrap();
    b.dealloc_frame(f);
    let before = b.tree.clone();
    b.dealloc_frame(f);
    assert_eq!(b.tree, before);
    b.dealloc(0xffff_0000);
    assert_eq!(b.tree, before);
}

#[test]
fn proxy_routes_to_the_current_stage() {
    let mut p = FrameAllocatorProxy::new(area_allocator(vec![
        MemoryArea { base_addr: 0x20_0000, length: 0x40_0000 },
    ]));
    assert!(p.initial);
    assert_eq!(p.alloc_frame(), Some(Frame { number: 0x200 }));
    assert_eq!(p.alloc_frame(), Some(Frame { number: 0x201 }));
    assert!(p.upgrade_allocator());
    assert!(!p.initial);
    let b = p.alternative.as_ref().unwrap();
    // from the next free frame to the end of the area: 1022 frames, of which 512 are used
    assert_eq!(b.start, 0x20_2000);
    assert_eq!(b.size, 512);
    let f = p.alloc_frame().unwrap();
    assert_eq!(f, Frame { number: 0x202 });
    let g = p.alloc_frame().unwrap();
    assert_eq!(g, Frame { number: 0x203 });
    p.dealloc_frame(f);
    assert_eq!(p.alloc_frame(), Some(Frame { number: 0x202 }));
}

#[test]
fn proxy_cannot_upgrade_without_room() {
    let mut p = FrameAllocatorProxy::new(area_allocator(vec![
        MemoryArea { base_addr: 0x20_0000, length: 0x1000 },
    ]));
    assert_eq!(p.alloc_frame(), Some(Frame { number: 0x200 }));
    assert!(!p.upgrade_allocator());
    assert!(p.initial);
    assert!(p.alternative.is_none());
    let mut q = FrameAllocatorProxy::new(area_allocator(vec![]));
    assert!(!q.upgrade_allocator());
}

#[test]
fn buddy_tree_over_any_run() {
    // the tree does not depend on where the run lies
    let b = BuddyAllocator::new(0x10_0800, 4 * 4096);
    assert_eq!(b.tree, vec![0, 4, 2, 2, 1, 1, 1, 1]);
    assert_eq!(b.size, 4);
    let c = BuddyAllocator::new(u64::MAX - 4096, 3 * 4096);
    assert_eq!(c.tree, vec![0, 2, 1, 1]);
}
