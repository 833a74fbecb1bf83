use sos2::heap::{align_up, HeapBlock, KHeapAllocator};

fn heap() -> KHeapAllocator {
    let mut h = KHeapAllocator::new();
    h.init(0xffff_8801_0000_0000, 0xffff_8801_0200_0000);
    h
}

#[test]
fn heap_align_up() {
    assert_eq!(align_up(0x1001, 0x1000), Some(0x2000));
    assert_eq!(align_up(0x1000, 0x1000), Some(0x1000));
    assert_eq!(align_up(13, 8), Some(16));
    assert_eq!(align_up(13, 1), Some(13));
    assert_eq!(align_up(u64::MAX, 2), None);
    assert_eq!(align_up(u64::MAX - 1, 2), Some(u64::MAX - 1));
}

#[test]
fn heap_starts_uninitialised() {
    let h = KHeapAllocator::new();
    assert_eq!(h.current, 0);
    assert!(h.range.is_none());
    assert!(h.free.is_empty());
}

#[test]
fn heap_range_is_set_once() {
    let mut h = heap();
    assert_eq!(h.range, Some((0xffff_8801_0000_0000, 0xffff_8801_0200_0000)));
    assert_eq!(h.free, vec![HeapBlock { start: 0xffff_8801_0000_0000, size: 0x200_0000 }]);
    h.init(0x1000, 0x2000);
    assert_eq!(h.range, Some((0xffff_8801_0000_0000, 0xffff_8801_0200_0000)));
    assert_eq!(h.free.len(), 1);
}

#[test]
fn heap_first_fit() {
    let mut h = KHeapAllocator::new();
    h.init(0x1000, 0x2000);
    assert_eq!(h.allocate(0x10, 1), Some(0x1000));
    assert_eq!(h.allocate(0x10, 0x100), Some(0x1100));
    // the gap before the aligned block is still free
    assert_eq!(h.free, vec![
        HeapBlock { start: 0x1010, size: 0xf0 },
        HeapBlock { start: 0x1110, size: 0xef0 },
    ]);
    assert_eq!(h.allocate(0x20, 1), Some(0x1010));
    // a block that the first free block cannot hold comes from the second
    assert_eq!(h.allocate(0xe0, 1), Some(0x1110));
    assert_eq!(h.allocate(0xd0, 1), Some(0x1030));
    assert_eq!(h.free, vec![HeapBlock { start: 0x11f0, size: 0xe10 }]);
    assert_eq!(h.current, 0x11f0);
}

#[test]
fn heap_reports_exhaustion() {
    let mut h = KHeapAllocator::new();
    h.init(0x1000, 0x2000);
    assert_eq!(h.allocate(0x1001, 1), None);
    assert_eq!(h.allocate(0x1000, 1), Some(0x1000));
    assert!(h.free.is_empty());
    assert_eq!(h.allocate(1, 1), None);
    assert_eq!(h.allocate(0, 1), None);
}

#[test]
fn heap_dealloc_joins_neighbours() {
    let mut h = KHeapAllocator::new();
    h.init(0x1000, 0x2000);
    let a = h.allocate(0x100, 1).unwrap();
    let b = h.allocate(0x100, 1).unwrap();
    let c = h.allocate(0x100, 1).unwrap();
    assert_eq!((a, b, c), (0x1000, 0x1100, 0x1200));
    h.dealloc(a, 0x100);
    assert_eq!(h.free, vec![
        HeapBlock { start: 0x1000, size: 0x100 },
        HeapBlock { start: 0x1300, size: 0xd00 },
    ]);
    h.dealloc(c, 0x100);
    assert_eq!(h.free, vec![
        HeapBlock { start: 0x1000, size: 0x100 },
        HeapBlock { start: 0x1200, size: 0xe00 },
    ]);
    h.dealloc(b, 0x100);
    assert_eq!(h.free, vec![HeapBlock { start: 0x1000, size: 0x1000 }]);
}

#[test]
fn heap_round_trip() {
    // a container of 40,000 elements of 4 bytes is freed; a block of 16 bytes then lies where it was
    let mut h = heap();
    let first = h.allocate(64, 8).unwrap();
    let big = h.allocate(40_000 * 4, 4).unwrap();
    let after = h.allocate(32, 8).unwrap();
    assert!(first < big && big < after);
    h.dealloc(big, 40_000 * 4);
    let small = h.allocate(16, 8).unwrap();
    assert!(big <= small && small + 16 <= big + 40_000 * 4);
}
