use oscamp::bump_allocator::{align_up, bump_update, BumpAllocator};
use std::alloc::Layout;

const HEAP_SIZE: usize = 4096;

fn make_allocator() -> (BumpAllocator, Vec<u8>) {
    let mut heap = vec![0u8; HEAP_SIZE];
    let start = heap.as_mut_ptr() as usize;
    let alloc = BumpAllocator::new(start, start + HEAP_SIZE);
    (alloc, heap)
}

fn alloc_layout(alloc: &BumpAllocator, layout: Layout) -> Option<usize> {
    alloc.allocate(layout.size(), layout.align())
}

#[test]
fn test_alloc_basic() {
    let (alloc, _heap) = make_allocator();
    let layout = Layout::from_size_align(16, 8).unwrap();
    let ptr = alloc_layout(&alloc, layout);
    assert!(ptr.is_some(), "allocation should succeed");
}

#[test]
fn test_alloc_alignment() {
    let (alloc, _heap) = make_allocator();
    for align in [1, 2, 4, 8, 16, 64] {
        let layout = Layout::from_size_align(1, align).unwrap();
        let ptr = alloc_layout(&alloc, layout);
        assert!(ptr.is_some());
        assert_eq!(
            ptr.unwrap() % align,
            0,
            "returned address must satisfy align={align}"
        );
    }
}

#[test]
fn test_alloc_no_overlap() {
    let (alloc, _heap) = make_allocator();
    let layout = Layout::from_size_align(64, 8).unwrap();
    let p1 = alloc_layout(&alloc, layout).unwrap();
    let p2 = alloc_layout(&alloc, layout).unwrap();
    assert!(
        p1 + 64 <= p2 || p2 + 64 <= p1,
        "two allocations must not overlap"
    );
}

#[test]
fn test_alloc_oom() {
    let (alloc, _heap) = make_allocator();
    let layout = Layout::from_size_align(HEAP_SIZE + 1, 1).unwrap();
    let ptr = alloc_layout(&alloc, layout);
    assert!(ptr.is_none(), "should return null when exceeding heap");
}

#[test]
fn test_alloc_fill_heap() {
    let (alloc, _heap) = make_allocator();
    let layout = Layout::from_size_align(256, 1).unwrap();
    for i in 0..16 {
        let ptr = alloc_layout(&alloc, layout);
        assert!(ptr.is_some(), "allocation #{i} should succeed");
    }
    let ptr = alloc_layout(&alloc, layout);
    assert!(ptr.is_none(), "should return null when heap is full");
}

#[test]
fn test_reset() {
    let (alloc, _heap) = make_allocator();
    let layout = Layout::from_size_align(HEAP_SIZE, 1).unwrap();
    let p1 = alloc_layout(&alloc, layout);
    assert!(p1.is_some());
    alloc.reset();
    let p2 = alloc_layout(&alloc, layout);
    assert!(p2.is_some(), "should be able to allocate after reset");
    assert_eq!(
        p1, p2,
        "address after reset should match the first allocation"
    );
}

#[test]
fn align_up_values() {
    assert_eq!(align_up(0, 8), Some(0));
    assert_eq!(align_up(1, 8), Some(8));
    assert_eq!(align_up(8, 8), Some(8));
    assert_eq!(align_up(13, 1), Some(13));
    assert_eq!(align_up(100, 64), Some(128));
    assert_eq!(align_up(usize::MAX, 2), None);
    assert_eq!(align_up(usize::MAX - 7, 8), Some(usize::MAX - 7));
}

#[test]
fn bump_update_values() {
    assert_eq!(bump_update(10, 6, 4, 100), Some(18));
    assert_eq!(bump_update(10, 90, 4, 100), None);
    assert_eq!(bump_update(12, 88, 4, 100), Some(100));
    assert_eq!(bump_update(usize::MAX - 1, 0, 4, usize::MAX), None);
}

#[test]
fn exact_fit_succeeds_once() {
    let alloc = BumpAllocator::new(0x1000, 0x1100);
    assert_eq!(alloc.allocate(0x100, 0x100), Some(0x1000));
    assert_eq!(alloc.allocate(1, 1), None);
}

#[test]
fn zero_sized_allocation_does_not_advance() {
    let alloc = BumpAllocator::new(0x1001, 0x2000);
    assert_eq!(alloc.allocate(0, 16), Some(0x1010));
    assert_eq!(alloc.allocate(4, 16), Some(0x1010));
    assert_eq!(alloc.allocate(4, 4), Some(0x1014));
}
