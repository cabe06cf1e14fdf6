use oscamp::free_list_allocator::FreeListAllocator;
use std::alloc::Layout;

const HEAP_SIZE: usize = 4096;

fn make_allocator() -> (FreeListAllocator, Vec<u8>) {
    let mut heap = vec![0u8; HEAP_SIZE];
    let start = heap.as_mut_ptr() as usize;
    let alloc = FreeListAllocator::new(start, start + HEAP_SIZE);
    (alloc, heap)
}

fn alloc_layout(alloc: &mut FreeListAllocator, layout: Layout) -> Option<usize> {
    alloc.allocate(layout.size(), layout.align())
}

fn dealloc_layout(alloc: &mut FreeListAllocator, ptr: usize, layout: Layout) {
    alloc.dealloc(ptr, layout.size(), layout.align())
}

#[test]
fn lib_test_alloc_basic() {
    let (mut alloc, _heap) = make_allocator();
    let layout = Layout::from_size_align(32, 8).unwrap();
    let ptr = alloc_layout(&mut alloc, layout);
    assert!(ptr.is_some());
}

#[test]
fn lib_test_alloc_alignment() {
    let (mut alloc, _heap) = make_allocator();
    for align in [1, 2, 4, 8, 16] {
        let layout = Layout::from_size_align(8, align).unwrap();
        let ptr = alloc_layout(&mut alloc, layout);
        assert!(ptr.is_some());
        assert_eq!(ptr.unwrap() % align, 0, "align={align}");
    }
}

#[test]
fn test_dealloc_and_reuse() {
    let (mut alloc, _heap) = make_allocator();
    let layout = Layout::from_size_align(64, 8).unwrap();

    let p1 = alloc_layout(&mut alloc, layout);
    assert!(p1.is_some());

    dealloc_layout(&mut alloc, p1.unwrap(), layout);
    let p2 = alloc_layout(&mut alloc, layout);
    assert!(p2.is_some());
    assert_eq!(p1, p2, "should reuse the freed block");
}

#[test]
fn test_multiple_alloc_dealloc() {
    let (mut alloc, _heap) = make_allocator();
    let layout = Layout::from_size_align(128, 8).unwrap();

    let p1 = alloc_layout(&mut alloc, layout);
    let p2 = alloc_layout(&mut alloc, layout);
    let p3 = alloc_layout(&mut alloc, layout);
    assert!(p1.is_some() && p2.is_some() && p3.is_some());

    dealloc_layout(&mut alloc, p2.unwrap(), layout);
    dealloc_layout(&mut alloc, p1.unwrap(), layout);

    let q1 = alloc_layout(&mut alloc, layout);
    let q2 = alloc_layout(&mut alloc, layout);
    assert!(q1.is_some() && q2.is_some());
}

#[test]
fn test_oom() {
    let (mut alloc, _heap) = make_allocator();
    let layout = Layout::from_size_align(HEAP_SIZE + 1, 1).unwrap();
    let ptr = alloc_layout(&mut alloc, layout);
    assert!(ptr.is_none(), "should return null when exceeding heap");
}

#[test]
fn freed_blocks_come_back_most_recent_first() {
    let mut alloc = FreeListAllocator::new(0x1000, 0x2000);
    let a = alloc.allocate(32, 8).unwrap();
    let b = alloc.allocate(32, 8).unwrap();
    assert_eq!((a, b), (0x1000, 0x1020));
    alloc.dealloc(a, 32, 8);
    alloc.dealloc(b, 32, 8);
    assert_eq!(alloc.allocate(32, 8), Some(b));
    assert_eq!(alloc.allocate(32, 8), Some(a));
    assert_eq!(alloc.allocate(32, 8), Some(0x1040));
}

#[test]
fn first_fit_skips_small_and_misaligned_blocks() {
    let mut alloc = FreeListAllocator::new(0x1000, 0x2000);
    assert_eq!(alloc.allocate(24, 8), Some(0x1000));
    let misaligned = alloc.allocate(64, 8).unwrap();
    let aligned = alloc.allocate(64, 16).unwrap();
    let small = alloc.allocate(16, 8).unwrap();
    assert_eq!((misaligned, aligned, small), (0x1018, 0x1060, 0x10A0));
    alloc.dealloc(aligned, 64, 16);
    alloc.dealloc(misaligned, 64, 8);
    alloc.dealloc(small, 16, 8);
    assert_eq!(alloc.allocate(64, 16), Some(0x1060));
    assert_eq!(alloc.allocate(64, 8), Some(0x1018));
    assert_eq!(alloc.allocate(8, 1), Some(0x10A0));
}

#[test]
fn live_blocks_stay_in_heap_and_apart() {
    let mut alloc = FreeListAllocator::new(0x1000, 0x1100);
    let mut live: Vec<(usize, usize)> = Vec::new();
    for (size, align) in [(40, 8), (1, 1), (64, 32), (24, 16)] {
        let a = alloc.allocate(size, align).unwrap();
        live.push((a, size));
    }
    let (freed, freed_size) = live.remove(1);
    alloc.dealloc(freed, freed_size, 1);
    let again = alloc.allocate(8, 4).unwrap();
    live.push((again, 8));
    assert_eq!(alloc.allocate(0x100, 8), None);
    for &(a, size) in &live {
        assert!(0x1000 <= a && a + size <= 0x1100);
    }
    for (i, &(a, sa)) in live.iter().enumerate() {
        for &(b, sb) in &live[i + 1..] {
            assert!(a + sa <= b || b + sb <= a);
        }
    }
}

#[test]
fn tiny_requests_reserve_a_block_header() {
    let mut alloc = FreeListAllocator::new(0x1001, 0x1030);
    assert_eq!(alloc.allocate(1, 1), Some(0x1008));
    assert_eq!(alloc.allocate(1, 1), Some(0x1018));
    assert_eq!(alloc.allocate(1, 1), None);
}
