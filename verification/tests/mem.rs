use evkrnl::phys::{DeallocError, MemoryRegion, MemoryRegionKind, PageFrameAllocator};
use evkrnl::virt::{AllocRoute, KAlloc, Slab, VirtFrame, route_layout};

fn usable(start: u64, end: u64) -> MemoryRegion {
    MemoryRegion { start, end, kind: MemoryRegionKind::Usable }
}

#[test]
fn boot_128_mib_machine() {
    // Single usable region [1 MiB, 128 MiB).
    let regions = vec![usable(0x100000, 0x8000000)];
    let pfa = PageFrameAllocator::new(&regions);
    // 127 MiB managed, two frames self-hosted for header and bitmap.
    assert_eq!(pfa.size(), 127 * 1024 * 1024);
    assert!(pfa.size() >= 126 * 1024 * 1024);
    assert_eq!(pfa.free(), 127 * 1024 * 1024 - 2 * 4096);
    assert!(pfa.free() > 10 * 1024 * 1024);
}

#[test]
fn region_canonicalization() {
    // Unaligned bounds are aligned inwards; small or non-usable regions
    // are discarded.
    let regions = vec![
        usable(0x100001, 0x180fff),
        MemoryRegion { start: 0x200000, end: 0x300000, kind: MemoryRegionKind::Bootloader },
        usable(0x400000, 0x404000),
    ];
    let pfa = PageFrameAllocator::new(&regions);
    // Only the first survives: [0x101000, 0x180000), 127 frames.
    assert_eq!(pfa.size(), 127 * 4096);
}

#[test]
fn allocate_changes_free_by_one_frame() {
    let regions = vec![usable(0x100000, 0x200000)];
    let mut pfa = PageFrameAllocator::new(&regions);
    let before = pfa.free();
    let size = pfa.size();
    let frame = pfa.allocate_frame().expect("a frame is free");
    assert_eq!(pfa.free(), before - 4096);
    assert_eq!(pfa.size(), size);
    pfa.deallocate_frame(frame);
    assert_eq!(pfa.free(), before);
    assert_eq!(pfa.size(), size);
}

#[test]
fn allocation_order_is_lowest_first() {
    let regions = vec![usable(0x100000, 0x200000)];
    let mut pfa = PageFrameAllocator::new(&regions);
    let first = pfa.allocate_frame().expect("free frame");
    let second = pfa.allocate_frame().expect("free frame");
    // The first frame after the self-hosted metadata frame.
    assert_eq!(first, 0x100000 + 4096);
    assert_eq!(second, first + 4096);
    pfa.deallocate_frame(first);
    let third = pfa.allocate_frame().expect("free frame");
    assert_eq!(third, first, "the hint rewinds to the lowest free frame");
}

#[test]
fn no_address_twice_without_free() {
    let regions = vec![usable(0x100000, 0x200000)];
    let mut pfa = PageFrameAllocator::new(&regions);
    let mut seen = Vec::new();
    for _ in 0..64 {
        let frame = pfa.allocate_frame().expect("free frame");
        assert!(!seen.contains(&frame));
        seen.push(frame);
    }
}

#[test]
fn double_free_detection() {
    let regions = vec![usable(0x100000, 0x200000)];
    let mut pfa = PageFrameAllocator::new(&regions);
    let frame = pfa.allocate_frame().expect("a frame is free");
    assert_eq!(pfa.deallocate_frame_checked(frame), Ok(()));
    // Freeing it again reports a double free carrying the frame's
    // physical address.
    assert_eq!(pfa.deallocate_frame_checked(frame), Err(DeallocError::DoubleFree(frame)));
}

#[test]
fn invalid_frame_detection() {
    let regions = vec![usable(0x100000, 0x200000)];
    let mut pfa = PageFrameAllocator::new(&regions);
    assert_eq!(
        pfa.deallocate_frame_checked(0x900000),
        Err(DeallocError::InvalidFrame(0x900000))
    );
    assert_eq!(pfa.deallocate_frame_checked(3), Err(DeallocError::InvalidFrame(3)));
}

#[test]
fn routing_by_size() {
    assert_eq!(route_layout(1), AllocRoute::Slab(0));
    assert_eq!(route_layout(32), AllocRoute::Slab(0));
    assert_eq!(route_layout(33), AllocRoute::Slab(1));
    assert_eq!(route_layout(64), AllocRoute::Slab(1));
    assert_eq!(route_layout(65), AllocRoute::Slab(2));
    assert_eq!(route_layout(3000), AllocRoute::Slab(7));
    assert_eq!(route_layout(4096), AllocRoute::Slab(7));
    assert_eq!(route_layout(4097), AllocRoute::Big);
}

#[test]
fn slab_round_trip() {
    // 10_000 interleaved allocate/deallocate pairs of 64-byte blocks never
    // panic and leave the physical free count where it started.
    let regions = vec![usable(0x100000, 0x200000)];
    let mut pfa = PageFrameAllocator::new(&regions);
    let start_free = pfa.free();
    let mut slab = Slab::new(64);
    for _ in 0..10000 {
        let ptr = slab.allocate(&mut pfa);
        assert!(slab.try_deallocate(&mut pfa, ptr));
    }
    assert_eq!(pfa.free(), start_free);
}

#[test]
fn slab_second_allocation_same_class() {
    let regions = vec![usable(0x100000, 0x200000)];
    let mut pfa = PageFrameAllocator::new(&regions);
    let mut slab = Slab::new(64);
    let first = slab.allocate(&mut pfa);
    let second = slab.allocate(&mut pfa);
    assert!(slab.try_deallocate(&mut pfa, first));
    let third = slab.allocate(&mut pfa);
    // The freed block's slot is reused within the same 64-byte class.
    assert_eq!(third, first);
    assert_ne!(second, third);
    assert!(slab.try_deallocate(&mut pfa, second));
    assert!(slab.try_deallocate(&mut pfa, third));
    assert!(!slab.try_deallocate(&mut pfa, 0xdead000));
}

#[test]
fn kalloc_routes_to_class_slab() {
    let regions = vec![usable(0x100000, 0x200000)];
    let mut pfa = PageFrameAllocator::new(&regions);
    let start_free = pfa.free();
    let mut heap = KAlloc::new();
    let a = heap.allocate(&mut pfa, 24);
    let b = heap.allocate(&mut pfa, 64);
    let c = heap.allocate(&mut pfa, 4000);
    assert!(heap.deallocate(&mut pfa, a, 24));
    assert!(heap.deallocate(&mut pfa, b, 64));
    assert!(heap.deallocate(&mut pfa, c, 4000));
    assert_eq!(pfa.free(), start_free);
}

#[test]
fn virt_frame_owns_distinct_backing() {
    let regions = vec![usable(0x100000, 0x200000)];
    let mut pfa = PageFrameAllocator::new(&regions);
    let free_before = pfa.free();
    let first = VirtFrame::new(7u64, &mut pfa);
    let second = VirtFrame::new(8u64, &mut pfa);
    // While the first handle lives, a new handle never reuses its frame.
    assert_ne!(first.addr(), second.addr());
    assert_eq!(*first.value(), 7);
    assert_eq!(*second.value(), 8);
    let mut second = second;
    *second.value_mut() = 9;
    assert_eq!(*second.value(), 9);
    assert_eq!(first.into_inner(&mut pfa), 7);
    assert_eq!(second.into_inner(&mut pfa), 9);
    assert_eq!(pfa.free(), free_before);
}

#[test]
fn virt_frame_addr_uses_offset_mapping() {
    let regions = vec![usable(0x100000, 0x200000)];
    let mut pfa = PageFrameAllocator::new(&regions);
    let frame = VirtFrame::new((), &mut pfa);
    let phys = frame.leak();
    assert_eq!(phys, 0x101000);
}

#[test]
fn slab_reports_frame_demand_and_live_blocks() {
    let regions = vec![usable(0x100000, 0x200000)];
    let mut pfa = PageFrameAllocator::new(&regions);
    let mut heap = KAlloc::new();
    // An empty slab needs a group and a data frame.
    assert_eq!(heap.frames_needed(64), 2);
    let a = heap.allocate(&mut pfa, 64);
    // A fresh element has free blocks left, so the next call takes none.
    assert_eq!(heap.frames_needed(64), 0);
    assert!(heap.is_block_allocated(a, 64));
    assert!(!heap.is_block_allocated(a + 64, 64));
    assert!(heap.deallocate(&mut pfa, a, 64));
    assert!(!heap.is_block_allocated(a, 64));
}
