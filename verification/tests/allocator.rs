use early_alloc::early::CAPACITY;
use early_alloc::AllocError;
use early_alloc::EarlyAllocator;

#[test]
fn sixteen_kib_region_scenario() {
    // One 16 KiB region with 4 KiB pages: a small byte allocation comes
    // from the low end, two pages come off the high end.
    let mut a: EarlyAllocator<0x1000> = EarlyAllocator::new();
    a.init(0x1000, 0x4000);
    assert_eq!(a.alloc_bytes(0x10, 1), Ok(0x1000));
    assert_eq!(a.available_bytes(), 0x3FF0);
    assert_eq!(a.alloc_pages(2, 1), Ok(0x3000));
    // The byte allocation already consumed part of the lowest page, so a
    // single whole page is left between the cursors.
    assert_eq!(a.available_pages(), 1);
    assert_eq!(a.alloc_pages(3, 1), Err(AllocError::OutOfMemory));
}

#[test]
fn add_memory_beyond_capacity() {
    let mut a: EarlyAllocator<0x1000> = EarlyAllocator::new();
    for i in 0..CAPACITY {
        assert_eq!(a.add_memory(i * 0x10000, 0x1000), Ok(()));
    }
    assert_eq!(
        a.add_memory(CAPACITY * 0x10000, 0x1000),
        Err(AllocError::CapacityExceeded)
    );
    assert_eq!(a.region_count(), CAPACITY);
    // The blocks that were registered are all still there, unchanged.
    assert_eq!(a.total_bytes(), CAPACITY * 0x1000);
    assert_eq!(a.used_bytes(), 0);
}

#[test]
fn byte_allocs_do_not_overlap() {
    let mut a: EarlyAllocator<0x1000> = EarlyAllocator::new();
    a.init(0x1000, 0x4000);
    let first = a.alloc_bytes(0x30, 1).unwrap();
    let second = a.alloc_bytes(0x10, 1).unwrap();
    assert_eq!(first, 0x1000);
    assert_eq!(second, 0x1030);
    assert!(first + 0x30 <= second);
}

#[test]
fn byte_alloc_honors_alignment() {
    let mut a: EarlyAllocator<0x1000> = EarlyAllocator::new();
    a.init(0x1001, 0x2000);
    // The cursor sits at 0x1001; sixteen-byte alignment pads it to 0x1010.
    assert_eq!(a.alloc_bytes(1, 16), Ok(0x1010));
    // 0xF bytes of padding plus the byte itself are consumed.
    assert_eq!(a.used_bytes(), 0x10);
}

#[test]
fn page_allocs_descend() {
    let mut a: EarlyAllocator<0x1000> = EarlyAllocator::new();
    a.init(0, 0x10000);
    let first = a.alloc_pages(1, 1).unwrap();
    let second = a.alloc_pages(1, 1).unwrap();
    assert_eq!(first, 0xF000);
    assert_eq!(second, 0xE000);
    assert!(second + 0x1000 <= first);
    // Each call reserved exactly one page.
    assert_eq!(a.used_pages(), 2);
}

#[test]
fn page_alloc_honors_alignment() {
    let mut a: EarlyAllocator<0x1000> = EarlyAllocator::new();
    a.init(0, 0x10000);
    // The top page would start at 0xF000; aligning to 0x2000 wastes one
    // further page and returns 0xE000.
    assert_eq!(a.alloc_pages(1, 0x2000), Ok(0xE000));
    assert_eq!(a.used_pages(), 2);
}

#[test]
fn out_of_memory_when_nothing_fits() {
    let mut a: EarlyAllocator<0x1000> = EarlyAllocator::new();
    assert_eq!(a.alloc_bytes(1, 1), Err(AllocError::OutOfMemory));
    assert_eq!(a.alloc_pages(1, 1), Err(AllocError::OutOfMemory));
    a.init(0x1000, 0x100);
    assert_eq!(a.alloc_bytes(0x101, 1), Err(AllocError::OutOfMemory));
    assert_eq!(a.alloc_pages(1, 1), Err(AllocError::OutOfMemory));
    // A failed call changes nothing.
    assert_eq!(a.available_bytes(), 0x100);
}

#[test]
fn first_fit_picks_earliest_block() {
    let mut a: EarlyAllocator<0x1000> = EarlyAllocator::new();
    a.init(0x1000, 0x100);
    a.init(0x10000, 0x4000);
    // Too big for the first region: served from the second.
    assert_eq!(a.alloc_bytes(0x200, 1), Ok(0x10000));
    // Small enough for the first region: served from the first.
    assert_eq!(a.alloc_bytes(0x10, 1), Ok(0x1000));
}

#[test]
fn dealloc_is_a_no_op() {
    let mut a: EarlyAllocator<0x1000> = EarlyAllocator::new();
    a.init(0x1000, 0x4000);
    let p = a.alloc_bytes(0x40, 1).unwrap();
    let used = a.used_bytes();
    a.dealloc(p, 0x40, 1);
    assert_eq!(a.used_bytes(), used);
    let q = a.alloc_pages(1, 1).unwrap();
    let pages = a.used_pages();
    a.dealloc_pages(q, 1);
    assert_eq!(a.used_pages(), pages);
}

#[test]
fn stats_add_up() {
    let mut a: EarlyAllocator<0x1000> = EarlyAllocator::new();
    a.init(0x1000, 0x4000);
    a.init(0x10000, 0x2000);
    assert_eq!(a.total_bytes(), 0x6000);
    assert_eq!(a.total_pages(), 6);
    let _ = a.alloc_bytes(0x123, 1).unwrap();
    let _ = a.alloc_pages(2, 1).unwrap();
    // Every managed byte is used, free, or reserved by pages.
    assert_eq!(
        a.used_bytes() + a.available_bytes() + a.used_pages() * 0x1000,
        a.total_bytes()
    );
    assert_eq!(a.used_bytes(), 0x123);
    assert_eq!(a.used_pages(), 2);
}

#[test]
fn cursors_never_cross() {
    let mut a: EarlyAllocator<0x1000> = EarlyAllocator::new();
    a.init(0x1000, 0x3000);
    let _ = a.alloc_bytes(0xFF0, 1);
    let _ = a.alloc_pages(1, 1);
    let _ = a.alloc_bytes(0xFF0, 1);
    let _ = a.alloc_pages(1, 1);
    for b in &a.regions {
        assert!(b.b_used + b.p_used * 0x1000 <= b.size);
    }
}
