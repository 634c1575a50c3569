use simple_sched::allocator::{AllocError, SimpleByteAllocator};

#[test]
fn new_allocator_manages_nothing() {
    let a = SimpleByteAllocator::new();
    assert_eq!(a.total_bytes(), 0);
    assert_eq!(a.used_bytes(), 0);
    assert_eq!(a.available_bytes(), 0);
}

#[test]
fn init_sets_the_region() {
    let mut a = SimpleByteAllocator::new();
    a.init(0x1000, 0x100);
    assert_eq!(a.total_bytes(), 0x100);
    assert_eq!(a.used_bytes(), 0);
    assert_eq!(a.available_bytes(), 0x100);
}

#[test]
fn allocate_advances_linearly() {
    let mut a = SimpleByteAllocator::new();
    a.init(0x1000, 0x100);
    assert_eq!(a.allocate(16), Ok(0x1000));
    assert_eq!(a.allocate(8), Ok(0x1010));
    assert_eq!(a.used_bytes(), 24);
    assert_eq!(a.available_bytes(), 0x100 - 24);
}

#[test]
fn allocate_beyond_region_is_no_memory() {
    let mut a = SimpleByteAllocator::new();
    a.init(0x1000, 0x100);
    assert_eq!(a.allocate(0x101), Err(AllocError::NoMemory));
    // The failure left the allocator untouched.
    assert_eq!(a.used_bytes(), 0);
    assert_eq!(a.allocate(0x100), Ok(0x1000));
    assert_eq!(a.available_bytes(), 0);
}

#[test]
fn allocate_overflowing_the_address_space_is_invalid() {
    let mut a = SimpleByteAllocator::new();
    a.init(usize::MAX - 0x100, 0x100);
    assert_eq!(a.allocate(0x200), Err(AllocError::InvalidParam));
    assert_eq!(a.used_bytes(), 0);
}

#[test]
fn allocate_before_init_is_no_memory() {
    let mut a = SimpleByteAllocator::new();
    assert_eq!(a.allocate(1), Err(AllocError::NoMemory));
}

#[test]
fn dealloc_reclaims_only_when_all_returned() {
    let mut a = SimpleByteAllocator::new();
    a.init(0x1000, 0x100);
    let first = a.allocate(16).unwrap();
    let second = a.allocate(16).unwrap();
    a.dealloc(first);
    // One allocation is still outstanding: nothing is reclaimed.
    assert_eq!(a.used_bytes(), 32);
    a.dealloc(second);
    // The last one came back: the watermark snaps to the region start.
    assert_eq!(a.used_bytes(), 0);
    assert_eq!(a.allocate(16), Ok(0x1000));
}

#[test]
fn add_memory_extends_the_end() {
    let mut a = SimpleByteAllocator::new();
    a.init(0x1000, 0x100);
    assert_eq!(a.add_memory(0x1100, 0x100), Ok(()));
    assert_eq!(a.total_bytes(), 0x200);
    assert_eq!(a.available_bytes(), 0x200);
}

#[test]
fn add_memory_extends_the_front() {
    let mut a = SimpleByteAllocator::new();
    a.init(0x1000, 0x100);
    // The watermark sat at the old start, so it moves to the new start.
    assert_eq!(a.add_memory(0xF00, 0x100), Ok(()));
    assert_eq!(a.total_bytes(), 0x200);
    assert_eq!(a.used_bytes(), 0);
    assert_eq!(a.allocate(16), Ok(0xF00));
}

#[test]
fn add_memory_front_keeps_watermark_when_in_use() {
    let mut a = SimpleByteAllocator::new();
    a.init(0x1000, 0x100);
    assert_eq!(a.allocate(16), Ok(0x1000));
    assert_eq!(a.add_memory(0xF00, 0x100), Ok(()));
    // The watermark had moved past the old start, so it stays put.
    assert_eq!(a.used_bytes(), 0x100 + 16);
    assert_eq!(a.allocate(16), Ok(0x1010));
}

#[test]
fn add_memory_rejects_non_adjacent_regions() {
    let mut a = SimpleByteAllocator::new();
    a.init(0x1000, 0x100);
    assert_eq!(a.add_memory(0x3000, 0x100), Err(AllocError::InvalidParam));
    assert_eq!(a.total_bytes(), 0x100);
}
