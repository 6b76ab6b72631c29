use unfound::allocators::buddy::BuddyAllocator;
use unfound::allocators::{page_bounds, AllocError, PAGE_SIZE};
use unfound::arith::{ceil_log2, floor_log2, pow2_usize};

fn fresh(base: usize, pages: usize) -> BuddyAllocator {
    let mut a = BuddyAllocator::new();
    assert_eq!(a.init(base, pages * PAGE_SIZE), Ok(()));
    a
}

fn free_total(a: &BuddyAllocator) -> usize {
    let mut sum = 0;
    for k in 0..=a.max_order() {
        sum += a.free_list(k).len() << k;
    }
    sum
}

#[test]
fn buddy_splits_and_coalesces() {
    let mut a = fresh(0x10000, 32);
    assert_eq!(a.max_order(), 5);
    assert_eq!(a.alloc_pages(1, 4096), Ok(0x10000));
    assert_eq!(a.alloc_pages(1, 4096), Ok(0x11000));
    a.dealloc_pages(0x10000, 1);
    a.dealloc_pages(0x11000, 1);
    assert_eq!(a.free_list(5), vec![0]);
    for k in 0..5 {
        assert!(a.free_list(k).is_empty());
    }
    assert_eq!(a.used_pages(), 0);
}

#[test]
fn buddy_split_leaves_upper_halves() {
    let mut a = fresh(0x10000, 32);
    assert_eq!(a.alloc_pages(1, 4096), Ok(0x10000));
    assert_eq!(a.free_list(0), vec![1]);
    assert_eq!(a.free_list(1), vec![2]);
    assert_eq!(a.free_list(2), vec![4]);
    assert_eq!(a.free_list(3), vec![8]);
    assert_eq!(a.free_list(4), vec![16]);
    assert!(a.free_list(5).is_empty());
    assert_eq!(a.used_pages(), 1);
    assert_eq!(free_total(&a) + a.used_pages(), 32);
}

#[test]
fn buddy_init_rounds_region_and_seeds_greedily() {
    let mut a = BuddyAllocator::new();
    // [0x1001, 0x1001 + 0xd000): whole pages are [0x2000, 0xe000), twelve of them
    assert_eq!(a.init(0x1001, 0xd000), Ok(()));
    assert_eq!(a.base(), 0x2000);
    assert_eq!(a.total_pages(), 12);
    assert_eq!(a.max_order(), 3);
    assert_eq!(a.free_list(3), vec![0]);
    assert_eq!(a.free_list(2), vec![8]);
    assert!(a.free_list(1).is_empty());
    assert!(a.free_list(0).is_empty());
}

#[test]
fn buddy_init_rejects_empty_region() {
    let mut a = BuddyAllocator::new();
    assert_eq!(a.init(0x1001, 0x1000), Err(AllocError::InvalidParam));
    assert_eq!(a.init(0x1000, 0), Err(AllocError::InvalidParam));
    assert_eq!(a.init(usize::MAX, 2), Err(AllocError::InvalidParam));
    assert_eq!(a.total_pages(), 0);
    assert_eq!(a.alloc_pages(1, 4096), Err(AllocError::NoMemory));
}

#[test]
fn buddy_rejects_invalid_requests() {
    let mut a = fresh(0x10000, 32);
    assert_eq!(a.alloc_pages(0, 4096), Err(AllocError::InvalidParam));
    assert_eq!(a.alloc_pages(1, 2048), Err(AllocError::InvalidParam));
    assert_eq!(a.alloc_pages(1, 4096 * 3), Err(AllocError::InvalidParam));
    assert_eq!(a.alloc_pages(1, 0), Err(AllocError::InvalidParam));
    assert_eq!(a.alloc_pages_at(0x10000, 0, 4096), Err(AllocError::InvalidParam));
    assert_eq!(a.alloc_pages_at(0x0f000, 1, 4096), Err(AllocError::InvalidParam));
    assert_eq!(a.alloc_pages_at(0x10000 + 32 * 4096, 1, 4096), Err(AllocError::InvalidParam));
    assert_eq!(a.alloc_pages_at(0x10800, 1, 4096), Err(AllocError::InvalidParam));
    assert_eq!(a.free_list(5), vec![0]);
}

#[test]
fn buddy_no_memory_when_exhausted() {
    let mut a = fresh(0x10000, 4);
    assert_eq!(a.alloc_pages(5, 4096), Err(AllocError::NoMemory));
    assert_eq!(a.alloc_pages(3, 4096), Ok(0x10000));
    assert_eq!(a.used_pages(), 4);
    assert_eq!(a.alloc_pages(1, 4096), Err(AllocError::NoMemory));
    a.dealloc_pages(0x10000, 3);
    assert_eq!(a.used_pages(), 0);
    assert_eq!(a.free_list(2), vec![0]);
}

#[test]
fn buddy_alloc_respects_alignment() {
    // base 0x11000: page 0 is not 8 KiB aligned, page 1 is
    let mut a = fresh(0x11000, 4);
    assert_eq!(a.alloc_pages(1, 8192), Err(AllocError::NoMemory));
    assert_eq!(a.alloc_pages(1, 4096), Ok(0x11000));
    // free lists now hold pages 1 (order 0) and 2 (order 1)
    assert_eq!(a.alloc_pages(1, 8192), Ok(0x12000));
    assert_eq!(0x12000 % 8192, 0);
}

#[test]
fn buddy_alloc_at_exact_block() {
    let mut a = fresh(0x10000, 8);
    assert_eq!(a.alloc_pages_at(0x10000, 1, 4096), Err(AllocError::NoMemory));
    assert_eq!(a.alloc_pages_at(0x10000, 8, 4096), Ok(0x10000));
    assert_eq!(a.used_pages(), 8);
    assert!(a.free_list(3).is_empty());
    a.dealloc_pages(0x10000, 8);
    assert_eq!(a.free_list(3), vec![0]);
}

#[test]
fn buddy_dealloc_ignores_unknown_addresses() {
    let mut a = fresh(0x10000, 8);
    assert_eq!(a.alloc_pages(1, 4096), Ok(0x10000));
    let before: Vec<Vec<usize>> = (0..4).map(|k| a.free_list(k)).collect();
    a.dealloc_pages(0x11000, 1);
    a.dealloc_pages(0x10001, 1);
    a.dealloc_pages(0x0, 1);
    a.dealloc_pages(0x10000 + 8 * 4096, 1);
    let after: Vec<Vec<usize>> = (0..4).map(|k| a.free_list(k)).collect();
    assert_eq!(before, after);
    assert_eq!(a.used_pages(), 1);
}

#[test]
fn buddy_round_trip_restores_free_total() {
    let mut a = fresh(0x40000, 20);
    // twenty pages are seeded as a block of sixteen and a block of four
    assert_eq!(a.alloc_pages(3, 4096), Ok(0x50000));
    let free_before = free_total(&a);
    let used_before = a.used_pages();
    let addr = a.alloc_pages(2, 4096).unwrap();
    assert_eq!(free_total(&a), free_before - 2);
    a.dealloc_pages(addr, 2);
    assert_eq!(free_total(&a), free_before);
    assert_eq!(a.used_pages(), used_before);
    a.dealloc_pages(addr, 2);
    assert_eq!(free_total(&a), free_before);
    assert_eq!(free_total(&a) + a.used_pages(), 20);
}

#[test]
fn buddy_extents_do_not_overlap() {
    let mut a = fresh(0x10000, 16);
    let mut extents: Vec<(usize, usize)> = Vec::new();
    for n in [1usize, 2, 3, 1, 4, 1] {
        if let Ok(addr) = a.alloc_pages(n, 4096) {
            assert_eq!(addr % 4096, 0);
            assert!(addr >= 0x10000);
            assert!(addr + n * 4096 <= 0x10000 + 16 * 4096);
            for &(other, m) in &extents {
                assert!(addr + n * 4096 <= other || other + m * 4096 <= addr);
            }
            extents.push((addr, n));
        }
    }
    assert!(extents.len() >= 4);
}

#[test]
fn buddy_lifo_among_equal_order() {
    let mut a = fresh(0x10000, 4);
    assert_eq!(a.alloc_pages(1, 4096), Ok(0x10000));
    assert_eq!(a.alloc_pages(1, 4096), Ok(0x11000));
    assert_eq!(a.alloc_pages(1, 4096), Ok(0x12000));
    assert_eq!(a.alloc_pages(1, 4096), Ok(0x13000));
    a.dealloc_pages(0x10000, 1);
    a.dealloc_pages(0x12000, 1);
    // page 2 was pushed last
    assert_eq!(a.alloc_pages(1, 4096), Ok(0x12000));
}

#[test]
fn buddy_name() {
    assert_eq!(BuddyAllocator::new().name(), "buddy");
}

#[test]
fn logarithms_and_powers() {
    assert_eq!(ceil_log2(0), 0);
    assert_eq!(ceil_log2(1), 0);
    assert_eq!(ceil_log2(2), 1);
    assert_eq!(ceil_log2(3), 2);
    assert_eq!(ceil_log2(4), 2);
    assert_eq!(ceil_log2(5), 3);
    assert_eq!(ceil_log2(1024), 10);
    assert_eq!(ceil_log2(usize::MAX) as u32, usize::BITS);
    assert_eq!(floor_log2(1), 0);
    assert_eq!(floor_log2(3), 1);
    assert_eq!(floor_log2(32), 5);
    assert_eq!(floor_log2(usize::MAX) as u32, usize::BITS - 1);
    assert_eq!(pow2_usize(0), 1);
    assert_eq!(pow2_usize(12), 4096);
}

#[test]
fn page_bounds_rounds_inwards() {
    assert_eq!(page_bounds(0x1000, 0x3000), Some((0x1000, 3)));
    assert_eq!(page_bounds(0x1001, 0x3000), Some((0x2000, 2)));
    assert_eq!(page_bounds(0x1fff, 0x1001), Some((0x2000, 1)));
    assert_eq!(page_bounds(0x1fff, 0x1000), None);
    assert_eq!(page_bounds(0, 4095), None);
}

#[test]
fn buddy_free_space() {
    let mut a = BuddyAllocator::new();
    assert_eq!(a.free_space(), (0, 0));
    assert_eq!(a.init(0x10000, 20 * PAGE_SIZE), Ok(()));
    assert_eq!(a.free_space(), (16, 20));
    assert_eq!(a.alloc_pages(16, 4096), Ok(0x10000));
    assert_eq!(a.free_space(), (4, 4));
    assert_eq!(a.alloc_pages(1, 4096), Ok(0x20000));
    assert_eq!(a.free_space(), (2, 3));
    assert_eq!(a.alloc_pages(3, 4096), Err(AllocError::NoMemory));
    assert_eq!(a.alloc_pages(2, 4096), Ok(0x22000));
    assert_eq!(a.alloc_pages(1, 4096), Ok(0x21000));
    assert_eq!(a.free_space(), (0, 0));
}
