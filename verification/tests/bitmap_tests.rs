use unfound::allocators::bitmap::{BitmapAllocator, BITMAP_CAPACITY, MAX_ALIGN};
use unfound::allocators::AllocError;

const PAGE: usize = 4096;

fn fresh(base: usize, pages: usize) -> BitmapAllocator {
    let mut a = BitmapAllocator::new();
    assert_eq!(a.init(base, pages * PAGE), Ok(()));
    a
}

#[test]
fn bitmap_init_sets_region() {
    let a = fresh(0x10001, 32);
    // rounded inwards: [0x11000, 0x30000)
    assert_eq!(a.base(), 0x11000);
    assert_eq!(a.total_pages(), 31);
    assert_eq!(a.used_pages(), 0);
    assert_eq!(a.name(), "bitmap");
}

#[test]
fn bitmap_init_rejects_bad_regions() {
    let mut a = BitmapAllocator::new();
    assert_eq!(a.init(0x10001, PAGE), Err(AllocError::InvalidParam));
    assert_eq!(a.init(usize::MAX - 5, 100), Err(AllocError::InvalidParam));
    assert_eq!(a.init(0, (BITMAP_CAPACITY + 1) * PAGE), Err(AllocError::InvalidParam));
    // one page past the capacity, counted from the gibibyte boundary below
    assert_eq!(a.init(PAGE, BITMAP_CAPACITY * PAGE), Err(AllocError::InvalidParam));
    assert_eq!(a.total_pages(), 0);
    assert_eq!(a.alloc_pages(1, PAGE), Err(AllocError::NoMemory));
    assert_eq!(a.init(0, BITMAP_CAPACITY * PAGE), Ok(()));
    assert_eq!(a.total_pages(), BITMAP_CAPACITY);
}

#[test]
fn bitmap_allocates_lowest_pages_first() {
    let mut a = fresh(0x10000, 32);
    assert_eq!(a.alloc_pages(1, PAGE), Ok(0x10000));
    assert_eq!(a.alloc_pages(2, PAGE), Ok(0x11000));
    assert_eq!(a.alloc_pages(1, PAGE), Ok(0x13000));
    assert_eq!(a.used_pages(), 4);
    a.dealloc_pages(0x11000, 2);
    assert_eq!(a.used_pages(), 2);
    assert_eq!(a.alloc_pages(1, PAGE), Ok(0x11000));
    assert_eq!(a.alloc_pages(1, PAGE), Ok(0x12000));
}

#[test]
fn bitmap_multi_page_request_is_aligned() {
    let mut a = fresh(0x11000, 31);
    assert_eq!(a.alloc_pages(2, 4 * PAGE), Ok(0x14000));
    assert_eq!(0x14000 % (4 * PAGE), 0);
    assert_eq!(a.alloc_pages(3, 8 * PAGE), Ok(0x18000));
}

#[test]
fn bitmap_single_page_is_aligned_as_asked() {
    // the lowest free page, 0x11000, is no multiple of 8 KiB
    let mut a = fresh(0x11000, 8);
    assert_eq!(a.alloc_pages(1, 2 * PAGE), Ok(0x12000));
    assert_eq!(a.used_pages(), 1);
    assert_eq!(a.alloc_pages(1, PAGE), Ok(0x11000));
    assert_eq!(a.alloc_pages(1, 2 * PAGE), Ok(0x14000));
    assert_eq!(a.alloc_pages(1, 8 * PAGE), Ok(0x18000));
    // no other multiple of 32 KiB lies in the region
    assert_eq!(a.alloc_pages(1, 8 * PAGE), Err(AllocError::NoMemory));
    assert_eq!(a.used_pages(), 4);
    a.dealloc_pages(0x18000, 1);
    assert_eq!(a.alloc_pages(1, 8 * PAGE), Ok(0x18000));
}

#[test]
fn bitmap_takes_the_lowest_aligned_run() {
    let mut a = fresh(0x10000, 32);
    assert_eq!(a.alloc_pages_at(0x14000, 1, PAGE), Ok(0x14000));
    assert_eq!(a.alloc_pages(4, 4 * PAGE), Ok(0x10000));
    // 0x14000 starts no free run: the next multiple of 16 KiB is taken
    assert_eq!(a.alloc_pages(4, 4 * PAGE), Ok(0x18000));
    assert_eq!(a.alloc_pages(2, 2 * PAGE), Ok(0x16000));
    assert_eq!(a.alloc_pages(1, 2 * PAGE), Ok(0x1c000));
    assert_eq!(a.alloc_pages(1, PAGE), Ok(0x15000));
    assert_eq!(a.alloc_pages(3, PAGE), Ok(0x1d000));
    assert_eq!(a.used_pages(), 16);
    // sixteen pages are unused, and no run of seventeen
    assert_eq!(a.alloc_pages(17, PAGE), Err(AllocError::NoMemory));
    assert_eq!(a.alloc_pages(16, 16 * PAGE), Ok(0x20000));
    assert_eq!(a.alloc_pages(1, PAGE), Err(AllocError::NoMemory));
}

#[test]
fn bitmap_serves_alignments_up_to_the_region() {
    let mut a = fresh(2 * MAX_ALIGN, 16);
    // the region starts at the only multiple of a gibibyte in it
    assert_eq!(a.alloc_pages(1, 4 * MAX_ALIGN), Err(AllocError::NoMemory));
    assert_eq!(a.alloc_pages(2, 2 * MAX_ALIGN), Ok(2 * MAX_ALIGN));
    assert_eq!(a.alloc_pages(1, MAX_ALIGN), Err(AllocError::NoMemory));
    assert_eq!(a.alloc_pages(1, MAX_ALIGN / 2), Err(AllocError::NoMemory));
    a.dealloc_pages(2 * MAX_ALIGN, 2);
    assert_eq!(a.alloc_pages_at(2 * MAX_ALIGN, 3, 2 * MAX_ALIGN), Ok(2 * MAX_ALIGN));
    assert_eq!(
        a.alloc_pages_at(2 * MAX_ALIGN + 0x4000, 1, MAX_ALIGN),
        Err(AllocError::InvalidParam)
    );
    assert_eq!(a.alloc_pages_at(2 * MAX_ALIGN + 0x4000, 1, 0x4000), Ok(2 * MAX_ALIGN + 0x4000));
    assert_eq!(a.used_pages(), 4);
}

#[test]
fn bitmap_alloc_at() {
    let mut a = fresh(0x10000, 16);
    assert_eq!(a.alloc_pages_at(0x14000, 4, PAGE), Ok(0x14000));
    assert_eq!(a.alloc_pages_at(0x16000, 1, PAGE), Err(AllocError::NoMemory));
    assert_eq!(a.alloc_pages_at(0x13000, 2, PAGE), Err(AllocError::NoMemory));
    assert_eq!(a.alloc_pages_at(0x1f000, 2, PAGE), Err(AllocError::NoMemory));
    assert_eq!(a.alloc_pages_at(0x1f000, 1, PAGE), Ok(0x1f000));
    assert_eq!(a.used_pages(), 5);
    a.dealloc_pages(0x14000, 1);
    assert_eq!(a.used_pages(), 1);
    assert_eq!(a.alloc_pages_at(0x16000, 2, PAGE), Ok(0x16000));
}

#[test]
fn bitmap_rejects_invalid_requests() {
    let mut a = fresh(0x10000, 16);
    assert_eq!(a.alloc_pages(0, PAGE), Err(AllocError::InvalidParam));
    assert_eq!(a.alloc_pages(1, 100), Err(AllocError::InvalidParam));
    assert_eq!(a.alloc_pages(1, 3 * PAGE), Err(AllocError::InvalidParam));
    // a valid alignment that no address of the region has
    assert_eq!(a.alloc_pages(1, 2 * MAX_ALIGN), Err(AllocError::NoMemory));
    assert_eq!(a.alloc_pages_at(0x10000, 0, PAGE), Err(AllocError::InvalidParam));
    assert_eq!(a.alloc_pages_at(0xf000, 1, PAGE), Err(AllocError::InvalidParam));
    assert_eq!(a.alloc_pages_at(0x20000, 1, PAGE), Err(AllocError::InvalidParam));
    assert_eq!(a.alloc_pages_at(0x10010, 1, PAGE), Err(AllocError::InvalidParam));
    assert_eq!(a.alloc_pages_at(0x11000, 1, 2 * PAGE), Err(AllocError::InvalidParam));
    assert_eq!(a.used_pages(), 0);
}

#[test]
fn bitmap_no_memory_when_exhausted() {
    let mut a = fresh(0x10000, 4);
    assert_eq!(a.alloc_pages(5, PAGE), Err(AllocError::NoMemory));
    assert_eq!(a.alloc_pages(3, PAGE), Ok(0x10000));
    assert_eq!(a.alloc_pages(2, PAGE), Err(AllocError::NoMemory));
    assert_eq!(a.alloc_pages(1, PAGE), Ok(0x13000));
    assert_eq!(a.alloc_pages(1, PAGE), Err(AllocError::NoMemory));
}

#[test]
fn bitmap_dealloc_uses_recorded_size_and_ignores_unknown() {
    let mut a = fresh(0x10000, 8);
    assert_eq!(a.alloc_pages(3, PAGE), Ok(0x10000));
    a.dealloc_pages(0x11000, 1);
    a.dealloc_pages(0x10001, 3);
    a.dealloc_pages(0x5000, 1);
    a.dealloc_pages(0x18000, 1);
    assert_eq!(a.used_pages(), 3);
    a.dealloc_pages(0x10000, 100);
    assert_eq!(a.used_pages(), 0);
    a.dealloc_pages(0x10000, 3);
    assert_eq!(a.used_pages(), 0);
    assert_eq!(a.alloc_pages(8, PAGE), Ok(0x10000));
}

#[test]
fn bitmap_extents_do_not_overlap() {
    let mut a = fresh(0x40000, 64);
    let mut extents: Vec<(usize, usize)> = Vec::new();
    for n in [1usize, 3, 2, 8, 1, 5, 16] {
        let addr = a.alloc_pages(n, PAGE).unwrap();
        assert_eq!(addr % PAGE, 0);
        assert!(addr >= 0x40000 && addr + n * PAGE <= 0x40000 + 64 * PAGE);
        for &(other, m) in &extents {
            assert!(addr + n * PAGE <= other || other + m * PAGE <= addr);
        }
        extents.push((addr, n));
    }
    assert_eq!(a.used_pages(), 36);
}
