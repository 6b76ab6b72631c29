use unfound::allocators::hybrid::HybridAllocator;
use unfound::allocators::hybrid_model::THRESHOLD_PAGES;
use unfound::allocators::AllocError;

const BASE: usize = 0x100000;
const PAGE: usize = 4096;

fn fresh(pages: usize) -> HybridAllocator {
    let mut a = HybridAllocator::new();
    assert_eq!(a.init(BASE, pages * PAGE), Ok(()));
    a
}

#[test]
fn hybrid_init_marks_everything_free() {
    let a = fresh(20);
    assert_eq!(a.base(), BASE);
    assert_eq!(a.total_pages(), 20);
    assert_eq!(a.used_pages(), 0);
    for i in 0..20 {
        assert!(a.page_is_free(i));
    }
    assert!(!a.page_is_free(20));
    assert!(!a.page_is_free(23));
    assert_eq!(a.free_block(0), Some(20));
    assert_eq!(a.free_block(1), None);
    assert_eq!(a.name(), "hybrid");
    assert_eq!(THRESHOLD_PAGES, 64);
}

#[test]
fn hybrid_init_rejects_empty_region() {
    let mut a = HybridAllocator::new();
    assert_eq!(a.init(BASE + 1, PAGE), Err(AllocError::InvalidParam));
    assert_eq!(a.init(usize::MAX - 10, 100), Err(AllocError::InvalidParam));
    assert_eq!(a.total_pages(), 0);
    assert_eq!(a.alloc_pages(1, PAGE), Err(AllocError::NoMemory));
    assert_eq!(a.alloc_pages(64, PAGE), Err(AllocError::NoMemory));
}

#[test]
fn hybrid_small_requests_take_first_run() {
    let mut a = fresh(256);
    assert_eq!(a.alloc_pages(1, PAGE), Ok(BASE));
    assert_eq!(a.alloc_pages(1, PAGE), Ok(BASE + PAGE));
    assert!(!a.page_is_free(0) && !a.page_is_free(1) && a.page_is_free(2));
    a.dealloc_pages(BASE, 1);
    assert!(a.page_is_free(0));
    // page 0 is free but page 1 is not: the first run of two starts at page 2
    assert_eq!(a.alloc_pages(2, PAGE), Ok(BASE + 2 * PAGE));
    assert_eq!(a.alloc_pages(1, PAGE), Ok(BASE));
    assert_eq!(a.used_pages(), 4);
    // the pages left the free blocks as well
    assert_eq!(a.free_block(0), None);
    assert_eq!(a.free_block(4), Some(252));
}

#[test]
fn hybrid_small_request_respects_alignment() {
    let mut a = fresh(16);
    assert_eq!(a.alloc_pages(1, PAGE), Ok(BASE));
    // pages 1.. are free; the first page at a multiple of 16 KiB is page 4
    assert_eq!(a.alloc_pages(2, 4 * PAGE), Ok(BASE + 4 * PAGE));
    assert_eq!((BASE + 4 * PAGE) % (4 * PAGE), 0);
}

#[test]
fn hybrid_small_pool_exhausts() {
    let mut a = fresh(3);
    assert_eq!(a.alloc_pages(2, PAGE), Ok(BASE));
    assert_eq!(a.alloc_pages(2, PAGE), Err(AllocError::NoMemory));
    assert_eq!(a.alloc_pages(4, PAGE), Err(AllocError::NoMemory));
    assert_eq!(a.alloc_pages(1, PAGE), Ok(BASE + 2 * PAGE));
    assert_eq!(a.alloc_pages(1, PAGE), Err(AllocError::NoMemory));
    assert_eq!(a.used_pages(), 3);
}

#[test]
fn hybrid_large_requests_split_and_merge() {
    let mut a = fresh(256);
    assert_eq!(a.alloc_pages(64, PAGE), Ok(BASE));
    assert_eq!(a.free_block(0), None);
    assert_eq!(a.free_block(64), Some(192));
    assert_eq!(a.alloc_pages(100, PAGE), Ok(BASE + 64 * PAGE));
    assert_eq!(a.free_block(164), Some(92));
    assert_eq!(a.alloc_pages(100, PAGE), Err(AllocError::NoMemory));
    assert_eq!(a.used_pages(), 164);

    // no free block ends at page 0 or starts at page 64
    a.dealloc_pages(BASE, 64);
    assert_eq!(a.free_block(0), Some(64));
    // the block before it ends at page 64 and the block after it starts at
    // page 164: the three become one
    a.dealloc_pages(BASE + 64 * PAGE, 100);
    assert_eq!(a.free_block(0), Some(256));
    assert_eq!(a.free_block(64), None);
    assert_eq!(a.free_block(164), None);
    assert_eq!(a.used_pages(), 0);
}

#[test]
fn hybrid_large_merges_with_block_after() {
    let mut a = fresh(200);
    assert_eq!(a.alloc_pages(64, PAGE), Ok(BASE));
    assert_eq!(a.free_block(64), Some(136));
    a.dealloc_pages(BASE, 64);
    assert_eq!(a.free_block(0), Some(200));
    assert_eq!(a.free_block(64), None);
}

#[test]
fn hybrid_large_requests_take_best_fit() {
    let mut a = fresh(400);
    assert_eq!(a.alloc_pages(100, PAGE), Ok(BASE));
    assert_eq!(a.alloc_pages(80, PAGE), Ok(BASE + 100 * PAGE));
    assert_eq!(a.alloc_pages(70, PAGE), Ok(BASE + 180 * PAGE));
    assert_eq!(a.alloc_pages(64, PAGE), Ok(BASE + 250 * PAGE));
    // free: [314, 400)
    a.dealloc_pages(BASE, 100);
    a.dealloc_pages(BASE + 180 * PAGE, 70);
    // free blocks: 0 (100 pages), 180 (70 pages), 314 (86 pages)
    assert_eq!(a.free_block(0), Some(100));
    assert_eq!(a.free_block(180), Some(70));
    assert_eq!(a.free_block(314), Some(86));
    // 70 pages is the smallest block that holds 65
    assert_eq!(a.alloc_pages(65, PAGE), Ok(BASE + 180 * PAGE));
    assert_eq!(a.free_block(245), Some(5));
    // 86 pages is the smallest block that holds 80
    assert_eq!(a.alloc_pages(80, PAGE), Ok(BASE + 314 * PAGE));
}

#[test]
fn hybrid_alloc_at() {
    let mut a = fresh(256);
    assert_eq!(a.alloc_pages_at(BASE + 5 * PAGE, 3, PAGE), Ok(BASE + 5 * PAGE));
    assert!(!a.page_is_free(5) && !a.page_is_free(7) && a.page_is_free(8));
    assert_eq!(a.alloc_pages_at(BASE + 7 * PAGE, 2, PAGE), Err(AllocError::NoMemory));
    assert_eq!(a.alloc_pages_at(BASE + 255 * PAGE, 2, PAGE), Err(AllocError::NoMemory));
    assert_eq!(a.alloc_pages_at(BASE + 255 * PAGE, 1, PAGE), Ok(BASE + 255 * PAGE));
    // pages 5 to 7 are live: no large extent can start at page 0
    assert_eq!(a.alloc_pages_at(BASE, 64, PAGE), Err(AllocError::NoMemory));
    assert_eq!(a.free_block(0), Some(5));
    assert_eq!(a.free_block(8), Some(247));
    assert_eq!(a.alloc_pages_at(BASE + 100 * PAGE, 64, PAGE), Ok(BASE + 100 * PAGE));
    assert_eq!(a.free_block(8), Some(92));
    assert_eq!(a.free_block(164), Some(91));
    assert_eq!(a.alloc_pages_at(BASE + 164 * PAGE, 92, PAGE), Err(AllocError::NoMemory));
    assert_eq!(a.alloc_pages_at(BASE + 164 * PAGE, 91, PAGE), Ok(BASE + 164 * PAGE));
    assert_eq!(a.free_block(164), None);
    assert_eq!(a.used_pages(), 3 + 1 + 64 + 91);
}

#[test]
fn hybrid_rejects_invalid_requests() {
    let mut a = fresh(16);
    assert_eq!(a.alloc_pages(0, PAGE), Err(AllocError::InvalidParam));
    assert_eq!(a.alloc_pages(1, 1024), Err(AllocError::InvalidParam));
    assert_eq!(a.alloc_pages(1, 3 * PAGE), Err(AllocError::InvalidParam));
    assert_eq!(a.alloc_pages_at(BASE, 0, PAGE), Err(AllocError::InvalidParam));
    assert_eq!(a.alloc_pages_at(BASE - PAGE, 1, PAGE), Err(AllocError::InvalidParam));
    assert_eq!(a.alloc_pages_at(BASE + 16 * PAGE, 1, PAGE), Err(AllocError::InvalidParam));
    assert_eq!(a.alloc_pages_at(BASE + 1, 1, PAGE), Err(AllocError::InvalidParam));
    assert_eq!(a.alloc_pages_at(BASE + PAGE, 1, 2 * PAGE), Err(AllocError::InvalidParam));
    assert_eq!(a.used_pages(), 0);
}

#[test]
fn hybrid_dealloc_ignores_unknown_addresses() {
    let mut a = fresh(16);
    assert_eq!(a.alloc_pages(2, PAGE), Ok(BASE));
    a.dealloc_pages(BASE + PAGE, 1);
    a.dealloc_pages(BASE + 1, 2);
    a.dealloc_pages(0, 2);
    a.dealloc_pages(BASE + 16 * PAGE, 2);
    assert_eq!(a.used_pages(), 2);
    assert!(!a.page_is_free(0) && !a.page_is_free(1));
    // the recorded size is used, not the one passed
    a.dealloc_pages(BASE, 1);
    assert_eq!(a.used_pages(), 0);
    assert!(a.page_is_free(0) && a.page_is_free(1));
}

#[test]
fn hybrid_round_trip_restores_free_space() {
    let mut a = fresh(300);
    assert_eq!(a.alloc_pages(3, PAGE), Ok(BASE));
    let bits_before: Vec<bool> = (0..300).map(|i| a.page_is_free(i)).collect();
    let addr = a.alloc_pages(5, PAGE).unwrap();
    a.dealloc_pages(addr, 5);
    let bits_after: Vec<bool> = (0..300).map(|i| a.page_is_free(i)).collect();
    assert_eq!(bits_before, bits_after);
    assert_eq!(a.used_pages(), 3);

    let big = a.alloc_pages(128, PAGE).unwrap();
    assert_eq!(big, BASE + 3 * PAGE);
    assert_eq!(a.free_block(131), Some(169));
    a.dealloc_pages(big, 128);
    assert_eq!(a.free_block(3), Some(297));
    assert_eq!(a.used_pages(), 3);
    a.dealloc_pages(big, 128);
    assert_eq!(a.free_block(3), Some(297));
}

#[test]
fn hybrid_small_and_large_extents_share_no_page() {
    let mut a = HybridAllocator::new();
    assert_eq!(a.init(0x10000, 128 * PAGE), Ok(()));
    let small = a.alloc_pages(1, PAGE).unwrap();
    let large = a.alloc_pages(64, PAGE).unwrap();
    assert_eq!((small, large), (0x10000, 0x11000));
    assert!(large >= small + PAGE || large + 64 * PAGE <= small);
    // the pages of the large extent are taken in the bitmap too
    assert!(!a.page_is_free(0) && !a.page_is_free(1) && !a.page_is_free(64));
    assert!(a.page_is_free(65));
    assert_eq!(a.alloc_pages(2, PAGE), Ok(0x10000 + 65 * PAGE));
    assert_eq!(a.alloc_pages(64, PAGE), Err(AllocError::NoMemory));
    assert_eq!(a.used_pages(), 67);
    a.dealloc_pages(small, 1);
    a.dealloc_pages(large, 64);
    // pages 0 to 64 are one free block again
    assert_eq!(a.free_block(0), Some(65));
    assert_eq!(a.alloc_pages(65, PAGE), Ok(0x10000));
    assert_eq!(a.used_pages(), 67);
}

#[test]
fn hybrid_agrees_with_a_page_map() {
    // every page is free or in one live extent, whatever is asked
    let pages = 200usize;
    let mut a = fresh(pages);
    let mut owner: Vec<Option<usize>> = vec![None; pages];
    let mut live: Vec<(usize, usize)> = Vec::new();
    let mut seed = 12345u64;
    for step in 0..1500usize {
        seed = seed.wrapping_mul(6364136223846793005).wrapping_add(1442695040888963407);
        let pick = (seed >> 33) as usize;
        if pick % 3 != 0 || live.is_empty() {
            let n = if pick % 7 == 0 { 64 + pick % 5 } else { 1 + pick % 9 };
            if let Ok(addr) = a.alloc_pages(n, PAGE) {
                let idx = (addr - BASE) / PAGE;
                for page in idx..idx + n {
                    assert_eq!(owner[page], None);
                    owner[page] = Some(step);
                }
                live.push((addr, n));
            }
        } else {
            let (addr, n) = live.swap_remove(pick % live.len());
            a.dealloc_pages(addr, 1);
            let idx = (addr - BASE) / PAGE;
            for page in idx..idx + n {
                owner[page] = None;
            }
        }
        for page in 0..pages {
            assert_eq!(a.page_is_free(page), owner[page].is_none());
        }
        let used: usize = live.iter().map(|&(_, n)| n).sum();
        assert_eq!(a.used_pages(), used);
    }
}
