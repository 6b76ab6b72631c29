use unfound::allocators::buddy::BuddyAllocator;
use unfound::allocators::hybrid::HybridAllocator;
use unfound::allocators::runtime::{make_by_name, same_text, AnyAllocator, RuntimeSlot};
use unfound::allocators::tester::{
    AllocatorTester, LargeObjectWorkload, MixedWorkload, SmallObjectWorkload, Workload,
};
use unfound::allocators::{AllocError, PageAllocator};
use unfound::cache::page_cache::{copy_from_page, page_chunk, CachePage, PageCache};
use unfound::cache::readahead::{AccessPattern, ReadaheadPolicy};
use unfound::cache::stats::CacheStats;
use unfound::process::{FdError, FdTable, ProcessId, ProcessState, ProcessTaskExt};
use unfound::uapi::{normalize_flags, validate_path};
use unfound::vfs::devices::{get_device_name, CharDeviceNode, NullDev, ZeroDev};
use unfound::vfs::VfsError;
use unfound::vfs::procfs::{split_path, ProcFile};
use unfound::vfs::structs::VfsNodeType;

#[test]
fn readahead_detects_sequential_reads() {
    let mut p = ReadaheadPolicy::new();
    assert_eq!(p.readahead_size(), 2);
    assert_eq!(p.pattern(), AccessPattern::Unknown);
    p.update(4096);
    p.update(8192);
    p.update(12288);
    // three sequential reads are not yet enough
    assert_eq!(p.pattern(), AccessPattern::Unknown);
    assert_eq!(p.readahead_size(), 2);
    p.update(16384);
    assert_eq!(p.pattern(), AccessPattern::Sequential);
    assert_eq!(p.readahead_size(), 8);
    p.update(100);
    assert_eq!(p.pattern(), AccessPattern::Random);
    assert_eq!(p.readahead_size(), 1);
    p.update(4196);
    assert_eq!(p.pattern(), AccessPattern::Random);
}

#[test]
fn readahead_near_the_top_of_the_address_space() {
    let mut p = ReadaheadPolicy::new();
    p.update(usize::MAX - 10);
    assert_eq!(p.pattern(), AccessPattern::Random);
    p.update(4085);
    assert_eq!(p.pattern(), AccessPattern::Random);
}

#[test]
fn cache_stats_and_pages() {
    let s = CacheStats { hits: 3, misses: 4, evictions: 0, dirty_pages: 0 };
    assert_eq!(s.lookups(), 7);
    let s = CacheStats { hits: usize::MAX, misses: 4, evictions: 0, dirty_pages: 0 };
    assert_eq!(s.lookups(), usize::MAX);
    let p = CachePage::new(3, 8192);
    assert_eq!((p.file_id, p.offset, p.dirty), (3, 8192, false));
    assert!(p.data.iter().all(|&b| b == 0));
    assert_eq!(CachePage::page_index(8191), 1);
    assert_eq!(CachePage::page_index(8192), 2);
}

#[test]
fn fd_table_allocates_lowest_free_descriptor() {
    let mut t = FdTable::new();
    assert_eq!(t.alloc_fd(10), Ok(0));
    assert_eq!(t.alloc_fd(11), Ok(1));
    assert_eq!(t.alloc_fd(12), Ok(2));
    assert_eq!(t.free_fd(1), Ok(()));
    assert_eq!(t.get(1), None);
    assert_eq!(t.alloc_fd(13), Ok(1));
    assert_eq!(t.get(1), Some(13));
    assert_eq!(t.get(300), None);
    assert_eq!(t.free_fd(256), Err(FdError::BadAddress));
    for _ in 3..256 {
        assert!(t.alloc_fd(0).is_ok());
    }
    assert_eq!(t.alloc_fd(0), Err(FdError::NoMemory));
    assert_eq!(t.free_fd(255), Ok(()));
    assert_eq!(t.alloc_fd(7), Ok(255));
}

#[test]
fn process_state_codes() {
    assert_eq!(ProcessState::from(1), ProcessState::Running);
    assert_eq!(ProcessState::from(2), ProcessState::Exited);
    assert_eq!(ProcessState::from(0), ProcessState::Running);
    assert_eq!(ProcessState::from(200), ProcessState::Running);
    assert_eq!(ProcessState::Running.code(), 1);
    assert_eq!(ProcessState::Exited.code(), 2);
    let ext = ProcessTaskExt { process_id: ProcessId(5) };
    assert_eq!(ext.process_id, ProcessId(5));
    assert_eq!(ext.process_id.0, 5);
}

#[test]
fn path_and_flag_checks() {
    assert!(!validate_path(""));
    assert!(validate_path("/"));
    assert!(validate_path(&"a".repeat(4095)));
    assert!(!validate_path(&"a".repeat(4096)));
    assert_eq!(normalize_flags(0x12345678), 0x5678);
    assert_eq!(normalize_flags(0xFFFF), 0xFFFF);
    assert_eq!(normalize_flags(0x10000), 0);
}

#[test]
fn null_and_zero_devices() {
    let null = NullDev;
    let mut buf = [7u8; 4];
    assert_eq!(null.read_at(0, &mut buf), Ok(0));
    assert_eq!(buf, [7u8; 4]);
    assert_eq!(null.write_at(9, &buf), Ok(4));
    assert_eq!(null.truncate(5), Ok(()));
    let a = null.get_attr().unwrap();
    assert_eq!((a.dev(), a.file_type(), a.perm().bits(), a.size()), (1, VfsNodeType::CharDevice, 0o666, 0));
    assert_eq!(null.get_attr_x().unwrap().file_type(), VfsNodeType::CharDevice);

    let zero = ZeroDev;
    assert_eq!(zero.read_at(3, &mut buf), Ok(4));
    assert_eq!(buf, [0u8; 4]);
    assert_eq!(zero.write_at(0, &[1, 2]), Ok(2));
    assert_eq!(zero.truncate(0), Ok(()));
    assert_eq!(zero.get_attr().unwrap().dev(), 0);
    assert_eq!(zero.get_attr_x().unwrap().stx_perm().bits(), 0o666);
}

#[test]
fn proc_file_reads() {
    let f = ProcFile::new(b"hello world");
    let a = f.get_attr().unwrap();
    assert_eq!((a.size(), a.is_file()), (11, true));
    let mut buf = [b'.'; 5];
    assert_eq!(f.read_at(0, &mut buf), Ok(5));
    assert_eq!(&buf, b"hello");
    assert_eq!(f.read_at(8, &mut buf), Ok(3));
    assert_eq!(&buf, b"rldlo");
    assert_eq!(f.read_at(11, &mut buf), Ok(0));
    assert_eq!(f.read_at(u64::MAX, &mut buf), Ok(0));
    assert_eq!(&buf, b"rldlo");
    let mut none: [u8; 0] = [];
    assert_eq!(f.read_at(2, &mut none), Ok(0));
}

#[test]
fn split_path_takes_first_component() {
    assert_eq!(split_path("foo/bar"), ("foo".to_string(), Some("bar".to_string())));
    assert_eq!(split_path("///foo///bar"), ("foo".to_string(), Some("//bar".to_string())));
    assert_eq!(split_path("foo"), ("foo".to_string(), None));
    assert_eq!(split_path("foo/"), ("foo".to_string(), Some("".to_string())));
    assert_eq!(split_path(""), ("".to_string(), None));
    assert_eq!(split_path("/"), ("".to_string(), None));
    assert_eq!(split_path("a/b/c"), ("a".to_string(), Some("b/c".to_string())));
}

#[test]
fn make_by_name_knows_three_strategies() {
    assert!(same_text("buddy", "buddy"));
    assert!(!same_text("buddy", "budd"));
    assert!(!same_text("buddy", "buddz"));
    assert!(matches!(make_by_name("buddy"), Ok(AnyAllocator::Buddy(_))));
    assert!(matches!(make_by_name("bitmap"), Ok(AnyAllocator::Bitmap(_))));
    assert!(matches!(make_by_name("hybrid"), Ok(AnyAllocator::Hybrid(_))));
    assert!(matches!(make_by_name("slab"), Err("unknown allocator name")));
    assert!(matches!(make_by_name(""), Err("unknown allocator name")));
    for name in ["buddy", "bitmap", "hybrid"] {
        let mut a = make_by_name(name).unwrap();
        assert_eq!(a.name(), name);
        assert_eq!(a.init(0x10000, 128 * 4096), Ok(()));
        assert_eq!(a.alloc_pages(0, 4096), Err(AllocError::InvalidParam));
        let first = a.alloc_pages(2, 4096).unwrap();
        assert_eq!(a.alloc_pages_at(first, 2, 4096), Err(AllocError::NoMemory));
        a.dealloc_pages(first, 2);
        let again = a.alloc_pages(2, 4096).unwrap();
        assert_eq!(first, again);
    }
}

#[test]
fn runtime_slot_falls_back_when_empty() {
    let mut slot = RuntimeSlot::new();
    assert_eq!(slot.alloc_pages(1, 4096), Err(AllocError::NoMemory));
    assert_eq!(slot.alloc_pages_at(0x10000, 1, 4096), Err(AllocError::NoMemory));
    slot.dealloc_pages(0x10000, 1);
    let mut a = make_by_name("buddy").unwrap();
    assert_eq!(a.init(0x10000, 8 * 4096), Ok(()));
    slot.set_runtime_allocator(a);
    assert_eq!(slot.alloc_pages(1, 4096), Ok(0x10000));
    assert_eq!(slot.alloc_pages_at(0x10000, 1, 4096), Err(AllocError::NoMemory));
    slot.dealloc_pages(0x10000, 1);
    assert_eq!(slot.alloc_pages(8, 4096), Ok(0x10000));
    slot.clear_runtime_allocator();
    assert_eq!(slot.alloc_pages(1, 4096), Err(AllocError::NoMemory));
}

#[test]
fn workloads_generate_their_cases() {
    let small = SmallObjectWorkload.generate_test_case();
    assert_eq!(small.allocation_sizes, vec![1; 100]);
    assert_eq!(small.allocation_order, (0..100).collect::<Vec<usize>>());
    assert_eq!(small.deallocation_order, (0..100).rev().collect::<Vec<usize>>());
    let large = LargeObjectWorkload.generate_test_case();
    assert_eq!(large.allocation_sizes, vec![64; 10]);
    assert_eq!(large.deallocation_order, (0..10).rev().collect::<Vec<usize>>());
    let mixed = MixedWorkload.generate_test_case();
    assert_eq!(mixed.allocation_sizes, vec![1, 64, 1, 64, 1, 64]);
    assert_eq!(mixed.allocation_order, vec![0, 1, 2, 3, 4, 5]);
    assert_eq!(mixed.deallocation_order, vec![5, 4, 3, 2, 1, 0]);
}

#[test]
fn tester_counts_successes_and_failures() {
    // sixteen pages: the small workload asks for a hundred
    let mut buddy = BuddyAllocator::new();
    assert_eq!(buddy.init(0x1000, 0x10000), Ok(()));
    let counts = AllocatorTester::run(&mut buddy, &SmallObjectWorkload.generate_test_case());
    assert_eq!(counts.total_allocations, 100);
    assert_eq!(counts.successful_allocations, 16);
    assert_eq!(counts.failed_allocations, 84);
    assert_eq!(counts.peak_memory_usage, 16 * 4096);
    assert_eq!(counts.deallocations, 16);
    assert_eq!(buddy.used_pages(), 0);
    assert_eq!(buddy.free_list(4), vec![0]);

    let mut hybrid = HybridAllocator::new();
    assert_eq!(hybrid.init(0x100000, 256 * 4096), Ok(()));
    let counts = AllocatorTester::run_test(&mut hybrid, &MixedWorkload.generate_test_case());
    assert_eq!(counts.total_allocations, 6);
    assert_eq!(counts.successful_allocations, 6);
    assert_eq!(counts.failed_allocations, 0);
    assert_eq!(counts.peak_memory_usage, (3 + 3 * 64) * 4096);

    let mut any = make_by_name("buddy").unwrap();
    assert_eq!(any.init(0x1000, 0x10000), Ok(()));
    assert_eq!(any.free_space(), Some((16, 16)));
    let case = LargeObjectWorkload.generate_test_case();
    let (phase, addrs) = AllocatorTester::allocate(&mut any, &case);
    assert_eq!((phase.successful_allocations, phase.failed_allocations), (0, 10));
    assert_eq!(addrs, vec![None; 10]);
    assert_eq!(AllocatorTester::release(&mut any, &case, &addrs), 0);
    assert_eq!(make_by_name("hybrid").unwrap().free_space(), None);
}

#[test]
fn char_device_keeps_what_is_written() {
    let mut dev = CharDeviceNode::new("tty0");
    assert_eq!(dev.name(), "tty0");
    assert_eq!(dev.get_attr().unwrap().size(), 0);
    assert_eq!(dev.write_at(2, b"abc"), Ok(3));
    assert_eq!(dev.get_attr().unwrap().size(), 5);
    assert_eq!(dev.get_attr().unwrap().file_type(), VfsNodeType::CharDevice);
    let mut buf = [9u8; 8];
    assert_eq!(dev.read_at(0, &mut buf), Ok(5));
    assert_eq!(buf, [0, 0, b'a', b'b', b'c', 9, 9, 9]);
    assert_eq!(dev.write_at(0, b"xy"), Ok(2));
    assert_eq!(dev.read_at(1, &mut buf), Ok(4));
    assert_eq!(&buf[..4], b"yabc");
    assert_eq!(dev.read_at(5, &mut buf), Ok(0));
    assert_eq!(dev.read_at(50, &mut buf), Ok(0));
    assert_eq!(dev.write_at(usize::MAX, b"ab"), Err(VfsError::InvalidInput));
    assert_eq!(dev.write_at(7, b""), Ok(0));
    assert_eq!(dev.get_attr().unwrap().size(), 7);

    assert_eq!(get_device_name(0), "vda");
    assert_eq!(get_device_name(1), "vdb");
    assert_eq!(get_device_name(25), "vdz");
    assert_eq!(get_device_name(26), "vda");
    assert_eq!(get_device_name(255), "vdv");
}

#[test]
fn page_cache_evicts_least_recently_used_page() {
    assert!(PageCache::with_capacity(0).is_none());
    let mut cache = PageCache::with_capacity(2).unwrap();
    let mut page = CachePage::new(1, 0);
    page.data[0] = 42;
    page.dirty = true;
    cache.put_page(page.copy());
    // a hit returns what was stored
    let got = cache.get_page(1, 100).unwrap();
    assert_eq!((got.file_id, got.offset, got.data[0], got.dirty), (1, 0, 42, true));
    // a miss loads a blank page at the start of the page that holds the offset
    let got = cache.get_page(1, 4096 + 7).unwrap();
    assert_eq!((got.file_id, got.offset, got.data[0], got.dirty), (1, 4096, 0, false));
    assert_eq!(cache.counters(), (1, 1));
    // page 0 is touched, so page 1 is the least recently used
    assert_eq!(cache.get_page(1, 0).unwrap().data[0], 42);
    let _ = cache.get_page(2, 0).unwrap();
    // page 0 of file 1 is still cached; page 1 was dropped and loads blank again
    assert_eq!(cache.get_page(1, 0).unwrap().data[0], 42);
    assert_eq!(cache.counters(), (3, 2));
    let mut other = CachePage::new(1, 4096);
    other.data[5] = 9;
    cache.put_page(other);
    assert_eq!(cache.get_page(1, 5000).unwrap().data[5], 9);
    // storing a page under a cached key replaces it
    let mut newer = CachePage::new(1, 4100);
    newer.data[5] = 10;
    cache.put_page(newer);
    let got = cache.get_page(1, 4096).unwrap();
    assert_eq!((got.offset, got.data[5]), (4100, 10));
    assert_eq!(PageCache::new(1).counters(), (0, 0));
}

#[test]
fn release_skips_entries_that_name_no_extent() {
    let mut buddy = BuddyAllocator::new();
    assert_eq!(buddy.init(0x10000, 4 * 4096), Ok(()));
    let case = unfound::allocators::tester::AllocatorTestCase {
        allocation_sizes: vec![2, 4, 1],
        allocation_order: vec![0, 1, 2],
        // 1 names the allocation that failed, 7 names none, 0 comes twice
        deallocation_order: vec![1, 0, 7, 0, 2],
    };
    let (phase, addrs) = AllocatorTester::allocate(&mut buddy, &case);
    assert_eq!((phase.successful_allocations, phase.failed_allocations), (2, 1));
    assert_eq!(addrs, vec![Some(0x10000), None, Some(0x12000)]);
    assert_eq!(AllocatorTester::release(&mut buddy, &case, &addrs), 3);
    assert_eq!(buddy.used_pages(), 0);
    assert_eq!(buddy.free_list(2), vec![0]);
    assert_eq!(PageAllocator::name(&buddy), "buddy");
    assert_eq!(PageAllocator::name(&HybridAllocator::new()), "hybrid");
}

#[test]
fn page_chunks_split_a_read_at_page_ends() {
    assert_eq!(page_chunk(0, 10), (0, 10));
    assert_eq!(page_chunk(4090, 10), (4090, 6));
    assert_eq!(page_chunk(4096, 10), (0, 10));
    assert_eq!(page_chunk(5000, 10_000), (904, 3192));
    assert_eq!(page_chunk(7, 0), (7, 0));
    assert_eq!(page_chunk(usize::MAX, 5), (4095, 1));
    let mut page = CachePage::new(1, 0);
    page.data[4094] = 7;
    page.data[4095] = 8;
    let mut buf = [1u8; 5];
    copy_from_page(&page, 4094, &mut buf, 2, 2);
    assert_eq!(buf, [1, 1, 7, 8, 1]);
    copy_from_page(&page, 0, &mut buf, 5, 0);
    assert_eq!(buf, [1, 1, 7, 8, 1]);
}
