//! Workloads for page allocators and the counts a run of one yields.

use vstd::prelude::*;
use crate::allocators::{PAGE_SIZE, PageAllocator};

verus! {

/// A pattern of allocations and deallocations.
pub struct AllocatorTestCase {
    /// The size of each allocation, in pages.
    pub allocation_sizes: Vec<usize>,
    /// The order in which the allocations are made.
    pub allocation_order: Vec<usize>,
    /// The allocations to free, by their place in `allocation_sizes`.
    pub deallocation_order: Vec<usize>,
}

/// What a run of a test case counted.
#[derive(Clone, Copy, Debug, PartialEq, Eq, Structural)]
pub struct AllocationCounts {
    /// The number of allocations that were tried.
    pub total_allocations: usize,
    /// The number of those that succeeded.
    pub successful_allocations: usize,
    /// The number of those that failed.
    pub failed_allocations: usize,
    /// The bytes of the allocations that succeeded, at most `usize::MAX`.
    pub peak_memory_usage: usize,
    /// The number of extents that were freed.
    pub deallocations: usize,
}

/// Something that makes a test case.
pub trait Workload {
    /// The sizes of the allocations of this workload.
    spec fn sizes(&self) -> Seq<usize>;

    /// The test case: the allocations in order, then freed in reverse.
    fn generate_test_case(&self) -> (r: AllocatorTestCase)
        ensures
            r.allocation_sizes@ == self.sizes(),
            r.allocation_order@ == Seq::new(self.sizes().len(), |i: int| i as usize),
            r.deallocation_order@ == Seq::new(
                self.sizes().len(),
                |i: int| (self.sizes().len() - 1 - i) as usize,
            ),
    ;
}

/// A hundred allocations of one page.
pub struct SmallObjectWorkload;

/// Ten allocations of sixty-four pages.
pub struct LargeObjectWorkload;

/// Allocations of one and of sixty-four pages in turn, three of each.
pub struct MixedWorkload;

/// The test case that allocates `sizes` in order and frees in reverse.
fn in_order_then_reversed(sizes: Vec<usize>) -> (r: AllocatorTestCase)
    ensures
        r.allocation_sizes@ == sizes@,
        r.allocation_order@ == Seq::new(sizes@.len(), |i: int| i as usize),
        r.deallocation_order@ == Seq::new(sizes@.len(), |i: int| (sizes@.len() - 1 - i) as usize),
{
    let n = sizes.len();
    let mut order: Vec<usize> = Vec::new();
    let mut reversed: Vec<usize> = Vec::new();
    let mut i: usize = 0;
    while i < n
        invariant
            n == sizes@.len(),
            i <= n,
            order@ == Seq::new(i as nat, |j: int| j as usize),
            reversed@ == Seq::new(i as nat, |j: int| (n - 1 - j) as usize),
        decreases n - i,
    {
        order.push(i);
        reversed.push(n - 1 - i);
        i = i + 1;
        assert(order@ =~= Seq::new(i as nat, |j: int| j as usize));
        assert(reversed@ =~= Seq::new(i as nat, |j: int| (n - 1 - j) as usize));
    }
    AllocatorTestCase { allocation_sizes: sizes, allocation_order: order, deallocation_order: reversed }
}

/// `count` times `size`.
fn repeated(size: usize, count: usize) -> (r: Vec<usize>)
    ensures
        r@ == Seq::new(count as nat, |i: int| size),
{
    let mut v: Vec<usize> = Vec::new();
    let mut i: usize = 0;
    while i < count
        invariant
            i <= count,
            v@ == Seq::new(i as nat, |j: int| size),
        decreases count - i,
    {
        v.push(size);
        i = i + 1;
        assert(v@ =~= Seq::new(i as nat, |j: int| size));
    }
    v
}

impl Workload for SmallObjectWorkload {
    open spec fn sizes(&self) -> Seq<usize> {
        Seq::new(100, |i: int| 1usize)
    }

    fn generate_test_case(&self) -> (r: AllocatorTestCase) {
        in_order_then_reversed(repeated(1, 100))
    }
}

impl Workload for LargeObjectWorkload {
    open spec fn sizes(&self) -> Seq<usize> {
        Seq::new(10, |i: int| 64usize)
    }

    fn generate_test_case(&self) -> (r: AllocatorTestCase) {
        in_order_then_reversed(repeated(64, 10))
    }
}

impl Workload for MixedWorkload {
    open spec fn sizes(&self) -> Seq<usize> {
        seq![1usize, 64usize, 1usize, 64usize, 1usize, 64usize]
    }

    fn generate_test_case(&self) -> (r: AllocatorTestCase) {
        let mut sizes: Vec<usize> = Vec::new();
        sizes.push(1);
        sizes.push(64);
        sizes.push(1);
        sizes.push(64);
        sizes.push(1);
        sizes.push(64);
        assert(sizes@ =~= seq![1usize, 64usize, 1usize, 64usize, 1usize, 64usize]);
        in_order_then_reversed(sizes)
    }
}

/// Runs test cases on allocators.
pub struct AllocatorTester;

/// What the allocations of a test case counted.
#[derive(Clone, Copy, Debug, PartialEq, Eq, Structural)]
pub struct AllocationPhase {
    /// The number of allocations that succeeded.
    pub successful_allocations: usize,
    /// The number of allocations that failed.
    pub failed_allocations: usize,
    /// The bytes of the allocations that succeeded, at most `usize::MAX`.
    pub peak_memory_usage: usize,
}

impl AllocatorTester {
    /// Makes each allocation of `test_case` at page alignment. Returns the
    /// counts and, for each allocation, the address it got if it succeeded.
    pub fn allocate<A: PageAllocator>(allocator: &mut A, test_case: &AllocatorTestCase) -> (r: (
        AllocationPhase,
        Vec<Option<usize>>,
    ))
        requires
            old(allocator).valid(),
        ensures
            final(allocator).valid(),
            final(allocator).region() == old(allocator).region(),
            r.1@ == answers::<A>(old(allocator)@, test_case.allocation_sizes@),
            final(allocator)@ == allocated_state::<A>(
                old(allocator)@,
                test_case.allocation_sizes@,
                test_case.allocation_sizes@.len() as int,
            ),
            r.0.successful_allocations == success_count::<A>(
                old(allocator)@,
                test_case.allocation_sizes@,
                test_case.allocation_sizes@.len() as int,
            ),
            r.0.successful_allocations + r.0.failed_allocations
                == test_case.allocation_sizes@.len(),
            r.0.peak_memory_usage == peak_bytes::<A>(
                old(allocator)@,
                test_case.allocation_sizes@,
                test_case.allocation_sizes@.len() as int,
            ),
            forall|i: int|
                0 <= i < r.1@.len() && (#[trigger] r.1@[i]) is Some ==> crate::allocators::extent_in_region(
                    old(allocator).region(),
                    r.1@[i]->Some_0,
                    test_case.allocation_sizes@[i],
                    PAGE_SIZE,
                ),
    {
        let ghost v = allocator@;
        let ghost sizes = test_case.allocation_sizes@;
        let n = test_case.allocation_sizes.len();
        let mut successful_allocations: usize = 0;
        let mut failed_allocations: usize = 0;
        let mut peak_memory_usage: usize = 0;
        let mut allocated_addrs: Vec<Option<usize>> = Vec::new();
        let mut i: usize = 0;
        while i < n
            invariant
                n == test_case.allocation_sizes@.len(),
                i <= n,
                allocator.valid(),
                allocator.region() == old(allocator).region(),
                allocated_addrs@.len() == i,
                successful_allocations + failed_allocations == i,
                v == old(allocator)@,
                sizes == test_case.allocation_sizes@,
                allocator@ == allocated_state::<A>(v, sizes, i as int),
                successful_allocations == success_count::<A>(v, sizes, i as int),
                peak_memory_usage == peak_bytes::<A>(v, sizes, i as int),
                forall|j: int|
                    0 <= j < i ==> #[trigger] allocated_addrs@[j] == allocation_answer::<A>(v, sizes, j),
                forall|j: int|
                    0 <= j < i && (#[trigger] allocated_addrs@[j]) is Some
                        ==> crate::allocators::extent_in_region(
                        old(allocator).region(),
                        allocated_addrs@[j]->Some_0,
                        test_case.allocation_sizes@[j],
                        PAGE_SIZE,
                    ),
            decreases n - i,
        {
            let size = test_case.allocation_sizes[i];
            match allocator.alloc_pages(size, PAGE_SIZE) {
                Ok(addr) => {
                    successful_allocations = successful_allocations + 1;
                    allocated_addrs.push(Some(addr));
                    let bytes = size * PAGE_SIZE;
                    peak_memory_usage = if peak_memory_usage > usize::MAX - bytes {
                        usize::MAX
                    } else {
                        peak_memory_usage + bytes
                    };
                },
                Err(_) => {
                    failed_allocations = failed_allocations + 1;
                    allocated_addrs.push(None);
                },
            }
            i = i + 1;
        }
        assert(allocated_addrs@ =~= answers::<A>(v, sizes));
        (
            AllocationPhase { successful_allocations, failed_allocations, peak_memory_usage },
            allocated_addrs,
        )
    }

    /// Frees the extents that the deallocation order of `test_case` names
    /// and returns their number. An entry that names no allocation, or one
    /// that failed, is skipped.
    pub fn release<A: PageAllocator>(
        allocator: &mut A,
        test_case: &AllocatorTestCase,
        allocated_addrs: &Vec<Option<usize>>,
    ) -> (deallocations: usize)
        requires
            old(allocator).valid(),
        ensures
            final(allocator).valid(),
            final(allocator).region() == old(allocator).region(),
            deallocations <= test_case.deallocation_order@.len(),
            deallocations == released_count(
                test_case.deallocation_order@,
                allocated_addrs@,
                test_case.deallocation_order@.len() as int,
            ),
            final(allocator)@ == released_state::<A>(
                old(allocator)@,
                test_case.deallocation_order@,
                allocated_addrs@,
                test_case.deallocation_order@.len() as int,
            ),
    {
        let m = test_case.deallocation_order.len();
        let mut deallocations: usize = 0;
        let mut k: usize = 0;
        while k < m
            invariant
                m == test_case.deallocation_order@.len(),
                k <= m,
                deallocations <= k,
                allocator.valid(),
                allocator.region() == old(allocator).region(),
                deallocations == released_count(
                    test_case.deallocation_order@,
                    allocated_addrs@,
                    k as int,
                ),
                allocator@ == released_state::<A>(
                    old(allocator)@,
                    test_case.deallocation_order@,
                    allocated_addrs@,
                    k as int,
                ),
            decreases m - k,
        {
            let idx = test_case.deallocation_order[k];
            if idx < allocated_addrs.len() {
                match allocated_addrs[idx] {
                    Some(addr) => {
                        allocator.dealloc_pages(addr, 1);
                        deallocations = deallocations + 1;
                    },
                    None => {},
                }
            }
            k = k + 1;
        }
        deallocations
    }

    /// Makes each allocation of `test_case` at page alignment, then frees
    /// the extents named by its deallocation order, and counts.
    ///
    /// Every allocation is counted as a success or as a failure.
    pub fn run<A: PageAllocator>(allocator: &mut A, test_case: &AllocatorTestCase) -> (r:
        AllocationCounts)
        requires
            old(allocator).valid(),
        ensures
            final(allocator).valid(),
            final(allocator).region() == old(allocator).region(),
            r.total_allocations == test_case.allocation_sizes@.len(),
            r.successful_allocations + r.failed_allocations == r.total_allocations,
            r.deallocations <= test_case.deallocation_order@.len(),
            r == counts_of::<A>(old(allocator)@, test_case),
            final(allocator)@ == state_after_run::<A>(old(allocator)@, test_case),
    {
        let (phase, allocated_addrs) = Self::allocate(allocator, test_case);
        let deallocations = Self::release(allocator, test_case, &allocated_addrs);
        AllocationCounts {
            total_allocations: test_case.allocation_sizes.len(),
            successful_allocations: phase.successful_allocations,
            failed_allocations: phase.failed_allocations,
            peak_memory_usage: phase.peak_memory_usage,
            deallocations,
        }
    }

    /// The same as `run`.
    pub fn run_test<A: PageAllocator>(allocator: &mut A, test_case: &AllocatorTestCase) -> (r:
        AllocationCounts)
        requires
            old(allocator).valid(),
        ensures
            final(allocator).valid(),
            final(allocator).region() == old(allocator).region(),
            r.total_allocations == test_case.allocation_sizes@.len(),
            r.successful_allocations + r.failed_allocations == r.total_allocations,
            r.deallocations <= test_case.deallocation_order@.len(),
            r == counts_of::<A>(old(allocator)@, test_case),
            final(allocator)@ == state_after_run::<A>(old(allocator)@, test_case),
    {
        Self::run(allocator, test_case)
    }
}

/// The state of an allocator after the first `k` allocations of `sizes`,
/// each at page alignment.
pub open spec fn allocated_state<A: PageAllocator>(v: A::V, sizes: Seq<usize>, k: int) -> A::V
    decreases k,
{
    if k <= 0 || k > sizes.len() {
        v
    } else {
        A::after_alloc(allocated_state::<A>(v, sizes, k - 1), sizes[k - 1], PAGE_SIZE)
    }
}

/// The address that allocation `i` of `sizes` gets, if it succeeds.
pub open spec fn allocation_answer<A: PageAllocator>(v: A::V, sizes: Seq<usize>, i: int) -> Option<
    usize,
> {
    match A::alloc_result(allocated_state::<A>(v, sizes, i), sizes[i], PAGE_SIZE) {
        Ok(addr) => Some(addr),
        Err(_) => None,
    }
}

/// The answers to all the allocations of `sizes`.
pub open spec fn answers<A: PageAllocator>(v: A::V, sizes: Seq<usize>) -> Seq<Option<usize>> {
    Seq::new(sizes.len(), |i: int| allocation_answer::<A>(v, sizes, i))
}

/// The number of the first `k` allocations of `sizes` that succeed.
pub open spec fn success_count<A: PageAllocator>(v: A::V, sizes: Seq<usize>, k: int) -> nat
    decreases k,
{
    if k <= 0 || k > sizes.len() {
        0
    } else if allocation_answer::<A>(v, sizes, k - 1) is Some {
        success_count::<A>(v, sizes, k - 1) + 1
    } else {
        success_count::<A>(v, sizes, k - 1)
    }
}

/// The bytes of those of the first `k` allocations of `sizes` that
/// succeed, at most `usize::MAX`.
pub open spec fn peak_bytes<A: PageAllocator>(v: A::V, sizes: Seq<usize>, k: int) -> nat
    decreases k,
{
    if k <= 0 || k > sizes.len() {
        0
    } else if allocation_answer::<A>(v, sizes, k - 1) is Some {
        let bytes = peak_bytes::<A>(v, sizes, k - 1) + sizes[k - 1] * PAGE_SIZE;
        if bytes > usize::MAX {
            usize::MAX as nat
        } else {
            bytes as nat
        }
    } else {
        peak_bytes::<A>(v, sizes, k - 1)
    }
}

/// What a run of `test_case` counts on an allocator in the state `v`.
pub open spec fn counts_of<A: PageAllocator>(v: A::V, test_case: &AllocatorTestCase) -> AllocationCounts {
    let sizes = test_case.allocation_sizes@;
    let n = sizes.len() as int;
    AllocationCounts {
        total_allocations: sizes.len() as usize,
        successful_allocations: success_count::<A>(v, sizes, n) as usize,
        failed_allocations: (n - success_count::<A>(v, sizes, n)) as usize,
        peak_memory_usage: peak_bytes::<A>(v, sizes, n) as usize,
        deallocations: released_count(
            test_case.deallocation_order@,
            answers::<A>(v, sizes),
            test_case.deallocation_order@.len() as int,
        ) as usize,
    }
}

/// The state of an allocator after a run of `test_case` from the state `v`.
pub open spec fn state_after_run<A: PageAllocator>(v: A::V, test_case: &AllocatorTestCase) -> A::V {
    let sizes = test_case.allocation_sizes@;
    released_state::<A>(
        allocated_state::<A>(v, sizes, sizes.len() as int),
        test_case.deallocation_order@,
        answers::<A>(v, sizes),
        test_case.deallocation_order@.len() as int,
    )
}

/// The extent that entry `idx` of a deallocation order names: the address
/// that allocation `idx` got, if there is such an allocation and it
/// succeeded.
pub open spec fn named_extent(addrs: Seq<Option<usize>>, idx: usize) -> Option<usize> {
    if idx < addrs.len() {
        addrs[idx as int]
    } else {
        None
    }
}

/// The number of the first `k` entries of `order` that name an extent.
pub open spec fn released_count(order: Seq<usize>, addrs: Seq<Option<usize>>, k: int) -> nat
    decreases k,
{
    if k <= 0 || k > order.len() {
        0
    } else if named_extent(addrs, order[k - 1]) is Some {
        released_count(order, addrs, k - 1) + 1
    } else {
        released_count(order, addrs, k - 1)
    }
}

/// The state of an allocator after the extents that the first `k` entries
/// of `order` name were returned to it, one after the other.
pub open spec fn released_state<A: PageAllocator>(
    v: A::V,
    order: Seq<usize>,
    addrs: Seq<Option<usize>>,
    k: int,
) -> A::V
    decreases k,
{
    if k <= 0 || k > order.len() {
        v
    } else {
        let before = released_state::<A>(v, order, addrs, k - 1);
        match named_extent(addrs, order[k - 1]) {
            Some(addr) => A::released(before, addr),
            None => before,
        }
    }
}

} // verus!
