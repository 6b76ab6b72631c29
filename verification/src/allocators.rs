//! Page-granular allocators over a fixed region of virtual addresses.

use vstd::prelude::*;
use crate::arith::power_of_two;

pub mod buddy_model;
pub mod buddy_ops;
pub mod buddy;
pub mod hybrid_model;
pub mod hybrid;
pub mod bitmap;
pub mod runtime;
pub mod tester;

verus! {

/// The size of a page in bytes.
pub const PAGE_SIZE: usize = 4096;

/// Why an allocator call failed.
#[derive(Clone, Copy, Debug, PartialEq, Eq, Structural)]
pub enum AllocError {
    /// An argument violates a documented constraint.
    InvalidParam,
    /// Memory that was added overlaps memory that was there.
    MemoryOverlap,
    /// No free extent satisfies the request.
    NoMemory,
    /// The region that was returned had not been handed out.
    NotAllocated,
}

/// A request the allocators accept: at least one page, and an alignment
/// that is a power of two no smaller than a page.
pub open spec fn valid_request(num_pages: usize, align: usize) -> bool {
    &&& num_pages >= 1
    &&& align >= PAGE_SIZE
    &&& power_of_two(align as int)
}

/// `x` rounded up to a multiple of the page size.
pub open spec fn round_up_page(x: int) -> int {
    ((x + PAGE_SIZE - 1) / (PAGE_SIZE as int)) * PAGE_SIZE
}

/// `x` rounded down to a multiple of the page size.
pub open spec fn round_down_page(x: int) -> int {
    (x / (PAGE_SIZE as int)) * PAGE_SIZE
}

/// The region `[start, start + size)` fits the address space and holds at
/// least one whole page.
pub open spec fn region_ok(start: usize, size: usize) -> bool {
    &&& start + size <= usize::MAX
    &&& round_up_page(start as int) < round_down_page(start + size)
}

/// The number of whole pages in `[start, start + size)`.
pub open spec fn region_pages(start: usize, size: usize) -> nat {
    ((round_down_page(start + size) - round_up_page(start as int)) / (PAGE_SIZE as int)) as nat
}

/// The page-aligned bounds of the region `[start, start + size)`, as
/// `(first byte, number of pages)`; `None` where the region overflows the
/// address space or holds no whole page.
pub fn page_bounds(start: usize, size: usize) -> (r: Option<(usize, usize)>)
    ensures
        r is Some <==> region_ok(start, size),
        r is Some ==> {
            let (base, pages) = r->Some_0;
            &&& base == round_up_page(start as int)
            &&& pages == region_pages(start, size)
            &&& pages >= 1
            &&& base % PAGE_SIZE == 0
            &&& base + pages * PAGE_SIZE <= usize::MAX
        },
{
    if size > usize::MAX - start {
        return None;
    }
    if start > usize::MAX - (PAGE_SIZE - 1) {
        return None;
    }
    let sum = start + size;
    let up = start + (PAGE_SIZE - 1);
    let end = sum & !(PAGE_SIZE - 1);
    let begin = up & !(PAGE_SIZE - 1);
    assert(end == (sum / 4096) * 4096) by (bit_vector)
        requires
            end == sum & !4095usize,
    ;
    assert(begin == (up / 4096) * 4096) by (bit_vector)
        requires
            begin == up & !4095usize,
    ;
    if end <= begin {
        return None;
    }
    let pages = (end - begin) / PAGE_SIZE;
    Some((begin, pages))
}

/// An address at or above a page-aligned base that is a multiple of a valid
/// alignment is a multiple of the page size, and a whole number of pages
/// above the base.
pub proof fn lemma_aligned_start(base: nat, start: usize, align: usize)
    requires
        base % (PAGE_SIZE as nat) == 0,
        base <= start,
        align >= PAGE_SIZE,
        power_of_two(align as int),
        start % align == 0,
    ensures
        start % PAGE_SIZE == 0,
        start == base + ((start - base) / (PAGE_SIZE as int)) * PAGE_SIZE,
{
    let k = choose|k: nat| align as int == #[trigger] vstd::arithmetic::power2::pow2(k);
    vstd::arithmetic::power2::lemma2_to64();
    crate::arith::lemma_pow2_monotone(12, k);
    crate::arith::lemma_pow2_divides(start as int, k, 12);
    let d = start - base;
    assert(d % 4096 == 0);
    assert(d == (d / 4096) * 4096);
}

/// `memory_addr::is_aligned` masks the address with `align - 1`; for a
/// power of two that is the test `addr % align == 0`. With `align == 0` the
/// subtraction would underflow, so that input is left out.
pub assume_specification[ memory_addr::is_aligned ](addr: usize, align: usize) -> (r: bool)
    requires
        power_of_two(align as int),
    ensures
        r == (addr % align == 0),
;

/// `usize::is_power_of_two` is documented to return true exactly when the
/// value is `2^k` for some `k`.
pub assume_specification[ usize::is_power_of_two ](x: usize) -> (r: bool)
    ensures
        r == power_of_two(x as int),
;

/// What every page allocator offers: one capability set over one region.
///
/// Whatever the strategy, an extent that is handed out is aligned as asked
/// and lies in the region, and a request that is not valid fails with
/// `InvalidParam`.
pub trait PageAllocator: Sized + View {
    /// The allocator's state is valid.
    spec fn valid(&self) -> bool;

    /// The first byte of the region and its number of pages.
    spec fn region(&self) -> (nat, nat);

    /// The name of the strategy as a mathematical value.
    spec fn strategy(&self) -> Seq<char>;

    /// The state after `dealloc_pages(pos, _)` on the state `v`: the live
    /// extent that starts at `pos` is back with the free pages; a state in
    /// which no live extent starts at `pos` is unchanged.
    spec fn released(v: Self::V, pos: usize) -> Self::V;

    /// The state that `init(start, size)` sets up from the state `v`, or
    /// `None` where the strategy refuses the region.
    spec fn set_up(v: Self::V, start: usize, size: usize) -> Option<Self::V>;

    /// What `alloc_pages(num_pages, align)` returns on the state `v`.
    spec fn alloc_result(v: Self::V, num_pages: usize, align: usize) -> Result<usize, AllocError>;

    /// The state after `alloc_pages(num_pages, align)` on the state `v`.
    spec fn after_alloc(v: Self::V, num_pages: usize, align: usize) -> Self::V;

    /// What `alloc_pages_at(start, num_pages, align)` returns on the state
    /// `v`.
    spec fn alloc_at_result(v: Self::V, start: usize, num_pages: usize, align: usize) -> Result<
        usize,
        AllocError,
    >;

    /// The state after `alloc_pages_at(start, num_pages, align)` on the
    /// state `v`.
    spec fn after_alloc_at(v: Self::V, start: usize, num_pages: usize, align: usize) -> Self::V;

    /// A short name of the strategy.
    fn name(&self) -> (r: &'static str)
        ensures
            r@ == self.strategy(),
    ;

    /// Sets the allocator up over the whole pages of `[start, start + size)`.
    fn init(&mut self, start_vaddr: usize, size: usize) -> (res: Result<(), AllocError>)
        ensures
            !region_ok(start_vaddr, size) ==> res == Err::<(), AllocError>(AllocError::InvalidParam),
            res is Ok ==> final(self).valid() && final(self).region() == (
                round_up_page(start_vaddr as int) as nat,
                region_pages(start_vaddr, size),
            ),
            res is Err ==> *final(self) == *old(self),
            match Self::set_up(old(self)@, start_vaddr, size) {
                Some(v) => res is Ok && final(self)@ == v,
                None => res == Err::<(), AllocError>(AllocError::InvalidParam),
            },
    ;

    /// Hands out `num_pages` pages at an address that is a multiple of
    /// `align_pow2`.
    fn alloc_pages(&mut self, num_pages: usize, align_pow2: usize) -> (res: Result<
        usize,
        AllocError,
    >)
        requires
            old(self).valid(),
        ensures
            final(self).valid(),
            final(self).region() == old(self).region(),
            !valid_request(num_pages, align_pow2) ==> res == Err::<usize, AllocError>(
                AllocError::InvalidParam,
            ),
            res is Ok ==> extent_in_region(old(self).region(), res->Ok_0, num_pages, align_pow2),
            res == Self::alloc_result(old(self)@, num_pages, align_pow2),
            final(self)@ == Self::after_alloc(old(self)@, num_pages, align_pow2),
            res is Err ==> final(self)@ == old(self)@,
    ;

    /// Hands out `num_pages` pages at `start`.
    fn alloc_pages_at(&mut self, start: usize, num_pages: usize, align_pow2: usize) -> (res:
        Result<usize, AllocError>)
        requires
            old(self).valid(),
        ensures
            final(self).valid(),
            final(self).region() == old(self).region(),
            !valid_request(num_pages, align_pow2) ==> res == Err::<usize, AllocError>(
                AllocError::InvalidParam,
            ),
            res is Ok ==> res->Ok_0 == start && extent_in_region(
                old(self).region(),
                start,
                num_pages,
                align_pow2,
            ),
            res == Self::alloc_at_result(old(self)@, start, num_pages, align_pow2),
            final(self)@ == Self::after_alloc_at(old(self)@, start, num_pages, align_pow2),
            res is Err ==> final(self)@ == old(self)@,
    ;

    /// Returns the live extent that starts at `pos`. The size is the one
    /// recorded when the extent was handed out; `num_pages` is not read.
    fn dealloc_pages(&mut self, pos: usize, num_pages: usize)
        requires
            old(self).valid(),
        ensures
            final(self).valid(),
            final(self).region() == old(self).region(),
            final(self)@ == Self::released(old(self)@, pos),
    ;
}

/// The extent of `num_pages` pages at `addr` starts at a multiple of
/// `align` and of the page size, and lies in the region, which lies in the
/// address space.
pub open spec fn extent_in_region(region: (nat, nat), addr: usize, num_pages: usize, align: usize) -> bool {
    &&& addr % align == 0
    &&& addr % PAGE_SIZE == 0
    &&& region.0 <= addr
    &&& addr + num_pages * PAGE_SIZE <= region.0 + region.1 * PAGE_SIZE
    &&& region.0 + region.1 * PAGE_SIZE <= usize::MAX
}

} // verus!
