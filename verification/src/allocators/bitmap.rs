//! Bitmap page allocator.
//!
//! The free pages are kept by `axallocator::BitmapPageAllocator`. This
//! module validates requests before they reach it, records the size of each
//! extent it hands out, and returns extents by their recorded size.
//!
//! An allocation takes the lowest run of free pages that starts at a
//! multiple of the alignment. At page alignment the outside bitmap finds
//! that run; at a greater alignment this module offers it each aligned
//! address of the region in turn, lowest first, so that any power of two is
//! served.

use vstd::prelude::*;
use std::collections::BTreeMap;
use axallocator::{BaseAllocator, PageAllocator};
use crate::allocators::{PAGE_SIZE, AllocError, valid_request, page_bounds, region_ok, region_pages, round_up_page, lemma_aligned_start};
use crate::maps::{weighted_sum, lemma_sum_remove, lemma_sum_insert_new, lemma_sum_empty};

verus! {

/// The bitmap counts its pages from a multiple of this: one gibibyte.
pub const MAX_ALIGN: usize = 0x4000_0000;

/// The greatest number of pages the bitmap covers, counted from the
/// gibibyte boundary below the region.
pub const BITMAP_CAPACITY: usize = 65536;

/// `axallocator::BitmapPageAllocator`: a bitmap with one bit per page. Its
/// inside is not read here; what is said of it is said through
/// `bitmap_free` and `bitmap_layout`.
#[verifier::external_type_specification]
#[verifier::external_body]
pub struct ExBitmapPageAllocator<const N: usize>(axallocator::BitmapPageAllocator<N>);

/// The addresses of the pages that the outside bitmap holds as free.
pub uninterp spec fn bitmap_free(a: axallocator::BitmapPageAllocator<4096>) -> Set<int>;

/// The three counters of the outside bitmap: the address it counts pages
/// from, the number of pages of its region, and the number of pages it
/// counts as used.
pub uninterp spec fn bitmap_layout(a: axallocator::BitmapPageAllocator<4096>) -> (int, int, int);

/// The addresses of the `n` pages from `start` on.
pub open spec fn pages_from(start: int, n: int) -> Set<int> {
    Set::new(|p: int| start <= p < start + n * PAGE_SIZE && (p - start) % (PAGE_SIZE as int) == 0)
}

/// The gibibyte boundary at or below `addr`.
pub open spec fn gib_floor(addr: int) -> int {
    addr - addr % (MAX_ALIGN as int)
}

/// A region that the outside bitmap can cover: it holds a whole page, and
/// its pages, counted from the gibibyte boundary below it, are at most
/// `BITMAP_CAPACITY`.
pub open spec fn bitmap_region_ok(start: usize, size: usize) -> bool {
    &&& region_ok(start, size)
    &&& (round_up_page(start as int) % (MAX_ALIGN as int)) / (PAGE_SIZE as int) + region_pages(
        start,
        size,
    ) <= BITMAP_CAPACITY
}

/// The `n` pages from `addr` on are all free.
pub open spec fn run_free_at(free: Set<int>, addr: int, n: int) -> bool {
    pages_from(addr, n).subset_of(free)
}

/// `addr` starts the lowest run of `n` free pages among the addresses from
/// `from` on that are multiples of `align`.
pub open spec fn is_lowest_run(free: Set<int>, from: int, addr: int, n: int, align: int) -> bool {
    &&& from <= addr
    &&& addr % align == 0
    &&& run_free_at(free, addr, n)
    &&& forall|lower: int|
        from <= lower < addr && lower % align == 0 ==> !#[trigger] run_free_at(free, lower, n)
}

/// Some address from `from` on that is a multiple of `align` starts a run
/// of `n` free pages.
pub open spec fn has_run(free: Set<int>, from: int, n: int, align: int) -> bool {
    exists|addr: int| from <= addr && addr % align == 0 && #[trigger] run_free_at(free, addr, n)
}

/// `BitmapPageAllocator::new` makes an allocator with no free page and all
/// counters zero.
#[verifier::external_body]
fn inner_new() -> (r: axallocator::BitmapPageAllocator<4096>)
    ensures
        bitmap_free(r) == Set::<int>::empty(),
        bitmap_layout(r) == (0int, 0int, 0int),
{
    axallocator::BitmapPageAllocator::<4096>::new()
}

/// `BaseAllocator::init` of the bitmap rounds the region inwards to whole
/// pages, counts pages from the gibibyte boundary below it and marks each
/// page of the region free. It panics where the rounded region is empty or
/// overflows, or reaches past the bitmap's capacity; those inputs are left
/// out. It resets neither the free pages nor the count of used pages, so
/// the allocator must be fresh.
#[verifier::external_body]
fn inner_init(a: &mut axallocator::BitmapPageAllocator<4096>, start: usize, size: usize)
    requires
        bitmap_region_ok(start, size),
        bitmap_free(*old(a)) == Set::<int>::empty(),
        bitmap_layout(*old(a)) == (0int, 0int, 0int),
    ensures
        bitmap_layout(*final(a)) == (
            gib_floor(round_up_page(start as int)),
            region_pages(start, size) as int,
            0int,
        ),
        bitmap_free(*final(a)) == pages_from(
            round_up_page(start as int),
            region_pages(start, size) as int,
        ),
{
    a.init(start, size)
}

/// `PageAllocator::alloc_pages` of the bitmap at page alignment. It
/// subtracts the used pages from the total, so the former must not exceed
/// the latter. It succeeds exactly when no more pages are asked for than
/// are unused and some run of that many free pages exists; it then takes
/// the lowest such run, whose pages are free no more and count as used. On
/// failure the error is `NoMemory` and nothing changed.
#[verifier::external_body]
fn inner_alloc_pages(
    a: &mut axallocator::BitmapPageAllocator<4096>,
    num_pages: usize,
    align_pow2: usize,
) -> (r: Result<usize, AllocError>)
    requires
        num_pages >= 1,
        align_pow2 == PAGE_SIZE,
        bitmap_layout(*old(a)).0 % (PAGE_SIZE as int) == 0,
        bitmap_layout(*old(a)).2 <= bitmap_layout(*old(a)).1,
    ensures
        r is Ok <==> num_pages <= bitmap_layout(*old(a)).1 - bitmap_layout(*old(a)).2 && has_run(
            bitmap_free(*old(a)),
            bitmap_layout(*old(a)).0,
            num_pages as int,
            PAGE_SIZE as int,
        ),
        match r {
            Ok(addr) => {
                &&& is_lowest_run(
                    bitmap_free(*old(a)),
                    bitmap_layout(*old(a)).0,
                    addr as int,
                    num_pages as int,
                    PAGE_SIZE as int,
                )
                &&& bitmap_free(*final(a)) == bitmap_free(*old(a)).difference(
                    pages_from(addr as int, num_pages as int),
                )
                &&& bitmap_layout(*final(a)) == (
                    bitmap_layout(*old(a)).0,
                    bitmap_layout(*old(a)).1,
                    bitmap_layout(*old(a)).2 + num_pages,
                )
            },
            Err(e) => {
                &&& e == AllocError::NoMemory
                &&& bitmap_free(*final(a)) == bitmap_free(*old(a))
                &&& bitmap_layout(*final(a)) == bitmap_layout(*old(a))
            },
        },
{
    match a.alloc_pages(num_pages, align_pow2) {
        Ok(addr) => Ok(addr),
        Err(axallocator::AllocError::InvalidParam) => Err(AllocError::InvalidParam),
        Err(axallocator::AllocError::MemoryOverlap) => Err(AllocError::MemoryOverlap),
        Err(axallocator::AllocError::NoMemory) => Err(AllocError::NoMemory),
        Err(axallocator::AllocError::NotAllocated) => Err(AllocError::NotAllocated),
    }
}

/// `PageAllocator::alloc_pages_at` of the bitmap at page alignment, for a
/// page-aligned address not below the address the bitmap counts from. It
/// succeeds exactly when the pages from the address on are all free; the
/// address then comes back, and the pages are free no more and count as
/// used. On failure the error is `NoMemory` and nothing changed.
#[verifier::external_body]
fn inner_alloc_pages_at(
    a: &mut axallocator::BitmapPageAllocator<4096>,
    base: usize,
    num_pages: usize,
    align_pow2: usize,
) -> (r: Result<usize, AllocError>)
    requires
        num_pages >= 1,
        align_pow2 == PAGE_SIZE,
        base % PAGE_SIZE == 0,
        bitmap_layout(*old(a)).0 % (PAGE_SIZE as int) == 0,
        bitmap_layout(*old(a)).0 <= base,
        bitmap_layout(*old(a)).2 + num_pages <= usize::MAX,
    ensures
        r is Ok <==> run_free_at(bitmap_free(*old(a)), base as int, num_pages as int),
        match r {
            Ok(addr) => {
                &&& addr == base
                &&& bitmap_free(*final(a)) == bitmap_free(*old(a)).difference(
                    pages_from(base as int, num_pages as int),
                )
                &&& bitmap_layout(*final(a)) == (
                    bitmap_layout(*old(a)).0,
                    bitmap_layout(*old(a)).1,
                    bitmap_layout(*old(a)).2 + num_pages,
                )
            },
            Err(e) => {
                &&& e == AllocError::NoMemory
                &&& bitmap_free(*final(a)) == bitmap_free(*old(a))
                &&& bitmap_layout(*final(a)) == bitmap_layout(*old(a))
            },
        },
{
    match a.alloc_pages_at(base, num_pages, align_pow2) {
        Ok(addr) => Ok(addr),
        Err(axallocator::AllocError::InvalidParam) => Err(AllocError::InvalidParam),
        Err(axallocator::AllocError::MemoryOverlap) => Err(AllocError::MemoryOverlap),
        Err(axallocator::AllocError::NoMemory) => Err(AllocError::NoMemory),
        Err(axallocator::AllocError::NotAllocated) => Err(AllocError::NotAllocated),
    }
}

/// `PageAllocator::dealloc_pages` of the bitmap, for pages none of which is
/// free: all of them are free afterwards and count as used no more. It
/// panics on an address that is not page-aligned, lies below the address
/// the bitmap counts from or past its capacity, and where fewer pages count
/// as used than are returned; those inputs are left out.
#[verifier::external_body]
fn inner_dealloc_pages(a: &mut axallocator::BitmapPageAllocator<4096>, pos: usize, num_pages: usize)
    requires
        num_pages >= 1,
        pos % PAGE_SIZE == 0,
        bitmap_layout(*old(a)).0 <= pos,
        (pos - bitmap_layout(*old(a)).0) / (PAGE_SIZE as int) + num_pages <= BITMAP_CAPACITY,
        num_pages <= bitmap_layout(*old(a)).2,
        pages_from(pos as int, num_pages as int).disjoint(bitmap_free(*old(a))),
    ensures
        bitmap_free(*final(a)) == bitmap_free(*old(a)).union(pages_from(pos as int, num_pages as int)),
        bitmap_layout(*final(a)) == (
            bitmap_layout(*old(a)).0,
            bitmap_layout(*old(a)).1,
            bitmap_layout(*old(a)).2 - num_pages,
        ),
{
    a.dealloc_pages(pos, num_pages)
}

/// A bitmap allocator over one region of pages.
pub struct BitmapAllocator {
    inner: axallocator::BitmapPageAllocator<4096>,
    base: usize,
    total_pages: usize,
    used_pages: usize,
    /// First byte of each live extent, with its size in pages.
    alloc_map: BTreeMap<usize, usize>,
}

/// What a bitmap allocator holds, as plain mathematical values.
pub struct BitmapView {
    /// First byte of the region; a multiple of the page size.
    pub base: nat,
    /// Number of pages in the region.
    pub total_pages: nat,
    /// The addresses of the free pages.
    pub free: Set<int>,
    /// First byte of each live extent, with its size in pages.
    pub allocated: Map<usize, usize>,
    /// Pages handed out and not yet returned.
    pub used_pages: nat,
}

/// The size of a live extent.
pub open spec fn extent_pages(n: usize) -> nat {
    n as nat
}

/// The validity of an allocator state.
///
/// Every free page is a page of the region. Each live extent lies in the
/// region, starts on a page boundary and holds no free page, and no two
/// live extents share a page. The live extents together hold
/// `used_pages` pages, which are at most the pages of the region.
pub open spec fn bitmap_inv(v: BitmapView) -> bool {
    &&& v.base % (PAGE_SIZE as nat) == 0
    &&& v.base + v.total_pages * PAGE_SIZE <= usize::MAX
    &&& (v.base % (MAX_ALIGN as nat)) / (PAGE_SIZE as nat) + v.total_pages <= BITMAP_CAPACITY
    &&& v.free.subset_of(pages_from(v.base as int, v.total_pages as int))
    &&& v.used_pages <= v.total_pages
    &&& v.allocated.dom().finite()
    &&& weighted_sum(v.allocated, |n: usize| extent_pages(n)) == v.used_pages
    &&& forall|a: usize| #[trigger]
        v.allocated.contains_key(a) ==> {
            &&& v.allocated[a] >= 1
            &&& a % PAGE_SIZE == 0
            &&& v.base <= a
            &&& a + v.allocated[a] * PAGE_SIZE <= v.base + v.total_pages * PAGE_SIZE
            &&& pages_from(a as int, v.allocated[a] as int).disjoint(v.free)
        }
    &&& forall|a1: usize, a2: usize|
        #![trigger v.allocated.contains_key(a1), v.allocated.contains_key(a2)]
        v.allocated.contains_key(a1) && v.allocated.contains_key(a2) && a1 != a2 ==> pages_from(
            a1 as int,
            v.allocated[a1] as int,
        ).disjoint(pages_from(a2 as int, v.allocated[a2] as int))
}

/// The state after `init(start, size)`: the whole pages of the region, all
/// of them free.
pub open spec fn fresh_bitmap(start: usize, size: usize) -> BitmapView {
    BitmapView {
        base: round_up_page(start as int) as nat,
        total_pages: region_pages(start, size),
        free: pages_from(round_up_page(start as int), region_pages(start, size) as int),
        allocated: Map::empty(),
        used_pages: 0,
    }
}

/// The state after the extent of `num_pages` pages at `addr` was handed out.
pub open spec fn handed_out(v: BitmapView, addr: usize, num_pages: usize) -> BitmapView {
    BitmapView {
        free: v.free.difference(pages_from(addr as int, num_pages as int)),
        allocated: v.allocated.insert(addr, num_pages),
        used_pages: (v.used_pages + num_pages) as nat,
        ..v
    }
}

/// The state after `dealloc_pages(pos, _)`: unchanged unless `pos` is the
/// first byte of a live extent.
pub open spec fn after_dealloc(v: BitmapView, pos: usize) -> BitmapView {
    if v.allocated.contains_key(pos) {
        BitmapView {
            free: v.free.union(pages_from(pos as int, v.allocated[pos] as int)),
            allocated: v.allocated.remove(pos),
            used_pages: (v.used_pages - v.allocated[pos]) as nat,
            ..v
        }
    } else {
        v
    }
}

/// The lowest address in the region that is a multiple of `align` and
/// starts a run of `num_pages` free pages.
pub open spec fn lowest_run(v: BitmapView, num_pages: usize, align: usize) -> int {
    choose|addr: int| is_lowest_run(v.free, v.base as int, addr, num_pages as int, align as int)
}

/// What `alloc_pages(num_pages, align)` returns: the lowest aligned run of
/// free pages, where the request is valid, no more pages are asked for
/// than are unused, and there is such a run.
pub open spec fn alloc_result(v: BitmapView, num_pages: usize, align: usize) -> Result<
    usize,
    AllocError,
> {
    if !valid_request(num_pages, align) {
        Err(AllocError::InvalidParam)
    } else if num_pages > v.total_pages - v.used_pages || !has_run(
        v.free,
        v.base as int,
        num_pages as int,
        align as int,
    ) {
        Err(AllocError::NoMemory)
    } else {
        Ok(lowest_run(v, num_pages, align) as usize)
    }
}

/// The state after `alloc_pages(num_pages, align)`.
pub open spec fn after_alloc(v: BitmapView, num_pages: usize, align: usize) -> BitmapView {
    match alloc_result(v, num_pages, align) {
        Ok(addr) => handed_out(v, addr, num_pages),
        Err(_) => v,
    }
}

/// `start` is an address that `alloc_pages_at` accepts: in the region and a
/// multiple of `align`.
pub open spec fn valid_start(v: BitmapView, start: usize, align: usize) -> bool {
    &&& v.base <= start
    &&& start < v.base + v.total_pages * PAGE_SIZE
    &&& start % align == 0
}

/// What `alloc_pages_at(start, num_pages, align)` returns: `start`, where
/// the request and the address are valid, no more pages are asked for than
/// are unused, and the pages from `start` on are all free.
pub open spec fn alloc_at_result(v: BitmapView, start: usize, num_pages: usize, align: usize) -> Result<
    usize,
    AllocError,
> {
    if !valid_request(num_pages, align) || !valid_start(v, start, align) {
        Err(AllocError::InvalidParam)
    } else if num_pages > v.total_pages - v.used_pages || !run_free_at(
        v.free,
        start as int,
        num_pages as int,
    ) {
        Err(AllocError::NoMemory)
    } else {
        Ok(start)
    }
}

/// The state after `alloc_pages_at(start, num_pages, align)`.
pub open spec fn after_alloc_at(v: BitmapView, start: usize, num_pages: usize, align: usize) -> BitmapView {
    match alloc_at_result(v, start, num_pages, align) {
        Ok(addr) => handed_out(v, addr, num_pages),
        Err(_) => v,
    }
}

/// The lowest run is the only lowest run.
pub proof fn lemma_lowest_run(v: BitmapView, num_pages: usize, align: usize, addr: int)
    requires
        is_lowest_run(v.free, v.base as int, addr, num_pages as int, align as int),
    ensures
        has_run(v.free, v.base as int, num_pages as int, align as int),
        lowest_run(v, num_pages, align) == addr,
{
    let other = lowest_run(v, num_pages, align);
    assert(is_lowest_run(v.free, v.base as int, other, num_pages as int, align as int));
    if other < addr {
        assert(!run_free_at(v.free, other, num_pages as int));
    }
    if addr < other {
        assert(!run_free_at(v.free, addr, num_pages as int));
    }
}

/// An address that starts a run of free pages lies in the region.
pub proof fn lemma_run_in_region(v: BitmapView, addr: int, n: int)
    requires
        bitmap_inv(v),
        n >= 1,
        run_free_at(v.free, addr, n),
    ensures
        v.base <= addr,
        addr + n * PAGE_SIZE <= v.base + v.total_pages * PAGE_SIZE,
        (addr - v.base) % (PAGE_SIZE as int) == 0,
{
    assert(pages_from(addr, n).subset_of(pages_from(v.base as int, v.total_pages as int))) by {
        assert forall|p: int| pages_from(addr, n).contains(p) implies pages_from(
            v.base as int,
            v.total_pages as int,
        ).contains(p) by {
            assert(v.free.contains(p));
        }
    }
    lemma_pages_in_region(v.base as int, v.total_pages as int, addr, n);
}

/// Between a multiple of `m` and the next one there is no multiple of `m`.
pub proof fn lemma_no_multiple_between(x: int, y: int, m: int)
    requires
        m > 0,
        x % m == 0,
        x < y < x + m,
    ensures
        y % m != 0,
{
    vstd::arithmetic::div_mod::lemma_fundamental_div_mod(x, m);
    vstd::arithmetic::div_mod::lemma_fundamental_div_mod(y, m);
    let qx = x / m;
    let qy = y / m;
    if y % m == 0 {
        assert(m * qx < m * qy < m * qx + m);
        assert(false) by (nonlinear_arith)
            requires
                m > 0,
                m * qx < m * qy,
                m * qy < m * qx + m,
        ;
    }
}

/// The next multiple of `m` after a multiple `x` of `m` is `x + m`.
pub proof fn lemma_next_multiple(x: int, m: int)
    requires
        m > 0,
        x % m == 0,
    ensures
        (x + m) % m == 0,
{
    vstd::arithmetic::div_mod::lemma_mod_add_multiples_vanish(x, m);
}

/// The gibibyte boundary below an address is page-aligned.
pub proof fn lemma_gib_floor_aligned(addr: int)
    requires
        0 <= addr,
    ensures
        gib_floor(addr) % (PAGE_SIZE as int) == 0,
        0 <= gib_floor(addr) <= addr,
{
    vstd::arithmetic::div_mod::lemma_fundamental_div_mod(addr, MAX_ALIGN as int);
    let q = addr / (MAX_ALIGN as int);
    assert(gib_floor(addr) == (q * 262144) * 4096) by (nonlinear_arith)
        requires
            gib_floor(addr) == 1073741824 * q,
    ;
    vstd::arithmetic::div_mod::lemma_mod_multiples_basic(q * 262144, 4096);
}

/// Freeing an extent that was just handed out restores the free pages, the
/// allocation map and the count of used pages; freeing a second time
/// changes nothing.
pub proof fn lemma_alloc_dealloc_round_trip(v: BitmapView, addr: usize, num_pages: usize)
    requires
        pages_from(addr as int, num_pages as int).subset_of(v.free),
        !v.allocated.contains_key(addr),
    ensures
        after_dealloc(handed_out(v, addr, num_pages), addr) == v,
        after_dealloc(after_dealloc(handed_out(v, addr, num_pages), addr), addr) == v,
{
    let w = after_dealloc(handed_out(v, addr, num_pages), addr);
    assert(w.free =~= v.free);
    assert(w.allocated =~= v.allocated);
}

/// A set of pages inside the pages of a region starts on a page of the
/// region and ends inside it.
pub proof fn lemma_pages_in_region(base: int, total: int, a: int, n: int)
    requires
        n >= 1,
        pages_from(a, n).subset_of(pages_from(base, total)),
    ensures
        base <= a,
        (a - base) % (PAGE_SIZE as int) == 0,
        a + n * PAGE_SIZE <= base + total * PAGE_SIZE,
{
    let last = a + (n - 1) * PAGE_SIZE;
    assert((last - a) % 4096 == 0) by (nonlinear_arith)
        requires
            last - a == (n - 1) * 4096,
    ;
    assert(pages_from(a, n).contains(a));
    assert(pages_from(a, n).contains(last));
    assert(pages_from(base, total).contains(a));
    assert(pages_from(base, total).contains(last));
    let d = last - base;
    let e = base + total * PAGE_SIZE - base;
    assert(d % 4096 == 0 && d < total * 4096 ==> d + 4096 <= total * 4096) by (nonlinear_arith);
}

/// The pages of a page-aligned extent inside a page-aligned region are
/// pages of the region.
pub proof fn lemma_extent_pages_in_region(base: int, total: int, pos: int, size: int)
    requires
        base % 4096 == 0,
        pos % 4096 == 0,
        base <= pos,
        pos + size * 4096 <= base + total * 4096,
    ensures
        pages_from(pos, size).subset_of(pages_from(base, total)),
{
    assert forall|p: int| pages_from(pos, size).contains(p) implies pages_from(
        base,
        total,
    ).contains(p) by {
        lemma_sum_of_multiples(p - pos, pos - base);
    }
}

/// The sum of two multiples of the page size is one.
pub proof fn lemma_sum_of_multiples(x: int, y: int)
    requires
        x % 4096 == 0,
        y % 4096 == 0,
    ensures
        (x + y) % 4096 == 0,
        (x - y) % 4096 == 0,
{
}

/// The pages of an extent in a region lie within the bitmap's capacity,
/// counted from the gibibyte boundary below the region.
pub proof fn lemma_within_capacity(base: nat, total: nat, a: usize, n: usize)
    requires
        base % (PAGE_SIZE as nat) == 0,
        (base % (MAX_ALIGN as nat)) / (PAGE_SIZE as nat) + total <= BITMAP_CAPACITY,
        base <= a,
        a + n * PAGE_SIZE <= base + total * PAGE_SIZE,
    ensures
        gib_floor(base as int) <= a,
        (a - gib_floor(base as int)) / (PAGE_SIZE as int) + n <= BITMAP_CAPACITY,
{
    let g = gib_floor(base as int);
    let off = (base % (MAX_ALIGN as nat)) as int;
    assert(base - g == off);
    let x = a - g;
    assert(x + n * 4096 <= off + total * 4096);
    assert(x / 4096 + n <= off / 4096 + total) by (nonlinear_arith)
        requires
            x >= 0,
            off >= 0,
            x + n * 4096 <= off + total * 4096,
    ;
}

impl View for BitmapAllocator {
    type V = BitmapView;

    closed spec fn view(&self) -> BitmapView {
        BitmapView {
            base: self.base as nat,
            total_pages: self.total_pages as nat,
            free: bitmap_free(self.inner),
            allocated: self.alloc_map@,
            used_pages: self.used_pages as nat,
        }
    }
}

impl BitmapAllocator {
    /// The counters of the outside bitmap agree with this allocator's.
    pub closed spec fn in_step(&self) -> bool {
        bitmap_layout(self.inner) == (
            gib_floor(self.base as int),
            self.total_pages as int,
            self.used_pages as int,
        )
    }

    /// The allocator's state is valid.
    pub open spec fn wf(&self) -> bool {
        bitmap_inv(self@) && self.in_step()
    }

    /// An allocator over an empty region: every request fails with
    /// `NoMemory` until `init` is called.
    pub fn new() -> (r: Self)
        ensures
            r.wf(),
            r@ == (BitmapView {
                base: 0,
                total_pages: 0,
                free: Set::empty(),
                allocated: Map::empty(),
                used_pages: 0,
            }),
    {
        let r = BitmapAllocator {
            inner: inner_new(),
            base: 0,
            total_pages: 0,
            used_pages: 0,
            alloc_map: BTreeMap::new(),
        };
        proof {
            lemma_sum_empty(|n: usize| extent_pages(n));
        }
        r
    }

    /// The allocator's name.
    pub fn name(&self) -> (r: &'static str)
        ensures
            r@ == "bitmap"@,
    {
        "bitmap"
    }

    /// First byte of the region.
    pub fn base(&self) -> (r: usize)
        ensures
            r == self@.base,
    {
        self.base
    }

    /// Number of pages in the region.
    pub fn total_pages(&self) -> (r: usize)
        ensures
            r == self@.total_pages,
    {
        self.total_pages
    }

    /// Pages handed out and not yet returned.
    pub fn used_pages(&self) -> (r: usize)
        ensures
            r == self@.used_pages,
    {
        self.used_pages
    }

    /// Sets the allocator up over the whole pages of `[start, start + size)`,
    /// all of them free.
    ///
    /// Fails with `InvalidParam`, and changes nothing, where the region
    /// overflows the address space, holds no whole page, or reaches past
    /// the bitmap's capacity.
    pub fn init(&mut self, start_vaddr: usize, size: usize) -> (res: Result<(), AllocError>)
        ensures
            bitmap_region_ok(start_vaddr, size) ==> res is Ok && final(self).wf() && final(self)@
                == fresh_bitmap(start_vaddr, size),
            !bitmap_region_ok(start_vaddr, size) ==> res == Err::<(), AllocError>(
                AllocError::InvalidParam,
            ) && *final(self) == *old(self),
    {
        let (start, total_pages) = match page_bounds(start_vaddr, size) {
            Some(b) => b,
            None => {
                return Err(AllocError::InvalidParam);
            },
        };
        if total_pages > BITMAP_CAPACITY || (start % MAX_ALIGN) / PAGE_SIZE > BITMAP_CAPACITY
            - total_pages {
            return Err(AllocError::InvalidParam);
        }
        let mut inner = inner_new();
        inner_init(&mut inner, start_vaddr, size);
        self.inner = inner;
        self.base = start;
        self.total_pages = total_pages;
        self.used_pages = 0;
        self.alloc_map.clear();
        proof {
            lemma_sum_empty(|n: usize| extent_pages(n));
        }
        Ok(())
    }

    /// Records the extent of `num_pages` pages at `addr`, whose pages the
    /// outside bitmap just took.
    fn record(&mut self, Ghost(before): Ghost<Self>, addr: usize, num_pages: usize)
        requires
            before.wf(),
            num_pages >= 1,
            num_pages <= before@.total_pages - before@.used_pages,
            run_free_at(before@.free, addr as int, num_pages as int),
            old(self)@ == (BitmapView {
                free: before@.free.difference(pages_from(addr as int, num_pages as int)),
                ..before@
            }),
            bitmap_layout(old(self).inner) == (
                gib_floor(before@.base as int),
                before@.total_pages as int,
                before@.used_pages + num_pages,
            ),
        ensures
            final(self).wf(),
            final(self)@ == handed_out(before@, addr, num_pages),
            addr % PAGE_SIZE == 0,
            !before@.allocated.contains_key(addr),
    {
        proof {
            lemma_run_in_region(before@, addr as int, num_pages as int);
            self.lemma_record(before, addr, num_pages);
        }
        self.alloc_map.insert(addr, num_pages);
        self.used_pages = self.used_pages + num_pages;
    }

    /// Takes from the outside bitmap the lowest run of `num_pages` free
    /// pages that starts at a multiple of `align_pow2`, trying each such
    /// address of the region in turn.
    fn take_aligned(&mut self, num_pages: usize, align_pow2: usize) -> (r: Option<usize>)
        requires
            old(self).wf(),
            valid_request(num_pages, align_pow2),
            num_pages <= old(self)@.total_pages - old(self)@.used_pages,
        ensures
            match r {
                Some(addr) => {
                    &&& is_lowest_run(
                        old(self)@.free,
                        old(self)@.base as int,
                        addr as int,
                        num_pages as int,
                        align_pow2 as int,
                    )
                    &&& final(self)@ == (BitmapView {
                        free: old(self)@.free.difference(pages_from(addr as int, num_pages as int)),
                        ..old(self)@
                    })
                    &&& bitmap_layout(final(self).inner) == (
                        gib_floor(old(self)@.base as int),
                        old(self)@.total_pages as int,
                        old(self)@.used_pages + num_pages,
                    )
                },
                None => {
                    &&& !has_run(
                        old(self)@.free,
                        old(self)@.base as int,
                        num_pages as int,
                        align_pow2 as int,
                    )
                    &&& final(self).wf()
                    &&& final(self)@ == old(self)@
                },
            },
    {
        let ghost v = self@;
        let ghost n = num_pages as int;
        let ghost m = align_pow2 as int;
        let end: usize = self.base + self.total_pages * PAGE_SIZE;
        let rem: usize = self.base % align_pow2;
        if rem != 0 && align_pow2 - rem > end - self.base {
            proof {
                let below = self.base - rem;
                assert(below % m == 0) by {
                    vstd::arithmetic::div_mod::lemma_fundamental_div_mod(self.base as int, m);
                    vstd::arithmetic::div_mod::lemma_mod_multiples_basic((self.base as int) / m, m);
                    assert(below == m * ((self.base as int) / m));
                    assert(m * ((self.base as int) / m) == ((self.base as int) / m) * m)
                        by (nonlinear_arith);
                }
                assert forall|addr: int| v.base <= addr && addr % m == 0 implies !#[trigger] run_free_at(
                    v.free,
                    addr,
                    n,
                ) by {
                    if run_free_at(v.free, addr, n) {
                        lemma_run_in_region(v, addr, n);
                        lemma_no_multiple_between(below, addr, m);
                    }
                }
            }
            return None;
        }
        let mut at: usize = if rem == 0 {
            self.base
        } else {
            self.base + (align_pow2 - rem)
        };
        proof {
            if rem != 0 {
                let below = self.base - rem;
                assert(below % m == 0) by {
                    vstd::arithmetic::div_mod::lemma_fundamental_div_mod(self.base as int, m);
                    vstd::arithmetic::div_mod::lemma_mod_multiples_basic((self.base as int) / m, m);
                    assert(below == m * ((self.base as int) / m));
                    assert(m * ((self.base as int) / m) == ((self.base as int) / m) * m)
                        by (nonlinear_arith);
                }
                lemma_next_multiple(below, m);
                assert forall|lower: int| v.base <= lower < at && lower % m == 0 implies !#[trigger] run_free_at(
                    v.free,
                    lower,
                    n,
                ) by {
                    lemma_no_multiple_between(below, lower, m);
                }
            }
            lemma_gib_floor_aligned(self.base as int);
        }
        while at < end
            invariant
                self.wf(),
                self@ == v,
                v == old(self)@,
                n == num_pages,
                m == align_pow2,
                valid_request(num_pages, align_pow2),
                num_pages <= v.total_pages - v.used_pages,
                end == v.base + v.total_pages * PAGE_SIZE,
                v.base <= at,
                at % align_pow2 == 0,
                gib_floor(v.base as int) % (PAGE_SIZE as int) == 0,
                gib_floor(v.base as int) <= v.base,
                forall|lower: int|
                    v.base <= lower < at && lower % m == 0 ==> !#[trigger] run_free_at(v.free, lower, n),
            decreases end - at,
        {
            proof {
                lemma_aligned_start(v.base, at, align_pow2);
            }
            match inner_alloc_pages_at(&mut self.inner, at, num_pages, PAGE_SIZE) {
                Ok(_) => {
                    return Some(at);
                },
                Err(_) => {},
            }
            proof {
                assert(self@.free == v.free);
                assert(self@ == v);
            }
            if align_pow2 > end - at {
                proof {
                    assert forall|addr: int| v.base <= addr && addr % m == 0 implies !#[trigger] run_free_at(
                        v.free,
                        addr,
                        n,
                    ) by {
                        if run_free_at(v.free, addr, n) && addr > at {
                            lemma_run_in_region(v, addr, n);
                            lemma_no_multiple_between(at as int, addr, m);
                        }
                    }
                }
                return None;
            }
            proof {
                lemma_next_multiple(at as int, m);
                assert forall|lower: int| v.base <= lower < at + m && lower % m == 0 implies !#[trigger] run_free_at(
                    v.free,
                    lower,
                    n,
                ) by {
                    if lower > at {
                        lemma_no_multiple_between(at as int, lower, m);
                    }
                }
            }
            at = at + align_pow2;
        }
        proof {
            assert forall|addr: int| v.base <= addr && addr % m == 0 implies !#[trigger] run_free_at(
                v.free,
                addr,
                n,
            ) by {
                if run_free_at(v.free, addr, n) {
                    lemma_run_in_region(v, addr, n);
                }
            }
        }
        None
    }

    /// Hands out the lowest run of `num_pages` free pages that starts at a
    /// multiple of `align_pow2`.
    ///
    /// Fails with `InvalidParam` on a request that is not valid, and with
    /// `NoMemory` where fewer pages are unused than asked for or no such
    /// run exists; a failed call changes nothing.
    pub fn alloc_pages(&mut self, num_pages: usize, align_pow2: usize) -> (res: Result<
        usize,
        AllocError,
    >)
        requires
            old(self).wf(),
        ensures
            final(self).wf(),
            res == alloc_result(old(self)@, num_pages, align_pow2),
            final(self)@ == after_alloc(old(self)@, num_pages, align_pow2),
            res matches Ok(a) ==> {
                &&& a % align_pow2 == 0
                &&& a % PAGE_SIZE == 0
                &&& old(self)@.base <= a
                &&& a + num_pages * PAGE_SIZE <= old(self)@.base + old(self)@.total_pages
                    * PAGE_SIZE
                &&& run_free_at(old(self)@.free, a as int, num_pages as int)
                &&& !old(self)@.allocated.contains_key(a)
            },
    {
        if num_pages == 0 {
            return Err(AllocError::InvalidParam);
        }
        if align_pow2 < PAGE_SIZE || !align_pow2.is_power_of_two() {
            return Err(AllocError::InvalidParam);
        }
        if num_pages > self.total_pages - self.used_pages {
            return Err(AllocError::NoMemory);
        }
        let ghost v = self@;
        let found = if align_pow2 == PAGE_SIZE {
            proof {
                lemma_gib_floor_aligned(self.base as int);
            }
            match inner_alloc_pages(&mut self.inner, num_pages, align_pow2) {
                Ok(addr) => {
                    proof {
                        lemma_run_in_region(v, addr as int, num_pages as int);
                    }
                    Some(addr)
                },
                Err(_) => {
                    proof {
                        assert(self@.free == v.free);
                        assert(self@ == v);
                        lemma_gib_floor_aligned(self.base as int);
                        assert(!has_run(v.free, v.base as int, num_pages as int, PAGE_SIZE as int)) by {
                            if has_run(v.free, v.base as int, num_pages as int, PAGE_SIZE as int) {
                                let addr = choose|addr: int|
                                    v.base <= addr && addr % (PAGE_SIZE as int) == 0
                                        && #[trigger] run_free_at(v.free, addr, num_pages as int);
                                assert(gib_floor(v.base as int) <= addr);
                                assert(has_run(
                                    v.free,
                                    gib_floor(v.base as int),
                                    num_pages as int,
                                    PAGE_SIZE as int,
                                ));
                            }
                        }
                    }
                    None
                },
            }
        } else {
            self.take_aligned(num_pages, align_pow2)
        };
        match found {
            Some(addr) => {
                proof {
                    assert(is_lowest_run(
                        v.free,
                        v.base as int,
                        addr as int,
                        num_pages as int,
                        align_pow2 as int,
                    )) by {
                        assert forall|lower: int|
                            v.base <= lower < addr && lower % (align_pow2 as int)
                                == 0 implies !#[trigger] run_free_at(v.free, lower, num_pages as int) by {
                            lemma_gib_floor_aligned(v.base as int);
                        }
                    }
                    lemma_lowest_run(v, num_pages, align_pow2, addr as int);
                    lemma_run_in_region(v, addr as int, num_pages as int);
                }
                self.record(Ghost(*old(self)), addr, num_pages);
                Ok(addr)
            },
            None => Err(AllocError::NoMemory),
        }
    }

    /// Hands out `num_pages` pages at `start`.
    ///
    /// Fails with `InvalidParam` on a request that is not valid or a
    /// `start` that lies outside the region or is no multiple of
    /// `align_pow2`, and with `NoMemory` where fewer pages are unused than
    /// asked for or one of the pages is not free; a failed call changes
    /// nothing.
    pub fn alloc_pages_at(&mut self, start: usize, num_pages: usize, align_pow2: usize) -> (res:
        Result<usize, AllocError>)
        requires
            old(self).wf(),
        ensures
            final(self).wf(),
            res == alloc_at_result(old(self)@, start, num_pages, align_pow2),
            final(self)@ == after_alloc_at(old(self)@, start, num_pages, align_pow2),
            res is Ok ==> {
                &&& start + num_pages * PAGE_SIZE <= old(self)@.base + old(self)@.total_pages
                    * PAGE_SIZE
                &&& !old(self)@.allocated.contains_key(start)
            },
    {
        if num_pages == 0 {
            return Err(AllocError::InvalidParam);
        }
        if align_pow2 < PAGE_SIZE || !align_pow2.is_power_of_two() {
            return Err(AllocError::InvalidParam);
        }
        if start < self.base || start >= self.base + self.total_pages * PAGE_SIZE {
            return Err(AllocError::InvalidParam);
        }
        if !memory_addr::is_aligned(start, align_pow2) {
            return Err(AllocError::InvalidParam);
        }
        if num_pages > self.total_pages - self.used_pages {
            return Err(AllocError::NoMemory);
        }
        proof {
            lemma_gib_floor_aligned(self.base as int);
            lemma_aligned_start(self@.base, start, align_pow2);
        }
        match inner_alloc_pages_at(&mut self.inner, start, num_pages, PAGE_SIZE) {
            Ok(_) => {
                proof {
                    lemma_run_in_region(old(self)@, start as int, num_pages as int);
                }
                self.record(Ghost(*old(self)), start, num_pages);
                Ok(start)
            },
            Err(_) => {
                proof {
                    assert(self@.free == old(self)@.free);
                    assert(self@ == old(self)@);
                }
                Err(AllocError::NoMemory)
            },
        }
    }

    /// Returns the live extent that starts at `pos` to the bitmap. The
    /// size is the one recorded when the extent was handed out; the second
    /// argument is not read. Where `pos` is not the start of a live extent
    /// the call changes nothing.
    pub fn dealloc_pages(&mut self, pos: usize, _num_pages: usize)
        requires
            old(self).wf(),
        ensures
            final(self).wf(),
            final(self)@ == after_dealloc(old(self)@, pos),
    {
        let size = match self.alloc_map.get(&pos) {
            Some(size) => *size,
            None => {
                return ;
            },
        };
        proof {
            lemma_sum_remove(self.alloc_map@, |n: usize| extent_pages(n), pos);
            lemma_within_capacity(self.base as nat, self.total_pages as nat, pos, size);
        }
        inner_dealloc_pages(&mut self.inner, pos, size);
        self.alloc_map.remove(&pos);
        self.used_pages = self.used_pages - size;
        proof {
            let v = old(self)@;
            let w = self@;
            assert forall|a: usize| #[trigger] w.allocated.contains_key(a) implies pages_from(
                a as int,
                w.allocated[a] as int,
            ).disjoint(w.free) by {
                assert(v.allocated.contains_key(a) && v.allocated.contains_key(pos));
            }
            assert forall|a1: usize, a2: usize|
                #![trigger w.allocated.contains_key(a1), w.allocated.contains_key(a2)]
                w.allocated.contains_key(a1) && w.allocated.contains_key(a2) && a1
                    != a2 implies pages_from(a1 as int, w.allocated[a1] as int).disjoint(
                pages_from(a2 as int, w.allocated[a2] as int),
            ) by {
                assert(v.allocated.contains_key(a1) && v.allocated.contains_key(a2));
            }
            assert(v.allocated.contains_key(pos));
            lemma_extent_pages_in_region(
                v.base as int,
                v.total_pages as int,
                pos as int,
                size as int,
            );
        }
    }

    /// Recording an extent whose pages the bitmap just took keeps the
    /// state valid.
    proof fn lemma_record(&self, before: Self, addr: usize, num_pages: usize)
        requires
            before.wf(),
            num_pages >= 1,
            num_pages <= before@.total_pages - before@.used_pages,
            pages_from(addr as int, num_pages as int).subset_of(before@.free),
            self@ == (BitmapView {
                free: before@.free.difference(pages_from(addr as int, num_pages as int)),
                ..before@
            }),
            before@.base <= addr,
            (addr - before@.base) % (PAGE_SIZE as int) == 0,
            addr + num_pages * PAGE_SIZE <= before@.base + before@.total_pages * PAGE_SIZE,
        ensures
            addr % PAGE_SIZE == 0,
            !before@.allocated.contains_key(addr),
            bitmap_inv(
                BitmapView {
                    allocated: self@.allocated.insert(addr, num_pages),
                    used_pages: (self@.used_pages + num_pages) as nat,
                    ..self@
                },
            ),
    {
        let v = before@;
        let w = BitmapView {
            allocated: self@.allocated.insert(addr, num_pages),
            used_pages: (self@.used_pages + num_pages) as nat,
            ..self@
        };
        let taken = pages_from(addr as int, num_pages as int);
        assert(taken.contains(addr as int));
        if v.allocated.contains_key(addr) {
            assert(pages_from(addr as int, v.allocated[addr] as int).contains(addr as int));
            assert(false);
        }
        lemma_sum_insert_new(v.allocated, |n: usize| extent_pages(n), addr, num_pages);
        lemma_sum_of_multiples(addr - v.base, v.base as int);
        assert forall|a: usize| #[trigger] w.allocated.contains_key(a) implies pages_from(
            a as int,
            w.allocated[a] as int,
        ).disjoint(w.free) by {
            if a != addr {
                assert(v.allocated.contains_key(a));
            }
        }
        assert forall|a1: usize, a2: usize|
            #![trigger w.allocated.contains_key(a1), w.allocated.contains_key(a2)]
            w.allocated.contains_key(a1) && w.allocated.contains_key(a2) && a1
                != a2 implies pages_from(a1 as int, w.allocated[a1] as int).disjoint(
            pages_from(a2 as int, w.allocated[a2] as int),
        ) by {
            if a1 != addr {
                assert(v.allocated.contains_key(a1));
            }
            if a2 != addr {
                assert(v.allocated.contains_key(a2));
            }
        }
        assert forall|a: usize| #[trigger] w.allocated.contains_key(a) implies {
            &&& w.allocated[a] >= 1
            &&& a % PAGE_SIZE == 0
            &&& w.base <= a
            &&& a + w.allocated[a] * PAGE_SIZE <= w.base + w.total_pages * PAGE_SIZE
        } by {
            if a != addr {
                assert(v.allocated.contains_key(a));
            }
        }
    }
}

impl crate::allocators::PageAllocator for BitmapAllocator {
    open spec fn valid(&self) -> bool {
        self.wf()
    }

    open spec fn region(&self) -> (nat, nat) {
        (self@.base, self@.total_pages)
    }

    fn name(&self) -> (r: &'static str) {
        BitmapAllocator::name(self)
    }

    fn init(&mut self, start_vaddr: usize, size: usize) -> (res: Result<(), AllocError>) {
        BitmapAllocator::init(self, start_vaddr, size)
    }

    fn alloc_pages(&mut self, num_pages: usize, align_pow2: usize) -> (res: Result<
        usize,
        AllocError,
    >) {
        BitmapAllocator::alloc_pages(self, num_pages, align_pow2)
    }

    fn alloc_pages_at(&mut self, start: usize, num_pages: usize, align_pow2: usize) -> (res:
        Result<usize, AllocError>) {
        proof {
            if valid_request(num_pages, align_pow2) && self@.base <= start && start % align_pow2
                == 0 {
                lemma_aligned_start(self@.base, start, align_pow2);
            }
        }
        BitmapAllocator::alloc_pages_at(self, start, num_pages, align_pow2)
    }

    fn dealloc_pages(&mut self, pos: usize, num_pages: usize) {
        BitmapAllocator::dealloc_pages(self, pos, num_pages)
    }

    open spec fn strategy(&self) -> Seq<char> {
        "bitmap"@
    }

    open spec fn released(v: BitmapView, pos: usize) -> BitmapView {
        after_dealloc(v, pos)
    }

    open spec fn set_up(v: BitmapView, start: usize, size: usize) -> Option<BitmapView> {
        if bitmap_region_ok(start, size) {
            Some(fresh_bitmap(start, size))
        } else {
            None
        }
    }

    open spec fn alloc_result(v: BitmapView, num_pages: usize, align: usize) -> Result<
        usize,
        AllocError,
    > {
        alloc_result(v, num_pages, align)
    }

    open spec fn after_alloc(v: BitmapView, num_pages: usize, align: usize) -> BitmapView {
        after_alloc(v, num_pages, align)
    }

    open spec fn alloc_at_result(v: BitmapView, start: usize, num_pages: usize, align: usize) -> Result<
        usize,
        AllocError,
    > {
        alloc_at_result(v, start, num_pages, align)
    }

    open spec fn after_alloc_at(v: BitmapView, start: usize, num_pages: usize, align: usize) -> BitmapView {
        after_alloc_at(v, start, num_pages, align)
    }
}

} // verus!
