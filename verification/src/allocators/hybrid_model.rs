//! The mathematical model of the hybrid allocator: a bitmap with one flag
//! per page, the list of free blocks that large requests are cut from, the
//! allocation map, and the state after each operation. Bitmap and free
//! blocks are kept in step: a page is free in the one exactly when it lies
//! in a block of the other.

use vstd::prelude::*;
use crate::allocators::{PAGE_SIZE, AllocError, valid_request};
use crate::maps::{weighted_sum, lemma_sum_remove, lemma_sum_insert_new, lemma_sum_empty};

verus! {

/// Requests of at least this many pages are served from the list of free
/// blocks, smaller ones from the bitmap.
pub const THRESHOLD_PAGES: usize = 64;

/// What a hybrid allocator holds, as plain mathematical values.
pub struct HybridView {
    /// First byte of the region; a multiple of the page size.
    pub base: nat,
    /// Number of pages in the region.
    pub total_pages: nat,
    /// One flag per page, true where the page is free.
    pub bits: Seq<bool>,
    /// First page of each free block, with its size in pages. The blocks
    /// are the runs of free pages.
    pub free_list: Map<usize, usize>,
    /// First page of each live extent, with its size in pages and whether
    /// it was found by way of the free blocks.
    pub allocated: Map<usize, (usize, bool)>,
    /// Pages handed out and not yet returned.
    pub used_pages: nat,
}

/// The pages `[s1, s1 + n1)` and `[s2, s2 + n2)` share no page.
pub open spec fn ranges_disjoint(s1: usize, n1: usize, s2: usize, n2: usize) -> bool {
    s1 + n1 <= s2 || s2 + n2 <= s1
}

/// The size of a live extent.
pub open spec fn extent_size(e: (usize, bool)) -> nat {
    e.0 as nat
}

/// The size of a free block.
pub open spec fn block_size(n: usize) -> nat {
    n as nat
}

/// The pages `[s, s + n)` lie in the bitmap and are all free.
pub open spec fn run_free(bits: Seq<bool>, s: int, n: int) -> bool {
    &&& 0 <= s
    &&& s + n <= bits.len()
    &&& forall|i: int| s <= i < s + n ==> #[trigger] bits[i]
}

/// The bitmap with the pages `[s, s + n)` set to `free`.
pub open spec fn mark(bits: Seq<bool>, s: int, n: int, free: bool) -> Seq<bool> {
    Seq::new(bits.len(), |i: int| if s <= i < s + n { free } else { bits[i] })
}

/// The address of page `idx` is a multiple of `align`.
pub open spec fn aligned_page(base: nat, idx: int, align: usize) -> bool {
    (base + idx * PAGE_SIZE) % (align as int) == 0
}

/// Page `i` lies in the free block that starts at `s`.
pub open spec fn in_block(free_list: Map<usize, usize>, s: usize, i: int) -> bool {
    free_list.contains_key(s) && s <= i < s + free_list[s]
}

/// Page `i` lies in some free block.
pub open spec fn covered(free_list: Map<usize, usize>, i: int) -> bool {
    exists|s: usize| in_block(free_list, s, i)
}

/// The free block that page `i` lies in.
pub open spec fn block_of(free_list: Map<usize, usize>, i: int) -> usize {
    choose|s: usize| in_block(free_list, s, i)
}

/// The pages `[s1, s1 + n1)` and `[s2, s2 + n2)` share no page and do not
/// touch.
pub open spec fn apart(s1: usize, n1: usize, s2: usize, n2: usize) -> bool {
    s1 + n1 < s2 || s2 + n2 < s1
}

/// The pages held by the free blocks.
pub open spec fn free_pages(v: HybridView) -> nat {
    weighted_sum(v.free_list, |n: usize| block_size(n))
}

/// The validity of an allocator state.
///
/// Every page is free or in a live extent, and not both: the pages of the
/// free blocks are the pages that the bitmap holds as free, no page of a
/// live extent is free, no two live extents share a page, and the free
/// pages and the used pages add up to the region. No two free blocks share
/// a page or touch, so each run of free pages lies in one block.
pub open spec fn hybrid_inv(v: HybridView) -> bool {
    &&& v.base % (PAGE_SIZE as nat) == 0
    &&& v.base + v.total_pages * PAGE_SIZE <= usize::MAX
    &&& v.bits.len() == v.total_pages
    &&& v.free_list.dom().finite()
    &&& v.allocated.dom().finite()
    &&& weighted_sum(v.allocated, |e: (usize, bool)| extent_size(e)) == v.used_pages
    &&& free_pages(v) + v.used_pages == v.total_pages
    &&& forall|s: usize| #[trigger]
        v.free_list.contains_key(s) ==> v.free_list[s] >= 1 && s + v.free_list[s] <= v.total_pages
    &&& forall|s1: usize, s2: usize|
        #![trigger v.free_list.contains_key(s1), v.free_list.contains_key(s2)]
        v.free_list.contains_key(s1) && v.free_list.contains_key(s2) && s1 != s2 ==> apart(
            s1,
            v.free_list[s1],
            s2,
            v.free_list[s2],
        )
    &&& forall|s: usize, i: int| #[trigger] in_block(v.free_list, s, i) ==> v.bits[i]
    &&& forall|i: int| 0 <= i < v.total_pages && #[trigger] v.bits[i] ==> covered(v.free_list, i)
    &&& forall|a: usize| #[trigger]
        v.allocated.contains_key(a) ==> v.allocated[a].0 >= 1 && a + v.allocated[a].0
            <= v.total_pages
    &&& forall|a: usize, i: int|
        #![trigger v.allocated.contains_key(a), v.bits[i]]
        v.allocated.contains_key(a) && a <= i < a + v.allocated[a].0 ==> !v.bits[i]
    &&& forall|a1: usize, a2: usize|
        #![trigger v.allocated.contains_key(a1), v.allocated.contains_key(a2)]
        v.allocated.contains_key(a1) && v.allocated.contains_key(a2) && a1 != a2
            ==> ranges_disjoint(a1, v.allocated[a1].0, a2, v.allocated[a2].0)
}

/// The least page from `s` on at which a run of `n` free pages starts at an
/// address that is a multiple of `align`; `-1` where there is none.
pub open spec fn first_run(v: HybridView, n: int, align: usize, s: int) -> int
    decreases v.bits.len() - s,
{
    if s < 0 || n <= 0 || s + n > v.bits.len() {
        -1
    } else if run_free(v.bits, s, n) && aligned_page(v.base, s, align) {
        s
    } else {
        first_run(v, n, align, s + 1)
    }
}

/// The free block at `s` holds `n` pages and starts at an address that is a
/// multiple of `align`.
pub open spec fn fits(v: HybridView, s: usize, n: usize, align: usize) -> bool {
    &&& v.free_list.contains_key(s)
    &&& v.free_list[s] >= n
    &&& aligned_page(v.base, s as int, align)
}

/// Block `s1` is a better fit than block `s2`: it is smaller, or as large
/// and lower.
pub open spec fn better_fit(v: HybridView, s1: usize, s2: usize) -> bool {
    v.free_list[s1] < v.free_list[s2] || (v.free_list[s1] == v.free_list[s2] && s1 <= s2)
}

/// `s` is the best fit for `n` pages: the smallest free block that fits,
/// and the lowest of those of that size.
pub open spec fn is_best_fit(v: HybridView, s: usize, n: usize, align: usize) -> bool {
    &&& fits(v, s, n, align)
    &&& forall|t: usize| #[trigger] fits(v, t, n, align) ==> better_fit(v, s, t)
}

/// Some free block fits `n` pages.
pub open spec fn some_fits(v: HybridView, n: usize, align: usize) -> bool {
    exists|s: usize| fits(v, s, n, align)
}

/// The best fit for `n` pages.
pub open spec fn best_fit(v: HybridView, n: usize, align: usize) -> usize {
    choose|s: usize| is_best_fit(v, s, n, align)
}

/// The free blocks after the pages `[idx, idx + n)` were cut out of the
/// block they lie in: what is left of the block before them and after them
/// stays free.
pub open spec fn carve(free_list: Map<usize, usize>, idx: usize, n: usize) -> Map<usize, usize> {
    let p = block_of(free_list, idx as int);
    let end = p + free_list[p];
    let rest = free_list.remove(p);
    let with_head = if p < idx {
        rest.insert(p, (idx - p) as usize)
    } else {
        rest
    };
    if idx + n < end {
        with_head.insert((idx + n) as usize, (end - idx - n) as usize)
    } else {
        with_head
    }
}

/// The free block at `p` ends where page `s` starts.
pub open spec fn ends_at(free_list: Map<usize, usize>, p: usize, s: usize) -> bool {
    free_list.contains_key(p) && p + free_list[p] == s
}

/// A free block ends where page `s` starts.
pub open spec fn has_predecessor(free_list: Map<usize, usize>, s: usize) -> bool {
    exists|p: usize| ends_at(free_list, p, s)
}

/// The free block that ends where page `s` starts.
pub open spec fn predecessor(free_list: Map<usize, usize>, s: usize) -> usize {
    choose|p: usize| ends_at(free_list, p, s)
}

/// The free blocks after the pages `[s, s + n)` came back: they become one
/// block with the free block that ends at `s` and the free block that
/// starts at `s + n`, where there are such blocks.
pub open spec fn give_back(free_list: Map<usize, usize>, s: usize, n: usize) -> Map<usize, usize> {
    let next = (s + n) as usize;
    let joins_before = has_predecessor(free_list, s);
    let before = predecessor(free_list, s);
    let start = if joins_before { before } else { s };
    let head = if joins_before { free_list[before] as int } else { 0 };
    let tail = if free_list.contains_key(next) { free_list[next] as int } else { 0 };
    let without_before = if joins_before { free_list.remove(before) } else { free_list };
    without_before.remove(next).insert(start, (head + n + tail) as usize)
}

/// The state after `init` on a region of `total_pages` pages from `base`:
/// every page is free, in one block.
pub open spec fn fresh_hybrid(base: nat, total_pages: nat) -> HybridView {
    HybridView {
        base,
        total_pages,
        bits: Seq::new(total_pages, |i: int| true),
        free_list: Map::empty().insert(0usize, total_pages as usize),
        allocated: Map::empty(),
        used_pages: 0,
    }
}

/// Where a request for `num_pages` pages finds its extent. A request of at
/// least `THRESHOLD_PAGES` pages takes the first pages of the best fit
/// among the free blocks; a smaller one takes the first run of free pages
/// in the bitmap. `None` where there is no such block or run.
pub open spec fn choose_extent(v: HybridView, num_pages: usize, align: usize) -> Option<usize> {
    if num_pages >= THRESHOLD_PAGES {
        if some_fits(v, num_pages, align) {
            Some(best_fit(v, num_pages, align))
        } else {
            None
        }
    } else {
        let s = first_run(v, num_pages as int, align, 0);
        if s >= 0 {
            Some(s as usize)
        } else {
            None
        }
    }
}

/// The state after the extent of `num_pages` free pages at `idx` was handed
/// out: its pages are free no more, in the bitmap and in the free blocks.
pub open spec fn hand_out(v: HybridView, idx: usize, num_pages: usize) -> HybridView {
    HybridView {
        bits: mark(v.bits, idx as int, num_pages as int, false),
        free_list: carve(v.free_list, idx, num_pages),
        allocated: v.allocated.insert(idx, (num_pages, num_pages >= THRESHOLD_PAGES)),
        used_pages: (v.used_pages + num_pages) as nat,
        ..v
    }
}

/// The state after `alloc_pages(num_pages, align)`.
pub open spec fn after_alloc(v: HybridView, num_pages: usize, align: usize) -> HybridView {
    if valid_request(num_pages, align) {
        match choose_extent(v, num_pages, align) {
            Some(idx) => hand_out(v, idx, num_pages),
            None => v,
        }
    } else {
        v
    }
}

/// What `alloc_pages(num_pages, align)` returns.
pub open spec fn alloc_result(v: HybridView, num_pages: usize, align: usize) -> Result<
    usize,
    AllocError,
> {
    if !valid_request(num_pages, align) {
        Err(AllocError::InvalidParam)
    } else {
        match choose_extent(v, num_pages, align) {
            Some(idx) => Ok((v.base + idx * PAGE_SIZE) as usize),
            None => Err(AllocError::NoMemory),
        }
    }
}

/// `start` is an address that `alloc_pages_at` accepts: in the region and a
/// multiple of `align`.
pub open spec fn valid_start(v: HybridView, start: usize, align: usize) -> bool {
    &&& v.base <= start
    &&& start < v.base + v.total_pages * PAGE_SIZE
    &&& start % align == 0
}

/// The page that holds the address `pos`.
pub open spec fn page_of(v: HybridView, pos: usize) -> usize {
    ((pos - v.base) / (PAGE_SIZE as int)) as usize
}

/// The state after `alloc_pages_at(start, num_pages, align)`.
pub open spec fn after_alloc_at(v: HybridView, start: usize, num_pages: usize, align: usize) -> HybridView {
    if valid_request(num_pages, align) && valid_start(v, start, align) && run_free(
        v.bits,
        page_of(v, start) as int,
        num_pages as int,
    ) {
        hand_out(v, page_of(v, start), num_pages)
    } else {
        v
    }
}

/// What `alloc_pages_at(start, num_pages, align)` returns.
pub open spec fn alloc_at_result(v: HybridView, start: usize, num_pages: usize, align: usize) -> Result<
    usize,
    AllocError,
> {
    if !valid_request(num_pages, align) || !valid_start(v, start, align) {
        Err(AllocError::InvalidParam)
    } else if !run_free(v.bits, page_of(v, start) as int, num_pages as int) {
        Err(AllocError::NoMemory)
    } else {
        Ok(start)
    }
}

/// `pos` is the first byte of a live extent.
pub open spec fn is_live(v: HybridView, pos: usize) -> bool {
    &&& v.base <= pos
    &&& pos < v.base + v.total_pages * PAGE_SIZE
    &&& pos % PAGE_SIZE == 0
    &&& v.allocated.contains_key(page_of(v, pos))
}

/// The state after `dealloc_pages(pos, _)`: unchanged unless `pos` is live;
/// the pages of a live extent are free again, in the bitmap and in the free
/// blocks.
pub open spec fn after_dealloc(v: HybridView, pos: usize) -> HybridView {
    if is_live(v, pos) {
        let idx = page_of(v, pos);
        let size = v.allocated[idx].0;
        HybridView {
            bits: mark(v.bits, idx as int, size as int, true),
            free_list: give_back(v.free_list, idx, size),
            allocated: v.allocated.remove(idx),
            used_pages: if v.used_pages >= size { (v.used_pages - size) as nat } else { 0 },
            ..v
        }
    } else {
        v
    }
}

/// A fresh allocator is valid.
pub proof fn lemma_fresh_hybrid(base: nat, total_pages: nat)
    requires
        base % (PAGE_SIZE as nat) == 0,
        base + total_pages * PAGE_SIZE <= usize::MAX,
        total_pages >= 1,
    ensures
        hybrid_inv(fresh_hybrid(base, total_pages)),
{
    let v = fresh_hybrid(base, total_pages);
    lemma_sum_empty(|e: (usize, bool)| extent_size(e));
    lemma_sum_empty(|n: usize| block_size(n));
    lemma_sum_insert_new(Map::<usize, usize>::empty(), |n: usize| block_size(n), 0, total_pages as usize);
    assert(v.allocated.dom() =~= Set::<usize>::empty());
    assert forall|i: int| 0 <= i < v.total_pages && #[trigger] v.bits[i] implies covered(
        v.free_list,
        i,
    ) by {
        assert(in_block(v.free_list, 0usize, i));
    }
}

/// A page lies in at most one free block.
pub proof fn lemma_block_unique(v: HybridView, s1: usize, s2: usize, i: int)
    requires
        hybrid_inv(v),
        in_block(v.free_list, s1, i),
        in_block(v.free_list, s2, i),
    ensures
        s1 == s2,
{
}

/// A free page lies in the block that `block_of` names.
pub proof fn lemma_block_of(v: HybridView, i: int)
    requires
        hybrid_inv(v),
        0 <= i < v.total_pages,
        v.bits[i],
    ensures
        in_block(v.free_list, block_of(v.free_list, i), i),
{
    assert(covered(v.free_list, i));
}

/// A run of free pages lies in one free block.
pub proof fn lemma_run_in_block(v: HybridView, s: int, n: int)
    requires
        hybrid_inv(v),
        n >= 1,
        run_free(v.bits, s, n),
    ensures
        in_block(v.free_list, block_of(v.free_list, s), s),
        s + n <= block_of(v.free_list, s) + v.free_list[block_of(v.free_list, s)],
    decreases n,
{
    assert(v.bits[s]);
    lemma_block_of(v, s);
    let p = block_of(v.free_list, s);
    if n > 1 {
        assert(run_free(v.bits, s, n - 1)) by {
            assert forall|i: int| s <= i < s + n - 1 implies #[trigger] v.bits[i] by {}
        }
        lemma_run_in_block(v, s, n - 1);
        let last = s + n - 1;
        assert(v.bits[last]);
        lemma_block_of(v, last);
        let q = block_of(v.free_list, last);
        if q != p {
            assert(v.free_list.contains_key(p) && v.free_list.contains_key(q));
            assert(in_block(v.free_list, p, last - 1));
            if p + v.free_list[p] > last {
                lemma_block_unique(v, p, q, last);
            }
        }
    }
}

/// At most one free block ends where a given page starts.
pub proof fn lemma_predecessor_unique(v: HybridView, s: usize, first: usize, second: usize)
    requires
        hybrid_inv(v),
        ends_at(v.free_list, first, s),
        ends_at(v.free_list, second, s),
    ensures
        first == second,
{
}

/// At most one free block is the best fit.
pub proof fn lemma_best_fit_unique(v: HybridView, n: usize, align: usize, s1: usize, s2: usize)
    requires
        is_best_fit(v, s1, n, align),
        is_best_fit(v, s2, n, align),
    ensures
        s1 == s2,
{
}

/// The free block that was found to be the best fit is `best_fit`.
pub proof fn lemma_best_fit(v: HybridView, n: usize, align: usize, s: usize)
    requires
        is_best_fit(v, s, n, align),
    ensures
        some_fits(v, n, align),
        best_fit(v, n, align) == s,
{
    lemma_best_fit_unique(v, n, align, s, best_fit(v, n, align));
}

/// Where `first_run` finds a page, a run of free pages starts there at an
/// aligned address, and at no page before it from `s` on.
pub proof fn lemma_first_run(v: HybridView, n: int, align: usize, s: int)
    requires
        0 <= s,
        0 < n,
    ensures
        first_run(v, n, align, s) >= 0 ==> s <= first_run(v, n, align, s) && run_free(
            v.bits,
            first_run(v, n, align, s),
            n,
        ) && aligned_page(v.base, first_run(v, n, align, s), align),
        first_run(v, n, align, s) < 0 ==> first_run(v, n, align, s) == -1,
        forall|t: int|
            s <= t && (t < first_run(v, n, align, s) || first_run(v, n, align, s) < 0) ==> !(
            #[trigger] run_free(v.bits, t, n) && aligned_page(v.base, t, align)),
    decreases v.bits.len() - s,
{
    if n > 0 && s + n <= v.bits.len() && !(run_free(v.bits, s, n) && aligned_page(
        v.base,
        s,
        align,
    )) {
        lemma_first_run(v, n, align, s + 1);
    }
}

/// Where some free block fits, one of them is the best fit.
pub proof fn lemma_best_fit_exists(v: HybridView, n: usize, align: usize)
    requires
        v.free_list.dom().finite(),
        some_fits(v, n, align),
    ensures
        is_best_fit(v, best_fit(v, n, align), n, align),
{
    let fitting = v.free_list.dom().filter(|s: usize| fits(v, s, n, align));
    let first = choose|s: usize| fits(v, s, n, align);
    assert(fitting.contains(first));
    v.free_list.dom().lemma_len_filter(|s: usize| fits(v, s, n, align));
    lemma_least_exists(v, fitting, n, align);
    let best = choose|s: usize|
        fitting.contains(s) && forall|t: usize| #[trigger]
            fitting.contains(t) ==> better_fit(v, s, t);
    assert forall|t: usize| #[trigger] fits(v, t, n, align) implies better_fit(v, best, t) by {
        assert(fitting.contains(t));
    }
    assert(is_best_fit(v, best, n, align));
}

/// A finite, non-empty set of fitting blocks has a best one.
proof fn lemma_least_exists(v: HybridView, candidates: Set<usize>, n: usize, align: usize)
    requires
        candidates.finite(),
        candidates.len() > 0,
        forall|s: usize| candidates.contains(s) ==> fits(v, s, n, align),
    ensures
        exists|s: usize|
            candidates.contains(s) && forall|t: usize| #[trigger]
                candidates.contains(t) ==> better_fit(v, s, t),
    decreases candidates.len(),
{
    let c = candidates.choose();
    let rest = candidates.remove(c);
    if rest.len() == 0 {
        assert forall|t: usize| #[trigger] candidates.contains(t) implies better_fit(v, c, t) by {
            if t != c {
                assert(rest.contains(t));
            }
        }
    } else {
        lemma_least_exists(v, rest, n, align);
        let r = choose|s: usize|
            rest.contains(s) && forall|t: usize| #[trigger] rest.contains(t) ==> better_fit(v, s, t);
        let best = if better_fit(v, c, r) { c } else { r };
        assert forall|t: usize| #[trigger] candidates.contains(t) implies better_fit(v, best, t) by {
            if t != c {
                assert(rest.contains(t));
            }
        }
    }
}

/// Cutting a run of free pages out of the free blocks leaves blocks that
/// lie in the region, apart from each other, and hold exactly the other
/// free pages.
pub proof fn lemma_carve(v: HybridView, idx: usize, n: usize)
    requires
        hybrid_inv(v),
        n >= 1,
        run_free(v.bits, idx as int, n as int),
    ensures
        n <= free_pages(v),
        carve(v.free_list, idx, n).dom().finite(),
        weighted_sum(carve(v.free_list, idx, n), |k: usize| block_size(k)) + n == free_pages(v),
        forall|s: usize| #[trigger]
            carve(v.free_list, idx, n).contains_key(s) ==> carve(v.free_list, idx, n)[s] >= 1 && s
                + carve(v.free_list, idx, n)[s] <= v.total_pages,
        forall|s1: usize, s2: usize|
            #![trigger carve(v.free_list, idx, n).contains_key(s1), carve(v.free_list, idx, n).contains_key(s2)]
            carve(v.free_list, idx, n).contains_key(s1) && carve(v.free_list, idx, n).contains_key(
                s2,
            ) && s1 != s2 ==> apart(
                s1,
                carve(v.free_list, idx, n)[s1],
                s2,
                carve(v.free_list, idx, n)[s2],
            ),
        forall|s: usize, i: int| #[trigger]
            in_block(carve(v.free_list, idx, n), s, i) ==> v.bits[i] && !(idx <= i < idx + n),
        forall|i: int|
            0 <= i < v.total_pages && #[trigger] v.bits[i] && !(idx <= i < idx + n) ==> covered(
                carve(v.free_list, idx, n),
                i,
            ),
{
    let fl = v.free_list;
    let g = carve(fl, idx, n);
    let weight = |k: usize| block_size(k);
    lemma_run_in_block(v, idx as int, n as int);
    let p = block_of(fl, idx as int);
    let size = fl[p];
    let end = p + size;
    let t = (idx + n) as usize;
    let rest = fl.remove(p);
    let with_head = if p < idx { rest.insert(p, (idx - p) as usize) } else { rest };
    assert(fl.contains_key(p));
    lemma_sum_remove(fl, weight, p);
    if p < idx {
        lemma_sum_insert_new(rest, weight, p, (idx - p) as usize);
    }
    if idx + n < end {
        if fl.contains_key(t) {
            assert(in_block(fl, t, t as int));
            assert(in_block(fl, p, t as int));
            lemma_block_unique(v, t, p, t as int);
        }
        lemma_sum_insert_new(with_head, weight, t, (end - idx - n) as usize);
    }
    assert forall|s: usize| #[trigger] g.contains_key(s) implies {
        ||| (s != p && s != t && fl.contains_key(s) && g[s] == fl[s])
        ||| (s == p && p < idx && g[s] == idx - p)
        ||| (s == t && idx + n < end && g[s] == end - idx - n)
        ||| (s == t && s != p && !(idx + n < end) && fl.contains_key(s) && g[s] == fl[s])
    } by {}
    assert forall|s: usize| #[trigger] g.contains_key(s) implies g[s] >= 1 && s + g[s]
        <= v.total_pages by {
        if s != p && fl.contains_key(s) {
            assert(fl.contains_key(s));
        }
    }
    assert forall|s1: usize, s2: usize|
        #![trigger g.contains_key(s1), g.contains_key(s2)]
        g.contains_key(s1) && g.contains_key(s2) && s1 != s2 implies apart(s1, g[s1], s2, g[s2]) by {
        if fl.contains_key(s1) && s1 != p {
            assert(fl.contains_key(s1) && fl.contains_key(p));
        }
        if fl.contains_key(s2) && s2 != p {
            assert(fl.contains_key(s2) && fl.contains_key(p));
        }
        if fl.contains_key(s1) && fl.contains_key(s2) {
            assert(fl.contains_key(s1) && fl.contains_key(s2));
        }
    }
    assert forall|s: usize, i: int| #[trigger] in_block(g, s, i) implies v.bits[i] && !(idx <= i
        < idx + n) by {
        if s != p && s != t && fl.contains_key(s) {
            assert(in_block(fl, s, i));
            if idx <= i < idx + n {
                assert(in_block(fl, p, i));
                lemma_block_unique(v, s, p, i);
            }
        } else if s == t && !(idx + n < end) {
            assert(in_block(fl, s, i));
            if idx <= i < idx + n {
                assert(in_block(fl, p, i));
                lemma_block_unique(v, s, p, i);
            }
        } else {
            assert(in_block(fl, p, i));
        }
    }
    assert forall|i: int|
        0 <= i < v.total_pages && #[trigger] v.bits[i] && !(idx <= i < idx + n) implies covered(
        g,
        i,
    ) by {
        lemma_block_of(v, i);
        let q = block_of(fl, i);
        if q != p {
            if q == t && idx + n < end {
                assert(in_block(fl, p, t as int));
                assert(in_block(fl, q, t as int));
                lemma_block_unique(v, q, p, t as int);
            }
            assert(in_block(g, q, i));
        } else if i < idx {
            assert(in_block(g, p, i));
        } else {
            assert(in_block(g, t, i));
        }
    }
}

/// Handing out a run of free pages keeps the state valid: the run shares
/// no page with a live extent, and its pages pass from the free pages to
/// the used ones.
pub proof fn lemma_hand_out(v: HybridView, idx: usize, num_pages: usize)
    requires
        hybrid_inv(v),
        num_pages >= 1,
        run_free(v.bits, idx as int, num_pages as int),
    ensures
        hybrid_inv(hand_out(v, idx, num_pages)),
        !v.allocated.contains_key(idx),
        v.used_pages + num_pages <= v.total_pages,
        free_pages(hand_out(v, idx, num_pages)) + num_pages == free_pages(v),
        forall|a: usize| #[trigger]
            v.allocated.contains_key(a) ==> ranges_disjoint(a, v.allocated[a].0, idx, num_pages),
{
    let w = hand_out(v, idx, num_pages);
    lemma_carve(v, idx, num_pages);
    assert(v.bits[idx as int]);
    if v.allocated.contains_key(idx) {
        assert(v.allocated.contains_key(idx) && !v.bits[idx as int]);
    }
    lemma_sum_insert_new(
        v.allocated,
        |e: (usize, bool)| extent_size(e),
        idx,
        (num_pages, num_pages >= THRESHOLD_PAGES),
    );
    assert forall|a: usize| #[trigger] v.allocated.contains_key(a) implies ranges_disjoint(
        a,
        v.allocated[a].0,
        idx,
        num_pages,
    ) by {
        if !ranges_disjoint(a, v.allocated[a].0, idx, num_pages) {
            let i = if a >= idx { a as int } else { idx as int };
            assert(v.bits[i]);
            assert(v.allocated.contains_key(a) && !v.bits[i]);
        }
    }
    assert forall|s: usize, i: int| #[trigger] in_block(w.free_list, s, i) implies w.bits[i] by {}
    assert forall|i: int| 0 <= i < w.total_pages && #[trigger] w.bits[i] implies covered(
        w.free_list,
        i,
    ) by {
        assert(v.bits[i]);
    }
    assert forall|a: usize, i: int|
        #![trigger w.allocated.contains_key(a), w.bits[i]]
        w.allocated.contains_key(a) && a <= i < a + w.allocated[a].0 implies !w.bits[i] by {
        if a != idx {
            assert(v.allocated.contains_key(a) && !v.bits[i]);
        }
    }
    assert forall|a1: usize, a2: usize|
        #![trigger w.allocated.contains_key(a1), w.allocated.contains_key(a2)]
        w.allocated.contains_key(a1) && w.allocated.contains_key(a2) && a1
            != a2 implies ranges_disjoint(a1, w.allocated[a1].0, a2, w.allocated[a2].0) by {
        if a1 != idx {
            assert(v.allocated.contains_key(a1));
        }
        if a2 != idx {
            assert(v.allocated.contains_key(a2));
        }
    }
    assert forall|a: usize| #[trigger] w.allocated.contains_key(a) implies w.allocated[a].0 >= 1
        && a + w.allocated[a].0 <= w.total_pages by {
        if a != idx {
            assert(v.allocated.contains_key(a));
        }
    }
}

/// `alloc_pages` keeps the state valid. The extent it returns is aligned
/// as asked, lies in the region and shares no page with an extent that was
/// live before.
pub proof fn lemma_alloc(v: HybridView, num_pages: usize, align: usize)
    requires
        hybrid_inv(v),
    ensures
        hybrid_inv(after_alloc(v, num_pages, align)),
        alloc_result(v, num_pages, align) is Ok ==> {
            let a = alloc_result(v, num_pages, align)->Ok_0;
            let idx = choose_extent(v, num_pages, align)->Some_0;
            &&& a == v.base + idx * PAGE_SIZE
            &&& a % align == 0
            &&& a % PAGE_SIZE == 0
            &&& v.base <= a
            &&& a + num_pages * PAGE_SIZE <= v.base + v.total_pages * PAGE_SIZE
            &&& run_free(v.bits, idx as int, num_pages as int)
            &&& v.used_pages + num_pages <= v.total_pages
            &&& forall|b: usize| #[trigger]
                v.allocated.contains_key(b) ==> ranges_disjoint(b, v.allocated[b].0, idx, num_pages)
        },
{
    if valid_request(num_pages, align) && choose_extent(v, num_pages, align) is Some {
        let idx = choose_extent(v, num_pages, align)->Some_0;
        if num_pages >= THRESHOLD_PAGES {
            lemma_best_fit_exists(v, num_pages, align);
            lemma_block_free(v, idx, num_pages);
        } else {
            lemma_first_run(v, num_pages as int, align, 0);
        }
        lemma_hand_out(v, idx, num_pages);
        assert(idx * PAGE_SIZE + num_pages * PAGE_SIZE <= v.total_pages * PAGE_SIZE)
            by (nonlinear_arith)
            requires
                idx + num_pages <= v.total_pages,
        ;
        assert((v.base + idx * PAGE_SIZE) % (PAGE_SIZE as int) == 0) by {
            vstd::arithmetic::div_mod::lemma_mod_multiples_vanish(
                idx as int,
                v.base as int,
                PAGE_SIZE as int,
            );
        }
    }
}

/// The first `n` pages of a free block of at least `n` pages are free.
pub proof fn lemma_block_free(v: HybridView, s: usize, n: usize)
    requires
        hybrid_inv(v),
        v.free_list.contains_key(s),
        v.free_list[s] >= n,
    ensures
        run_free(v.bits, s as int, n as int),
{
    assert forall|i: int| s <= i < s + n implies #[trigger] v.bits[i] by {
        assert(in_block(v.free_list, s, i));
    }
}

/// `alloc_pages_at` keeps the state valid; the extent it returns lies in
/// the region and shares no page with an extent that was live before.
pub proof fn lemma_alloc_at(v: HybridView, start: usize, num_pages: usize, align: usize)
    requires
        hybrid_inv(v),
    ensures
        hybrid_inv(after_alloc_at(v, start, num_pages, align)),
        alloc_at_result(v, start, num_pages, align) is Ok ==> {
            &&& start + num_pages * PAGE_SIZE <= v.base + v.total_pages * PAGE_SIZE
            &&& v.used_pages + num_pages <= v.total_pages
            &&& forall|b: usize| #[trigger]
                v.allocated.contains_key(b) ==> ranges_disjoint(
                    b,
                    v.allocated[b].0,
                    page_of(v, start),
                    num_pages,
                )
        },
{
    if alloc_at_result(v, start, num_pages, align) is Ok {
        let idx = page_of(v, start);
        lemma_hand_out(v, idx, num_pages);
        assert(idx * PAGE_SIZE + num_pages * PAGE_SIZE <= v.total_pages * PAGE_SIZE)
            by (nonlinear_arith)
            requires
                idx + num_pages <= v.total_pages,
        ;
        crate::allocators::lemma_aligned_start(v.base, start, align);
    }
}

/// Returning the pages of a live extent to the free blocks leaves blocks
/// that lie in the region, apart from each other, and hold exactly the
/// free pages and the pages that came back.
pub proof fn lemma_give_back(v: HybridView, idx: usize, size: usize)
    requires
        hybrid_inv(v),
        v.allocated.contains_key(idx),
        v.allocated[idx].0 == size,
    ensures
        give_back(v.free_list, idx, size).dom().finite(),
        weighted_sum(give_back(v.free_list, idx, size), |k: usize| block_size(k)) == free_pages(v)
            + size,
        forall|s: usize| #[trigger]
            give_back(v.free_list, idx, size).contains_key(s) ==> give_back(
                v.free_list,
                idx,
                size,
            )[s] >= 1 && s + give_back(v.free_list, idx, size)[s] <= v.total_pages,
        forall|s1: usize, s2: usize|
            #![trigger give_back(v.free_list, idx, size).contains_key(s1), give_back(v.free_list, idx, size).contains_key(s2)]
            give_back(v.free_list, idx, size).contains_key(s1) && give_back(
                v.free_list,
                idx,
                size,
            ).contains_key(s2) && s1 != s2 ==> apart(
                s1,
                give_back(v.free_list, idx, size)[s1],
                s2,
                give_back(v.free_list, idx, size)[s2],
            ),
        forall|s: usize, i: int| #[trigger]
            in_block(give_back(v.free_list, idx, size), s, i) ==> (0 <= i < v.total_pages && (
            v.bits[i] || idx <= i < idx + size)),
        forall|i: int|
            0 <= i < v.total_pages && #[trigger] v.bits[i] ==> covered(
                give_back(v.free_list, idx, size),
                i,
            ),
        forall|i: int|
            idx <= i < idx + size ==> #[trigger] covered(give_back(v.free_list, idx, size), i),
{
    let fl = v.free_list;
    let g = give_back(fl, idx, size);
    let weight = |k: usize| block_size(k);
    let next = (idx + size) as usize;
    let joins_before = has_predecessor(fl, idx);
    let before = predecessor(fl, idx);
    let start = if joins_before { before } else { idx };
    let head = if joins_before { fl[before] as int } else { 0 };
    let tail = if fl.contains_key(next) { fl[next] as int } else { 0 };
    let without_before = if joins_before { fl.remove(before) } else { fl };
    let rest = without_before.remove(next);
    // no free block holds a page of the extent
    assert forall|s: usize, i: int| in_block(fl, s, i) implies !(idx <= i < idx + size) by {
        if idx <= i < idx + size {
            assert(v.bits[i]);
            assert(v.allocated.contains_key(idx) && !v.bits[i]);
        }
    }
    if joins_before {
        assert(ends_at(fl, before, idx));
        lemma_sum_remove(fl, weight, before);
    }
    if fl.contains_key(next) {
        if joins_before {
            assert(fl.contains_key(next) && fl.contains_key(before));
        }
        lemma_sum_remove(without_before, weight, next);
    } else {
        assert(rest =~= without_before);
    }
    if rest.contains_key(start) {
        assert(fl.contains_key(start));
        assert(in_block(fl, start, start as int));
        assert(false);
    }
    lemma_sum_insert_new(rest, weight, start, (head + size + tail) as usize);
    assert(start + head + size + tail <= v.total_pages) by {
        if fl.contains_key(next) {
            assert(fl.contains_key(next));
        }
    }
    assert forall|s: usize| #[trigger] g.contains_key(s) implies {
        ||| (s == start && g[s] == head + size + tail)
        ||| (s != start && s != next && !(joins_before && s == before) && fl.contains_key(s)
            && g[s] == fl[s])
    } by {}
    // a block that is left lies before the new block or after it, and does
    // not touch it
    assert forall|s: usize| #[trigger] g.contains_key(s) && s != start implies apart(
        s,
        g[s],
        start,
        (head + size + tail) as usize,
    ) by {
        assert(fl.contains_key(s));
        assert(in_block(fl, s, s as int));
        assert(!in_block(fl, s, idx as int));
        assert(!in_block(fl, s, idx + size - 1));
        if s + fl[s] == idx {
            assert(ends_at(fl, s, idx));
            assert(has_predecessor(fl, idx));
            lemma_predecessor_unique(v, idx, s, before);
        }
        if s < idx {
            if joins_before {
                assert(fl.contains_key(s) && fl.contains_key(before));
            }
        } else {
            if fl.contains_key(next) {
                assert(fl.contains_key(s) && fl.contains_key(next));
            }
        }
    }
    assert forall|s1: usize, s2: usize|
        #![trigger g.contains_key(s1), g.contains_key(s2)]
        g.contains_key(s1) && g.contains_key(s2) && s1 != s2 implies apart(s1, g[s1], s2, g[s2]) by {
        if s1 != start && s2 != start {
            assert(fl.contains_key(s1) && fl.contains_key(s2));
        }
    }
    assert forall|s: usize, i: int| #[trigger] in_block(g, s, i) implies (0 <= i < v.total_pages
        && (v.bits[i] || idx <= i < idx + size)) by {
        if s != start {
            assert(in_block(fl, s, i));
        } else if i < idx {
            assert(in_block(fl, before, i));
        } else if i >= idx + size {
            assert(in_block(fl, next, i));
        }
    }
    assert forall|i: int| idx <= i < idx + size implies #[trigger] covered(g, i) by {
        assert(in_block(g, start, i));
    }
    assert forall|i: int| 0 <= i < v.total_pages && #[trigger] v.bits[i] implies covered(g, i) by {
        {
            lemma_block_of(v, i);
            let q = block_of(fl, i);
            if (joins_before && q == before) || q == next {
                assert(in_block(g, start, i));
            } else {
                if q == start {
                    assert(in_block(fl, q, q as int));
                }
                assert(in_block(g, q, i));
            }
        }
    }
}

/// `dealloc_pages` keeps the state valid. The pages of a live extent pass
/// from the used pages to the free ones.
pub proof fn lemma_dealloc(v: HybridView, pos: usize)
    requires
        hybrid_inv(v),
    ensures
        hybrid_inv(after_dealloc(v, pos)),
        is_live(v, pos) ==> v.used_pages >= v.allocated[page_of(v, pos)].0,
        is_live(v, pos) ==> free_pages(after_dealloc(v, pos)) == free_pages(v) + v.allocated[page_of(
            v,
            pos,
        )].0,
{
    if is_live(v, pos) {
        let idx = page_of(v, pos);
        let size = v.allocated[idx].0;
        let w = after_dealloc(v, pos);
        lemma_sum_remove(v.allocated, |e: (usize, bool)| extent_size(e), idx);
        lemma_give_back(v, idx, size);
        assert(v.allocated.contains_key(idx));
        assert forall|s: usize, i: int| #[trigger] in_block(w.free_list, s, i) implies w.bits[i] by {}
        assert forall|i: int| 0 <= i < w.total_pages && #[trigger] w.bits[i] implies covered(
            w.free_list,
            i,
        ) by {
            if !(idx <= i < idx + size) {
                assert(v.bits[i]);
            }
        }
        assert forall|a: usize| #[trigger] w.allocated.contains_key(a) implies w.allocated[a].0
            >= 1 && a + w.allocated[a].0 <= w.total_pages by {
            assert(v.allocated.contains_key(a));
        }
        assert forall|a: usize, i: int|
            #![trigger w.allocated.contains_key(a), w.bits[i]]
            w.allocated.contains_key(a) && a <= i < a + w.allocated[a].0 implies !w.bits[i] by {
            assert(v.allocated.contains_key(a) && v.allocated.contains_key(idx));
            assert(v.allocated.contains_key(a) && !v.bits[i]);
        }
        assert forall|a1: usize, a2: usize|
            #![trigger w.allocated.contains_key(a1), w.allocated.contains_key(a2)]
            w.allocated.contains_key(a1) && w.allocated.contains_key(a2) && a1
                != a2 implies ranges_disjoint(a1, w.allocated[a1].0, a2, w.allocated[a2].0) by {
            assert(v.allocated.contains_key(a1) && v.allocated.contains_key(a2));
        }
    }
}

/// In a valid state every live extent lies in the region, no two live
/// extents share a page, no page of a live extent is free, and the free
/// pages and the pages of the live extents add up to the region.
pub proof fn lemma_live_extents(v: HybridView)
    requires
        hybrid_inv(v),
    ensures
        forall|a: usize| #[trigger]
            v.allocated.contains_key(a) ==> a + v.allocated[a].0 <= v.total_pages,
        forall|a1: usize, a2: usize|
            #![trigger v.allocated.contains_key(a1), v.allocated.contains_key(a2)]
            v.allocated.contains_key(a1) && v.allocated.contains_key(a2) && a1 != a2
                ==> ranges_disjoint(a1, v.allocated[a1].0, a2, v.allocated[a2].0),
        forall|a: usize, i: int|
            #![trigger v.allocated.contains_key(a), v.bits[i]]
            v.allocated.contains_key(a) && a <= i < a + v.allocated[a].0 ==> !v.bits[i]
                && !covered(v.free_list, i),
        free_pages(v) + weighted_sum(v.allocated, |e: (usize, bool)| extent_size(e))
            == v.total_pages,
{
    assert forall|a: usize, i: int|
        #![trigger v.allocated.contains_key(a), v.bits[i]]
        v.allocated.contains_key(a) && a <= i < a + v.allocated[a].0 implies !v.bits[i]
        && !covered(v.free_list, i) by {
        if covered(v.free_list, i) {
            let s = choose|s: usize| in_block(v.free_list, s, i);
            assert(in_block(v.free_list, s, i));
        }
    }
}

/// Allocating pages at page alignment and freeing them again restores the
/// bitmap, the number of free pages and the count of used pages; freeing a
/// second time changes nothing.
pub proof fn lemma_alloc_dealloc_round_trip(v: HybridView, num_pages: usize)
    requires
        hybrid_inv(v),
        alloc_result(v, num_pages, PAGE_SIZE) is Ok,
    ensures
        ({
            let a = alloc_result(v, num_pages, PAGE_SIZE)->Ok_0;
            let v1 = after_alloc(v, num_pages, PAGE_SIZE);
            let v2 = after_dealloc(v1, a);
            &&& hybrid_inv(v2)
            &&& v2.bits == v.bits
            &&& free_pages(v2) == free_pages(v)
            &&& v2.used_pages == v.used_pages
            &&& v2.allocated == v.allocated
            &&& after_dealloc(v2, a) == v2
        }),
{
    let a = alloc_result(v, num_pages, PAGE_SIZE)->Ok_0;
    let idx = choose_extent(v, num_pages, PAGE_SIZE)->Some_0;
    let v1 = after_alloc(v, num_pages, PAGE_SIZE);
    lemma_alloc(v, num_pages, PAGE_SIZE);
    lemma_hand_out(v, idx, num_pages);
    assert(page_of(v1, a) == idx) by {
        vstd::arithmetic::div_mod::lemma_div_multiples_vanish(idx as int, PAGE_SIZE as int);
    }
    assert(num_pages * PAGE_SIZE >= PAGE_SIZE) by (nonlinear_arith)
        requires
            num_pages >= 1,
    ;
    assert(v1.allocated.contains_key(idx));
    assert(is_live(v1, a));
    lemma_dealloc(v1, a);
    let v2 = after_dealloc(v1, a);
    assert(v2.bits =~= v.bits);
    assert(v2.allocated =~= v.allocated);
    assert(!v2.allocated.contains_key(idx));
}

} // verus!
