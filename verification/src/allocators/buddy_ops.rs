//! What each operation of the buddy allocator does to the model, and the
//! proofs that each keeps the model valid.

use vstd::prelude::*;
use vstd::arithmetic::power2::{pow2, lemma_pow2_pos};
use crate::arith::{order_for, is_ceil_log2, is_floor_log2, lemma_pow2_monotone, lemma_pow2_double, lemma_pow2_divides, lemma_floor_log2_unique};
use crate::allocators::{PAGE_SIZE, AllocError, valid_request, region_ok, region_pages, round_up_page, lemma_aligned_start};
use crate::seqs::{first_pos, lemma_first_pos};
use crate::maps::lemma_sum_empty;
use crate::allocators::buddy_model::{BuddyView, buddy_inv, held_inv, block_fits, blocks_disjoint, is_free_slot, free_pages, push_block, take_block, buddy_of, lemma_take, lemma_split, lemma_commit, lemma_release, lemma_put_back, lemma_merge, lemma_free_pages_push, lemma_free_pages_empty};

verus! {

/// The address of page `idx` of a region that starts at `base`.
pub open spec fn page_address(base: nat, idx: usize) -> int {
    base + idx * PAGE_SIZE
}

/// The position of the most recently pushed entry of `list` whose address is
/// a multiple of `align`; `-1` where there is none.
pub open spec fn last_aligned(list: Seq<usize>, base: nat, align: usize) -> int
    decreases list.len(),
{
    if list.len() == 0 {
        -1
    } else if page_address(base, list.last()) % (align as int) == 0 {
        list.len() - 1
    } else {
        last_aligned(list.drop_last(), base, align)
    }
}

/// The least order from `o` up whose free list has an entry aligned to
/// `align`; `-1` where there is none.
pub open spec fn first_order_with(v: BuddyView, o: nat, align: usize) -> int
    decreases v.free.len() - o,
{
    if o >= v.free.len() {
        -1
    } else if last_aligned(v.free[o as int], v.base, align) >= 0 {
        o as int
    } else {
        first_order_with(v, o + 1, align)
    }
}

/// The free lists after the block of order `from` at `idx` was halved down to
/// order `to`: each upper half went to the list of its order.
pub open spec fn split_down(free: Seq<Seq<usize>>, idx: usize, from: nat, to: nat) -> Seq<
    Seq<usize>,
>
    decreases from,
{
    if from <= to || from > free.len() {
        free
    } else {
        let c = (from - 1) as nat;
        split_down(push_block(free, c as int, (idx + pow2(c)) as usize), idx, c, to)
    }
}

/// The free lists after the block of order `order` at `idx` came back: while
/// its buddy is free and a higher order exists, the two merge; what is left
/// goes to the list of its order.
pub open spec fn coalesce(free: Seq<Seq<usize>>, idx: usize, order: nat) -> Seq<Seq<usize>>
    decreases free.len() - order,
{
    if order >= free.len() {
        free
    } else {
        let b = buddy_of(idx, order);
        if order + 1 < free.len() && free[order as int].contains(b) {
            coalesce(
                take_block(free, order as int, first_pos(free[order as int], b)),
                if idx <= b { idx } else { b },
                order + 1,
            )
        } else {
            push_block(free, order as int, idx)
        }
    }
}

/// The state after `alloc_pages(num_pages, align)`.
pub open spec fn after_alloc(v: BuddyView, num_pages: usize, align: usize) -> BuddyView {
    let order = order_for(num_pages as nat);
    let o = first_order_with(v, order, align);
    if !valid_request(num_pages, align) || o < 0 {
        v
    } else {
        let pos = last_aligned(v.free[o], v.base, align);
        let idx = v.free[o][pos];
        BuddyView {
            free: split_down(take_block(v.free, o, pos), idx, o as nat, order),
            allocated: v.allocated.insert(idx, order as usize),
            used_pages: v.used_pages + pow2(order),
            ..v
        }
    }
}

/// What `alloc_pages(num_pages, align)` returns.
pub open spec fn alloc_result(v: BuddyView, num_pages: usize, align: usize) -> Result<
    usize,
    AllocError,
> {
    let order = order_for(num_pages as nat);
    let o = first_order_with(v, order, align);
    if !valid_request(num_pages, align) {
        Err(AllocError::InvalidParam)
    } else if o < 0 {
        Err(AllocError::NoMemory)
    } else {
        let pos = last_aligned(v.free[o], v.base, align);
        Ok(page_address(v.base, v.free[o][pos]) as usize)
    }
}

/// `start` is an address that `alloc_pages_at` accepts: in the region and a
/// multiple of `align`.
pub open spec fn valid_start(v: BuddyView, start: usize, align: usize) -> bool {
    &&& v.base <= start
    &&& start < v.base + v.total_pages * PAGE_SIZE
    &&& start % align == 0
}

/// The page that holds the address `pos`.
pub open spec fn page_of(v: BuddyView, pos: usize) -> usize {
    ((pos - v.base) / (PAGE_SIZE as int)) as usize
}

/// The free block of the order for `num_pages` pages starts at `start`.
pub open spec fn exact_block_free(v: BuddyView, start: usize, num_pages: usize) -> bool {
    let order = order_for(num_pages as nat);
    order < v.free.len() && v.free[order as int].contains(page_of(v, start))
}

/// The state after `alloc_pages_at(start, num_pages, align)`.
pub open spec fn after_alloc_at(v: BuddyView, start: usize, num_pages: usize, align: usize) -> BuddyView {
    let order = order_for(num_pages as nat);
    let idx = page_of(v, start);
    if valid_request(num_pages, align) && valid_start(v, start, align) && exact_block_free(
        v,
        start,
        num_pages,
    ) {
        BuddyView {
            free: take_block(v.free, order as int, first_pos(v.free[order as int], idx)),
            allocated: v.allocated.insert(idx, order as usize),
            used_pages: v.used_pages + pow2(order),
            ..v
        }
    } else {
        v
    }
}

/// What `alloc_pages_at(start, num_pages, align)` returns.
pub open spec fn alloc_at_result(v: BuddyView, start: usize, num_pages: usize, align: usize) -> Result<
    usize,
    AllocError,
> {
    if !valid_request(num_pages, align) || !valid_start(v, start, align) {
        Err(AllocError::InvalidParam)
    } else if !exact_block_free(v, start, num_pages) {
        Err(AllocError::NoMemory)
    } else {
        Ok(start)
    }
}

/// `pos` is the first byte of a live extent.
pub open spec fn is_live(v: BuddyView, pos: usize) -> bool {
    &&& v.base <= pos
    &&& pos < v.base + v.total_pages * PAGE_SIZE
    &&& pos % PAGE_SIZE == 0
    &&& v.allocated.contains_key(page_of(v, pos))
}

/// The state after `dealloc_pages(pos, _)`: unchanged unless `pos` is live.
pub open spec fn after_dealloc(v: BuddyView, pos: usize) -> BuddyView {
    if is_live(v, pos) {
        let idx = page_of(v, pos);
        let order = v.allocated[idx] as nat;
        BuddyView {
            free: coalesce(v.free, idx, order),
            allocated: v.allocated.remove(idx),
            used_pages: (v.used_pages - pow2(order)) as nat,
            ..v
        }
    } else {
        v
    }
}

/// Where `last_aligned` finds an entry, it is an aligned one and no later
/// entry is aligned.
pub proof fn lemma_last_aligned(list: Seq<usize>, base: nat, align: usize)
    ensures
        -1 <= last_aligned(list, base, align) < list.len(),
        last_aligned(list, base, align) >= 0 ==> page_address(
            base,
            list[last_aligned(list, base, align)],
        ) % (align as int) == 0,
        forall|j: int|
            last_aligned(list, base, align) < j < list.len() ==> page_address(base, #[trigger] list[j])
                % (align as int) != 0,
    decreases list.len(),
{
    if list.len() > 0 && page_address(base, list.last()) % (align as int) != 0 {
        let t = list.drop_last();
        lemma_last_aligned(t, base, align);
        assert forall|j: int| last_aligned(list, base, align) < j < list.len() implies page_address(
            base,
            #[trigger] list[j],
        ) % (align as int) != 0 by {
            if j < t.len() {
                assert(list[j] == t[j]);
            }
        }
    }
}

/// Where `first_order_with` finds an order, it is at least `o`, its list has
/// an aligned entry, and no list between has one.
pub proof fn lemma_first_order_with(v: BuddyView, o: nat, align: usize)
    ensures
        first_order_with(v, o, align) >= 0 ==> o <= first_order_with(v, o, align) < v.free.len()
            && last_aligned(v.free[first_order_with(v, o, align)], v.base, align) >= 0,
        first_order_with(v, o, align) < 0 ==> first_order_with(v, o, align) == -1,
    decreases v.free.len() - o,
{
    if o < v.free.len() && last_aligned(v.free[o as int], v.base, align) < 0 {
        lemma_first_order_with(v, o + 1, align);
    }
}

/// Halving the held block down to a lower order keeps the state valid.
pub proof fn lemma_split_down(v: BuddyView, idx: usize, from: nat, to: nat)
    requires
        held_inv(v, idx, from),
        to <= from,
    ensures
        held_inv(BuddyView { free: split_down(v.free, idx, from, to), ..v }, idx, to),
    decreases from,
{
    if from > to {
        let c = (from - 1) as nat;
        lemma_split(v, idx, c);
        let w = BuddyView { free: push_block(v.free, c as int, (idx + pow2(c)) as usize), ..v };
        lemma_split_down(w, idx, c, to);
    } else {
        assert(BuddyView { free: split_down(v.free, idx, from, to), ..v } == v);
    }
}

/// Giving the held block back, with merging, yields a valid state.
pub proof fn lemma_coalesce(v: BuddyView, idx: usize, order: nat)
    requires
        held_inv(v, idx, order),
    ensures
        buddy_inv(BuddyView { free: coalesce(v.free, idx, order), ..v }),
    decreases v.free.len() - order,
{
    let b = buddy_of(idx, order);
    if order + 1 < v.free.len() && v.free[order as int].contains(b) {
        let pos = first_pos(v.free[order as int], b);
        lemma_first_pos(v.free[order as int], b);
        lemma_merge(v, idx, order, pos);
        let w = BuddyView { free: take_block(v.free, order as int, pos), ..v };
        lemma_coalesce(w, if idx <= b { idx } else { b }, order + 1);
    } else {
        lemma_put_back(v, idx, order);
    }
}

/// A successful `alloc_pages` keeps the state valid. The extent it returns
/// is aligned as asked, lies in the region, holds the pages asked for, and
/// shares no page with an extent that was live before.
pub proof fn lemma_alloc(v: BuddyView, num_pages: usize, align: usize)
    requires
        buddy_inv(v),
    ensures
        buddy_inv(after_alloc(v, num_pages, align)),
        alloc_result(v, num_pages, align) is Ok ==> {
            let a = alloc_result(v, num_pages, align)->Ok_0;
            let w = after_alloc(v, num_pages, align);
            let idx = page_of(v, a);
            &&& a % align == 0
            &&& a % PAGE_SIZE == 0
            &&& v.base <= a
            &&& a + num_pages * PAGE_SIZE <= v.base + v.total_pages * PAGE_SIZE
            &&& a == page_address(v.base, idx)
            &&& !v.allocated.contains_key(idx)
            &&& w.allocated == v.allocated.insert(idx, order_for(num_pages as nat) as usize)
            &&& num_pages <= pow2(order_for(num_pages as nat))
            &&& w.used_pages == v.used_pages + pow2(order_for(num_pages as nat))
            &&& free_pages(w.free) + pow2(order_for(num_pages as nat)) == free_pages(v.free)
            &&& forall|b: usize| #[trigger]
                v.allocated.contains_key(b) ==> blocks_disjoint(
                    b,
                    v.allocated[b] as nat,
                    idx,
                    order_for(num_pages as nat),
                )
        },
{
    let order = order_for(num_pages as nat);
    let o = first_order_with(v, order, align);
    if valid_request(num_pages, align) && o >= 0 {
        lemma_first_order_with(v, order, align);
        lemma_last_aligned(v.free[o], v.base, align);
        let pos = last_aligned(v.free[o], v.base, align);
        let idx = v.free[o][pos];
        assert(is_free_slot(v.free, o, pos));
        lemma_take(v, o, pos);
        let v1 = BuddyView { free: take_block(v.free, o, pos), ..v };
        lemma_split_down(v1, idx, o as nat, order);
        let v2 = BuddyView { free: split_down(v1.free, idx, o as nat, order), ..v1 };
        assert(order <= usize::MAX) by {
            lemma_pow2_monotone(order, v.max_order);
            crate::arith::lemma_pow2_fits(v.max_order);
        }
        lemma_commit(v2, idx, order as usize);
        lemma_order_is_ceil(num_pages as nat);
        assert(idx * PAGE_SIZE + pow2(order) * PAGE_SIZE <= v.total_pages * PAGE_SIZE)
            by (nonlinear_arith)
            requires
                idx + pow2(order) <= v.total_pages,
        ;
        assert(num_pages * PAGE_SIZE <= pow2(order) * PAGE_SIZE) by (nonlinear_arith)
            requires
                num_pages <= pow2(order),
        ;
        assert(page_address(v.base, idx) % (PAGE_SIZE as int) == 0) by {
            vstd::arithmetic::div_mod::lemma_mod_multiples_vanish(
                idx as int,
                v.base as int,
                PAGE_SIZE as int,
            );
        }
        assert(page_of(v, page_address(v.base, idx) as usize) == idx) by {
            vstd::arithmetic::div_mod::lemma_div_multiples_vanish(idx as int, PAGE_SIZE as int);
        }
    }
}

/// `order_for(n)` is the ceiling logarithm of `n`.
pub proof fn lemma_order_is_ceil(n: nat)
    ensures
        is_ceil_log2(n, order_for(n)),
    decreases n,
{
    lemma_ceil_exists(n);
}

/// Every `n` has a ceiling logarithm.
pub proof fn lemma_ceil_exists(n: nat)
    ensures
        exists|r: nat| is_ceil_log2(n, r),
    decreases n,
{
    vstd::arithmetic::power2::lemma2_to64();
    if n <= 1 {
        assert(is_ceil_log2(n, 0));
    } else {
        let h = ((n + 1) / 2) as nat;
        lemma_ceil_exists(h);
        let r = choose|r: nat| is_ceil_log2(h, r);
        lemma_pow2_double(r);
        if r > 0 {
            lemma_pow2_double((r - 1) as nat);
        }
        assert(is_ceil_log2(n, r + 1));
    }
}

/// The greatest order whose block holds at most `n` pages.
pub open spec fn floor_order(n: nat) -> nat {
    choose|r: nat| is_floor_log2(n, r)
}

/// The free lists after the pages `[offset, offset + remaining)` were cut
/// into blocks, the largest that fits first.
pub open spec fn seed_blocks(free: Seq<Seq<usize>>, remaining: nat, offset: nat) -> Seq<Seq<usize>>
    decreases remaining,
{
    let k = floor_order(remaining);
    if remaining == 0 || k >= free.len() || pow2(k) == 0 || pow2(k) > remaining {
        free
    } else {
        seed_blocks(
            push_block(free, k as int, offset as usize),
            (remaining - pow2(k)) as nat,
            offset + pow2(k),
        )
    }
}

/// The state after `init(start, size)` on a region that holds a page.
pub open spec fn after_init(start: usize, size: usize) -> BuddyView {
    let total = region_pages(start, size);
    let max_order = floor_order(total);
    BuddyView {
        base: round_up_page(start as int) as nat,
        total_pages: total,
        max_order,
        free: seed_blocks(Seq::new(max_order + 1, |k: int| Seq::<usize>::empty()), total, 0),
        allocated: Map::empty(),
        used_pages: 0,
    }
}

/// The validity of a state while `init` cuts the region into blocks: the
/// pages below `offset` are in the free lists, `remaining` pages are still
/// to be cut, and `offset` is a multiple of `2^bound`, which exceeds
/// `remaining`.
pub open spec fn seeding_inv(v: BuddyView, remaining: nat, offset: nat, bound: nat) -> bool {
    &&& v.base % (PAGE_SIZE as nat) == 0
    &&& v.base + v.total_pages * PAGE_SIZE <= usize::MAX
    &&& v.free.len() == v.max_order + 1
    &&& v.total_pages < pow2(v.max_order + 1)
    &&& pow2(v.max_order) <= v.total_pages
    &&& v.allocated == Map::<usize, usize>::empty()
    &&& v.used_pages == 0
    &&& free_pages(v.free) == offset
    &&& offset + remaining == v.total_pages
    &&& remaining < pow2(bound)
    &&& bound <= v.max_order + 1
    &&& (offset as int) % (pow2(bound) as int) == 0
    &&& forall|k: int, j: int| #[trigger]
        is_free_slot(v.free, k, j) ==> block_fits(v.free[k][j], k as nat, offset)
    &&& forall|k1: int, j1: int, k2: int, j2: int|
        #![trigger is_free_slot(v.free, k1, j1), is_free_slot(v.free, k2, j2)]
        is_free_slot(v.free, k1, j1) && is_free_slot(v.free, k2, j2) && (k1 != k2 || j1 != j2)
            ==> blocks_disjoint(v.free[k1][j1], k1 as nat, v.free[k2][j2], k2 as nat)
}

/// The floor logarithm that was computed is `floor_order`.
pub proof fn lemma_floor_order(n: nat, r: nat)
    requires
        is_floor_log2(n, r),
    ensures
        floor_order(n) == r,
{
    lemma_floor_log2_unique(n, r, floor_order(n));
}

/// Cutting the largest block that fits off the rest keeps the seeding valid.
pub proof fn lemma_seed_step(v: BuddyView, remaining: nat, offset: nat, bound: nat, k: nat)
    requires
        seeding_inv(v, remaining, offset, bound),
        remaining > 0,
        is_floor_log2(remaining, k),
    ensures
        k < bound,
        k <= v.max_order,
        offset + pow2(k) <= v.total_pages,
        seeding_inv(
            BuddyView { free: push_block(v.free, k as int, offset as usize), ..v },
            (remaining - pow2(k)) as nat,
            offset + pow2(k),
            k,
        ),
{
    lemma_pow2_monotone(k, bound);
    lemma_pow2_double(k);
    lemma_pow2_divides(offset as int, bound, k);
    let w = BuddyView { free: push_block(v.free, k as int, offset as usize), ..v };
    let n = v.free[k as int].len() as int;
    lemma_free_pages_push(v.free, k as int, offset as usize);
    assert(((offset + pow2(k)) as int) % (pow2(k) as int) == 0) by {
        vstd::arithmetic::div_mod::lemma_mod_adds(offset as int, pow2(k) as int, pow2(k) as int);
        vstd::arithmetic::div_mod::lemma_mod_self_0(pow2(k) as int);
    }
    assert forall|k1: int, j1: int| #[trigger] is_free_slot(w.free, k1, j1) implies block_fits(
        w.free[k1][j1],
        k1 as nat,
        offset + pow2(k),
    ) by {
        if !(k1 == k && j1 == n) {
            assert(is_free_slot(v.free, k1, j1));
        }
    }
    assert forall|k1: int, j1: int, k2: int, j2: int|
        #![trigger is_free_slot(w.free, k1, j1), is_free_slot(w.free, k2, j2)]
        is_free_slot(w.free, k1, j1) && is_free_slot(w.free, k2, j2) && (k1 != k2 || j1
            != j2) implies blocks_disjoint(
        w.free[k1][j1],
        k1 as nat,
        w.free[k2][j2],
        k2 as nat,
    ) by {
        if !(k1 == k && j1 == n) {
            assert(is_free_slot(v.free, k1, j1));
        }
        if !(k2 == k && j2 == n) {
            assert(is_free_slot(v.free, k2, j2));
        }
    }
}

/// A seeding with nothing left to cut is a valid state.
pub proof fn lemma_seed_done(v: BuddyView, bound: nat)
    requires
        seeding_inv(v, 0, v.total_pages, bound),
    ensures
        buddy_inv(v),
{
    lemma_pow2_pos(v.max_order);
    lemma_sum_empty(|order: usize| crate::allocators::buddy_model::extent_pages(order));
}

/// Every `n >= 1` has a floor logarithm.
pub proof fn lemma_floor_exists(n: nat)
    requires
        n >= 1,
    ensures
        is_floor_log2(n, floor_order(n)),
    decreases n,
{
    vstd::arithmetic::power2::lemma2_to64();
    if n == 1 {
        assert(is_floor_log2(n, 0));
    } else {
        let h = (n / 2) as nat;
        lemma_floor_exists(h);
        let r = floor_order(h);
        lemma_pow2_double(r);
        lemma_pow2_double(r + 1);
        assert(is_floor_log2(n, r + 1));
    }
}

/// Cutting what is left into blocks ends in a valid state.
pub proof fn lemma_seed(v: BuddyView, remaining: nat, offset: nat, bound: nat)
    requires
        seeding_inv(v, remaining, offset, bound),
    ensures
        buddy_inv(BuddyView { free: seed_blocks(v.free, remaining, offset), ..v }),
    decreases remaining,
{
    if remaining == 0 {
        lemma_seed_done(v, bound);
    } else {
        lemma_floor_exists(remaining);
        let k = floor_order(remaining);
        lemma_seed_step(v, remaining, offset, bound, k);
        lemma_pow2_pos(k);
        let w = BuddyView { free: push_block(v.free, k as int, offset as usize), ..v };
        lemma_seed(w, (remaining - pow2(k)) as nat, offset + pow2(k), k);
    }
}

/// An allocator with empty free lists over a region of `total` pages is
/// ready to be seeded.
pub proof fn lemma_seed_start(v: BuddyView)
    requires
        v.base % (PAGE_SIZE as nat) == 0,
        v.base + v.total_pages * PAGE_SIZE <= usize::MAX,
        v.total_pages >= 1,
        is_floor_log2(v.total_pages, v.max_order),
        v.free == Seq::new(v.max_order + 1, |k: int| Seq::<usize>::empty()),
        v.allocated == Map::<usize, usize>::empty(),
        v.used_pages == 0,
    ensures
        seeding_inv(v, v.total_pages, 0, v.max_order + 1),
{
    lemma_free_pages_empty(v.free);
    lemma_pow2_pos(v.max_order + 1);
}

/// `init` on a region that holds a page gives a valid state with every page
/// free.
pub proof fn lemma_init(start: usize, size: usize)
    requires
        region_ok(start, size),
        round_up_page(start as int) + region_pages(start, size) * PAGE_SIZE <= usize::MAX,
        region_pages(start, size) >= 1,
        round_up_page(start as int) % (PAGE_SIZE as int) == 0,
        round_up_page(start as int) >= 0,
    ensures
        buddy_inv(after_init(start, size)),
        free_pages(after_init(start, size).free) == region_pages(start, size),
{
    let total = region_pages(start, size);
    lemma_floor_exists(total);
    let max_order = floor_order(total);
    let v = BuddyView {
        base: round_up_page(start as int) as nat,
        total_pages: total,
        max_order,
        free: Seq::new(max_order + 1, |k: int| Seq::<usize>::empty()),
        allocated: Map::empty(),
        used_pages: 0,
    };
    lemma_seed_start(v);
    lemma_seed(v, total, 0, max_order + 1);
    lemma_sum_empty(|order: usize| crate::allocators::buddy_model::extent_pages(order));
}

/// A successful `alloc_pages_at` keeps the state valid; the extent it
/// returns starts at `start`, lies in the region and shares no page with an
/// extent that was live before.
pub proof fn lemma_alloc_at(v: BuddyView, start: usize, num_pages: usize, align: usize)
    requires
        buddy_inv(v),
    ensures
        buddy_inv(after_alloc_at(v, start, num_pages, align)),
        alloc_at_result(v, start, num_pages, align) is Ok ==> {
            let idx = page_of(v, start);
            let order = order_for(num_pages as nat);
            &&& start % align == 0
            &&& start % PAGE_SIZE == 0
            &&& start == page_address(v.base, idx)
            &&& start + num_pages * PAGE_SIZE <= v.base + v.total_pages * PAGE_SIZE
            &&& !v.allocated.contains_key(idx)
            &&& num_pages <= pow2(order)
            &&& free_pages(after_alloc_at(v, start, num_pages, align).free) + pow2(order)
                == free_pages(v.free)
            &&& forall|b: usize| #[trigger]
                v.allocated.contains_key(b) ==> blocks_disjoint(b, v.allocated[b] as nat, idx, order)
        },
{
    if alloc_at_result(v, start, num_pages, align) is Ok {
        let order = order_for(num_pages as nat);
        let idx = page_of(v, start);
        let pos = first_pos(v.free[order as int], idx);
        lemma_first_pos(v.free[order as int], idx);
        assert(is_free_slot(v.free, order as int, pos));
        lemma_take(v, order as int, pos);
        let v1 = BuddyView { free: take_block(v.free, order as int, pos), ..v };
        assert(order <= usize::MAX) by {
            lemma_pow2_monotone(order, v.max_order);
            crate::arith::lemma_pow2_fits(v.max_order);
        }
        lemma_commit(v1, idx, order as usize);
        lemma_order_is_ceil(num_pages as nat);
        lemma_aligned_start(v.base, start, align);
        assert(idx * PAGE_SIZE + pow2(order) * PAGE_SIZE <= v.total_pages * PAGE_SIZE)
            by (nonlinear_arith)
            requires
                idx + pow2(order) <= v.total_pages,
        ;
        assert(num_pages * PAGE_SIZE <= pow2(order) * PAGE_SIZE) by (nonlinear_arith)
            requires
                num_pages <= pow2(order),
        ;
    }
}

/// `dealloc_pages` keeps the state valid. Where `pos` was live, its pages
/// return to the free lists.
pub proof fn lemma_dealloc(v: BuddyView, pos: usize)
    requires
        buddy_inv(v),
    ensures
        buddy_inv(after_dealloc(v, pos)),
        is_live(v, pos) ==> {
            let order = v.allocated[page_of(v, pos)] as nat;
            &&& v.used_pages >= pow2(order)
            &&& free_pages(after_dealloc(v, pos).free) == free_pages(v.free) + pow2(order)
        },
{
    if is_live(v, pos) {
        let idx = page_of(v, pos);
        let order = v.allocated[idx] as nat;
        lemma_release(v, idx);
        let v1 = BuddyView {
            allocated: v.allocated.remove(idx),
            used_pages: (v.used_pages - pow2(order)) as nat,
            ..v
        };
        lemma_coalesce(v1, idx, order);
    }
}

/// Allocating pages at page alignment and freeing them again restores the
/// free-space total, the used-page count and the allocation map; freeing a
/// second time changes nothing.
pub proof fn lemma_alloc_dealloc_round_trip(v: BuddyView, num_pages: usize)
    requires
        buddy_inv(v),
        alloc_result(v, num_pages, PAGE_SIZE) is Ok,
    ensures
        ({
            let a = alloc_result(v, num_pages, PAGE_SIZE)->Ok_0;
            let v1 = after_alloc(v, num_pages, PAGE_SIZE);
            let v2 = after_dealloc(v1, a);
            &&& buddy_inv(v2)
            &&& free_pages(v2.free) == free_pages(v.free)
            &&& v2.used_pages == v.used_pages
            &&& v2.allocated == v.allocated
            &&& after_dealloc(v2, a) == v2
        }),
{
    let a = alloc_result(v, num_pages, PAGE_SIZE)->Ok_0;
    let v1 = after_alloc(v, num_pages, PAGE_SIZE);
    lemma_alloc(v, num_pages, PAGE_SIZE);
    let idx = page_of(v, a);
    assert(page_of(v1, a) == idx);
    assert(v1.allocated.contains_key(idx));
    assert(is_live(v1, a)) by {
        let order = order_for(num_pages as nat);
        lemma_pow2_pos(order);
        assert(num_pages * PAGE_SIZE >= PAGE_SIZE) by (nonlinear_arith)
            requires
                num_pages >= 1,
        ;
    }
    lemma_dealloc(v1, a);
    let v2 = after_dealloc(v1, a);
    assert(v2.allocated =~= v.allocated);
}

/// In a valid state every live extent starts on a page boundary and lies in
/// the region, no two live extents share a byte, and the free lists hold
/// exactly the pages that no live extent holds.
pub proof fn lemma_live_extents(v: BuddyView)
    requires
        buddy_inv(v),
    ensures
        forall|a: usize| #[trigger]
            v.allocated.contains_key(a) ==> {
                &&& page_address(v.base, a) % (PAGE_SIZE as int) == 0
                &&& v.base <= page_address(v.base, a)
                &&& page_address(v.base, a) + pow2(v.allocated[a] as nat) * PAGE_SIZE <= v.base
                    + v.total_pages * PAGE_SIZE
            },
        forall|a1: usize, a2: usize|
            #![trigger v.allocated.contains_key(a1), v.allocated.contains_key(a2)]
            v.allocated.contains_key(a1) && v.allocated.contains_key(a2) && a1 != a2 ==> {
                ||| page_address(v.base, a1) + pow2(v.allocated[a1] as nat) * PAGE_SIZE
                    <= page_address(v.base, a2)
                ||| page_address(v.base, a2) + pow2(v.allocated[a2] as nat) * PAGE_SIZE
                    <= page_address(v.base, a1)
            },
        free_pages(v.free) + crate::allocators::buddy_model::allocated_pages(v.allocated)
            == v.total_pages,
{
    assert forall|a: usize| #[trigger] v.allocated.contains_key(a) implies page_address(v.base, a)
        % (PAGE_SIZE as int) == 0 by {
        vstd::arithmetic::div_mod::lemma_mod_multiples_vanish(
            a as int,
            v.base as int,
            PAGE_SIZE as int,
        );
    }
}

} // verus!
