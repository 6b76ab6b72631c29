//! The mathematical model of the buddy allocator: blocks, free lists, the
//! allocation map, and the state after each operation.

use vstd::prelude::*;
use vstd::arithmetic::power2::{pow2, lemma_pow2_pos};
use crate::arith::{lemma_pow2_double, lemma_pow2_monotone, lemma_buddy_neighbour};
use crate::allocators::PAGE_SIZE;
use crate::maps::{weighted_sum, lemma_sum_remove, lemma_sum_insert_new};

verus! {

/// What a buddy allocator holds, as plain mathematical values.
pub struct BuddyView {
    /// First byte of the region; a multiple of the page size.
    pub base: nat,
    /// Number of pages in the region.
    pub total_pages: nat,
    /// The greatest order a block can have.
    pub max_order: nat,
    /// `free[k]` lists the first page of each free block of `2^k` pages,
    /// oldest first.
    pub free: Seq<Seq<usize>>,
    /// First page of each live extent, with its order.
    pub allocated: Map<usize, usize>,
    /// Pages handed out and not yet returned.
    pub used_pages: nat,
}

/// The block of order `order` at page `idx` starts on a multiple of its
/// size and ends inside the region.
pub open spec fn block_fits(idx: usize, order: nat, total: nat) -> bool {
    &&& (idx as int) % (pow2(order) as int) == 0
    &&& idx + pow2(order) <= total
}

/// Two blocks share no page.
pub open spec fn blocks_disjoint(i1: usize, k1: nat, i2: usize, k2: nat) -> bool {
    i1 + pow2(k1) <= i2 || i2 + pow2(k2) <= i1
}

/// `(k, j)` names an entry of the free lists.
pub open spec fn is_free_slot(free: Seq<Seq<usize>>, k: int, j: int) -> bool {
    0 <= k < free.len() && 0 <= j < free[k].len()
}

/// Pages held by the free lists: the sum of `2^k` times the length of list `k`.
pub open spec fn free_pages(free: Seq<Seq<usize>>) -> nat
    decreases free.len(),
{
    if free.len() == 0 {
        0
    } else {
        free_pages(free.drop_last()) + free.last().len() * pow2((free.len() - 1) as nat)
    }
}

/// The pages of a live extent of order `order`.
pub open spec fn extent_pages(order: usize) -> nat {
    pow2(order as nat)
}

/// Pages held by live extents: the sum of `2^order` over the allocation map.
pub open spec fn allocated_pages(m: Map<usize, usize>) -> nat {
    weighted_sum(m, |order: usize| extent_pages(order))
}

/// A list without its entry at `pos`: the last entry takes its place.
pub open spec fn swap_remove(s: Seq<usize>, pos: int) -> Seq<usize> {
    s.update(pos, s.last()).drop_last()
}

/// The free lists with `idx` appended to list `k`.
pub open spec fn push_block(free: Seq<Seq<usize>>, k: int, idx: usize) -> Seq<Seq<usize>> {
    free.update(k, free[k].push(idx))
}

/// The free lists without the entry at `pos` of list `k`.
pub open spec fn take_block(free: Seq<Seq<usize>>, k: int, pos: int) -> Seq<Seq<usize>> {
    free.update(k, swap_remove(free[k], pos))
}

/// The buddy of the block of order `order` at `idx`: `idx XOR 2^order`.
pub open spec fn buddy_of(idx: usize, order: nat) -> usize {
    idx ^ (pow2(order) as usize)
}

/// The validity of an allocator state.
///
/// Free and live blocks are aligned to their size, lie in the region and are
/// pairwise disjoint; their sizes add up to the region, so every page is in
/// exactly one of them.
pub open spec fn buddy_inv(v: BuddyView) -> bool {
    &&& v.base % (PAGE_SIZE as nat) == 0
    &&& v.base + v.total_pages * PAGE_SIZE <= usize::MAX
    &&& v.free.len() == v.max_order + 1
    &&& v.total_pages < pow2(v.max_order + 1)
    &&& v.total_pages > 0 ==> pow2(v.max_order) <= v.total_pages
    &&& v.total_pages == 0 ==> v.max_order == 0
    &&& v.allocated.dom().finite()
    &&& v.used_pages == allocated_pages(v.allocated)
    &&& free_pages(v.free) + v.used_pages == v.total_pages
    &&& blocks_inv(v)
}

/// The part of the validity that speaks of single blocks and of pairs.
pub open spec fn blocks_inv(v: BuddyView) -> bool {
    &&& forall|k: int, j: int| #[trigger]
        is_free_slot(v.free, k, j) ==> block_fits(v.free[k][j], k as nat, v.total_pages)
    &&& forall|a: usize| #[trigger]
        v.allocated.contains_key(a) ==> v.allocated[a] <= v.max_order && block_fits(
            a,
            v.allocated[a] as nat,
            v.total_pages,
        )
    &&& forall|k1: int, j1: int, k2: int, j2: int|
        #![trigger is_free_slot(v.free, k1, j1), is_free_slot(v.free, k2, j2)]
        is_free_slot(v.free, k1, j1) && is_free_slot(v.free, k2, j2) && (k1 != k2 || j1 != j2)
            ==> blocks_disjoint(v.free[k1][j1], k1 as nat, v.free[k2][j2], k2 as nat)
    &&& forall|k: int, j: int, a: usize|
        #![trigger is_free_slot(v.free, k, j), v.allocated.contains_key(a)]
        is_free_slot(v.free, k, j) && v.allocated.contains_key(a) ==> blocks_disjoint(
            v.free[k][j],
            k as nat,
            a,
            v.allocated[a] as nat,
        )
    &&& forall|a1: usize, a2: usize|
        #![trigger v.allocated.contains_key(a1), v.allocated.contains_key(a2)]
        v.allocated.contains_key(a1) && v.allocated.contains_key(a2) && a1 != a2
            ==> blocks_disjoint(a1, v.allocated[a1] as nat, a2, v.allocated[a2] as nat)
}

/// The validity of a state in which one block, of order `order` at `idx`,
/// has left the free lists and is in neither the lists nor the map.
pub open spec fn held_inv(v: BuddyView, idx: usize, order: nat) -> bool {
    &&& v.base % (PAGE_SIZE as nat) == 0
    &&& v.base + v.total_pages * PAGE_SIZE <= usize::MAX
    &&& v.free.len() == v.max_order + 1
    &&& v.total_pages < pow2(v.max_order + 1)
    &&& v.total_pages > 0 ==> pow2(v.max_order) <= v.total_pages
    &&& v.total_pages == 0 ==> v.max_order == 0
    &&& v.allocated.dom().finite()
    &&& v.used_pages == allocated_pages(v.allocated)
    &&& free_pages(v.free) + pow2(order) + v.used_pages == v.total_pages
    &&& blocks_inv(v)
    &&& order <= v.max_order
    &&& block_fits(idx, order, v.total_pages)
    &&& forall|k: int, j: int| #[trigger]
        is_free_slot(v.free, k, j) ==> blocks_disjoint(v.free[k][j], k as nat, idx, order)
    &&& forall|a: usize| #[trigger]
        v.allocated.contains_key(a) ==> blocks_disjoint(a, v.allocated[a] as nat, idx, order)
}

/// Replacing list `k` changes the page count by the change of its length
/// times `2^k`.
pub proof fn lemma_free_pages_update(free: Seq<Seq<usize>>, k: int, list: Seq<usize>)
    requires
        0 <= k < free.len(),
    ensures
        free_pages(free.update(k, list)) + free[k].len() * pow2(k as nat) == free_pages(free)
            + list.len() * pow2(k as nat),
    decreases free.len(),
{
    let updated = free.update(k, list);
    if k == free.len() - 1 {
        assert(updated.drop_last() =~= free.drop_last());
    } else {
        assert(updated.drop_last() =~= free.drop_last().update(k, list));
        lemma_free_pages_update(free.drop_last(), k, list);
    }
}

/// Appending a block of order `k` adds `2^k` pages.
pub proof fn lemma_free_pages_push(free: Seq<Seq<usize>>, k: int, idx: usize)
    requires
        0 <= k < free.len(),
    ensures
        free_pages(push_block(free, k, idx)) == free_pages(free) + pow2(k as nat),
{
    lemma_free_pages_update(free, k, free[k].push(idx));
    assert((free[k].len() + 1) * pow2(k as nat) == free[k].len() * pow2(k as nat) + pow2(k as nat))
        by (nonlinear_arith);
}

/// Taking a block of order `k` removes `2^k` pages.
pub proof fn lemma_free_pages_take(free: Seq<Seq<usize>>, k: int, pos: int)
    requires
        is_free_slot(free, k, pos),
    ensures
        free_pages(take_block(free, k, pos)) + pow2(k as nat) == free_pages(free),
{
    lemma_free_pages_update(free, k, swap_remove(free[k], pos));
    assert((free[k].len() - 1) * pow2(k as nat) + pow2(k as nat) == free[k].len() * pow2(k as nat))
        by (nonlinear_arith);
}

/// The free lists of a fresh allocator hold no page.
pub proof fn lemma_free_pages_empty(free: Seq<Seq<usize>>)
    requires
        forall|k: int| 0 <= k < free.len() ==> #[trigger] free[k].len() == 0,
    ensures
        free_pages(free) == 0,
    decreases free.len(),
{
    if free.len() > 0 {
        lemma_free_pages_empty(free.drop_last());
        assert(free.last().len() == 0);
    }
}

/// A block that lies in the region has an order the allocator knows.
pub proof fn lemma_order_bounded(v: BuddyView, idx: usize, order: nat)
    requires
        v.total_pages < pow2(v.max_order + 1),
        idx + pow2(order) <= v.total_pages,
    ensures
        order <= v.max_order,
{
    lemma_pow2_monotone(v.max_order + 1, order);
}

/// Taking an entry out of the free lists leaves a valid state that holds
/// that block aside.
pub proof fn lemma_take(v: BuddyView, k: int, pos: int)
    requires
        buddy_inv(v),
        is_free_slot(v.free, k, pos),
    ensures
        held_inv(BuddyView { free: take_block(v.free, k, pos), ..v }, v.free[k][pos], k as nat),
{
    let w = BuddyView { free: take_block(v.free, k, pos), ..v };
    let last = v.free[k].len() - 1;
    lemma_free_pages_take(v.free, k, pos);
    assert forall|k1: int, j1: int| #[trigger] is_free_slot(w.free, k1, j1) implies {
        let oj = if k1 == k && j1 == pos { last } else { j1 };
        &&& is_free_slot(v.free, k1, oj)
        &&& w.free[k1][j1] == v.free[k1][oj]
        &&& (k1 != k || oj != pos)
    } by {}
    assert forall|k1: int, j1: int| #[trigger] is_free_slot(w.free, k1, j1) implies block_fits(
        w.free[k1][j1],
        k1 as nat,
        w.total_pages,
    ) && blocks_disjoint(w.free[k1][j1], k1 as nat, v.free[k][pos], k as nat) by {
        let oj = if k1 == k && j1 == pos { last } else { j1 };
        assert(is_free_slot(v.free, k1, oj));
        assert(is_free_slot(v.free, k, pos));
    }
    assert forall|k1: int, j1: int, k2: int, j2: int|
        #![trigger is_free_slot(w.free, k1, j1), is_free_slot(w.free, k2, j2)]
        is_free_slot(w.free, k1, j1) && is_free_slot(w.free, k2, j2) && (k1 != k2 || j1
            != j2) implies blocks_disjoint(
        w.free[k1][j1],
        k1 as nat,
        w.free[k2][j2],
        k2 as nat,
    ) by {
        let o1 = if k1 == k && j1 == pos { last } else { j1 };
        let o2 = if k2 == k && j2 == pos { last } else { j2 };
        assert(is_free_slot(v.free, k1, o1));
        assert(is_free_slot(v.free, k2, o2));
    }
    assert forall|k1: int, j1: int, a: usize|
        #![trigger is_free_slot(w.free, k1, j1), w.allocated.contains_key(a)]
        is_free_slot(w.free, k1, j1) && w.allocated.contains_key(a) implies blocks_disjoint(
        w.free[k1][j1],
        k1 as nat,
        a,
        w.allocated[a] as nat,
    ) by {
        let o1 = if k1 == k && j1 == pos { last } else { j1 };
        assert(is_free_slot(v.free, k1, o1));
    }
    assert forall|a: usize| #[trigger] w.allocated.contains_key(a) implies blocks_disjoint(
        a,
        w.allocated[a] as nat,
        v.free[k][pos],
        k as nat,
    ) by {
        assert(is_free_slot(v.free, k, pos));
    }
    lemma_order_bounded(v, v.free[k][pos], k as nat);
}

/// Splitting the held block in two puts its upper half on the free list one
/// order down and keeps the lower half aside.
pub proof fn lemma_split(v: BuddyView, idx: usize, c: nat)
    requires
        held_inv(v, idx, c + 1),
    ensures
        idx + pow2(c) <= usize::MAX,
        held_inv(
            BuddyView { free: push_block(v.free, c as int, (idx + pow2(c)) as usize), ..v },
            idx,
            c,
        ),
{
    lemma_pow2_double(c);
    let up = (idx + pow2(c)) as usize;
    let w = BuddyView { free: push_block(v.free, c as int, up), ..v };
    let n = v.free[c as int].len() as int;
    lemma_free_pages_push(v.free, c as int, up);
    crate::arith::lemma_pow2_divides(idx as int, c + 1, c);
    assert((up as int) % (pow2(c) as int) == 0) by {
        vstd::arithmetic::div_mod::lemma_mod_adds(idx as int, pow2(c) as int, pow2(c) as int);
        vstd::arithmetic::div_mod::lemma_mod_self_0(pow2(c) as int);
    }
    assert forall|k1: int, j1: int| #[trigger] is_free_slot(w.free, k1, j1) implies block_fits(
        w.free[k1][j1],
        k1 as nat,
        w.total_pages,
    ) && blocks_disjoint(w.free[k1][j1], k1 as nat, idx, c) by {
        if k1 == c && j1 == n {
        } else {
            assert(is_free_slot(v.free, k1, j1));
        }
    }
    assert forall|k1: int, j1: int, k2: int, j2: int|
        #![trigger is_free_slot(w.free, k1, j1), is_free_slot(w.free, k2, j2)]
        is_free_slot(w.free, k1, j1) && is_free_slot(w.free, k2, j2) && (k1 != k2 || j1
            != j2) implies blocks_disjoint(
        w.free[k1][j1],
        k1 as nat,
        w.free[k2][j2],
        k2 as nat,
    ) by {
        if !(k1 == c && j1 == n) {
            assert(is_free_slot(v.free, k1, j1));
        }
        if !(k2 == c && j2 == n) {
            assert(is_free_slot(v.free, k2, j2));
        }
    }
    assert forall|k1: int, j1: int, a: usize|
        #![trigger is_free_slot(w.free, k1, j1), w.allocated.contains_key(a)]
        is_free_slot(w.free, k1, j1) && w.allocated.contains_key(a) implies blocks_disjoint(
        w.free[k1][j1],
        k1 as nat,
        a,
        w.allocated[a] as nat,
    ) by {
        if !(k1 == c && j1 == n) {
            assert(is_free_slot(v.free, k1, j1));
        }
    }
}

/// Recording the held block as a live extent gives a valid state; no live
/// extent started at its first page before.
pub proof fn lemma_commit(v: BuddyView, idx: usize, order: usize)
    requires
        held_inv(v, idx, order as nat),
    ensures
        !v.allocated.contains_key(idx),
        buddy_inv(
            BuddyView {
                allocated: v.allocated.insert(idx, order),
                used_pages: v.used_pages + pow2(order as nat),
                ..v
            },
        ),
{
    lemma_pow2_pos(order as nat);
    if v.allocated.contains_key(idx) {
        lemma_pow2_pos(v.allocated[idx] as nat);
        assert(false);
    }
    lemma_sum_insert_new(v.allocated, |order: usize| extent_pages(order), idx, order);
    let w = BuddyView {
        allocated: v.allocated.insert(idx, order),
        used_pages: v.used_pages + pow2(order as nat),
        ..v
    };
    assert forall|k: int, j: int, a: usize|
        #![trigger is_free_slot(w.free, k, j), w.allocated.contains_key(a)]
        is_free_slot(w.free, k, j) && w.allocated.contains_key(a) implies blocks_disjoint(
        w.free[k][j],
        k as nat,
        a,
        w.allocated[a] as nat,
    ) by {
        if a != idx {
            assert(v.allocated.contains_key(a));
        }
    }
    assert forall|a1: usize, a2: usize|
        #![trigger w.allocated.contains_key(a1), w.allocated.contains_key(a2)]
        w.allocated.contains_key(a1) && w.allocated.contains_key(a2) && a1
            != a2 implies blocks_disjoint(a1, w.allocated[a1] as nat, a2, w.allocated[a2] as nat) by {
        if a1 != idx {
            assert(v.allocated.contains_key(a1));
        }
        if a2 != idx {
            assert(v.allocated.contains_key(a2));
        }
    }
    assert forall|a: usize| #[trigger] w.allocated.contains_key(a) implies w.allocated[a]
        <= w.max_order && block_fits(a, w.allocated[a] as nat, w.total_pages) by {
        if a != idx {
            assert(v.allocated.contains_key(a));
        }
    }
}

/// Dropping a live extent from the map leaves a valid state that holds its
/// block aside; the extent's pages were counted as used.
pub proof fn lemma_release(v: BuddyView, a: usize)
    requires
        buddy_inv(v),
        v.allocated.contains_key(a),
    ensures
        v.used_pages >= pow2(v.allocated[a] as nat),
        held_inv(
            BuddyView {
                allocated: v.allocated.remove(a),
                used_pages: (v.used_pages - pow2(v.allocated[a] as nat)) as nat,
                ..v
            },
            a,
            v.allocated[a] as nat,
        ),
{
    lemma_sum_remove(v.allocated, |order: usize| extent_pages(order), a);
    let w = BuddyView {
        allocated: v.allocated.remove(a),
        used_pages: (v.used_pages - pow2(v.allocated[a] as nat)) as nat,
        ..v
    };
    assert forall|k: int, j: int| #[trigger] is_free_slot(w.free, k, j) implies blocks_disjoint(
        w.free[k][j],
        k as nat,
        a,
        v.allocated[a] as nat,
    ) by {
        assert(v.allocated.contains_key(a));
    }
    assert forall|b: usize| #[trigger] w.allocated.contains_key(b) implies blocks_disjoint(
        b,
        w.allocated[b] as nat,
        a,
        v.allocated[a] as nat,
    ) by {
        assert(v.allocated.contains_key(b));
        assert(v.allocated.contains_key(a));
    }
}

/// Putting the held block on the free list of its order gives a valid state.
pub proof fn lemma_put_back(v: BuddyView, idx: usize, c: nat)
    requires
        held_inv(v, idx, c),
    ensures
        buddy_inv(BuddyView { free: push_block(v.free, c as int, idx), ..v }),
{
    let w = BuddyView { free: push_block(v.free, c as int, idx), ..v };
    let n = v.free[c as int].len() as int;
    lemma_free_pages_push(v.free, c as int, idx);
    assert forall|k1: int, j1: int| #[trigger] is_free_slot(w.free, k1, j1) implies block_fits(
        w.free[k1][j1],
        k1 as nat,
        w.total_pages,
    ) by {
        if !(k1 == c && j1 == n) {
            assert(is_free_slot(v.free, k1, j1));
        }
    }
    assert forall|k1: int, j1: int, k2: int, j2: int|
        #![trigger is_free_slot(w.free, k1, j1), is_free_slot(w.free, k2, j2)]
        is_free_slot(w.free, k1, j1) && is_free_slot(w.free, k2, j2) && (k1 != k2 || j1
            != j2) implies blocks_disjoint(
        w.free[k1][j1],
        k1 as nat,
        w.free[k2][j2],
        k2 as nat,
    ) by {
        if !(k1 == c && j1 == n) {
            assert(is_free_slot(v.free, k1, j1));
        }
        if !(k2 == c && j2 == n) {
            assert(is_free_slot(v.free, k2, j2));
        }
    }
    assert forall|k1: int, j1: int, a: usize|
        #![trigger is_free_slot(w.free, k1, j1), w.allocated.contains_key(a)]
        is_free_slot(w.free, k1, j1) && w.allocated.contains_key(a) implies blocks_disjoint(
        w.free[k1][j1],
        k1 as nat,
        a,
        w.allocated[a] as nat,
    ) by {
        if !(k1 == c && j1 == n) {
            assert(is_free_slot(v.free, k1, j1));
        }
    }
}

/// Where the buddy of the held block is free, the two merge into one block
/// of the next order, which the allocator knows and which is held aside in
/// a valid state.
pub proof fn lemma_merge(v: BuddyView, idx: usize, c: nat, pos: int)
    requires
        held_inv(v, idx, c),
        is_free_slot(v.free, c as int, pos),
        v.free[c as int][pos] == buddy_of(idx, c),
    ensures
        c + 1 <= v.max_order,
        held_inv(
            BuddyView { free: take_block(v.free, c as int, pos), ..v },
            if idx <= buddy_of(idx, c) { idx } else { buddy_of(idx, c) },
            c + 1,
        ),
{
    let b = buddy_of(idx, c);
    let lo = if idx <= b { idx } else { b };
    let w = BuddyView { free: take_block(v.free, c as int, pos), ..v };
    let last = v.free[c as int].len() - 1;
    lemma_pow2_double(c);
    lemma_pow2_monotone(c + 1, v.max_order + 1);
    lemma_pow2_monotone(c, v.max_order);
    assert(pow2(c + 1) <= usize::MAX) by {
        // both halves lie in the region
        assert(idx + pow2(c) <= v.total_pages);
        assert(is_free_slot(v.free, c as int, pos));
        assert(b + pow2(c) <= v.total_pages);
        assert(blocks_disjoint(b, c, idx, c));
    }
    lemma_buddy_neighbour(idx, c);
    assert(is_free_slot(v.free, c as int, pos));
    assert(block_fits(b, c, v.total_pages));
    assert(lo + pow2(c + 1) <= v.total_pages);
    lemma_order_bounded(v, lo, c + 1);
    lemma_free_pages_take(v.free, c as int, pos);
    assert forall|k1: int, j1: int| #[trigger] is_free_slot(w.free, k1, j1) implies block_fits(
        w.free[k1][j1],
        k1 as nat,
        w.total_pages,
    ) && blocks_disjoint(w.free[k1][j1], k1 as nat, lo, c + 1) by {
        let oj = if k1 == c && j1 == pos { last } else { j1 };
        assert(is_free_slot(v.free, k1, oj));
        assert(is_free_slot(v.free, c as int, pos));
        lemma_pow2_pos(k1 as nat);
    }
    assert forall|k1: int, j1: int, k2: int, j2: int|
        #![trigger is_free_slot(w.free, k1, j1), is_free_slot(w.free, k2, j2)]
        is_free_slot(w.free, k1, j1) && is_free_slot(w.free, k2, j2) && (k1 != k2 || j1
            != j2) implies blocks_disjoint(
        w.free[k1][j1],
        k1 as nat,
        w.free[k2][j2],
        k2 as nat,
    ) by {
        let o1 = if k1 == c && j1 == pos { last } else { j1 };
        let o2 = if k2 == c && j2 == pos { last } else { j2 };
        assert(is_free_slot(v.free, k1, o1));
        assert(is_free_slot(v.free, k2, o2));
    }
    assert forall|k1: int, j1: int, a: usize|
        #![trigger is_free_slot(w.free, k1, j1), w.allocated.contains_key(a)]
        is_free_slot(w.free, k1, j1) && w.allocated.contains_key(a) implies blocks_disjoint(
        w.free[k1][j1],
        k1 as nat,
        a,
        w.allocated[a] as nat,
    ) by {
        let o1 = if k1 == c && j1 == pos { last } else { j1 };
        assert(is_free_slot(v.free, k1, o1));
    }
    assert forall|a: usize| #[trigger] w.allocated.contains_key(a) implies blocks_disjoint(
        a,
        w.allocated[a] as nat,
        lo,
        c + 1,
    ) by {
        assert(is_free_slot(v.free, c as int, pos));
        lemma_pow2_pos(w.allocated[a] as nat);
    }
}

} // verus!
