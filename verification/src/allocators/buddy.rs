//! Buddy page allocator.
//!
//! Requests are rounded up to a power-of-two number of pages. A block that
//! is too large is halved until it fits; a block that comes back merges with
//! its buddy as long as the buddy is free.

use vstd::prelude::*;
use vstd::arithmetic::power2::pow2;
use std::collections::BTreeMap;
use crate::arith::{ceil_log2, floor_log2, pow2_usize};
use crate::allocators::{PAGE_SIZE, AllocError, valid_request, page_bounds, region_ok, lemma_aligned_start};
use crate::allocators::buddy_model::{BuddyView, buddy_inv, held_inv, is_free_slot, push_block, take_block, lemma_take, lemma_split, lemma_release, lemma_merge};
use crate::allocators::buddy_ops::{page_address, last_aligned, first_order_with, split_down, coalesce, after_alloc, alloc_result, after_alloc_at, alloc_at_result, after_dealloc, after_init, seed_blocks, seeding_inv, lemma_last_aligned, lemma_alloc, lemma_alloc_at, lemma_dealloc, lemma_init, lemma_seed_start, lemma_seed_step, lemma_floor_order};
use crate::seqs::{first_pos, lemma_first_pos, lemma_first_pos_at};

verus! {

/// A buddy allocator over one region of pages.
pub struct BuddyAllocator {
    base: usize,
    total_pages: usize,
    max_order: usize,
    /// `free_lists[order]` holds the first page of each free block of
    /// `2^order` pages.
    free_lists: Vec<Vec<usize>>,
    /// First page of each live extent, with its order.
    alloc_map: BTreeMap<usize, usize>,
    used_pages: usize,
}

/// The pages of the largest free block among the orders below `k`: `2^j`
/// for the highest such order `j` whose list is not empty, zero where all
/// are empty.
pub open spec fn largest_free(free: Seq<Seq<usize>>, k: int) -> nat
    decreases k,
{
    if k <= 0 || k > free.len() {
        0
    } else if free[k - 1].len() > 0 {
        pow2((k - 1) as nat)
    } else {
        largest_free(free, k - 1)
    }
}

impl View for BuddyAllocator {
    type V = BuddyView;

    closed spec fn view(&self) -> BuddyView {
        BuddyView {
            base: self.base as nat,
            total_pages: self.total_pages as nat,
            max_order: self.max_order as nat,
            free: Seq::new(self.free_lists@.len(), |k: int| self.free_lists@[k]@),
            allocated: self.alloc_map@,
            used_pages: self.used_pages as nat,
        }
    }
}

impl BuddyAllocator {
    /// The allocator's state is valid.
    pub open spec fn wf(&self) -> bool {
        buddy_inv(self@)
    }

    /// An allocator over an empty region: every request fails with
    /// `NoMemory` until `init` is called.
    pub fn new() -> (r: Self)
        ensures
            r.wf(),
            r@ == (BuddyView {
                base: 0,
                total_pages: 0,
                max_order: 0,
                free: seq![Seq::<usize>::empty()],
                allocated: Map::empty(),
                used_pages: 0,
            }),
    {
        let mut free_lists: Vec<Vec<usize>> = Vec::new();
        free_lists.push(Vec::new());
        let r = BuddyAllocator {
            base: 0,
            total_pages: 0,
            max_order: 0,
            free_lists,
            alloc_map: BTreeMap::new(),
            used_pages: 0,
        };
        proof {
            assert(r@.free =~= seq![Seq::<usize>::empty()]);
            vstd::arithmetic::power2::lemma2_to64();
            crate::allocators::buddy_model::lemma_free_pages_empty(r@.free);
            crate::maps::lemma_sum_empty(
                |order: usize| crate::allocators::buddy_model::extent_pages(order),
            );
        }
        r
    }

    /// The allocator's name.
    pub fn name(&self) -> (r: &'static str)
        ensures
            r@ == "buddy"@,
    {
        "buddy"
    }

    /// First byte of the region.
    pub fn base(&self) -> (r: usize)
        ensures
            r == self@.base,
    {
        self.base
    }

    /// Number of pages in the region.
    pub fn total_pages(&self) -> (r: usize)
        ensures
            r == self@.total_pages,
    {
        self.total_pages
    }

    /// Pages handed out and not yet returned.
    pub fn used_pages(&self) -> (r: usize)
        ensures
            r == self@.used_pages,
    {
        self.used_pages
    }

    /// The greatest order a block can have.
    pub fn max_order(&self) -> (r: usize)
        ensures
            r == self@.max_order,
    {
        self.max_order
    }

    /// The first pages of the free blocks of `2^order` pages, oldest first;
    /// empty for an order the allocator does not have.
    pub fn free_list(&self, order: usize) -> (r: Vec<usize>)
        ensures
            order < self@.free.len() ==> r@ == self@.free[order as int],
            order >= self@.free.len() ==> r@.len() == 0,
    {
        let mut out: Vec<usize> = Vec::new();
        if order < self.free_lists.len() {
            let n = self.free_lists[order].len();
            let mut i: usize = 0;
            while i < n
                invariant
                    order < self.free_lists@.len(),
                    n == self.free_lists@[order as int]@.len(),
                    i <= n,
                    out@ == self.free_lists@[order as int]@.take(i as int),
                decreases n - i,
            {
                out.push(self.free_lists[order][i]);
                i = i + 1;
                assert(out@ =~= self.free_lists@[order as int]@.take(i as int));
            }
            assert(out@ =~= self.free_lists@[order as int]@);
        }
        out
    }

    /// The pages of the largest free block, zero where no block is free,
    /// and the number of free pages.
    pub fn free_space(&self) -> (r: (usize, usize))
        requires
            self.wf(),
        ensures
            r.1 == self@.total_pages - self@.used_pages,
            r.1 == crate::allocators::buddy_model::free_pages(self@.free),
            r.0 == largest_free(self@.free, self@.free.len() as int),
    {
        proof {
            if self@.total_pages > 0 {
                crate::arith::lemma_pow2_fits(self@.max_order);
            }
        }
        let mut k = self.free_lists.len();
        while k > 0
            invariant
                self.wf(),
                k <= self@.free.len(),
                self@.free.len() == self.free_lists@.len(),
                largest_free(self@.free, k as int) == largest_free(
                    self@.free,
                    self@.free.len() as int,
                ),
            decreases k,
        {
            k = k - 1;
            if self.free_lists[k].len() > 0 {
                proof {
                    assert(is_free_slot(self@.free, k as int, 0));
                }
                return (pow2_usize(k), self.total_pages - self.used_pages);
            }
        }
        (0, self.total_pages - self.used_pages)
    }

    fn push_free(&mut self, order: usize, idx: usize)
        requires
            order < old(self)@.free.len(),
        ensures
            final(self)@ == (BuddyView {
                free: push_block(old(self)@.free, order as int, idx),
                ..old(self)@
            }),
    {
        self.free_lists[order].push(idx);
        assert(self@.free =~= push_block(old(self)@.free, order as int, idx));
    }

    /// Takes the most recently pushed block of order `order` whose address is
    /// a multiple of `align` off its free list.
    fn pop_free(&mut self, order: usize, align: usize) -> (r: Option<usize>)
        requires
            old(self).wf(),
            order < old(self)@.free.len(),
            crate::arith::power_of_two(align as int),
        ensures
            ({
                let pos = last_aligned(old(self)@.free[order as int], old(self)@.base, align);
                &&& pos < 0 ==> r is None && final(self)@ == old(self)@
                &&& pos >= 0 ==> r == Some(old(self)@.free[order as int][pos]) && final(self)@ == (
                BuddyView { free: take_block(old(self)@.free, order as int, pos), ..old(self)@ })
            }),
    {
        let n = self.free_lists[order].len();
        let mut j = n;
        proof {
            lemma_last_aligned(self@.free[order as int], self@.base, align);
        }
        while j > 0
            invariant
                *self == *old(self),
                self.wf(),
                order < self@.free.len(),
                n == self@.free[order as int].len(),
                j <= n,
                crate::arith::power_of_two(align as int),
                forall|i: int|
                    j <= i < n ==> page_address(self@.base, #[trigger] self@.free[order as int][i]) % (
                    align as int) != 0,
            decreases j,
        {
            j = j - 1;
            let idx = self.free_lists[order][j];
            proof {
                assert(is_free_slot(self@.free, order as int, j as int));
                assert(idx == self@.free[order as int][j as int]);
                assert(idx * PAGE_SIZE <= self@.total_pages * PAGE_SIZE) by (nonlinear_arith)
                    requires
                        idx <= self@.total_pages,
                ;
            }
            let addr = self.base + idx * PAGE_SIZE;
            if memory_addr::is_aligned(addr, align) {
                proof {
                    lemma_last_aligned(self@.free[order as int], self@.base, align);
                }
                let taken = self.free_lists[order].swap_remove(j);
                assert(self@.free =~= take_block(old(self)@.free, order as int, j as int));
                return Some(taken);
            }
        }
        proof {
            lemma_last_aligned(self@.free[order as int], self@.base, align);
        }
        None
    }

    /// Takes the first entry `idx` off the free list of order `order`, if
    /// there is one.
    fn remove_free_exact(&mut self, order: usize, idx: usize) -> (found: bool)
        ensures
            found == (order < old(self)@.free.len() && old(self)@.free[order as int].contains(idx)),
            found ==> final(self)@ == (BuddyView {
                free: take_block(
                    old(self)@.free,
                    order as int,
                    first_pos(old(self)@.free[order as int], idx),
                ),
                ..old(self)@
            }),
            !found ==> final(self)@ == old(self)@,
    {
        if order >= self.free_lists.len() {
            return false;
        }
        let n = self.free_lists[order].len();
        let mut i: usize = 0;
        proof {
            lemma_first_pos(self@.free[order as int], idx);
        }
        while i < n
            invariant
                *self == *old(self),
                order < self@.free.len(),
                n == self@.free[order as int].len(),
                i <= n,
                forall|j: int| 0 <= j < i ==> #[trigger] self@.free[order as int][j] != idx,
            decreases n - i,
        {
            if self.free_lists[order][i] == idx {
                proof {
                    lemma_first_pos_at(self@.free[order as int], idx, i as int);
                }
                self.free_lists[order].swap_remove(i);
                assert(self@.free =~= take_block(old(self)@.free, order as int, i as int));
                return true;
            }
            i = i + 1;
        }
        false
    }

    /// Sets the allocator up over the whole pages of `[start, start + size)`,
    /// all of them free.
    ///
    /// Fails with `InvalidParam`, and changes nothing, where the region
    /// overflows the address space or holds no whole page.
    pub fn init(&mut self, start_vaddr: usize, size: usize) -> (res: Result<(), AllocError>)
        ensures
            region_ok(start_vaddr, size) ==> res is Ok && final(self)@ == after_init(start_vaddr, size)
                && final(self).wf(),
            !region_ok(start_vaddr, size) ==> res == Err::<(), AllocError>(AllocError::InvalidParam)
                && *final(self) == *old(self),
    {
        let (start, total_pages) = match page_bounds(start_vaddr, size) {
            Some(b) => b,
            None => {
                return Err(AllocError::InvalidParam);
            },
        };
        let mo = floor_log2(total_pages);
        proof {
            lemma_floor_order(total_pages as nat, mo as nat);
            lemma_init(start_vaddr, size);
        }
        let mut lists: Vec<Vec<usize>> = Vec::new();
        let mut k: usize = 0;
        while k <= mo
            invariant
                k <= mo + 1,
                mo < usize::BITS,
                lists@.len() == k,
                forall|i: int| 0 <= i < k ==> #[trigger] lists@[i]@ == Seq::<usize>::empty(),
            decreases mo + 1 - k,
        {
            lists.push(Vec::new());
            k = k + 1;
        }
        self.free_lists = lists;
        self.alloc_map.clear();
        self.used_pages = 0;
        self.base = start;
        self.total_pages = total_pages;
        self.max_order = mo;
        proof {
            assert(self@.free =~= Seq::new(
                (mo + 1) as nat,
                |k: int| Seq::<usize>::empty(),
            ));
            lemma_seed_start(self@);
        }
        let ghost target = after_init(start_vaddr, size);
        let mut remaining = total_pages;
        let mut offset: usize = 0;
        let ghost mut bound: nat = (mo + 1) as nat;
        while remaining > 0
            invariant
                seeding_inv(self@, remaining as nat, offset as nat, bound),
                self@.base == target.base,
                self@.total_pages == target.total_pages,
                self@.max_order == target.max_order,
                seed_blocks(self@.free, remaining as nat, offset as nat) == target.free,
            decreases remaining,
        {
            let order = floor_log2(remaining);
            proof {
                lemma_floor_order(remaining as nat, order as nat);
                lemma_seed_step(self@, remaining as nat, offset as nat, bound, order as nat);
                vstd::arithmetic::power2::lemma_pow2_pos(order as nat);
                bound = order as nat;
            }
            let block_size = pow2_usize(order);
            self.push_free(order, offset);
            offset = offset + block_size;
            remaining = remaining - block_size;
        }
        proof {
            assert(self@ == target);
        }
        Ok(())
    }

    /// Hands out `num_pages` pages in a block of the smallest order that
    /// holds them, at an address that is a multiple of `align_pow2`.
    ///
    /// Of the free blocks whose address is so aligned, it takes one of the
    /// lowest order that is large enough, the most recently pushed of them,
    /// and halves it down to the order needed. Fails with `InvalidParam`
    /// on a request that is not valid and with `NoMemory` where no free
    /// block is large enough and aligned; a failed call changes nothing.
    #[verifier::loop_isolation(false)]
    pub fn alloc_pages(&mut self, num_pages: usize, align_pow2: usize) -> (res: Result<
        usize,
        AllocError,
    >)
        requires
            old(self).wf(),
        ensures
            final(self).wf(),
            final(self)@ == after_alloc(old(self)@, num_pages, align_pow2),
            res == alloc_result(old(self)@, num_pages, align_pow2),
            res is Err ==> final(self)@ == old(self)@,
            res is Ok ==> {
                let a = res->Ok_0;
                &&& a % align_pow2 == 0
                &&& a % PAGE_SIZE == 0
                &&& old(self)@.base <= a
                &&& a + num_pages * PAGE_SIZE <= old(self)@.base + old(self)@.total_pages * PAGE_SIZE
            },
    {
        if num_pages == 0 {
            return Err(AllocError::InvalidParam);
        }
        if align_pow2 < PAGE_SIZE || !align_pow2.is_power_of_two() {
            return Err(AllocError::InvalidParam);
        }
        let order = ceil_log2(num_pages);
        let mut o = order;
        proof {
            lemma_alloc(self@, num_pages, align_pow2);
            if self@.total_pages > 0 {
                crate::arith::lemma_pow2_fits(self@.max_order);
            }
        }
        while o <= self.max_order
            invariant
                self@ == old(self)@,
                order <= o,
                first_order_with(self@, order as nat, align_pow2) == first_order_with(
                    self@,
                    o as nat,
                    align_pow2,
                ),
            decreases self.max_order + 1 - o,
        {
            proof {
                lemma_last_aligned(self@.free[o as int], self@.base, align_pow2);
            }
            match self.pop_free(o, align_pow2) {
                Some(idx) => {
                    let ghost pos = last_aligned(old(self)@.free[o as int], old(self)@.base, align_pow2);
                    let ghost taken = self@;
                    proof {
                        assert(is_free_slot(old(self)@.free, o as int, pos));
                        lemma_take(old(self)@, o as int, pos);
                    }
                    let mut cur_order = o;
                    while cur_order > order
                        invariant
                            order <= cur_order <= o,
                            held_inv(self@, idx, cur_order as nat),
                            self@ == (BuddyView { free: self@.free, ..taken }),
                            split_down(self@.free, idx, cur_order as nat, order as nat) == split_down(
                                taken.free,
                                idx,
                                o as nat,
                                order as nat,
                            ),
                        decreases cur_order,
                    {
                        cur_order = cur_order - 1;
                        proof {
                            lemma_split(self@, idx, cur_order as nat);
                        }
                        let upper = idx + pow2_usize(cur_order);
                        self.push_free(cur_order, upper);
                    }
                    self.alloc_map.insert(idx, order);
                    self.used_pages = self.used_pages + pow2_usize(order);
                    proof {
                        assert(idx * PAGE_SIZE <= self@.total_pages * PAGE_SIZE) by (nonlinear_arith)
                            requires
                                idx <= self@.total_pages,
                        ;
                    }
                    return Ok(self.base + idx * PAGE_SIZE);
                },
                None => {},
            }
            o = o + 1;
        }
        Err(AllocError::NoMemory)
    }

    /// Hands out the free block that starts at `start` and has the order for
    /// `num_pages` pages.
    ///
    /// Fails with `InvalidParam` on a request that is not valid or a `start`
    /// that lies outside the region or is no multiple of `align_pow2`, and
    /// with `NoMemory` where no free block of that order starts there; a
    /// failed call changes nothing.
    pub fn alloc_pages_at(&mut self, start: usize, num_pages: usize, align_pow2: usize) -> (res:
        Result<usize, AllocError>)
        requires
            old(self).wf(),
        ensures
            final(self).wf(),
            final(self)@ == after_alloc_at(old(self)@, start, num_pages, align_pow2),
            res == alloc_at_result(old(self)@, start, num_pages, align_pow2),
            res is Err ==> final(self)@ == old(self)@,
            res is Ok ==> start + num_pages * PAGE_SIZE <= old(self)@.base + old(self)@.total_pages
                * PAGE_SIZE,
    {
        if num_pages == 0 {
            return Err(AllocError::InvalidParam);
        }
        if align_pow2 < PAGE_SIZE || !align_pow2.is_power_of_two() {
            return Err(AllocError::InvalidParam);
        }
        if start < self.base || start >= self.base + self.total_pages * PAGE_SIZE {
            return Err(AllocError::InvalidParam);
        }
        if !memory_addr::is_aligned(start, align_pow2) {
            return Err(AllocError::InvalidParam);
        }
        let idx = (start - self.base) / PAGE_SIZE;
        let order = ceil_log2(num_pages);
        proof {
            lemma_alloc_at(self@, start, num_pages, align_pow2);
        }
        if self.remove_free_exact(order, idx) {
            proof {
                let pos = first_pos(old(self)@.free[order as int], idx);
                lemma_first_pos(old(self)@.free[order as int], idx);
                assert(is_free_slot(old(self)@.free, order as int, pos));
                lemma_take(old(self)@, order as int, pos);
            }
            self.alloc_map.insert(idx, order);
            self.used_pages = self.used_pages + pow2_usize(order);
            return Ok(start);
        }
        Err(AllocError::NoMemory)
    }

    /// Returns the live extent that starts at `pos` to the free lists,
    /// merging it with its buddy as long as the buddy is free. The size is
    /// the one recorded when the extent was handed out; the second argument
    /// is not read. Where `pos` is not the start of a live extent the call
    /// changes nothing.
    pub fn dealloc_pages(&mut self, pos: usize, _num_pages: usize)
        requires
            old(self).wf(),
        ensures
            final(self).wf(),
            final(self)@ == after_dealloc(old(self)@, pos),
    {
        if pos < self.base || pos >= self.base + self.total_pages * PAGE_SIZE {
            return ;
        }
        proof {
            vstd::arithmetic::power2::lemma2_to64();
            assert(PAGE_SIZE as int == pow2(12));
        }
        if !memory_addr::is_aligned(pos, PAGE_SIZE) {
            return ;
        }
        let mut idx = (pos - self.base) / PAGE_SIZE;
        let order = match self.alloc_map.remove(&idx) {
            Some(o) => o,
            None => {
                assert(self@.allocated =~= old(self)@.allocated);
                return ;
            },
        };
        proof {
            lemma_dealloc(old(self)@, pos);
            lemma_release(old(self)@, idx);
        }
        self.used_pages = self.used_pages - pow2_usize(order);
        let ghost released = self@;
        let ghost idx0 = idx;
        let mut cur_order = order;
        loop
            invariant
                held_inv(self@, idx, cur_order as nat),
                self@ == (BuddyView { free: self@.free, ..released }),
                coalesce(self@.free, idx, cur_order as nat) == coalesce(
                    released.free,
                    idx0,
                    order as nat,
                ),
            ensures
                coalesce(self@.free, idx, cur_order as nat) == push_block(
                    self@.free,
                    cur_order as int,
                    idx,
                ),
            decreases self.max_order - cur_order,
        {
            if cur_order >= self.max_order {
                break ;
            }
            let buddy = idx ^ pow2_usize(cur_order);
            let ghost before = self@;
            if self.remove_free_exact(cur_order, buddy) {
                proof {
                    let p = first_pos(before.free[cur_order as int], buddy);
                    lemma_first_pos(before.free[cur_order as int], buddy);
                    lemma_merge(before, idx, cur_order as nat, p);
                }
                if buddy < idx {
                    idx = buddy;
                }
                cur_order = cur_order + 1;
            } else {
                break ;
            }
        }
        self.push_free(cur_order, idx);
    }
}

impl crate::allocators::PageAllocator for BuddyAllocator {
    open spec fn valid(&self) -> bool {
        self.wf()
    }

    open spec fn region(&self) -> (nat, nat) {
        (self@.base, self@.total_pages)
    }

    fn name(&self) -> (r: &'static str) {
        BuddyAllocator::name(self)
    }

    fn init(&mut self, start_vaddr: usize, size: usize) -> (res: Result<(), AllocError>) {
        BuddyAllocator::init(self, start_vaddr, size)
    }

    fn alloc_pages(&mut self, num_pages: usize, align_pow2: usize) -> (res: Result<
        usize,
        AllocError,
    >) {
        BuddyAllocator::alloc_pages(self, num_pages, align_pow2)
    }

    fn alloc_pages_at(&mut self, start: usize, num_pages: usize, align_pow2: usize) -> (res:
        Result<usize, AllocError>) {
        proof {
            if valid_request(num_pages, align_pow2) && self@.base <= start && start % align_pow2
                == 0 {
                lemma_aligned_start(self@.base, start, align_pow2);
            }
        }
        BuddyAllocator::alloc_pages_at(self, start, num_pages, align_pow2)
    }

    fn dealloc_pages(&mut self, pos: usize, num_pages: usize) {
        BuddyAllocator::dealloc_pages(self, pos, num_pages)
    }

    open spec fn strategy(&self) -> Seq<char> {
        "buddy"@
    }

    open spec fn released(v: BuddyView, pos: usize) -> BuddyView {
        after_dealloc(v, pos)
    }

    open spec fn set_up(v: BuddyView, start: usize, size: usize) -> Option<BuddyView> {
        if region_ok(start, size) {
            Some(after_init(start, size))
        } else {
            None
        }
    }

    open spec fn alloc_result(v: BuddyView, num_pages: usize, align: usize) -> Result<usize, AllocError> {
        alloc_result(v, num_pages, align)
    }

    open spec fn after_alloc(v: BuddyView, num_pages: usize, align: usize) -> BuddyView {
        after_alloc(v, num_pages, align)
    }

    open spec fn alloc_at_result(v: BuddyView, start: usize, num_pages: usize, align: usize) -> Result<
        usize,
        AllocError,
    > {
        alloc_at_result(v, start, num_pages, align)
    }

    open spec fn after_alloc_at(v: BuddyView, start: usize, num_pages: usize, align: usize) -> BuddyView {
        after_alloc_at(v, start, num_pages, align)
    }
}

} // verus!
