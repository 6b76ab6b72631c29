//! Hybrid page allocator.
//!
//! A bitmap with one bit per page says which pages are free; a list of free
//! blocks holds the runs of free pages. Requests of at least
//! `THRESHOLD_PAGES` pages are cut from the best-fitting block, smaller
//! ones from the first run of free pages in the bitmap. Either way the
//! pages leave both, and come back to both.

use vstd::prelude::*;
use vstd::std_specs::iter::IteratorSpec;
use std::collections::BTreeMap;
use crate::allocators::{PAGE_SIZE, AllocError, valid_request, page_bounds, region_ok, region_pages, round_up_page, lemma_aligned_start};
use crate::allocators::hybrid_model::{THRESHOLD_PAGES, HybridView, hybrid_inv, run_free, mark, first_run, fits, better_fit, is_best_fit, some_fits, in_block, covered, block_of, carve, has_predecessor, ends_at, predecessor, give_back, hand_out, fresh_hybrid, after_alloc, alloc_result, after_alloc_at, alloc_at_result, after_dealloc, lemma_fresh_hybrid, lemma_block_unique, lemma_run_in_block, lemma_block_free, lemma_predecessor_unique, lemma_best_fit, lemma_first_run, lemma_hand_out, lemma_alloc, lemma_alloc_at, lemma_dealloc};

verus! {

/// A hybrid allocator over one region of pages.
pub struct HybridAllocator {
    base: usize,
    total_pages: usize,
    /// One bit per page, lowest bit first: 1 = free, 0 = taken.
    bitmap: Vec<u8>,
    /// First page of each free block of the large pool, with its size.
    free_list: BTreeMap<usize, usize>,
    /// First page of each live extent, with its size and whether it came
    /// from the large pool.
    alloc_map: BTreeMap<usize, (usize, bool)>,
    used_pages: usize,
}

/// Bit `b` of `byte` is set.
pub open spec fn bit_of(byte: u8, b: u8) -> bool {
    byte & (1u8 << b) != 0
}

/// The flags of the first `total` pages of a bitmap.
pub open spec fn bits_of(bitmap: Seq<u8>, total: nat) -> Seq<bool> {
    Seq::new(total, |i: int| bit_of(bitmap[i / 8], (i % 8) as u8))
}

/// Setting bit `b` sets that bit and no other.
proof fn lemma_set_bit(byte: u8, b: u8, c: u8)
    requires
        b < 8,
        c < 8,
    ensures
        bit_of(byte | (1u8 << b), c) == (c == b || bit_of(byte, c)),
{
    assert(((byte | (1u8 << b)) & (1u8 << c) != 0) == (c == b || (byte & (1u8 << c) != 0)))
        by (bit_vector)
        requires
            b < 8,
            c < 8,
    ;
}

/// Clearing bit `b` clears that bit and no other.
proof fn lemma_clear_bit(byte: u8, b: u8, c: u8)
    requires
        b < 8,
        c < 8,
    ensures
        bit_of(byte & !(1u8 << b), c) == (c != b && bit_of(byte, c)),
{
    assert(((byte & !(1u8 << b)) & (1u8 << c) != 0) == (c != b && (byte & (1u8 << c) != 0)))
        by (bit_vector)
        requires
            b < 8,
            c < 8,
    ;
}

/// A byte of ones shifted right by `8 - r` has its lowest `r` bits set.
proof fn lemma_low_bits(r: u8, c: u8)
    requires
        1 <= r <= 8,
        c < 8,
    ensures
        bit_of(0xFFu8 >> ((8 - r) as u8), c) == (c < r),
{
    let shift = (8 - r) as u8;
    assert(((0xFFu8 >> shift) & (1u8 << c) != 0) == (c < r)) by (bit_vector)
        requires
            1 <= r <= 8,
            c < 8,
            shift == 8 - r,
    ;
}

impl View for HybridAllocator {
    type V = HybridView;

    closed spec fn view(&self) -> HybridView {
        HybridView {
            base: self.base as nat,
            total_pages: self.total_pages as nat,
            bits: bits_of(self.bitmap@, self.total_pages as nat),
            free_list: self.free_list@,
            allocated: self.alloc_map@,
            used_pages: self.used_pages as nat,
        }
    }
}

impl HybridAllocator {
    /// The bitmap has a bit for every page.
    pub closed spec fn storage_ok(&self) -> bool {
        self.bitmap@.len() * 8 >= self.total_pages
    }

    /// The allocator's state is valid.
    pub open spec fn wf(&self) -> bool {
        hybrid_inv(self@) && self.storage_ok()
    }

    /// An allocator over an empty region: every request fails with
    /// `NoMemory` until `init` is called.
    pub fn new() -> (r: Self)
        ensures
            r.wf(),
            r@ == (HybridView {
                base: 0,
                total_pages: 0,
                bits: Seq::empty(),
                free_list: Map::empty(),
                allocated: Map::empty(),
                used_pages: 0,
            }),
    {
        let r = HybridAllocator {
            base: 0,
            total_pages: 0,
            bitmap: Vec::new(),
            free_list: BTreeMap::new(),
            alloc_map: BTreeMap::new(),
            used_pages: 0,
        };
        proof {
            assert(r@.bits =~= Seq::<bool>::empty());
            crate::maps::lemma_sum_empty(
                |e: (usize, bool)| crate::allocators::hybrid_model::extent_size(e),
            );
            crate::maps::lemma_sum_empty(
                |n: usize| crate::allocators::hybrid_model::block_size(n),
            );
        }
        r
    }

    /// The allocator's name.
    pub fn name(&self) -> (r: &'static str)
        ensures
            r@ == "hybrid"@,
    {
        "hybrid"
    }

    /// First byte of the region.
    pub fn base(&self) -> (r: usize)
        ensures
            r == self@.base,
    {
        self.base
    }

    /// Number of pages in the region.
    pub fn total_pages(&self) -> (r: usize)
        ensures
            r == self@.total_pages,
    {
        self.total_pages
    }

    /// Pages handed out and not yet returned.
    pub fn used_pages(&self) -> (r: usize)
        ensures
            r == self@.used_pages,
    {
        self.used_pages
    }

    /// Whether page `idx` is free; false for a page outside the region.
    pub fn page_is_free(&self, idx: usize) -> (r: bool)
        requires
            self.wf(),
        ensures
            r == (idx < self@.total_pages && self@.bits[idx as int]),
    {
        idx < self.total_pages && self.test_bit(idx)
    }

    /// The size of the free block that starts at page `idx`, if there is
    /// one.
    pub fn free_block(&self, idx: usize) -> (r: Option<usize>)
        ensures
            r == (if self@.free_list.contains_key(idx) {
                Some(self@.free_list[idx])
            } else {
                None
            }),
    {
        match self.free_list.get(&idx) {
            Some(size) => Some(*size),
            None => None,
        }
    }

    fn test_bit(&self, idx: usize) -> (r: bool)
        requires
            self.storage_ok(),
            idx < self@.total_pages,
        ensures
            r == self@.bits[idx as int],
    {
        let byte_idx = idx / 8;
        let bit_idx = (idx % 8) as u8;
        (self.bitmap[byte_idx] & (1u8 << bit_idx)) != 0
    }

    /// Marks the pages `[start_idx, start_idx + count)` as free.
    fn mark_free(&mut self, start_idx: usize, count: usize)
        requires
            old(self).storage_ok(),
            start_idx + count <= old(self)@.total_pages,
        ensures
            final(self).storage_ok(),
            final(self)@ == (HybridView {
                bits: mark(old(self)@.bits, start_idx as int, count as int, true),
                ..old(self)@
            }),
    {
        let end = start_idx + count;
        let mut i = start_idx;
        assert(self@.bits =~= mark(old(self)@.bits, start_idx as int, 0, true));
        while i < end
            invariant
                start_idx <= i <= end,
                end == start_idx + count,
                end <= self@.total_pages,
                self.storage_ok(),
                self@ == (HybridView {
                    bits: mark(old(self)@.bits, start_idx as int, i - start_idx, true),
                    ..old(self)@
                }),
            decreases end - i,
        {
            let byte_idx = i / 8;
            let bit_idx = (i % 8) as u8;
            let ghost before = self.bitmap@;
            let byte = self.bitmap[byte_idx];
            self.bitmap[byte_idx] = byte | (1u8 << bit_idx);
            proof {
                assert forall|j: int| 0 <= j < self@.total_pages implies #[trigger] self@.bits[j]
                    == mark(old(self)@.bits, start_idx as int, i + 1 - start_idx, true)[j] by {
                    if j / 8 == byte_idx as int {
                        lemma_set_bit(byte, bit_idx, (j % 8) as u8);
                    } else {
                        assert(self.bitmap@[j / 8] == before[j / 8]);
                    }
                    assert(bits_of(before, self@.total_pages)[j] == mark(
                        old(self)@.bits,
                        start_idx as int,
                        i - start_idx,
                        true,
                    )[j]);
                }
                assert(self@.bits =~= mark(
                    old(self)@.bits,
                    start_idx as int,
                    i + 1 - start_idx,
                    true,
                ));
            }
            i = i + 1;
        }
    }

    /// Marks the pages `[start_idx, start_idx + count)` as taken.
    fn mark_allocated(&mut self, start_idx: usize, count: usize)
        requires
            old(self).storage_ok(),
            start_idx + count <= old(self)@.total_pages,
        ensures
            final(self).storage_ok(),
            final(self)@ == (HybridView {
                bits: mark(old(self)@.bits, start_idx as int, count as int, false),
                ..old(self)@
            }),
    {
        let end = start_idx + count;
        let mut i = start_idx;
        assert(self@.bits =~= mark(old(self)@.bits, start_idx as int, 0, false));
        while i < end
            invariant
                start_idx <= i <= end,
                end == start_idx + count,
                end <= self@.total_pages,
                self.storage_ok(),
                self@ == (HybridView {
                    bits: mark(old(self)@.bits, start_idx as int, i - start_idx, false),
                    ..old(self)@
                }),
            decreases end - i,
        {
            let byte_idx = i / 8;
            let bit_idx = (i % 8) as u8;
            let ghost before = self.bitmap@;
            let byte = self.bitmap[byte_idx];
            self.bitmap[byte_idx] = byte & !(1u8 << bit_idx);
            proof {
                assert forall|j: int| 0 <= j < self@.total_pages implies #[trigger] self@.bits[j]
                    == mark(old(self)@.bits, start_idx as int, i + 1 - start_idx, false)[j] by {
                    if j / 8 == byte_idx as int {
                        lemma_clear_bit(byte, bit_idx, (j % 8) as u8);
                    } else {
                        assert(self.bitmap@[j / 8] == before[j / 8]);
                    }
                    assert(bits_of(before, self@.total_pages)[j] == mark(
                        old(self)@.bits,
                        start_idx as int,
                        i - start_idx,
                        false,
                    )[j]);
                }
                assert(self@.bits =~= mark(
                    old(self)@.bits,
                    start_idx as int,
                    i + 1 - start_idx,
                    false,
                ));
            }
            i = i + 1;
        }
    }

    /// Whether the pages `[start, start + needed)` are all free.
    fn run_is_free(&self, start: usize, needed: usize) -> (r: bool)
        requires
            self.storage_ok(),
            start + needed <= self@.total_pages,
        ensures
            r == run_free(self@.bits, start as int, needed as int),
    {
        let end = start + needed;
        let mut i = start;
        while i < end
            invariant
                start <= i <= end,
                end == start + needed,
                end <= self@.total_pages,
                self.storage_ok(),
                forall|j: int| start <= j < i ==> #[trigger] self@.bits[j],
            decreases end - i,
        {
            if !self.test_bit(i) {
                return false;
            }
            i = i + 1;
        }
        true
    }

    /// The first page at which a run of `needed` free pages starts at an
    /// address that is a multiple of `align`.
    fn find_free_in_bitmap(&self, needed: usize, align: usize) -> (r: Option<usize>)
        requires
            self.wf(),
            needed >= 1,
            crate::arith::power_of_two(align as int),
        ensures
            match r {
                Some(s) => s == first_run(self@, needed as int, align, 0),
                None => first_run(self@, needed as int, align, 0) < 0,
            },
    {
        if needed > self.total_pages {
            return None;
        }
        let last = self.total_pages - needed;
        let mut start: usize = 0;
        while start <= last
            invariant
                self.wf(),
                needed >= 1,
                last == self@.total_pages - needed,
                start <= last + 1,
                crate::arith::power_of_two(align as int),
                first_run(self@, needed as int, align, start as int) == first_run(
                    self@,
                    needed as int,
                    align,
                    0,
                ),
            decreases last + 1 - start,
        {
            proof {
                assert(start * PAGE_SIZE <= self@.total_pages * PAGE_SIZE) by (nonlinear_arith)
                    requires
                        start <= self@.total_pages,
                ;
            }
            if self.run_is_free(start, needed) && memory_addr::is_aligned(
                self.base + start * PAGE_SIZE,
                align,
            ) {
                return Some(start);
            }
            start = start + 1;
        }
        None
    }

    /// The best fit for `needed` pages among the free blocks that start at
    /// an address that is a multiple of `align`, with its size.
    fn find_free_block(&self, needed: usize, align: usize) -> (r: Option<(usize, usize)>)
        requires
            self.wf(),
            crate::arith::power_of_two(align as int),
        ensures
            match r {
                Some((s, size)) => is_best_fit(self@, s, needed, align) && size
                    == self@.free_list[s],
                None => !some_fits(self@, needed, align),
            },
    {
        let mut best: Option<(usize, usize)> = None;
        for kv in it: self.free_list.iter()
            invariant
                self.wf(),
                crate::arith::power_of_two(align as int),
                it.seq() == self.free_list.iter().remaining(),
                match best {
                    Some((s, size)) => fits(self@, s, needed, align) && size
                        == self@.free_list[s],
                    None => true,
                },
                forall|i: int|
                    0 <= i < it.index() && fits(self@, *(#[trigger] it.seq()[i]).0, needed, align)
                        ==> best is Some && better_fit(self@, best->Some_0.0, *it.seq()[i].0),
        {
            let idx = *kv.0;
            let size = *kv.1;
            proof {
                broadcast use vstd::std_specs::btree::group_btree_axioms;

                let all = self.free_list.iter().remaining();
                let here = it.index() as int;
                assert(self.free_list@.contains_key(*all[here].0));
                assert(self.free_list@[*all[here].0] == *all[here].1);
                assert(idx * PAGE_SIZE <= self@.total_pages * PAGE_SIZE) by (nonlinear_arith)
                    requires
                        idx <= self@.total_pages,
                ;
            }
            if size >= needed && memory_addr::is_aligned(self.base + idx * PAGE_SIZE, align) {
                let better = match best {
                    Some((best_idx, best_size)) => size < best_size || (size == best_size && idx
                        < best_idx),
                    None => true,
                };
                if better {
                    best = Some((idx, size));
                }
            }
        }
        proof {
            broadcast use vstd::std_specs::btree::group_btree_axioms;

            let all = self.free_list.iter().remaining();
            assert forall|t: usize| #[trigger] fits(self@, t, needed, align) implies best is Some
                && better_fit(self@, best->Some_0.0, t) by {
                let pair = (&t, &self.free_list@[t]);
                assert(all.contains(pair));
                let i = choose|i: int| 0 <= i < all.len() && all[i] == pair;
                assert(*all[i].0 == t);
            }
        }
        best
    }

    /// Keeps what is left of a block of `whole_size` pages at
    /// `start_idx` after its first `needed_size` pages were taken.
    fn split_block(&mut self, start_idx: usize, whole_size: usize, needed_size: usize)
        requires
            start_idx + whole_size <= usize::MAX,
        ensures
            final(self).storage_ok() == old(self).storage_ok(),
            final(self)@ == (HybridView {
                free_list: if whole_size > needed_size {
                    old(self)@.free_list.insert(
                        (start_idx + needed_size) as usize,
                        (whole_size - needed_size) as usize,
                    )
                } else {
                    old(self)@.free_list
                },
                ..old(self)@
            }),
    {
        if whole_size > needed_size {
            let remaining_start = start_idx + needed_size;
            let remaining_size = whole_size - needed_size;
            self.free_list.insert(remaining_start, remaining_size);
        }
    }

    /// The free block that ends where page `start_idx` starts, with its size.
    fn find_predecessor(&self, start_idx: usize) -> (r: Option<(usize, usize)>)
        requires
            self.wf(),
        ensures
            match r {
                Some((p, size)) => ends_at(self@.free_list, p, start_idx) && size
                    == self@.free_list[p],
                None => !has_predecessor(self@.free_list, start_idx),
            },
    {
        let mut found: Option<(usize, usize)> = None;
        for kv in it: self.free_list.iter()
            invariant
                self.wf(),
                it.seq() == self.free_list.iter().remaining(),
                match found {
                    Some((p, size)) => ends_at(self@.free_list, p, start_idx) && size
                        == self@.free_list[p],
                    None => true,
                },
                forall|i: int|
                    0 <= i < it.index() && ends_at(
                        self@.free_list,
                        *(#[trigger] it.seq()[i]).0,
                        start_idx,
                    ) ==> found is Some,
        {
            let idx = *kv.0;
            let size = *kv.1;
            proof {
                broadcast use vstd::std_specs::btree::group_btree_axioms;

                let all = self.free_list.iter().remaining();
                let here = it.index() as int;
                assert(self.free_list@.contains_key(*all[here].0));
                assert(self.free_list@[*all[here].0] == *all[here].1);
            }
            if idx + size == start_idx {
                found = Some((idx, size));
            }
        }
        proof {
            broadcast use vstd::std_specs::btree::group_btree_axioms;

            let all = self.free_list.iter().remaining();
            if has_predecessor(self@.free_list, start_idx) {
                let t = choose|t: usize| ends_at(self@.free_list, t, start_idx);
                let pair = (&t, &self.free_list@[t]);
                assert(all.contains(pair));
                let i = choose|i: int| 0 <= i < all.len() && all[i] == pair;
                assert(*all[i].0 == t);
            }
        }
        found
    }

    /// The free block that page `idx` lies in, with its size.
    fn find_block(&self, idx: usize) -> (r: Option<(usize, usize)>)
        requires
            self.wf(),
        ensures
            match r {
                Some((p, size)) => in_block(self@.free_list, p, idx as int) && size
                    == self@.free_list[p],
                None => !covered(self@.free_list, idx as int),
            },
    {
        let mut found: Option<(usize, usize)> = None;
        for kv in it: self.free_list.iter()
            invariant
                self.wf(),
                it.seq() == self.free_list.iter().remaining(),
                match found {
                    Some((p, size)) => in_block(self@.free_list, p, idx as int) && size
                        == self@.free_list[p],
                    None => true,
                },
                forall|i: int|
                    0 <= i < it.index() && in_block(
                        self@.free_list,
                        *(#[trigger] it.seq()[i]).0,
                        idx as int,
                    ) ==> found is Some,
        {
            let start = *kv.0;
            let size = *kv.1;
            proof {
                broadcast use vstd::std_specs::btree::group_btree_axioms;

                let all = self.free_list.iter().remaining();
                let here = it.index() as int;
                assert(self.free_list@.contains_key(*all[here].0));
                assert(self.free_list@[*all[here].0] == *all[here].1);
            }
            if start <= idx && idx - start < size {
                found = Some((start, size));
            }
        }
        proof {
            broadcast use vstd::std_specs::btree::group_btree_axioms;

            let all = self.free_list.iter().remaining();
            if covered(self@.free_list, idx as int) {
                let t = choose|t: usize| in_block(self@.free_list, t, idx as int);
                let pair = (&t, &self.free_list@[t]);
                assert(all.contains(pair));
                let i = choose|i: int| 0 <= i < all.len() && all[i] == pair;
                assert(*all[i].0 == t);
            }
        }
        found
    }

    /// Cuts the free pages `[idx, idx + count)` out of the free block they
    /// lie in; what is left of the block before and after them stays free.
    fn carve_block(&mut self, idx: usize, count: usize)
        requires
            old(self).wf(),
            count >= 1,
            run_free(old(self)@.bits, idx as int, count as int),
        ensures
            final(self).storage_ok(),
            final(self)@ == (HybridView {
                free_list: carve(old(self)@.free_list, idx, count),
                ..old(self)@
            }),
    {
        proof {
            lemma_run_in_block(self@, idx as int, count as int);
        }
        match self.find_block(idx) {
            Some((block_idx, block_size)) => {
                proof {
                    lemma_block_unique(
                        self@,
                        block_idx,
                        block_of(self@.free_list, idx as int),
                        idx as int,
                    );
                }
                let end = block_idx + block_size;
                self.free_list.remove(&block_idx);
                if block_idx < idx {
                    self.free_list.insert(block_idx, idx - block_idx);
                }
                self.split_block(idx, end - idx, count);
            },
            None => {},
        }
    }

    /// Returns the pages `[start_idx, start_idx + size)` to the free
    /// blocks, as one block with the block that ends where they start and
    /// the block that starts where they end, where there are such blocks.
    fn try_merge(&mut self, start_idx: usize, size: usize)
        requires
            old(self).wf(),
            size >= 1,
            start_idx + size <= old(self)@.total_pages,
        ensures
            final(self).storage_ok(),
            final(self)@ == (HybridView {
                free_list: give_back(old(self)@.free_list, start_idx, size),
                ..old(self)@
            }),
    {
        let end_idx = start_idx + size;
        let mut merged_start = start_idx;
        let mut merged_size = size;
        match self.find_predecessor(start_idx) {
            Some((prev_idx, prev_size)) => {
                proof {
                    lemma_predecessor_unique(
                        self@,
                        start_idx,
                        prev_idx,
                        predecessor(self@.free_list, start_idx),
                    );
                }
                self.free_list.remove(&prev_idx);
                merged_start = prev_idx;
                merged_size = prev_size + size;
            },
            None => {},
        }
        proof {
            if old(self)@.free_list.contains_key(end_idx) {
                assert(old(self)@.free_list[end_idx] + end_idx <= old(self)@.total_pages);
            }
        }
        match self.free_list.remove(&end_idx) {
            Some(next_size) => {
                merged_size = merged_size + next_size;
            },
            None => {},
        }
        self.free_list.insert(merged_start, merged_size);
        assert(self@.free_list =~= give_back(old(self)@.free_list, start_idx, size));
    }

    /// Sets the allocator up over the whole pages of `[start, start + size)`,
    /// all of them free, in one block.
    ///
    /// Fails with `InvalidParam`, and changes nothing, where the region
    /// overflows the address space or holds no whole page.
    pub fn init(&mut self, start_vaddr: usize, size: usize) -> (res: Result<(), AllocError>)
        ensures
            region_ok(start_vaddr, size) ==> res is Ok && final(self).wf() && final(self)@
                == fresh_hybrid(
                round_up_page(start_vaddr as int) as nat,
                region_pages(start_vaddr, size),
            ),
            !region_ok(start_vaddr, size) ==> res == Err::<(), AllocError>(AllocError::InvalidParam)
                && *final(self) == *old(self),
    {
        let (start, total_pages) = match page_bounds(start_vaddr, size) {
            Some(b) => b,
            None => {
                return Err(AllocError::InvalidParam);
            },
        };
        let bitmap_size = (total_pages + 7) / 8;
        let mut bitmap: Vec<u8> = Vec::new();
        let mut k: usize = 0;
        while k < bitmap_size
            invariant
                k <= bitmap_size,
                bitmap@.len() == k,
                forall|i: int| 0 <= i < k ==> #[trigger] bitmap@[i] == 0xFFu8,
            decreases bitmap_size - k,
        {
            bitmap.push(0xFFu8);
            k = k + 1;
        }
        if total_pages % 8 != 0 {
            let last_byte_idx = bitmap_size - 1;
            let unused_bits = (8 - (total_pages % 8)) as u8;
            let byte = bitmap[last_byte_idx];
            bitmap[last_byte_idx] = byte & (0xFFu8 >> unused_bits);
            assert(0xFFu8 & (0xFFu8 >> unused_bits) == 0xFFu8 >> unused_bits) by (bit_vector);
        }
        self.bitmap = bitmap;
        self.free_list.clear();
        self.free_list.insert(0, total_pages);
        self.alloc_map.clear();
        self.used_pages = 0;
        self.base = start;
        self.total_pages = total_pages;
        proof {
            lemma_fresh_hybrid(start as nat, total_pages as nat);
            assert forall|i: int| 0 <= i < total_pages implies #[trigger] self@.bits[i] by {
                let c = (i % 8) as u8;
                if total_pages % 8 != 0 && i / 8 == bitmap_size - 1 {
                    lemma_low_bits((total_pages % 8) as u8, c);
                } else {
                    lemma_low_bits(8, c);
                    assert(0xFFu8 >> 0u8 == 0xFFu8) by (bit_vector);
                }
            }
            assert(self@.bits =~= Seq::new(total_pages as nat, |i: int| true));
        }
        Ok(())
    }

    /// Records the extent of `num_pages` pages at `idx` as live.
    fn record(&mut self, idx: usize, num_pages: usize, large: bool)
        requires
            old(self)@.used_pages + num_pages <= usize::MAX,
        ensures
            final(self).storage_ok() == old(self).storage_ok(),
            final(self)@ == (HybridView {
                allocated: old(self)@.allocated.insert(idx, (num_pages, large)),
                used_pages: (old(self)@.used_pages + num_pages) as nat,
                ..old(self)@
            }),
    {
        self.alloc_map.insert(idx, (num_pages, large));
        self.used_pages = self.used_pages + num_pages;
    }

    /// Takes the free pages `[idx, idx + num_pages)` out of the bitmap and
    /// out of the free blocks and records them as a live extent.
    fn take_extent(&mut self, idx: usize, num_pages: usize)
        requires
            old(self).wf(),
            num_pages >= 1,
            run_free(old(self)@.bits, idx as int, num_pages as int),
        ensures
            final(self).wf(),
            final(self)@ == hand_out(old(self)@, idx, num_pages),
    {
        proof {
            lemma_hand_out(self@, idx, num_pages);
        }
        self.carve_block(idx, num_pages);
        self.mark_allocated(idx, num_pages);
        self.record(idx, num_pages, num_pages >= THRESHOLD_PAGES);
    }

    /// Hands out `num_pages` pages at an address that is a multiple of
    /// `align_pow2`.
    ///
    /// A request of at least `THRESHOLD_PAGES` pages takes the first pages
    /// of the smallest free block that holds them and starts at such an
    /// address, the lowest of those of that size. A smaller request takes
    /// the first run of free pages in the bitmap that starts at such an
    /// address. Fails with `InvalidParam` on a request that is not valid,
    /// and with `NoMemory` where there is no such block or run; a failed
    /// call changes nothing.
    pub fn alloc_pages(&mut self, num_pages: usize, align_pow2: usize) -> (res: Result<
        usize,
        AllocError,
    >)
        requires
            old(self).wf(),
        ensures
            final(self).wf(),
            final(self)@ == after_alloc(old(self)@, num_pages, align_pow2),
            res == alloc_result(old(self)@, num_pages, align_pow2),
            res is Err ==> final(self)@ == old(self)@,
            res is Ok ==> {
                let a = res->Ok_0;
                &&& a % align_pow2 == 0
                &&& a % PAGE_SIZE == 0
                &&& old(self)@.base <= a
                &&& a + num_pages * PAGE_SIZE <= old(self)@.base + old(self)@.total_pages * PAGE_SIZE
            },
    {
        if num_pages == 0 {
            return Err(AllocError::InvalidParam);
        }
        if align_pow2 < PAGE_SIZE || !align_pow2.is_power_of_two() {
            return Err(AllocError::InvalidParam);
        }
        proof {
            lemma_alloc(self@, num_pages, align_pow2);
        }
        let found = if num_pages >= THRESHOLD_PAGES {
            match self.find_free_block(num_pages, align_pow2) {
                Some((block_idx, _)) => {
                    proof {
                        lemma_best_fit(self@, num_pages, align_pow2, block_idx);
                        lemma_block_free(self@, block_idx, num_pages);
                    }
                    Some(block_idx)
                },
                None => None,
            }
        } else {
            let run = self.find_free_in_bitmap(num_pages, align_pow2);
            proof {
                lemma_first_run(self@, num_pages as int, align_pow2, 0);
            }
            run
        };
        match found {
            Some(block_idx) => {
                proof {
                    assert(block_idx * PAGE_SIZE <= self@.total_pages * PAGE_SIZE)
                        by (nonlinear_arith)
                        requires
                            block_idx <= self@.total_pages,
                    ;
                }
                self.take_extent(block_idx, num_pages);
                Ok(self.base + block_idx * PAGE_SIZE)
            },
            None => Err(AllocError::NoMemory),
        }
    }

    /// Hands out `num_pages` pages at `start`.
    ///
    /// Fails with `InvalidParam` on a request that is not valid or a
    /// `start` that lies outside the region or is no multiple of
    /// `align_pow2`, and with `NoMemory` where one of the pages is not free
    /// or lies past the end of the region; a failed call changes nothing.
    pub fn alloc_pages_at(&mut self, start: usize, num_pages: usize, align_pow2: usize) -> (res:
        Result<usize, AllocError>)
        requires
            old(self).wf(),
        ensures
            final(self).wf(),
            final(self)@ == after_alloc_at(old(self)@, start, num_pages, align_pow2),
            res == alloc_at_result(old(self)@, start, num_pages, align_pow2),
            res is Err ==> final(self)@ == old(self)@,
            res is Ok ==> start + num_pages * PAGE_SIZE <= old(self)@.base + old(self)@.total_pages
                * PAGE_SIZE,
    {
        if num_pages == 0 {
            return Err(AllocError::InvalidParam);
        }
        if align_pow2 < PAGE_SIZE || !align_pow2.is_power_of_two() {
            return Err(AllocError::InvalidParam);
        }
        if start < self.base || start >= self.base + self.total_pages * PAGE_SIZE {
            return Err(AllocError::InvalidParam);
        }
        if !memory_addr::is_aligned(start, align_pow2) {
            return Err(AllocError::InvalidParam);
        }
        proof {
            lemma_alloc_at(self@, start, num_pages, align_pow2);
        }
        let idx = (start - self.base) / PAGE_SIZE;
        if num_pages <= self.total_pages && idx <= self.total_pages - num_pages
            && self.run_is_free(idx, num_pages) {
            self.take_extent(idx, num_pages);
            return Ok(start);
        }
        Err(AllocError::NoMemory)
    }

    /// Returns the live extent that starts at `pos`: its pages are free
    /// again, and join the free blocks beside them. The size is the one
    /// recorded when the extent was handed out; the second argument is not
    /// read. Where `pos` is not the start of a live extent the call changes
    /// nothing.
    pub fn dealloc_pages(&mut self, pos: usize, _num_pages: usize)
        requires
            old(self).wf(),
        ensures
            final(self).wf(),
            final(self)@ == after_dealloc(old(self)@, pos),
    {
        if pos < self.base || pos >= self.base + self.total_pages * PAGE_SIZE {
            return ;
        }
        proof {
            vstd::arithmetic::power2::lemma2_to64();
            assert(PAGE_SIZE as int == vstd::arithmetic::power2::pow2(12));
        }
        if !memory_addr::is_aligned(pos, PAGE_SIZE) {
            return ;
        }
        let idx = (pos - self.base) / PAGE_SIZE;
        let alloc_info = match self.alloc_map.get(&idx) {
            Some(info) => *info,
            None => {
                return ;
            },
        };
        let (size, _) = alloc_info;
        proof {
            lemma_dealloc(self@, pos);
        }
        self.try_merge(idx, size);
        self.mark_free(idx, size);
        self.alloc_map.remove(&idx);
        self.used_pages = if self.used_pages >= size { self.used_pages - size } else { 0 };
    }
}

impl crate::allocators::PageAllocator for HybridAllocator {
    open spec fn valid(&self) -> bool {
        self.wf()
    }

    open spec fn region(&self) -> (nat, nat) {
        (self@.base, self@.total_pages)
    }

    fn name(&self) -> (r: &'static str) {
        HybridAllocator::name(self)
    }

    fn init(&mut self, start_vaddr: usize, size: usize) -> (res: Result<(), AllocError>) {
        HybridAllocator::init(self, start_vaddr, size)
    }

    fn alloc_pages(&mut self, num_pages: usize, align_pow2: usize) -> (res: Result<
        usize,
        AllocError,
    >) {
        HybridAllocator::alloc_pages(self, num_pages, align_pow2)
    }

    fn alloc_pages_at(&mut self, start: usize, num_pages: usize, align_pow2: usize) -> (res:
        Result<usize, AllocError>) {
        proof {
            if valid_request(num_pages, align_pow2) && self@.base <= start && start % align_pow2
                == 0 {
                lemma_aligned_start(self@.base, start, align_pow2);
            }
        }
        HybridAllocator::alloc_pages_at(self, start, num_pages, align_pow2)
    }

    fn dealloc_pages(&mut self, pos: usize, num_pages: usize) {
        HybridAllocator::dealloc_pages(self, pos, num_pages)
    }

    open spec fn strategy(&self) -> Seq<char> {
        "hybrid"@
    }

    open spec fn released(v: HybridView, pos: usize) -> HybridView {
        after_dealloc(v, pos)
    }

    open spec fn set_up(v: HybridView, start: usize, size: usize) -> Option<HybridView> {
        if region_ok(start, size) {
            Some(fresh_hybrid(round_up_page(start as int) as nat, region_pages(start, size)))
        } else {
            None
        }
    }

    open spec fn alloc_result(v: HybridView, num_pages: usize, align: usize) -> Result<usize, AllocError> {
        alloc_result(v, num_pages, align)
    }

    open spec fn after_alloc(v: HybridView, num_pages: usize, align: usize) -> HybridView {
        after_alloc(v, num_pages, align)
    }

    open spec fn alloc_at_result(v: HybridView, start: usize, num_pages: usize, align: usize) -> Result<
        usize,
        AllocError,
    > {
        alloc_at_result(v, start, num_pages, align)
    }

    open spec fn after_alloc_at(v: HybridView, start: usize, num_pages: usize, align: usize) -> HybridView {
        after_alloc_at(v, start, num_pages, align)
    }
}

} // verus!
