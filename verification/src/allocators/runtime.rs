//! The allocator that is chosen when the system starts.

use vstd::prelude::*;
use crate::allocators::{AllocError, PageAllocator};
use crate::allocators::buddy::BuddyAllocator;
use crate::allocators::bitmap::BitmapAllocator;
use crate::allocators::hybrid::HybridAllocator;
use crate::text::chars_of;

verus! {

/// An allocator of one of the three strategies.
pub enum AnyAllocator {
    /// Power-of-two blocks that split and merge.
    Buddy(BuddyAllocator),
    /// One bit per page.
    Bitmap(BitmapAllocator),
    /// Free blocks for large extents, a bitmap for small ones.
    Hybrid(HybridAllocator),
}

/// Whether two strings hold the same characters.
pub fn same_text(a: &str, b: &str) -> (r: bool)
    ensures
        r == (a@ == b@),
{
    let x = chars_of(a);
    let y = chars_of(b);
    if x.len() != y.len() {
        return false;
    }
    let n = x.len();
    let mut i: usize = 0;
    while i < n
        invariant
            n == x@.len(),
            n == y@.len(),
            x@ == a@,
            y@ == b@,
            i <= n,
            forall|j: int| 0 <= j < i ==> x@[j] == y@[j],
        decreases n - i,
    {
        if x[i] != y[i] {
            return false;
        }
        i = i + 1;
    }
    assert(x@ =~= y@);
    true
}

/// The state of a fresh allocator of the strategy called `name`: an empty
/// region with nothing handed out.
pub open spec fn fresh_state(name: Seq<char>) -> AnyView {
    if name == "buddy"@ {
        AnyView::Buddy(
            crate::allocators::buddy_model::BuddyView {
                base: 0,
                total_pages: 0,
                max_order: 0,
                free: seq![Seq::<usize>::empty()],
                allocated: Map::empty(),
                used_pages: 0,
            },
        )
    } else if name == "bitmap"@ {
        AnyView::Bitmap(
            crate::allocators::bitmap::BitmapView {
                base: 0,
                total_pages: 0,
                free: Set::empty(),
                allocated: Map::empty(),
                used_pages: 0,
            },
        )
    } else {
        AnyView::Hybrid(
            crate::allocators::hybrid_model::HybridView {
                base: 0,
                total_pages: 0,
                bits: Seq::empty(),
                free_list: Map::empty(),
                allocated: Map::empty(),
                used_pages: 0,
            },
        )
    }
}

/// A fresh allocator of the strategy called `name`: `buddy`, `bitmap` or
/// `hybrid`. Any other name is an error.
pub fn make_by_name(name: &str) -> (r: Result<AnyAllocator, &'static str>)
    ensures
        name@ == "buddy"@ ==> r is Ok && r->Ok_0 is Buddy,
        name@ == "bitmap"@ ==> r is Ok && r->Ok_0 is Bitmap,
        name@ == "hybrid"@ ==> r is Ok && r->Ok_0 is Hybrid,
        name@ != "buddy"@ && name@ != "bitmap"@ && name@ != "hybrid"@ ==> r is Err && r->Err_0@
            == "unknown allocator name"@,
        r is Ok ==> r->Ok_0.valid() && r->Ok_0.region() == (0nat, 0nat),
        r is Ok ==> r->Ok_0@ == fresh_state(name@),
{
    proof {
        reveal_strlit("buddy");
        reveal_strlit("bitmap");
        reveal_strlit("hybrid");
        assert("buddy"@.len() == 5 && "bitmap"@.len() == 6 && "hybrid"@.len() == 6);
        assert("bitmap"@[0] == 'b' && "hybrid"@[0] == 'h');
    }
    if same_text(name, "buddy") {
        Ok(AnyAllocator::Buddy(BuddyAllocator::new()))
    } else if same_text(name, "bitmap") {
        Ok(AnyAllocator::Bitmap(BitmapAllocator::new()))
    } else if same_text(name, "hybrid") {
        Ok(AnyAllocator::Hybrid(HybridAllocator::new()))
    } else {
        Err("unknown allocator name")
    }
}

impl AnyAllocator {
    /// The pages of the largest free block and the number of free pages,
    /// for the strategy that keeps its free blocks by size.
    pub fn free_space(&self) -> (r: Option<(usize, usize)>)
        requires
            self.valid(),
        ensures
            r is Some <==> self is Buddy,
            self matches AnyAllocator::Buddy(a) ==> r == Some(
                (
                    crate::allocators::buddy::largest_free(a@.free, a@.free.len() as int) as usize,
                    (a@.total_pages - a@.used_pages) as usize,
                ),
            ),
    {
        match self {
            AnyAllocator::Buddy(a) => Some(a.free_space()),
            AnyAllocator::Bitmap(_) => None,
            AnyAllocator::Hybrid(_) => None,
        }
    }
}

impl PageAllocator for AnyAllocator {
    open spec fn valid(&self) -> bool {
        match self {
            AnyAllocator::Buddy(a) => a.valid(),
            AnyAllocator::Bitmap(a) => a.valid(),
            AnyAllocator::Hybrid(a) => a.valid(),
        }
    }

    open spec fn region(&self) -> (nat, nat) {
        match self {
            AnyAllocator::Buddy(a) => a.region(),
            AnyAllocator::Bitmap(a) => a.region(),
            AnyAllocator::Hybrid(a) => a.region(),
        }
    }

    fn name(&self) -> (r: &'static str) {
        match self {
            AnyAllocator::Buddy(a) => a.name(),
            AnyAllocator::Bitmap(a) => a.name(),
            AnyAllocator::Hybrid(a) => a.name(),
        }
    }

    fn init(&mut self, start_vaddr: usize, size: usize) -> (res: Result<(), AllocError>) {
        match self {
            AnyAllocator::Buddy(a) => PageAllocator::init(a, start_vaddr, size),
            AnyAllocator::Bitmap(a) => PageAllocator::init(a, start_vaddr, size),
            AnyAllocator::Hybrid(a) => PageAllocator::init(a, start_vaddr, size),
        }
    }

    fn alloc_pages(&mut self, num_pages: usize, align_pow2: usize) -> (res: Result<
        usize,
        AllocError,
    >) {
        match self {
            AnyAllocator::Buddy(a) => PageAllocator::alloc_pages(a, num_pages, align_pow2),
            AnyAllocator::Bitmap(a) => PageAllocator::alloc_pages(a, num_pages, align_pow2),
            AnyAllocator::Hybrid(a) => PageAllocator::alloc_pages(a, num_pages, align_pow2),
        }
    }

    fn alloc_pages_at(&mut self, start: usize, num_pages: usize, align_pow2: usize) -> (res:
        Result<usize, AllocError>) {
        match self {
            AnyAllocator::Buddy(a) => PageAllocator::alloc_pages_at(a, start, num_pages, align_pow2),
            AnyAllocator::Bitmap(a) => PageAllocator::alloc_pages_at(
                a,
                start,
                num_pages,
                align_pow2,
            ),
            AnyAllocator::Hybrid(a) => PageAllocator::alloc_pages_at(
                a,
                start,
                num_pages,
                align_pow2,
            ),
        }
    }

    fn dealloc_pages(&mut self, pos: usize, num_pages: usize) {
        match self {
            AnyAllocator::Buddy(a) => PageAllocator::dealloc_pages(a, pos, num_pages),
            AnyAllocator::Bitmap(a) => PageAllocator::dealloc_pages(a, pos, num_pages),
            AnyAllocator::Hybrid(a) => PageAllocator::dealloc_pages(a, pos, num_pages),
        }
    }

    open spec fn strategy(&self) -> Seq<char> {
        match self {
            AnyAllocator::Buddy(a) => a.strategy(),
            AnyAllocator::Bitmap(a) => a.strategy(),
            AnyAllocator::Hybrid(a) => a.strategy(),
        }
    }

    open spec fn released(v: AnyView, pos: usize) -> AnyView {
        match v {
            AnyView::Buddy(b) => AnyView::Buddy(BuddyAllocator::released(b, pos)),
            AnyView::Bitmap(b) => AnyView::Bitmap(BitmapAllocator::released(b, pos)),
            AnyView::Hybrid(h) => AnyView::Hybrid(HybridAllocator::released(h, pos)),
        }
    }

    open spec fn set_up(v: AnyView, start: usize, size: usize) -> Option<AnyView> {
        match v {
            AnyView::Buddy(b) => match BuddyAllocator::set_up(b, start, size) {
                Some(w) => Some(AnyView::Buddy(w)),
                None => None,
            },
            AnyView::Bitmap(b) => match BitmapAllocator::set_up(b, start, size) {
                Some(w) => Some(AnyView::Bitmap(w)),
                None => None,
            },
            AnyView::Hybrid(h) => match HybridAllocator::set_up(h, start, size) {
                Some(w) => Some(AnyView::Hybrid(w)),
                None => None,
            },
        }
    }

    open spec fn alloc_result(v: AnyView, num_pages: usize, align: usize) -> Result<usize, AllocError> {
        match v {
            AnyView::Buddy(b) => BuddyAllocator::alloc_result(b, num_pages, align),
            AnyView::Bitmap(b) => BitmapAllocator::alloc_result(b, num_pages, align),
            AnyView::Hybrid(h) => HybridAllocator::alloc_result(h, num_pages, align),
        }
    }

    open spec fn after_alloc(v: AnyView, num_pages: usize, align: usize) -> AnyView {
        match v {
            AnyView::Buddy(b) => AnyView::Buddy(BuddyAllocator::after_alloc(b, num_pages, align)),
            AnyView::Bitmap(b) => AnyView::Bitmap(BitmapAllocator::after_alloc(b, num_pages, align)),
            AnyView::Hybrid(h) => AnyView::Hybrid(HybridAllocator::after_alloc(h, num_pages, align)),
        }
    }

    open spec fn alloc_at_result(v: AnyView, start: usize, num_pages: usize, align: usize) -> Result<
        usize,
        AllocError,
    > {
        match v {
            AnyView::Buddy(b) => BuddyAllocator::alloc_at_result(b, start, num_pages, align),
            AnyView::Bitmap(b) => BitmapAllocator::alloc_at_result(b, start, num_pages, align),
            AnyView::Hybrid(h) => HybridAllocator::alloc_at_result(h, start, num_pages, align),
        }
    }

    open spec fn after_alloc_at(v: AnyView, start: usize, num_pages: usize, align: usize) -> AnyView {
        match v {
            AnyView::Buddy(b) => AnyView::Buddy(
                BuddyAllocator::after_alloc_at(b, start, num_pages, align),
            ),
            AnyView::Bitmap(b) => AnyView::Bitmap(
                BitmapAllocator::after_alloc_at(b, start, num_pages, align),
            ),
            AnyView::Hybrid(h) => AnyView::Hybrid(
                HybridAllocator::after_alloc_at(h, start, num_pages, align),
            ),
        }
    }
}

/// The place of the allocator that was chosen at run time; empty until one
/// is set.
pub struct RuntimeSlot {
    slot: Option<AnyAllocator>,
}

impl RuntimeSlot {
    /// The slot holds no allocator, or a valid one.
    pub closed spec fn wf(&self) -> bool {
        match self.slot {
            Some(a) => a.valid(),
            None => true,
        }
    }

    /// Whether the slot holds an allocator.
    pub closed spec fn is_set(&self) -> bool {
        self.slot is Some
    }

    /// The region of the allocator in the slot.
    pub closed spec fn region(&self) -> (nat, nat) {
        match self.slot {
            Some(a) => a.region(),
            None => (0, 0),
        }
    }

    /// An empty slot.
    pub fn new() -> (r: Self)
        ensures
            r.wf(),
            !r.is_set(),
            r@ == None::<AnyView>,
    {
        RuntimeSlot { slot: None }
    }

    /// Puts `a` in the slot, in place of what was there.
    pub fn set_runtime_allocator(&mut self, a: AnyAllocator)
        requires
            a.valid(),
        ensures
            final(self).wf(),
            final(self).is_set(),
            final(self).region() == a.region(),
            final(self)@ == Some(a@),
    {
        self.slot = Some(a);
    }

    /// Empties the slot.
    pub fn clear_runtime_allocator(&mut self)
        ensures
            final(self).wf(),
            !final(self).is_set(),
            final(self)@ == None::<AnyView>,
    {
        self.slot = None;
    }

    /// Allocates from the allocator in the slot; fails with `NoMemory`
    /// where the slot is empty.
    pub fn alloc_pages(&mut self, num_pages: usize, align_pow2: usize) -> (res: Result<
        usize,
        AllocError,
    >)
        requires
            old(self).wf(),
        ensures
            final(self).wf(),
            final(self).is_set() == old(self).is_set(),
            final(self).region() == old(self).region(),
            !old(self).is_set() ==> res == Err::<usize, AllocError>(AllocError::NoMemory),
            res is Ok ==> crate::allocators::extent_in_region(
                old(self).region(),
                res->Ok_0,
                num_pages,
                align_pow2,
            ),
            res == (match old(self)@ {
                Some(v) => AnyAllocator::alloc_result(v, num_pages, align_pow2),
                None => Err(AllocError::NoMemory),
            }),
            final(self)@ == (match old(self)@ {
                Some(v) => Some(AnyAllocator::after_alloc(v, num_pages, align_pow2)),
                None => None,
            }),
    {
        match &mut self.slot {
            Some(a) => a.alloc_pages(num_pages, align_pow2),
            None => Err(AllocError::NoMemory),
        }
    }

    /// Allocates at `start` from the allocator in the slot; fails with
    /// `NoMemory` where the slot is empty.
    pub fn alloc_pages_at(&mut self, start: usize, num_pages: usize, align_pow2: usize) -> (res:
        Result<usize, AllocError>)
        requires
            old(self).wf(),
        ensures
            final(self).wf(),
            final(self).is_set() == old(self).is_set(),
            final(self).region() == old(self).region(),
            !old(self).is_set() ==> res == Err::<usize, AllocError>(AllocError::NoMemory),
            res is Ok ==> res->Ok_0 == start && crate::allocators::extent_in_region(
                old(self).region(),
                start,
                num_pages,
                align_pow2,
            ),
            res == (match old(self)@ {
                Some(v) => AnyAllocator::alloc_at_result(v, start, num_pages, align_pow2),
                None => Err(AllocError::NoMemory),
            }),
            final(self)@ == (match old(self)@ {
                Some(v) => Some(AnyAllocator::after_alloc_at(v, start, num_pages, align_pow2)),
                None => None,
            }),
    {
        match &mut self.slot {
            Some(a) => a.alloc_pages_at(start, num_pages, align_pow2),
            None => Err(AllocError::NoMemory),
        }
    }

    /// Returns the live extent that starts at `pos` to the allocator in the
    /// slot; does nothing where the slot is empty.
    pub fn dealloc_pages(&mut self, pos: usize, num_pages: usize)
        requires
            old(self).wf(),
        ensures
            final(self).wf(),
            final(self).is_set() == old(self).is_set(),
            final(self).region() == old(self).region(),
            final(self)@ == (match old(self)@ {
                Some(v) => Some(AnyAllocator::released(v, pos)),
                None => None,
            }),
    {
        match &mut self.slot {
            Some(a) => a.dealloc_pages(pos, num_pages),
            None => {},
        }
    }
}

/// What an allocator of one of the three strategies holds.
pub enum AnyView {
    /// The state of a buddy allocator.
    Buddy(crate::allocators::buddy_model::BuddyView),
    /// The state of a bitmap allocator.
    Bitmap(crate::allocators::bitmap::BitmapView),
    /// The state of a hybrid allocator.
    Hybrid(crate::allocators::hybrid_model::HybridView),
}

impl View for AnyAllocator {
    type V = AnyView;

    open spec fn view(&self) -> AnyView {
        match self {
            AnyAllocator::Buddy(a) => AnyView::Buddy(a@),
            AnyAllocator::Bitmap(a) => AnyView::Bitmap(a@),
            AnyAllocator::Hybrid(a) => AnyView::Hybrid(a@),
        }
    }
}

impl View for RuntimeSlot {
    type V = Option<AnyView>;

    /// The state of the allocator in the slot, if there is one.
    closed spec fn view(&self) -> Option<AnyView> {
        match self.slot {
            Some(a) => Some(a@),
            None => None,
        }
    }
}

} // verus!
