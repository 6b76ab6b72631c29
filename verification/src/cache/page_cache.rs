//! A cache of file pages that evicts the least recently used page.
//!
//! The pages are kept by `lru::LruCache`; this module counts hits and
//! misses and fills the cache on a miss.

use vstd::prelude::*;
use crate::vfs::VfsError;

verus! {

/// The size of a cached page in bytes.
pub const PAGE_SIZE: usize = 4096;

/// One page of a file.
#[derive(Clone)]
pub struct CachePage {
    /// The file the page belongs to.
    pub file_id: usize,
    /// The offset of the page in the file.
    pub offset: usize,
    /// The content of the page.
    pub data: [u8; 4096],
    /// Whether the page is newer than the backing store.
    pub dirty: bool,
}

impl CachePage {
    /// A clean page of zero bytes for `file_id` at `offset`.
    pub fn new(file_id: usize, offset: usize) -> (r: Self)
        ensures
            r == blank_page(file_id, offset),
    {
        let r = CachePage { file_id, offset, data: [0u8; 4096], dirty: false };
        assert(r.data@ =~= Seq::new(4096, |i: int| 0u8));
        r
    }

    /// The index of the page that holds the byte at `offset`.
    pub fn page_index(offset: usize) -> (r: usize)
        ensures
            r == offset / PAGE_SIZE,
    {
        offset / PAGE_SIZE
    }

    /// A copy of this page.
    pub fn copy(&self) -> (r: Self)
        ensures
            r == *self,
    {
        CachePage { file_id: self.file_id, offset: self.offset, data: self.data, dirty: self.dirty }
    }
}

/// The clean page of zero bytes for `file_id` at `offset`.
pub open spec fn blank_page(file_id: usize, offset: usize) -> CachePage {
    CachePage {
        file_id,
        offset,
        data: vstd::array::spec_array_fill_for_copy_type::<u8, 4096>(0u8),
        dirty: false,
    }
}

/// `lru::LruCache`: a map that holds at most a fixed number of entries and
/// drops the least recently used one to make room. Its inside is not read
/// here; what is said of it is said through `lru_entries` and
/// `lru_capacity`.
#[verifier::external_type_specification]
#[verifier::external_body]
#[verifier::reject_recursive_types(K)]
#[verifier::reject_recursive_types(V)]
#[verifier::reject_recursive_types(S)]
pub struct ExLruCache<K, V, S>(lru::LruCache<K, V, S>);

/// The hasher that `lru::LruCache` uses unless told otherwise.
#[verifier::external_type_specification]
#[verifier::external_body]
pub struct ExDefaultHasher(lru::DefaultHasher);

/// The key of a page: the file and the index of the page in it.
pub type PageKey = (usize, usize);

/// The entries of the outside cache, the most recently used first.
pub uninterp spec fn lru_entries(c: lru::LruCache<(usize, usize), CachePage>) -> Seq<
    ((usize, usize), CachePage),
>;

/// The number of entries the outside cache holds at most.
pub uninterp spec fn lru_capacity(c: lru::LruCache<(usize, usize), CachePage>) -> nat;

/// The position of the entry for `key` among `entries`, or their number
/// where there is none.
pub open spec fn entry_pos(entries: Seq<((usize, usize), CachePage)>, key: (usize, usize)) -> int
    decreases entries.len(),
{
    if entries.len() == 0 {
        0
    } else if entries[0].0 == key {
        0
    } else {
        1 + entry_pos(entries.drop_first(), key)
    }
}

/// The entries after `key` was looked up: its entry, if there is one, is
/// the most recently used.
pub open spec fn touched(entries: Seq<((usize, usize), CachePage)>, key: (usize, usize)) -> Seq<
    ((usize, usize), CachePage),
> {
    let at = entry_pos(entries, key);
    if at < entries.len() {
        seq![entries[at]] + entries.remove(at)
    } else {
        entries
    }
}

/// The entries after `page` was stored under `key`: the new entry is the
/// most recently used one. It takes the place of the entry for `key` if
/// there is one; if not and the cache is full, the least recently used
/// entry is dropped.
pub open spec fn stored(
    entries: Seq<((usize, usize), CachePage)>,
    capacity: nat,
    key: (usize, usize),
    page: CachePage,
) -> Seq<((usize, usize), CachePage)> {
    let at = entry_pos(entries, key);
    if at < entries.len() {
        seq![(key, page)] + entries.remove(at)
    } else if entries.len() >= capacity {
        seq![(key, page)] + entries.drop_last()
    } else {
        seq![(key, page)] + entries
    }
}

/// `LruCache::new` makes an empty cache for `capacity` entries. The
/// capacity is handed over as a `NonZeroUsize`, so zero is left out.
#[verifier::external_body]
fn lru_new(capacity: usize) -> (r: lru::LruCache<(usize, usize), CachePage>)
    requires
        capacity >= 1,
    ensures
        lru_entries(r) == Seq::<((usize, usize), CachePage)>::empty(),
        lru_capacity(r) == capacity,
{
    lru::LruCache::new(core::num::NonZeroUsize::new(capacity).unwrap())
}

/// `LruCache::get` returns the value stored under the key, if there is
/// one, and makes its entry the most recently used.
#[verifier::external_body]
fn lru_get(c: &mut lru::LruCache<(usize, usize), CachePage>, key: (usize, usize)) -> (r: Option<
    CachePage,
>)
    ensures
        lru_capacity(*final(c)) == lru_capacity(*old(c)),
        lru_entries(*final(c)) == touched(lru_entries(*old(c)), key),
        r == (if entry_pos(lru_entries(*old(c)), key) < lru_entries(*old(c)).len() {
            Some(lru_entries(*old(c))[entry_pos(lru_entries(*old(c)), key)].1)
        } else {
            None
        }),
{
    c.get(&key).map(|page| page.copy())
}

/// `LruCache::put` stores the value under the key as the most recently used
/// entry. An entry for the key is replaced; without one, a full cache drops
/// its least recently used entry first.
#[verifier::external_body]
fn lru_put(c: &mut lru::LruCache<(usize, usize), CachePage>, key: (usize, usize), page: CachePage)
    ensures
        lru_capacity(*final(c)) == lru_capacity(*old(c)),
        lru_entries(*final(c)) == stored(lru_entries(*old(c)), lru_capacity(*old(c)), key, page),
{
    c.put(key, page);
}

/// The page cache.
pub struct PageCache {
    cache: lru::LruCache<(usize, usize), CachePage>,
    hits: usize,
    misses: usize,
}

/// What a page cache holds, as plain mathematical values.
pub struct PageCacheView {
    /// The cached pages by key, the most recently used first.
    pub entries: Seq<((usize, usize), CachePage)>,
    /// The number of pages the cache holds at most.
    pub capacity: nat,
    /// Lookups that found a page.
    pub hits: nat,
    /// Lookups that found none.
    pub misses: nat,
}

/// A counter after one more event; it starts again from zero after the
/// greatest value a machine word holds.
pub open spec fn count_up(x: nat) -> nat {
    if x >= usize::MAX {
        0
    } else {
        x + 1
    }
}

/// The key of the page that holds the byte at `offset` of `file_id`.
pub open spec fn key_of(file_id: usize, offset: usize) -> (usize, usize) {
    (file_id, offset / PAGE_SIZE)
}

/// The page that a miss loads for a key: a blank page at the start of the
/// key's page.
pub open spec fn loaded_page(key: (usize, usize)) -> CachePage {
    blank_page(key.0, (key.1 * PAGE_SIZE) as usize)
}

/// What `get_page(file_id, offset)` returns: the cached page of the key,
/// or the page that the miss loads.
pub open spec fn page_for(v: PageCacheView, file_id: usize, offset: usize) -> CachePage {
    let key = key_of(file_id, offset);
    let at = entry_pos(v.entries, key);
    if at < v.entries.len() {
        v.entries[at].1
    } else {
        loaded_page(key)
    }
}

/// The state after `get_page(file_id, offset)`: a hit makes the page the
/// most recently used; a miss stores the loaded page.
pub open spec fn after_get_page(v: PageCacheView, file_id: usize, offset: usize) -> PageCacheView {
    let key = key_of(file_id, offset);
    if entry_pos(v.entries, key) < v.entries.len() {
        PageCacheView { entries: touched(v.entries, key), hits: count_up(v.hits), ..v }
    } else {
        PageCacheView {
            entries: stored(v.entries, v.capacity, key, loaded_page(key)),
            misses: count_up(v.misses),
            ..v
        }
    }
}

impl View for PageCache {
    type V = PageCacheView;

    closed spec fn view(&self) -> PageCacheView {
        PageCacheView {
            entries: lru_entries(self.cache),
            capacity: lru_capacity(self.cache),
            hits: self.hits as nat,
            misses: self.misses as nat,
        }
    }
}

impl PageCache {
    /// An empty cache for `capacity` pages, which is at least one.
    pub fn new(capacity: usize) -> (r: Self)
        requires
            capacity >= 1,
        ensures
            r@ == (PageCacheView {
                entries: Seq::empty(),
                capacity: capacity as nat,
                hits: 0,
                misses: 0,
            }),
    {
        PageCache { cache: lru_new(capacity), hits: 0, misses: 0 }
    }

    /// An empty cache for `capacity` pages; none for a capacity of zero.
    pub fn with_capacity(capacity: usize) -> (r: Option<Self>)
        ensures
            r is Some <==> capacity >= 1,
            r is Some ==> r->Some_0@ == (PageCacheView {
                entries: Seq::empty(),
                capacity: capacity as nat,
                hits: 0,
                misses: 0,
            }),
    {
        if capacity >= 1 {
            Some(Self::new(capacity))
        } else {
            None
        }
    }

    /// The page that holds the byte at `offset` of `file_id`: the cached
    /// one, or a blank page that is cached now. Counts a hit or a miss.
    pub fn get_page(&mut self, file_id: usize, offset: usize) -> (r: Result<CachePage, VfsError>)
        ensures
            r == Ok::<CachePage, VfsError>(page_for(old(self)@, file_id, offset)),
            final(self)@ == after_get_page(old(self)@, file_id, offset),
    {
        let page_index = CachePage::page_index(offset);
        let key = (file_id, page_index);
        match lru_get(&mut self.cache, key) {
            Some(page) => {
                self.hits = if self.hits == usize::MAX { 0 } else { self.hits + 1 };
                Ok(page)
            },
            None => {
                self.misses = if self.misses == usize::MAX { 0 } else { self.misses + 1 };
                let page = self.load_page(file_id, page_index);
                lru_put(&mut self.cache, key, page.copy());
                Ok(page)
            },
        }
    }

    /// Stores `page` under the key of its file and offset.
    pub fn put_page(&mut self, page: CachePage)
        ensures
            final(self)@ == (PageCacheView {
                entries: stored(
                    old(self)@.entries,
                    old(self)@.capacity,
                    key_of(page.file_id, page.offset),
                    page,
                ),
                ..old(self)@
            }),
    {
        let key = (page.file_id, CachePage::page_index(page.offset));
        lru_put(&mut self.cache, key, page);
    }

    /// The page that a miss loads: a blank one, since no file is read.
    fn load_page(&self, file_id: usize, page_index: usize) -> (r: CachePage)
        requires
            page_index * PAGE_SIZE <= usize::MAX,
        ensures
            r == loaded_page((file_id, page_index)),
    {
        CachePage::new(file_id, page_index * PAGE_SIZE)
    }

    /// Lookups that found a page and lookups that found none.
    pub fn counters(&self) -> (r: (usize, usize))
        ensures
            r.0 == self@.hits,
            r.1 == self@.misses,
    {
        (self.hits, self.misses)
    }
}

/// The part of a read that one cached page serves: where in the page the
/// byte at `offset` stands, and how many of the `remaining` bytes the page
/// holds from there on.
pub open spec fn chunk_of(offset: usize, remaining: usize) -> (usize, usize) {
    let page_offset = (offset % PAGE_SIZE) as usize;
    let available = (PAGE_SIZE - page_offset) as usize;
    (
        page_offset,
        if remaining <= available {
            remaining
        } else {
            available
        },
    )
}

/// The part of a read of `remaining` bytes at `offset` that the page
/// holding `offset` serves, as the place in the page and the number of
/// bytes. The number is at least one where bytes remain, and the part ends
/// inside the page.
pub fn page_chunk(offset: usize, remaining: usize) -> (r: (usize, usize))
    ensures
        r == chunk_of(offset, remaining),
        r.0 + r.1 <= PAGE_SIZE,
        r.1 <= remaining,
        remaining > 0 ==> r.1 >= 1,
{
    let page_offset = offset % PAGE_SIZE;
    let available = PAGE_SIZE - page_offset;
    let to_copy = if remaining <= available { remaining } else { available };
    (page_offset, to_copy)
}

/// Copies `count` bytes of `page` from `page_offset` on into `buf` from
/// `at` on; the rest of `buf` stays as it is.
pub fn copy_from_page(page: &CachePage, page_offset: usize, buf: &mut [u8], at: usize, count: usize)
    requires
        page_offset + count <= PAGE_SIZE,
        at + count <= old(buf)@.len(),
    ensures
        final(buf)@.len() == old(buf)@.len(),
        forall|i: int|
            0 <= i < final(buf)@.len() ==> #[trigger] final(buf)@[i] == (if at <= i < at + count {
                page.data@[page_offset + i - at]
            } else {
                old(buf)@[i]
            }),
{
    let len = buf.len();
    let mut k: usize = 0;
    while k < count
        invariant
            k <= count,
            page_offset + count <= PAGE_SIZE,
            at + count <= len,
            len == buf@.len(),
            buf@.len() == old(buf)@.len(),
            forall|i: int|
                0 <= i < buf@.len() ==> #[trigger] buf@[i] == (if at <= i < at + k {
                    page.data@[page_offset + i - at]
                } else {
                    old(buf)@[i]
                }),
        decreases count - k,
    {
        buf[at + k] = page.data[page_offset + k];
        k = k + 1;
    }
}

} // verus!
