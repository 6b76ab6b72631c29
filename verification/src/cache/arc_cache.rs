//! Adaptive replacement cache from string keys to byte vectors.
//!
//! `t1` holds the resident keys seen once and `t2` those seen again; `b1`
//! and `b2` remember the keys that each of them evicted. A hit in a ghost
//! list moves the partition `p` between recency and frequency.

use vstd::prelude::*;
use vstd::hash_map::StringHashMap;
use std::collections::VecDeque;
use crate::seqs::{first_pos, without, lemma_first_pos, lemma_first_pos_at};
use crate::cache::arc_model::{Key, ArcView, arc_inv, promote, push_ghost, replace, adapt_up, adapt_down, put_ghost_b1, put_ghost_b2, put_new, after_put, after_get, get_result, after_invalidate, empty_cache, resident, lemma_empty_cache, lemma_put, lemma_get, lemma_invalidate};

verus! {

/// A cached value. `dirty` is reserved: the cache writes through and never
/// sets it.
#[derive(Clone, Debug)]
pub struct CacheEntry<V> {
    /// The cached value.
    pub value: V,
    /// Whether the value is newer than the backing store.
    pub dirty: bool,
}

/// A snapshot of the cache's sizes and counters.
#[derive(Clone, Debug)]
pub struct ARCStats {
    /// Resident keys seen once.
    pub t1_size: usize,
    /// Resident keys seen more than once.
    pub t2_size: usize,
    /// Keys remembered after eviction from `t1`.
    pub b1_size: usize,
    /// Keys remembered after eviction from `t2`.
    pub b2_size: usize,
    /// The adaptive partition.
    pub p: usize,
    /// The capacity the cache was made with.
    pub capacity: usize,
    /// Lookups that found a value.
    pub hits: usize,
    /// Lookups that found none.
    pub misses: usize,
}

/// The cache.
pub struct ARCache {
    t1: VecDeque<String>,
    t2: VecDeque<String>,
    b1: VecDeque<String>,
    b2: VecDeque<String>,
    cache: StringHashMap<CacheEntry<Vec<u8>>>,
    p: usize,
    capacity: usize,
    hits: usize,
    misses: usize,
}

/// The cache that file contents are kept in.
pub type UCache = ARCache;

/// The keys of a list as mathematical values.
pub open spec fn keys(list: Seq<String>) -> Seq<Key> {
    Seq::new(list.len(), |i: int| list[i]@)
}

/// The stored values as mathematical values.
pub open spec fn values(store: Map<Key, CacheEntry<Vec<u8>>>) -> Map<Key, Seq<u8>> {
    Map::new(|k: Key| store.contains_key(k), |k: Key| store[k].value@)
}

/// The position of the first `key` in `list`, if there is one.
fn find(list: &VecDeque<String>, key: &String) -> (r: Option<usize>)
    ensures
        r is Some <==> keys(list@).contains(key@),
        r is Some ==> r->Some_0 == first_pos(keys(list@), key@) && r->Some_0 < list@.len(),
{
    let n = list.len();
    let mut i: usize = 0;
    proof {
        lemma_first_pos(keys(list@), key@);
    }
    while i < n
        invariant
            n == list@.len(),
            i <= n,
            forall|j: int| 0 <= j < i ==> #[trigger] keys(list@)[j] != key@,
        decreases n - i,
    {
        if list[i] == *key {
            proof {
                lemma_first_pos_at(keys(list@), key@, i as int);
            }
            return Some(i);
        }
        i = i + 1;
    }
    proof {
        lemma_first_pos(keys(list@), key@);
        if keys(list@).contains(key@) {
            let f = first_pos(keys(list@), key@);
            assert(keys(list@)[f] == key@);
        }
    }
    None
}

/// Takes the first `key` out of `list`, if there is one.
fn take_key(list: &mut VecDeque<String>, key: &String) -> (found: bool)
    ensures
        found == keys(old(list)@).contains(key@),
        keys(final(list)@) == without(keys(old(list)@), key@),
{
    match find(list, key) {
        Some(pos) => {
            let _ = list.remove(pos);
            assert(keys(list@) =~= keys(old(list)@).remove(pos as int));
            true
        },
        None => false,
    }
}

/// Takes the least recently used key off `list`, if there is one.
fn pop_lru(list: &mut VecDeque<String>) -> (r: Option<String>)
    ensures
        old(list)@.len() == 0 ==> r is None && final(list)@ == old(list)@,
        old(list)@.len() > 0 ==> r is Some && r->Some_0@ == keys(old(list)@)[0] && keys(
            final(list)@,
        ) == keys(old(list)@).remove(0),
{
    let r = list.pop_front();
    proof {
        if old(list)@.len() > 0 {
            assert(keys(list@) =~= keys(old(list)@).remove(0));
        }
    }
    r
}

/// Makes `key` the most recently used key of `list`.
fn push_mru(list: &mut VecDeque<String>, key: String)
    ensures
        keys(final(list)@) == keys(old(list)@).push(key@),
{
    list.push_back(key);
    assert(keys(list@) =~= keys(old(list)@).push(key@));
}

/// Makes `key` the most recently used key of a ghost list that holds at
/// most `capacity` keys.
fn push_bounded(list: &mut VecDeque<String>, key: String, capacity: usize)
    ensures
        keys(final(list)@) == push_ghost(keys(old(list)@), key@, capacity as nat),
{
    push_mru(list, key);
    if list.len() > capacity {
        let _ = pop_lru(list);
    }
}

impl View for ARCache {
    type V = ArcView;

    closed spec fn view(&self) -> ArcView {
        ArcView {
            t1: keys(self.t1@),
            t2: keys(self.t2@),
            b1: keys(self.b1@),
            b2: keys(self.b2@),
            store: values(self.cache@),
            p: self.p as nat,
            capacity: self.capacity as nat,
            hits: self.hits as nat,
            misses: self.misses as nat,
        }
    }
}

impl ARCache {
    /// The cache's state is valid.
    pub open spec fn wf(&self) -> bool {
        arc_inv(self@)
    }

    /// An empty cache for `capacity` entries.
    pub fn new(capacity: usize) -> (r: Self)
        ensures
            r.wf(),
            r@ == empty_cache(capacity as nat),
    {
        let r = ARCache {
            t1: VecDeque::new(),
            t2: VecDeque::new(),
            b1: VecDeque::new(),
            b2: VecDeque::new(),
            cache: StringHashMap::new(),
            p: 0,
            capacity,
            hits: 0,
            misses: 0,
        };
        proof {
            lemma_empty_cache(capacity as nat);
            assert(r@.t1 =~= Seq::<Key>::empty());
            assert(r@.t2 =~= Seq::<Key>::empty());
            assert(r@.b1 =~= Seq::<Key>::empty());
            assert(r@.b2 =~= Seq::<Key>::empty());
            assert(r@.store =~= Map::<Key, Seq<u8>>::empty());
        }
        r
    }

    /// The value of `key`, if it has one. A hit makes the key the most
    /// recently used of `t2`; each call counts as a hit or as a miss.
    pub fn get(&mut self, key: &String) -> (r: Option<Vec<u8>>)
        requires
            old(self).wf(),
        ensures
            final(self).wf(),
            final(self)@ == after_get(old(self)@, key@),
            r is Some <==> get_result(old(self)@, key@) is Some,
            r is Some ==> r->Some_0@ == get_result(old(self)@, key@)->Some_0,
    {
        proof {
            lemma_get(self@, key@);
        }
        if self.cache.contains_key(key.as_str()) {
            self.hits = if self.hits == usize::MAX { 0 } else { self.hits + 1 };
            self.promote_to_t2(key);
            match self.cache.get(key.as_str()) {
                Some(entry) => {
                    let out = copy_bytes(&entry.value);
                    Some(out)
                },
                None => None,
            }
        } else {
            self.misses = if self.misses == usize::MAX { 0 } else { self.misses + 1 };
            None
        }
    }

    /// Stores `value` under `key`.
    ///
    /// A resident key gets the new value and becomes the most recently used
    /// of `t2`, which counts as a hit. A key in a ghost list moves the partition, has REPLACE make
    /// room, and enters `t2`. A key in no list enters `t1`, after the lists
    /// were trimmed as their sizes require.
    pub fn put(&mut self, key: String, value: Vec<u8>)
        requires
            old(self).wf(),
        ensures
            final(self).wf(),
            final(self)@ == after_put(old(self)@, key@, value@),
    {
        proof {
            lemma_put(self@, key@, value@);
        }
        if self.cache.contains_key(key.as_str()) {
            self.hits = if self.hits == usize::MAX { 0 } else { self.hits + 1 };
            self.cache.insert(key.clone(), CacheEntry { value, dirty: false });
            assert(self@.store =~= old(self)@.store.insert(key@, value@));
            self.promote_to_t2(&key);
            return ;
        }
        if self.in_b1(&key) {
            self.handle_b1_hit(&key, value);
            return ;
        }
        if self.in_b2(&key) {
            self.handle_b2_hit(&key, value);
            return ;
        }
        self.insert_new(key, value);
    }

    fn in_b1(&self, key: &String) -> (r: bool)
        ensures
            r == self@.b1.contains(key@),
    {
        find(&self.b1, key).is_some()
    }

    fn in_b2(&self, key: &String) -> (r: bool)
        ensures
            r == self@.b2.contains(key@),
    {
        find(&self.b2, key).is_some()
    }

    /// A hit in `b1`: the partition grows in favour of recency.
    fn handle_b1_hit(&mut self, key: &String, value: Vec<u8>)
        requires
            old(self)@.b1.contains(key@),
            old(self)@.p <= old(self)@.capacity,
        ensures
            final(self)@ == put_ghost_b1(old(self)@, key@, value@),
    {
        let b1_len = self.b1.len();
        let b2_len = self.b2.len();
        let delta = if b1_len >= b2_len { 1 } else { b2_len / b1_len };
        self.p = if delta >= self.capacity - self.p { self.capacity } else { self.p + delta };
        self.replace(key);
        let _ = take_key(&mut self.b1, key);
        self.cache.insert(key.clone(), CacheEntry { value, dirty: false });
        push_mru(&mut self.t2, key.clone());
        proof {
            let w = replace(ArcView { p: adapt_up(old(self)@), ..old(self)@ }, key@);
            assert(self@.store =~= w.store.insert(key@, value@));
        }
    }

    /// A hit in `b2`: the partition shrinks in favour of frequency.
    fn handle_b2_hit(&mut self, key: &String, value: Vec<u8>)
        requires
            old(self)@.b2.contains(key@),
            old(self)@.p <= old(self)@.capacity,
        ensures
            final(self)@ == put_ghost_b2(old(self)@, key@, value@),
    {
        let b1_len = self.b1.len();
        let b2_len = self.b2.len();
        let delta = if b2_len >= b1_len { 1 } else { b1_len / b2_len };
        self.p = if self.p >= delta { self.p - delta } else { 0 };
        self.replace(key);
        let _ = take_key(&mut self.b2, key);
        self.cache.insert(key.clone(), CacheEntry { value, dirty: false });
        push_mru(&mut self.t2, key.clone());
        proof {
            let w = replace(ArcView { p: adapt_down(old(self)@), ..old(self)@ }, key@);
            assert(self@.store =~= w.store.insert(key@, value@));
        }
    }

    /// A key that is in no list enters `t1`.
    fn insert_new(&mut self, key: String, value: Vec<u8>)
        ensures
            final(self)@ == put_new(old(self)@, key@, value@),
    {
        let t1_len = self.t1.len() as u128;
        let t2_len = self.t2.len() as u128;
        let b1_len = self.b1.len() as u128;
        let b2_len = self.b2.len() as u128;
        let capacity = self.capacity as u128;
        if t1_len + b1_len == capacity {
            if t1_len < capacity {
                let _ = pop_lru(&mut self.b1);
                self.replace(&key);
            } else {
                match pop_lru(&mut self.t1) {
                    Some(old_key) => {
                        self.cache.remove(old_key.as_str());
                        assert(self@.store =~= old(self)@.store.remove(old(self)@.t1[0]));
                    },
                    None => {},
                }
            }
        } else {
            let total = t1_len + t2_len + b1_len + b2_len;
            if total >= 2 * capacity {
                if total == 2 * capacity {
                    let _ = pop_lru(&mut self.b2);
                }
                self.replace(&key);
            }
        }
        let ghost w = self@;
        self.cache.insert(key.clone(), CacheEntry { value, dirty: false });
        push_mru(&mut self.t1, key);
        assert(self@.store =~= w.store.insert(key@, value@));
    }

    /// REPLACE: evicts the least recently used key of `t1` or of `t2`, as
    /// the partition says, into the ghost list beside it.
    fn replace(&mut self, key: &String)
        ensures
            final(self)@ == replace(old(self)@, key@),
    {
        let t1_len = self.t1.len();
        let should_evict_from_t1 = if t1_len > 0 {
            t1_len > self.p || (self.in_b2(key) && t1_len == self.p)
        } else {
            false
        };
        if should_evict_from_t1 {
            match pop_lru(&mut self.t1) {
                Some(old_key) => {
                    self.cache.remove(old_key.as_str());
                    push_bounded(&mut self.b1, old_key, self.capacity);
                    assert(self@.store =~= old(self)@.store.remove(old(self)@.t1[0]));
                },
                None => {},
            }
        } else {
            match pop_lru(&mut self.t2) {
                Some(old_key) => {
                    self.cache.remove(old_key.as_str());
                    push_bounded(&mut self.b2, old_key, self.capacity);
                    assert(self@.store =~= old(self)@.store.remove(old(self)@.t2[0]));
                },
                None => {},
            }
        }
    }

    /// Moves a resident key to the most recently used end of `t2`.
    fn promote_to_t2(&mut self, key: &String)
        ensures
            final(self)@ == promote(old(self)@, key@),
    {
        let was_in_t1 = take_key(&mut self.t1, key);
        if was_in_t1 {
            push_mru(&mut self.t2, key.clone());
        } else {
            let was_in_t2 = take_key(&mut self.t2, key);
            if was_in_t2 {
                push_mru(&mut self.t2, key.clone());
            }
        }
    }

    /// Forgets `key`: it leaves every list and loses its value.
    pub fn invalidate(&mut self, key: &String)
        requires
            old(self).wf(),
        ensures
            final(self).wf(),
            final(self)@ == after_invalidate(old(self)@, key@),
    {
        proof {
            lemma_invalidate(self@, key@);
        }
        self.cache.remove(key.as_str());
        let _ = take_key(&mut self.t1, key);
        let _ = take_key(&mut self.t2, key);
        let _ = take_key(&mut self.b1, key);
        let _ = take_key(&mut self.b2, key);
        assert(self@.store =~= old(self)@.store.remove(key@));
    }

    /// The sizes of the four lists, the partition, the capacity and the
    /// counters.
    pub fn stats(&self) -> (r: ARCStats)
        ensures
            r.t1_size == self@.t1.len(),
            r.t2_size == self@.t2.len(),
            r.b1_size == self@.b1.len(),
            r.b2_size == self@.b2.len(),
            r.p == self@.p,
            r.capacity == self@.capacity,
            r.hits == self@.hits,
            r.misses == self@.misses,
    {
        ARCStats {
            t1_size: self.t1.len(),
            t2_size: self.t2.len(),
            b1_size: self.b1.len(),
            b2_size: self.b2.len(),
            p: self.p,
            capacity: self.capacity,
            hits: self.hits,
            misses: self.misses,
        }
    }
}

/// A copy of `bytes`.
pub fn copy_bytes(bytes: &Vec<u8>) -> (r: Vec<u8>)
    ensures
        r@ == bytes@,
{
    let mut out: Vec<u8> = Vec::new();
    let n = bytes.len();
    let mut i: usize = 0;
    while i < n
        invariant
            n == bytes@.len(),
            i <= n,
            out@ == bytes@.take(i as int),
        decreases n - i,
    {
        out.push(bytes[i]);
        i = i + 1;
        assert(out@ =~= bytes@.take(i as int));
    }
    assert(out@ =~= bytes@);
    out
}

} // verus!
