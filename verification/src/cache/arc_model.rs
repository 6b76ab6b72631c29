//! The mathematical model of the adaptive replacement cache: four ordered
//! lists of keys, a value store, the adaptive partition, and the state after
//! each operation.

use vstd::prelude::*;
use crate::seqs::{first_pos, without, lemma_first_pos, lemma_remove_no_dup, lemma_push_no_dup, lemma_push_contains, lemma_without};

verus! {

/// A cache key as a mathematical value.
pub type Key = Seq<char>;

/// What a cache holds, as plain mathematical values. Each list runs from
/// the least recently used key to the most recently used one.
pub struct ArcView {
    /// Resident keys seen once.
    pub t1: Seq<Key>,
    /// Resident keys seen more than once.
    pub t2: Seq<Key>,
    /// Keys evicted from `t1`.
    pub b1: Seq<Key>,
    /// Keys evicted from `t2`.
    pub b2: Seq<Key>,
    /// The value of each resident key.
    pub store: Map<Key, Seq<u8>>,
    /// The adaptive partition: the target size of `t1`.
    pub p: nat,
    /// The capacity the cache was made with.
    pub capacity: nat,
    /// Lookups that found a value.
    pub hits: nat,
    /// Lookups that found none.
    pub misses: nat,
}

/// `key` has a value.
pub open spec fn resident(v: ArcView, key: Key) -> bool {
    v.t1.contains(key) || v.t2.contains(key)
}

/// The number of lists that hold `key`.
pub open spec fn occurrences(v: ArcView, key: Key) -> nat {
    (if v.t1.contains(key) { 1nat } else { 0 }) + (if v.t2.contains(key) { 1nat } else { 0 }) + (if v.b1.contains(key) { 1nat } else { 0 }) + (if v.b2.contains(key) { 1nat } else { 0 })
}

/// The validity of a cache state.
///
/// The partition is at most the capacity and each ghost list holds at most
/// `capacity` keys. No list holds a key twice and no key is in two lists.
/// A key has a value exactly when it is resident. With a capacity of at
/// least one, `t1` and `b1` together hold at most `capacity` keys and the
/// resident lists together at most twice that.
pub open spec fn arc_inv(v: ArcView) -> bool {
    &&& v.p <= v.capacity
    &&& v.b1.len() <= v.capacity
    &&& v.b2.len() <= v.capacity
    &&& v.capacity > 0 ==> v.t1.len() + v.b1.len() <= v.capacity
    &&& v.capacity > 0 ==> v.t1.len() + v.t2.len() <= 2 * v.capacity
    &&& v.t1.no_duplicates()
    &&& v.t2.no_duplicates()
    &&& v.b1.no_duplicates()
    &&& v.b2.no_duplicates()
    &&& forall|k: Key| #[trigger] occurrences(v, k) <= 1
    &&& forall|k: Key| #[trigger] v.store.contains_key(k) <==> resident(v, k)
}

/// A counter after one more event; it starts again from zero after the
/// greatest value a machine word holds.
pub open spec fn bump(x: nat) -> nat {
    if x >= usize::MAX {
        0
    } else {
        x + 1
    }
}

/// The state after a hit on `key`: the key is the most recently used of `t2`.
pub open spec fn promote(v: ArcView, key: Key) -> ArcView {
    if v.t1.contains(key) {
        ArcView { t1: v.t1.remove(first_pos(v.t1, key)), t2: v.t2.push(key), ..v }
    } else if v.t2.contains(key) {
        ArcView { t2: v.t2.remove(first_pos(v.t2, key)).push(key), ..v }
    } else {
        v
    }
}

/// A ghost list after `key` became its most recently used entry: where it
/// would hold more than `capacity` keys, its least recently used one is
/// dropped.
pub open spec fn push_ghost(list: Seq<Key>, key: Key, capacity: nat) -> Seq<Key> {
    let grown = list.push(key);
    if grown.len() > capacity {
        grown.remove(0)
    } else {
        grown
    }
}

/// REPLACE evicts from `t1`: `t1` is not empty and is over the partition,
/// or at it while `key` is in `b2`.
pub open spec fn evicts_t1(v: ArcView, key: Key) -> bool {
    v.t1.len() > 0 && (v.t1.len() > v.p || (v.b2.contains(key) && v.t1.len() == v.p))
}

/// The state after REPLACE for `key`: the least recently used key of `t1`
/// or of `t2` loses its value and becomes the most recently used key of the
/// ghost list beside it.
pub open spec fn replace(v: ArcView, key: Key) -> ArcView {
    if evicts_t1(v, key) {
        ArcView {
            t1: v.t1.remove(0),
            store: v.store.remove(v.t1[0]),
            b1: push_ghost(v.b1, v.t1[0], v.capacity),
            ..v
        }
    } else if v.t2.len() > 0 {
        ArcView {
            t2: v.t2.remove(0),
            store: v.store.remove(v.t2[0]),
            b2: push_ghost(v.b2, v.t2[0], v.capacity),
            ..v
        }
    } else {
        v
    }
}

/// The partition after a hit in `b1`: raised by `max(1, |b2| / |b1|)`, at
/// most to the capacity.
pub open spec fn adapt_up(v: ArcView) -> nat {
    let delta = if v.b1.len() >= v.b2.len() { 1 } else { v.b2.len() / v.b1.len() };
    if v.p + delta >= v.capacity {
        v.capacity
    } else {
        v.p + delta
    }
}

/// The partition after a hit in `b2`: lowered by `max(1, |b1| / |b2|)`, at
/// least to zero.
pub open spec fn adapt_down(v: ArcView) -> nat {
    let delta = if v.b2.len() >= v.b1.len() { 1 } else { v.b1.len() / v.b2.len() };
    if v.p >= delta {
        (v.p - delta) as nat
    } else {
        0
    }
}

/// The state after a `put` of a key that is in `b1`.
pub open spec fn put_ghost_b1(v: ArcView, key: Key, value: Seq<u8>) -> ArcView {
    let w = replace(ArcView { p: adapt_up(v), ..v }, key);
    ArcView { b1: without(w.b1, key), t2: w.t2.push(key), store: w.store.insert(key, value), ..w }
}

/// The state after a `put` of a key that is in `b2`.
pub open spec fn put_ghost_b2(v: ArcView, key: Key, value: Seq<u8>) -> ArcView {
    let w = replace(ArcView { p: adapt_down(v), ..v }, key);
    ArcView { b2: without(w.b2, key), t2: w.t2.push(key), store: w.store.insert(key, value), ..w }
}

/// The state in which a key that is in no list can enter `t1`.
pub open spec fn make_room(v: ArcView, key: Key) -> ArcView {
    if v.t1.len() + v.b1.len() == v.capacity {
        if v.t1.len() < v.capacity {
            replace(ArcView { b1: v.b1.remove(0), ..v }, key)
        } else if v.t1.len() > 0 {
            ArcView { t1: v.t1.remove(0), store: v.store.remove(v.t1[0]), ..v }
        } else {
            v
        }
    } else {
        let total = v.t1.len() + v.t2.len() + v.b1.len() + v.b2.len();
        if total >= 2 * v.capacity {
            if total == 2 * v.capacity && v.b2.len() > 0 {
                replace(ArcView { b2: v.b2.remove(0), ..v }, key)
            } else {
                replace(v, key)
            }
        } else {
            v
        }
    }
}

/// The state after a `put` of a key that is in no list.
pub open spec fn put_new(v: ArcView, key: Key, value: Seq<u8>) -> ArcView {
    let w = make_room(v, key);
    ArcView { t1: w.t1.push(key), store: w.store.insert(key, value), ..w }
}

/// The state after `put(key, value)`. A `put` on a resident key is a hit
/// and counts as one; any other `put` leaves the counters as they are.
pub open spec fn after_put(v: ArcView, key: Key, value: Seq<u8>) -> ArcView {
    if v.store.contains_key(key) {
        promote(ArcView { store: v.store.insert(key, value), hits: bump(v.hits), ..v }, key)
    } else if v.b1.contains(key) {
        put_ghost_b1(v, key, value)
    } else if v.b2.contains(key) {
        put_ghost_b2(v, key, value)
    } else {
        put_new(v, key, value)
    }
}

/// The state after `get(key)`.
pub open spec fn after_get(v: ArcView, key: Key) -> ArcView {
    if v.store.contains_key(key) {
        promote(ArcView { hits: bump(v.hits), ..v }, key)
    } else {
        ArcView { misses: bump(v.misses), ..v }
    }
}

/// What `get(key)` returns.
pub open spec fn get_result(v: ArcView, key: Key) -> Option<Seq<u8>> {
    if v.store.contains_key(key) {
        Some(v.store[key])
    } else {
        None
    }
}

/// The state after `invalidate(key)`.
pub open spec fn after_invalidate(v: ArcView, key: Key) -> ArcView {
    ArcView {
        t1: without(v.t1, key),
        t2: without(v.t2, key),
        b1: without(v.b1, key),
        b2: without(v.b2, key),
        store: v.store.remove(key),
        ..v
    }
}

/// The state of a fresh cache.
pub open spec fn empty_cache(capacity: nat) -> ArcView {
    ArcView {
        t1: Seq::empty(),
        t2: Seq::empty(),
        b1: Seq::empty(),
        b2: Seq::empty(),
        store: Map::empty(),
        p: 0,
        capacity,
        hits: 0,
        misses: 0,
    }
}

/// A fresh cache is valid.
pub proof fn lemma_empty_cache(capacity: nat)
    ensures
        arc_inv(empty_cache(capacity)),
{
    let v = empty_cache(capacity);
    assert forall|k: Key| #[trigger] occurrences(v, k) <= 1 by {}
}

/// A hit keeps the cache valid, with the same keys resident and the same
/// number of them.
pub proof fn lemma_promote(v: ArcView, key: Key)
    requires
        arc_inv(v),
    ensures
        arc_inv(promote(v, key)),
        promote(v, key).store == v.store,
        promote(v, key).t1.len() + promote(v, key).t2.len() == v.t1.len() + v.t2.len(),
        resident(v, key) ==> promote(v, key).t2.len() > 0 && promote(v, key).t2.last() == key,
{
    let w = promote(v, key);
    lemma_first_pos(v.t1, key);
    lemma_first_pos(v.t2, key);
    assert(occurrences(v, key) <= 1);
    if v.t1.contains(key) {
        lemma_remove_no_dup(v.t1, first_pos(v.t1, key));
        lemma_push_no_dup(v.t2, key);
        lemma_push_contains(v.t2, key);
        assert forall|k: Key| #[trigger] occurrences(w, k) <= 1 && (w.store.contains_key(k)
            <==> resident(w, k)) by {
            assert(occurrences(v, k) <= 1);
            assert(v.store.contains_key(k) <==> resident(v, k));
        }
    } else if v.t2.contains(key) {
        let r = v.t2.remove(first_pos(v.t2, key));
        lemma_remove_no_dup(v.t2, first_pos(v.t2, key));
        lemma_push_no_dup(r, key);
        lemma_push_contains(r, key);
        assert forall|k: Key| #[trigger] occurrences(w, k) <= 1 && (w.store.contains_key(k)
            <==> resident(w, k)) by {
            assert(occurrences(v, k) <= 1);
            assert(v.store.contains_key(k) <==> resident(v, k));
        }
    }
}

/// What a ghost list holds after a key entered it.
pub proof fn lemma_push_ghost(list: Seq<Key>, key: Key, capacity: nat)
    requires
        list.no_duplicates(),
        !list.contains(key),
        list.len() <= capacity,
    ensures
        push_ghost(list, key, capacity).no_duplicates(),
        push_ghost(list, key, capacity).len() <= capacity,
        push_ghost(list, key, capacity).len() <= list.len() + 1,
        forall|k: Key| #[trigger]
            push_ghost(list, key, capacity).contains(k) ==> (list.contains(k) || k == key),
{
    let grown = list.push(key);
    lemma_push_no_dup(list, key);
    lemma_push_contains(list, key);
    if grown.len() > capacity {
        lemma_remove_no_dup(grown, 0);
    }
}

/// REPLACE keeps the cache valid. It takes one key out of the resident
/// lists, or none where it would take from an empty `t2`; no list gains a
/// key that was not in it or in the resident list beside it.
pub proof fn lemma_replace(v: ArcView, key: Key)
    requires
        arc_inv(v),
    ensures
        arc_inv(replace(v, key)),
        replace(v, key).p == v.p,
        replace(v, key).capacity == v.capacity,
        replace(v, key).hits == v.hits,
        replace(v, key).misses == v.misses,
        replace(v, key).t1.len() + replace(v, key).b1.len() <= v.t1.len() + v.b1.len(),
        replace(v, key).t1.len() <= v.t1.len(),
        (replace(v, key).t1.len() + replace(v, key).t2.len() + 1 == v.t1.len() + v.t2.len()) || (
        replace(v, key) == v && v.t2.len() == 0 && !evicts_t1(v, key)),
        forall|k: Key| #[trigger] replace(v, key).t1.contains(k) ==> v.t1.contains(k),
        forall|k: Key| #[trigger] replace(v, key).t2.contains(k) ==> v.t2.contains(k),
        forall|k: Key| #[trigger]
            replace(v, key).b1.contains(k) ==> v.b1.contains(k) || v.t1.contains(k),
        forall|k: Key| #[trigger]
            replace(v, key).b2.contains(k) ==> v.b2.contains(k) || v.t2.contains(k),
{
    let w = replace(v, key);
    if evicts_t1(v, key) {
        let old = v.t1[0];
        assert(v.t1.contains(old));
        assert(occurrences(v, old) <= 1);
        lemma_remove_no_dup(v.t1, 0);
        lemma_push_ghost(v.b1, old, v.capacity);
        assert forall|k: Key| #[trigger] occurrences(w, k) <= 1 && (w.store.contains_key(k)
            <==> resident(w, k)) by {
            assert(occurrences(v, k) <= 1);
            assert(v.store.contains_key(k) <==> resident(v, k));
        }
    } else if v.t2.len() > 0 {
        let old = v.t2[0];
        assert(v.t2.contains(old));
        assert(occurrences(v, old) <= 1);
        lemma_remove_no_dup(v.t2, 0);
        lemma_push_ghost(v.b2, old, v.capacity);
        assert forall|k: Key| #[trigger] occurrences(w, k) <= 1 && (w.store.contains_key(k)
            <==> resident(w, k)) by {
            assert(occurrences(v, k) <= 1);
            assert(v.store.contains_key(k) <==> resident(v, k));
        }
    }
}

/// Dropping the least recently used key of a ghost list keeps the cache valid.
pub proof fn lemma_drop_ghost(v: ArcView, from_b1: bool)
    requires
        arc_inv(v),
        from_b1 ==> v.b1.len() > 0,
        !from_b1 ==> v.b2.len() > 0,
    ensures
        from_b1 ==> arc_inv(ArcView { b1: v.b1.remove(0), ..v }),
        !from_b1 ==> arc_inv(ArcView { b2: v.b2.remove(0), ..v }),
{
    if from_b1 {
        let w = ArcView { b1: v.b1.remove(0), ..v };
        lemma_remove_no_dup(v.b1, 0);
        assert forall|k: Key| #[trigger] occurrences(w, k) <= 1 && (w.store.contains_key(k)
            <==> resident(w, k)) by {
            assert(occurrences(v, k) <= 1);
            assert(v.store.contains_key(k) <==> resident(v, k));
        }
    } else {
        let w = ArcView { b2: v.b2.remove(0), ..v };
        lemma_remove_no_dup(v.b2, 0);
        assert forall|k: Key| #[trigger] occurrences(w, k) <= 1 && (w.store.contains_key(k)
            <==> resident(w, k)) by {
            assert(occurrences(v, k) <= 1);
            assert(v.store.contains_key(k) <==> resident(v, k));
        }
    }
}

/// Making room for a key that is in no list keeps the cache valid and
/// leaves the key in no list, with room for it in `t1`.
pub proof fn lemma_make_room(v: ArcView, key: Key)
    requires
        arc_inv(v),
        occurrences(v, key) == 0,
    ensures
        arc_inv(make_room(v, key)),
        occurrences(make_room(v, key), key) == 0,
        make_room(v, key).p == v.p,
        make_room(v, key).capacity == v.capacity,
        make_room(v, key).hits == v.hits,
        make_room(v, key).misses == v.misses,
        v.capacity > 0 ==> make_room(v, key).t1.len() + make_room(v, key).b1.len() + 1
            <= v.capacity,
        v.capacity > 0 ==> make_room(v, key).t1.len() + make_room(v, key).t2.len() + 1 <= 2
            * v.capacity,
{
    let w = make_room(v, key);
    if v.t1.len() + v.b1.len() == v.capacity {
        if v.t1.len() < v.capacity {
            let v1 = ArcView { b1: v.b1.remove(0), ..v };
            lemma_drop_ghost(v, true);
            lemma_remove_no_dup(v.b1, 0);
            lemma_replace(v1, key);
        } else if v.t1.len() > 0 {
            let old = v.t1[0];
            assert(v.t1.contains(old));
            assert(occurrences(v, old) <= 1);
            lemma_remove_no_dup(v.t1, 0);
            assert forall|k: Key| #[trigger] occurrences(w, k) <= 1 && (w.store.contains_key(k)
                <==> resident(w, k)) by {
                assert(occurrences(v, k) <= 1);
                assert(v.store.contains_key(k) <==> resident(v, k));
            }
        }
    } else {
        let total = v.t1.len() + v.t2.len() + v.b1.len() + v.b2.len();
        if total >= 2 * v.capacity {
            if total == 2 * v.capacity && v.b2.len() > 0 {
                let v1 = ArcView { b2: v.b2.remove(0), ..v };
                lemma_drop_ghost(v, false);
                lemma_remove_no_dup(v.b2, 0);
                lemma_replace(v1, key);
            } else {
                lemma_replace(v, key);
            }
        }
    }
}

/// `put` keeps the cache valid; the key is resident afterwards with the
/// value that was put. A `put` on a resident key counts one hit; the
/// misses are as before.
pub proof fn lemma_put(v: ArcView, key: Key, value: Seq<u8>)
    requires
        arc_inv(v),
    ensures
        arc_inv(after_put(v, key, value)),
        after_put(v, key, value).store.contains_key(key),
        after_put(v, key, value).store[key] == value,
        after_put(v, key, value).capacity == v.capacity,
        after_put(v, key, value).hits == (if v.store.contains_key(key) {
            bump(v.hits)
        } else {
            v.hits
        }),
        after_put(v, key, value).misses == v.misses,
{
    let w = after_put(v, key, value);
    assert(occurrences(v, key) <= 1);
    assert(v.store.contains_key(key) <==> resident(v, key));
    if v.store.contains_key(key) {
        let v1 = ArcView { store: v.store.insert(key, value), hits: bump(v.hits), ..v };
        assert forall|k: Key| #[trigger] occurrences(v1, k) <= 1 && (v1.store.contains_key(k)
            <==> resident(v1, k)) by {
            assert(occurrences(v, k) <= 1);
            assert(v.store.contains_key(k) <==> resident(v, k));
        }
        lemma_promote(v1, key);
    } else if v.b1.contains(key) {
        let v1 = ArcView { p: adapt_up(v), ..v };
        assert forall|k: Key| #[trigger] occurrences(v1, k) <= 1 && (v1.store.contains_key(k)
            <==> resident(v1, k)) by {
            assert(occurrences(v, k) <= 1);
            assert(v.store.contains_key(k) <==> resident(v, k));
        }
        lemma_replace(v1, key);
        let r = replace(v1, key);
        lemma_without(r.b1, key);
        lemma_push_contains(r.t2, key);
        assert(!r.t2.contains(key));
        lemma_push_no_dup(r.t2, key);
        assert forall|k: Key| #[trigger] occurrences(w, k) <= 1 && (w.store.contains_key(k)
            <==> resident(w, k)) by {
            assert(occurrences(r, k) <= 1);
            assert(r.store.contains_key(k) <==> resident(r, k));
            assert(occurrences(v, k) <= 1);
        }
    } else if v.b2.contains(key) {
        let v1 = ArcView { p: adapt_down(v), ..v };
        assert forall|k: Key| #[trigger] occurrences(v1, k) <= 1 && (v1.store.contains_key(k)
            <==> resident(v1, k)) by {
            assert(occurrences(v, k) <= 1);
            assert(v.store.contains_key(k) <==> resident(v, k));
        }
        lemma_replace(v1, key);
        let r = replace(v1, key);
        lemma_without(r.b2, key);
        lemma_push_contains(r.t2, key);
        assert(!r.t2.contains(key));
        lemma_push_no_dup(r.t2, key);
        assert forall|k: Key| #[trigger] occurrences(w, k) <= 1 && (w.store.contains_key(k)
            <==> resident(w, k)) by {
            assert(occurrences(r, k) <= 1);
            assert(r.store.contains_key(k) <==> resident(r, k));
            assert(occurrences(v, k) <= 1);
        }
    } else {
        lemma_make_room(v, key);
        let r = make_room(v, key);
        lemma_push_contains(r.t1, key);
        lemma_push_no_dup(r.t1, key);
        assert forall|k: Key| #[trigger] occurrences(w, k) <= 1 && (w.store.contains_key(k)
            <==> resident(w, k)) by {
            assert(occurrences(r, k) <= 1);
            assert(r.store.contains_key(k) <==> resident(r, k));
        }
    }
}

/// `get` keeps the cache valid and every value as it is. It counts one hit
/// where the key has a value and one miss where it has none.
pub proof fn lemma_get(v: ArcView, key: Key)
    requires
        arc_inv(v),
    ensures
        arc_inv(after_get(v, key)),
        after_get(v, key).store == v.store,
        after_get(v, key).capacity == v.capacity,
        after_get(v, key).p == v.p,
        get_result(v, key) is Some ==> after_get(v, key).hits == bump(v.hits) && after_get(
            v,
            key,
        ).misses == v.misses,
        get_result(v, key) is None ==> after_get(v, key).misses == bump(v.misses) && after_get(
            v,
            key,
        ).hits == v.hits,
{
    if v.store.contains_key(key) {
        let v1 = ArcView { hits: bump(v.hits), ..v };
        assert forall|k: Key| #[trigger] occurrences(v1, k) <= 1 && (v1.store.contains_key(k)
            <==> resident(v1, k)) by {
            assert(occurrences(v, k) <= 1);
            assert(v.store.contains_key(k) <==> resident(v, k));
        }
        lemma_promote(v1, key);
    } else {
        let w = after_get(v, key);
        assert forall|k: Key| #[trigger] occurrences(w, k) <= 1 && (w.store.contains_key(k)
            <==> resident(w, k)) by {
            assert(occurrences(v, k) <= 1);
            assert(v.store.contains_key(k) <==> resident(v, k));
        }
    }
}

/// `invalidate` keeps the cache valid and leaves the key in no list and
/// without a value.
pub proof fn lemma_invalidate(v: ArcView, key: Key)
    requires
        arc_inv(v),
    ensures
        arc_inv(after_invalidate(v, key)),
        occurrences(after_invalidate(v, key), key) == 0,
        !after_invalidate(v, key).store.contains_key(key),
        occurrences(v, key) == 0 ==> after_invalidate(v, key) == v,
{
    let w = after_invalidate(v, key);
    lemma_without(v.t1, key);
    lemma_without(v.t2, key);
    lemma_without(v.b1, key);
    lemma_without(v.b2, key);
    assert forall|k: Key| #[trigger] occurrences(w, k) <= 1 && (w.store.contains_key(k)
        <==> resident(w, k)) by {
        assert(occurrences(v, k) <= 1);
        assert(v.store.contains_key(k) <==> resident(v, k));
    }
    if occurrences(v, key) == 0 {
        assert(v.store.contains_key(key) <==> resident(v, key));
        assert(w.store =~= v.store);
    }
}

/// A value that was put is the value the next lookup of its key returns.
pub proof fn lemma_put_get_round_trip(v: ArcView, key: Key, value: Seq<u8>)
    requires
        arc_inv(v),
    ensures
        get_result(after_put(v, key, value), key) == Some(value),
{
    lemma_put(v, key, value);
}

/// A lookup changes no value: what a key's lookup returns, it returns again
/// as long as no `put` or `invalidate` comes between.
pub proof fn lemma_get_keeps_values(v: ArcView, looked_up: Key, key: Key)
    requires
        arc_inv(v),
    ensures
        get_result(after_get(v, looked_up), key) == get_result(v, key),
{
    lemma_get(v, looked_up);
}

/// After a key was put and then invalidated, its lookup finds nothing.
pub proof fn lemma_put_invalidate_get(v: ArcView, key: Key, value: Seq<u8>)
    requires
        arc_inv(v),
    ensures
        get_result(after_invalidate(after_put(v, key, value), key), key) == None::<Seq<u8>>,
{
    lemma_put(v, key, value);
    lemma_invalidate(after_put(v, key, value), key);
}

} // verus!
