use unfound::cache::arc_cache::{copy_bytes, ARCache, UCache};

fn k(s: &str) -> String {
    s.to_string()
}

fn v(s: &str) -> Vec<u8> {
    s.as_bytes().to_vec()
}

fn check_invariants(c: &ARCache) {
    let s = c.stats();
    assert!(s.p <= s.capacity);
    assert!(s.b1_size <= s.capacity);
    assert!(s.b2_size <= s.capacity);
    if s.capacity > 0 {
        assert!(s.t1_size + s.b1_size <= s.capacity);
        assert!(s.t1_size + s.t2_size <= 2 * s.capacity);
    }
}

#[test]
fn new_cache_is_empty() {
    let c = ARCache::new(4);
    let s = c.stats();
    assert_eq!(
        (s.t1_size, s.t2_size, s.b1_size, s.b2_size, s.p, s.capacity, s.hits, s.misses),
        (0, 0, 0, 0, 0, 4, 0, 0)
    );
}

#[test]
fn put_then_get_returns_value() {
    let mut c: UCache = ARCache::new(4);
    c.put(k("/f"), v("hello"));
    assert_eq!(c.get(&k("/f")), Some(v("hello")));
    assert_eq!(c.get(&k("/g")), None);
    let s = c.stats();
    assert_eq!((s.hits, s.misses), (1, 1));
    c.put(k("/f"), v("bye"));
    assert_eq!(c.get(&k("/f")), Some(v("bye")));
}

#[test]
fn put_invalidate_get_is_none() {
    let mut c = ARCache::new(4);
    c.put(k("/f"), v("hello"));
    c.invalidate(&k("/f"));
    assert_eq!(c.get(&k("/f")), None);
    let s = c.stats();
    assert_eq!((s.t1_size, s.t2_size), (0, 0));
    c.invalidate(&k("/absent"));
    assert_eq!(c.stats().t1_size, 0);
}

#[test]
fn get_promotes_from_t1_to_t2() {
    let mut c = ARCache::new(4);
    c.put(k("A"), v("a"));
    c.put(k("B"), v("b"));
    assert_eq!(c.stats().t1_size, 2);
    assert_eq!(c.get(&k("A")), Some(v("a")));
    let s = c.stats();
    assert_eq!((s.t1_size, s.t2_size), (1, 1));
    assert_eq!(c.get(&k("A")), Some(v("a")));
    let s = c.stats();
    assert_eq!((s.t1_size, s.t2_size, s.hits), (1, 1, 2));
}

#[test]
fn arc_sequence_follows_the_case_analysis() {
    let mut c = ARCache::new(4);
    for name in ["A", "B", "C", "D"] {
        c.put(k(name), v(name));
    }
    assert_eq!(c.get(&k("A")), Some(v("A")));
    assert_eq!(c.get(&k("B")), Some(v("B")));
    // t1 and b1 hold two keys and the four lists four: E and F enter t1
    // without an eviction
    c.put(k("E"), v("E"));
    c.put(k("F"), v("F"));
    let s = c.stats();
    assert_eq!((s.t1_size, s.t2_size, s.b1_size, s.b2_size, s.p), (4, 2, 0, 0, 0));
    // A is resident: the ninth step gives it a new value and makes it the
    // newest key of t2
    c.put(k("A"), v("A2"));
    let s = c.stats();
    assert_eq!((s.t1_size, s.t2_size, s.b1_size, s.b2_size, s.p), (4, 2, 0, 0, 0));
    // the two lookups and the put on a resident key are three hits
    assert_eq!((s.hits, s.misses), (3, 0));
    assert!(s.hits >= 3 && s.capacity == 4);
    // t1 is full: G takes the place of C, whose key is not remembered
    c.put(k("G"), v("G"));
    let s = c.stats();
    assert_eq!((s.t1_size, s.t2_size, s.b1_size, s.b2_size, s.p), (4, 2, 0, 0, 0));
    c.put(k("C"), v("C2"));
    let s = c.stats();
    assert_eq!((s.t1_size, s.t2_size, s.b1_size, s.b2_size, s.p), (4, 2, 0, 0, 0));
    assert_eq!(c.get(&k("D")), None);
    assert_eq!(c.get(&k("C")), Some(v("C2")));
    assert_eq!(c.get(&k("A")), Some(v("A2")));
    assert_eq!(c.stats().hits, 5);
    check_invariants(&c);
}

#[test]
fn resident_keys_can_outnumber_the_capacity() {
    let mut c = ARCache::new(4);
    for name in ["A", "B", "C", "D"] {
        c.put(k(name), v(name));
    }
    assert_eq!(c.get(&k("A")), Some(v("A")));
    c.put(k("E"), v("E"));
    let s = c.stats();
    assert_eq!((s.t1_size, s.t2_size), (4, 1));
    for name in ["A", "B", "C", "D", "E"] {
        assert!(c.get(&k(name)).is_some());
    }
    check_invariants(&c);
}

#[test]
fn full_t1_drops_its_oldest_key() {
    let mut c = ARCache::new(2);
    c.put(k("A"), v("a"));
    c.put(k("B"), v("b"));
    c.put(k("C"), v("c"));
    let s = c.stats();
    assert_eq!((s.t1_size, s.t2_size, s.b1_size, s.b2_size), (2, 0, 0, 0));
    assert_eq!(c.get(&k("A")), None);
    assert_eq!(c.get(&k("B")), Some(v("b")));
    assert_eq!(c.get(&k("C")), Some(v("c")));
}

#[test]
fn ghost_hit_in_b1_raises_partition() {
    let mut c = ARCache::new(2);
    for name in ["A", "B", "C"] {
        c.put(k(name), v(name));
        assert_eq!(c.get(&k(name)), Some(v(name)));
    }
    // three keys in t2
    c.put(k("D"), v("D"));
    let s = c.stats();
    assert_eq!((s.t1_size, s.t2_size, s.b1_size, s.b2_size), (1, 3, 0, 0));
    // the lists hold 2 * capacity keys: REPLACE evicts D from t1 into b1
    c.put(k("E"), v("E"));
    let s = c.stats();
    assert_eq!((s.t1_size, s.t2_size, s.b1_size, s.b2_size, s.p), (1, 3, 1, 0, 0));
    assert_eq!(c.stats().misses, 0);
    // D is in b1: the partition goes up by one and D enters t2 as its newest key
    c.put(k("D"), v("D2"));
    let s = c.stats();
    assert_eq!(s.p, 1);
    assert_eq!((s.t1_size, s.t2_size, s.b1_size, s.b2_size), (1, 3, 0, 1));
    assert_eq!(c.get(&k("D")), Some(v("D2")));
    // A was the oldest key of t2 and went to b2
    assert_eq!(c.get(&k("A")), None);
    check_invariants(&c);
}

#[test]
fn ghost_hit_in_b2_lowers_partition() {
    let mut c = ARCache::new(2);
    for name in ["A", "B", "C"] {
        c.put(k(name), v(name));
        assert_eq!(c.get(&k(name)), Some(v(name)));
    }
    c.put(k("D"), v("D"));
    c.put(k("E"), v("E"));
    c.put(k("D"), v("D2"));
    assert_eq!(c.stats().p, 1);
    // A is in b2
    c.put(k("A"), v("A2"));
    let s = c.stats();
    assert_eq!(s.p, 0);
    assert_eq!(c.get(&k("A")), Some(v("A2")));
    check_invariants(&c);
}

#[test]
fn sizes_stay_bounded_under_churn() {
    let mut c = ARCache::new(3);
    for round in 0..200usize {
        let name = format!("k{}", (round * 7 + round / 3) % 11);
        if round % 3 == 0 {
            let _ = c.get(&name);
        } else {
            c.put(name.clone(), v(&name));
            assert_eq!(c.get(&name), Some(v(&name)));
        }
        if round % 17 == 0 {
            c.invalidate(&name);
            assert_eq!(c.get(&name), None);
        }
        check_invariants(&c);
    }
    let s = c.stats();
    assert!(s.hits > 0 && s.misses > 0);
}

#[test]
fn workers_in_turn_keep_counters_consistent() {
    let mut c = ARCache::new(16);
    let mut counted = 0usize;
    for worker in 0..8usize {
        for i in 0..1000usize {
            let name = format!("w{}-{}", worker, i % 40);
            // a put counts a hit exactly when the key is resident
            let before = c.stats();
            c.put(name.clone(), v(&name));
            let after = c.stats();
            assert_eq!(after.misses, before.misses);
            assert!(after.hits == before.hits || after.hits == before.hits + 1);
            counted += after.hits - before.hits;
            // a lookup counts one hit or one miss
            assert!(c.get(&name).is_some());
            let looked = c.stats();
            assert_eq!((looked.hits, looked.misses), (after.hits + 1, after.misses));
            counted += 1;
        }
    }
    let s = c.stats();
    assert_eq!(s.hits + s.misses, counted);
    check_invariants(&c);
}

#[test]
fn zero_capacity_cache_keeps_ghost_lists_empty() {
    let mut c = ARCache::new(0);
    c.put(k("A"), v("a"));
    c.put(k("B"), v("b"));
    // B took the place of A in t1, and the ghost list kept nothing
    let s = c.stats();
    assert_eq!((s.t1_size, s.t2_size, s.b1_size, s.b2_size, s.p), (1, 0, 0, 0, 0));
    assert_eq!(c.get(&k("A")), None);
    assert_eq!(c.get(&k("B")), Some(v("b")));
    check_invariants(&c);
}

#[test]
fn copy_bytes_copies() {
    assert_eq!(copy_bytes(&vec![1, 2, 3]), vec![1, 2, 3]);
    assert_eq!(copy_bytes(&Vec::new()), Vec::<u8>::new());
}
