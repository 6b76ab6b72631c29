use std::collections::{BTreeMap, VecDeque};
use unfound::allocators::buddy::BuddyAllocator;
use unfound::cache::arc_cache::ARCache;

/// A small generator of pseudo-random numbers.
struct Lcg(u64);

impl Lcg {
    fn next(&mut self, bound: u64) -> u64 {
        self.0 = self.0.wrapping_mul(6364136223846793005).wrapping_add(1442695040888963407);
        (self.0 >> 33) % bound
    }
}

/// The cache written out in the plainest way: four queues and a map.
struct PlainArc {
    t1: VecDeque<String>,
    t2: VecDeque<String>,
    b1: VecDeque<String>,
    b2: VecDeque<String>,
    store: BTreeMap<String, Vec<u8>>,
    p: usize,
    c: usize,
    hits: usize,
    misses: usize,
}

impl PlainArc {
    fn new(c: usize) -> Self {
        PlainArc {
            t1: VecDeque::new(),
            t2: VecDeque::new(),
            b1: VecDeque::new(),
            b2: VecDeque::new(),
            store: BTreeMap::new(),
            p: 0,
            c,
            hits: 0,
            misses: 0,
        }
    }

    fn promote(&mut self, key: &str) {
        if let Some(pos) = self.t1.iter().position(|k| k == key) {
            self.t1.remove(pos);
            self.t2.push_back(key.to_string());
        } else if let Some(pos) = self.t2.iter().position(|k| k == key) {
            self.t2.remove(pos);
            self.t2.push_back(key.to_string());
        }
    }

    fn replace(&mut self, key: &str) {
        let n = self.t1.len();
        let from_t1 = n > 0 && (n > self.p || (self.b2.iter().any(|k| k == key) && n == self.p));
        if from_t1 {
            let old = self.t1.pop_front().unwrap();
            self.store.remove(&old);
            self.b1.push_back(old);
            if self.b1.len() > self.c {
                self.b1.pop_front();
            }
        } else if let Some(old) = self.t2.pop_front() {
            self.store.remove(&old);
            self.b2.push_back(old);
            if self.b2.len() > self.c {
                self.b2.pop_front();
            }
        }
    }

    fn get(&mut self, key: &str) -> Option<Vec<u8>> {
        if self.store.contains_key(key) {
            self.hits += 1;
            self.promote(key);
            self.store.get(key).cloned()
        } else {
            self.misses += 1;
            None
        }
    }

    fn put(&mut self, key: &str, value: Vec<u8>) {
        if self.store.contains_key(key) {
            self.hits += 1;
            self.store.insert(key.to_string(), value);
            self.promote(key);
        } else if self.b1.iter().any(|k| k == key) {
            let delta = std::cmp::max(1, self.b2.len() / self.b1.len());
            self.p = std::cmp::min(self.c, self.p + delta);
            self.replace(key);
            self.b1.retain(|k| k != key);
            self.store.insert(key.to_string(), value);
            self.t2.push_back(key.to_string());
        } else if self.b2.iter().any(|k| k == key) {
            let delta = std::cmp::max(1, self.b1.len() / self.b2.len());
            self.p = self.p.saturating_sub(delta);
            self.replace(key);
            self.b2.retain(|k| k != key);
            self.store.insert(key.to_string(), value);
            self.t2.push_back(key.to_string());
        } else {
            if self.t1.len() + self.b1.len() == self.c {
                if self.t1.len() < self.c {
                    self.b1.pop_front();
                    self.replace(key);
                } else if let Some(old) = self.t1.pop_front() {
                    self.store.remove(&old);
                }
            } else {
                let total = self.t1.len() + self.t2.len() + self.b1.len() + self.b2.len();
                if total >= 2 * self.c {
                    if total == 2 * self.c {
                        self.b2.pop_front();
                    }
                    self.replace(key);
                }
            }
            self.store.insert(key.to_string(), value);
            self.t1.push_back(key.to_string());
        }
    }

    fn invalidate(&mut self, key: &str) {
        self.store.remove(key);
        self.t1.retain(|k| k != key);
        self.t2.retain(|k| k != key);
        self.b1.retain(|k| k != key);
        self.b2.retain(|k| k != key);
    }
}

fn same_state(cache: &ARCache, plain: &PlainArc) {
    let s = cache.stats();
    assert_eq!(
        (s.t1_size, s.t2_size, s.b1_size, s.b2_size, s.p, s.hits, s.misses),
        (
            plain.t1.len(),
            plain.t2.len(),
            plain.b1.len(),
            plain.b2.len(),
            plain.p,
            plain.hits,
            plain.misses
        )
    );
}

#[test]
fn cache_agrees_with_plain_model() {
    for capacity in [1usize, 2, 3, 5, 8] {
        let mut rng = Lcg(capacity as u64 * 7919);
        let mut cache = ARCache::new(capacity);
        let mut plain = PlainArc::new(capacity);
        for step in 0..3000u64 {
            let key = format!("k{}", rng.next(3 * capacity as u64 + 2));
            match rng.next(10) {
                0..=4 => {
                    let value = vec![(step % 251) as u8, capacity as u8];
                    cache.put(key.clone(), value.clone());
                    plain.put(&key, value);
                }
                5..=8 => {
                    assert_eq!(cache.get(&key), plain.get(&key));
                }
                _ => {
                    cache.invalidate(&key);
                    plain.invalidate(&key);
                }
            }
            same_state(&cache, &plain);
        }
        for i in 0..(3 * capacity + 2) {
            let key = format!("k{}", i);
            assert_eq!(cache.get(&key), plain.get(&key));
        }
    }
}

/// The buddy allocator written out in the plainest way, for requests at
/// page alignment.
struct PlainBuddy {
    base: usize,
    total: usize,
    max_order: usize,
    free: Vec<Vec<usize>>,
    live: BTreeMap<usize, usize>,
}

impl PlainBuddy {
    fn new(base: usize, total: usize) -> Self {
        let mut max_order = 0;
        while (1usize << (max_order + 1)) <= total {
            max_order += 1;
        }
        let mut free = vec![Vec::new(); max_order + 1];
        let mut remaining = total;
        let mut offset = 0;
        while remaining > 0 {
            let order = (usize::BITS - 1 - remaining.leading_zeros()) as usize;
            free[order].push(offset);
            offset += 1 << order;
            remaining -= 1 << order;
        }
        PlainBuddy { base, total, max_order, free, live: BTreeMap::new() }
    }

    fn take(&mut self, n: usize) -> Option<usize> {
        let order = n.next_power_of_two().trailing_zeros() as usize;
        let mut o = order;
        while o <= self.max_order {
            if let Some(idx) = self.free[o].pop() {
                let mut cur = o;
                while cur > order {
                    cur -= 1;
                    self.free[cur].push(idx + (1 << cur));
                }
                self.live.insert(idx, order);
                return Some(self.base + idx * 4096);
            }
            o += 1;
        }
        None
    }

    fn give_back(&mut self, pos: usize) {
        if pos < self.base || pos >= self.base + self.total * 4096 || pos % 4096 != 0 {
            return;
        }
        let mut idx = (pos - self.base) / 4096;
        let order = match self.live.remove(&idx) {
            Some(o) => o,
            None => return,
        };
        let mut cur = order;
        while cur < self.max_order {
            let buddy = idx ^ (1 << cur);
            match self.free[cur].iter().position(|&x| x == buddy) {
                Some(at) => {
                    self.free[cur].swap_remove(at);
                    idx = idx.min(buddy);
                    cur += 1;
                }
                None => break,
            }
        }
        self.free[cur].push(idx);
    }
}

#[test]
fn buddy_agrees_with_plain_model() {
    for pages in [1usize, 7, 32, 100, 257] {
        let base = 0x8000_0000;
        let mut rng = Lcg(pages as u64 * 104729);
        let mut buddy = BuddyAllocator::new();
        assert_eq!(buddy.init(base, pages * 4096), Ok(()));
        let mut plain = PlainBuddy::new(base, pages);
        assert_eq!(buddy.max_order(), plain.max_order);
        let mut live: Vec<usize> = Vec::new();
        for _ in 0..2000 {
            if rng.next(3) != 0 || live.is_empty() {
                let n = 1 + rng.next(9) as usize;
                let got = buddy.alloc_pages(n, 4096).ok();
                assert_eq!(got, plain.take(n));
                if let Some(addr) = got {
                    assert!(addr >= base && addr + n * 4096 <= base + pages * 4096);
                    live.push(addr);
                }
            } else {
                let at = rng.next(live.len() as u64) as usize;
                let addr = live.swap_remove(at);
                buddy.dealloc_pages(addr, 1);
                plain.give_back(addr);
            }
            for k in 0..=plain.max_order {
                assert_eq!(buddy.free_list(k), plain.free[k]);
            }
            let used: usize = plain.live.values().map(|&o| 1usize << o).sum();
            assert_eq!(buddy.used_pages(), used);
        }
        for addr in live {
            buddy.dealloc_pages(addr, 1);
            plain.give_back(addr);
        }
        assert_eq!(buddy.used_pages(), 0);
        for k in 0..=plain.max_order {
            assert_eq!(buddy.free_list(k), plain.free[k]);
        }
    }
}
