//! Facts about sequences without repeated entries.

use vstd::prelude::*;

verus! {

/// The position of the first `x` in `s`, or the length of `s` if there is none.
pub open spec fn first_pos<T>(s: Seq<T>, x: T) -> int
    decreases s.len(),
{
    if s.len() == 0 {
        0
    } else if s[0] == x {
        0
    } else {
        1 + first_pos(s.drop_first(), x)
    }
}

/// `s` without its first `x`; `s` itself where it holds none.
pub open spec fn without<T>(s: Seq<T>, x: T) -> Seq<T> {
    if s.contains(x) {
        s.remove(first_pos(s, x))
    } else {
        s
    }
}

/// `first_pos` is the position of the first occurrence.
pub proof fn lemma_first_pos<T>(s: Seq<T>, x: T)
    ensures
        0 <= first_pos(s, x) <= s.len(),
        s.contains(x) <==> first_pos(s, x) < s.len(),
        first_pos(s, x) < s.len() ==> s[first_pos(s, x)] == x,
        forall|j: int| 0 <= j < first_pos(s, x) ==> #[trigger] s[j] != x,
    decreases s.len(),
{
    if s.len() > 0 && s[0] != x {
        let t = s.drop_first();
        lemma_first_pos(t, x);
        assert forall|j: int| 0 <= j < first_pos(s, x) implies #[trigger] s[j] != x by {
            if j > 0 {
                assert(s[j] == t[j - 1]);
            }
        }
        if first_pos(t, x) < t.len() {
            assert(s[first_pos(s, x)] == t[first_pos(t, x)]);
        }
        if s.contains(x) {
            let i = choose|i: int| 0 <= i < s.len() && s[i] == x;
            assert(t[i - 1] == x);
        }
    }
}

/// The first position at which `x` stands is `first_pos`.
pub proof fn lemma_first_pos_at<T>(s: Seq<T>, x: T, i: int)
    requires
        0 <= i < s.len(),
        s[i] == x,
        forall|j: int| 0 <= j < i ==> #[trigger] s[j] != x,
    ensures
        first_pos(s, x) == i,
        s.contains(x),
{
    lemma_first_pos(s, x);
    let f = first_pos(s, x);
    if f < i {
        assert(s[f] != x);
    }
}

/// Removing an entry of a sequence without repeats removes its value from
/// the sequence and leaves no repeats.
pub proof fn lemma_remove_no_dup<T>(s: Seq<T>, i: int)
    requires
        s.no_duplicates(),
        0 <= i < s.len(),
    ensures
        s.remove(i).no_duplicates(),
        s.remove(i).len() == s.len() - 1,
        forall|x: T| #[trigger] s.remove(i).contains(x) <==> (s.contains(x) && x != s[i]),
{
    let r = s.remove(i);
    assert forall|a: int, b: int| 0 <= a < r.len() && 0 <= b < r.len() && a != b implies r[a]
        != r[b] by {
        let oa = if a < i { a } else { a + 1 };
        let ob = if b < i { b } else { b + 1 };
        assert(r[a] == s[oa]);
        assert(r[b] == s[ob]);
    }
    assert forall|x: T| #[trigger] r.contains(x) <==> (s.contains(x) && x != s[i]) by {
        if r.contains(x) {
            let a = choose|a: int| 0 <= a < r.len() && r[a] == x;
            let oa = if a < i { a } else { a + 1 };
            assert(r[a] == s[oa]);
            assert(s.contains(x));
        }
        if s.contains(x) && x != s[i] {
            let o = choose|o: int| 0 <= o < s.len() && s[o] == x;
            let a = if o < i { o } else { o - 1 };
            assert(r[a] == x);
        }
    }
}

/// Appending a value that a sequence without repeats does not hold leaves
/// no repeats.
pub proof fn lemma_push_no_dup<T>(s: Seq<T>, y: T)
    requires
        s.no_duplicates(),
        !s.contains(y),
    ensures
        s.push(y).no_duplicates(),
{
    let r = s.push(y);
    assert forall|a: int, b: int| 0 <= a < r.len() && 0 <= b < r.len() && a != b implies r[a]
        != r[b] by {
        if a < s.len() {
            assert(s.contains(r[a]));
        }
        if b < s.len() {
            assert(s.contains(r[b]));
        }
    }
}

/// What a sequence holds after a value was appended.
pub proof fn lemma_push_contains<T>(s: Seq<T>, y: T)
    ensures
        forall|x: T| #[trigger] s.push(y).contains(x) <==> (s.contains(x) || x == y),
{
    let r = s.push(y);
    assert forall|x: T| #[trigger] r.contains(x) <==> (s.contains(x) || x == y) by {
        if r.contains(x) {
            let a = choose|a: int| 0 <= a < r.len() && r[a] == x;
            if a < s.len() {
                assert(s[a] == x);
            }
        }
        if s.contains(x) {
            let a = choose|a: int| 0 <= a < s.len() && s[a] == x;
            assert(r[a] == x);
        }
        if x == y {
            assert(r[s.len() as int] == x);
        }
    }
}

/// Taking the first `x` out of a sequence without repeats leaves a sequence
/// without repeats that holds every other value and not `x`.
pub proof fn lemma_without<T>(s: Seq<T>, x: T)
    requires
        s.no_duplicates(),
    ensures
        without(s, x).no_duplicates(),
        without(s, x).len() <= s.len(),
        s.contains(x) ==> without(s, x).len() == s.len() - 1,
        forall|y: T| #[trigger] without(s, x).contains(y) <==> (s.contains(y) && y != x),
{
    lemma_first_pos(s, x);
    if s.contains(x) {
        lemma_remove_no_dup(s, first_pos(s, x));
    }
}

} // verus!
