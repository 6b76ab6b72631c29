//! Powers of two, binary logarithms and page rounding.

use vstd::prelude::*;
use vstd::arithmetic::power2::{pow2, lemma_pow2_pos, lemma_pow2_unfold, lemma_pow2_strictly_increases, lemma2_to64};
use vstd::arithmetic::div_mod::lemma_mod_breakdown;


verus! {

/// `x` is `2^k` for some natural `k`.
pub open spec fn power_of_two(x: int) -> bool {
    exists|k: nat| x == #[trigger] pow2(k)
}

/// `r` is the least exponent with `n <= 2^r`.
pub open spec fn is_ceil_log2(n: nat, r: nat) -> bool {
    &&& n <= pow2(r)
    &&& r > 0 ==> pow2((r - 1) as nat) < n
}

/// `r` is the greatest exponent with `2^r <= n`.
pub open spec fn is_floor_log2(n: nat, r: nat) -> bool {
    &&& pow2(r) <= n
    &&& n < pow2(r + 1)
}

/// The smallest order whose block of `2^order` pages holds `n` pages.
pub open spec fn order_for(n: nat) -> nat {
    choose|r: nat| is_ceil_log2(n, r)
}

/// `2^a <= 2^b` exactly when `a <= b`.
pub proof fn lemma_pow2_monotone(a: nat, b: nat)
    ensures
        a <= b <==> pow2(a) <= pow2(b),
        a < b <==> pow2(a) < pow2(b),
{
    if a < b {
        lemma_pow2_strictly_increases(a, b);
    }
    if b < a {
        lemma_pow2_strictly_increases(b, a);
    }
}

/// `2^(k+1)` is twice `2^k`.
pub proof fn lemma_pow2_double(k: nat)
    ensures
        pow2(k + 1) == 2 * pow2(k),
        pow2(k) > 0,
{
    lemma_pow2_unfold(k + 1);
    lemma_pow2_pos(k);
}

/// At most one exponent is the ceiling logarithm of `n`.
pub proof fn lemma_ceil_log2_unique(n: nat, r1: nat, r2: nat)
    requires
        is_ceil_log2(n, r1),
        is_ceil_log2(n, r2),
    ensures
        r1 == r2,
{
    if r1 < r2 {
        lemma_pow2_monotone(r1, (r2 - 1) as nat);
    }
    if r2 < r1 {
        lemma_pow2_monotone(r2, (r1 - 1) as nat);
    }
}

/// The exponent that satisfies the ceiling-logarithm property is `order_for`.
pub proof fn lemma_order_for(n: nat, r: nat)
    requires
        is_ceil_log2(n, r),
    ensures
        order_for(n) == r,
{
    lemma_ceil_log2_unique(n, r, order_for(n));
}

/// At most one exponent is the floor logarithm of `n`.
pub proof fn lemma_floor_log2_unique(n: nat, r1: nat, r2: nat)
    requires
        is_floor_log2(n, r1),
        is_floor_log2(n, r2),
    ensures
        r1 == r2,
{
    if r1 < r2 {
        lemma_pow2_monotone(r1 + 1, r2);
    }
    if r2 < r1 {
        lemma_pow2_monotone(r2 + 1, r1);
    }
}

/// A multiple of a larger power of two is a multiple of every smaller one.
pub proof fn lemma_pow2_divides(x: int, big: nat, small: nat)
    requires
        0 <= x,
        small <= big,
        x % (pow2(big) as int) == 0,
    ensures
        x % (pow2(small) as int) == 0,
    decreases big - small,
{
    lemma_pow2_pos(big);
    lemma_pow2_pos(small);
    if small < big {
        lemma_pow2_divides(x, big, small + 1);
        lemma_pow2_double(small);
        let p = pow2(small) as int;
        lemma_mod_breakdown(x, p, 2);
        assert(p * 2 == pow2(small + 1));
    }
}

/// `2^k` fits a machine word only when `k` is below the word's width.
pub proof fn lemma_pow2_fits(k: nat)
    requires
        pow2(k) <= usize::MAX,
    ensures
        k < usize::BITS,
{
    if k >= usize::BITS {
        lemma_pow2_monotone(usize::BITS as nat, k);
        lemma2_to64();
        vstd::arithmetic::power2::lemma2_to64_rest();
    }
}

/// The least `r` with `n <= 2^r`; the word's width when `n` exceeds the
/// greatest power of two that a word holds.
pub fn ceil_log2(n: usize) -> (r: usize)
    ensures
        r as nat == order_for(n as nat),
        is_ceil_log2(n as nat, r as nat),
        r <= usize::BITS,
{
    proof {
        lemma2_to64();
    }
    if n <= 1 {
        proof {
            lemma_order_for(n as nat, 0);
        }
        return 0;
    }
    let mut v: usize = 1;
    let mut r: usize = 0;
    while v < n
        invariant
            n > 1,
            v as nat == pow2(r as nat),
            r > 0 ==> pow2((r - 1) as nat) < n,
            r < usize::BITS,
        decreases usize::BITS - r,
    {
        proof {
            lemma_pow2_double(r as nat);
        }
        if v > usize::MAX / 2 {
            proof {
                lemma_order_for(n as nat, (r + 1) as nat);
            }
            return r + 1;
        }
        v = v * 2;
        r = r + 1;
        proof {
            lemma_pow2_fits(r as nat);
        }
    }
    proof {
        lemma_order_for(n as nat, r as nat);
    }
    r
}

/// The greatest `r` with `2^r <= n`.
pub fn floor_log2(n: usize) -> (r: usize)
    requires
        n >= 1,
    ensures
        is_floor_log2(n as nat, r as nat),
        r < usize::BITS,
{
    proof {
        lemma2_to64();
    }
    let mut v: usize = 1;
    let mut r: usize = 0;
    while v <= n / 2
        invariant
            n >= 1,
            v as nat == pow2(r as nat),
            v <= n,
            r < usize::BITS,
        decreases n - v,
    {
        proof {
            lemma_pow2_double(r as nat);
        }
        v = v * 2;
        r = r + 1;
        proof {
            lemma_pow2_fits(r as nat);
        }
    }
    proof {
        lemma_pow2_double(r as nat);
    }
    r
}

/// `2^order` as a machine word.
pub fn pow2_usize(order: usize) -> (r: usize)
    requires
        pow2(order as nat) <= usize::MAX,
    ensures
        r as nat == pow2(order as nat),
        r >= 1,
{
    proof {
        lemma_pow2_fits(order as nat);
        lemma_pow2_pos(order as nat);
        vstd::bits::lemma_usize_shl_is_mul(1usize, order);
    }
    1usize << order
}

} // verus!

verus! {

/// The block at `idx XOR 2^c` is the neighbour of the block of order `c` at
/// `idx`: above it when `idx` is a multiple of `2^(c+1)`, below it otherwise.
/// Either way the lower of the two starts on a multiple of `2^(c+1)`.
pub proof fn lemma_buddy_neighbour(idx: usize, c: nat)
    requires
        pow2(c + 1) <= usize::MAX,
        (idx as int) % (pow2(c) as int) == 0,
    ensures
        ({
            let b = idx ^ (pow2(c) as usize);
            ||| (b == idx + pow2(c) && (idx as int) % (pow2(c + 1) as int) == 0)
            ||| (idx >= pow2(c) && b == idx - pow2(c) && (b as int) % (pow2(c + 1) as int) == 0)
        }),
{
    let k = c as usize;
    let k1 = (c + 1) as usize;
    let p = pow2(c) as usize;
    let twice = pow2(c + 1) as usize;
    lemma_pow2_fits(c + 1);
    lemma_pow2_double(c);
    lemma_pow2_pos(c);
    vstd::bits::lemma_usize_shl_is_mul(1usize, k);
    vstd::bits::lemma_usize_shl_is_mul(1usize, k1);
    vstd::bits::lemma_usize_low_bits_mask_is_mod(idx, c);
    assert(vstd::bits::low_bits_mask(c) == p - 1);
    assert(vstd::bits::low_bits_mask(c + 1) == twice - 1);
    let m = (p - 1) as usize;
    let wide = (twice - 1) as usize;
    assert(idx & m == 0);
    let b = idx ^ p;
    assert((b == idx + p && idx & wide == 0) || (idx >= p && b == idx - p && b & wide == 0))
        by (bit_vector)
        requires
            k < 64,
            k1 == k + 1,
            p == 1usize << k,
            twice == 1usize << k1,
            twice != 0,
            p != 0,
            twice == 2 * p,
            m == p - 1,
            wide == twice - 1,
            idx & m == 0,
            b == idx ^ p,
    ;
    vstd::bits::lemma_usize_low_bits_mask_is_mod(idx, c + 1);
    vstd::bits::lemma_usize_low_bits_mask_is_mod(b, c + 1);
}

} // verus!
