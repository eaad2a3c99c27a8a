//! Powers of two and the ceiling of the binary logarithm on machine words.

use vstd::arithmetic::power2::{lemma2_to64, lemma_pow2_strictly_increases, lemma_pow2_unfold, pow2};
use vstd::bits::{lemma_u64_pow2_no_overflow, lemma_u64_shl_is_mul};
use vstd::prelude::*;

verus! {

/// The least `k` with `n <= 2^k`; `0` for `n <= 1`.
pub open spec fn log2_ceil(n: nat) -> nat
    decreases n,
{
    if n <= 1 {
        0
    } else {
        1 + log2_ceil(((n + 1) / 2) as nat)
    }
}

/// `log2_ceil(n)` is the least exponent whose power of two reaches `n`.
pub proof fn lemma_log2_ceil_bounds(n: nat)
    ensures
        n <= pow2(log2_ceil(n)),
        log2_ceil(n) > 0 ==> pow2((log2_ceil(n) - 1) as nat) < n,
    decreases n,
{
    lemma2_to64();
    if n > 1 {
        let h = ((n + 1) / 2) as nat;
        lemma_log2_ceil_bounds(h);
        lemma_pow2_unfold(log2_ceil(n));
        if log2_ceil(h) > 0 {
            lemma_pow2_unfold(log2_ceil(h));
        }
    }
}

/// Any exponent whose power of two reaches `n` is at least `log2_ceil(n)`.
pub proof fn lemma_log2_ceil_least(n: nat, k: nat)
    requires
        n <= pow2(k),
    ensures
        log2_ceil(n) <= k,
{
    lemma_log2_ceil_bounds(n);
    if log2_ceil(n) > k {
        if k < log2_ceil(n) - 1 {
            lemma_pow2_strictly_increases(k, (log2_ceil(n) - 1) as nat);
        }
    }
}

/// `2^e` as a 64-bit word.
pub fn pow2_u64(e: usize) -> (r: u64)
    requires
        e < 64,
    ensures
        r == pow2(e as nat),
{
    proof {
        lemma_u64_pow2_no_overflow(e as nat);
        lemma_u64_shl_is_mul(1u64, e as u64);
    }
    1u64 << (e as u64)
}

/// The ceiling of the binary logarithm of `n`, with `log2_ceil_usize(0) == 0`.
pub fn log2_ceil_usize(n: usize) -> (r: usize)
    ensures
        r == log2_ceil(n as nat),
        r <= 64,
{
    let mut r: usize = 0;
    let mut p: u128 = 1;
    proof {
        lemma2_to64();
    }
    while p < n as u128
        invariant
            r <= 64,
            p == pow2(r as nat),
            r > 0 ==> pow2((r - 1) as nat) < n,
            n <= u64::MAX,
        decreases 64 - r,
    {
        proof {
            lemma2_to64();
            lemma_pow2_unfold((r + 1) as nat);
        }
        p = p * 2;
        r = r + 1;
    }
    proof {
        // `r` reaches `n`, so it is no less than the least such exponent; and it is no
        // more, since the power before it does not reach `n`
        lemma_log2_ceil_least(n as nat, r as nat);
        lemma_log2_ceil_bounds(n as nat);
        if log2_ceil(n as nat) + 1 < r {
            lemma_pow2_strictly_increases(log2_ceil(n as nat), (r - 1) as nat);
        }
    }
    r
}

} // verus!
