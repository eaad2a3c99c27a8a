//! A heuristic for the fold arity that makes a proof smallest.

use vstd::arithmetic::power2::{lemma2_to64, lemma2_to64_rest, lemma_pow2_strictly_increases, pow2};
use vstd::prelude::*;

use crate::log2::pow2_u64;

verus! {

/// The size of what one round of a query reveals, for a given arity: half a Merkle path of
/// digests and the `2^arity` field elements of one coset.
pub open spec fn round_size(
    log_block_length: nat,
    digest_size: nat,
    field_size: nat,
    arity: nat,
) -> nat {
    (log_block_length / 2) * digest_size + pow2(arity) * field_size
}

/// An estimate of the size of one query's proof for a given arity: the size of a round,
/// times the `(log_block_length - arity) / arity` rounds that follow the first.
pub open spec fn query_proof_size(
    log_block_length: nat,
    digest_size: nat,
    field_size: nat,
    arity: nat,
) -> nat {
    (round_size(log_block_length, digest_size, field_size, arity) * (log_block_length - arity)
        / arity as int) as nat
}

/// Whether the estimate does not grow from any arity to the next below `arity`.
pub open spec fn no_increase_below(
    log_block_length: nat,
    digest_size: nat,
    field_size: nat,
    arity: nat,
) -> bool {
    forall|b: nat|
        2 <= b < arity ==> #[trigger] query_proof_size(log_block_length, digest_size, field_size, b)
            <= query_proof_size(log_block_length, digest_size, field_size, (b - 1) as nat)
}

/// Whether the estimate for `arity` can be computed in a `usize`.
pub open spec fn size_estimate_fits(
    log_block_length: nat,
    digest_size: nat,
    field_size: nat,
    arity: nat,
) -> bool {
    &&& pow2(arity) <= usize::MAX
    &&& round_size(log_block_length, digest_size, field_size, arity) <= usize::MAX
    &&& round_size(log_block_length, digest_size, field_size, arity) * (log_block_length - arity)
        <= usize::MAX
}

/// Whether the estimate can be computed in a `usize` for every arity that the search
/// looks at: the arities from one up to the first at which the estimate grows.
pub open spec fn size_estimates_fit(log_block_length: nat, digest_size: nat, field_size: nat) -> bool {
    forall|a: nat|
        1 <= a <= log_block_length && #[trigger] no_increase_below(
            log_block_length,
            digest_size,
            field_size,
            a,
        ) ==> size_estimate_fits(log_block_length, digest_size, field_size, a)
}

/// Whether `arity` is the first local minimum of the estimate: the estimate does not grow
/// up to `arity`, and grows right after it unless `arity` is the largest there is.
pub open spec fn is_first_local_minimum(
    log_block_length: nat,
    digest_size: nat,
    field_size: nat,
    arity: nat,
) -> bool {
    &&& 1 <= arity <= log_block_length
    &&& no_increase_below(log_block_length, digest_size, field_size, arity + 1)
    &&& arity < log_block_length ==> query_proof_size(
        log_block_length,
        digest_size,
        field_size,
        arity + 1,
    ) > query_proof_size(log_block_length, digest_size, field_size, arity)
}

/// The estimates fit wherever the estimate for the largest arity, taken for as many rounds
/// as the code has variables, fits.
pub proof fn lemma_size_estimates_fit(log_block_length: nat, digest_size: nat, field_size: nat)
    requires
        pow2(log_block_length) <= usize::MAX,
        round_size(log_block_length, digest_size, field_size, log_block_length) * log_block_length
            <= usize::MAX,
    ensures
        size_estimates_fit(log_block_length, digest_size, field_size),
{
    assert forall|a: nat| 1 <= a <= log_block_length implies size_estimate_fits(
        log_block_length,
        digest_size,
        field_size,
        a,
    ) by {
        if a < log_block_length {
            lemma_pow2_strictly_increases(a, log_block_length);
        }
        let top = round_size(log_block_length, digest_size, field_size, log_block_length) as int;
        let here = round_size(log_block_length, digest_size, field_size, a) as int;
        let half = (log_block_length / 2) as int;
        assert(pow2(a) * field_size <= pow2(log_block_length) * field_size) by (nonlinear_arith)
            requires
                pow2(a) <= pow2(log_block_length),
        ;
        assert(here <= top);
        assert(here * (log_block_length - a) <= top * log_block_length) by (nonlinear_arith)
            requires
                0 <= here <= top,
                0 <= log_block_length - a <= log_block_length,
        ;
        assert(top <= top * log_block_length) by (nonlinear_arith)
            requires
                top >= 0,
                log_block_length >= 1,
        ;
    }
}

/// Heuristic for estimating the optimal FRI folding arity that minimizes proof size.
///
/// `log_block_length` is the binary logarithm of the block length of the Reed–Solomon code.
/// The arities from one to `log_block_length` are tried in turn, and the result is the last
/// before the estimate of the proof size first grows; it is one where there is none to try.
pub fn estimate_optimal_arity(log_block_length: usize, digest_size: usize, field_size: usize) -> (r:
    usize)
    requires
        size_estimates_fit(log_block_length as nat, digest_size as nat, field_size as nat),
    ensures
        log_block_length == 0 ==> r == 1,
        log_block_length > 0 ==> is_first_local_minimum(
            log_block_length as nat,
            digest_size as nat,
            field_size as nat,
            r as nat,
        ),
{
    let mut best: usize = 1;
    let mut best_size: usize = 0;
    let mut arity: usize = 1;
    while arity <= log_block_length
        invariant
            1 <= arity <= log_block_length + 1,
            size_estimates_fit(log_block_length as nat, digest_size as nat, field_size as nat),
            arity == 1 ==> best == 1,
            arity > 1 ==> best == arity - 1 && best_size == query_proof_size(
                log_block_length as nat,
                digest_size as nat,
                field_size as nat,
                best as nat,
            ),
            no_increase_below(
                log_block_length as nat,
                digest_size as nat,
                field_size as nat,
                arity as nat,
            ),
        decreases log_block_length + 1 - arity,
    {
        proof {
            assert(size_estimate_fits(
                log_block_length as nat,
                digest_size as nat,
                field_size as nat,
                arity as nat,
            ));
            // a coset of `2^arity` symbols can be counted, so the arity is less than 64
            assert(arity < 64) by {
                lemma2_to64();
                lemma2_to64_rest();
                if arity > 64 {
                    lemma_pow2_strictly_increases(64, arity as nat);
                }
            }
            let p = pow2(arity as nat) as int;
            let half = (log_block_length / 2) as int;
            assert(0 <= p * field_size) by (nonlinear_arith)
                requires
                    0 <= p,
                    0 <= field_size,
            ;
            assert(0 <= half * digest_size) by (nonlinear_arith)
                requires
                    0 <= half,
                    0 <= digest_size,
            ;
        }
        let coset = pow2_u64(arity) as usize;
        let size = ((log_block_length / 2) * digest_size + coset * field_size) * (log_block_length
            - arity) / arity;
        if arity > 1 && size > best_size {
            return best;
        }
        best = arity;
        best_size = size;
        arity = arity + 1;
    }
    best
}

} // verus!
