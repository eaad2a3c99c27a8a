//! Where one query looks: the coset that it opens in each oracle.
//!
//! A query index names a coset of the first oracle. Folding that coset gives one symbol of
//! the second oracle, at the position of the same number; that position lies in a coset
//! of the second oracle, which the query opens next, and so on. The symbol that the last
//! coset folds to is compared with the terminal codeword.

use vstd::arithmetic::div_mod::{lemma_basic_div, lemma_div_denominator, lemma_small_mod};
use vstd::arithmetic::power2::{lemma2_to64, lemma2_to64_rest, lemma_pow2_adds, lemma_pow2_pos, lemma_pow2_strictly_increases, pow2};
use vstd::bits::lemma_u64_shr_is_div;
use vstd::prelude::*;

use crate::log2::pow2_u64;
use crate::params::{arity_sum, lemma_arity_sum_prefix, lemma_arity_sum_take_step, FRIParams, FRIParamsView};
use crate::protocol::oracle_commit_round;

verus! {

/// The coset of one oracle that a query opens.
#[derive(Clone, Copy, Debug, PartialEq, Eq, Structural)]
pub struct QueryOpening {
    /// The number of the coset among the cosets of the oracle.
    pub coset_index: usize,
    /// The position within the coset of the symbol that the coset opened before folds to.
    /// It is zero for the first oracle, before which nothing is opened.
    pub offset: usize,
}

/// The number of bits that a query index loses before it names a coset of oracle `k`: the
/// arities of the oracles from the second up to oracle `k`.
pub open spec fn query_shift(params: FRIParamsView, k: nat) -> nat {
    (oracle_commit_round(params, k + 1) - oracle_commit_round(params, 1)) as nat
}

/// The number of the coset of oracle `k` that the query with index `index` opens.
pub open spec fn coset_index(params: FRIParamsView, index: nat, k: nat) -> nat {
    index / pow2(query_shift(params, k))
}

/// The position within that coset of the symbol that the coset of oracle `k - 1` folds to.
pub open spec fn coset_offset(params: FRIParamsView, index: nat, k: nat) -> nat {
    if k == 0 {
        0
    } else {
        coset_index(params, index, (k - 1) as nat) % pow2(params.fold_arities[k as int] as nat)
    }
}

/// The shift grows from one oracle to the next by the arity of the next.
pub proof fn lemma_query_shift_step(params: FRIParamsView, k: nat)
    requires
        k + 1 < params.n_oracles(),
    ensures
        query_shift(params, 0) == 0,
        query_shift(params, k + 1) == query_shift(params, k) + params.fold_arities[k as int + 1],
{
    lemma_arity_sum_take_step(params.fold_arities, (k + 1) as int);
    lemma_arity_sum_take_step(params.fold_arities, 0);
    assert(arity_sum(params.fold_arities.take(0)) == 0);
    lemma_arity_sum_monotone(params.fold_arities, 1, (k + 1) as int);
}

/// The arities up to one point sum to at most those up to a later point.
pub proof fn lemma_arity_sum_monotone(s: Seq<usize>, i: int, j: int)
    requires
        0 <= i <= j <= s.len(),
    ensures
        arity_sum(s.take(i)) <= arity_sum(s.take(j)),
    decreases j - i,
{
    if i < j {
        lemma_arity_sum_take_step(s, j - 1);
        lemma_arity_sum_monotone(s, i, j - 1);
    }
}

/// Dropping `a` more bits of a number divides it by `2^a` once more.
proof fn lemma_div_pow2_step(x: nat, s: nat, a: nat)
    ensures
        (x / pow2(s)) / pow2(a) == x / pow2(s + a),
{
    lemma_pow2_pos(s);
    lemma_pow2_pos(a);
    lemma_pow2_adds(s, a);
    lemma_div_denominator(x as int, pow2(s) as int, pow2(a) as int);
}

/// A query index of `index_bits` bits names a coset of every oracle, and a position in
/// the terminal codeword.
pub proof fn lemma_coset_index_in_range(params: FRIParamsView, index: nat, k: nat)
    requires
        params.wf(),
        k < params.n_oracles(),
        index < pow2(params.index_bits() as nat),
    ensures
        coset_index(params, index, k) < pow2(
            (params.log_len() - oracle_commit_round(params, k + 1)) as nat,
        ),
        k > 0 ==> coset_offset(params, index, k) < pow2(params.fold_arities[k as int] as nat),
{
    let s = query_shift(params, k);
    let width = (params.log_len() - oracle_commit_round(params, k + 1)) as nat;
    lemma_arity_sum_take_step(params.fold_arities, 0);
    assert(arity_sum(params.fold_arities.take(0)) == 0);
    lemma_arity_sum_monotone(params.fold_arities, 1, (k + 1) as int);
    lemma_arity_sum_prefix(params.fold_arities, (k + 1) as int);
    assert(params.index_bits() == width + s);
    lemma_pow2_adds(width, s);
    lemma_pow2_pos(s);
    lemma_pow2_pos(width);
    let d = pow2(s) as int;
    let w = pow2(width) as int;
    assert(index / (d as nat) < w) by (nonlinear_arith)
        requires
            0 <= index < w * d,
            d > 0,
    ;
    if k > 0 {
        let a = params.fold_arities[k as int] as nat;
        lemma_pow2_pos(a);
        vstd::arithmetic::div_mod::lemma_mod_bound(
            coset_index(params, index, (k - 1) as nat) as int,
            pow2(a) as int,
        );
    }
}

/// The low `a` bits of a number and the number without them.
fn split_low_bits(x: usize, a: usize) -> (r: (usize, usize))
    ensures
        r.0 == x as nat / pow2(a as nat),
        r.1 == x as nat % pow2(a as nat),
{
    proof {
        lemma2_to64();
        lemma2_to64_rest();
        lemma_pow2_pos(a as nat);
    }
    if a >= 64 {
        proof {
            if a > 64 {
                lemma_pow2_strictly_increases(64, a as nat);
            }
            lemma_basic_div(x as int, pow2(a as nat) as int);
            lemma_small_mod(x as nat, pow2(a as nat));
        }
        (0, x)
    } else {
        proof {
            lemma_u64_shr_is_div(x as u64, a as u64);
            let d = pow2(a as nat) as int;
            vstd::arithmetic::div_mod::lemma_fundamental_div_mod(x as int, d);
            vstd::arithmetic::div_mod::lemma_div_pos_is_pos(x as int, d);
            assert(x as int % d <= x) by (nonlinear_arith)
                requires
                    x == d * (x as int / d) + x as int % d,
                    d > 0,
                    x as int / d >= 0,
            ;
        }
        let high = (x as u64) >> (a as u64);
        let low = (x as u64) % pow2_u64(a);
        (high as usize, low as usize)
    }
}

/// The cosets that the query with index `index` opens, one for each oracle in the order of
/// the oracles. The coset of the last oracle folds to the symbol of the terminal codeword
/// at the position of that coset's number.
pub fn query_openings(params: &FRIParams, index: usize) -> (r: Vec<QueryOpening>)
    ensures
        r.len() == params@.n_oracles(),
        forall|k: int|
            0 <= k < r.len() ==> (#[trigger] r[k]).coset_index == coset_index(
                params@,
                index as nat,
                k as nat,
            ) && r[k].offset == coset_offset(params@, index as nat, k as nat),
{
    let fold_arities = params.fold_arities();
    let mut openings: Vec<QueryOpening> = Vec::new();
    if fold_arities.len() == 0 {
        return openings;
    }
    let mut current = index;
    openings.push(QueryOpening { coset_index: index, offset: 0 });
    let mut k: usize = 1;
    proof {
        lemma2_to64();
        assert(arity_sum(fold_arities@.take(1)) - arity_sum(fold_arities@.take(1)) == 0);
        assert(index as nat / 1 == index);
    }
    while k < fold_arities.len()
        invariant
            1 <= k <= fold_arities.len(),
            fold_arities@ == params@.fold_arities,
            openings.len() == k,
            current == coset_index(params@, index as nat, (k - 1) as nat),
            current <= index,
            forall|j: int|
                0 <= j < k ==> (#[trigger] openings[j]).coset_index == coset_index(
                    params@,
                    index as nat,
                    j as nat,
                ) && openings[j].offset == coset_offset(params@, index as nat, j as nat),
        decreases fold_arities.len() - k,
    {
        let arity = fold_arities[k];
        let (next, offset) = split_low_bits(current, arity);
        proof {
            lemma_query_shift_step(params@, (k - 1) as nat);
            lemma_div_pow2_step(index as nat, query_shift(params@, (k - 1) as nat), arity as nat);
            lemma_pow2_pos(arity as nat);
            vstd::arithmetic::div_mod::lemma_div_is_ordered_by_denominator(
                current as int,
                1,
                pow2(arity as nat) as int,
            );
            vstd::arithmetic::div_mod::lemma_fundamental_div_mod(
                current as int,
                pow2(arity as nat) as int,
            );
            assert(offset <= current) by (nonlinear_arith)
                requires
                    current == pow2(arity as nat) * next + offset,
                    pow2(arity as nat) > 0,
                    next >= 0,
            ;
        }
        openings.push(QueryOpening { coset_index: next, offset });
        current = next;
        k = k + 1;
    }
    openings
}

} // verus!
