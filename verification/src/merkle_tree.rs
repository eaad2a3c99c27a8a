//! What the protocol asks of a Merkle tree commitment scheme when it lays out a proof,
//! and the depth of the layer that is sent in full for each oracle.

use vstd::prelude::*;

use crate::log2::{log2_ceil, log2_ceil_usize};
use crate::params::{
    arity_sum,
    fri_params_choose,
    lemma_arity_sum_prefix,
    lemma_arity_sum_take_step,
    lemma_choose_outcome,
    lemma_constant_arity_terminates_late,
    FRIParams,
    FRIParamsView,
};

verus! {

/// A vector commitment scheme built on a Merkle tree, as far as the layout of a proof
/// depends on it.
pub trait MerkleTreeScheme {
    /// The depth that [`Self::optimal_verify_layer`] returns.
    spec fn spec_optimal_verify_layer(&self, n_queries: nat, tree_depth: nat) -> nat;

    /// The depth of the layer of a tree of depth `tree_depth` that is cheapest to send in
    /// full when `n_queries` leaves are opened.
    fn optimal_verify_layer(&self, n_queries: usize, tree_depth: usize) -> (r: usize)
        ensures
            r == self.spec_optimal_verify_layer(n_queries as nat, tree_depth as nat),
    ;
}

/// The scheme over a binary tree: the layer sent in full has one node for each query, or
/// is the layer of the leaves where the tree is not that deep.
#[derive(Clone, Copy, Debug, Default)]
pub struct BinaryMerkleTreeScheme {}

impl MerkleTreeScheme for BinaryMerkleTreeScheme {
    open spec fn spec_optimal_verify_layer(&self, n_queries: nat, tree_depth: nat) -> nat {
        if log2_ceil(n_queries) < tree_depth {
            log2_ceil(n_queries)
        } else {
            tree_depth
        }
    }

    fn optimal_verify_layer(&self, n_queries: usize, tree_depth: usize) -> (r: usize) {
        let cap_height = log2_ceil_usize(n_queries);
        if cap_height < tree_depth {
            cap_height
        } else {
            tree_depth
        }
    }
}

/// The binary logarithm of the number of cosets of the oracle of round `round`: the length
/// of the first oracle with the arities up to and including that round folded away.
pub open spec fn log_n_cosets(params: FRIParamsView, round: int) -> int {
    params.log_len() - arity_sum(params.fold_arities.take(round + 1))
}

/// Every oracle of valid parameters has at least as many cosets as the code's inverse rate.
pub proof fn lemma_log_n_cosets_bounds(params: FRIParamsView, round: int)
    requires
        params.wf(),
        0 <= round < params.n_oracles(),
    ensures
        params.log_inv_rate < log_n_cosets(params, round) <= params.log_len(),
{
    lemma_arity_sum_prefix(params.fold_arities, round + 1);
}

/// With parameters chosen for a constant arity, no oracle has fewer cosets than a Merkle
/// cap with one node for each query has nodes: the binary scheme sends that cap for every
/// oracle.
pub proof fn lemma_chosen_caps_are_full(
    field_bits: nat,
    log_domain_size: nat,
    log_msg_len: nat,
    security_bits: nat,
    log_inv_rate: nat,
    arity: usize,
    round: int,
)
    requires
        arity > 0,
        fri_params_choose(
            field_bits,
            log_domain_size,
            log_msg_len,
            security_bits,
            log_inv_rate,
            arity,
        ) is Ok,
        0 <= round < fri_params_choose(
            field_bits,
            log_domain_size,
            log_msg_len,
            security_bits,
            log_inv_rate,
            arity,
        )->Ok_0.n_oracles(),
    ensures
        ({
            let v = fri_params_choose(
                field_bits,
                log_domain_size,
                log_msg_len,
                security_bits,
                log_inv_rate,
                arity,
            )->Ok_0;
            let scheme = BinaryMerkleTreeScheme {  };
            &&& log2_ceil(v.n_test_queries) <= log_n_cosets(v, round)
            &&& scheme.spec_optimal_verify_layer(v.n_test_queries, log_n_cosets(v, round) as nat)
                == log2_ceil(v.n_test_queries)
        }),
{
    let v = fri_params_choose(
        field_bits,
        log_domain_size,
        log_msg_len,
        security_bits,
        log_inv_rate,
        arity,
    )->Ok_0;
    lemma_choose_outcome(field_bits, log_domain_size, log_msg_len, security_bits, log_inv_rate, arity);
    lemma_constant_arity_terminates_late(
        log_msg_len,
        log_inv_rate,
        arity as nat,
        v.n_test_queries,
    );
    lemma_arity_sum_prefix(v.fold_arities, round + 1);
    let rounds = v.n_oracles();
    assert(rounds * arity >= arity) by (nonlinear_arith)
        requires
            rounds >= 1,
            arity >= 0,
    ;
}

/// The depth of the layer sent in full for each oracle, in the order of the rounds.
///
/// This layer allows minimizing the proof size.
pub fn vcs_optimal_layers_depths_iter<VCS: MerkleTreeScheme>(fri_params: &FRIParams, vcs: &VCS) -> (r:
    Vec<usize>)
    ensures
        r.len() == fri_params@.n_oracles(),
        forall|i: int|
            0 <= i < r.len() ==> r[i] == vcs.spec_optimal_verify_layer(
                fri_params@.n_test_queries,
                log_n_cosets(fri_params@, i) as nat,
            ),
{
    let fold_arities = fri_params.fold_arities();
    let n_test_queries = fri_params.n_test_queries();
    let mut log_n: usize = fri_params.log_len();
    let mut depths: Vec<usize> = Vec::new();
    let mut i: usize = 0;
    proof {
        assert(arity_sum(fold_arities@.take(0)) == 0);
    }
    while i < fold_arities.len()
        invariant
            i <= fold_arities.len(),
            fold_arities@ == fri_params@.fold_arities,
            fri_params@.wf(),
            n_test_queries == fri_params@.n_test_queries,
            depths.len() == i,
            log_n == fri_params@.log_len() - arity_sum(fold_arities@.take(i as int)),
            forall|j: int|
                0 <= j < i ==> depths[j] == vcs.spec_optimal_verify_layer(
                    fri_params@.n_test_queries,
                    log_n_cosets(fri_params@, j) as nat,
                ),
        decreases fold_arities.len() - i,
    {
        proof {
            lemma_arity_sum_take_step(fold_arities@, i as int);
            lemma_log_n_cosets_bounds(fri_params@, i as int);
        }
        log_n = log_n - fold_arities[i];
        depths.push(vcs.optimal_verify_layer(n_test_queries, log_n));
        i = i + 1;
    }
    depths
}

} // verus!
