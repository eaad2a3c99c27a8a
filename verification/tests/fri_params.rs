use binius_fri::arity::estimate_optimal_arity;
use binius_fri::bignat::BigNat;
use binius_fri::error::Error;
use binius_fri::log2::{log2_ceil_usize, pow2_u64};
use binius_fri::merkle_tree::{vcs_optimal_layers_depths_iter, BinaryMerkleTreeScheme, MerkleTreeScheme};
use binius_fri::params::FRIParams;
use binius_fri::queries::calculate_n_test_queries;
use binius_fri::reed_solomon::ReedSolomonCode;

/// The query count as a formula in floating point, for inputs away from its rounding edges.
fn n_test_queries_in_floats(field_bits: usize, security_bits: usize, log_dim: usize, log_inv_rate: usize) -> Option<usize> {
    let field_size = 2.0_f64.powi(field_bits as i32);
    let sumcheck_err = (2 * log_dim) as f64 / field_size;
    let folding_err = (1u64 << (log_dim + log_inv_rate)) as f64 / field_size;
    let per_query_err = 0.5 * (1f64 + 2.0f64.powi(-(log_inv_rate as i32)));
    let allowed_query_err = 2.0_f64.powi(-(security_bits as i32)) - sumcheck_err - folding_err;
    if allowed_query_err <= 0.0 {
        return None;
    }
    Some(allowed_query_err.log(per_query_err).ceil() as usize)
}

#[test]
fn test_calculate_n_test_queries() {
    let security_bits = 96;
    let rs_code = ReedSolomonCode::new(28, 1).unwrap();
    let n_test_queries = calculate_n_test_queries(128, security_bits, &rs_code).unwrap();
    assert_eq!(n_test_queries, 232);

    let rs_code = ReedSolomonCode::new(28, 2).unwrap();
    let n_test_queries = calculate_n_test_queries(128, security_bits, &rs_code).unwrap();
    assert_eq!(n_test_queries, 143);
}

#[test]
fn test_calculate_n_test_queries_unsatisfiable() {
    let security_bits = 128;
    let rs_code = ReedSolomonCode::new(28, 1).unwrap();
    assert!(matches!(
        calculate_n_test_queries(128, security_bits, &rs_code),
        Err(Error::ParameterError)
    ));
}

#[test]
fn test_estimate_optimal_arity() {
    let field_size = 128;
    for log_block_length in 22..35 {
        let digest_size = 256;
        assert_eq!(estimate_optimal_arity(log_block_length, digest_size, field_size), 4);
    }

    for log_block_length in 22..28 {
        let digest_size = 1024;
        assert_eq!(estimate_optimal_arity(log_block_length, digest_size, field_size), 6);
    }
}

#[test]
fn test_estimate_optimal_arity_small_codes() {
    // nothing to try
    assert_eq!(estimate_optimal_arity(0, 256, 128), 1);
    // one arity to try
    assert_eq!(estimate_optimal_arity(1, 256, 128), 1);
    // estimates 512 and 0: never growing, the largest arity is returned
    assert_eq!(estimate_optimal_arity(2, 256, 128), 2);
    // estimates (256 + 256) * 2 / 1 = 1024, (256 + 512) * 1 / 2 = 384, 0
    assert_eq!(estimate_optimal_arity(3, 256, 128), 3);
    // estimates for digest 0: 2 * 3 = 6, 4 * 2 / 2 = 4, 8 * 1 / 3 = 2, 0
    assert_eq!(estimate_optimal_arity(4, 0, 1), 4);
    // estimates 8 * 2 * 7 = 112, 8 * 4 * 6 / 2 = 96, 8 * 8 * 5 / 3 = 106: grows at 3
    assert_eq!(estimate_optimal_arity(8, 0, 8), 2);
}

#[test]
fn test_query_count_matches_the_formula_in_floats() {
    for security_bits in [20usize, 32, 64, 80, 96, 100] {
        for log_dim in [0usize, 1, 10, 20, 27] {
            for log_inv_rate in [1usize, 2, 3, 4, 8] {
                let code = ReedSolomonCode::new(log_dim, log_inv_rate).unwrap();
                let exact = calculate_n_test_queries(128, security_bits, &code).ok();
                let floats = n_test_queries_in_floats(128, security_bits, log_dim, log_inv_rate);
                assert_eq!(exact, floats, "{security_bits} {log_dim} {log_inv_rate}");
            }
        }
    }
}

#[test]
fn test_query_count_exact_values() {
    // allowed = 2^-1 - 2 / 2^3 = 0.25, per query 3/4: 0.75^5 = 0.237 <= 0.25 < 0.75^4 = 0.316
    let code = ReedSolomonCode::new(0, 1).unwrap();
    assert_eq!(calculate_n_test_queries(3, 1, &code), Ok(5));
    // allowed = 1 - 2 / 2^10: 0.75^1 suffices, 0.75^0 = 1 does not
    assert_eq!(calculate_n_test_queries(10, 0, &code), Ok(1));
    // allowed = 2^-2 - 2 / 2^4 = 1/8: 0.75^8 = 0.1001 <= 0.125 < 0.75^7 = 0.1335
    assert_eq!(calculate_n_test_queries(4, 2, &code), Ok(8));
    // allowed = 2^-2 - 4 / 2^5 = 1/8, per query 5/8: (5/8)^5 = 0.095 <= 0.125 < (5/8)^4 = 0.153
    let code = ReedSolomonCode::new(0, 2).unwrap();
    assert_eq!(calculate_n_test_queries(5, 2, &code), Ok(5));
    // allowed = 2^-4 - (2 + 4) / 2^8 = 10 / 256, per query 3/4: 0.75^12 = 0.0317 <= 0.039 < 0.75^11
    let code = ReedSolomonCode::new(1, 1).unwrap();
    assert_eq!(calculate_n_test_queries(8, 4, &code), Ok(12));
}

#[test]
fn test_query_count_on_the_edge_of_a_power() {
    // allowed = 1 - 2 / 2^3 = 3/4, which is the per query error itself: one query
    // suffices, exactly
    let code = ReedSolomonCode::new(0, 1).unwrap();
    assert_eq!(calculate_n_test_queries(3, 0, &code), Ok(1));
    // allowed = 2^-1 - (2 + 4) / 2^4 = 1/8: 0.75^8 = 0.1001 <= 0.125 < 0.75^7 = 0.1335
    let code = ReedSolomonCode::new(1, 1).unwrap();
    assert_eq!(calculate_n_test_queries(4, 1, &code), Ok(8));
    // allowed = 1 - 2^60 / 2^62 = 3/4, per query (1 + 2^-60) / 2 <= 3/4: one query
    let code = ReedSolomonCode::new(0, 60).unwrap();
    assert_eq!(calculate_n_test_queries(62, 0, &code), Ok(1));
}

#[test]
fn test_query_count_unattainable_edge() {
    let code = ReedSolomonCode::new(28, 1).unwrap();
    // 2^(128 - 99) = 2^29 <= 2 * 28 + 2^29
    assert_eq!(calculate_n_test_queries(128, 99, &code), Err(Error::ParameterError));
    // 2^(128 - 98) = 2^30 > 2 * 28 + 2^29
    assert!(calculate_n_test_queries(128, 98, &code).is_ok());
    // more security bits than the field has
    assert_eq!(calculate_n_test_queries(128, 129, &code), Err(Error::ParameterError));
    assert_eq!(calculate_n_test_queries(128, usize::MAX, &code), Err(Error::ParameterError));
    // exactly the fixed error: 2^1 == 2 * 0 + 2^1
    let code = ReedSolomonCode::new(0, 1).unwrap();
    assert_eq!(calculate_n_test_queries(5, 4, &code), Err(Error::ParameterError));
}

#[test]
fn test_query_count_rate_one() {
    let code = ReedSolomonCode::new(10, 0).unwrap();
    assert_eq!(calculate_n_test_queries(128, 96, &code), Ok(0));
}

#[test]
fn test_query_count_is_minimal() {
    // With the count that is returned the error is within the budget, and with one query
    // fewer it is not: checked here in floating point, far from any rounding edge.
    for (security_bits, log_dim, log_inv_rate) in [(96usize, 28usize, 1usize), (96, 28, 2), (64, 20, 3), (100, 12, 1)] {
        let code = ReedSolomonCode::new(log_dim, log_inv_rate).unwrap();
        let n = calculate_n_test_queries(128, security_bits, &code).unwrap();
        let per_query_err = 0.5 * (1f64 + 2.0f64.powi(-(log_inv_rate as i32)));
        let allowed = 2.0_f64.powi(-(security_bits as i32))
            - ((2 * log_dim) as f64 + (1u64 << (log_dim + log_inv_rate)) as f64) / 2.0_f64.powi(128);
        assert!(per_query_err.powi(n as i32) <= allowed);
        assert!(per_query_err.powi(n as i32 - 1) > allowed);
    }
}

#[test]
fn test_reed_solomon_code() {
    let code = ReedSolomonCode::new(28, 2).unwrap();
    assert_eq!(code.log_dim(), 28);
    assert_eq!(code.log_inv_rate(), 2);
    assert_eq!(code.log_len(), 30);
    assert_eq!(code.len(), 1 << 30);
    assert_eq!(code.dim(), 1 << 28);

    let code = ReedSolomonCode::new(0, 0).unwrap();
    assert_eq!(code.len(), 1);
    assert_eq!(code.dim(), 1);

    assert!(ReedSolomonCode::new(60, 3).is_ok());
    assert_eq!(ReedSolomonCode::new(60, 4).err(), Some(Error::CodeLengthOutOfRange));
    assert_eq!(ReedSolomonCode::new(usize::MAX, 1).err(), Some(Error::CodeLengthOutOfRange));
    assert_eq!(ReedSolomonCode::new(1, usize::MAX).err(), Some(Error::CodeLengthOutOfRange));
}

#[test]
fn test_reed_solomon_code_with_ntt_subspace() {
    let code = ReedSolomonCode::with_ntt_subspace(32, 28, 4).unwrap();
    assert_eq!(code.log_dim(), 28);
    assert_eq!(code.log_inv_rate(), 4);
    assert_eq!(
        ReedSolomonCode::with_ntt_subspace(32, 28, 5).err(),
        Some(Error::CodeLengthOutOfRange)
    );
    assert_eq!(
        ReedSolomonCode::with_ntt_subspace(100, 60, 4).err(),
        Some(Error::CodeLengthOutOfRange)
    );
    assert!(ReedSolomonCode::with_ntt_subspace(0, 0, 0).is_ok());
}

#[test]
fn test_fri_params_new_and_getters() {
    let code = ReedSolomonCode::new(4, 1).unwrap();
    let params = FRIParams::new(code, 1, vec![2, 1], 7).unwrap();
    assert_eq!(params.rs_code().log_dim(), 4);
    assert_eq!(params.rs_code().log_inv_rate(), 1);
    assert_eq!(params.log_batch_size(), 1);
    assert_eq!(params.n_test_queries(), 7);
    assert_eq!(params.n_fold_rounds(), 5);
    assert_eq!(params.n_oracles(), 2);
    assert_eq!(params.log_len(), 6);
    assert_eq!(params.index_bits(), 4);
    assert_eq!(params.n_final_challenges(), 2);
    assert_eq!(params.fold_arities(), &[2, 1]);
}

#[test]
fn test_fri_params_without_folding() {
    let code = ReedSolomonCode::new(4, 1).unwrap();
    let params = FRIParams::new(code, 3, vec![], 0).unwrap();
    assert_eq!(params.n_oracles(), 0);
    assert_eq!(params.index_bits(), 0);
    assert_eq!(params.n_fold_rounds(), 7);
    assert_eq!(params.n_final_challenges(), 7);
    assert_eq!(params.log_len(), 8);
    assert!(params.fold_arities().is_empty());
}

#[test]
fn test_fri_params_new_rejects_long_arity_sequences() {
    let code = ReedSolomonCode::new(4, 1).unwrap();
    // the sum equals the number of fold rounds
    assert_eq!(
        FRIParams::new(code, 1, vec![2, 3], 7).err(),
        Some(Error::InvalidFoldAritySequence)
    );
    // the sum exceeds it
    assert_eq!(
        FRIParams::new(code, 1, vec![6], 7).err(),
        Some(Error::InvalidFoldAritySequence)
    );
    // the sum is one below it
    assert!(FRIParams::new(code, 1, vec![2, 2], 7).is_ok());
    // the sum does not fit in a machine word
    assert_eq!(
        FRIParams::new(code, 1, vec![usize::MAX, 1], 7).err(),
        Some(Error::InvalidFoldAritySequence)
    );
    assert_eq!(
        FRIParams::new(code, 1, vec![usize::MAX, usize::MAX, 2], 7).err(),
        Some(Error::InvalidFoldAritySequence)
    );
    // no fold round at all
    let code = ReedSolomonCode::new(0, 1).unwrap();
    assert_eq!(
        FRIParams::new(code, 0, vec![], 7).err(),
        Some(Error::InvalidFoldAritySequence)
    );
    // arities of zero are counted as they are
    let code = ReedSolomonCode::new(1, 1).unwrap();
    let params = FRIParams::new(code, 0, vec![0, 0], 7).unwrap();
    assert_eq!(params.n_final_challenges(), 1);
    assert_eq!(params.index_bits(), 2);
}

#[test]
fn test_choose_with_constant_fold_arity() {
    let params = FRIParams::choose_with_constant_fold_arity(128, 32, 20, 96, 1, 4).unwrap();
    assert_eq!(params.rs_code().log_dim(), 16);
    assert_eq!(params.rs_code().log_inv_rate(), 1);
    assert_eq!(params.log_batch_size(), 4);
    assert_eq!(params.n_test_queries(), 232);
    // cap height 8: (20 - (8 - 1)) / 4 = 3 repetitions
    assert_eq!(params.fold_arities(), &[4, 4, 4]);
    assert_eq!(params.n_fold_rounds(), 20);
    assert_eq!(params.n_oracles(), 3);
    assert_eq!(params.log_len(), 21);
    assert_eq!(params.index_bits(), 17);
    assert_eq!(params.n_final_challenges(), 8);
}

#[test]
fn test_choose_with_arity_larger_than_message() {
    // log_dim = 0, log_batch_size = 3; cap height 8 leaves nothing to fold
    let params = FRIParams::choose_with_constant_fold_arity(128, 32, 3, 96, 1, 5).unwrap();
    assert_eq!(params.rs_code().log_dim(), 0);
    assert_eq!(params.log_batch_size(), 3);
    assert!(params.fold_arities().is_empty());
    assert_eq!(params.index_bits(), 0);
    assert_eq!(params.n_final_challenges(), 3);
    assert_eq!(params.n_test_queries(), 232);
}

#[test]
fn test_choose_without_room_for_one_fold() {
    // the code and the query count are taken for a batch of 2^4 codewords of dimension
    // 2^5; the Merkle cap of height 8 then leaves 9 - (8 - 1) = 2 variables, fewer than
    // the arity, so the whole message becomes one batch of repetition codewords
    let params = FRIParams::choose_with_constant_fold_arity(128, 32, 9, 96, 1, 4).unwrap();
    let first_code = ReedSolomonCode::new(5, 1).unwrap();
    assert_eq!(calculate_n_test_queries(128, 96, &first_code), Ok(232));
    assert_eq!(params.n_test_queries(), 232);
    assert!(params.fold_arities().is_empty());
    assert_eq!(params.rs_code().log_dim(), 0);
    assert_eq!(params.rs_code().log_inv_rate(), 1);
    assert_eq!(params.log_batch_size(), 9);
    assert_eq!(params.n_fold_rounds(), 9);
    assert_eq!(params.log_len(), 10);
    assert_eq!(params.index_bits(), 0);
    assert_eq!(params.n_final_challenges(), 9);

    // with two more variables one fold fits, and the batch is 2^4 codewords
    let params = FRIParams::choose_with_constant_fold_arity(128, 32, 11, 96, 1, 4).unwrap();
    assert_eq!(params.fold_arities(), &[4]);
    assert_eq!(params.rs_code().log_dim(), 7);
    assert_eq!(params.log_batch_size(), 4);
}

#[test]
fn test_repetition_code() {
    let code = ReedSolomonCode::new(28, 3).unwrap().repetition();
    assert_eq!(code.log_dim(), 0);
    assert_eq!(code.log_inv_rate(), 3);
    assert_eq!(code.len(), 8);
}

#[test]
fn test_choose_terminates_as_late_as_the_caps_allow() {
    for log_msg_len in 1usize..30 {
        for arity in 1usize..6 {
            for log_inv_rate in 1usize..4 {
                let params = match FRIParams::choose_with_constant_fold_arity(
                    128,
                    40,
                    log_msg_len,
                    96,
                    log_inv_rate,
                    arity,
                ) {
                    Ok(params) => params,
                    Err(e) => {
                        assert_eq!(e, Error::InvalidFoldAritySequence);
                        continue;
                    }
                };
                let cap_height = log2_ceil_usize(params.n_test_queries());
                let folded: usize = params.fold_arities().iter().sum();
                assert!(params.fold_arities().iter().all(|a| *a == arity));
                if params.log_len() >= cap_height {
                    assert!(params.log_len() - folded >= cap_height);
                }
                assert!(
                    params.log_len() < folded + arity + cap_height
                        || folded + arity > log_msg_len
                );
            }
        }
    }
}

#[test]
fn test_choose_errors() {
    assert_eq!(
        FRIParams::choose_with_constant_fold_arity(128, 32, 20, 128, 1, 4).err(),
        Some(Error::ParameterError)
    );
    // the code is longer than the domain: log_dim 16, log_inv_rate 1, domain 2^16
    assert_eq!(
        FRIParams::choose_with_constant_fold_arity(128, 16, 20, 96, 1, 4).err(),
        Some(Error::CodeLengthOutOfRange)
    );
    // an empty message leaves no fold round
    assert_eq!(
        FRIParams::choose_with_constant_fold_arity(128, 32, 0, 96, 1, 1).err(),
        Some(Error::InvalidFoldAritySequence)
    );
    // inverse rate 2^10: 97 queries, cap height 7 <= 10, so nothing is set aside and
    // the arity divides the message length: every round would be folded
    assert_eq!(
        FRIParams::choose_with_constant_fold_arity(128, 32, 8, 96, 10, 4).err(),
        Some(Error::InvalidFoldAritySequence)
    );
    assert!(FRIParams::choose_with_constant_fold_arity(128, 32, 9, 96, 10, 4).is_ok());
}

#[test]
fn test_rederiving_params_gives_the_same_rounds() {
    for (log_msg_len, log_inv_rate, arity) in [(20usize, 1usize, 4usize), (24, 2, 3), (9, 10, 4), (3, 1, 5), (28, 1, 1)] {
        let params =
            FRIParams::choose_with_constant_fold_arity(128, 40, log_msg_len, 96, log_inv_rate, arity)
                .unwrap();
        let again = FRIParams::new(
            *params.rs_code(),
            params.log_batch_size(),
            params.fold_arities().to_vec(),
            params.n_test_queries(),
        )
        .unwrap();
        assert_eq!(again.n_fold_rounds(), params.n_fold_rounds());
        assert_eq!(again.n_oracles(), params.n_oracles());
        assert_eq!(again.index_bits(), params.index_bits());
        assert_eq!(again.n_final_challenges(), params.n_final_challenges());
        assert_eq!(again.fold_arities(), params.fold_arities());
        assert_eq!(again.log_len(), params.log_len());
        assert_eq!(again.n_test_queries(), params.n_test_queries());
        let folded: usize = params.fold_arities().iter().sum();
        assert_eq!(folded + params.n_final_challenges(), params.n_fold_rounds());
    }
}

#[test]
fn test_vcs_optimal_layers_depths() {
    let vcs = BinaryMerkleTreeScheme {};
    let params = FRIParams::choose_with_constant_fold_arity(128, 32, 20, 96, 1, 4).unwrap();
    // 2^17, 2^13 and 2^9 cosets, each at least the 2^8 nodes that 232 queries ask for
    assert_eq!(vcs_optimal_layers_depths_iter(&params, &vcs), vec![8, 8, 8]);

    let code = ReedSolomonCode::new(4, 1).unwrap();
    let params = FRIParams::new(code, 1, vec![2, 2], 1000).unwrap();
    // 2^4 and 2^2 cosets, fewer than the 2^10 nodes that 1000 queries ask for
    assert_eq!(vcs_optimal_layers_depths_iter(&params, &vcs), vec![4, 2]);

    let params = FRIParams::new(code, 1, vec![1, 3], 5).unwrap();
    // 2^5 and 2^2 cosets; 5 queries ask for 2^3 nodes
    assert_eq!(vcs_optimal_layers_depths_iter(&params, &vcs), vec![3, 2]);

    let params = FRIParams::new(code, 1, vec![], 5).unwrap();
    assert_eq!(vcs_optimal_layers_depths_iter(&params, &vcs), Vec::<usize>::new());
}

#[test]
fn test_optimal_verify_layer() {
    let vcs = BinaryMerkleTreeScheme {};
    assert_eq!(vcs.optimal_verify_layer(232, 20), 8);
    assert_eq!(vcs.optimal_verify_layer(232, 5), 5);
    assert_eq!(vcs.optimal_verify_layer(0, 5), 0);
    assert_eq!(vcs.optimal_verify_layer(1, 0), 0);
    assert_eq!(vcs.optimal_verify_layer(256, 8), 8);
    assert_eq!(vcs.optimal_verify_layer(257, 8), 8);
    assert_eq!(vcs.optimal_verify_layer(257, 9), 9);
}

#[test]
fn test_log2_ceil_usize() {
    assert_eq!(log2_ceil_usize(0), 0);
    assert_eq!(log2_ceil_usize(1), 0);
    assert_eq!(log2_ceil_usize(2), 1);
    assert_eq!(log2_ceil_usize(3), 2);
    assert_eq!(log2_ceil_usize(4), 2);
    assert_eq!(log2_ceil_usize(5), 3);
    assert_eq!(log2_ceil_usize(143), 8);
    assert_eq!(log2_ceil_usize(232), 8);
    assert_eq!(log2_ceil_usize(256), 8);
    assert_eq!(log2_ceil_usize(257), 9);
    assert_eq!(log2_ceil_usize(1 << 63), 63);
    assert_eq!(log2_ceil_usize((1 << 63) + 1), 64);
    assert_eq!(log2_ceil_usize(usize::MAX), 64);
}

#[test]
fn test_pow2_u64() {
    assert_eq!(pow2_u64(0), 1);
    assert_eq!(pow2_u64(1), 2);
    assert_eq!(pow2_u64(10), 1024);
    assert_eq!(pow2_u64(63), 1 << 63);
}

#[test]
fn test_bignat() {
    // 3 * 2^70 lies between 2^71 and 2^72
    let mut x = BigNat::pow2(70);
    x.mul_small(3);
    assert!(BigNat::pow2(71).le(&x));
    assert!(!x.le(&BigNat::pow2(71)));
    assert!(x.le(&BigNat::pow2(72)));
    assert!(x.le(&x));

    // 2^64 - 1 is less than 2^64, and one more makes them equal
    let mut y = BigNat::pow2(64);
    y.sub_small(1);
    assert!(y.le(&BigNat::pow2(64)));
    assert!(!BigNat::pow2(64).le(&y));
    assert!(BigNat::pow2(63).le(&y));
    let mut z = BigNat::pow2(63);
    z.mul_small(2);
    z.sub_small(1);
    assert!(z.le(&y) && y.le(&z));

    // (2^64 - 1) * (2^64 - 1) = 2^128 - 2^65 + 1
    let mut s = BigNat::pow2(64);
    s.sub_small(1);
    s.mul_small(u64::MAX);
    let mut t = BigNat::pow2(128);
    t.sub_small(u64::MAX);
    t.sub_small(u64::MAX);
    t.sub_small(1);
    assert!(s.le(&t) && t.le(&s));

    // a borrow that runs through several limbs: 2^200 - 1 < 2^200
    let mut b = BigNat::pow2(200);
    b.sub_small(1);
    assert!(b.le(&BigNat::pow2(200)));
    assert!(!BigNat::pow2(200).le(&b));
    assert!(BigNat::pow2(199).le(&b));

    // multiplying by zero gives zero
    let mut n = BigNat::pow2(130);
    n.mul_small(0);
    assert!(n.le(&BigNat::pow2(0)));
    assert!(!BigNat::pow2(0).le(&n));
}
