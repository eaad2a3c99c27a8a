//! The number of test queries that a target security level asks for.
//!
//! A proof is unsound with probability at most the sum of three errors: that of the
//! sumcheck, `2 * log_dim / 2^field_bits`; that of the folding, `2^log_len / 2^field_bits`;
//! and that of the queries, `per_query_err^n` with `per_query_err = (1 + 2^-log_inv_rate) / 2`.
//! The query count `n` is the least for which the sum is at most `2^-security_bits`.
//!
//! All of this is decided in exact integer arithmetic. Multiplied by `2^field_bits`, the
//! error left for the queries is the integer `2^(field_bits - security_bits) - 2 * log_dim -
//! 2^log_len`, and `per_query_err^n` is `(2^log_inv_rate + 1)^n / 2^((log_inv_rate + 1) * n)`.

use vstd::arithmetic::power::{lemma_pow0, lemma_pow1, lemma_pow_adds, pow};
use vstd::arithmetic::power2::{
    lemma2_to64,
    lemma2_to64_rest,
    lemma_pow2_adds,
    lemma_pow2_pos,
    lemma_pow2_strictly_increases,
    pow2,
};
use vstd::prelude::*;

use crate::bignat::BigNat;
use crate::error::Error;
use crate::log2::pow2_u64;
use crate::reed_solomon::ReedSolomonCode;

verus! {

/// `2^field_bits` times the error of the sumcheck and of the folding together.
pub open spec fn fixed_err_scaled(log_dim: nat, log_inv_rate: nat) -> nat {
    2 * log_dim + pow2(log_dim + log_inv_rate)
}

/// Whether any error is left for the queries: `2^-security_bits` exceeds the error of the
/// sumcheck and of the folding.
pub open spec fn query_budget_positive(
    field_bits: nat,
    security_bits: nat,
    log_dim: nat,
    log_inv_rate: nat,
) -> bool {
    security_bits <= field_bits && pow2((field_bits - security_bits) as nat) > fixed_err_scaled(
        log_dim,
        log_inv_rate,
    )
}

/// `2^field_bits` times the error that is left for the queries, where any is left.
pub open spec fn allowed_query_err_scaled(
    field_bits: nat,
    security_bits: nat,
    log_dim: nat,
    log_inv_rate: nat,
) -> int {
    pow2((field_bits - security_bits) as nat) - fixed_err_scaled(log_dim, log_inv_rate)
}

/// The numerator of `per_query_err`, whose denominator is `2^(log_inv_rate + 1)`.
pub open spec fn per_query_err_numer(log_inv_rate: nat) -> int {
    pow2(log_inv_rate) as int + 1
}

/// Whether `n` queries suffice: `per_query_err^n <= allowed_query_err`, with both sides
/// multiplied by `2^field_bits * 2^((log_inv_rate + 1) * n)`.
pub open spec fn queries_suffice(
    field_bits: nat,
    security_bits: nat,
    log_dim: nat,
    log_inv_rate: nat,
    n: nat,
) -> bool {
    pow(per_query_err_numer(log_inv_rate), n) * pow2(field_bits) <= allowed_query_err_scaled(
        field_bits,
        security_bits,
        log_dim,
        log_inv_rate,
    ) * pow2((log_inv_rate + 1) * n)
}

/// Whether `n` is the least number of queries that suffices.
pub open spec fn is_min_query_count(
    field_bits: nat,
    security_bits: nat,
    log_dim: nat,
    log_inv_rate: nat,
    n: nat,
) -> bool {
    &&& queries_suffice(field_bits, security_bits, log_dim, log_inv_rate, n)
    &&& forall|k: nat|
        k < n ==> !#[trigger] queries_suffice(field_bits, security_bits, log_dim, log_inv_rate, k)
}

/// What the query count is, given that some error is left for the queries: the least count
/// that suffices, or zero where the rate is one and no count suffices.
pub open spec fn n_test_queries_for(
    field_bits: nat,
    security_bits: nat,
    log_dim: nat,
    log_inv_rate: nat,
    n: nat,
) -> bool {
    if log_inv_rate == 0 {
        n == 0
    } else {
        is_min_query_count(field_bits, security_bits, log_dim, log_inv_rate, n)
    }
}

/// The query count, given that some error is left for the queries.
pub open spec fn test_query_count(
    field_bits: nat,
    security_bits: nat,
    log_dim: nat,
    log_inv_rate: nat,
) -> nat {
    choose|n: nat| n_test_queries_for(field_bits, security_bits, log_dim, log_inv_rate, n)
}

/// At most one count is the query count.
pub proof fn lemma_test_query_count_unique(
    field_bits: nat,
    security_bits: nat,
    log_dim: nat,
    log_inv_rate: nat,
    n: nat,
)
    requires
        n_test_queries_for(field_bits, security_bits, log_dim, log_inv_rate, n),
    ensures
        test_query_count(field_bits, security_bits, log_dim, log_inv_rate) == n,
{
    let m = test_query_count(field_bits, security_bits, log_dim, log_inv_rate);
    assert(n_test_queries_for(field_bits, security_bits, log_dim, log_inv_rate, m));
    if log_inv_rate != 0 {
        if m < n {
            assert(!queries_suffice(field_bits, security_bits, log_dim, log_inv_rate, m));
        }
        if n < m {
            assert(!queries_suffice(field_bits, security_bits, log_dim, log_inv_rate, n));
        }
    }
}

/// A security level of at least `field_bits - log_len` bits leaves no error for the queries.
pub proof fn lemma_security_unattainable(
    field_bits: nat,
    security_bits: nat,
    log_dim: nat,
    log_inv_rate: nat,
)
    requires
        security_bits + log_dim + log_inv_rate >= field_bits,
    ensures
        !query_budget_positive(field_bits, security_bits, log_dim, log_inv_rate),
{
    if security_bits <= field_bits {
        let gap = (field_bits - security_bits) as nat;
        if gap < log_dim + log_inv_rate {
            lemma_pow2_strictly_increases(gap, log_dim + log_inv_rate);
        }
    }
}

/// No count of queries suffices when the rate is one: each query then errs with
/// probability one.
pub proof fn lemma_rate_one_never_suffices(
    field_bits: nat,
    security_bits: nat,
    log_dim: nat,
    n: nat,
)
    requires
        security_bits <= field_bits,
    ensures
        !queries_suffice(field_bits, security_bits, log_dim, 0, n),
{
    lemma2_to64();
    lemma_pow2_pos(log_dim);
    lemma_pow2_pos(n);
    lemma_pow2_pos(field_bits);
    let gap = (field_bits - security_bits) as nat;
    if gap < field_bits {
        lemma_pow2_strictly_increases(gap, field_bits);
    }
    vstd::arithmetic::power::lemma_pow_positive(2, n);
    assert(pow(per_query_err_numer(0), n) == pow2(n));
    assert((0nat + 1) * n == n) by (nonlinear_arith);
    let a = allowed_query_err_scaled(field_bits, security_bits, log_dim, 0);
    let f = pow2(field_bits) as int;
    let p = pow2(n) as int;
    assert(a * p < p * f) by (nonlinear_arith)
        requires
            a < f,
            p > 0,
    ;
}

/// With a rate of at most one half, three queries for each bit of the field suffice.
proof fn lemma_three_per_bit_suffice(field_bits: nat, log_inv_rate: nat)
    requires
        log_inv_rate >= 1,
    ensures
        pow(per_query_err_numer(log_inv_rate), 3 * field_bits) * pow2(field_bits) <= pow2(
            (log_inv_rate + 1) * (3 * field_bits),
        ),
    decreases field_bits,
{
    let q = pow2(log_inv_rate) as int + 1;
    let r1 = log_inv_rate + 1;
    if field_bits == 0 {
        lemma_pow0(q);
        lemma2_to64();
        assert(r1 * (3 * 0) == 0) by (nonlinear_arith);
    } else {
        let m = (field_bits - 1) as nat;
        lemma_three_per_bit_suffice(m, log_inv_rate);
        let x = pow2(log_inv_rate) as int;
        lemma2_to64();
        lemma_pow2_strictly_increases(0, log_inv_rate);
        // q^3 * 2 <= 2^(3 (R + 1))
        lemma_pow2_adds(log_inv_rate, log_inv_rate);
        lemma_pow2_adds(log_inv_rate + log_inv_rate, log_inv_rate);
        lemma_pow2_adds(3, 3 * log_inv_rate);
        assert(log_inv_rate + log_inv_rate + log_inv_rate == 3 * log_inv_rate);
        assert(3 + 3 * log_inv_rate == r1 * 3) by (nonlinear_arith)
            requires
                r1 == log_inv_rate + 1,
        ;
        assert(pow2(r1 * 3) == 8 * (x * x * x)) by (nonlinear_arith)
            requires
                pow2(r1 * 3) == 8 * pow2(3 * log_inv_rate),
                pow2(3 * log_inv_rate) == pow2(log_inv_rate + log_inv_rate) * x,
                pow2(log_inv_rate + log_inv_rate) == x * x,
        ;
        lemma_pow1(q);
        lemma_pow_adds(q, 1, 1);
        lemma_pow_adds(q, 2, 1);
        assert(pow(q, 3) == q * q * q);
        assert(2 * (q * q * q) <= 8 * (x * x * x)) by (nonlinear_arith)
            requires
                q == x + 1,
                x >= 2,
        ;
        // assemble the step
        lemma_pow_adds(q, 3 * m, 3);
        lemma_pow2_adds(m, 1);
        lemma_pow2_adds(r1 * (3 * m), r1 * 3);
        assert(3 * m + 3 == 3 * field_bits);
        assert(r1 * (3 * m) + r1 * 3 == r1 * (3 * field_bits)) by (nonlinear_arith)
            requires
                m + 1 == field_bits,
        ;
        let a = pow(q, 3 * m);
        let b = pow2(m) as int;
        let c = pow2(r1 * (3 * m)) as int;
        let d = pow2(r1 * 3) as int;
        let q3 = pow(q, 3);
        assert(q3 >= 0);
        assert((a * q3) * (b * 2) <= c * d) by (nonlinear_arith)
            requires
                a * b <= c,
                2 * q3 <= d,
                q3 >= 0,
                c >= 0,
        ;
    }
}

/// The least number of test queries with which a proof over a field of `2^field_bits`
/// elements reaches `security_bits` bits of security for the code `code`.
///
/// Fails with [`Error::ParameterError`] exactly when the sumcheck and the folding alone
/// err with probability `2^-security_bits` or more. With a rate of one no count
/// suffices, and the count is then zero.
pub fn calculate_n_test_queries(field_bits: usize, security_bits: usize, code: &ReedSolomonCode) -> (r:
    Result<usize, Error>)
    requires
        3 * field_bits <= usize::MAX,
    ensures
        !query_budget_positive(
            field_bits as nat,
            security_bits as nat,
            code.spec_log_dim(),
            code.spec_log_inv_rate(),
        ) ==> r == Err::<usize, Error>(Error::ParameterError),
        query_budget_positive(
            field_bits as nat,
            security_bits as nat,
            code.spec_log_dim(),
            code.spec_log_inv_rate(),
        ) ==> r is Ok && n_test_queries_for(
            field_bits as nat,
            security_bits as nat,
            code.spec_log_dim(),
            code.spec_log_inv_rate(),
            r->Ok_0 as nat,
        ) && r->Ok_0 == test_query_count(
            field_bits as nat,
            security_bits as nat,
            code.spec_log_dim(),
            code.spec_log_inv_rate(),
        ),
{
    let log_dim = code.log_dim();
    let log_inv_rate = code.log_inv_rate();
    let log_len = code.log_len();
    if security_bits > field_bits {
        return Err(Error::ParameterError);
    }
    let gap = field_bits - security_bits;
    proof {
        lemma2_to64();
        lemma2_to64_rest();
        if log_len < 63 {
            lemma_pow2_strictly_increases(log_len as nat, 63);
        }
    }
    let fixed: u64 = 2 * (log_dim as u64) + pow2_u64(log_len);
    if gap < 64 {
        if pow2_u64(gap) <= fixed {
            return Err(Error::ParameterError);
        }
    } else {
        proof {
            if gap > 64 {
                lemma_pow2_strictly_increases(64, gap as nat);
            }
        }
    }
    if log_inv_rate == 0 {
        proof {
            lemma_test_query_count_unique(
                field_bits as nat,
                security_bits as nat,
                log_dim as nat,
                0,
                0,
            );
        }
        return Ok(0);
    }
    let ghost allowed = allowed_query_err_scaled(
        field_bits as nat,
        security_bits as nat,
        log_dim as nat,
        log_inv_rate as nat,
    );
    let ghost numer = per_query_err_numer(log_inv_rate as nat);
    let ghost r1 = (log_inv_rate + 1) as nat;
    proof {
        if log_inv_rate < 63 {
            lemma_pow2_strictly_increases(log_inv_rate as nat, 63);
        }
    }
    let half_denom: u64 = pow2_u64(log_inv_rate);
    let q: u64 = half_denom + 1;
    let mut budget = BigNat::pow2(gap);
    budget.sub_small(fixed);
    let mut power = BigNat::pow2(field_bits);
    let mut n: usize = 0;
    proof {
        lemma_pow0(numer);
        assert(r1 * 0 == 0);
        assert(power@ == pow(numer, 0) * pow2(field_bits as nat));
        assert(budget@ == allowed * pow2(r1 * 0));
    }
    while !power.le(&budget)
        invariant
            n <= 3 * field_bits,
            3 * field_bits <= usize::MAX,
            log_inv_rate >= 1,
            allowed >= 1,
            allowed == allowed_query_err_scaled(
                field_bits as nat,
                security_bits as nat,
                log_dim as nat,
                log_inv_rate as nat,
            ),
            numer == per_query_err_numer(log_inv_rate as nat),
            r1 == log_inv_rate + 1,
            q == numer,
            half_denom == pow2(log_inv_rate as nat),
            power@ == pow(numer, n as nat) * pow2(field_bits as nat),
            budget@ == allowed * pow2(r1 * (n as nat)),
            forall|k: nat|
                k < n ==> !#[trigger] queries_suffice(
                    field_bits as nat,
                    security_bits as nat,
                    log_dim as nat,
                    log_inv_rate as nat,
                    k,
                ),
        decreases 3 * field_bits - n,
    {
        proof {
            assert(!queries_suffice(
                field_bits as nat,
                security_bits as nat,
                log_dim as nat,
                log_inv_rate as nat,
                n as nat,
            ));
            // three queries for each bit of the field would suffice, so there are fewer
            assert(n < 3 * field_bits) by {
                lemma_three_per_bit_suffice(field_bits as nat, log_inv_rate as nat);
                let top = pow2(r1 * (3 * field_bits) as nat) as int;
                assert(top <= allowed * top) by (nonlinear_arith)
                    requires
                        allowed >= 1,
                        top >= 0,
                ;
            }
            // the invariant after one more query
            lemma2_to64();
            lemma_pow1(numer);
            lemma_pow_adds(numer, n as nat, 1);
            lemma_pow2_adds(r1 * (n as nat), log_inv_rate as nat);
            lemma_pow2_adds(r1 * (n as nat) + log_inv_rate as nat, 1);
            assert(r1 * (n as nat) + log_inv_rate as nat + 1 == r1 * ((n + 1) as nat))
                by (nonlinear_arith)
                requires
                    r1 == log_inv_rate + 1,
            ;
            let pn = pow(numer, n as nat);
            let f = pow2(field_bits as nat) as int;
            assert((pn * f) * numer == (pn * numer) * f) by (nonlinear_arith);
            let d = pow2(r1 * (n as nat)) as int;
            let h = half_denom as int;
            assert(((allowed * d) * h) * 2 == allowed * ((d * h) * 2)) by (nonlinear_arith);
        }
        power.mul_small(q);
        budget.mul_small(half_denom);
        budget.mul_small(2);
        n = n + 1;
    }
    proof {
        lemma_test_query_count_unique(
            field_bits as nat,
            security_bits as nat,
            log_dim as nat,
            log_inv_rate as nat,
            n as nat,
        );
    }
    Ok(n)
}

} // verus!
