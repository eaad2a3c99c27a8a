//! The parameters of one instance of the FRI protocol, and how they are chosen.

use vstd::prelude::*;

use crate::error::Error;
use crate::log2::{log2_ceil, log2_ceil_usize};
use crate::queries::{calculate_n_test_queries, query_budget_positive, test_query_count};
use crate::reed_solomon::{code_shape_valid, ReedSolomonCode};

verus! {

/// The sum of a sequence of fold arities.
pub open spec fn arity_sum(s: Seq<usize>) -> nat
    decreases s.len(),
{
    if s.len() == 0 {
        0
    } else {
        arity_sum(s.drop_last()) + s.last() as nat
    }
}

/// The sum of the first `i + 1` arities is that of the first `i` and the arity at `i`.
pub proof fn lemma_arity_sum_take_step(s: Seq<usize>, i: int)
    requires
        0 <= i < s.len(),
    ensures
        arity_sum(s.take(i + 1)) == arity_sum(s.take(i)) + s[i] as nat,
{
    assert(s.take(i + 1).drop_last() =~= s.take(i));
}

/// The arities up to any point sum to at most the sum of all.
pub proof fn lemma_arity_sum_prefix(s: Seq<usize>, i: int)
    requires
        0 <= i <= s.len(),
    ensures
        arity_sum(s.take(i)) <= arity_sum(s),
    decreases s.len() - i,
{
    if i == s.len() {
        assert(s.take(i) =~= s);
    } else {
        lemma_arity_sum_take_step(s, i);
        lemma_arity_sum_prefix(s, i + 1);
    }
}

/// A sequence of `count` arities that are all `arity` sums to `count * arity`.
pub proof fn lemma_arity_sum_constant(s: Seq<usize>, arity: usize)
    requires
        forall|i: int| 0 <= i < s.len() ==> s[i] == arity,
    ensures
        arity_sum(s) == s.len() * arity,
    decreases s.len(),
{
    if s.len() > 0 {
        lemma_arity_sum_constant(s.drop_last(), arity);
        assert((s.len() - 1) * arity + arity == s.len() * arity) by (nonlinear_arith);
    }
}

/// What a value of [`FRIParams`] holds.
pub struct FRIParamsView {
    /// The binary logarithm of the dimension of the Reed–Solomon code.
    pub log_dim: nat,
    /// The binary logarithm of the inverse rate of the Reed–Solomon code.
    pub log_inv_rate: nat,
    /// The binary logarithm of the number of interleaved codewords.
    pub log_batch_size: nat,
    /// The number of bits that each oracle is folded by, in the order of the oracles.
    pub fold_arities: Seq<usize>,
    /// The number of positions that the verifier queries.
    pub n_test_queries: nat,
}

impl FRIParamsView {
    /// The number of fold rounds, one for each variable of the batched message.
    pub open spec fn n_fold_rounds(self) -> nat {
        self.log_dim + self.log_batch_size
    }

    /// The number of oracles sent during the fold rounds.
    pub open spec fn n_oracles(self) -> nat {
        self.fold_arities.len()
    }

    /// The binary logarithm of the length of the first oracle.
    pub open spec fn log_len(self) -> nat {
        self.log_dim + self.log_inv_rate + self.log_batch_size
    }

    /// The number of bits in a query index; zero where nothing is folded.
    pub open spec fn index_bits(self) -> int {
        if self.fold_arities.len() == 0 {
            0
        } else {
            self.log_len() - self.fold_arities[0]
        }
    }

    /// The number of challenges that follow the last oracle.
    pub open spec fn n_final_challenges(self) -> int {
        self.n_fold_rounds() - arity_sum(self.fold_arities)
    }

    /// The invariant of the parameters: the code's block length and the first oracle's
    /// length can be indexed, the oracles can be counted, and the arities leave at least
    /// one fold round for the end.
    pub open spec fn wf(self) -> bool {
        &&& code_shape_valid(self.log_dim, self.log_inv_rate)
        &&& self.log_len() <= usize::MAX
        &&& self.fold_arities.len() <= usize::MAX
        &&& arity_sum(self.fold_arities) < self.n_fold_rounds()
    }
}

/// What [`FRIParams::new`] returns.
pub open spec fn fri_params_new(
    log_dim: nat,
    log_inv_rate: nat,
    log_batch_size: nat,
    fold_arities: Seq<usize>,
    n_test_queries: nat,
) -> Result<FRIParamsView, Error> {
    if arity_sum(fold_arities) >= log_dim + log_batch_size {
        Err(Error::InvalidFoldAritySequence)
    } else {
        Ok(FRIParamsView { log_dim, log_inv_rate, log_batch_size, fold_arities, n_test_queries })
    }
}

/// Building parameters anew from the fields of valid parameters gives the same parameters,
/// and so the same rounds, oracles, index width and final challenges.
pub proof fn lemma_rederive_same_params(p: FRIParamsView)
    requires
        p.wf(),
    ensures
        fri_params_new(
            p.log_dim,
            p.log_inv_rate,
            p.log_batch_size,
            p.fold_arities,
            p.n_test_queries,
        ) == Ok::<FRIParamsView, Error>(p),
{
}

/// In valid parameters the arities and the final challenges together make up the fold
/// rounds, at least one challenge is final, and a query index is no wider than the first
/// oracle is long.
pub proof fn lemma_round_structure(p: FRIParamsView)
    requires
        p.wf(),
    ensures
        arity_sum(p.fold_arities) + p.n_final_challenges() == p.n_fold_rounds(),
        p.n_final_challenges() >= 1,
        0 <= p.index_bits() <= p.log_len(),
        p.n_oracles() > 0 ==> p.index_bits() >= p.log_inv_rate + p.n_final_challenges(),
{
    if p.fold_arities.len() > 0 {
        lemma_arity_sum_prefix(p.fold_arities, 1);
        lemma_arity_sum_take_step(p.fold_arities, 0);
        assert(arity_sum(p.fold_arities.take(0)) == 0);
    }
}

/// How often a constant arity is repeated: as often as it fits into the message's variables
/// once `max(0, cap_height - log_inv_rate)` of them are set aside, where `cap_height` is
/// the least height of a Merkle cap that holds one node for each query.
pub open spec fn constant_arity_rounds(
    log_msg_len: nat,
    log_inv_rate: nat,
    arity: nat,
    n_test_queries: nat,
) -> nat {
    let cap_height = log2_ceil(n_test_queries);
    let reserved = if cap_height > log_inv_rate {
        cap_height - log_inv_rate
    } else {
        0
    };
    let foldable = if log_msg_len > reserved {
        log_msg_len - reserved
    } else {
        0
    };
    (foldable / arity as int) as nat
}

/// What [`FRIParams::choose_with_constant_fold_arity`] returns.
///
/// The code and the query count are first taken for a batch of `2^min(log_msg_len, arity)`
/// codewords. Where the arity is then not repeated even once, the whole message becomes
/// one batch of codewords of the repetition code; the query count stays as it was
/// computed, and no query is made with such parameters.
pub open spec fn fri_params_choose(
    field_bits: nat,
    log_domain_size: nat,
    log_msg_len: nat,
    security_bits: nat,
    log_inv_rate: nat,
    arity: usize,
) -> Result<FRIParamsView, Error> {
    let log_dim = if log_msg_len > arity {
        (log_msg_len - arity) as nat
    } else {
        0
    };
    let log_batch_size = if log_msg_len < arity {
        log_msg_len
    } else {
        arity as nat
    };
    if !(code_shape_valid(log_dim, log_inv_rate) && log_dim + log_inv_rate <= log_domain_size) {
        Err(Error::CodeLengthOutOfRange)
    } else if !query_budget_positive(field_bits, security_bits, log_dim, log_inv_rate) {
        Err(Error::ParameterError)
    } else {
        let n_test_queries = test_query_count(field_bits, security_bits, log_dim, log_inv_rate);
        let rounds = constant_arity_rounds(log_msg_len, log_inv_rate, arity as nat, n_test_queries);
        if rounds == 0 {
            fri_params_new(0, log_inv_rate, log_msg_len, Seq::empty(), n_test_queries)
        } else {
            fri_params_new(
                log_dim,
                log_inv_rate,
                log_batch_size,
                Seq::new(rounds, |i: int| arity),
                n_test_queries,
            )
        }
    }
}

/// Parameters chosen for a constant arity are rebuilt unchanged from their own code, batch
/// size, arities and query count: choosing and then building anew gives the same rounds.
pub proof fn lemma_choose_then_rederive(
    field_bits: nat,
    log_domain_size: nat,
    log_msg_len: nat,
    security_bits: nat,
    log_inv_rate: nat,
    arity: usize,
)
    requires
        fri_params_choose(
            field_bits,
            log_domain_size,
            log_msg_len,
            security_bits,
            log_inv_rate,
            arity,
        ) is Ok,
    ensures
        ({
            let v = fri_params_choose(
                field_bits,
                log_domain_size,
                log_msg_len,
                security_bits,
                log_inv_rate,
                arity,
            )->Ok_0;
            fri_params_new(
                v.log_dim,
                v.log_inv_rate,
                v.log_batch_size,
                v.fold_arities,
                v.n_test_queries,
            ) == Ok::<FRIParamsView, Error>(v)
        }),
{
}

/// A constant arity is repeated as late into the protocol as the Merkle caps allow: the
/// codeword that is left after the last fold is at least `2^cap_height` long wherever the
/// first oracle is, and one more fold would leave it shorter than that, or fold more
/// variables than the message has.
pub proof fn lemma_constant_arity_terminates_late(
    log_msg_len: nat,
    log_inv_rate: nat,
    arity: nat,
    n_test_queries: nat,
)
    requires
        arity > 0,
    ensures
        ({
            let rounds = constant_arity_rounds(log_msg_len, log_inv_rate, arity, n_test_queries);
            let cap_height = log2_ceil(n_test_queries);
            let log_len = log_msg_len + log_inv_rate;
            &&& rounds * arity <= log_msg_len
            &&& log_len >= cap_height ==> log_len - rounds * arity >= cap_height
            &&& log_len - (rounds + 1) * arity < cap_height || (rounds + 1) * arity > log_msg_len
        }),
{
    let cap_height = log2_ceil(n_test_queries);
    let reserved: int = if cap_height > log_inv_rate {
        cap_height - log_inv_rate
    } else {
        0
    };
    let foldable: int = if log_msg_len > reserved {
        log_msg_len - reserved
    } else {
        0
    };
    let rounds = foldable / arity as int;
    vstd::arithmetic::div_mod::lemma_fundamental_div_mod(foldable, arity as int);
    vstd::arithmetic::div_mod::lemma_mod_bound(foldable, arity as int);
    vstd::arithmetic::div_mod::lemma_div_pos_is_pos(foldable, arity as int);
    assert((rounds + 1) * arity == rounds * arity + arity) by (nonlinear_arith);
    assert(rounds * arity == arity * rounds) by (nonlinear_arith);
}

/// What a choice with a constant arity gives: parameters whose fold rounds are the
/// variables of the message, whose arities are all the given one, and whose code is the
/// repetition code where there is no arity at all; or the error of a
/// sequence that is too long, where the repetitions fold every variable, which they do
/// only for an empty message or where nothing is set aside for the Merkle cap.
pub proof fn lemma_choose_outcome(
    field_bits: nat,
    log_domain_size: nat,
    log_msg_len: nat,
    security_bits: nat,
    log_inv_rate: nat,
    arity: usize,
)
    requires
        arity > 0,
    ensures
        match fri_params_choose(
            field_bits,
            log_domain_size,
            log_msg_len,
            security_bits,
            log_inv_rate,
            arity,
        ) {
            Ok(v) => {
                let first_log_dim = if log_msg_len > arity {
                    (log_msg_len - arity) as nat
                } else {
                    0
                };
                &&& v.n_fold_rounds() == log_msg_len
                &&& v.log_len() == log_msg_len + log_inv_rate
                &&& v.log_inv_rate == log_inv_rate
                &&& v.log_dim == (if v.n_oracles() == 0 {
                    0
                } else {
                    first_log_dim
                })
                &&& query_budget_positive(field_bits, security_bits, first_log_dim, log_inv_rate)
                &&& v.n_test_queries == test_query_count(
                    field_bits,
                    security_bits,
                    first_log_dim,
                    log_inv_rate,
                )
                &&& v.n_oracles() == constant_arity_rounds(
                    log_msg_len,
                    log_inv_rate,
                    arity as nat,
                    v.n_test_queries,
                )
                &&& forall|i: int| 0 <= i < v.n_oracles() ==> v.fold_arities[i] == arity
                &&& arity_sum(v.fold_arities) == v.n_oracles() * arity
                &&& v.n_oracles() * arity < log_msg_len
            },
            Err(e) => e == Error::InvalidFoldAritySequence ==> {
                let log_dim = if log_msg_len > arity {
                    (log_msg_len - arity) as nat
                } else {
                    0
                };
                let n = test_query_count(field_bits, security_bits, log_dim, log_inv_rate);
                &&& log_msg_len == 0 || log2_ceil(n) <= log_inv_rate
                &&& constant_arity_rounds(log_msg_len, log_inv_rate, arity as nat, n) * arity
                    == log_msg_len
            },
        },
{
    let log_dim = if log_msg_len > arity {
        (log_msg_len - arity) as nat
    } else {
        0
    };
    let n = test_query_count(field_bits, security_bits, log_dim, log_inv_rate);
    let rounds = constant_arity_rounds(log_msg_len, log_inv_rate, arity as nat, n);
    lemma_arity_sum_constant(Seq::new(rounds, |i: int| arity), arity);
    lemma_constant_arity_terminates_late(log_msg_len, log_inv_rate, arity as nat, n);
    if log2_ceil(n) > log_inv_rate && rounds * arity == log_msg_len {
        assert((rounds + 1) * arity == rounds * arity + arity) by (nonlinear_arith);
    }
}

/// The sum of the arities, where a `usize` can hold it.
fn sum_arities(fold_arities: &Vec<usize>) -> (r: Option<usize>)
    ensures
        arity_sum(fold_arities@) <= usize::MAX ==> r == Some(arity_sum(fold_arities@) as usize),
        arity_sum(fold_arities@) > usize::MAX ==> r.is_none(),
        fold_arities@.len() <= usize::MAX,
{
    let n = fold_arities.len();
    let mut total: usize = 0;
    let mut i: usize = 0;
    proof {
        assert(arity_sum(fold_arities@.take(0)) == 0);
    }
    while i < n
        invariant
            i <= n == fold_arities@.len(),
            total == arity_sum(fold_arities@.take(i as int)),
        decreases n - i,
    {
        proof {
            lemma_arity_sum_take_step(fold_arities@, i as int);
            lemma_arity_sum_prefix(fold_arities@, i + 1);
        }
        match total.checked_add(fold_arities[i]) {
            Some(t) => {
                total = t;
            },
            None => {
                return None;
            },
        }
        i = i + 1;
    }
    proof {
        assert(fold_arities@.take(i as int) =~= fold_arities@);
    }
    Some(total)
}

/// Parameters of an FRI interleaved code proximity protocol.
#[derive(Debug)]
pub struct FRIParams {
    /// The Reed–Solomon code the verifier is testing proximity to.
    rs_code: ReedSolomonCode,
    /// The binary logarithm of the number of interleaved codewords.
    log_batch_size: usize,
    /// The reduction arities between each oracle sent to the verifier.
    fold_arities: Vec<usize>,
    /// The number of oracle consistency queries required during the query phase.
    n_test_queries: usize,
}

impl View for FRIParams {
    type V = FRIParamsView;

    closed spec fn view(&self) -> FRIParamsView {
        FRIParamsView {
            log_dim: self.rs_code.spec_log_dim(),
            log_inv_rate: self.rs_code.spec_log_inv_rate(),
            log_batch_size: self.log_batch_size as nat,
            fold_arities: self.fold_arities@,
            n_test_queries: self.n_test_queries as nat,
        }
    }
}

impl FRIParams {
    #[verifier::type_invariant]
    spec fn inv(self) -> bool {
        self@.wf()
    }

    /// Parameters with the given code, batch size, arities and query count.
    ///
    /// Fails with [`Error::InvalidFoldAritySequence`] exactly when the arities sum to at
    /// least `rs_code.log_dim() + log_batch_size`.
    pub fn new(
        rs_code: ReedSolomonCode,
        log_batch_size: usize,
        fold_arities: Vec<usize>,
        n_test_queries: usize,
    ) -> (r: Result<FRIParams, Error>)
        requires
            rs_code.spec_log_len() + log_batch_size <= usize::MAX,
        ensures
            match fri_params_new(
                rs_code.spec_log_dim(),
                rs_code.spec_log_inv_rate(),
                log_batch_size as nat,
                fold_arities@,
                n_test_queries as nat,
            ) {
                Ok(v) => r is Ok && r->Ok_0@ == v && v.wf(),
                Err(e) => r is Err && r->Err_0 == e,
            },
    {
        let n_fold_rounds = rs_code.log_dim() + log_batch_size;
        match sum_arities(&fold_arities) {
            Some(total) => {
                if total >= n_fold_rounds {
                    return Err(Error::InvalidFoldAritySequence);
                }
            },
            None => {
                return Err(Error::InvalidFoldAritySequence);
            },
        }
        Ok(FRIParams { rs_code, log_batch_size, fold_arities, n_test_queries })
    }

    /// Choose commit parameters based on protocol parameters, using a constant fold arity.
    ///
    /// The arity is repeated as often as the Merkle caps allow. Where that is not even
    /// once, the whole message is committed as one batch of codewords of the repetition
    /// code, and the query count is the one computed before that was known.
    ///
    /// ## Arguments
    ///
    /// * `field_bits` - the binary logarithm of the size of the field that challenges are
    ///   drawn from.
    /// * `log_domain_size` - the binary logarithm of the size of the evaluation domain.
    /// * `log_msg_len` - the binary logarithm of the length of the message to commit.
    /// * `security_bits` - the target security level in bits.
    /// * `log_inv_rate` - the binary logarithm of the inverse Reed–Solomon code rate.
    /// * `arity` - the folding arity.
    pub fn choose_with_constant_fold_arity(
        field_bits: usize,
        log_domain_size: usize,
        log_msg_len: usize,
        security_bits: usize,
        log_inv_rate: usize,
        arity: usize,
    ) -> (r: Result<FRIParams, Error>)
        requires
            arity > 0,
            3 * field_bits <= usize::MAX,
            log_msg_len + log_inv_rate <= usize::MAX,
        ensures
            match fri_params_choose(
                field_bits as nat,
                log_domain_size as nat,
                log_msg_len as nat,
                security_bits as nat,
                log_inv_rate as nat,
                arity,
            ) {
                Ok(v) => r is Ok && r->Ok_0@ == v && v.wf(),
                Err(e) => r is Err && r->Err_0 == e,
            },
    {
        let log_dim = log_msg_len.saturating_sub(arity);
        let log_batch_size = if log_msg_len < arity {
            log_msg_len
        } else {
            arity
        };
        let rs_code = match ReedSolomonCode::with_ntt_subspace(log_domain_size, log_dim, log_inv_rate) {
            Ok(code) => code,
            Err(e) => {
                return Err(e);
            },
        };
        let n_test_queries = match calculate_n_test_queries(field_bits, security_bits, &rs_code) {
            Ok(n) => n,
            Err(e) => {
                return Err(e);
            },
        };
        let cap_height = log2_ceil_usize(n_test_queries);
        let rounds = log_msg_len.saturating_sub(cap_height.saturating_sub(log_inv_rate)) / arity;
        let mut fold_arities: Vec<usize> = Vec::new();
        let mut i: usize = 0;
        while i < rounds
            invariant
                i <= rounds,
                fold_arities.len() == i,
                forall|j: int| 0 <= j < i ==> fold_arities[j] == arity,
            decreases rounds - i,
        {
            fold_arities.push(arity);
            i = i + 1;
        }
        proof {
            assert(fold_arities@ =~= Seq::new(rounds as nat, |i: int| arity));
            if rounds == 0 {
                assert(fold_arities@ =~= Seq::<usize>::empty());
            }
        }
        if rounds == 0 {
            // nothing is folded: the whole message is one batch of repetition codewords
            FRIParams::new(rs_code.repetition(), log_msg_len, fold_arities, n_test_queries)
        } else {
            FRIParams::new(rs_code, log_batch_size, fold_arities, n_test_queries)
        }
    }

    /// The Reed–Solomon code the verifier is testing proximity to.
    pub fn rs_code(&self) -> (r: &ReedSolomonCode)
        ensures
            r.spec_log_dim() == self@.log_dim,
            r.spec_log_inv_rate() == self@.log_inv_rate,
            self@.wf(),
    {
        proof {
            use_type_invariant(self);
        }
        &self.rs_code
    }

    /// The binary logarithm of the number of interleaved codewords.
    pub fn log_batch_size(&self) -> (r: usize)
        ensures
            r == self@.log_batch_size,
            self@.wf(),
    {
        proof {
            use_type_invariant(self);
        }
        self.log_batch_size
    }

    /// The number of oracle consistency queries required during the query phase.
    pub fn n_test_queries(&self) -> (r: usize)
        ensures
            r == self@.n_test_queries,
            self@.wf(),
    {
        proof {
            use_type_invariant(self);
        }
        self.n_test_queries
    }

    /// The number of fold rounds.
    pub fn n_fold_rounds(&self) -> (r: usize)
        ensures
            r == self@.n_fold_rounds(),
            self@.wf(),
    {
        proof {
            use_type_invariant(self);
        }
        self.rs_code.log_dim() + self.log_batch_size
    }

    /// Number of oracles sent during the fold rounds.
    pub fn n_oracles(&self) -> (r: usize)
        ensures
            r == self@.n_oracles(),
            self@.wf(),
    {
        proof {
            use_type_invariant(self);
        }
        self.fold_arities.len()
    }

    /// Number of bits in the query indices sampled during the query phase.
    pub fn index_bits(&self) -> (r: usize)
        ensures
            r == self@.index_bits(),
            self@.wf(),
    {
        proof {
            use_type_invariant(self);
            lemma_round_structure(self@);
        }
        if self.fold_arities.len() == 0 {
            // If there is no folding, there are no random queries either
            0
        } else {
            self.log_len() - self.fold_arities[0]
        }
    }

    /// Number of folding challenges the verifier sends after receiving the last oracle.
    pub fn n_final_challenges(&self) -> (r: usize)
        ensures
            r == self@.n_final_challenges(),
            r >= 1,
            self@.wf(),
    {
        proof {
            use_type_invariant(self);
            assert(arity_sum(self.fold_arities@.take(0)) == 0);
        }
        let mut left = self.n_fold_rounds();
        let mut i: usize = 0;
        while i < self.fold_arities.len()
            invariant
                i <= self.fold_arities.len(),
                self@.wf(),
                self@.fold_arities == self.fold_arities@,
                left == self@.n_fold_rounds() - arity_sum(self.fold_arities@.take(i as int)),
            decreases self.fold_arities.len() - i,
        {
            proof {
                lemma_arity_sum_take_step(self.fold_arities@, i as int);
                lemma_arity_sum_prefix(self.fold_arities@, i + 1);
            }
            left = left - self.fold_arities[i];
            i = i + 1;
        }
        proof {
            assert(self.fold_arities@.take(i as int) =~= self.fold_arities@);
        }
        left
    }

    /// The reduction arities between each oracle sent to the verifier.
    pub fn fold_arities(&self) -> (r: &[usize])
        ensures
            r@ == self@.fold_arities,
            self@.wf(),
    {
        proof {
            use_type_invariant(self);
        }
        self.fold_arities.as_slice()
    }

    /// The binary logarithm of the length of the initial oracle.
    pub fn log_len(&self) -> (r: usize)
        ensures
            r == self@.log_len(),
            self@.wf(),
    {
        proof {
            use_type_invariant(self);
        }
        self.rs_code.log_len() + self.log_batch_size
    }
}

} // verus!
