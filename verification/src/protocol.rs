//! The rounds of the protocol as a state machine: which message follows which, as far as
//! the parameters decide it.
//!
//! The prover commits the first oracle, and then answers one challenge after another. The
//! challenges that follow oracle `k` fold it, `fold_arities[k]` of them, into the next
//! codeword, which is committed as oracle `k + 1` where there is one. The codeword that
//! the last arity leaves is the terminal codeword: it is sent in the clear once the final
//! challenges are consumed too. The verifier then makes its queries and accepts or
//! rejects.

use vstd::prelude::*;

use crate::params::{
    arity_sum,
    lemma_arity_sum_prefix,
    lemma_arity_sum_take_step,
    FRIParams,
    FRIParamsView,
};

verus! {

/// Where the protocol stands.
#[derive(Clone, Copy, Debug, PartialEq, Eq, Structural)]
pub enum Phase {
    /// Nothing is committed yet.
    Init,
    /// The first oracle is committed, and its challenges are being drawn.
    Committed,
    /// Oracle `round` is committed, and its challenges are being drawn.
    Folding { round: usize },
    /// Every challenge is drawn and the terminal codeword is sent.
    Terminated,
    /// Every check of the verifier passed.
    Accepted,
    /// A check of the verifier failed, or the proof has the wrong shape.
    Rejected,
}

/// The state of one run of the protocol.
#[derive(Clone, Copy, Debug, PartialEq, Eq, Structural)]
pub struct ProtocolState {
    /// Where the protocol stands.
    pub phase: Phase,
    /// How many folding challenges have been drawn.
    pub challenges: usize,
}

/// What happened since the last step.
#[derive(Clone, Copy, Debug, PartialEq, Eq, Structural)]
pub enum Event {
    /// The prover committed the first oracle.
    CodewordCommitted,
    /// The verifier drew a folding challenge.
    Challenge,
    /// The verifier made its checks: so many queries failed, and the terminal codeword
    /// does or does not lie in the code that is left.
    QueriesVerified { failed_queries: usize, terminal_codeword_valid: bool },
    /// The proof could not be read: a part of it is missing or has the wrong length.
    MalformedProof,
}

/// What is to be done next.
#[derive(Clone, Copy, Debug, PartialEq, Eq, Structural)]
pub enum Action {
    /// Draw the next folding challenge.
    DrawChallenge,
    /// Fold, commit the codeword of length `2^log_len` as oracle `oracle`, then draw the
    /// next folding challenge.
    CommitOracle { oracle: usize, log_len: usize },
    /// Send the terminal codeword of length `2^log_len` in the clear, then query
    /// `n_queries` positions of `index_bits` bits each.
    SendTerminalCodeword { log_len: usize, n_queries: usize, index_bits: usize },
    /// The run is over.
    Stop,
}

/// Why a step was refused.
#[derive(Clone, Copy, Debug, PartialEq, Eq, Structural)]
pub enum ProtocolError {
    /// The state cannot be reached with these parameters.
    InvalidState,
    /// The event cannot happen in this state.
    UnexpectedEvent,
}

/// The index of the oracle whose challenges are drawn in a phase.
pub open spec fn phase_oracle(phase: Phase) -> nat {
    match phase {
        Phase::Folding { round } => round as nat,
        _ => 0,
    }
}

/// The number of challenges after which oracle `k` is committed: the sum of the arities
/// of the oracles before it.
pub open spec fn oracle_commit_round(params: FRIParamsView, k: nat) -> nat {
    arity_sum(params.fold_arities.take(k as int))
}

/// The binary logarithm of the length of oracle `k`.
pub open spec fn oracle_log_len(params: FRIParamsView, k: nat) -> int {
    params.log_len() - oracle_commit_round(params, k)
}

/// The binary logarithm of the length of the terminal codeword.
pub open spec fn terminal_log_len(params: FRIParamsView) -> int {
    params.log_len() - arity_sum(params.fold_arities)
}

/// The number of queries that the verifier makes: none where nothing is folded.
pub open spec fn n_queries_made(params: FRIParamsView) -> nat {
    if params.n_oracles() == 0 {
        0
    } else {
        params.n_test_queries
    }
}

/// Whether every arity is positive.
pub open spec fn arities_positive(params: FRIParamsView) -> bool {
    forall|i: int| 0 <= i < params.fold_arities.len() ==> params.fold_arities[i] > 0
}

/// Whether a state can be reached from the initial one.
pub open spec fn state_wf(params: FRIParamsView, state: ProtocolState) -> bool {
    match state.phase {
        Phase::Init => state.challenges == 0,
        Phase::Committed | Phase::Folding { .. } => {
            let k = phase_oracle(state.phase);
            &&& state.phase is Folding ==> 1 <= k < params.n_oracles()
            &&& state.challenges < params.n_fold_rounds()
            &&& k < params.n_oracles() ==> oracle_commit_round(params, k) <= state.challenges
            &&& k + 1 < params.n_oracles() ==> state.challenges < oracle_commit_round(params, k + 1)
        },
        Phase::Terminated | Phase::Accepted | Phase::Rejected => state.challenges
            == params.n_fold_rounds(),
    }
}

/// The state and the action that follow an event, or the refusal of the event.
pub open spec fn spec_step(params: FRIParamsView, state: ProtocolState, event: Event) -> Result<
    (ProtocolState, Action),
    ProtocolError,
> {
    if !state_wf(params, state) {
        Err(ProtocolError::InvalidState)
    } else {
        spec_step_from(params, state, event)
    }
}

/// The state and the action that follow an event in a state that can be reached, or the
/// refusal of the event.
pub open spec fn spec_step_from(params: FRIParamsView, state: ProtocolState, event: Event) -> Result<
    (ProtocolState, Action),
    ProtocolError,
> {
    match (state.phase, event) {
        (Phase::Init, Event::CodewordCommitted) => Ok(
            (ProtocolState { phase: Phase::Committed, challenges: 0 }, Action::DrawChallenge),
        ),
        (Phase::Committed, Event::Challenge) | (Phase::Folding { .. }, Event::Challenge) => {
            let drawn = state.challenges + 1;
            let next = phase_oracle(state.phase) + 1;
            if drawn == params.n_fold_rounds() {
                Ok(
                    (
                        ProtocolState { phase: Phase::Terminated, challenges: drawn as usize },
                        Action::SendTerminalCodeword {
                            log_len: terminal_log_len(params) as usize,
                            n_queries: n_queries_made(params) as usize,
                            index_bits: params.index_bits() as usize,
                        },
                    ),
                )
            } else if next < params.n_oracles() && drawn == oracle_commit_round(params, next) {
                Ok(
                    (
                        ProtocolState {
                            phase: Phase::Folding { round: next as usize },
                            challenges: drawn as usize,
                        },
                        Action::CommitOracle {
                            oracle: next as usize,
                            log_len: oracle_log_len(params, next) as usize,
                        },
                    ),
                )
            } else {
                Ok(
                    (
                        ProtocolState { phase: state.phase, challenges: drawn as usize },
                        Action::DrawChallenge,
                    ),
                )
            }
        },
        (Phase::Terminated, Event::QueriesVerified { failed_queries, terminal_codeword_valid }) => {
            if failed_queries == 0 && terminal_codeword_valid {
                Ok((ProtocolState { phase: Phase::Accepted, challenges: state.challenges }, Action::Stop))
            } else {
                Ok((ProtocolState { phase: Phase::Rejected, challenges: state.challenges }, Action::Stop))
            }
        },
        (Phase::Terminated, Event::MalformedProof) => Ok(
            (ProtocolState { phase: Phase::Rejected, challenges: state.challenges }, Action::Stop),
        ),
        _ => Err(ProtocolError::UnexpectedEvent),
    }
}

/// In a state that can be reached, the challenges drawn so far are fewer than the first
/// oracle is long, and so are the lengths that an action names.
pub proof fn lemma_step_in_range(params: FRIParamsView, state: ProtocolState)
    requires
        params.wf(),
        state_wf(params, state),
    ensures
        state.challenges <= params.n_fold_rounds() <= params.log_len() <= usize::MAX,
        params.log_inv_rate < terminal_log_len(params) <= params.log_len(),
        0 <= params.index_bits() <= params.log_len(),
        forall|k: nat|
            k <= params.n_oracles() ==> params.log_inv_rate < #[trigger] oracle_log_len(params, k)
                <= params.log_len(),
{
    assert forall|k: nat| k <= params.n_oracles() implies params.log_inv_rate
        < #[trigger] oracle_log_len(params, k) <= params.log_len() by {
        lemma_arity_sum_prefix(params.fold_arities, k as int);
    }
    crate::params::lemma_round_structure(params);
}

/// A step leads from a state that can be reached to another, where every arity is
/// positive.
pub proof fn lemma_step_preserves_wf(params: FRIParamsView, state: ProtocolState, event: Event)
    requires
        params.wf(),
        arities_positive(params),
        spec_step(params, state, event) is Ok,
    ensures
        state_wf(params, spec_step(params, state, event)->Ok_0.0),
{
    lemma_step_in_range(params, state);
    let next = phase_oracle(state.phase) + 1;
    if next < params.n_oracles() {
        lemma_arity_sum_take_step(params.fold_arities, next as int);
        lemma_arity_sum_prefix(params.fold_arities, next as int);
    }
    if params.n_oracles() > 0 {
        assert(params.fold_arities.take(0) =~= Seq::<usize>::empty());
        lemma_arity_sum_take_step(params.fold_arities, 0);
    }
}

/// A run cannot get stuck: in every state that can be reached and is not final, an event
/// is accepted, and the events that are accepted are those that the phase waits for.
pub proof fn lemma_step_progress(params: FRIParamsView, state: ProtocolState, event: Event)
    requires
        state_wf(params, state),
    ensures
        spec_step(params, state, event) is Ok <==> match state.phase {
            Phase::Init => event is CodewordCommitted,
            Phase::Committed | Phase::Folding { .. } => event is Challenge,
            Phase::Terminated => event is QueriesVerified || event is MalformedProof,
            Phase::Accepted | Phase::Rejected => false,
        },
{
}

/// The commitments come in the order of the oracles, each after as many challenges as the
/// arities before it sum to, and each oracle is shorter than the first by one bit for
/// every challenge drawn; the terminal codeword is sent after the last challenge.
pub proof fn lemma_step_order(params: FRIParamsView, state: ProtocolState, event: Event)
    requires
        params.wf(),
        spec_step(params, state, event) is Ok,
    ensures
        ({
            let (next, action) = spec_step(params, state, event)->Ok_0;
            &&& next.challenges == state.challenges + (if event is Challenge {
                1int
            } else {
                0int
            })
            &&& action matches Action::CommitOracle { oracle, log_len } ==> {
                &&& oracle == phase_oracle(state.phase) + 1
                &&& next.phase == (Phase::Folding { round: oracle })
                &&& next.challenges == oracle_commit_round(params, oracle as nat)
                &&& log_len == params.log_len() - next.challenges
            }
            &&& action is SendTerminalCodeword <==> next.phase is Terminated
            &&& next.phase is Terminated ==> next.challenges == params.n_fold_rounds()
            &&& next.phase is Accepted <==> (event matches Event::QueriesVerified {
                failed_queries,
                terminal_codeword_valid,
            } && failed_queries == 0 && terminal_codeword_valid)
        }),
{
    lemma_step_in_range(params, state);
}

/// The index of the last oracle that is committed once `c` challenges are drawn.
pub open spec fn oracles_committed(params: FRIParamsView, c: nat) -> nat
    decreases c,
{
    if c == 0 {
        0
    } else {
        let k = oracles_committed(params, (c - 1) as nat);
        if k + 1 < params.n_oracles() && oracle_commit_round(params, k + 1) == c {
            k + 1
        } else {
            k
        }
    }
}

/// The state of a run in which the first oracle is committed and `c` challenges are drawn.
pub open spec fn state_after(params: FRIParamsView, c: nat) -> ProtocolState {
    if c >= params.n_fold_rounds() {
        ProtocolState { phase: Phase::Terminated, challenges: params.n_fold_rounds() as usize }
    } else if oracles_committed(params, c) == 0 {
        ProtocolState { phase: Phase::Committed, challenges: c as usize }
    } else {
        ProtocolState {
            phase: Phase::Folding { round: oracles_committed(params, c) as usize },
            challenges: c as usize,
        }
    }
}

/// The last oracle committed is one of the oracles.
pub proof fn lemma_oracles_committed_bound(params: FRIParamsView, c: nat)
    ensures
        oracles_committed(params, c) == 0 || oracles_committed(params, c) < params.n_oracles(),
    decreases c,
{
    if c > 0 {
        lemma_oracles_committed_bound(params, (c - 1) as nat);
    }
}

/// The commitments come later the later the oracle is, where every arity is positive.
pub proof fn lemma_commit_rounds_increase(params: FRIParamsView, j: nat, k: nat)
    requires
        arities_positive(params),
        j < k <= params.n_oracles(),
    ensures
        oracle_commit_round(params, j) < oracle_commit_round(params, k),
    decreases k - j,
{
    lemma_arity_sum_take_step(params.fold_arities, k - 1);
    if j + 1 < k {
        lemma_commit_rounds_increase(params, j, (k - 1) as nat);
    }
}

/// Every run goes through the same states: the commitment of the first oracle leads to
/// the state after no challenge, and each challenge leads from the state after `c`
/// challenges to the state after `c + 1`, which can be reached. After as many challenges
/// as there are fold rounds the run has terminated.
pub proof fn lemma_run(params: FRIParamsView, c: nat)
    requires
        params.wf(),
        arities_positive(params),
        c < params.n_fold_rounds(),
    ensures
        spec_step(
            params,
            ProtocolState { phase: Phase::Init, challenges: 0 },
            Event::CodewordCommitted,
        ) == Ok::<(ProtocolState, Action), ProtocolError>((state_after(params, 0), Action::DrawChallenge)),
        state_wf(params, state_after(params, c)),
        spec_step(params, state_after(params, c), Event::Challenge) is Ok,
        spec_step(params, state_after(params, c), Event::Challenge)->Ok_0.0 == state_after(
            params,
            c + 1,
        ),
        state_wf(params, state_after(params, c + 1)),
        state_after(params, params.n_fold_rounds()).phase is Terminated,
    decreases c,
{
    lemma_step_in_range(params, ProtocolState { phase: Phase::Init, challenges: 0 });
    lemma_oracles_committed_bound(params, c);
    lemma_oracles_committed_bound(params, c + 1);
    if c == 0 {
        assert(arity_sum(params.fold_arities.take(0)) == 0);
        if params.n_oracles() > 0 {
            lemma_arity_sum_take_step(params.fold_arities, 0);
        }
    } else {
        lemma_run(params, (c - 1) as nat);
    }
    lemma_step_preserves_wf(params, state_after(params, c), Event::Challenge);
}

/// Every oracle is committed, and exactly when as many challenges are drawn as the
/// arities before it sum to: after `c` challenges the oracles up to `k` are committed if
/// and only if `c` has reached the round of oracle `k`.
pub proof fn lemma_oracle_committed_when(params: FRIParamsView, c: nat, k: nat)
    requires
        params.wf(),
        arities_positive(params),
        c < params.n_fold_rounds(),
        k < params.n_oracles(),
    ensures
        (k <= oracles_committed(params, c)) == (oracle_commit_round(params, k) <= c),
        oracle_commit_round(params, k) < params.n_fold_rounds(),
{
    lemma_run(params, c);
    lemma_oracles_committed_bound(params, c);
    let m = oracles_committed(params, c);
    assert(state_wf(params, state_after(params, c)));
    assert(phase_oracle(state_after(params, c).phase) == m);
    lemma_arity_sum_prefix(params.fold_arities, k as int);
    if k < m {
        lemma_commit_rounds_increase(params, k, m);
    } else if k > m {
        if m + 1 < k {
            lemma_commit_rounds_increase(params, m + 1, k);
        }
    }
}

/// The sum of the arities of the oracles before oracle `k`.
fn arities_before(params: &FRIParams, k: usize) -> (r: usize)
    requires
        k <= params@.n_oracles(),
    ensures
        r == oracle_commit_round(params@, k as nat),
        params@.wf(),
{
    let fold_arities = params.fold_arities();
    let mut total: usize = 0;
    let mut i: usize = 0;
    proof {
        assert(arity_sum(fold_arities@.take(0)) == 0);
    }
    while i < k
        invariant
            i <= k <= fold_arities@.len(),
            fold_arities@ == params@.fold_arities,
            params@.wf(),
            total == arity_sum(fold_arities@.take(i as int)),
        decreases k - i,
    {
        proof {
            lemma_arity_sum_take_step(fold_arities@, i as int);
            lemma_arity_sum_prefix(fold_arities@, i + 1);
        }
        total = total + fold_arities[i];
        i = i + 1;
    }
    total
}

/// Whether a state can be reached with these parameters.
pub fn state_is_valid(params: &FRIParams, state: ProtocolState) -> (r: bool)
    ensures
        r == state_wf(params@, state),
        params@.wf(),
{
    let n_fold_rounds = params.n_fold_rounds();
    let n_oracles = params.n_oracles();
    match state.phase {
        Phase::Init => state.challenges == 0,
        Phase::Committed => {
            if state.challenges >= n_fold_rounds {
                return false;
            }
            if n_oracles > 1 && state.challenges >= arities_before(params, 1) {
                return false;
            }
            proof {
                assert(arity_sum(params@.fold_arities.take(0)) == 0);
            }
            true
        },
        Phase::Folding { round } => {
            if round < 1 || round >= n_oracles || state.challenges >= n_fold_rounds {
                return false;
            }
            if arities_before(params, round) > state.challenges {
                return false;
            }
            if round + 1 < n_oracles && state.challenges >= arities_before(params, round + 1) {
                return false;
            }
            true
        },
        Phase::Terminated => state.challenges == n_fold_rounds,
        Phase::Accepted => state.challenges == n_fold_rounds,
        Phase::Rejected => state.challenges == n_fold_rounds,
    }
}

/// The state at which every run begins.
pub fn initial_state() -> (r: ProtocolState)
    ensures
        r == (ProtocolState { phase: Phase::Init, challenges: 0 }),
{
    ProtocolState { phase: Phase::Init, challenges: 0 }
}

/// Takes one step: the state and the action that follow `event` in `state`.
///
/// Fails with [`ProtocolError::InvalidState`] where the state cannot be reached with
/// these parameters, and with [`ProtocolError::UnexpectedEvent`] where the event cannot
/// happen in the state.
pub fn step(params: &FRIParams, state: ProtocolState, event: Event) -> (r: Result<
    (ProtocolState, Action),
    ProtocolError,
>)
    ensures
        r == spec_step(params@, state, event),
{
    if !state_is_valid(params, state) {
        return Err(ProtocolError::InvalidState);
    }
    proof {
        lemma_step_in_range(params@, state);
    }
    match (state.phase, event) {
        (Phase::Init, Event::CodewordCommitted) => Ok(
            (ProtocolState { phase: Phase::Committed, challenges: 0 }, Action::DrawChallenge),
        ),
        (Phase::Committed, Event::Challenge) | (Phase::Folding { .. }, Event::Challenge) => {
            let drawn = state.challenges + 1;
            let oracle = match state.phase {
                Phase::Folding { round } => round,
                _ => 0,
            };
            let n_oracles = params.n_oracles();
            assert(oracle == phase_oracle(state.phase) && oracle <= n_oracles);
            let next = oracle + 1;
            if drawn == params.n_fold_rounds() {
                let folded = arities_before(params, n_oracles);
                proof {
                    assert(params@.fold_arities.take(n_oracles as int) =~= params@.fold_arities);
                }
                let n_queries = if n_oracles == 0 {
                    0
                } else {
                    params.n_test_queries()
                };
                Ok(
                    (
                        ProtocolState { phase: Phase::Terminated, challenges: drawn },
                        Action::SendTerminalCodeword {
                            log_len: params.log_len() - folded,
                            n_queries,
                            index_bits: params.index_bits(),
                        },
                    ),
                )
            } else if next < n_oracles && drawn == arities_before(params, next) {
                Ok(
                    (
                        ProtocolState { phase: Phase::Folding { round: next }, challenges: drawn },
                        Action::CommitOracle { oracle: next, log_len: params.log_len() - drawn },
                    ),
                )
            } else {
                Ok((ProtocolState { phase: state.phase, challenges: drawn }, Action::DrawChallenge))
            }
        },
        (Phase::Terminated, Event::QueriesVerified { failed_queries, terminal_codeword_valid }) => {
            if failed_queries == 0 && terminal_codeword_valid {
                Ok((ProtocolState { phase: Phase::Accepted, challenges: state.challenges }, Action::Stop))
            } else {
                Ok((ProtocolState { phase: Phase::Rejected, challenges: state.challenges }, Action::Stop))
            }
        },
        (Phase::Terminated, Event::MalformedProof) => Ok(
            (ProtocolState { phase: Phase::Rejected, challenges: state.challenges }, Action::Stop),
        ),
        _ => Err(ProtocolError::UnexpectedEvent),
    }
}

} // verus!
