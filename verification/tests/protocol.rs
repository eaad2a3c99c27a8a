use binius_fri::params::FRIParams;
use binius_fri::protocol::{
    initial_state, state_is_valid, step, Action, Event, Phase, ProtocolError, ProtocolState,
};
use binius_fri::query::{query_openings, QueryOpening};
use binius_fri::reed_solomon::ReedSolomonCode;

fn chosen_params() -> FRIParams {
    FRIParams::choose_with_constant_fold_arity(128, 32, 20, 96, 1, 4).unwrap()
}

/// Runs the fold phase to its end and returns the actions in their order.
fn run_fold_phase(params: &FRIParams) -> (ProtocolState, Vec<Action>) {
    let mut actions = Vec::new();
    let (mut state, action) = step(params, initial_state(), Event::CodewordCommitted).unwrap();
    actions.push(action);
    while state.phase != Phase::Terminated {
        assert!(state_is_valid(params, state));
        let (next, action) = step(params, state, Event::Challenge).unwrap();
        assert_eq!(next.challenges, state.challenges + 1);
        actions.push(action);
        state = next;
    }
    (state, actions)
}

#[test]
fn test_run_of_the_fold_phase() {
    let params = chosen_params();
    let (state, actions) = run_fold_phase(&params);
    assert_eq!(state, ProtocolState { phase: Phase::Terminated, challenges: 20 });
    // one action after the commitment and one after each of the 20 challenges
    assert_eq!(actions.len(), 21);
    for (i, action) in actions.iter().enumerate() {
        let expected = match i {
            4 => Action::CommitOracle { oracle: 1, log_len: 17 },
            8 => Action::CommitOracle { oracle: 2, log_len: 13 },
            20 => Action::SendTerminalCodeword { log_len: 9, n_queries: 232, index_bits: 17 },
            _ => Action::DrawChallenge,
        };
        assert_eq!(*action, expected, "after {i} challenges");
    }
}

#[test]
fn test_phases_of_the_fold_phase() {
    let params = chosen_params();
    let (state, _) = step(&params, initial_state(), Event::CodewordCommitted).unwrap();
    assert_eq!(state, ProtocolState { phase: Phase::Committed, challenges: 0 });
    let mut state = state;
    for drawn in 1..20 {
        state = step(&params, state, Event::Challenge).unwrap().0;
        let phase = if drawn < 4 {
            Phase::Committed
        } else if drawn < 8 {
            Phase::Folding { round: 1 }
        } else {
            Phase::Folding { round: 2 }
        };
        assert_eq!(state, ProtocolState { phase, challenges: drawn });
    }
}

#[test]
fn test_run_with_uneven_arities() {
    let code = ReedSolomonCode::new(6, 2).unwrap();
    let params = FRIParams::new(code, 2, vec![3, 1, 2], 10).unwrap();
    let (state, actions) = run_fold_phase(&params);
    assert_eq!(state.challenges, 8);
    let commits: Vec<(usize, Action)> = actions
        .iter()
        .copied()
        .enumerate()
        .filter(|(_, a)| *a != Action::DrawChallenge)
        .collect();
    assert_eq!(
        commits,
        vec![
            (3, Action::CommitOracle { oracle: 1, log_len: 7 }),
            (4, Action::CommitOracle { oracle: 2, log_len: 6 }),
            (8, Action::SendTerminalCodeword { log_len: 4, n_queries: 10, index_bits: 7 }),
        ]
    );
}

#[test]
fn test_run_without_folding() {
    let code = ReedSolomonCode::new(0, 1).unwrap();
    let params = FRIParams::new(code, 3, vec![], 232).unwrap();
    let (state, actions) = run_fold_phase(&params);
    assert_eq!(state, ProtocolState { phase: Phase::Terminated, challenges: 3 });
    assert_eq!(
        actions,
        vec![
            Action::DrawChallenge,
            Action::DrawChallenge,
            Action::DrawChallenge,
            // the whole codeword is sent, and nothing is queried
            Action::SendTerminalCodeword { log_len: 4, n_queries: 0, index_bits: 0 },
        ]
    );
}

#[test]
fn test_verdict() {
    let params = chosen_params();
    let (terminated, _) = run_fold_phase(&params);
    let accept = Event::QueriesVerified { failed_queries: 0, terminal_codeword_valid: true };
    assert_eq!(
        step(&params, terminated, accept),
        Ok((ProtocolState { phase: Phase::Accepted, challenges: 20 }, Action::Stop))
    );
    for event in [
        Event::QueriesVerified { failed_queries: 1, terminal_codeword_valid: true },
        Event::QueriesVerified { failed_queries: 0, terminal_codeword_valid: false },
        Event::QueriesVerified { failed_queries: 232, terminal_codeword_valid: false },
        Event::MalformedProof,
    ] {
        assert_eq!(
            step(&params, terminated, event),
            Ok((ProtocolState { phase: Phase::Rejected, challenges: 20 }, Action::Stop))
        );
    }
}

#[test]
fn test_unexpected_events() {
    let params = chosen_params();
    let accept = Event::QueriesVerified { failed_queries: 0, terminal_codeword_valid: true };
    let init = initial_state();
    assert_eq!(step(&params, init, Event::Challenge), Err(ProtocolError::UnexpectedEvent));
    assert_eq!(step(&params, init, accept), Err(ProtocolError::UnexpectedEvent));
    assert_eq!(step(&params, init, Event::MalformedProof), Err(ProtocolError::UnexpectedEvent));

    let committed = ProtocolState { phase: Phase::Committed, challenges: 2 };
    assert_eq!(step(&params, committed, Event::CodewordCommitted), Err(ProtocolError::UnexpectedEvent));
    assert_eq!(step(&params, committed, accept), Err(ProtocolError::UnexpectedEvent));

    let (terminated, _) = run_fold_phase(&params);
    assert_eq!(step(&params, terminated, Event::Challenge), Err(ProtocolError::UnexpectedEvent));

    // nothing follows a verdict
    for phase in [Phase::Accepted, Phase::Rejected] {
        let state = ProtocolState { phase, challenges: 20 };
        for event in [Event::CodewordCommitted, Event::Challenge, accept, Event::MalformedProof] {
            assert_eq!(step(&params, state, event), Err(ProtocolError::UnexpectedEvent));
        }
    }
}

#[test]
fn test_invalid_states() {
    let params = chosen_params();
    for state in [
        ProtocolState { phase: Phase::Init, challenges: 1 },
        // oracle 1 is committed after 4 challenges
        ProtocolState { phase: Phase::Committed, challenges: 4 },
        ProtocolState { phase: Phase::Folding { round: 1 }, challenges: 3 },
        ProtocolState { phase: Phase::Folding { round: 1 }, challenges: 8 },
        ProtocolState { phase: Phase::Folding { round: 0 }, challenges: 1 },
        ProtocolState { phase: Phase::Folding { round: 3 }, challenges: 13 },
        ProtocolState { phase: Phase::Folding { round: 2 }, challenges: 20 },
        ProtocolState { phase: Phase::Terminated, challenges: 19 },
        ProtocolState { phase: Phase::Accepted, challenges: 0 },
        ProtocolState { phase: Phase::Rejected, challenges: 21 },
    ] {
        assert!(!state_is_valid(&params, state), "{state:?}");
        assert_eq!(step(&params, state, Event::Challenge), Err(ProtocolError::InvalidState));
    }
    for state in [
        ProtocolState { phase: Phase::Init, challenges: 0 },
        ProtocolState { phase: Phase::Committed, challenges: 3 },
        ProtocolState { phase: Phase::Folding { round: 1 }, challenges: 4 },
        ProtocolState { phase: Phase::Folding { round: 2 }, challenges: 19 },
        ProtocolState { phase: Phase::Terminated, challenges: 20 },
    ] {
        assert!(state_is_valid(&params, state), "{state:?}");
    }
}

#[test]
fn test_query_openings() {
    let params = chosen_params();
    let index = 0b1_0110_0111_0001_0101usize;
    assert_eq!(
        query_openings(&params, index),
        vec![
            QueryOpening { coset_index: 0b1_0110_0111_0001_0101, offset: 0 },
            QueryOpening { coset_index: 0b1_0110_0111_0001, offset: 0b0101 },
            QueryOpening { coset_index: 0b1_0110_0111, offset: 0b0001 },
        ]
    );
    assert_eq!(
        query_openings(&params, 0),
        vec![QueryOpening { coset_index: 0, offset: 0 }; 3]
    );
}

#[test]
fn test_query_openings_stay_in_range() {
    let code = ReedSolomonCode::new(6, 2).unwrap();
    let params = FRIParams::new(code, 2, vec![3, 1, 2], 10).unwrap();
    // oracle lengths 2^10, 2^7, 2^6 in cosets of 2^3, 2^1, 2^2 symbols
    let n_cosets = [1usize << 7, 1 << 6, 1 << 4];
    let coset_sizes = [1usize << 3, 1 << 1, 1 << 2];
    for index in 0..(1usize << params.index_bits()) {
        let openings = query_openings(&params, index);
        assert_eq!(openings.len(), 3);
        assert_eq!(openings[0], QueryOpening { coset_index: index, offset: 0 });
        for k in 0..3 {
            assert!(openings[k].coset_index < n_cosets[k]);
            assert!(openings[k].offset < coset_sizes[k]);
        }
        for k in 1..3 {
            // the coset and the offset together are the position that was folded to
            assert_eq!(
                openings[k].coset_index * coset_sizes[k] + openings[k].offset,
                openings[k - 1].coset_index
            );
        }
    }
}

#[test]
fn test_query_openings_edge_arities() {
    let code = ReedSolomonCode::new(0, 1).unwrap();
    let params = FRIParams::new(code, 3, vec![], 5).unwrap();
    assert!(query_openings(&params, 12345).is_empty());

    // an arity as wide as a machine word drops every bit of the index
    let code = ReedSolomonCode::new(10, 1).unwrap();
    let params = FRIParams::new(code, 200, vec![1, 64, 0], 5).unwrap();
    assert_eq!(
        query_openings(&params, usize::MAX),
        vec![
            QueryOpening { coset_index: usize::MAX, offset: 0 },
            QueryOpening { coset_index: 0, offset: usize::MAX },
            QueryOpening { coset_index: 0, offset: 0 },
        ]
    );
}
