use transfer_line::errors::LineError;
use transfer_line::markov::{
    default_machine_chain, generate_transition_matrix, markov_machine, monte_carlo,
    monte_carlo_with, random_transition_matrix, step_chains, MarkovChain, PROB_ONE,
};

#[test]
fn add_state_returns_successive_indices() {
    let mut c = MarkovChain::new();
    assert_eq!(c.add_state("A".to_owned()), 0);
    assert_eq!(c.add_state("B".to_owned()), 1);
    assert_eq!(c.add_state("C".to_owned()), 2);
    assert_eq!(c.get_state_name(1), "B");
    assert_eq!(c.get_current_state_name(), "A");
}

#[test]
fn set_state_renames_in_place() {
    let mut c = MarkovChain::new();
    c.add_state("A".to_owned());
    c.add_state("B".to_owned());
    c.set_state(0, "Z".to_owned());
    assert_eq!(c.get_state_name(0), "Z");
    assert_eq!(c.get_state_name(1), "B");
}

#[test]
fn successors_yield_targets_in_reverse_insertion_order() {
    let mut c = MarkovChain::new();
    c.add_state("A".to_owned());
    c.add_state("B".to_owned());
    c.add_state("C".to_owned());
    c.add_transition(0, 1, PROB_ONE / 2).unwrap();
    c.add_transition(0, 2, PROB_ONE / 4).unwrap();
    let mut it = c.successors(0);
    assert_eq!(it.next(), Some(2));
    assert_eq!(it.next(), Some(1));
    assert_eq!(it.next(), None);
    assert_eq!(it.next(), None);
}

#[test]
fn successors_of_isolated_state_are_empty() {
    let mut c = MarkovChain::new();
    c.add_state("A".to_owned());
    let mut it = c.successors(0);
    assert_eq!(it.next(), None);
}

#[test]
fn add_transition_rejects_out_of_range_indices() {
    let mut c = MarkovChain::new();
    c.add_state("A".to_owned());
    assert_eq!(c.add_transition(0, 1, 0), Err(LineError::IndexError));
    assert_eq!(c.add_transition(1, 0, 0), Err(LineError::IndexError));
    assert_eq!(c.add_transition(0, 0, 0), Ok(()));
}

#[test]
fn choose_transition_follows_cumulative_rule() {
    let mut c = MarkovChain::new();
    c.add_state("A".to_owned());
    c.add_state("B".to_owned());
    c.add_state("C".to_owned());
    // Successor order is reverse of insertion: first C with 0.4, then B with 0.3.
    c.add_transition(0, 1, 300_000_000).unwrap();
    c.add_transition(0, 2, 400_000_000).unwrap();
    assert_eq!(c.choose_transition(0, 0), Some(2));
    assert_eq!(c.choose_transition(0, 399_999_999), Some(2));
    assert_eq!(c.choose_transition(0, 400_000_000), Some(1));
    assert_eq!(c.choose_transition(0, 699_999_999), Some(1));
    // The remaining mass is "stay": no transition fires.
    assert_eq!(c.choose_transition(0, 700_000_000), None);
    assert_eq!(c.choose_transition(0, PROB_ONE - 1), None);
}

#[test]
fn step_reads_only_pre_step_names() {
    // A two-state cycle with certain transitions must swap the names: if a
    // slot read a name already overwritten this tick, both would coincide.
    let mut c = MarkovChain::new();
    c.add_state("A".to_owned());
    c.add_state("B".to_owned());
    c.add_transition(0, 1, PROB_ONE).unwrap();
    c.add_transition(1, 0, PROB_ONE).unwrap();
    let draws = vec![0u64, 0u64];
    c.step_with_draws(&draws);
    assert_eq!(c.get_state_name(0), "B");
    assert_eq!(c.get_state_name(1), "A");
}

#[test]
fn step_keeps_name_when_mass_is_not_covered() {
    let mut c = MarkovChain::new();
    c.add_state("A".to_owned());
    c.add_state("B".to_owned());
    c.add_transition(0, 1, PROB_ONE / 2).unwrap();
    // The draw exceeds the outgoing mass of state 0; state 1 has no edges.
    let draws = vec![PROB_ONE / 2, 0u64];
    c.step_with_draws(&draws);
    assert_eq!(c.get_state_name(0), "A");
    assert_eq!(c.get_state_name(1), "B");
}

#[test]
fn step_chain_fires_certain_transition() {
    // Whatever is drawn, a transition of probability one fires.
    let mut c = MarkovChain::new();
    c.add_state("A".to_owned());
    c.add_state("B".to_owned());
    c.add_transition(0, 1, PROB_ONE).unwrap();
    MarkovChain::step_chain(&mut c);
    assert_eq!(c.get_state_name(0), "B");
}

#[test]
fn step_chains_advances_every_chain() {
    let mut chains = Vec::new();
    for _ in 0..3 {
        let mut c = MarkovChain::new();
        c.add_state("A".to_owned());
        c.add_state("B".to_owned());
        c.add_transition(0, 1, PROB_ONE).unwrap();
        chains.push(c);
    }
    step_chains(&mut chains);
    for c in &chains {
        assert_eq!(c.get_state_name(0), "B");
    }
}

#[test]
fn matrix_round_trip_reproduces_known_matrix() {
    let m = vec![
        vec![0u64, 300_000_000, 700_000_000],
        vec![500_000_000, 0, 500_000_000],
        vec![PROB_ONE, 0, 0],
    ];
    let c = markov_machine(3, &m);
    let back = generate_transition_matrix(&c);
    assert_eq!(back, m);
}

#[test]
fn generate_matrix_of_default_chain() {
    let c = default_machine_chain();
    let m = generate_transition_matrix(&c);
    assert_eq!(m[0], vec![0, 990_000_000, 10_000_000]);
    assert_eq!(m[1], vec![990_000_000, 0, 10_000_000]);
    assert_eq!(m[2], vec![500_000_000, 500_000_000, 0]);
}

#[test]
fn random_matrix_is_zero_off_the_edges() {
    let mut c = MarkovChain::new();
    c.add_state("A".to_owned());
    c.add_state("B".to_owned());
    c.add_transition(0, 1, PROB_ONE / 2).unwrap();
    let m = random_transition_matrix(&mut c);
    assert_eq!(m.len(), 2);
    assert_eq!(m[0][0], 0);
    assert_eq!(m[1][0], 0);
    assert_eq!(m[1][1], 0);
    assert!(m[0][1] < PROB_ONE);
}

#[test]
fn monte_carlo_with_counts_exact_fractions() {
    let mut c = MarkovChain::new();
    c.add_state("A".to_owned());
    c.add_state("B".to_owned());
    c.add_transition(0, 1, 500_000_000).unwrap();
    c.add_transition(1, 0, PROB_ONE).unwrap();
    // Trial 1: state 0 fires onto 1 (draw below half), state 1 fires onto 0.
    // Trial 2: state 0 stays (draw at the mass boundary), state 1 fires.
    let draws = vec![vec![0u64, 0u64], vec![500_000_000u64, 0u64]];
    let m = monte_carlo_with(&c, &draws);
    assert_eq!(m[0][1], PROB_ONE / 2);
    assert_eq!(m[0][0], PROB_ONE / 2);
    assert_eq!(m[1][0], PROB_ONE);
    assert_eq!(m[1][1], 0);
}

#[test]
fn monte_carlo_returns_fractions_of_one() {
    let mut c = default_machine_chain();
    let m = monte_carlo(&mut c, 1, 1000);
    assert_eq!(m.len(), 3);
    for row in &m {
        assert_eq!(row.len(), 3);
        for &v in row {
            assert!(v <= PROB_ONE);
        }
    }
    // Idle's outgoing mass is exactly one, so it fires in every trial, and
    // PROB_ONE divides evenly by the trial count: the fractions sum exactly.
    assert_eq!(m[0][1] + m[0][2], PROB_ONE);
}
