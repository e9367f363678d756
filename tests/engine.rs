use petri_engine::combinatorics::falling_factorial;
use petri_engine::network::{petri_data_from_nested_vec, PetriData, PetriNet, ShapeError, Transition, IO};
use petri_engine::stochastic::{Marking, StepDecision};

fn net(rows: Vec<(Vec<i32>, Vec<i32>)>) -> PetriData {
    let v: Vec<Vec<Vec<i32>>> = rows.into_iter().map(|(i, o)| vec![i, o]).collect();
    petri_data_from_nested_vec(v).unwrap()
}

#[test]
fn falling_factorial_five_two() {
    assert_eq!(falling_factorial(5, 2), Some(20));
}

#[test]
fn falling_factorial_zero_factors_is_one() {
    for n in [0, 1, 2, 7, 1000, i32::MAX] {
        assert_eq!(falling_factorial(n, 0), Some(1));
    }
}

#[test]
fn falling_factorial_too_many_factors_is_zero() {
    assert_eq!(falling_factorial(3, 4), Some(0));
    assert_eq!(falling_factorial(0, 1), Some(0));
    assert_eq!(falling_factorial(5, i32::MAX), Some(0));
}

#[test]
fn falling_factorial_negative_arguments_are_zero() {
    assert_eq!(falling_factorial(-1, 0), Some(0));
    assert_eq!(falling_factorial(-3, 2), Some(0));
    assert_eq!(falling_factorial(4, -1), Some(0));
}

#[test]
fn falling_factorial_full_and_partial_products() {
    assert_eq!(falling_factorial(1, 1), Some(1));
    assert_eq!(falling_factorial(6, 6), Some(720));
    assert_eq!(falling_factorial(10, 3), Some(720));
    assert_eq!(falling_factorial(20, 20), Some(2432902008176640000));
}

#[test]
fn falling_factorial_overflow_is_none() {
    assert_eq!(falling_factorial(21, 21), None);
    assert_eq!(falling_factorial(i32::MAX, 3), None);
}

#[test]
fn nested_vec_builds_grid() {
    let d = petri_data_from_nested_vec(vec![vec![vec![1, 0], vec![0, 1]], vec![vec![2, 0], vec![0, 3]]]).unwrap();
    assert_eq!(d.num_transitions(), 2);
    assert_eq!(d.num_species(), 2);
    assert_eq!(d.input_coeff(1, 0), 2);
    assert_eq!(d.output_coeff(1, 1), 3);
    assert_eq!(d.input_coeff(0, 1), 0);
    assert_eq!(d.data(), vec![vec![vec![1, 0], vec![0, 1]], vec![vec![2, 0], vec![0, 3]]]);
    assert_eq!(d.row_of(1, 0), vec![2, 0]);
}

#[test]
fn nested_vec_empty_network() {
    let d = petri_data_from_nested_vec(vec![]).unwrap();
    assert_eq!(d.num_transitions(), 0);
    assert_eq!(d.num_species(), 0);
    assert!(d.data().is_empty());
}

#[test]
fn nested_vec_jagged_row_is_rejected() {
    let r = petri_data_from_nested_vec(vec![vec![vec![1, 0], vec![0, 1]], vec![vec![1, 0], vec![0]]]);
    assert_eq!(r.err(), Some(ShapeError::Jagged));
}

#[test]
fn nested_vec_missing_output_row_is_rejected() {
    let r = petri_data_from_nested_vec(vec![vec![vec![1, 0], vec![0, 1]], vec![vec![1, 0]]]);
    assert_eq!(r.err(), Some(ShapeError::MissingRows));
    let r = petri_data_from_nested_vec(vec![vec![vec![1], vec![0], vec![2]]]);
    assert_eq!(r.err(), Some(ShapeError::MissingRows));
}

#[test]
fn petri_net_grid_follows_transitions() {
    let mut p = PetriNet::empty();
    assert!(p.name.is_empty() && p.transitions.is_empty() && p.species.is_empty());
    p.species = vec!["A".to_string(), "B".to_string()];
    p.transitions.push(Transition { name: "convert".to_string(), input: vec![1, 0], output: vec![0, 1] });
    p.transitions.push(Transition { name: "pair".to_string(), input: vec![0, 2], output: vec![1, 0] });
    let d = p.get_petri_data().unwrap();
    assert_eq!(d.num_transitions(), 2);
    assert_eq!(d.num_species(), 2);
    assert_eq!(d.data(), vec![vec![vec![1, 0], vec![0, 1]], vec![vec![0, 2], vec![1, 0]]]);
}

#[test]
fn petri_net_species_without_transitions() {
    let mut p = PetriNet::empty();
    p.species = vec!["A".to_string(), "B".to_string(), "C".to_string()];
    let d = p.get_petri_data().unwrap();
    assert_eq!(d.num_transitions(), 0);
    assert_eq!(d.num_species(), 3);
}

#[test]
fn petri_net_short_row_is_rejected() {
    let mut p = PetriNet::empty();
    p.species = vec!["A".to_string(), "B".to_string()];
    p.transitions.push(Transition { name: "t".to_string(), input: vec![1], output: vec![0, 1] });
    assert_eq!(p.get_petri_data().err(), Some(ShapeError::Jagged));
}

#[test]
fn petri_net_long_row_is_rejected() {
    let mut p = PetriNet::empty();
    p.species = vec!["A".to_string()];
    p.transitions.push(Transition { name: "t".to_string(), input: vec![1], output: vec![0, 1] });
    assert_eq!(p.get_petri_data().err(), Some(ShapeError::Jagged));
}

#[test]
fn transition_rows_by_direction() {
    let t = Transition { name: "t".to_string(), input: vec![1, 2], output: vec![3, 4] };
    assert_eq!(t.row(IO::Input), &vec![1, 2]);
    assert_eq!(t.row(IO::Output), &vec![3, 4]);
    assert_eq!(IO::Input.to_idx(), 0);
    assert_eq!(IO::Output.to_idx(), 1);
}

#[test]
fn combinations_multiply_falling_factorials() {
    let d = net(vec![(vec![2, 1], vec![0, 0])]);
    let m = Marking::new(vec![5, 3]);
    assert_eq!(m.combinations(&d, 0), Some(60));
}

#[test]
fn combinations_zero_when_reactant_short() {
    let d = net(vec![(vec![2, 1], vec![0, 0])]);
    assert_eq!(Marking::new(vec![1, 3]).combinations(&d, 0), Some(0));
    assert_eq!(Marking::new(vec![5, 0]).combinations(&d, 0), Some(0));
}

#[test]
fn combinations_zero_factor_beats_overflow() {
    let d = net(vec![(vec![30, 1], vec![0, 0])]);
    assert_eq!(Marking::new(vec![i32::MAX, 0]).combinations(&d, 0), Some(0));
    assert_eq!(Marking::new(vec![i32::MAX, 1]).combinations(&d, 0), None);
}

#[test]
fn combinations_with_no_inputs_is_one() {
    let d = net(vec![(vec![0], vec![1])]);
    assert_eq!(Marking::new(vec![0]).combinations(&d, 0), Some(1));
}

#[test]
fn apply_transition_moves_tokens() {
    let d = net(vec![(vec![1, 0], vec![0, 1])]);
    let mut m = Marking::new(vec![3, 0]);
    assert!(m.apply_transition(&d, 0));
    assert_eq!(m.counts, vec![2, 1]);
    assert!(m.apply_transition(&d, 0));
    assert_eq!(m.counts, vec![1, 2]);
}

#[test]
fn apply_transition_out_of_range_leaves_marking() {
    let d = net(vec![(vec![0, 0], vec![1, 1])]);
    let mut m = Marking::new(vec![5, i32::MAX]);
    assert!(!m.apply_transition(&d, 0));
    assert_eq!(m.counts, vec![5, i32::MAX]);
}

#[test]
fn enabled_firing_keeps_counts_nonnegative() {
    let d = net(vec![(vec![2, 1], vec![0, 0]), (vec![0, 1], vec![1, 0])]);
    let mut m = Marking::new(vec![2, 1]);
    assert!(m.combinations(&d, 0).unwrap() > 0);
    assert!(m.apply_transition(&d, 0));
    assert_eq!(m.counts, vec![0, 0]);
}

#[test]
fn is_extinct_checks_watched_species_only() {
    let m = Marking::new(vec![0, 4, 2]);
    assert!(m.is_extinct(&vec![0]));
    assert!(!m.is_extinct(&vec![1, 2]));
    assert!(m.is_extinct(&vec![2, 0]));
    assert!(!m.is_extinct(&vec![]));
}

#[test]
fn already_extinct_ends_before_drawing() {
    let d = net(vec![(vec![1], vec![2])]);
    let m = Marking::new(vec![0]);
    assert!(matches!(m.next_step(&d, &vec![0]), StepDecision::Extinct));
}

#[test]
fn no_transitions_is_deadlock() {
    let mut p = PetriNet::empty();
    p.species = vec!["A".to_string()];
    let d = p.get_petri_data().unwrap();
    let m = Marking::new(vec![4]);
    assert!(matches!(m.next_step(&d, &vec![0]), StepDecision::Deadlocked));
}

#[test]
fn no_enabled_transition_is_deadlock() {
    let d = net(vec![(vec![0, 2], vec![1, 0])]);
    let m = Marking::new(vec![3, 1]);
    assert!(matches!(m.next_step(&d, &vec![0]), StepDecision::Deadlocked));
}

#[test]
fn draw_carries_every_transition_count() {
    let d = net(vec![(vec![1, 0], vec![0, 1]), (vec![0, 2], vec![1, 0]), (vec![3, 0], vec![0, 0])]);
    let m = Marking::new(vec![4, 3]);
    match m.next_step(&d, &vec![0, 1]) {
        StepDecision::Draw(w) => assert_eq!(w, vec![4, 6, 24]),
        other => panic!("expected a draw, got {:?}", other),
    }
}

#[test]
fn huge_count_is_reported() {
    let d = net(vec![(vec![40], vec![0])]);
    let m = Marking::new(vec![i32::MAX]);
    assert!(matches!(m.next_step(&d, &vec![0]), StepDecision::CountOverflow));
}

#[test]
fn combination_counts_lists_every_transition() {
    let d = net(vec![(vec![1, 0], vec![0, 1]), (vec![0, 2], vec![1, 0]), (vec![0, 0], vec![1, 0])]);
    assert_eq!(Marking::new(vec![4, 3]).combination_counts(&d), Some(vec![4, 6, 1]));
    assert_eq!(Marking::new(vec![0, 1]).combination_counts(&d), Some(vec![0, 0, 1]));
}

#[test]
fn combination_counts_overflow_is_none() {
    let d = net(vec![(vec![1], vec![0]), (vec![40], vec![0])]);
    assert_eq!(Marking::new(vec![i32::MAX]).combination_counts(&d), None);
}

#[test]
fn extinction_checked_before_overflow() {
    let d = net(vec![(vec![40, 0], vec![0, 0])]);
    let m = Marking::new(vec![i32::MAX, 0]);
    assert!(matches!(m.next_step(&d, &vec![1]), StepDecision::Extinct));
    assert!(matches!(m.next_step(&d, &vec![0]), StepDecision::CountOverflow));
}
