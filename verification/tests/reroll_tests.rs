use echo_policy::mask::bits_to_mask;
use echo_policy::reroll_policy::{
    count_successes, derivation_step, lock_cost, DerivationStep, LockChoice, RerollPolicySolver,
    RerollPolicySolverError,
};
use echo_policy::scoring::WeightClass;

fn weights_with(positive: &[usize]) -> [WeightClass; 13] {
    let mut weights = [WeightClass::Zero; 13];
    for &index in positive {
        weights[index] = WeightClass::Positive;
    }
    weights
}

fn example_weights() -> [WeightClass; 13] {
    weights_with(&[0, 1, 2, 8, 9])
}

/// A solver with one success state and a policy whose costs are made up.
fn solver_with_policy() -> (RerollPolicySolver, u16) {
    let mut solver = RerollPolicySolver::new(&example_weights(), true).unwrap();
    let n = solver.num_states();
    let winner = bits_to_mask(&[1, 1, 1, 0, 0, 0, 0, 0, 1, 1, 0, 0, 0]);
    let winner_index = solver.state_index(winner).unwrap();
    let mut success = vec![false; n];
    success[winner_index] = true;
    solver.set_target(success).unwrap();
    solver.begin_derivation(true).unwrap();
    let mut dp = vec![7u64; n];
    dp[winner_index] = 0;
    let mut costs: Vec<Vec<u64>> = Vec::new();
    for index in 0..n {
        let locks = solver.lock_set(index).unwrap();
        costs.push(locks.iter().map(|lock| 100 - (*lock as u64 % 7)).collect());
    }
    solver.install_policy(dp, costs).unwrap();
    (solver, winner)
}

#[test]
fn lock_cost_is_a_step_function() {
    assert_eq!(lock_cost(0), Some(1));
    assert_eq!(lock_cost(1), Some(1));
    assert_eq!(lock_cost(2), Some(1));
    assert_eq!(lock_cost(3), Some(2));
    assert_eq!(lock_cost(4), Some(3));
    assert_eq!(lock_cost(5), None);
    assert_eq!(lock_cost(usize::MAX), None);
}

#[test]
fn invalid_weights_make_no_solver() {
    assert_eq!(
        RerollPolicySolver::new(&[WeightClass::Zero; 13], true).err(),
        Some(RerollPolicySolverError::InvalidWeights)
    );
    let mut weights = example_weights();
    weights[5] = WeightClass::Invalid;
    assert_eq!(
        RerollPolicySolver::new(&weights, true).err(),
        Some(RerollPolicySolverError::InvalidWeights)
    );
    assert_eq!(
        RerollPolicySolver::new(&example_weights(), false).err(),
        Some(RerollPolicySolverError::InvalidWeights)
    );
}

#[test]
fn lock_sets_list_the_positive_submasks_largest_first() {
    let solver = RerollPolicySolver::new(&weights_with(&[0, 1]), true).unwrap();
    let first = solver.state_index(0b11111).unwrap();
    assert_eq!(first, 0);
    assert_eq!(solver.lock_set(first), Some(&vec![3, 2, 1, 0]));
    let none = solver.state_index(0b1111100).unwrap();
    assert_eq!(solver.lock_set(none), Some(&vec![0]));
    assert_eq!(solver.lock_set(1287), None);
    assert_eq!(solver.state_mask(0), Some(31));
    assert_eq!(solver.state_mask(1286), Some(7936));
    assert_eq!(solver.state_mask(1287), None);
    assert_eq!(solver.state_index(30), None);
}

#[test]
fn at_most_four_slots_can_be_locked() {
    let solver = RerollPolicySolver::new(&[WeightClass::Positive; 13], true).unwrap();
    let locks = solver.lock_set(0).unwrap();
    let expected: Vec<u16> = (0..31).rev().collect();
    assert_eq!(locks, &expected);
}

#[test]
fn outcomes_are_the_states_that_contain_the_lock() {
    let solver = RerollPolicySolver::new(&weights_with(&[0, 1, 12]), true).unwrap();
    let all: Vec<usize> = (0..1287).collect();
    assert_eq!(solver.outcomes(0), Some(&all));
    assert_eq!(solver.outcomes(1).unwrap().len(), 495);
    assert_eq!(solver.outcomes(0b11).unwrap().len(), 165);
    assert_eq!(solver.outcomes(0x1003).unwrap().len(), 45);
    assert_eq!(solver.outcomes(0x1000).unwrap().len(), 495);
    assert_eq!(solver.outcomes(0b100).unwrap().len(), 0);
    assert_eq!(solver.outcomes(0b101).unwrap().len(), 0);
    assert_eq!(solver.outcomes(7936).unwrap().len(), 0);
    assert_eq!(solver.outcomes(7937), None);
    for &state in solver.outcomes(0x1003).unwrap() {
        assert_eq!(solver.state_mask(state).unwrap() & 0x1003, 0x1003);
    }
}

#[test]
fn successes_are_counted() {
    let success = vec![true, false, true, true];
    assert_eq!(count_successes(&vec![], &success), 0);
    assert_eq!(count_successes(&vec![0, 1, 2, 3], &success), 3);
    assert_eq!(count_successes(&vec![1, 1, 2, 2], &success), 2);
}

#[test]
fn a_target_that_no_state_reaches_is_impossible() {
    let mut solver = RerollPolicySolver::new(&example_weights(), true).unwrap();
    assert!(!solver.is_target_set());
    assert_eq!(
        solver.set_target(vec![false; 1287]),
        Err(RerollPolicySolverError::TargetScoreImpossible)
    );
    assert_eq!(
        solver.set_target(vec![true; 1286]),
        Err(RerollPolicySolverError::TargetScoreImpossible)
    );
    assert_eq!(
        solver.set_target(Vec::new()),
        Err(RerollPolicySolverError::TargetScoreImpossible)
    );
    assert!(!solver.is_target_set());
    let mut success = vec![false; 1287];
    success[1286] = true;
    success[3] = true;
    assert_eq!(solver.set_target(success), Ok(()));
    assert!(solver.is_target_set());
    assert_eq!(solver.num_success_states(), 2);
    assert_eq!(solver.is_success_state(3), Some(true));
    assert_eq!(solver.is_success_state(4), Some(false));
    assert_eq!(solver.is_success_state(1287), None);
}

#[test]
fn a_derivation_needs_a_target_and_a_tolerance() {
    let mut solver = RerollPolicySolver::new(&example_weights(), true).unwrap();
    assert_eq!(
        solver.begin_derivation(true),
        Err(RerollPolicySolverError::TargetNotSet)
    );
    assert_eq!(
        solver.begin_derivation(false),
        Err(RerollPolicySolverError::TargetNotSet)
    );
    assert_eq!(
        solver.install_policy(vec![0; 1287], vec![Vec::new(); 1287]),
        Err(RerollPolicySolverError::TargetNotSet)
    );
    solver.set_target(vec![true; 1287]).unwrap();
    assert_eq!(
        solver.begin_derivation(false),
        Err(RerollPolicySolverError::InvalidTolerance)
    );
    assert_eq!(solver.begin_derivation(true), Ok(()));
    assert!(!solver.is_policy_derived());
}

#[test]
fn costs_of_the_wrong_shape_are_refused() {
    let mut solver = RerollPolicySolver::new(&example_weights(), true).unwrap();
    let mut success = vec![false; 1287];
    success[0] = true;
    solver.set_target(success).unwrap();
    let costs: Vec<Vec<u64>> = (0..1287)
        .map(|index| vec![5; solver.lock_set(index).unwrap().len()])
        .collect();
    let mut dp = vec![5u64; 1287];
    assert_eq!(
        solver.install_policy(dp.clone(), costs.clone()),
        Err(RerollPolicySolverError::PolicyNotDerived)
    );
    dp[0] = 0;
    assert_eq!(
        solver.install_policy(dp[..1286].to_vec(), costs.clone()),
        Err(RerollPolicySolverError::PolicyNotDerived)
    );
    let mut short = costs.clone();
    short[7].pop();
    assert_eq!(
        solver.install_policy(dp.clone(), short),
        Err(RerollPolicySolverError::PolicyNotDerived)
    );
    let mut free = dp.clone();
    free[9] = 0;
    assert_eq!(
        solver.install_policy(free, costs.clone()),
        Err(RerollPolicySolverError::PolicyNotDerived)
    );
    assert!(!solver.is_policy_derived());
    assert_eq!(solver.install_policy(dp, costs), Ok(()));
    assert!(solver.is_policy_derived());
}

#[test]
fn reroll_queries_before_derivation_are_refused() {
    let mut solver = RerollPolicySolver::new(&example_weights(), true).unwrap();
    solver.set_target(vec![true; 1287]).unwrap();
    assert_eq!(
        solver.best_lock_choices(31),
        Err(RerollPolicySolverError::PolicyNotDerived)
    );
    assert_eq!(
        solver.lock_choices(31, 0).err(),
        Some(RerollPolicySolverError::PolicyNotDerived)
    );
    assert_eq!(
        solver.expected_lock_cost(31),
        Err(RerollPolicySolverError::PolicyNotDerived)
    );
    assert_eq!(
        solver.best_lock_success_probability(31),
        Err(RerollPolicySolverError::PolicyNotDerived)
    );
    assert_eq!(
        solver.should_accept(31, 31),
        Err(RerollPolicySolverError::PolicyNotDerived)
    );
    assert_eq!(
        solver.should_accept(0, 0),
        Err(RerollPolicySolverError::PolicyNotDerived)
    );
}

#[test]
fn success_state_has_no_lock_choices() {
    let (solver, winner) = solver_with_policy();
    assert_eq!(solver.best_lock_choices(winner), Ok(None));
    assert_eq!(solver.lock_choices(winner, 0).unwrap().len(), 0);
    assert_eq!(solver.lock_choices(winner, 5).unwrap().len(), 0);
    assert_eq!(solver.best_lock_success_probability(winner), Ok(None));
    assert_eq!(solver.expected_lock_cost(winner), Ok(0));
}

#[test]
fn choices_are_ranked_by_cost_and_ties_keep_their_order() {
    let (solver, _) = solver_with_policy();
    let other = bits_to_mask(&[1, 0, 1, 1, 1, 0, 0, 0, 1, 0, 0, 0, 0]);
    // Positive buff types in the mask: 0, 2 and 8. Locks, largest first:
    // 261, 260, 257, 256, 5, 4, 1, 0, with costs 100 - lock % 7.
    let choices = solver.lock_choices(other, 0).unwrap();
    let locks: Vec<u16> = choices.iter().map(|choice| choice.lock_mask).collect();
    let costs: Vec<u64> = choices.iter().map(|choice| choice.expected_cost).collect();
    assert_eq!(locks, vec![257, 5, 256, 4, 261, 260, 1, 0]);
    assert_eq!(costs, vec![95, 95, 96, 96, 98, 99, 99, 100]);
    assert_eq!(solver.best_lock_choices(other), Ok(Some(257)));
    assert_eq!(solver.expected_lock_cost(other), Ok(7));
}

#[test]
fn choices_carry_their_success_statistics() {
    let (solver, winner) = solver_with_policy();
    assert_eq!(winner, 0b11_0000_0111);
    let other = bits_to_mask(&[1, 0, 1, 1, 1, 0, 0, 0, 1, 0, 0, 0, 0]);
    let choices = solver.lock_choices(other, 0).unwrap();
    let by_lock = |lock: u16| -> LockChoice {
        *choices.iter().find(|choice| choice.lock_mask == lock).unwrap()
    };
    assert_eq!((by_lock(0).successes, by_lock(0).outcomes), (1, 1287));
    assert_eq!((by_lock(1).successes, by_lock(1).outcomes), (1, 495));
    assert_eq!((by_lock(5).successes, by_lock(5).outcomes), (1, 165));
    assert_eq!((by_lock(261).successes, by_lock(261).outcomes), (1, 45));
    assert_eq!(
        solver.best_lock_success_probability(other),
        Ok(Some((1, 165)))
    );
}

#[test]
fn top_k_keeps_the_cheapest() {
    let (solver, _) = solver_with_policy();
    let other = bits_to_mask(&[1, 0, 1, 1, 1, 0, 0, 0, 1, 0, 0, 0, 0]);
    let all = solver.lock_choices(other, 0).unwrap();
    assert_eq!(all.len(), 8);
    for top_k in 1..=8 {
        assert_eq!(solver.lock_choices(other, top_k).unwrap(), all[..top_k].to_vec());
    }
    assert_eq!(solver.lock_choices(other, 9).unwrap(), all);
    assert_eq!(solver.lock_choices(other, usize::MAX).unwrap(), all);
}

#[test]
fn acceptance_compares_expected_costs() {
    let (solver, winner) = solver_with_policy();
    let other = bits_to_mask(&[1, 0, 1, 1, 1, 0, 0, 0, 1, 0, 0, 0, 0]);
    let third = bits_to_mask(&[0, 0, 0, 0, 0, 0, 0, 0, 1, 1, 1, 1, 1]);
    assert_eq!(solver.should_accept(other, winner), Ok(true));
    assert_eq!(solver.should_accept(winner, other), Ok(false));
    assert_eq!(solver.should_accept(other, third), Ok(true));
    assert_eq!(solver.should_accept(third, other), Ok(true));
    for mask in [winner, other, third] {
        assert_eq!(solver.should_accept(mask, mask), Ok(true));
    }
}

#[test]
fn invalid_masks_are_named() {
    let (solver, winner) = solver_with_policy();
    assert_eq!(
        solver.should_accept(winner, 0),
        Err(RerollPolicySolverError::InvalidMask { mask: 0 })
    );
    assert_eq!(
        solver.should_accept(0b1111, 0),
        Err(RerollPolicySolverError::InvalidMask { mask: 0b1111 })
    );
    assert_eq!(
        solver.best_lock_choices(0x2F00),
        Err(RerollPolicySolverError::InvalidMask { mask: 0x2F00 })
    );
    assert_eq!(
        solver.lock_choices(0b111111, 1).err(),
        Some(RerollPolicySolverError::InvalidMask { mask: 0b111111 })
    );
    assert_eq!(
        solver.expected_lock_cost(0),
        Err(RerollPolicySolverError::InvalidMask { mask: 0 })
    );
}

#[test]
fn a_new_target_removes_the_policy() {
    let (mut solver, winner) = solver_with_policy();
    assert!(solver.is_policy_derived());
    solver.set_target(vec![true; 1287]).unwrap();
    assert!(!solver.is_policy_derived());
    assert_eq!(
        solver.best_lock_choices(winner),
        Err(RerollPolicySolverError::PolicyNotDerived)
    );
    assert_eq!(
        solver.install_policy(vec![0; 1287], vec![Vec::new(); 1287]),
        Ok(())
    );
    assert_eq!(solver.lock_choices(31, 0).unwrap().len(), 0);
}

#[test]
fn derivation_steps_follow_the_sweep_budget() {
    assert_eq!(derivation_step(0, 3, false), DerivationStep::Sweep);
    assert_eq!(derivation_step(0, 3, true), DerivationStep::Sweep);
    assert_eq!(derivation_step(1, 3, false), DerivationStep::Sweep);
    assert_eq!(derivation_step(2, 3, true), DerivationStep::Install);
    assert_eq!(derivation_step(3, 3, true), DerivationStep::Install);
    assert_eq!(
        derivation_step(3, 3, false),
        DerivationStep::Fail(RerollPolicySolverError::FailedtoConvergeWithinMaxIter)
    );
    assert_eq!(
        derivation_step(0, 0, false),
        DerivationStep::Fail(RerollPolicySolverError::FailedtoConvergeWithinMaxIter)
    );
}

#[test]
fn only_success_states_are_free_and_they_are_kept() {
    let (solver, winner) = solver_with_policy();
    for index in 0..solver.num_states() {
        let mask = solver.state_mask(index).unwrap();
        let cost = solver.expected_lock_cost(mask).unwrap();
        assert_eq!(cost == 0, mask == winner);
        assert_eq!(solver.should_accept(mask, winner), Ok(true));
        assert_eq!(solver.should_accept(winner, mask), Ok(mask == winner));
    }
}
