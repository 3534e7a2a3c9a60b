//! The reroll solver at work: expected costs are computed here in floating
//! point, over the state space that the library keeps.

use echo_policy::mask::{bits_to_mask, calculate_num_filled_slots};
use echo_policy::reroll_policy::{
    derivation_step, lock_cost, DerivationStep, RerollPolicySolver, RerollPolicySolverError,
};
use echo_policy::scoring::WeightClass;

struct Engine {
    core: RerollPolicySolver,
    scores: Vec<f64>,
    dp: Vec<f64>,
}

fn class_of(weight: f64) -> WeightClass {
    if !weight.is_finite() || weight < 0.0 {
        WeightClass::Invalid
    } else if weight > 0.0 {
        WeightClass::Positive
    } else {
        WeightClass::Zero
    }
}

impl Engine {
    fn new(weights: [f64; 13]) -> Result<Engine, RerollPolicySolverError> {
        let mut classes = [WeightClass::Zero; 13];
        for index in 0..13 {
            classes[index] = class_of(weights[index]);
        }
        let mut sorted = weights.to_vec();
        sorted.sort_by(|a, b| b.total_cmp(a));
        let within_limit = !(sorted[..5].iter().sum::<f64>() > 655.35);
        let core = RerollPolicySolver::new(&classes, within_limit)?;
        let scores = (0..core.num_states())
            .map(|index| {
                let mask = core.state_mask(index).unwrap();
                (0..13)
                    .filter(|buff| mask & (1 << buff) != 0)
                    .map(|buff| weights[buff])
                    .sum()
            })
            .collect();
        let dp = vec![0.0; core.num_states()];
        Ok(Engine { core, scores, dp })
    }

    fn set_target(&mut self, target: f64) -> Result<(), RerollPolicySolverError> {
        let success = self.scores.iter().map(|&score| score >= target).collect();
        self.core.set_target(success)
    }

    fn action_value(&self, baseline: f64, lock: u16) -> f64 {
        let outcomes = self.core.outcomes(lock).unwrap();
        let total: f64 = outcomes
            .iter()
            .map(|&state| baseline.min(self.dp[state]))
            .sum();
        lock_cost(calculate_num_filled_slots(lock)).unwrap() as f64 + total / outcomes.len() as f64
    }

    fn derive_policy(&mut self, tol: f64, max_iter: usize) -> Result<(), RerollPolicySolverError> {
        self.core.begin_derivation(tol.is_finite() && tol > 0.0)?;
        let n = self.core.num_states();
        let init = 1.0 / (self.core.num_success_states() as f64 / n as f64);
        for index in 0..n {
            self.dp[index] = if self.core.is_success_state(index).unwrap() {
                0.0
            } else {
                init
            };
        }
        let mut sweeps = 0;
        let mut converged = false;
        loop {
            match derivation_step(sweeps, max_iter, converged) {
                DerivationStep::Sweep => {}
                DerivationStep::Fail(fault) => return Err(fault),
                DerivationStep::Install => break,
            }
            let mut next = self.dp.clone();
            let mut max_delta: f64 = 0.0;
            for index in 0..n {
                if self.core.is_success_state(index).unwrap() {
                    continue;
                }
                let best = self
                    .core
                    .lock_set(index)
                    .unwrap()
                    .iter()
                    .map(|&lock| self.action_value(self.dp[index], lock))
                    .fold(f64::INFINITY, f64::min);
                next[index] = best;
                max_delta = max_delta.max((best - self.dp[index]).abs());
            }
            self.dp = next;
            sweeps += 1;
            converged = max_delta <= tol;
        }
        let costs: Vec<Vec<u64>> = (0..n)
            .map(|index| {
                if self.core.is_success_state(index).unwrap() {
                    return Vec::new();
                }
                self.core
                    .lock_set(index)
                    .unwrap()
                    .iter()
                    .map(|&lock| self.action_value(self.dp[index], lock).to_bits())
                    .collect()
            })
            .collect();
        let dp = self.dp.iter().map(|cost| cost.to_bits()).collect();
        self.core.install_policy(dp, costs)
    }

    fn cost(&self, mask: u16) -> f64 {
        f64::from_bits(self.core.expected_lock_cost(mask).unwrap())
    }
}

fn one_weight() -> [f64; 13] {
    let mut weights = [0.0; 13];
    weights[0] = 1.0;
    weights
}

fn two_weights() -> [f64; 13] {
    let mut weights = [0.0; 13];
    weights[0] = 1.0;
    weights[1] = 1.0;
    weights
}

#[test]
fn cost_keys_order_as_the_costs_do() {
    let costs = [0.0f64, 1e-300, 0.5, 1.0, 2.6, 3.0, 1e300, f64::INFINITY];
    for pair in costs.windows(2) {
        assert!(pair[0].to_bits() < pair[1].to_bits());
    }
    assert_eq!(0.0f64.to_bits(), 0);
}

#[test]
fn a_target_above_the_largest_score_is_impossible() {
    let mut weights = [0.0; 13];
    weights[4] = 0.25;
    let mut engine = Engine::new(weights).unwrap();
    assert_eq!(
        engine.set_target(0.5),
        Err(RerollPolicySolverError::TargetScoreImpossible)
    );
    assert_eq!(
        engine.set_target(f64::NAN),
        Err(RerollPolicySolverError::TargetScoreImpossible)
    );
    assert!(!engine.core.is_target_set());
    assert_eq!(engine.set_target(0.25), Ok(()));
    assert_eq!(engine.core.num_success_states(), 495);
}

#[test]
fn all_zero_weights_are_refused_and_one_positive_weight_is_enough() {
    assert_eq!(
        Engine::new([0.0; 13]).err(),
        Some(RerollPolicySolverError::InvalidWeights)
    );
    let mut negative = one_weight();
    negative[7] = -1.0;
    assert_eq!(
        Engine::new(negative).err(),
        Some(RerollPolicySolverError::InvalidWeights)
    );
    let mut large = one_weight();
    large[3] = 655.0;
    assert_eq!(
        Engine::new(large).err(),
        Some(RerollPolicySolverError::InvalidWeights)
    );
    assert!(Engine::new(one_weight()).is_ok());
}

#[test]
fn a_state_that_meets_the_target_needs_no_lock() {
    let mut engine = Engine::new(two_weights()).unwrap();
    engine.set_target(2.0).unwrap();
    engine.derive_policy(1e-9, 500).unwrap();
    let winner = bits_to_mask(&[1, 1, 0, 0, 0, 0, 1, 1, 1]);
    assert_eq!(engine.core.best_lock_choices(winner), Ok(None));
    assert_eq!(engine.core.lock_choices(winner, 0).unwrap().len(), 0);
    assert_eq!(engine.core.lock_choices(winner, 3).unwrap().len(), 0);
    assert_eq!(engine.cost(winner), 0.0);
}

#[test]
fn with_one_wanted_buff_type_every_reroll_is_a_fresh_draw() {
    let mut engine = Engine::new(one_weight()).unwrap();
    engine.set_target(1.0).unwrap();
    engine.derive_policy(1e-9, 500).unwrap();
    let loser = bits_to_mask(&[0, 1, 1, 1, 1, 1]);
    // 495 of the 1287 states hold buff type 0: the expected cost is 1287 / 495.
    assert!((engine.cost(loser) - 2.6).abs() < 1e-9);
    let choices = engine.core.lock_choices(loser, 0).unwrap();
    assert_eq!(choices.len(), 1);
    assert_eq!(choices[0].lock_mask, 0);
    assert_eq!((choices[0].successes, choices[0].outcomes), (495, 1287));
    assert!((f64::from_bits(choices[0].expected_cost) - 2.6).abs() < 1e-9);
    assert_eq!(engine.core.best_lock_choices(loser), Ok(Some(0)));
    assert_eq!(
        engine.core.best_lock_success_probability(loser),
        Ok(Some((495, 1287)))
    );
}

#[test]
fn locking_the_wanted_buff_type_is_the_best_choice() {
    let mut engine = Engine::new(two_weights()).unwrap();
    engine.set_target(2.0).unwrap();
    engine.derive_policy(1e-10, 500).unwrap();
    let one = bits_to_mask(&[1, 0, 1, 1, 1, 1]);
    let other = bits_to_mask(&[0, 1, 0, 0, 0, 0, 0, 0, 0, 1, 1, 1, 1]);
    let none = bits_to_mask(&[0, 0, 1, 1, 1, 1, 1]);
    // With one wanted buff type locked, a third of the rerolls succeed: the
    // expected cost is 3. From neither it is 3267 / 825.
    assert!((engine.cost(one) - 3.0).abs() < 1e-8);
    assert!((engine.cost(other) - 3.0).abs() < 1e-8);
    assert!((engine.cost(none) - 3.96).abs() < 1e-8);
    assert_eq!(engine.core.best_lock_choices(one), Ok(Some(1)));
    assert_eq!(engine.core.best_lock_choices(other), Ok(Some(2)));
    assert_eq!(engine.core.best_lock_choices(none), Ok(Some(0)));
    assert_eq!(
        engine.core.best_lock_success_probability(one),
        Ok(Some((165, 495)))
    );
    let choices = engine.core.lock_choices(one, 0).unwrap();
    assert_eq!(choices.len(), 2);
    assert_eq!(choices[1].lock_mask, 0);
    let second = f64::from_bits(choices[1].expected_cost);
    assert!((second - (1.0 + 3366.0 / 1287.0)).abs() < 1e-8);

    assert_eq!(engine.core.should_accept(none, one), Ok(true));
    assert_eq!(engine.core.should_accept(one, none), Ok(false));
    assert_eq!(engine.core.should_accept(one, other), Ok(true));
    assert_eq!(engine.core.should_accept(one, one), Ok(true));
}

#[test]
fn too_few_sweeps_fail_and_leave_no_policy() {
    let mut engine = Engine::new(two_weights()).unwrap();
    engine.set_target(2.0).unwrap();
    assert_eq!(
        engine.derive_policy(1e-12, 1),
        Err(RerollPolicySolverError::FailedtoConvergeWithinMaxIter)
    );
    assert!(!engine.core.is_policy_derived());
    assert_eq!(
        engine.derive_policy(0.0, 100),
        Err(RerollPolicySolverError::InvalidTolerance)
    );
    assert_eq!(
        engine.derive_policy(f64::NAN, 100),
        Err(RerollPolicySolverError::InvalidTolerance)
    );
}

#[test]
fn the_example_policy_is_consistent() {
    let weights = [
        3.0, 3.0, 1.0, 0.0, 0.0, 0.0, 0.0, 0.0, 1.0, 1.0, 0.0, 0.0, 0.0,
    ];
    let mut engine = Engine::new(weights).unwrap();
    assert_eq!(
        engine.derive_policy(1e-5, 100),
        Err(RerollPolicySolverError::TargetNotSet)
    );
    engine.set_target(7.0).unwrap();
    engine.derive_policy(1e-5, 100).unwrap();
    let start = bits_to_mask(&[1, 0, 1, 1, 1, 0, 0, 0, 1, 0, 0, 0, 0]);
    let best = engine.core.best_lock_choices(start).unwrap().unwrap();
    assert_eq!(best & !start, 0);
    assert!(calculate_num_filled_slots(best) <= 4);
    let choices = engine.core.lock_choices(start, 0).unwrap();
    assert_eq!(choices[0].lock_mask, best);
    assert!(choices
        .windows(2)
        .all(|pair| pair[0].expected_cost <= pair[1].expected_cost));
    // The expected cost of a state is the cost of its best choice.
    assert!((engine.cost(start) - f64::from_bits(choices[0].expected_cost)).abs() < 1e-4);
    for index in 0..engine.core.num_states() {
        let mask = engine.core.state_mask(index).unwrap();
        let success = engine.core.is_success_state(index).unwrap();
        assert_eq!(engine.scores[index] >= 7.0, success);
        assert_eq!(engine.cost(mask) == 0.0, success);
        assert_eq!(engine.core.best_lock_choices(mask).unwrap().is_none(), success);
    }
}
