use echo_policy::upgrade_policy::{
    Likelihood, MassVerdict, ResourceVisit, ScorePmf, UpgradePolicySolver,
    UpgradePolicySolverError, Visit,
};

type Solver = UpgradePolicySolver<f64, (f64, f64)>;

/// Buff type `i` adds `i + 1` or `2 * (i + 1)`, each with probability one half.
fn two_point_pmfs() -> Vec<ScorePmf<f64>> {
    (0..13u16)
        .map(|i| ScorePmf {
            entries: vec![(i + 1, 0.5), (2 * (i + 1), 0.5)],
            verdict: MassVerdict::Normalized,
        })
        .collect()
}

fn solver_with_target(target: u16) -> Solver {
    match Solver::new(two_point_pmfs(), target) {
        Ok(solver) => solver,
        Err(fault) => panic!("construction failed: {fault:?}"),
    }
}

fn fault_of(pmfs: Vec<ScorePmf<f64>>, target: u16) -> UpgradePolicySolverError {
    match Solver::new(pmfs, target) {
        Ok(_) => panic!("construction succeeded"),
        Err(fault) => fault,
    }
}

fn cached(visit: Result<Visit<f64>, UpgradePolicySolverError>) -> Option<f64> {
    match visit {
        Ok(Visit::Cached { value }) => Some(value),
        _ => None,
    }
}

#[test]
fn construction_computes_the_largest_possible_score() {
    let solver = solver_with_target(100);
    assert_eq!(solver.max_possible_score(), 2 * (13 + 12 + 11 + 10 + 9));
    assert_eq!(solver.target_score(), 100);
    assert!(!solver.is_policy_derived());
    assert_eq!(solver.lambda(), None);
    assert_eq!(solver.score_pmf(3).entries, vec![(4, 0.5), (8, 0.5)]);
}

#[test]
fn construction_refuses_a_wrong_number_of_distributions() {
    let mut pmfs = two_point_pmfs();
    pmfs.pop();
    assert_eq!(
        fault_of(pmfs, 0),
        UpgradePolicySolverError::InvalidScorePmfCount { count: 12 }
    );
    assert_eq!(
        fault_of(Vec::new(), 0),
        UpgradePolicySolverError::InvalidScorePmfCount { count: 0 }
    );
}

#[test]
fn construction_names_the_first_faulty_distribution() {
    let mut pmfs = two_point_pmfs();
    pmfs[5].entries.clear();
    pmfs[2].verdict = MassVerdict::InvalidProbability { entry: 1 };
    pmfs[7].verdict = MassVerdict::NotNormalized;
    assert_eq!(
        fault_of(pmfs, 0),
        UpgradePolicySolverError::InvalidScorePmfProbability {
            buff_index: 2,
            entry: 1
        }
    );

    let mut pmfs = two_point_pmfs();
    pmfs[5].entries.clear();
    pmfs[5].verdict = MassVerdict::NotNormalized;
    pmfs[7].verdict = MassVerdict::NotNormalized;
    assert_eq!(
        fault_of(pmfs, 0),
        UpgradePolicySolverError::InvalidScorePmfEmpty { buff_index: 5 }
    );

    let mut pmfs = two_point_pmfs();
    pmfs[7].verdict = MassVerdict::NotNormalized;
    assert_eq!(
        fault_of(pmfs, 0),
        UpgradePolicySolverError::InvalidScorePmfNotNormalized { buff_index: 7 }
    );
}

#[test]
fn construction_refuses_scores_that_overflow() {
    let pmfs: Vec<ScorePmf<f64>> = (0..13)
        .map(|_| ScorePmf {
            entries: vec![(20000, 1.0)],
            verdict: MassVerdict::Normalized,
        })
        .collect();
    assert_eq!(
        fault_of(pmfs, 0),
        UpgradePolicySolverError::ScoreRangeOverflow {
            max_score_sum: 100000
        }
    );
}

#[test]
fn construction_refuses_an_impossible_target() {
    assert_eq!(
        fault_of(two_point_pmfs(), 111),
        UpgradePolicySolverError::TargetScoreImpossible {
            max_possible_score: 110,
            target_score: 111
        }
    );
    assert!(Solver::new(two_point_pmfs(), 110).is_ok());
}

/// A finished policy at price 1 with these values recorded, in this order.
fn policy_with(target: u16, records: &[(u16, u16, f64, bool)]) -> Solver {
    let mut solver = solver_with_target(target);
    solver.derive_policy_at_lambda(1.0);
    for &(mask, score, value, decision) in records {
        assert_eq!(solver.record(mask, score, value, decision), Ok(()));
    }
    assert_eq!(solver.finish_policy(), Ok(()));
    solver
}

fn refused_as_not_derived(solver: &mut Solver) {
    assert_eq!(
        solver.get_decision(0, 0),
        Err(UpgradePolicySolverError::PolicyNotDerived)
    );
    assert_eq!(
        solver.get_decision(0x1800, 500),
        Err(UpgradePolicySolverError::PolicyNotDerived)
    );
    assert_eq!(
        solver.cut_off_score(1),
        Err(UpgradePolicySolverError::PolicyNotDerived)
    );
    for score in [0u16, 49, 50, 51, 110, u16::MAX] {
        for mask in [0u16, 1, 0x1800, 0x1F00] {
            assert!(matches!(
                solver.get_success_probability(mask, score),
                Err(UpgradePolicySolverError::PolicyNotDerived)
            ));
        }
    }
    assert_eq!(
        solver.begin_expected_resources(),
        Err(UpgradePolicySolverError::PolicyNotDerived)
    );
}

#[test]
fn queries_before_derivation_are_refused() {
    let mut solver = solver_with_target(50);
    refused_as_not_derived(&mut solver);
    assert!(matches!(
        solver.visit(0, 0),
        Err(UpgradePolicySolverError::PolicyNotDerived)
    ));
    assert_eq!(
        solver.record(1, 1, 0.0, true),
        Err(UpgradePolicySolverError::PolicyNotDerived)
    );
    assert_eq!(
        solver.finish_policy(),
        Err(UpgradePolicySolverError::PolicyNotDerived)
    );
    assert!(!solver.is_policy_derived());
}

#[test]
fn queries_during_a_derivation_are_refused() {
    let mut solver = solver_with_target(50);
    solver.derive_policy_at_lambda(0.5);
    assert!(solver.is_policy_deriving());
    assert!(!solver.is_policy_derived());
    assert_eq!(solver.record(0x1800, 40, 1.5, true), Ok(()));
    refused_as_not_derived(&mut solver);
    assert_eq!(solver.finish_policy(), Ok(()));
    assert!(solver.is_policy_derived());
    assert!(!solver.is_policy_deriving());
    assert_eq!(solver.get_decision(0x1800, 40), Ok(true));
    assert_eq!(solver.cut_off_score(0x1800), Ok(Some(40)));
    assert!(matches!(
        solver.get_success_probability(0x1800, 50),
        Ok(Likelihood::Certain)
    ));
}

#[test]
fn a_finished_policy_takes_no_more_records() {
    let mut solver = policy_with(60, &[(0x1800, 40, 1.5, true)]);
    assert_eq!(
        solver.record(0x1800, 35, 1.5, true),
        Err(UpgradePolicySolverError::PolicyNotDerived)
    );
    assert_eq!(
        solver.finish_policy(),
        Err(UpgradePolicySolverError::PolicyNotDerived)
    );
    assert_eq!(solver.cut_off_score(0x1800), Ok(Some(40)));
    assert_eq!(cached(solver.visit(0x1800, 40)), Some(1.5));
    assert_eq!(cached(solver.visit(0, 0)), None);
    assert_eq!(solver.cut_off_score(0), Ok(None));
}

#[test]
fn score_bounds_follow_the_mask() {
    let solver = solver_with_target(50);
    assert_eq!(solver.score_bounds(0), Ok((0, 0)));
    assert_eq!(solver.score_bounds(0b101), Ok((4, 8)));
    assert_eq!(solver.score_bounds(0x1E00), Ok((46, 92)));
    assert_eq!(
        solver.score_bounds(0b11111),
        Err(UpgradePolicySolverError::InvalidMask { mask: 0b11111 })
    );
}

#[test]
fn visit_tells_terminal_hopeless_and_expanding_states_apart() {
    let mut solver = solver_with_target(100);
    solver.derive_policy_at_lambda(0.25);
    assert!(solver.is_policy_deriving());
    assert_eq!(solver.lambda(), Some(0.25));

    assert!(matches!(
        solver.visit(0, 0),
        Ok(Visit::Expand {
            score: 0,
            filled_slots: 0
        })
    ));
    // Buff type 0 alone: at best 2 + 26 + 24 + 22 + 20 = 94 stays below 100.
    assert!(matches!(solver.visit(1, 2), Ok(Visit::Hopeless { score: 2 })));
    // Buff type 12 alone at 26: at best 26 + 24 + 22 + 20 + 18 = 110.
    assert!(matches!(
        solver.visit(1 << 12, 26),
        Ok(Visit::Expand {
            score: 26,
            filled_slots: 1
        })
    ));
    // At 13 the best is 13 + 84 = 97.
    assert!(matches!(
        solver.visit(1 << 12, 13),
        Ok(Visit::Hopeless { score: 13 })
    ));
    assert!(matches!(
        solver.visit(0x1F00, 100),
        Ok(Visit::Terminal { success: true })
    ));
    assert!(matches!(
        solver.visit(0x1F00, 99),
        Ok(Visit::Terminal { success: false })
    ));
}

#[test]
fn visit_refuses_what_is_no_state() {
    let mut solver = solver_with_target(100);
    solver.derive_policy_at_lambda(1.0);
    assert!(matches!(
        solver.visit(0x2000, 0),
        Err(UpgradePolicySolverError::InvalidMask { mask: 0x2000 })
    ));
    assert!(matches!(
        solver.visit(0b111111, 0),
        Err(UpgradePolicySolverError::InvalidMask { mask: 0b111111 })
    ));
    assert!(matches!(
        solver.visit(1, 0),
        Err(UpgradePolicySolverError::InvalidScore)
    ));
    assert!(matches!(
        solver.visit(1, 3),
        Err(UpgradePolicySolverError::InvalidScore)
    ));
    assert_eq!(
        solver.record(1, 3, 0.0, true),
        Err(UpgradePolicySolverError::InvalidScore)
    );
    assert_eq!(
        solver.record(0b11111, 3, 0.0, true),
        Err(UpgradePolicySolverError::InvalidMask { mask: 0b11111 })
    );
}

#[test]
fn scores_at_or_above_the_target_are_clamped() {
    let mut solver = solver_with_target(30);
    solver.derive_policy_at_lambda(1.0);
    // Mask of buff types 9..12: scores from 46 to 92, all above the target.
    assert!(matches!(
        solver.visit(0x1E00, 80),
        Ok(Visit::Expand {
            score: 46,
            filled_slots: 4
        })
    ));
    assert_eq!(solver.record(0x1E00, 46, 7.5, true), Ok(()));
    assert_eq!(cached(solver.visit(0x1E00, 80)), Some(7.5));
    assert_eq!(cached(solver.visit(0x1E00, 46)), Some(7.5));
    // Mask of buff types 11 and 12: scores from 25 to 50; the target is in range.
    assert!(matches!(
        solver.visit(0x1800, 50),
        Ok(Visit::Expand {
            score: 30,
            filled_slots: 2
        })
    ));
    assert!(matches!(
        solver.visit(0x1800, 29),
        Ok(Visit::Expand {
            score: 29,
            filled_slots: 2
        })
    ));
}

#[test]
fn recording_sets_the_value_and_lowers_the_cut_off() {
    let mask = 0x1800;
    let records = [
        (mask, 40, 1.5, true),
        (mask, 45, 2.5, true),
        (mask, 30, 0.0, false),
        (mask, 35, 0.5, true),
        (mask, 40, 9.0, false),
    ];
    let cut_offs = [None, Some(40), Some(40), Some(40), Some(35), Some(35)];
    for count in 0..=records.len() {
        let solver = policy_with(60, &records[..count]);
        assert_eq!(solver.cut_off_score(mask), Ok(cut_offs[count]));
        assert_eq!(solver.cut_off_score(0x1400), Ok(None));
    }
    assert_eq!(policy_with(60, &[]).get_decision(mask, 50), Ok(false));
    let solver = policy_with(60, &records[..4]);
    assert_eq!(cached(solver.visit(mask, 40)), Some(1.5));
    assert_eq!(cached(solver.visit(mask, 30)), Some(0.0));
    assert_eq!(cached(solver.visit(mask, 41)), None);
    let solver = policy_with(60, &records);
    assert_eq!(cached(solver.visit(mask, 40)), Some(9.0));
}

#[test]
fn decisions_are_monotone_in_the_score() {
    let mask = 0x1800;
    let solver = policy_with(60, &[(mask, 37, 1.0, true)]);
    let mut seen_continue = false;
    for score in 0..=200u16 {
        let decision = solver.get_decision(mask, score).unwrap();
        assert_eq!(decision, score >= 37);
        assert!(!seen_continue || decision);
        seen_continue = seen_continue || decision;
    }
}

#[test]
fn the_empty_mask_continues_and_full_masks_stop() {
    let solver = policy_with(60, &[]);
    assert_eq!(solver.get_decision(0, 0), Ok(true));
    assert_eq!(solver.get_decision(0, 500), Ok(true));
    assert_eq!(solver.get_decision(0b11111, 500), Ok(false));
    assert_eq!(
        solver.get_decision(0b111111, 0),
        Err(UpgradePolicySolverError::InvalidMask { mask: 0b111111 })
    );
    assert_eq!(
        solver.get_decision(0x8000, 0),
        Err(UpgradePolicySolverError::InvalidMask { mask: 0x8000 })
    );
}

#[test]
fn a_new_price_or_target_removes_the_policy() {
    let mut solver = policy_with(60, &[(0x1800, 40, 1.5, true), (0x1400, 33, 2.5, true)]);
    solver.derive_policy_at_lambda(2.0);
    assert_eq!(solver.lambda(), Some(2.0));
    assert!(!solver.is_policy_derived());
    assert_eq!(cached(solver.visit(0x1800, 40)), None);
    assert_eq!(cached(solver.visit(0x1400, 33)), None);
    assert_eq!(solver.finish_policy(), Ok(()));
    assert_eq!(solver.cut_off_score(0x1800), Ok(None));
    assert_eq!(solver.cut_off_score(0), Ok(None));

    let mut solver = policy_with(60, &[(0x1800, 40, 1.5, true)]);
    assert_eq!(solver.update_target_score(70), Ok(()));
    assert!(!solver.is_policy_derived());
    assert!(!solver.is_policy_deriving());
    assert_eq!(solver.target_score(), 70);
    assert_eq!(solver.lambda(), None);
    solver.derive_policy_at_lambda(3.0);
    assert_eq!(cached(solver.visit(0x1800, 40)), None);

    let mut solver = policy_with(60, &[(0x1800, 40, 1.5, true)]);
    solver.clear_caches();
    assert!(!solver.is_policy_derived());
    solver.derive_policy_at_lambda(3.0);
    assert_eq!(cached(solver.visit(0x1800, 40)), None);
}

#[test]
fn an_impossible_new_target_changes_nothing() {
    let mut solver = policy_with(60, &[(0x1800, 40, 1.5, true)]);
    assert_eq!(
        solver.update_target_score(111),
        Err(UpgradePolicySolverError::TargetScoreImpossible {
            max_possible_score: 110,
            target_score: 111
        })
    );
    assert!(solver.is_policy_derived());
    assert_eq!(solver.target_score(), 60);
    assert_eq!(solver.cut_off_score(0x1800), Ok(Some(40)));
}

fn known(visit: Result<ResourceVisit<(f64, f64)>, UpgradePolicySolverError>) -> Option<(f64, f64)> {
    match visit {
        Ok(ResourceVisit::Known { state }) => Some(state),
        _ => None,
    }
}

#[test]
fn the_expected_cost_pass_follows_the_cut_offs() {
    let mut solver = policy_with(60, &[(0x1800, 40, 1.5, true), (0x1C00, 66, 1.5, true)]);
    assert!(matches!(
        solver.resource_visit(0x1800, 40),
        Err(UpgradePolicySolverError::ExpectedResourcesNotComputed)
    ));
    assert_eq!(solver.begin_expected_resources(), Ok(()));

    assert!(matches!(
        solver.resource_visit(0x1400, 30),
        Ok(ResourceVisit::Failed)
    ));
    assert!(matches!(
        solver.resource_visit(0x1800, 39),
        Ok(ResourceVisit::Failed)
    ));
    assert!(matches!(
        solver.resource_visit(0x1800, 40),
        Ok(ResourceVisit::Expand { filled_slots: 2 })
    ));
    assert!(matches!(
        solver.resource_visit(0x1800, 60),
        Ok(ResourceVisit::Guaranteed { filled_slots: 2 })
    ));
    assert!(matches!(
        solver.resource_visit(0x1C00, 66),
        Ok(ResourceVisit::Guaranteed { filled_slots: 3 })
    ));
    assert!(matches!(
        solver.resource_visit(0x1C00, 65),
        Ok(ResourceVisit::Failed)
    ));
    assert!(matches!(
        solver.resource_visit(0x1F00, 60),
        Ok(ResourceVisit::Terminal { success: true })
    ));
    assert!(matches!(
        solver.resource_visit(0x1F00, 59),
        Ok(ResourceVisit::Terminal { success: false })
    ));

    assert_eq!(solver.resource_record(0x1800, 40, (0.5, 7.0)), Ok(()));
    assert_eq!(known(solver.resource_visit(0x1800, 40)), Some((0.5, 7.0)));
    assert_eq!(known(solver.resource_visit(0x1800, 41)), None);
    assert_eq!(
        solver.resource_record(0x1800, 39, (0.5, 7.0)),
        Err(UpgradePolicySolverError::InvalidScore)
    );
    assert_eq!(
        solver.resource_record(0x1800, 61, (0.5, 7.0)),
        Err(UpgradePolicySolverError::InvalidScore)
    );
    assert_eq!(
        solver.resource_record(0x1400, 40, (0.5, 7.0)),
        Err(UpgradePolicySolverError::InvalidScore)
    );
    assert_eq!(
        solver.resource_record(0x1F00, 40, (0.5, 7.0)),
        Err(UpgradePolicySolverError::InvalidMask { mask: 0x1F00 })
    );
}

fn stored(
    likelihood: Result<Likelihood<(f64, f64)>, UpgradePolicySolverError>,
) -> Option<(f64, f64)> {
    match likelihood {
        Ok(Likelihood::Stored { state }) => Some(state),
        _ => None,
    }
}

#[test]
fn success_probability_follows_target_policy_and_memo() {
    let solver = solver_with_target(60);
    assert!(matches!(
        solver.get_success_probability(0x8000, 60),
        Err(UpgradePolicySolverError::InvalidMask { mask: 0x8000 })
    ));
    assert!(matches!(
        solver.get_success_probability(0x1800, 60),
        Err(UpgradePolicySolverError::PolicyNotDerived)
    ));
    assert!(matches!(
        solver.get_success_probability(0x1800, 59),
        Err(UpgradePolicySolverError::PolicyNotDerived)
    ));

    let mut solver = policy_with(60, &[(0x1800, 40, 1.5, true)]);
    assert!(matches!(
        solver.get_success_probability(0x8000, 60),
        Err(UpgradePolicySolverError::InvalidMask { mask: 0x8000 })
    ));
    assert!(matches!(
        solver.get_success_probability(0x1800, 60),
        Ok(Likelihood::Certain)
    ));
    assert!(matches!(
        solver.get_success_probability(0x1F00, 60),
        Ok(Likelihood::Certain)
    ));
    assert!(matches!(
        solver.get_success_probability(0x1800, 39),
        Ok(Likelihood::Impossible)
    ));
    assert!(matches!(
        solver.get_success_probability(0x1F00, 59),
        Ok(Likelihood::Impossible)
    ));
    assert!(matches!(
        solver.get_success_probability(0x1800, 40),
        Err(UpgradePolicySolverError::ExpectedResourcesNotComputed)
    ));

    solver.begin_expected_resources().unwrap();
    solver.resource_record(0x1800, 40, (0.5, 7.0)).unwrap();
    assert!(matches!(
        solver.get_success_probability(0x1800, 40),
        Err(UpgradePolicySolverError::ExpectedResourcesNotComputed)
    ));
    assert_eq!(solver.finish_expected_resources((0.25, 9.0)), Ok(()));
    assert_eq!(stored(solver.get_success_probability(0x1800, 40)), Some((0.5, 7.0)));
    assert_eq!(stored(solver.get_success_probability(0, 0)), Some((0.25, 9.0)));
    assert!(matches!(
        solver.get_success_probability(0x1800, 41),
        Err(UpgradePolicySolverError::InvalidScore)
    ));
    assert!(matches!(
        solver.get_success_probability(0, 1),
        Err(UpgradePolicySolverError::InvalidScore)
    ));
}

#[test]
fn finishing_without_a_pass_is_refused() {
    let mut solver = solver_with_target(60);
    assert_eq!(
        solver.finish_expected_resources((0.0, 0.0)),
        Err(UpgradePolicySolverError::ExpectedResourcesNotComputed)
    );
    solver.derive_policy_at_lambda(1.0);
    assert_eq!(
        solver.finish_expected_resources((0.0, 0.0)),
        Err(UpgradePolicySolverError::ExpectedResourcesNotComputed)
    );
    solver.finish_policy().unwrap();
    assert_eq!(
        solver.finish_expected_resources((0.0, 0.0)),
        Err(UpgradePolicySolverError::ExpectedResourcesNotComputed)
    );
    solver.begin_expected_resources().unwrap();
    assert_eq!(solver.finish_expected_resources((0.0, 0.0)), Ok(()));
    assert_eq!(
        solver.finish_expected_resources((0.0, 0.0)),
        Err(UpgradePolicySolverError::ExpectedResourcesNotComputed)
    );
}

#[test]
fn the_empty_state_is_recorded_like_any_other() {
    let solver = policy_with(60, &[(0, 0, 2.0, true), (0x1800, 40, 1.5, true)]);
    assert_eq!(cached(solver.visit(0, 0)), Some(2.0));
    assert_eq!(solver.cut_off_score(0), Ok(Some(0)));
    assert_eq!(solver.cut_off_score(0x1800), Ok(Some(40)));
    let solver = policy_with(60, &[(0, 0, 0.0, false)]);
    assert_eq!(cached(solver.visit(0, 0)), Some(0.0));
    assert_eq!(solver.cut_off_score(0), Ok(None));
    assert_eq!(solver.get_decision(0, 0), Ok(true));
}
