use echo_policy::data::{
    buff_histogram, buff_type, BUFF_MAX_VALUES, HIST_ATTACK_FLAT, HIST_CRIT_DAMAGE, NUM_BUFFS,
};
use echo_policy::scoring::{
    blend_group, build_blended_histograms, catalog_histograms, check_fixed_scorer,
    positive_weight_mask, tally_scores, validate_weights, ScorerError, WeightClass,
    BLEND_GROUP_CRIT, BLEND_GROUP_MAIN,
};

#[test]
fn all_zero_weights_are_refused() {
    let weights = [WeightClass::Zero; 13];
    assert_eq!(validate_weights(&weights), Err(ScorerError::AllWeightsZero));
    assert_eq!(
        check_fixed_scorer(&weights, true),
        Err(ScorerError::AllWeightsZero)
    );
}

#[test]
fn one_positive_weight_is_enough() {
    for index in 0..13 {
        let mut weights = [WeightClass::Zero; 13];
        weights[index] = WeightClass::Positive;
        assert_eq!(validate_weights(&weights), Ok(()));
        assert_eq!(check_fixed_scorer(&weights, true), Ok(()));
    }
}

#[test]
fn the_first_invalid_weight_is_named() {
    let mut weights = [WeightClass::Positive; 13];
    weights[9] = WeightClass::Invalid;
    weights[4] = WeightClass::Invalid;
    assert_eq!(
        validate_weights(&weights),
        Err(ScorerError::NegativeWeight { index: 4 })
    );
    assert_eq!(
        check_fixed_scorer(&weights, false),
        Err(ScorerError::NegativeWeight { index: 4 })
    );
}

#[test]
fn too_large_weights_are_refused_for_the_fixed_scorer_only_when_valid() {
    let weights = [WeightClass::Positive; 13];
    assert_eq!(
        check_fixed_scorer(&weights, false),
        Err(ScorerError::FixedScorerWeightsTooLarge)
    );
    assert_eq!(
        check_fixed_scorer(&[WeightClass::Zero; 13], false),
        Err(ScorerError::AllWeightsZero)
    );
}

#[test]
fn positive_mask_has_the_positive_weights() {
    let mut weights = [WeightClass::Zero; 13];
    weights[0] = WeightClass::Positive;
    weights[3] = WeightClass::Invalid;
    weights[12] = WeightClass::Positive;
    assert_eq!(positive_weight_mask(&weights), 0x1001);
    assert_eq!(positive_weight_mask(&[WeightClass::Zero; 13]), 0);
    assert_eq!(positive_weight_mask(&[WeightClass::Positive; 13]), 0x1FFF);
}

#[test]
fn catalog_entries_carry_their_maximum() {
    for index in 0..NUM_BUFFS {
        let entry = buff_type(index);
        assert_eq!(entry.max_value, BUFF_MAX_VALUES[index]);
        assert_eq!(entry.histogram.last().unwrap().0, entry.max_value);
        assert_eq!(entry.histogram, buff_histogram(index));
    }
    assert_eq!(buff_type(0).name, "Crit. Rate");
    assert_eq!(buff_type(7).max_value, 580);
}

#[test]
fn catalog_histograms_are_a_copy_of_the_catalog() {
    let histograms = catalog_histograms();
    assert_eq!(histograms.len(), 13);
    for index in 0..13 {
        assert_eq!(histograms[index].as_slice(), buff_histogram(index));
    }
}

#[test]
fn blending_pools_the_crit_pair() {
    let blended = build_blended_histograms();
    assert_eq!(blended[0][0], (63, 1036 + 995));
    assert_eq!(blended[1][0], (126, 1036 + 995));
    assert_eq!(blended[0][7], (105, 112 + 119));
    assert_eq!(blended[1][7], (210, 112 + 119));
}

#[test]
fn blending_pools_the_main_stat_group() {
    let blended = build_blended_histograms();
    let pooled_first = 316 + 318 + 321 + 298 + 302 + 316 + 319 + 328 + 292;
    for member in BLEND_GROUP_MAIN {
        assert_eq!(blended[member][0].1, pooled_first);
        assert_eq!(blended[member][0].0, buff_histogram(member)[0].0);
        assert_eq!(blended[member].len(), 8);
    }
}

#[test]
fn blending_leaves_other_buff_types_alone() {
    let blended = build_blended_histograms();
    assert_eq!(blended[5].as_slice(), &HIST_ATTACK_FLAT[..]);
    assert_eq!(blended[6].as_slice(), buff_histogram(6));
}

#[test]
fn blend_group_pools_catalog_counts_into_given_histograms() {
    let mut histograms = catalog_histograms();
    histograms[1][3] = (999, 1);
    blend_group(&mut histograms, &BLEND_GROUP_CRIT);
    assert_eq!(histograms[1][3], (999, 362 + 335));
    assert_eq!(histograms[0][3], (81, 362 + 335));
    assert_eq!(histograms[2].as_slice(), buff_histogram(2));
    let total: u32 = histograms[1].iter().map(|entry| entry.1).sum();
    let crit_rate: u32 = buff_histogram(0).iter().map(|entry| entry.1).sum();
    let crit_damage: u32 = HIST_CRIT_DAMAGE.iter().map(|entry| entry.1).sum();
    assert_eq!(total, crit_rate + crit_damage);
}

#[test]
fn tally_groups_counts_by_score() {
    let histogram = [(10u16, 1u32), (20, 2), (30, 3), (40, 4)];
    let scores = [5u16, 7, 5, 1];
    assert_eq!(
        tally_scores(&histogram, &scores),
        Some(vec![(1, 4), (5, 4), (7, 2)])
    );
}

#[test]
fn tally_conserves_the_counts() {
    for index in 0..13 {
        let histogram = buff_histogram(index);
        let scores: Vec<u16> = histogram.iter().map(|entry| entry.0 / 50).collect();
        let tally = tally_scores(histogram, &scores).unwrap();
        let tallied: u64 = tally.iter().map(|entry| entry.1).sum();
        let total: u64 = histogram.iter().map(|entry| entry.1 as u64).sum();
        assert_eq!(tallied, total);
        assert!(tally.windows(2).all(|pair| pair[0].0 < pair[1].0));
    }
}

#[test]
fn tally_of_nothing_is_empty_and_mismatch_is_refused() {
    assert_eq!(tally_scores(&[], &[]), Some(vec![]));
    assert_eq!(tally_scores(&[(1, 1)], &[]), None);
    assert_eq!(tally_scores(&[], &[3]), None);
    assert_eq!(
        tally_scores(&[(1, u32::MAX), (2, u32::MAX)], &[9, 9]),
        Some(vec![(9, 2 * (u32::MAX as u64))])
    );
}
