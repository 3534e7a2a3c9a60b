use echo_policy::score_bounds::{best_case_remaining_score, mask_score_sum, top_scores_sum};

const SCORES: [u16; 13] = [1, 2, 3, 4, 5, 6, 7, 8, 9, 10, 11, 12, 13];

#[test]
fn best_case_of_the_empty_mask_is_the_five_largest() {
    assert_eq!(best_case_remaining_score(0, &SCORES), 13 + 12 + 11 + 10 + 9);
}

#[test]
fn best_case_skips_used_buff_types() {
    assert_eq!(best_case_remaining_score(1 << 12, &SCORES), 12 + 11 + 10 + 9);
    assert_eq!(
        best_case_remaining_score((1 << 12) | (1 << 11) | 1, &SCORES),
        11 + 10
    );
}

#[test]
fn best_case_of_a_full_mask_is_zero() {
    assert_eq!(best_case_remaining_score(0b11111, &SCORES), 0);
    assert_eq!(best_case_remaining_score(0b111111, &SCORES), 0);
}

#[test]
fn best_case_with_equal_and_unordered_scores() {
    let scores = [7u16, 0, 7, 3, 7, 0, 0, 9, 0, 0, 2, 0, 7];
    assert_eq!(best_case_remaining_score(0, &scores), 9 + 7 + 7 + 7 + 7);
    assert_eq!(best_case_remaining_score(1 << 7, &scores), 7 + 7 + 7 + 7);
    assert_eq!(best_case_remaining_score(0b1111, &scores), 9);
}

#[test]
fn top_scores_sum_counts_the_picks() {
    assert_eq!(top_scores_sum(0, &SCORES, 0), 0);
    assert_eq!(top_scores_sum(0, &SCORES, 1), 13);
    assert_eq!(top_scores_sum(0, &SCORES, 5), 55);
    assert_eq!(top_scores_sum(0, &[u16::MAX; 13], 5), 5 * 65535);
    assert_eq!(top_scores_sum(0x1FFF, &SCORES, 5), 0);
}

#[test]
fn mask_score_sum_adds_the_used_buff_types() {
    assert_eq!(mask_score_sum(0, &SCORES), 0);
    assert_eq!(mask_score_sum(0b101, &SCORES), 1 + 3);
    assert_eq!(mask_score_sum(0x1FFF, &SCORES), 91);
    assert_eq!(mask_score_sum(0xFFFF, &SCORES), 91);
}
