//! The library against plain recomputation on many inputs.

use echo_policy::data::buff_histogram;
use echo_policy::mask::{
    build_full_masks, build_partial_masks, calculate_num_filled_slots, mask_to_bits, MASK_ALL,
};
use echo_policy::reroll_policy::{LockChoice, RerollPolicySolver};
use echo_policy::score_bounds::{best_case_remaining_score, mask_score_sum, top_scores_sum};
use echo_policy::scoring::{
    build_blended_histograms, tally_scores, WeightClass, BLEND_GROUP_CRIT, BLEND_GROUP_MAIN,
};
use echo_policy::selection::{buff_key_at, build_mask, lock_slot_indices_from_mask};

/// A small generator of numbers that look random.
struct Lcg(u64);

impl Lcg {
    fn next(&mut self) -> u64 {
        self.0 = self
            .0
            .wrapping_mul(6364136223846793005)
            .wrapping_add(1442695040888963407);
        self.0 >> 33
    }

    fn below(&mut self, bound: u64) -> u64 {
        self.next() % bound
    }
}

#[test]
fn mask_lists_are_the_masks_of_their_bit_count() {
    let partial: Vec<u16> = (0..=MASK_ALL)
        .filter(|mask| mask.count_ones() <= 4)
        .collect();
    let full: Vec<u16> = (0..=MASK_ALL)
        .filter(|mask| mask.count_ones() == 5)
        .collect();
    assert_eq!(build_partial_masks(), partial);
    assert_eq!(build_full_masks(), full);
}

#[test]
fn best_case_is_the_sum_of_the_largest_unused_scores() {
    let mut random = Lcg(7);
    for _ in 0..2000 {
        let mut scores = [0u16; 13];
        for score in scores.iter_mut() {
            *score = random.below(13000) as u16;
            if random.below(4) == 0 {
                *score = random.below(3) as u16;
            }
        }
        let mask = random.below(8192) as u16;
        let filled = calculate_num_filled_slots(mask);
        let mut unused: Vec<u16> = (0..13)
            .filter(|buff| mask & (1 << buff) == 0)
            .map(|buff| scores[buff])
            .collect();
        unused.sort_by(|a, b| b.cmp(a));
        let slots = 5usize.saturating_sub(filled);
        let expected: u32 = unused.iter().take(slots).map(|&s| s as u32).sum();
        assert_eq!(best_case_remaining_score(mask, &scores) as u32, expected);
        for picks in 0..=5 {
            let top: u32 = unused.iter().take(picks).map(|&s| s as u32).sum();
            assert_eq!(top_scores_sum(mask, &scores, picks), top);
        }
        let used: u32 = (0..13)
            .filter(|buff| mask & (1 << buff) != 0)
            .map(|buff| scores[buff] as u32)
            .sum();
        assert_eq!(mask_score_sum(mask, &scores), used);
    }
}

#[test]
fn tally_agrees_with_a_plain_count() {
    let mut random = Lcg(11);
    for _ in 0..500 {
        let len = random.below(12) as usize;
        let histogram: Vec<(u16, u32)> = (0..len)
            .map(|_| (random.below(600) as u16, random.below(5000) as u32))
            .collect();
        let scores: Vec<u16> = (0..len).map(|_| random.below(6) as u16 * 100).collect();
        let tally = tally_scores(&histogram, &scores).unwrap();
        let mut expected: Vec<(u16, u64)> = Vec::new();
        for score in 0..=600u16 {
            if scores.contains(&score) {
                let count = (0..len)
                    .filter(|&i| scores[i] == score)
                    .map(|i| histogram[i].1 as u64)
                    .sum();
                expected.push((score, count));
            }
        }
        assert_eq!(tally, expected);
    }
}

#[test]
fn blended_counts_are_the_group_sums_in_every_bucket() {
    let blended = build_blended_histograms();
    for buff in 0..13 {
        let group: Vec<usize> = if BLEND_GROUP_CRIT.contains(&buff) {
            BLEND_GROUP_CRIT.to_vec()
        } else if BLEND_GROUP_MAIN.contains(&buff) {
            BLEND_GROUP_MAIN.to_vec()
        } else {
            vec![buff]
        };
        let catalog = buff_histogram(buff);
        assert_eq!(blended[buff].len(), catalog.len());
        for bucket in 0..catalog.len() {
            let pooled: u32 = group
                .iter()
                .map(|&member| buff_histogram(member)[bucket].1)
                .sum();
            assert_eq!(blended[buff][bucket], (catalog[bucket].0, pooled));
        }
    }
}

#[test]
fn lock_tables_agree_with_a_plain_search() {
    let mut random = Lcg(13);
    for _ in 0..4 {
        let mut weights = [WeightClass::Zero; 13];
        let mut positive: u16 = 0;
        for buff in 0..13 {
            if random.below(2) == 0 {
                weights[buff] = WeightClass::Positive;
                positive |= 1 << buff;
            }
        }
        if positive == 0 {
            weights[0] = WeightClass::Positive;
            positive = 1;
        }
        let solver = RerollPolicySolver::new(&weights, true).unwrap();
        let full = build_full_masks();
        for index in (0..full.len()).step_by(37) {
            let mask = full[index];
            let expected: Vec<u16> = (0..=mask)
                .rev()
                .filter(|lock| {
                    lock & !mask == 0 && lock & !positive == 0 && lock.count_ones() <= 4
                })
                .collect();
            assert_eq!(solver.lock_set(index), Some(&expected));
            for &lock in expected.iter().step_by(5) {
                let outcomes: Vec<usize> = (0..full.len())
                    .filter(|&state| lock & !full[state] == 0)
                    .collect();
                assert_eq!(solver.outcomes(lock), Some(&outcomes));
            }
        }
    }
}

#[test]
fn ranking_agrees_with_a_stable_sort() {
    let mut random = Lcg(17);
    let mut solver = RerollPolicySolver::new(&[WeightClass::Positive; 13], true).unwrap();
    let n = solver.num_states();
    let success: Vec<bool> = (0..n).map(|_| random.below(5) == 0).collect();
    let kept = success.clone();
    if solver.set_target(success).is_err() {
        panic!("some state is a success");
    }
    let dp: Vec<u64> = (0..n)
        .map(|index| if kept[index] { 0 } else { 1 + random.below(50) })
        .collect();
    let costs: Vec<Vec<u64>> = (0..n)
        .map(|index| {
            (0..solver.lock_set(index).unwrap().len())
                .map(|_| random.below(6))
                .collect()
        })
        .collect();
    solver.install_policy(dp.clone(), costs.clone()).unwrap();
    for index in 0..n {
        let mask = solver.state_mask(index).unwrap();
        let choices = solver.lock_choices(mask, 0).unwrap();
        if kept[index] {
            assert!(choices.is_empty());
            continue;
        }
        let locks = solver.lock_set(index).unwrap();
        let mut expected: Vec<(u16, u64)> = locks
            .iter()
            .zip(costs[index].iter())
            .map(|(&lock, &cost)| (lock, cost))
            .collect();
        expected.sort_by_key(|&(_, cost)| cost);
        let got: Vec<(u16, u64)> = choices
            .iter()
            .map(|choice: &LockChoice| (choice.lock_mask, choice.expected_cost))
            .collect();
        assert_eq!(got, expected);
        for choice in choices.iter() {
            let outcomes = solver.outcomes(choice.lock_mask).unwrap();
            assert_eq!(choice.outcomes, outcomes.len());
            assert_eq!(
                choice.successes,
                outcomes.iter().filter(|&&state| kept[state]).count()
            );
        }
        assert_eq!(solver.expected_lock_cost(mask), Ok(dp[index]));
        assert_eq!(solver.best_lock_choices(mask), Ok(Some(expected[0].0)));
    }
}

#[test]
fn selections_agree_with_the_bits_of_their_mask() {
    let mut random = Lcg(19);
    for _ in 0..500 {
        let count = random.below(6) as usize;
        let mut buffs: Vec<usize> = Vec::new();
        while buffs.len() < count {
            let buff = random.below(13) as usize;
            if !buffs.contains(&buff) {
                buffs.push(buff);
            }
        }
        let names: Vec<String> = buffs
            .iter()
            .map(|&buff| buff_key_at(buff).to_string())
            .collect();
        let mask = build_mask(&names).unwrap();
        let bits = mask_to_bits(mask);
        for buff in 0..13 {
            assert_eq!(bits[buff] == 1, buffs.contains(&buff));
        }
        let lock = random.below(8192) as u16;
        let slots: Vec<usize> = (0..count)
            .filter(|&slot| lock & (1 << buffs[slot]) != 0)
            .map(|slot| slot + 1)
            .collect();
        assert_eq!(lock_slot_indices_from_mask(lock, &names), slots);
    }
}
