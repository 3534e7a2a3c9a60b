use echo_policy::selection::{
    buff_index, buff_key_at, build_full_mask, build_mask, default_lambda_max_iter,
    default_reroll_top_k, default_scorer_type, lock_slot_indices_from_mask, names_equal,
    recommended_top_k, sum_scores, SelectionError,
};

fn names(keys: &[&str]) -> Vec<String> {
    keys.iter().map(|key| key.to_string()).collect()
}

#[test]
fn every_key_names_its_buff_type() {
    for index in 0..13 {
        assert_eq!(buff_index(buff_key_at(index)), Some(index));
    }
    assert_eq!(buff_index("Crit_Rate"), Some(0));
    assert_eq!(buff_index("ER"), Some(8));
    assert_eq!(buff_index("Ult_Damage"), Some(12));
}

#[test]
fn unknown_keys_name_nothing() {
    assert_eq!(buff_index(""), None);
    assert_eq!(buff_index("crit_rate"), None);
    assert_eq!(buff_index("Crit_Rate "), None);
    assert_eq!(buff_index("暴击"), None);
}

#[test]
fn names_are_compared_exactly() {
    assert!(names_equal("HP", "HP"));
    assert!(!names_equal("HP", "HP_Flat"));
    assert!(!names_equal("HP", "hp"));
    assert!(names_equal("", ""));
    assert!(names_equal("暴击", "暴击"));
    assert!(!names_equal("暴击", "暴伤"));
}

#[test]
fn mask_of_a_selection_has_one_bit_for_each_key() {
    assert_eq!(build_mask(&names(&[])), Ok(0));
    assert_eq!(build_mask(&names(&["Crit_Rate", "ER"])), Ok(257));
    assert_eq!(
        build_mask(&names(&["Ult_Damage", "Crit_Damage", "Attack", "HP", "HP_Flat"])),
        Ok((1 << 12) | (1 << 1) | (1 << 2) | (1 << 4) | (1 << 7))
    );
}

#[test]
fn selection_faults_are_named_in_order() {
    assert_eq!(
        build_mask(&names(&["ER", "ER", "nope", "HP", "HP", "Attack"])),
        Err(SelectionError::TooManyBuffs { count: 6 })
    );
    assert_eq!(
        build_mask(&names(&["ER", "nope", "ER"])),
        Err(SelectionError::UnknownBuff { position: 1 })
    );
    assert_eq!(
        build_mask(&names(&["ER", "HP", "ER", "nope"])),
        Err(SelectionError::DuplicateBuff { position: 2 })
    );
}

#[test]
fn a_full_mask_takes_exactly_five_keys() {
    assert_eq!(
        build_full_mask(&names(&["Crit_Rate", "Crit_Damage", "Attack", "Defence", "HP"])),
        Ok(0b11111)
    );
    assert_eq!(
        build_full_mask(&names(&["Crit_Rate", "Crit_Damage", "Attack", "Defence"])),
        Err(SelectionError::WrongCount { count: 4 })
    );
    assert_eq!(
        build_full_mask(&names(&["Crit_Rate", "Crit_Damage", "Attack", "Defence", "Attack"])),
        Err(SelectionError::DuplicateBuff { position: 4 })
    );
    assert_eq!(
        build_full_mask(&names(&["a", "b", "c", "d", "e", "f"])),
        Err(SelectionError::WrongCount { count: 6 })
    );
}

#[test]
fn locked_slots_are_numbered_from_one() {
    let baseline = names(&["Ult_Damage", "Crit_Rate", "mystery", "ER", "Crit_Damage"]);
    assert_eq!(
        lock_slot_indices_from_mask((1 << 0) | (1 << 1), &baseline),
        vec![2, 5]
    );
    assert_eq!(lock_slot_indices_from_mask(0, &baseline), Vec::<usize>::new());
    assert_eq!(
        lock_slot_indices_from_mask(0x1FFF, &baseline),
        vec![1, 2, 4, 5]
    );
}

#[test]
fn defaults_are_as_documented() {
    assert_eq!(default_lambda_max_iter(), 120);
    assert_eq!(default_reroll_top_k(), 3);
    assert_eq!(default_scorer_type(), "linear");
}

#[test]
fn recommended_top_k_is_capped_at_the_default() {
    assert_eq!(recommended_top_k(0), 3);
    assert_eq!(recommended_top_k(1), 1);
    assert_eq!(recommended_top_k(3), 3);
    assert_eq!(recommended_top_k(4), 3);
    assert_eq!(recommended_top_k(usize::MAX), 3);
}

#[test]
fn scores_are_summed_where_a_score_can_hold_them() {
    assert_eq!(sum_scores(&vec![]), Some(0));
    assert_eq!(sum_scores(&vec![1391, 1457]), Some(2848));
    assert_eq!(sum_scores(&vec![65535]), Some(65535));
    assert_eq!(sum_scores(&vec![65535, 1]), None);
    assert_eq!(sum_scores(&vec![u32::MAX, u32::MAX, 7]), None);
}
