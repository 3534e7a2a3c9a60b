use echo_policy::mask::{
    bits_to_mask, build_full_mask_to_index, build_full_masks, build_partial_mask_to_index,
    build_partial_masks, calculate_num_filled_slots, count_full_masks, count_partial_masks,
    full_mask_to_index, is_mask_in_domain, is_valid_external_full_mask,
    is_valid_external_partial_mask, is_valid_full_mask, is_valid_partial_mask, mask_to_bits,
    partial_mask_to_index, MaskTables, FULL_MASK_SPACE, MASK_ALL, PARTIAL_MASK_SPACE,
};

#[test]
fn bits_round_trip_on_example_mask() {
    let bits = [0u8, 1, 0, 0, 0, 0, 0, 0, 0, 0, 0, 0, 1];
    let mask = bits_to_mask(&bits);
    assert_eq!(mask, 0x1002);
    assert_eq!(mask_to_bits(mask), bits);
}

#[test]
fn bits_round_trip_for_every_mask_of_the_domain() {
    for mask in 0..=MASK_ALL {
        assert_eq!(bits_to_mask(&mask_to_bits(mask)), mask);
    }
}

#[test]
fn bits_round_trip_drops_bits_outside_the_domain() {
    assert_eq!(bits_to_mask(&mask_to_bits(0xE005)), 0x0005);
    assert_eq!(bits_to_mask(&mask_to_bits(u16::MAX)), MASK_ALL);
}

#[test]
fn bits_to_mask_ignores_other_entries() {
    assert_eq!(bits_to_mask(&[]), 0);
    assert_eq!(bits_to_mask(&[1]), 1);
    assert_eq!(bits_to_mask(&[2, 1, 7, 1]), 0b1010);
    let long = [1u8; 16];
    assert_eq!(bits_to_mask(&long), MASK_ALL);
}

#[test]
fn filled_slots_are_counted() {
    assert_eq!(calculate_num_filled_slots(0), 0);
    assert_eq!(calculate_num_filled_slots(0b1011), 3);
    assert_eq!(calculate_num_filled_slots(MASK_ALL), 13);
    assert_eq!(calculate_num_filled_slots(u16::MAX), 16);
}

#[test]
fn validity_follows_bit_count_and_domain() {
    assert!(is_valid_partial_mask(0));
    assert!(is_valid_partial_mask(0b1111));
    assert!(!is_valid_partial_mask(0b11111));
    assert!(is_valid_full_mask(0b11111));
    assert!(!is_valid_full_mask(0b1111));
    assert!(!is_valid_full_mask(0b111111));
    assert!(is_mask_in_domain(MASK_ALL));
    assert!(!is_mask_in_domain(0x2000));
    assert!(is_valid_external_partial_mask(0x1000));
    assert!(!is_valid_external_partial_mask(0x2000));
    assert!(is_valid_external_full_mask(0x1F00));
    assert!(!is_valid_external_full_mask(0x2F00));
    assert!(is_valid_full_mask(0x2F00));
}

#[test]
fn there_are_1093_partial_and_1287_full_masks() {
    assert_eq!(count_partial_masks(), 1093);
    assert_eq!(count_full_masks(), 1287);
    assert_eq!(build_partial_masks().len(), 1093);
    assert_eq!(build_full_masks().len(), 1287);
    assert_eq!(build_partial_mask_to_index().len(), PARTIAL_MASK_SPACE + 1);
    assert_eq!(build_full_mask_to_index().len(), FULL_MASK_SPACE + 1);
}

#[test]
fn mask_lists_ascend_from_first_to_last_member() {
    let partial = build_partial_masks();
    assert_eq!(partial[0], 0);
    assert_eq!(partial[16], 16);
    assert_eq!(*partial.last().unwrap(), 7680);
    assert!(partial.windows(2).all(|pair| pair[0] < pair[1]));
    let full = build_full_masks();
    assert_eq!(full[0], 31);
    assert_eq!(full[1], 47);
    assert_eq!(*full.last().unwrap(), 7936);
    assert!(full.windows(2).all(|pair| pair[0] < pair[1]));
}

#[test]
fn dense_index_is_a_bijection() {
    let tables = MaskTables::new();
    assert_eq!(tables.num_partial_masks(), 1093);
    assert_eq!(tables.num_full_masks(), 1287);
    for index in 0..tables.num_partial_masks() {
        let mask = tables.partial_mask(index);
        assert_eq!(partial_mask_to_index(&tables, mask), index);
        assert_eq!(tables.find_partial(mask), Some(index));
    }
    for index in 0..tables.num_full_masks() {
        let mask = tables.full_mask(index);
        assert_eq!(full_mask_to_index(&tables, mask), index);
        assert_eq!(tables.find_full(mask), Some(index));
    }
}

#[test]
fn index_of_a_mask_outside_its_family_is_zero_or_none() {
    let tables = MaskTables::new();
    assert_eq!(partial_mask_to_index(&tables, 31), 0);
    assert_eq!(full_mask_to_index(&tables, 30), 0);
    assert_eq!(full_mask_to_index(&tables, 31), 0);
    assert_eq!(full_mask_to_index(&tables, 47), 1);
    assert_eq!(partial_mask_to_index(&tables, 32), 31);
    assert_eq!(tables.find_partial(31), None);
    assert_eq!(tables.find_full(30), None);
    assert_eq!(tables.find_partial(0x2000), None);
    assert_eq!(tables.find_full(0x2F00), None);
}
