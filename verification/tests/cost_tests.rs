use echo_policy::cost::{
    echo_cost, exp_cost, field_name, full_upgrade_exp_cost, validate_weights, CostField, CostModelError, EXP_COST_BY_LEVEL, EXP_INCREMENTAL_COSTS,
};
use echo_policy::scoring::WeightClass::{Invalid, Positive, Zero};

#[test]
fn tuner_only_weights_are_valid() {
    assert_eq!(validate_weights(Zero, Positive, Zero, true), Ok(()));
}

#[test]
fn cost_weights_are_checked_in_order() {
    assert_eq!(
        validate_weights(Invalid, Invalid, Invalid, false),
        Err(CostModelError::NegativeWeight {
            field: CostField::Echo
        })
    );
    assert_eq!(
        validate_weights(Zero, Invalid, Invalid, false),
        Err(CostModelError::NegativeWeight {
            field: CostField::Tuner
        })
    );
    assert_eq!(
        validate_weights(Zero, Zero, Invalid, false),
        Err(CostModelError::NegativeWeight {
            field: CostField::Exp
        })
    );
    assert_eq!(
        validate_weights(Zero, Zero, Zero, false),
        Err(CostModelError::InvalidExpRefundRatio)
    );
    assert_eq!(
        validate_weights(Zero, Zero, Zero, true),
        Err(CostModelError::AllWeightsZero)
    );
    assert_eq!(validate_weights(Positive, Zero, Zero, true), Ok(()));
    assert_eq!(validate_weights(Zero, Zero, Positive, true), Ok(()));
}

#[test]
fn fields_have_their_names() {
    assert_eq!(field_name(CostField::Echo), "weight_echo");
    assert_eq!(field_name(CostField::Tuner), "weight_tuner");
    assert_eq!(field_name(CostField::Exp), "weight_exp");
}

#[test]
fn experience_to_finish_shrinks_with_each_slot() {
    assert_eq!(full_upgrade_exp_cost(0), 142600);
    assert_eq!(full_upgrade_exp_cost(1), 138200);
    assert_eq!(full_upgrade_exp_cost(2), 126100);
    assert_eq!(full_upgrade_exp_cost(3), 103000);
    assert_eq!(full_upgrade_exp_cost(4), 63500);
    assert_eq!(full_upgrade_exp_cost(5), 0);
}

#[test]
fn experience_by_level_is_the_running_sum() {
    let mut sum = 0;
    for slot in 0..5 {
        sum += exp_cost(slot);
        assert_eq!(exp_cost(slot), EXP_INCREMENTAL_COSTS[slot]);
        assert_eq!(sum, EXP_COST_BY_LEVEL[slot]);
    }
}

#[test]
fn only_the_first_slot_costs_an_echo() {
    assert_eq!(echo_cost(0), 1);
    assert_eq!(echo_cost(1), 0);
    assert_eq!(echo_cost(4), 0);
}
