//! What revealing slots costs, in whole units: echoes, tuners, and raw echo
//! experience. The weights that turn these into one number, and the share of
//! experience that is refunded, are numbers of the caller's; of each the rules
//! read its class only.

use crate::scoring::WeightClass;
use vstd::prelude::*;

verus! {

/// Echoes used up by revealing the first slot.
pub const ECHO_COST: u32 = 1;

/// Tuners used up by revealing one slot.
pub const TUNER_COST: u32 = 10;

/// The share of the tuners that comes back when an echo is abandoned, in
/// percent.
pub const TUNER_REFUND_PERCENT: u32 = 30;

/// Raw experience in one sealed tube.
pub const EXP_PER_TUBE: u32 = 5000;

/// The raw experience it takes to level an echo far enough to reveal slot 1,
/// 2, 3, 4 and 5, counted from a fresh echo.
pub const EXP_COST_BY_LEVEL: [u32; 5] = [4400, 16500, 39600, 79100, 142600];

/// The raw experience it takes to get from one slot to the next.
pub const EXP_INCREMENTAL_COSTS: [u32; 5] = [4400, 12100, 23100, 39500, 63500];

/// The share of the experience that comes back by default, in percent.
pub const EXP_REFUND_PERCENT_DEFAULT: u32 = 66;

/// The largest share of the experience that can come back, in percent.
pub const EXP_REFUND_PERCENT_MAX: u32 = 75;

/// The three resources that a cost weighs.
#[derive(Clone, Copy, PartialEq, Eq, Structural, Debug)]
pub enum CostField {
    Echo,
    Tuner,
    Exp,
}

/// Why parameters make no cost model.
#[derive(Clone, Copy, PartialEq, Eq, Structural, Debug)]
pub enum CostModelError {
    NegativeWeight { field: CostField },
    AllWeightsZero,
    InvalidExpRefundRatio,
}

/// The name of the weight of a resource.
pub fn field_name(field: CostField) -> (name: &'static str)
    ensures
        name@ == match field {
            CostField::Echo => "weight_echo"@,
            CostField::Tuner => "weight_tuner"@,
            CostField::Exp => "weight_exp"@,
        },
{
    match field {
        CostField::Echo => "weight_echo",
        CostField::Tuner => "weight_tuner",
        CostField::Exp => "weight_exp",
    }
}

/// What is wrong with the parameters of a cost model, if anything. The
/// weights are checked in the order echo, tuner, experience; then the refund
/// ratio; then that not every weight is zero.
pub open spec fn cost_model_fault(
    weight_echo: WeightClass,
    weight_tuner: WeightClass,
    weight_exp: WeightClass,
    refund_in_range: bool,
) -> Option<CostModelError> {
    if weight_echo == WeightClass::Invalid {
        Some(CostModelError::NegativeWeight { field: CostField::Echo })
    } else if weight_tuner == WeightClass::Invalid {
        Some(CostModelError::NegativeWeight { field: CostField::Tuner })
    } else if weight_exp == WeightClass::Invalid {
        Some(CostModelError::NegativeWeight { field: CostField::Exp })
    } else if !refund_in_range {
        Some(CostModelError::InvalidExpRefundRatio)
    } else if weight_echo == WeightClass::Zero && weight_tuner == WeightClass::Zero && weight_exp
        == WeightClass::Zero {
        Some(CostModelError::AllWeightsZero)
    } else {
        None
    }
}

/// Checks the parameters of a cost model. `refund_in_range` says whether the
/// refund ratio is a number from zero to the largest share.
pub fn validate_weights(
    weight_echo: WeightClass,
    weight_tuner: WeightClass,
    weight_exp: WeightClass,
    refund_in_range: bool,
) -> (result: Result<(), CostModelError>)
    ensures
        result == match cost_model_fault(weight_echo, weight_tuner, weight_exp, refund_in_range) {
            Some(fault) => Err::<(), _>(fault),
            None => Ok(()),
        },
{
    match weight_echo {
        WeightClass::Invalid => {
            return Err(CostModelError::NegativeWeight { field: CostField::Echo });
        },
        _ => {},
    }
    match weight_tuner {
        WeightClass::Invalid => {
            return Err(CostModelError::NegativeWeight { field: CostField::Tuner });
        },
        _ => {},
    }
    match weight_exp {
        WeightClass::Invalid => {
            return Err(CostModelError::NegativeWeight { field: CostField::Exp });
        },
        _ => {},
    }
    if !refund_in_range {
        return Err(CostModelError::InvalidExpRefundRatio);
    }
    match (weight_echo, weight_tuner, weight_exp) {
        (WeightClass::Zero, WeightClass::Zero, WeightClass::Zero) => Err(
            CostModelError::AllWeightsZero,
        ),
        _ => Ok(()),
    }
}

/// The raw experience that the slots from `from` on take together.
pub open spec fn exp_from(from: nat) -> nat
    decreases 5 - from,
{
    if from >= 5 {
        0
    } else {
        EXP_INCREMENTAL_COSTS@[from as int] as nat + exp_from(from + 1)
    }
}

/// The whole units that revealing slot `slot` uses up: echoes, tuners, and
/// raw experience.
pub open spec fn reveal_units(slot: nat) -> (nat, nat, nat) {
    (
        if slot == 0 {
            ECHO_COST as nat
        } else {
            0
        },
        TUNER_COST as nat,
        EXP_INCREMENTAL_COSTS@[slot as int] as nat,
    )
}

/// The experience by level is the running sum of the experience from slot to
/// slot.
pub proof fn lemma_exp_by_level_is_running_sum(level: nat)
    requires
        level < 5,
    ensures
        EXP_COST_BY_LEVEL@[level as int] + exp_from(level + 1) == exp_from(0),
        exp_from(0) == EXP_COST_BY_LEVEL@[4],
{
    reveal_with_fuel(exp_from, 6);
}

/// The echoes that revealing slot `slot` uses up: one for the first slot.
pub fn echo_cost(slot: usize) -> (echoes: u32)
    ensures
        echoes == reveal_units(slot as nat).0,
{
    if slot == 0 {
        ECHO_COST
    } else {
        0
    }
}

/// The raw experience that revealing slot `slot` takes.
pub fn exp_cost(slot: usize) -> (exp: u32)
    requires
        slot < 5,
    ensures
        exp == reveal_units(slot as nat).2,
{
    EXP_INCREMENTAL_COSTS[slot]
}

/// The raw experience that it takes to finish an echo with `current_slot`
/// slots revealed.
pub fn full_upgrade_exp_cost(current_slot: usize) -> (exp: u32)
    requires
        current_slot <= 5,
    ensures
        exp == exp_from(current_slot as nat),
{
    proof {
        reveal_with_fuel(exp_from, 6);
    }
    let exp_now = if current_slot == 0 {
        0
    } else {
        EXP_COST_BY_LEVEL[current_slot - 1]
    };
    EXP_COST_BY_LEVEL[4] - exp_now
}

} // verus!
