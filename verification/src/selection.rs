//! Selections of buff types by name, as a caller spells them out: the key of
//! each buff type, the mask of a list of keys, and the slots that a lock
//! holds.

use crate::mask::{has_bit, popcount};
use vstd::prelude::*;
use vstd::string::StringSliceAdditionalSpecFns;

verus! {

/// How many lock choices are recommended at most.
pub const REROLL_TOP_K: usize = 3;

/// The key of buff type `index`.
pub open spec fn buff_key(index: int) -> Seq<char> {
    if index == 0 {
        "Crit_Rate"@
    } else if index == 1 {
        "Crit_Damage"@
    } else if index == 2 {
        "Attack"@
    } else if index == 3 {
        "Defence"@
    } else if index == 4 {
        "HP"@
    } else if index == 5 {
        "Attack_Flat"@
    } else if index == 6 {
        "Defence_Flat"@
    } else if index == 7 {
        "HP_Flat"@
    } else if index == 8 {
        "ER"@
    } else if index == 9 {
        "Basic_Attack_Damage"@
    } else if index == 10 {
        "Heavy_Attack_Damage"@
    } else if index == 11 {
        "Skill_Damage"@
    } else {
        "Ult_Damage"@
    }
}

/// The key of buff type `index`.
pub fn buff_key_at(index: usize) -> (key: &'static str)
    requires
        index < 13,
    ensures
        key@ == buff_key(index as int),
{
    if index == 0 {
        "Crit_Rate"
    } else if index == 1 {
        "Crit_Damage"
    } else if index == 2 {
        "Attack"
    } else if index == 3 {
        "Defence"
    } else if index == 4 {
        "HP"
    } else if index == 5 {
        "Attack_Flat"
    } else if index == 6 {
        "Defence_Flat"
    } else if index == 7 {
        "HP_Flat"
    } else if index == 8 {
        "ER"
    } else if index == 9 {
        "Basic_Attack_Damage"
    } else if index == 10 {
        "Heavy_Attack_Damage"
    } else if index == 11 {
        "Skill_Damage"
    } else {
        "Ult_Damage"
    }
}

/// Why a list of keys names no mask.
#[derive(Clone, Copy, PartialEq, Eq, Structural, Debug)]
pub enum SelectionError {
    /// More keys than an echo has slots.
    TooManyBuffs { count: usize },
    /// The key at this position is the key of no buff type.
    UnknownBuff { position: usize },
    /// The key at this position occurs earlier in the list.
    DuplicateBuff { position: usize },
    /// A full echo takes exactly five keys.
    WrongCount { count: usize },
}

/// Whether two strings are equal.
pub fn names_equal(a: &str, b: &str) -> (equal: bool)
    ensures
        equal == (a@ == b@),
{
    let x = a.as_bytes();
    let y = b.as_bytes();
    proof {
        vstd::utf8::encode_utf8_decode_utf8(a@);
        vstd::utf8::encode_utf8_decode_utf8(b@);
        assert(x@ == a.spec_bytes());
        assert(y@ == b.spec_bytes());
        assert(a@ == b@ ==> x@ == y@);
        assert(x@ == y@ ==> a@ == b@);
    }
    if x.len() != y.len() {
        return false;
    }
    let mut i: usize = 0;
    while i < x.len()
        invariant
            i <= x@.len(),
            x@.len() == y@.len(),
            a@ == b@ ==> x@ == y@,
            forall|k: int| 0 <= k < i ==> x@[k] == y@[k],
        decreases x@.len() - i,
    {
        if x[i] != y[i] {
            return false;
        }
        i += 1;
    }
    assert(x@ =~= y@);
    true
}

/// The first buff type among the first `count` whose key is `name`.
pub open spec fn key_index(name: Seq<char>, count: nat) -> Option<usize>
    decreases count,
{
    if count == 0 {
        None
    } else {
        match key_index(name, (count - 1) as nat) {
            Some(index) => Some(index),
            None => if buff_key(count - 1) == name {
                Some((count - 1) as usize)
            } else {
                None
            },
        }
    }
}

proof fn lemma_key_index_stays(name: Seq<char>, low: nat, high: nat)
    requires
        low <= high,
        key_index(name, low).is_some(),
    ensures
        key_index(name, high) == key_index(name, low),
    decreases high,
{
    if low < high {
        lemma_key_index_stays(name, low, (high - 1) as nat);
    }
}

/// A key that is found is the key of a buff type.
pub proof fn lemma_key_index_bound(name: Seq<char>, count: nat)
    requires
        count <= 13,
    ensures
        key_index(name, count) matches Some(index) ==> index < count && buff_key(index as int)
            == name,
    decreases count,
{
    if count > 0 {
        lemma_key_index_bound(name, (count - 1) as nat);
    }
}

/// The buff type with the key `buff_name`.
pub fn buff_index(buff_name: &str) -> (index: Option<usize>)
    ensures
        index == key_index(buff_name@, 13),
        index matches Some(i) ==> i < 13,
{
    let mut index: usize = 0;
    while index < 13
        invariant
            index <= 13,
            key_index(buff_name@, index as nat).is_none(),
        decreases 13 - index,
    {
        if names_equal(buff_key_at(index), buff_name) {
            proof {
                lemma_key_index_stays(buff_name@, (index + 1) as nat, 13);
            }
            return Some(index);
        }
        index += 1;
    }
    None
}

/// The mask of the first `count` keys, or why they name none: the first key
/// that is unknown or that repeats an earlier one.
pub open spec fn selection(buff_names: Seq<String>, count: nat) -> Result<u16, SelectionError>
    decreases count,
{
    if count == 0 {
        Ok(0)
    } else {
        match selection(buff_names, (count - 1) as nat) {
            Err(fault) => Err(fault),
            Ok(mask) => match key_index(buff_names[count - 1]@, 13) {
                None => Err(SelectionError::UnknownBuff { position: (count - 1) as usize }),
                Some(index) => if has_bit(mask, index as int) {
                    Err(SelectionError::DuplicateBuff { position: (count - 1) as usize })
                } else {
                    Ok(mask | (1u16 << (index as u16)))
                },
            },
        }
    }
}

proof fn lemma_selection_fault_stays(buff_names: Seq<String>, low: nat, high: nat)
    requires
        low <= high,
        selection(buff_names, low).is_err(),
    ensures
        selection(buff_names, high) == selection(buff_names, low),
    decreases high,
{
    if low < high {
        lemma_selection_fault_stays(buff_names, low, (high - 1) as nat);
    }
}

/// The mask of a selection has one bit for each key, all of them in the
/// domain.
pub proof fn lemma_selection_mask(buff_names: Seq<String>, count: nat)
    requires
        selection(buff_names, count).is_ok(),
    ensures
        popcount(selection(buff_names, count).unwrap()) == count,
        crate::mask::in_domain(selection(buff_names, count).unwrap()),
    decreases count,
{
    if count == 0 {
        assert(popcount(0u16) == 0 && 0u16 & !0x1FFFu16 == 0) by (bit_vector);
    } else {
        lemma_selection_mask(buff_names, (count - 1) as nat);
        let mask = selection(buff_names, (count - 1) as nat).unwrap();
        let index = key_index(buff_names[count - 1]@, 13).unwrap();
        lemma_key_index_bound(buff_names[count - 1]@, 13);
        let shift = index as u16;
        assert(shift < 13 && (mask >> shift) & 1 != 1 ==> popcount(mask | (1u16 << shift))
            == popcount(mask) + 1) by (bit_vector);
        assert(shift < 13 && mask & !0x1FFFu16 == 0 ==> (mask | (1u16 << shift)) & !0x1FFFu16 == 0)
            by (bit_vector);
    }
}

/// What `build_mask` returns.
pub open spec fn build_mask_spec(buff_names: Seq<String>) -> Result<u16, SelectionError> {
    if buff_names.len() > 5 {
        Err(SelectionError::TooManyBuffs { count: buff_names.len() as usize })
    } else {
        selection(buff_names, buff_names.len())
    }
}

/// The mask of the buff types that `buff_names` lists, at most five of them
/// and none twice.
pub fn build_mask(buff_names: &Vec<String>) -> (result: Result<u16, SelectionError>)
    ensures
        result == build_mask_spec(buff_names@),
{
    if buff_names.len() > 5 {
        return Err(SelectionError::TooManyBuffs { count: buff_names.len() });
    }
    let mut mask: u16 = 0;
    let mut position: usize = 0;
    while position < buff_names.len()
        invariant
            position <= buff_names@.len(),
            buff_names@.len() <= 5,
            selection(buff_names@, position as nat) == Ok::<u16, SelectionError>(mask),
        decreases buff_names@.len() - position,
    {
        let index = match buff_index(buff_names[position].as_str()) {
            Some(index) => index,
            None => {
                proof {
                    assert(selection(buff_names@, (position + 1) as nat) == Err::<
                        u16,
                        SelectionError,
                    >(SelectionError::UnknownBuff { position }));
                    lemma_selection_fault_stays(
                        buff_names@,
                        (position + 1) as nat,
                        buff_names@.len(),
                    );
                }
                return Err(SelectionError::UnknownBuff { position });
            },
        };
        let shift: u16 = index as u16;
        proof {
            assert(shift < 16 ==> (((mask & (1u16 << shift)) != 0) <==> ((mask >> shift) & 1 == 1)))
                by (bit_vector);
        }
        if (mask & (1u16 << shift)) != 0 {
            proof {
                assert(selection(buff_names@, (position + 1) as nat) == Err::<u16, SelectionError>(
                    SelectionError::DuplicateBuff { position },
                ));
                lemma_selection_fault_stays(buff_names@, (position + 1) as nat, buff_names@.len());
            }
            return Err(SelectionError::DuplicateBuff { position });
        }
        mask = mask | (1u16 << shift);
        assert(selection(buff_names@, (position + 1) as nat) == Ok::<u16, SelectionError>(mask));
        position += 1;
    }
    Ok(mask)
}

/// What `build_full_mask` returns.
pub open spec fn build_full_mask_spec(buff_names: Seq<String>) -> Result<u16, SelectionError> {
    if buff_names.len() != 5 {
        Err(SelectionError::WrongCount { count: buff_names.len() as usize })
    } else {
        selection(buff_names, 5)
    }
}

/// The full mask of the five buff types that `buff_names` lists. Five keys
/// that name a mask fill the echo: the mask is a full mask of the domain.
pub fn build_full_mask(buff_names: &Vec<String>) -> (result: Result<u16, SelectionError>)
    ensures
        result == build_full_mask_spec(buff_names@),
        result matches Ok(mask) ==> crate::mask::in_domain(mask) && crate::mask::is_full(mask),
{
    if buff_names.len() != 5 {
        return Err(SelectionError::WrongCount { count: buff_names.len() });
    }
    let result = build_mask(buff_names);
    proof {
        if result.is_ok() {
            lemma_selection_mask(buff_names@, 5);
        }
    }
    result
}

/// A selection fails only on a key that is unknown or repeated.
pub proof fn lemma_selection_faults(buff_names: Seq<String>, count: nat)
    ensures
        selection(buff_names, count) matches Err(fault) ==> fault is UnknownBuff || fault
            is DuplicateBuff,
    decreases count,
{
    if count > 0 {
        lemma_selection_faults(buff_names, (count - 1) as nat);
    }
}

/// Among the first `count` slots of the baseline, the numbers (from one) of
/// those whose buff type the lock holds.
pub open spec fn locked_slots(lock_mask: u16, baseline_buff_names: Seq<String>, count: nat) -> Seq<
    usize,
>
    decreases count,
{
    if count == 0 {
        Seq::empty()
    } else {
        let rest = locked_slots(lock_mask, baseline_buff_names, (count - 1) as nat);
        match key_index(baseline_buff_names[count - 1]@, 13) {
            Some(index) => if has_bit(lock_mask, index as int) {
                rest.push(count as usize)
            } else {
                rest
            },
            None => rest,
        }
    }
}

/// The slots of the baseline echo that a lock holds, numbered from one.
pub fn lock_slot_indices_from_mask(lock_mask: u16, baseline_buff_names: &Vec<String>) -> (slots:
    Vec<usize>)
    ensures
        slots@ == locked_slots(lock_mask, baseline_buff_names@, baseline_buff_names@.len()),
{
    let mut slots: Vec<usize> = Vec::new();
    let mut slot_index: usize = 0;
    while slot_index < baseline_buff_names.len()
        invariant
            slot_index <= baseline_buff_names@.len(),
            slots@ == locked_slots(lock_mask, baseline_buff_names@, slot_index as nat),
        decreases baseline_buff_names@.len() - slot_index,
    {
        match buff_index(baseline_buff_names[slot_index].as_str()) {
            Some(buff) => {
                let shift: u16 = buff as u16;
                proof {
                    assert(shift < 16 ==> (((lock_mask & (1u16 << shift)) != 0) <==> ((lock_mask
                        >> shift) & 1 == 1))) by (bit_vector);
                }
                if (lock_mask & (1u16 << shift)) != 0 {
                    slots.push(slot_index + 1);
                }
            },
            None => {},
        }
        slot_index += 1;
    }
    slots
}

/// The sum of the first `count` scores.
pub open spec fn score_total(scores: Seq<u32>, count: nat) -> nat
    decreases count,
{
    if count == 0 {
        0
    } else {
        score_total(scores, (count - 1) as nat) + scores[count - 1] as nat
    }
}

/// The score of an echo from the scores of its buffs: their sum, where a
/// score can hold it.
pub fn sum_scores(per_buff: &Vec<u32>) -> (total: Option<u16>)
    ensures
        total == if score_total(per_buff@, per_buff@.len()) <= u16::MAX {
            Some(score_total(per_buff@, per_buff@.len()) as u16)
        } else {
            None
        },
{
    let mut sum: u32 = 0;
    let mut i: usize = 0;
    while i < per_buff.len()
        invariant
            i <= per_buff@.len(),
            sum == if score_total(per_buff@, i as nat) <= u32::MAX {
                score_total(per_buff@, i as nat)
            } else {
                u32::MAX as nat
            },
        decreases per_buff@.len() - i,
    {
        sum = sum.saturating_add(per_buff[i]);
        i += 1;
    }
    if sum > 0xFFFF {
        return None;
    }
    Some(sum as u16)
}

/// The largest number of steps that the price search takes by default.
pub fn default_lambda_max_iter() -> (max_iter: usize)
    ensures
        max_iter == 120,
{
    120
}

/// The number of lock choices that are recommended by default.
pub fn default_reroll_top_k() -> (top_k: usize)
    ensures
        top_k == REROLL_TOP_K,
{
    REROLL_TOP_K
}

/// The scorer that is used by default.
pub fn default_scorer_type() -> (scorer_type: &'static str)
    ensures
        scorer_type@ == "linear"@,
{
    "linear"
}

/// The number of lock choices to recommend when `requested` are asked for:
/// the default where none is asked for, and never more than the default.
pub fn recommended_top_k(requested: usize) -> (top_k: usize)
    ensures
        top_k == if requested == 0 || requested > REROLL_TOP_K {
            REROLL_TOP_K
        } else {
            requested
        },
        1 <= top_k <= REROLL_TOP_K,
{
    if requested == 0 || requested > REROLL_TOP_K {
        REROLL_TOP_K
    } else {
        requested
    }
}

} // verus!
