//! The reroll policy: for each full mask, which slots to lock before the rest
//! is rolled again.
//!
//! The solver keeps the state space (for every full mask its lock choices,
//! and for every lock choice the full masks a reroll can lead to) and the
//! policy. Expected costs are computed by the caller and handed in as keys:
//! unsigned integers that order as the costs they stand for, with zero for
//! the cost zero.

use crate::mask::{
    calculate_num_filled_slots, has_bit, in_domain, is_full, lemma_class_bounds,
    lemma_index_bijection, lemma_masks_below_members, mask_rank, mask_table, popcount, MaskClass,
    MaskTables, FULL_MASK_SPACE,
};
use crate::scoring::{check_fixed_scorer, fixed_scorer_fault, positive_weight_mask, WeightClass};
use rayon::iter::{IntoParallelIterator, ParallelIterator};
use vstd::prelude::*;

verus! {

/// The largest number of slots that can be locked.
pub const MAX_LOCK_SIZE: usize = 4;

/// The cost of a reroll with `size` slots locked; `None` where so many slots
/// cannot be locked.
pub open spec fn lock_cost_spec(size: nat) -> Option<u32> {
    if size <= 2 {
        Some(1u32)
    } else if size == 3 {
        Some(2u32)
    } else if size == 4 {
        Some(3u32)
    } else {
        None
    }
}

/// The cost of a reroll with `size` slots locked: 1 for up to two, 2 for
/// three, 3 for four. More cannot be locked.
pub fn lock_cost(size: usize) -> (cost: Option<u32>)
    ensures
        cost == lock_cost_spec(size as nat),
{
    if size <= 2 {
        Some(1)
    } else if size == 3 {
        Some(2)
    } else if size == 4 {
        Some(3)
    } else {
        None
    }
}

/// Locking more slots never costs less.
pub proof fn lemma_lock_cost_monotone(small: nat, large: nat)
    requires
        small <= large,
        lock_cost_spec(large).is_some(),
    ensures
        lock_cost_spec(small).is_some(),
        lock_cost_spec(small).unwrap() <= lock_cost_spec(large).unwrap(),
{
}

/// Whether `lock` is a lock choice at the full mask `mask`: it locks slots of
/// the mask only, at most `limit` of them, and only buff types of positive
/// weight.
pub open spec fn is_lock_of(lock: u16, mask: u16, positive: u16, limit: int) -> bool {
    &&& lock & !mask == 0
    &&& popcount(lock) <= limit
    &&& lock & !positive == 0
}

/// A lock choice stays one when more slots may be locked: a larger limit
/// never takes a choice away.
pub proof fn lemma_lock_choices_grow_with_limit(
    lock: u16,
    mask: u16,
    positive: u16,
    small: int,
    large: int,
)
    requires
        small <= large,
        is_lock_of(lock, mask, positive, small),
    ensures
        is_lock_of(lock, mask, positive, large),
{
}

/// The lock choices at `mask` that are at least `low`, largest first.
pub open spec fn locks_from(mask: u16, positive: u16, low: nat) -> Seq<u16>
    decreases mask + 1 - low,
{
    if low > mask {
        Seq::empty()
    } else {
        let higher = locks_from(mask, positive, low + 1);
        if is_lock_of(low as u16, mask, positive, MAX_LOCK_SIZE as int) {
            higher.push(low as u16)
        } else {
            higher
        }
    }
}

/// The lock choices at `mask`, largest first. The last one locks nothing.
pub open spec fn lock_set(mask: u16, positive: u16) -> Seq<u16> {
    locks_from(mask, positive, 0)
}

/// Among the first `count` full masks, the dense indices of those at which
/// `lock` is a lock choice, in ascending order: the states that a reroll with
/// `lock` held can lead to.
pub open spec fn outcomes_below(lock: u16, positive: u16, count: nat) -> Seq<usize>
    decreases count,
{
    if count == 0 {
        Seq::empty()
    } else {
        let rest = outcomes_below(lock, positive, (count - 1) as nat);
        if is_lock_of(
            lock,
            mask_table(MaskClass::Full)[count - 1],
            positive,
            MAX_LOCK_SIZE as int,
        ) {
            rest.push((count - 1) as usize)
        } else {
            rest
        }
    }
}

/// The states that a reroll with `lock` held can lead to.
pub open spec fn outcomes_of(lock: u16, positive: u16) -> Seq<usize> {
    outcomes_below(lock, positive, mask_table(MaskClass::Full).len())
}

/// The number of success states among the first `count` entries of `states`.
pub open spec fn success_count(states: Seq<usize>, success: Seq<bool>, count: nat) -> nat
    decreases count,
{
    if count == 0 {
        0
    } else {
        success_count(states, success, (count - 1) as nat) + if success[states[count - 1] as int] {
            1nat
        } else {
            0nat
        }
    }
}

/// The number of flags among the first `count` that are set.
pub open spec fn flags_set(flags: Seq<bool>, count: nat) -> nat
    decreases count,
{
    if count == 0 {
        0
    } else {
        flags_set(flags, (count - 1) as nat) + if flags[count - 1] {
            1nat
        } else {
            0nat
        }
    }
}

proof fn lemma_submask_gap(x: u16, sub: u16, mask: u16, next: u16)
    by (bit_vector)
    requires
        sub & !mask == 0,
        sub != 0,
        next == ((sub - 1) as u16) & mask,
        next < x,
        x < sub,
    ensures
        x & !mask != 0,
{
}

proof fn lemma_submask_step(sub: u16, mask: u16)
    by (bit_vector)
    requires
        sub & !mask == 0,
        sub != 0,
    ensures
        (((sub - 1) as u16) & mask) & !mask == 0,
        (((sub - 1) as u16) & mask) < sub,
        sub <= mask,
{
}

proof fn lemma_submask_le(sub: u16, mask: u16)
    by (bit_vector)
    ensures
        sub & !mask == 0 ==> sub <= mask,
{
}

/// No lock choice lies in a range that holds no submask of `mask`.
proof fn lemma_locks_skip(mask: u16, positive: u16, low: nat, high: nat)
    requires
        low <= high <= mask + 1,
        forall|x: u16| low <= x < high ==> x & !mask != 0,
    ensures
        locks_from(mask, positive, low) == locks_from(mask, positive, high),
    decreases high - low,
{
    if low < high {
        lemma_locks_skip(mask, positive, low + 1, high);
        assert((low as u16) & !mask != 0);
    }
}

/// Every entry of `outcomes_below` is a full mask's index below the bound, at
/// which `lock` is a lock choice.
pub proof fn lemma_outcomes_members(lock: u16, positive: u16, count: nat)
    requires
        count <= mask_table(MaskClass::Full).len(),
    ensures
        outcomes_below(lock, positive, count).len() <= count,
        forall|j: int|
            0 <= j < outcomes_below(lock, positive, count).len() ==> {
                &&& (#[trigger] outcomes_below(lock, positive, count)[j]) < count
                &&& is_lock_of(
                    lock,
                    mask_table(MaskClass::Full)[outcomes_below(lock, positive, count)[j] as int],
                    positive,
                    MAX_LOCK_SIZE as int,
                )
            },
    decreases count,
{
    if count > 0 {
        lemma_masks_below_members(MaskClass::Full, (FULL_MASK_SPACE + 1) as nat);
        lemma_outcomes_members(lock, positive, (count - 1) as nat);
    }
}

/// The number of success states in `states`.
pub fn count_successes(states: &Vec<usize>, success: &Vec<bool>) -> (count: usize)
    requires
        forall|j: int| 0 <= j < states@.len() ==> (#[trigger] states@[j]) < success@.len(),
    ensures
        count == success_count(states@, success@, states@.len()),
        count <= states@.len(),
{
    let mut count: usize = 0;
    let mut j: usize = 0;
    while j < states.len()
        invariant
            j <= states@.len(),
            count == success_count(states@, success@, j as nat),
            count <= j,
            forall|k: int| 0 <= k < states@.len() ==> (#[trigger] states@[k]) < success@.len(),
        decreases states@.len() - j,
    {
        if success[states[j]] {
            count += 1;
        }
        j += 1;
    }
    count
}

/// For each list of states the number of success states in it, computed in
/// parallel.
///
/// This hands the index range of `transitions` to rayon's `into_par_iter`,
/// maps each index with `count_successes`, and collects into a vector. Rayon
/// collects an indexed parallel iterator in the order of its indices, so entry
/// `lock` of the result is the count for entry `lock` of `transitions`.
#[verifier::external_body]
fn par_success_counts(transitions: &Vec<Vec<usize>>, success: &Vec<bool>) -> (counts: Vec<usize>)
    requires
        forall|lock: int, j: int|
            0 <= lock < transitions@.len() && 0 <= j < transitions@[lock]@.len()
                ==> #[trigger] transitions@[lock]@[j] < success@.len(),
    ensures
        counts@.len() == transitions@.len(),
        forall|lock: int|
            0 <= lock < transitions@.len() ==> #[trigger] counts@[lock] == success_count(
                transitions@[lock]@,
                success@,
                transitions@[lock]@.len(),
            ),
{
    (0..transitions.len()).into_par_iter().map(
        |lock| count_successes(&transitions[lock], success),
    ).collect()
}

/// For every full mask its lock choices, and for every lock choice the states
/// that a reroll can lead to.
fn build_lock_tables(tables: &MaskTables, positive: u16) -> (built: (Vec<Vec<u16>>, Vec<Vec<usize>>))
    ensures
        built.0@.len() == mask_table(MaskClass::Full).len(),
        forall|i: int|
            0 <= i < built.0@.len() ==> (#[trigger] built.0@[i])@ == lock_set(
                mask_table(MaskClass::Full)[i],
                positive,
            ),
        built.1@.len() == FULL_MASK_SPACE + 1,
        forall|lock: int|
            0 <= lock <= FULL_MASK_SPACE ==> (#[trigger] built.1@[lock])@ == outcomes_of(
                lock as u16,
                positive,
            ),
{
    let count = tables.num_full_masks();
    let mut lock_sets: Vec<Vec<u16>> = Vec::new();
    let mut transitions: Vec<Vec<usize>> = Vec::new();
    let mut lock: usize = 0;
    while lock <= FULL_MASK_SPACE
        invariant
            lock <= FULL_MASK_SPACE + 1,
            transitions@.len() == lock,
            forall|l: int| 0 <= l < lock ==> (#[trigger] transitions@[l])@ == Seq::<usize>::empty(),
        decreases FULL_MASK_SPACE + 1 - lock,
    {
        transitions.push(Vec::new());
        lock += 1;
    }
    proof {
        lemma_index_bijection(MaskClass::Full);
    }
    let mut index: usize = 0;
    while index < count
        invariant
            index <= count,
            count == mask_table(MaskClass::Full).len(),
            lock_sets@.len() == index,
            transitions@.len() == FULL_MASK_SPACE + 1,
            forall|i: int|
                0 <= i < mask_table(MaskClass::Full).len() ==> (#[trigger] mask_table(
                    MaskClass::Full,
                )[i]) <= FULL_MASK_SPACE,
            forall|i: int|
                0 <= i < index ==> (#[trigger] lock_sets@[i])@ == lock_set(
                    mask_table(MaskClass::Full)[i],
                    positive,
                ),
            forall|l: int|
                0 <= l <= FULL_MASK_SPACE ==> (#[trigger] transitions@[l])@ == outcomes_below(
                    l as u16,
                    positive,
                    index as nat,
                ),
        decreases count - index,
    {
        let mask = tables.full_mask(index);
        let mut subsets: Vec<u16> = Vec::new();
        let mut sub: u16 = mask;
        let mut done = false;
        proof {
            assert(mask & !mask == 0) by (bit_vector);
            assert forall|l: int| 0 <= l <= FULL_MASK_SPACE && l > mask implies !(
            #[trigger] is_lock_of(l as u16, mask, positive, MAX_LOCK_SIZE as int)) by {
                lemma_submask_le(l as u16, mask);
            }
        }
        while !done
            invariant
                index < count,
                count == mask_table(MaskClass::Full).len(),
                mask == mask_table(MaskClass::Full)[index as int],
                mask <= FULL_MASK_SPACE,
                transitions@.len() == FULL_MASK_SPACE + 1,
                sub <= mask,
                sub & !mask == 0,
                done ==> sub == 0,
                subsets@ == locks_from(
                    mask,
                    positive,
                    if done {
                        0nat
                    } else {
                        (sub + 1) as nat
                    },
                ),
                forall|l: int|
                    0 <= l <= FULL_MASK_SPACE ==> (#[trigger] transitions@[l])@ == if (done || l
                        > sub) && is_lock_of(l as u16, mask, positive, MAX_LOCK_SIZE as int) {
                        outcomes_below(l as u16, positive, index as nat).push(index)
                    } else {
                        outcomes_below(l as u16, positive, index as nat)
                    },
            decreases
                    if done {
                        0int
                    } else {
                        sub + 1
                    },
        {
            if calculate_num_filled_slots(sub) <= MAX_LOCK_SIZE && (sub & !positive) == 0 {
                subsets.push(sub);
                transitions[sub as usize].push(index);
            }
            if sub == 0 {
                done = true;
            } else {
                let next: u16 = (sub - 1) & mask;
                proof {
                    lemma_submask_step(sub, mask);
                    assert forall|x: u16| next < x < sub implies x & !mask != 0 by {
                        lemma_submask_gap(x, sub, mask, next);
                    }
                    lemma_locks_skip(mask, positive, (next + 1) as nat, sub as nat);
                    assert forall|l: int| 0 <= l <= FULL_MASK_SPACE && next < l < sub implies !(
                    #[trigger] is_lock_of(l as u16, mask, positive, MAX_LOCK_SIZE as int)) by {
                        assert((l as u16) & !mask != 0);
                    }
                }
                sub = next;
            }
        }
        lock_sets.push(subsets);
        index += 1;
    }
    (lock_sets, transitions)
}


/// Why the reroll solver refuses.
#[derive(Clone, Copy, PartialEq, Eq, Structural, Debug)]
pub enum RerollPolicySolverError {
    PolicyNotDerived,
    FailedtoConvergeWithinMaxIter,
    InvalidWeights,
    InvalidMask { mask: u16 },
    InvalidTolerance,
    TargetScoreImpossible,
    TargetNotSet,
}

/// One way to lock slots before a reroll, with what is known of it.
#[derive(Clone, Copy, PartialEq, Eq, Structural, Debug)]
pub struct LockChoice {
    /// The buff types that are locked.
    pub lock_mask: u16,
    /// The key of the expected cost of rerolling with this lock.
    pub expected_cost: u64,
    /// How many of the states that the reroll can lead to are successes.
    pub successes: usize,
    /// How many states the reroll can lead to.
    pub outcomes: usize,
}

/// Whether the choices ascend by expected cost.
pub open spec fn is_ascending(choices: Seq<LockChoice>) -> bool {
    forall|a: int, b: int|
        0 <= a < b < choices.len() ==> choices[a].expected_cost <= choices[b].expected_cost
}

/// Where a choice of the given cost goes into choices that ascend: behind
/// every choice that costs no more.
pub open spec fn insert_position(sorted: Seq<LockChoice>, cost: u64) -> nat
    decreases sorted.len(),
{
    if sorted.len() == 0 {
        0
    } else if sorted.last().expected_cost > cost {
        insert_position(sorted.drop_last(), cost)
    } else {
        sorted.len()
    }
}

/// The first `count` candidates in ascending order of expected cost, those of
/// equal cost in the order in which they stand among the candidates.
pub open spec fn ranked(candidates: Seq<LockChoice>, count: nat) -> Seq<LockChoice>
    decreases count,
{
    if count == 0 {
        Seq::empty()
    } else {
        let rest = ranked(candidates, (count - 1) as nat);
        rest.insert(
            insert_position(rest, candidates[count - 1].expected_cost) as int,
            candidates[count - 1],
        )
    }
}

proof fn lemma_insert_position(sorted: Seq<LockChoice>, cost: u64)
    requires
        is_ascending(sorted),
    ensures
        insert_position(sorted, cost) <= sorted.len(),
        forall|j: int| 0 <= j < insert_position(sorted, cost) ==> sorted[j].expected_cost <= cost,
        forall|j: int|
            insert_position(sorted, cost) <= j < sorted.len() ==> sorted[j].expected_cost > cost,
    decreases sorted.len(),
{
    if sorted.len() > 0 {
        let last = sorted.len() - 1;
        if sorted.last().expected_cost > cost {
            let front = sorted.drop_last();
            assert(is_ascending(front)) by {
                assert forall|a: int, b: int| 0 <= a < b < front.len() implies front[a].expected_cost
                    <= front[b].expected_cost by {
                    assert(front[a] == sorted[a] && front[b] == sorted[b]);
                }
            }
            lemma_insert_position(front, cost);
            let at = insert_position(front, cost);
            assert forall|j: int| 0 <= j < at implies sorted[j].expected_cost <= cost by {
                assert(front[j] == sorted[j]);
            }
            assert forall|j: int| at <= j < sorted.len() implies sorted[j].expected_cost > cost by {
                if j < last {
                    assert(front[j] == sorted[j]);
                }
            }
        } else {
            assert forall|j: int| 0 <= j < sorted.len() implies sorted[j].expected_cost <= cost by {
                if j < last {
                    assert(sorted[j].expected_cost <= sorted[last].expected_cost);
                }
            }
        }
    }
}

/// Ranking keeps every candidate, once each, and puts them in ascending order
/// of expected cost.
pub proof fn lemma_ranked(candidates: Seq<LockChoice>, count: nat)
    requires
        count <= candidates.len(),
    ensures
        ranked(candidates, count).len() == count,
        is_ascending(ranked(candidates, count)),
        ranked(candidates, count).to_multiset() == candidates.take(count as int).to_multiset(),
    decreases count,
{
    broadcast use vstd::seq_lib::group_to_multiset_ensures;

    if count == 0 {
        assert(candidates.take(0) =~= Seq::<LockChoice>::empty());
    } else {
        let rest = ranked(candidates, (count - 1) as nat);
        let added = candidates[count - 1];
        let at = insert_position(rest, added.expected_cost) as int;
        lemma_ranked(candidates, (count - 1) as nat);
        lemma_insert_position(rest, added.expected_cost);
        let all = rest.insert(at, added);
        assert(is_ascending(all)) by {
            assert forall|a: int, b: int| 0 <= a < b < all.len() implies all[a].expected_cost
                <= all[b].expected_cost by {
                if b < at {
                    assert(all[a] == rest[a] && all[b] == rest[b]);
                } else if b == at {
                    assert(all[a] == rest[a]);
                } else if a < at {
                    assert(all[a] == rest[a] && all[b] == rest[b - 1]);
                } else if a == at {
                    assert(all[b] == rest[b - 1]);
                } else {
                    assert(all[a] == rest[a - 1] && all[b] == rest[b - 1]);
                }
            }
        }
        assert(all.remove(at) =~= rest);
        assert(all[at] == added);
        assert(all.to_multiset().remove(added) =~= rest.to_multiset());
        assert(all.contains(added));
        assert(all.to_multiset() =~= rest.to_multiset().insert(added));
        assert(candidates.take(count as int) =~= candidates.take(count - 1).push(added));
    }
}

/// The candidates at one state: its lock choices, each with the key of its
/// expected cost and with its success statistics.
pub open spec fn candidates_of(
    locks: Seq<u16>,
    costs: Seq<u64>,
    positive: u16,
    success: Seq<bool>,
) -> Seq<LockChoice> {
    Seq::new(
        locks.len(),
        |j: int|
            LockChoice {
                lock_mask: locks[j],
                expected_cost: costs[j],
                successes: success_count(
                    outcomes_of(locks[j], positive),
                    success,
                    outcomes_of(locks[j], positive).len(),
                ) as usize,
                outcomes: outcomes_of(locks[j], positive).len() as usize,
            },
    )
}

/// The candidates in ascending order of expected cost.
fn rank_choices(candidates: &Vec<LockChoice>) -> (choices: Vec<LockChoice>)
    ensures
        choices@ == ranked(candidates@, candidates@.len()),
{
    let mut choices: Vec<LockChoice> = Vec::new();
    let mut count: usize = 0;
    while count < candidates.len()
        invariant
            count <= candidates@.len(),
            choices@ == ranked(candidates@, count as nat),
        decreases candidates@.len() - count,
    {
        proof {
            lemma_ranked(candidates@, count as nat);
        }
        let added = candidates[count];
        let mut at: usize = choices.len();
        assert(choices@.take(at as int) =~= choices@);
        while at > 0 && choices[at - 1].expected_cost > added.expected_cost
            invariant
                at <= choices@.len(),
                insert_position(choices@, added.expected_cost) == insert_position(
                    choices@.take(at as int),
                    added.expected_cost,
                ),
            decreases at,
        {
            proof {
                assert(choices@.take(at as int).drop_last() =~= choices@.take(at - 1));
            }
            at -= 1;
        }
        proof {
            let prefix = choices@.take(at as int);
            if at > 0 {
                assert(prefix.last() == choices@[at - 1]);
            }
            assert(insert_position(prefix, added.expected_cost) == at);
        }
        choices.insert(at, added);
        count += 1;
    }
    choices
}


/// Every entry of `locks_from` is a lock choice at `mask`, no smaller than
/// `low` and no larger than the mask.
pub proof fn lemma_locks_members(mask: u16, positive: u16, low: nat)
    ensures
        forall|j: int|
            0 <= j < locks_from(mask, positive, low).len() ==> {
                &&& is_lock_of(
                    #[trigger] locks_from(mask, positive, low)[j],
                    mask,
                    positive,
                    MAX_LOCK_SIZE as int,
                )
                &&& low <= locks_from(mask, positive, low)[j] <= mask
            },
    decreases mask + 1 - low,
{
    if low <= mask {
        lemma_locks_members(mask, positive, low + 1);
        let higher = locks_from(mask, positive, low + 1);
        let all = locks_from(mask, positive, low);
        assert forall|j: int| 0 <= j < all.len() implies {
            &&& is_lock_of(#[trigger] all[j], mask, positive, MAX_LOCK_SIZE as int)
            &&& low <= all[j] <= mask
        } by {
            if j < higher.len() {
                assert(all[j] == higher[j]);
            }
        }
    }
}

/// To lock nothing is a lock choice at every mask, and the last one listed.
pub proof fn lemma_lock_set_ends_with_none(mask: u16, positive: u16)
    ensures
        lock_set(mask, positive).len() > 0,
        lock_set(mask, positive).last() == 0,
{
    assert(0u16 & !mask == 0 && 0u16 & !positive == 0 && popcount(0u16) == 0) by (bit_vector);
}

/// A state at which `lock` is a lock choice is among the states that a
/// reroll with `lock` held can lead to.
pub proof fn lemma_outcomes_hold_the_state(lock: u16, positive: u16, index: int, count: nat)
    requires
        0 <= index < count,
        is_lock_of(lock, mask_table(MaskClass::Full)[index], positive, MAX_LOCK_SIZE as int),
    ensures
        outcomes_below(lock, positive, count).contains(index as usize),
    decreases count,
{
    let all = outcomes_below(lock, positive, count);
    let rest = outcomes_below(lock, positive, (count - 1) as nat);
    if index == count - 1 {
        assert(all[rest.len() as int] == index as usize);
    } else {
        lemma_outcomes_hold_the_state(lock, positive, index, (count - 1) as nat);
        let at = choose|at: int| 0 <= at < rest.len() && rest[at] == index as usize;
        assert(all[at] == index as usize);
    }
}

/// Every lock choice of every state can be rolled: it lies within the full
/// mask space, and a reroll with it held leads to one state at least, the
/// state itself.
pub proof fn lemma_lock_has_outcomes(positive: u16, index: int, choice: int)
    requires
        0 <= index < mask_table(MaskClass::Full).len(),
        0 <= choice < lock_set(mask_table(MaskClass::Full)[index], positive).len(),
    ensures
        lock_set(mask_table(MaskClass::Full)[index], positive)[choice] <= FULL_MASK_SPACE,
        outcomes_of(lock_set(mask_table(MaskClass::Full)[index], positive)[choice], positive).len()
            >= 1,
        outcomes_of(
            lock_set(mask_table(MaskClass::Full)[index], positive)[choice],
            positive,
        ).contains(index as usize),
{
    let mask = mask_table(MaskClass::Full)[index];
    let lock = lock_set(mask, positive)[choice];
    lemma_locks_members(mask, positive, 0);
    lemma_index_bijection(MaskClass::Full);
    lemma_outcomes_hold_the_state(lock, positive, index, mask_table(MaskClass::Full).len());
}

/// A full mask of the domain.
pub open spec fn valid_full(mask: u16) -> bool {
    in_domain(mask) && is_full(mask)
}

/// The dense index of a full mask.
pub open spec fn state_index(mask: u16) -> int {
    mask_rank(MaskClass::Full, mask) as int
}

/// The number of full masks.
pub open spec fn num_states() -> nat {
    mask_table(MaskClass::Full).len()
}

/// The full mask with dense index `index`.
pub open spec fn state_mask(index: int) -> u16 {
    mask_table(MaskClass::Full)[index]
}

/// The dense index of a full mask of the domain names that mask.
pub proof fn lemma_state_index(mask: u16)
    requires
        valid_full(mask),
    ensures
        0 <= state_index(mask) < num_states(),
        state_mask(state_index(mask)) == mask,
{
    lemma_class_bounds(mask);
    lemma_index_bijection(MaskClass::Full);
    lemma_masks_below_members(MaskClass::Full, mask as nat);
    assert(crate::mask::index_table(MaskClass::Full)[mask as int] == state_index(mask));
}

/// How many choices to hand out: all of them where `top_k` is zero or more
/// than there are, otherwise `top_k`.
pub open spec fn kept(top_k: usize, available: nat) -> nat {
    if top_k == 0 || top_k > available {
        available
    } else {
        top_k as nat
    }
}

/// The lock of the first choice, if there is a choice.
pub open spec fn first_lock(choices: Seq<LockChoice>) -> Option<u16> {
    if choices.len() > 0 {
        Some(choices[0].lock_mask)
    } else {
        None
    }
}

/// The solver of the reroll problem.
pub struct RerollPolicySolver {
    tables: MaskTables,
    positive_mask: u16,
    lock_sets: Vec<Vec<u16>>,
    transitions: Vec<Vec<usize>>,
    target_set: bool,
    success: Vec<bool>,
    success_count: usize,
    policy_derived: bool,
    dp: Vec<u64>,
    action_cache: Vec<Vec<LockChoice>>,
    best_lock_cache: Vec<Option<u16>>,
}

impl RerollPolicySolver {
    /// The buff types of positive weight.
    pub closed spec fn positive(&self) -> u16 {
        self.positive_mask
    }

    /// Whether a target is set.
    pub closed spec fn has_target(&self) -> bool {
        self.target_set
    }

    /// Whether a policy is installed.
    pub closed spec fn derived(&self) -> bool {
        self.policy_derived
    }

    /// For each state, whether it is a success: its score reaches the target.
    pub closed spec fn success_flags(&self) -> Seq<bool> {
        self.success@
    }

    /// For each state the key of its expected cost to reach the target.
    pub closed spec fn costs(&self) -> Seq<u64> {
        self.dp@
    }

    /// The ranked lock choices of a state.
    pub closed spec fn choices_at(&self, index: int) -> Seq<LockChoice> {
        self.action_cache@[index]@
    }

    /// The best lock choice of a state.
    pub closed spec fn best_at(&self, index: int) -> Option<u16> {
        self.best_lock_cache@[index]
    }

    /// The invariant of the solver.
    pub closed spec fn wf(&self) -> bool {
        &&& self.lock_sets@.len() == num_states()
        &&& forall|i: int|
            0 <= i < self.lock_sets@.len() ==> (#[trigger] self.lock_sets@[i])@ == lock_set(
                state_mask(i),
                self.positive_mask,
            )
        &&& self.transitions@.len() == FULL_MASK_SPACE + 1
        &&& forall|lock: int|
            0 <= lock <= FULL_MASK_SPACE ==> (#[trigger] self.transitions@[lock])@ == outcomes_of(
                lock as u16,
                self.positive_mask,
            )
        &&& self.success@.len() == num_states()
        &&& self.success_count == flags_set(self.success@, num_states())
        &&& self.target_set ==> self.success_count > 0
        &&& self.policy_derived ==> self.target_set
        &&& self.dp@.len() == num_states()
        &&& self.action_cache@.len() == num_states()
        &&& self.best_lock_cache@.len() == num_states()
        &&& forall|i: int|
            0 <= i < num_states() ==> {
                &&& is_ascending((#[trigger] self.action_cache@[i])@)
                &&& self.best_lock_cache@[i] == first_lock(self.action_cache@[i]@)
                &&& !self.policy_derived ==> self.action_cache@[i]@.len() == 0
                &&& self.policy_derived && self.success@[i] ==> self.action_cache@[i]@.len() == 0
                    && self.dp@[i] == 0
                &&& self.policy_derived && !self.success@[i] ==> self.dp@[i] > 0
            }
    }

    /// What a well-formed solver knows of a state.
    pub proof fn lemma_state(&self, index: int)
        requires
            self.wf(),
            0 <= index < num_states(),
        ensures
            self.success_flags().len() == num_states(),
            self.costs().len() == num_states(),
            is_ascending(self.choices_at(index)),
            self.best_at(index) == first_lock(self.choices_at(index)),
            !self.derived() ==> self.choices_at(index).len() == 0,
            self.derived() && self.success_flags()[index] ==> self.choices_at(index).len() == 0
                && self.costs()[index] == 0,
            self.derived() && !self.success_flags()[index] ==> self.costs()[index] > 0,
            self.derived() ==> self.has_target(),
    {
    }

    /// Whether a target is set.
    pub fn is_target_set(&self) -> (set: bool)
        ensures
            set == self.has_target(),
    {
        self.target_set
    }

    /// Whether a policy is installed.
    pub fn is_policy_derived(&self) -> (derived: bool)
        ensures
            derived == self.derived(),
    {
        self.policy_derived
    }

    /// A solver for weights of these classes, with no target and no policy.
    /// `sum_within_limit` says whether the five largest weights sum to no more
    /// than a score can hold.
    pub fn new(weights: &[WeightClass; 13], sum_within_limit: bool) -> (result: Result<
        Self,
        RerollPolicySolverError,
    >)
        ensures
            match result {
                Ok(solver) => {
                    &&& fixed_scorer_fault(weights@, sum_within_limit).is_none()
                    &&& solver.wf()
                    &&& !solver.has_target()
                    &&& !solver.derived()
                    &&& in_domain(solver.positive())
                    &&& forall|i: int|
                        0 <= i < 13 ==> (has_bit(solver.positive(), i) <==> weights@[i]
                            == WeightClass::Positive)
                },
                Err(fault) => fixed_scorer_fault(weights@, sum_within_limit).is_some() && fault
                    == RerollPolicySolverError::InvalidWeights,
            },
    {
        match check_fixed_scorer(weights, sum_within_limit) {
            Err(_) => {
                return Err(RerollPolicySolverError::InvalidWeights);
            },
            Ok(()) => {},
        }
        let positive_mask = positive_weight_mask(weights);
        let tables = MaskTables::new();
        let count = tables.num_full_masks();
        let built = build_lock_tables(&tables, positive_mask);
        let mut success: Vec<bool> = Vec::new();
        let mut dp: Vec<u64> = Vec::new();
        let mut action_cache: Vec<Vec<LockChoice>> = Vec::new();
        let mut best_lock_cache: Vec<Option<u16>> = Vec::new();
        let mut index: usize = 0;
        while index < count
            invariant
                index <= count,
                success@.len() == index,
                dp@.len() == index,
                action_cache@.len() == index,
                best_lock_cache@.len() == index,
                flags_set(success@, index as nat) == 0,
                forall|i: int|
                    0 <= i < index ==> (#[trigger] action_cache@[i])@.len() == 0
                        && best_lock_cache@[i].is_none(),
            decreases count - index,
        {
            let ghost before = success@;
            success.push(false);
            proof {
                lemma_flags_agree(before, success@, index as nat);
            }
            dp.push(0);
            action_cache.push(Vec::new());
            best_lock_cache.push(None);
            index += 1;
        }
        Ok(
            RerollPolicySolver {
                tables,
                positive_mask,
                lock_sets: built.0,
                transitions: built.1,
                target_set: false,
                success,
                success_count: 0,
                policy_derived: false,
                dp,
                action_cache,
                best_lock_cache,
            },
        )
    }
}

/// Flags that agree on the first `count` entries have as many set among them.
proof fn lemma_flags_agree(a: Seq<bool>, b: Seq<bool>, count: nat)
    requires
        count <= a.len(),
        count <= b.len(),
        forall|i: int| 0 <= i < count ==> a[i] == b[i],
    ensures
        flags_set(a, count) == flags_set(b, count),
    decreases count,
{
    if count > 0 {
        lemma_flags_agree(a, b, (count - 1) as nat);
    }
}


/// The number of set flags.
fn count_flags(flags: &Vec<bool>) -> (count: usize)
    ensures
        count == flags_set(flags@, flags@.len()),
        count <= flags@.len(),
{
    let mut count: usize = 0;
    let mut i: usize = 0;
    while i < flags.len()
        invariant
            i <= flags@.len(),
            count == flags_set(flags@, i as nat),
            count <= i,
        decreases flags@.len() - i,
    {
        if flags[i] {
            count += 1;
        }
        i += 1;
    }
    count
}

impl RerollPolicySolver {
    /// The state space is that of `other`: the same buff types have positive
    /// weight.
    pub closed spec fn same_space(&self, other: &Self) -> bool {
        &&& self.positive_mask == other.positive_mask
        &&& self.lock_sets@ == other.lock_sets@
        &&& self.transitions@ == other.transitions@
    }

    /// Solvers over the same state space count the same weights as positive.
    pub proof fn lemma_same_space(&self, other: &Self)
        requires
            self.same_space(other),
        ensures
            self.positive() == other.positive(),
    {
    }

    /// Removes the policy: the ranked choices and the best choice of every
    /// state.
    fn reset_policy(&mut self)
        requires
            old(self).wf(),
        ensures
            final(self).wf(),
            final(self).same_space(old(self)),
            !final(self).derived(),
            final(self).has_target() == old(self).has_target(),
            final(self).success_flags() == old(self).success_flags(),
            final(self).costs() == old(self).costs(),
    {
        self.policy_derived = false;
        let count = self.action_cache.len();
        let mut index: usize = 0;
        while index < count
            invariant
                index <= count,
                count == num_states(),
                self.action_cache@.len() == count,
                self.best_lock_cache@.len() == count,
                self.same_space(old(self)),
                self.tables == old(self).tables,
                !self.policy_derived,
                self.target_set == old(self).target_set,
                self.success@ == old(self).success@,
                self.success_count == old(self).success_count,
                self.dp@ == old(self).dp@,
                old(self).wf(),
                forall|i: int|
                    0 <= i < index ==> (#[trigger] self.action_cache@[i])@.len() == 0
                        && self.best_lock_cache@[i].is_none(),
                forall|i: int|
                    index <= i < count ==> {
                        &&& is_ascending((#[trigger] self.action_cache@[i])@)
                        &&& self.best_lock_cache@[i] == first_lock(self.action_cache@[i]@)
                    },
            decreases count - index,
        {
            self.action_cache[index].clear();
            self.best_lock_cache[index] = None;
            index += 1;
        }
    }

    /// Sets the target by naming the success states: the states whose score
    /// reaches it. The policy is removed.
    ///
    /// A target that no state reaches is impossible. Flags that do not cover
    /// the states name no target either. In both cases the solver stays as it
    /// was.
    pub fn set_target(&mut self, success: Vec<bool>) -> (result: Result<
        (),
        RerollPolicySolverError,
    >)
        requires
            old(self).wf(),
        ensures
            final(self).wf(),
            final(self).same_space(old(self)),
            match result {
                Ok(()) => {
                    &&& success@.len() == num_states()
                    &&& flags_set(success@, num_states()) > 0
                    &&& final(self).has_target()
                    &&& !final(self).derived()
                    &&& final(self).success_flags() == success@
                },
                Err(fault) => {
                    &&& success@.len() != num_states() || flags_set(success@, num_states()) == 0
                    &&& fault == RerollPolicySolverError::TargetScoreImpossible
                    &&& *final(self) == *old(self)
                },
            },
    {
        if success.len() != self.tables.num_full_masks() {
            return Err(RerollPolicySolverError::TargetScoreImpossible);
        }
        let success_count = count_flags(&success);
        if success_count == 0 {
            return Err(RerollPolicySolverError::TargetScoreImpossible);
        }
        self.reset_policy();
        self.target_set = true;
        self.success = success;
        self.success_count = success_count;
        Ok(())
    }

    /// Starts a derivation: checks that a target is set and that the
    /// tolerance is a positive number, and removes the policy.
    pub fn begin_derivation(&mut self, tolerance_valid: bool) -> (result: Result<
        (),
        RerollPolicySolverError,
    >)
        requires
            old(self).wf(),
        ensures
            final(self).wf(),
            final(self).same_space(old(self)),
            final(self).has_target() == old(self).has_target(),
            final(self).success_flags() == old(self).success_flags(),
            result == if !old(self).has_target() {
                Err::<(), _>(RerollPolicySolverError::TargetNotSet)
            } else if !tolerance_valid {
                Err(RerollPolicySolverError::InvalidTolerance)
            } else {
                Ok(())
            },
            result.is_ok() ==> !final(self).derived(),
            result.is_err() ==> *final(self) == *old(self),
    {
        if !self.target_set {
            return Err(RerollPolicySolverError::TargetNotSet);
        }
        if !tolerance_valid {
            return Err(RerollPolicySolverError::InvalidTolerance);
        }
        self.reset_policy();
        Ok(())
    }

    /// The number of states: one for each full mask.
    pub fn num_states(&self) -> (count: usize)
        ensures
            count == num_states(),
            count == crate::mask::NUM_FULL_MASKS,
    {
        self.tables.num_full_masks()
    }

    /// The number of success states.
    pub fn num_success_states(&self) -> (count: usize)
        requires
            self.wf(),
        ensures
            count == flags_set(self.success_flags(), num_states()),
            self.has_target() ==> count > 0,
    {
        self.success_count
    }

    /// The full mask of a state.
    pub fn state_mask(&self, index: usize) -> (mask: Option<u16>)
        ensures
            mask == if index < num_states() {
                Some(state_mask(index as int))
            } else {
                None
            },
    {
        if index < self.tables.num_full_masks() {
            Some(self.tables.full_mask(index))
        } else {
            None
        }
    }

    /// The dense index of a full mask of the domain.
    pub fn state_index(&self, mask: u16) -> (index: Option<usize>)
        ensures
            index == if valid_full(mask) {
                Some(state_index(mask) as usize)
            } else {
                None
            },
            valid_full(mask) ==> 0 <= state_index(mask) < num_states(),
    {
        self.tables.find_full(mask)
    }

    /// Whether a state is a success state.
    pub fn is_success_state(&self, index: usize) -> (success: Option<bool>)
        requires
            self.wf(),
        ensures
            success == if index < num_states() {
                Some(self.success_flags()[index as int])
            } else {
                None
            },
    {
        if index < self.success.len() {
            Some(self.success[index])
        } else {
            None
        }
    }

    /// The lock choices of a state, largest first.
    pub fn lock_set(&self, index: usize) -> (locks: Option<&Vec<u16>>)
        requires
            self.wf(),
        ensures
            match locks {
                Some(locks) => index < num_states() && locks@ == lock_set(
                    state_mask(index as int),
                    self.positive(),
                ),
                None => index >= num_states(),
            },
    {
        if index < self.lock_sets.len() {
            Some(&self.lock_sets[index])
        } else {
            None
        }
    }

    /// The states that a reroll with `lock` held can lead to, in ascending
    /// order of their dense index.
    pub fn outcomes(&self, lock: u16) -> (states: Option<&Vec<usize>>)
        requires
            self.wf(),
        ensures
            match states {
                Some(states) => lock <= FULL_MASK_SPACE && states@ == outcomes_of(
                    lock,
                    self.positive(),
                ),
                None => lock > FULL_MASK_SPACE,
            },
    {
        if (lock as usize) < self.transitions.len() {
            Some(&self.transitions[lock as usize])
        } else {
            None
        }
    }
}


impl RerollPolicySolver {
    /// Whether expected costs of this shape can be installed: a target is
    /// set, there is a cost for every state, zero for every success state and
    /// above zero for every other state (a reroll is never free), and for
    /// every other state a cost for each of its lock choices.
    pub open spec fn policy_fits(&self, dp: Seq<u64>, costs: Seq<Vec<u64>>) -> bool {
        &&& self.has_target()
        &&& dp.len() == num_states()
        &&& costs.len() == num_states()
        &&& forall|i: int| 0 <= i < num_states() ==> #[trigger] self.state_fits(dp, costs, i)
    }

    /// Whether the costs handed in for one state have the shape of the state.
    pub open spec fn state_fits(&self, dp: Seq<u64>, costs: Seq<Vec<u64>>, index: int) -> bool {
        if self.success_flags()[index] {
            dp[index] == 0
        } else {
            dp[index] > 0 && costs[index]@.len() == lock_set(
                state_mask(index),
                self.positive(),
            ).len()
        }
    }

    /// The ranked choices that installing these costs gives a state: none at a
    /// success state, and otherwise the lock choices of the state in ascending
    /// order of expected cost.
    pub open spec fn ranked_choices(&self, costs: Seq<Vec<u64>>, index: int) -> Seq<LockChoice> {
        if self.success_flags()[index] {
            Seq::empty()
        } else {
            let candidates = candidates_of(
                lock_set(state_mask(index), self.positive()),
                costs[index]@,
                self.positive(),
                self.success_flags(),
            );
            ranked(candidates, candidates.len())
        }
    }

    /// The invariant while a policy is being installed: all of `wf` but that
    /// a solver without policy has no choices.
    spec fn building(&self) -> bool {
        &&& self.lock_sets@.len() == num_states()
        &&& forall|i: int|
            0 <= i < self.lock_sets@.len() ==> (#[trigger] self.lock_sets@[i])@ == lock_set(
                state_mask(i),
                self.positive_mask,
            )
        &&& self.transitions@.len() == FULL_MASK_SPACE + 1
        &&& forall|lock: int|
            0 <= lock <= FULL_MASK_SPACE ==> (#[trigger] self.transitions@[lock])@ == outcomes_of(
                lock as u16,
                self.positive_mask,
            )
        &&& self.success@.len() == num_states()
        &&& self.success_count == flags_set(self.success@, num_states())
        &&& self.target_set ==> self.success_count > 0
        &&& self.dp@.len() == num_states()
        &&& self.action_cache@.len() == num_states()
        &&& self.best_lock_cache@.len() == num_states()
        &&& forall|i: int|
            0 <= i < num_states() ==> {
                &&& is_ascending((#[trigger] self.action_cache@[i])@)
                &&& self.best_lock_cache@[i] == first_lock(self.action_cache@[i]@)
            }
    }

    fn check_policy(&self, dp: &Vec<u64>, costs: &Vec<Vec<u64>>) -> (fits: bool)
        requires
            self.wf(),
        ensures
            fits == self.policy_fits(dp@, costs@),
    {
        let count = self.tables.num_full_masks();
        if !self.target_set || dp.len() != count || costs.len() != count {
            return false;
        }
        let mut index: usize = 0;
        while index < count
            invariant
                index <= count,
                count == num_states(),
                dp@.len() == count,
                costs@.len() == count,
                self.wf(),
                self.has_target(),
                forall|i: int| 0 <= i < index ==> #[trigger] self.state_fits(dp@, costs@, i),
            decreases count - index,
        {
            if self.success[index] {
                if dp[index] != 0 {
                    assert(!self.state_fits(dp@, costs@, index as int));
                    return false;
                }
            } else {
                if dp[index] == 0 || costs[index].len() != self.lock_sets[index].len() {
                    assert(!self.state_fits(dp@, costs@, index as int));
                    return false;
                }
            }
            assert(self.state_fits(dp@, costs@, index as int));
            index += 1;
        }
        true
    }

    /// The candidates at one state, in the order of its lock choices.
    fn gather_candidates(&self, index: usize, costs: &Vec<u64>, counts: &Vec<usize>) -> (candidates:
        Vec<LockChoice>)
        requires
            self.building(),
            index < num_states(),
            costs@.len() == lock_set(state_mask(index as int), self.positive()).len(),
            counts@.len() == FULL_MASK_SPACE + 1,
            forall|lock: int|
                0 <= lock <= FULL_MASK_SPACE ==> #[trigger] counts@[lock] == success_count(
                    outcomes_of(lock as u16, self.positive()),
                    self.success_flags(),
                    outcomes_of(lock as u16, self.positive()).len(),
                ),
        ensures
            candidates@ == candidates_of(
                lock_set(state_mask(index as int), self.positive()),
                costs@,
                self.positive(),
                self.success_flags(),
            ),
    {
        let locks = &self.lock_sets[index];
        let mut candidates: Vec<LockChoice> = Vec::new();
        let mut j: usize = 0;
        proof {
            lemma_locks_members(state_mask(index as int), self.positive_mask, 0);
            lemma_index_bijection(MaskClass::Full);
        }
        while j < locks.len()
            invariant
                j <= locks@.len(),
                self.building(),
                index < num_states(),
                locks@ == lock_set(state_mask(index as int), self.positive()),
                state_mask(index as int) <= FULL_MASK_SPACE,
                costs@.len() == locks@.len(),
                counts@.len() == FULL_MASK_SPACE + 1,
                forall|k: int|
                    0 <= k < locks@.len() ==> (#[trigger] locks@[k]) <= state_mask(index as int),
                forall|lock: int|
                    0 <= lock <= FULL_MASK_SPACE ==> #[trigger] counts@[lock] == success_count(
                        outcomes_of(lock as u16, self.positive()),
                        self.success_flags(),
                        outcomes_of(lock as u16, self.positive()).len(),
                    ),
                candidates@.len() == j,
                forall|k: int|
                    0 <= k < j ==> #[trigger] candidates@[k] == candidates_of(
                        locks@,
                        costs@,
                        self.positive(),
                        self.success_flags(),
                    )[k],
            decreases locks@.len() - j,
        {
            let lock = locks[j];
            assert(locks@[j as int] <= state_mask(index as int));
            proof {
                lemma_outcomes_members(lock, self.positive_mask, num_states());
                lemma_success_count_bound(
                    outcomes_of(lock, self.positive_mask),
                    self.success@,
                    outcomes_of(lock, self.positive_mask).len(),
                );
            }
            candidates.push(
                LockChoice {
                    lock_mask: lock,
                    expected_cost: costs[j],
                    successes: counts[lock as usize],
                    outcomes: self.transitions[lock as usize].len(),
                },
            );
            j += 1;
        }
        assert(candidates@ =~= candidates_of(
            locks@,
            costs@,
            self.positive(),
            self.success_flags(),
        ));
        candidates
    }

    /// Installs a policy from expected costs: `dp` holds the key of the
    /// expected cost of every state, and `costs` holds, for every state that
    /// is no success, the key of the expected cost of each of its lock choices,
    /// in the order of `lock_set`.
    ///
    /// For every state that is no success the lock choices are ranked by
    /// expected cost, and the first is the best. Costs of another shape are
    /// refused and nothing changes.
    pub fn install_policy(&mut self, dp: Vec<u64>, costs: Vec<Vec<u64>>) -> (result: Result<
        (),
        RerollPolicySolverError,
    >)
        requires
            old(self).wf(),
        ensures
            final(self).wf(),
            final(self).same_space(old(self)),
            final(self).has_target() == old(self).has_target(),
            final(self).success_flags() == old(self).success_flags(),
            result == if !old(self).has_target() {
                Err::<(), _>(RerollPolicySolverError::TargetNotSet)
            } else if !old(self).policy_fits(dp@, costs@) {
                Err(RerollPolicySolverError::PolicyNotDerived)
            } else {
                Ok(())
            },
            result.is_err() ==> *final(self) == *old(self),
            result.is_ok() ==> {
                &&& final(self).derived()
                &&& final(self).costs() == dp@
                &&& forall|i: int|
                    0 <= i < num_states() ==> #[trigger] final(self).choices_at(i) == old(
                        self,
                    ).ranked_choices(costs@, i)
            },
    {
        if !self.target_set {
            return Err(RerollPolicySolverError::TargetNotSet);
        }
        if !self.check_policy(&dp, &costs) {
            return Err(RerollPolicySolverError::PolicyNotDerived);
        }
        self.reset_policy();
        proof {
            assert forall|lock: int, j: int|
                0 <= lock < self.transitions@.len() && 0 <= j < self.transitions@[lock]@.len() implies
                #[trigger] self.transitions@[lock]@[j] < self.success@.len() by {
                lemma_outcomes_members(lock as u16, self.positive_mask, num_states());
            }
        }
        let counts = par_success_counts(&self.transitions, &self.success);
        let count = self.tables.num_full_masks();
        let mut index: usize = 0;
        while index < count
            invariant
                index <= count,
                count == num_states(),
                self.building(),
                !self.policy_derived,
                self.same_space(old(self)),
                self.target_set,
                self.success@ == old(self).success@,
                old(self).success_flags() == self.success@,
                old(self).positive() == self.positive_mask,
                old(self).policy_fits(dp@, costs@),
                counts@.len() == FULL_MASK_SPACE + 1,
                forall|lock: int|
                    0 <= lock <= FULL_MASK_SPACE ==> #[trigger] counts@[lock] == success_count(
                        outcomes_of(lock as u16, self.positive()),
                        self.success_flags(),
                        outcomes_of(lock as u16, self.positive()).len(),
                    ),
                forall|i: int|
                    0 <= i < index ==> (#[trigger] self.action_cache@[i])@ == old(
                        self,
                    ).ranked_choices(costs@, i),
                forall|i: int|
                    index <= i < count ==> (#[trigger] self.action_cache@[i])@.len() == 0,
            decreases count - index,
        {
            assert(old(self).state_fits(dp@, costs@, index as int));
            if !self.success[index] {
                let candidates = self.gather_candidates(index, &costs[index], &counts);
                let choices = rank_choices(&candidates);
                proof {
                    lemma_ranked(candidates@, candidates@.len());
                }
                let best = if choices.len() > 0 {
                    Some(choices[0].lock_mask)
                } else {
                    None
                };
                let ghost before = *self;
                self.action_cache[index] = choices;
                self.best_lock_cache[index] = best;
                proof {
                    assert forall|i: int| 0 <= i < num_states() implies {
                        &&& is_ascending((#[trigger] self.action_cache@[i])@)
                        &&& self.best_lock_cache@[i] == first_lock(self.action_cache@[i]@)
                    } by {
                        if i != index {
                            assert(self.action_cache@[i] == before.action_cache@[i]);
                        }
                    }
                }
            }
            index += 1;
        }
        self.dp = dp;
        self.policy_derived = true;
        proof {
            assert forall|i: int| 0 <= i < num_states() implies {
                &&& is_ascending((#[trigger] self.action_cache@[i])@)
                &&& self.best_lock_cache@[i] == first_lock(self.action_cache@[i]@)
                &&& self.policy_derived && self.success@[i] ==> self.action_cache@[i]@.len() == 0
                    && self.dp@[i] == 0
                &&& self.policy_derived && !self.success@[i] ==> self.dp@[i] > 0
            } by {
                assert(old(self).state_fits(dp@, costs@, i));
                assert(self.action_cache@[i]@ == old(self).ranked_choices(costs@, i));
            }
        }
        Ok(())
    }
}

/// There are no more success states in a list than states.
proof fn lemma_success_count_bound(states: Seq<usize>, success: Seq<bool>, count: nat)
    ensures
        success_count(states, success, count) <= count,
    decreases count,
{
    if count > 0 {
        lemma_success_count_bound(states, success, (count - 1) as nat);
    }
}


impl RerollPolicySolver {
    /// What every query answers before it looks at the policy: the fault of
    /// asking for `mask` now, if there is one.
    pub open spec fn query_fault(&self, mask: u16) -> Option<RerollPolicySolverError> {
        if !self.derived() {
            Some(RerollPolicySolverError::PolicyNotDerived)
        } else if !valid_full(mask) {
            Some(RerollPolicySolverError::InvalidMask { mask })
        } else {
            None
        }
    }

    /// The dense index of `mask`, or the fault of asking for it.
    fn locate(&self, mask: u16) -> (result: Result<usize, RerollPolicySolverError>)
        requires
            self.wf(),
        ensures
            match result {
                Ok(index) => self.query_fault(mask).is_none() && index == state_index(mask)
                    && index < num_states(),
                Err(fault) => self.query_fault(mask) == Some(fault),
            },
    {
        if !self.policy_derived {
            return Err(RerollPolicySolverError::PolicyNotDerived);
        }
        match self.tables.find_full(mask) {
            Some(index) => Ok(index),
            None => Err(RerollPolicySolverError::InvalidMask { mask }),
        }
    }

    /// The best lock choice at a state: the one of least expected cost. At a
    /// success state there is none.
    pub fn best_lock_choices(&self, mask: u16) -> (result: Result<
        Option<u16>,
        RerollPolicySolverError,
    >)
        requires
            self.wf(),
        ensures
            result == match self.query_fault(mask) {
                Some(fault) => Err::<Option<u16>, _>(fault),
                None => Ok(
                    if self.success_flags()[state_index(mask)] {
                        None
                    } else {
                        first_lock(self.choices_at(state_index(mask)))
                    },
                ),
            },
    {
        let index = match self.locate(mask) {
            Ok(index) => index,
            Err(fault) => {
                return Err(fault);
            },
        };
        if self.success[index] {
            return Ok(None);
        }
        Ok(self.best_lock_cache[index])
    }

    /// The `top_k` lock choices of least expected cost at a state, in
    /// ascending order of expected cost; all of them where `top_k` is zero or
    /// more than there are. At a success state there is none.
    pub fn lock_choices(&self, mask: u16, top_k: usize) -> (result: Result<
        Vec<LockChoice>,
        RerollPolicySolverError,
    >)
        requires
            self.wf(),
        ensures
            match result {
                Ok(choices) => {
                    &&& self.query_fault(mask).is_none()
                    &&& choices@ == self.choices_at(state_index(mask)).take(
                        kept(top_k, self.choices_at(state_index(mask)).len()) as int,
                    )
                    &&& is_ascending(choices@)
                    &&& self.success_flags()[state_index(mask)] ==> choices@.len() == 0
                },
                Err(fault) => self.query_fault(mask) == Some(fault),
            },
    {
        let index = match self.locate(mask) {
            Ok(index) => index,
            Err(fault) => {
                return Err(fault);
            },
        };
        let choices = &self.action_cache[index];
        let keep = if top_k == 0 || top_k > choices.len() {
            choices.len()
        } else {
            top_k
        };
        let mut kept_choices: Vec<LockChoice> = Vec::new();
        let mut j: usize = 0;
        while j < keep
            invariant
                j <= keep <= choices@.len(),
                kept_choices@ == choices@.take(j as int),
            decreases keep - j,
        {
            kept_choices.push(choices[j]);
            j += 1;
            assert(kept_choices@ =~= choices@.take(j as int));
        }
        Ok(kept_choices)
    }

    /// The key of the expected cost to reach the target from a state.
    pub fn expected_lock_cost(&self, mask: u16) -> (result: Result<u64, RerollPolicySolverError>)
        requires
            self.wf(),
        ensures
            result == match self.query_fault(mask) {
                Some(fault) => Err::<u64, _>(fault),
                None => Ok(self.costs()[state_index(mask)]),
            },
    {
        let index = match self.locate(mask) {
            Ok(index) => index,
            Err(fault) => {
                return Err(fault);
            },
        };
        Ok(self.dp[index])
    }

    /// The chance that one reroll with the best lock reaches the target, as
    /// the number of success states among the states the reroll can lead to,
    /// and the number of those states. At a success state there is none.
    pub fn best_lock_success_probability(&self, mask: u16) -> (result: Result<
        Option<(usize, usize)>,
        RerollPolicySolverError,
    >)
        requires
            self.wf(),
        ensures
            result == match self.query_fault(mask) {
                Some(fault) => Err::<Option<(usize, usize)>, _>(fault),
                None => Ok(
                    if self.success_flags()[state_index(mask)] || self.choices_at(
                        state_index(mask),
                    ).len() == 0 {
                        None
                    } else {
                        Some(
                            (
                                self.choices_at(state_index(mask))[0].successes,
                                self.choices_at(state_index(mask))[0].outcomes,
                            ),
                        )
                    },
                ),
            },
    {
        let index = match self.locate(mask) {
            Ok(index) => index,
            Err(fault) => {
                return Err(fault);
            },
        };
        if self.success[index] {
            return Ok(None);
        }
        if self.action_cache[index].len() == 0 {
            return Ok(None);
        }
        let best = self.action_cache[index][0];
        Ok(Some((best.successes, best.outcomes)))
    }

    /// What `should_accept` returns.
    pub open spec fn should_accept_spec(&self, baseline_mask: u16, candidate_mask: u16) -> Result<
        bool,
        RerollPolicySolverError,
    > {
        if !self.derived() {
            Err(RerollPolicySolverError::PolicyNotDerived)
        } else if !valid_full(baseline_mask) {
            Err(RerollPolicySolverError::InvalidMask { mask: baseline_mask })
        } else if !valid_full(candidate_mask) {
            Err(RerollPolicySolverError::InvalidMask { mask: candidate_mask })
        } else {
            Ok(
                self.costs()[state_index(candidate_mask)] <= self.costs()[state_index(
                    baseline_mask,
                )],
            )
        }
    }

    /// Whether to take a newly rolled echo in place of the one at hand: yes
    /// exactly when its expected cost is no more.
    pub fn should_accept(&self, baseline_mask: u16, candidate_mask: u16) -> (result: Result<
        bool,
        RerollPolicySolverError,
    >)
        requires
            self.wf(),
        ensures
            result == self.should_accept_spec(baseline_mask, candidate_mask),
    {
        let baseline = match self.locate(baseline_mask) {
            Ok(index) => index,
            Err(fault) => {
                return Err(fault);
            },
        };
        let candidate = match self.locate(candidate_mask) {
            Ok(index) => index,
            Err(fault) => {
                return Err(fault);
            },
        };
        Ok(self.dp[candidate] <= self.dp[baseline])
    }
}

/// A state is always at least as good as itself: wherever the question can be
/// asked, an echo is accepted in place of itself.
pub proof fn lemma_should_accept_reflexive(solver: &RerollPolicySolver, mask: u16)
    requires
        solver.derived(),
        valid_full(mask),
    ensures
        solver.should_accept_spec(mask, mask) == Ok::<bool, RerollPolicySolverError>(true),
{
}

/// Acceptance is transitive: an echo that is accepted in place of a second,
/// which is accepted in place of a third, is accepted in place of the third.
pub proof fn lemma_should_accept_transitive(solver: &RerollPolicySolver, a: u16, b: u16, c: u16)
    requires
        solver.should_accept_spec(a, b) == Ok::<bool, RerollPolicySolverError>(true),
        solver.should_accept_spec(b, c) == Ok::<bool, RerollPolicySolverError>(true),
    ensures
        solver.should_accept_spec(a, c) == Ok::<bool, RerollPolicySolverError>(true),
{
}

/// At a success state the expected cost is zero and there is nothing to
/// lock: no best choice and no choices at all. And no state is refused in
/// favour of a success state.
pub proof fn lemma_success_state_is_free(solver: &RerollPolicySolver, mask: u16, other: u16)
    requires
        solver.wf(),
        solver.derived(),
        valid_full(mask),
        valid_full(other),
        solver.success_flags()[state_index(mask)],
    ensures
        solver.costs()[state_index(mask)] == 0,
        solver.choices_at(state_index(mask)).len() == 0,
        solver.should_accept_spec(other, mask) == Ok::<bool, RerollPolicySolverError>(true),
{
    lemma_state_index(mask);
    lemma_state_index(other);
    solver.lemma_state(state_index(mask));
}

/// Only success states are free: where a policy is installed, the expected
/// cost of a state is zero exactly when the state is a success.
pub proof fn lemma_only_success_states_are_free(solver: &RerollPolicySolver, mask: u16)
    requires
        solver.wf(),
        solver.derived(),
        valid_full(mask),
    ensures
        solver.costs()[state_index(mask)] == 0 <==> solver.success_flags()[state_index(mask)],
{
    lemma_state_index(mask);
    solver.lemma_state(state_index(mask));
}

/// A success state is never given up for a state that is none.
pub proof fn lemma_success_state_is_kept(solver: &RerollPolicySolver, baseline: u16, candidate: u16)
    requires
        solver.wf(),
        solver.derived(),
        valid_full(baseline),
        valid_full(candidate),
        solver.success_flags()[state_index(baseline)],
        !solver.success_flags()[state_index(candidate)],
    ensures
        solver.should_accept_spec(baseline, candidate) == Ok::<bool, RerollPolicySolverError>(
            false,
        ),
{
    lemma_state_index(baseline);
    lemma_state_index(candidate);
    solver.lemma_state(state_index(baseline));
    solver.lemma_state(state_index(candidate));
}

/// Acceptance is total: of two states one is accepted in place of the other.
pub proof fn lemma_should_accept_total(solver: &RerollPolicySolver, first: u16, second: u16)
    requires
        solver.derived(),
        valid_full(first),
        valid_full(second),
    ensures
        solver.should_accept_spec(first, second) == Ok::<bool, RerollPolicySolverError>(true)
            || solver.should_accept_spec(second, first) == Ok::<bool, RerollPolicySolverError>(
            true,
        ),
{
}

/// The first of the ranked choices costs no more than any other.
pub proof fn lemma_best_choice_is_cheapest(solver: &RerollPolicySolver, mask: u16, j: int)
    requires
        solver.wf(),
        valid_full(mask),
        0 <= j < solver.choices_at(state_index(mask)).len(),
    ensures
        solver.choices_at(state_index(mask))[0].expected_cost <= solver.choices_at(
            state_index(mask),
        )[j].expected_cost,
        solver.best_at(state_index(mask)) == Some(solver.choices_at(state_index(mask))[0].lock_mask),
{
    lemma_state_index(mask);
    solver.lemma_state(state_index(mask));
}


/// What a derivation does next.
#[derive(Clone, Copy, PartialEq, Eq, Structural, Debug)]
pub enum DerivationStep {
    /// Update the expected cost of every state once more.
    Sweep,
    /// The costs have settled: install the policy.
    Install,
    /// The sweeps are used up.
    Fail(RerollPolicySolverError),
}

/// What a derivation does after `sweeps_done` sweeps, of which the last left
/// every cost within tolerance exactly when `converged`.
pub open spec fn derivation_step_spec(sweeps_done: usize, max_iter: usize, converged: bool)
    -> DerivationStep {
    if sweeps_done > 0 && converged {
        DerivationStep::Install
    } else if sweeps_done < max_iter {
        DerivationStep::Sweep
    } else {
        DerivationStep::Fail(RerollPolicySolverError::FailedtoConvergeWithinMaxIter)
    }
}

/// What a derivation does next: it installs the policy as soon as a sweep has
/// left every cost within tolerance, sweeps again while sweeps are left, and
/// fails when they are used up.
pub fn derivation_step(sweeps_done: usize, max_iter: usize, converged: bool) -> (step:
    DerivationStep)
    ensures
        step == derivation_step_spec(sweeps_done, max_iter, converged),
{
    if sweeps_done > 0 && converged {
        DerivationStep::Install
    } else if sweeps_done < max_iter {
        DerivationStep::Sweep
    } else {
        DerivationStep::Fail(RerollPolicySolverError::FailedtoConvergeWithinMaxIter)
    }
}

} // verus!
