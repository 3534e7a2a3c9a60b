//! What scoring needs of the discrete side: the rules that a set of weights
//! has to meet, and the pooling of histograms across related buff types.
//!
//! A weight itself is a number of the caller's. Of each weight the rules read
//! one thing only, its class.

use crate::data::{buff_histogram, catalog_histogram, lemma_catalog_bounds, MAX_BUCKET_COUNT};
use crate::mask::has_bit;
use std::collections::BTreeMap;
use vstd::prelude::*;
use vstd::std_specs::btree::*;
use vstd::std_specs::cmp::OrdSpec;
use vstd::std_specs::iter::IteratorSpec;

verus! {

/// The two crit buff types, which share one pool of rolls.
pub const BLEND_GROUP_CRIT: [usize; 2] = [0, 1];

/// The nine main-stat buff types, which share one pool of rolls.
pub const BLEND_GROUP_MAIN: [usize; 9] = [2, 3, 4, 7, 8, 9, 10, 11, 12];

/// What the rules read of a weight.
#[derive(Clone, Copy, PartialEq, Eq, Structural, Debug)]
pub enum WeightClass {
    /// Negative, or no finite number.
    Invalid,
    Zero,
    Positive,
}

/// Why weights make no scorer.
#[derive(Clone, Copy, PartialEq, Eq, Structural, Debug)]
pub enum ScorerError {
    NegativeWeight { index: usize },
    AllWeightsZero,
    FixedScorerWeightsTooLarge,
}

/// The position of the first invalid weight among the first `count`.
pub open spec fn first_invalid(weights: Seq<WeightClass>, count: nat) -> Option<usize>
    decreases count,
{
    if count == 0 {
        None
    } else {
        match first_invalid(weights, (count - 1) as nat) {
            Some(index) => Some(index),
            None => if weights[count - 1] == WeightClass::Invalid {
                Some((count - 1) as usize)
            } else {
                None
            },
        }
    }
}

/// Whether one of the first `count` weights is positive.
pub open spec fn any_positive(weights: Seq<WeightClass>, count: nat) -> bool
    decreases count,
{
    count > 0 && (any_positive(weights, (count - 1) as nat) || weights[count - 1]
        == WeightClass::Positive)
}

/// What is wrong with a set of weights, if anything: the first weight that is
/// invalid, or else that no weight is positive.
pub open spec fn weights_fault(weights: Seq<WeightClass>) -> Option<ScorerError> {
    match first_invalid(weights, weights.len()) {
        Some(index) => Some(ScorerError::NegativeWeight { index }),
        None => if any_positive(weights, weights.len()) {
            None
        } else {
            Some(ScorerError::AllWeightsZero)
        },
    }
}

/// What is wrong with the weights of a scorer that ignores the rolled value:
/// the fault of the weights, or else that their five largest sum to more than
/// a score can hold.
pub open spec fn fixed_scorer_fault(weights: Seq<WeightClass>, sum_within_limit: bool) -> Option<
    ScorerError,
> {
    match weights_fault(weights) {
        Some(fault) => Some(fault),
        None => if sum_within_limit {
            None
        } else {
            Some(ScorerError::FixedScorerWeightsTooLarge)
        },
    }
}

/// Weights without an invalid one are acceptable exactly when one of them is
/// positive.
pub proof fn lemma_weights_need_one_positive(weights: Seq<WeightClass>)
    requires
        forall|i: int| 0 <= i < weights.len() ==> weights[i] != WeightClass::Invalid,
    ensures
        weights_fault(weights).is_none() <==> exists|i: int|
            0 <= i < weights.len() && weights[i] == WeightClass::Positive,
        weights_fault(weights).is_some() ==> weights_fault(weights) == Some(
            ScorerError::AllWeightsZero,
        ),
{
    lemma_scan(weights, weights.len());
}

proof fn lemma_scan(weights: Seq<WeightClass>, count: nat)
    requires
        count <= weights.len(),
    ensures
        first_invalid(weights, count).is_none() <==> forall|i: int|
            0 <= i < count ==> weights[i] != WeightClass::Invalid,
        any_positive(weights, count) <==> exists|i: int|
            0 <= i < count && weights[i] == WeightClass::Positive,
    decreases count,
{
    if count > 0 {
        lemma_scan(weights, (count - 1) as nat);
        if weights[count - 1] == WeightClass::Positive {
            assert(0 <= count - 1 < count && weights[count - 1] == WeightClass::Positive);
        }
    }
}

/// Checks a set of weights: none may be invalid, and one has to be positive.
pub fn validate_weights(weights: &[WeightClass; 13]) -> (result: Result<(), ScorerError>)
    ensures
        result == match weights_fault(weights@) {
            Some(fault) => Err::<(), _>(fault),
            None => Ok(()),
        },
{
    let mut positive = false;
    let mut index: usize = 0;
    while index < 13
        invariant
            index <= 13,
            first_invalid(weights@, index as nat).is_none(),
            positive == any_positive(weights@, index as nat),
        decreases 13 - index,
    {
        match weights[index] {
            WeightClass::Invalid => {
                proof {
                    lemma_first_invalid_stays(weights@, (index + 1) as nat, 13);
                }
                return Err(ScorerError::NegativeWeight { index });
            },
            WeightClass::Positive => {
                positive = true;
            },
            WeightClass::Zero => {},
        }
        index += 1;
    }
    if !positive {
        return Err(ScorerError::AllWeightsZero);
    }
    Ok(())
}

proof fn lemma_first_invalid_stays(weights: Seq<WeightClass>, low: nat, high: nat)
    requires
        low <= high,
        first_invalid(weights, low).is_some(),
    ensures
        first_invalid(weights, high) == first_invalid(weights, low),
    decreases high,
{
    if low < high {
        lemma_first_invalid_stays(weights, low, (high - 1) as nat);
    }
}

/// Checks the weights of a scorer that ignores the rolled value.
/// `sum_within_limit` says whether the five largest weights sum to no more
/// than a score can hold.
pub fn check_fixed_scorer(weights: &[WeightClass; 13], sum_within_limit: bool) -> (result: Result<
    (),
    ScorerError,
>)
    ensures
        result == match fixed_scorer_fault(weights@, sum_within_limit) {
            Some(fault) => Err::<(), _>(fault),
            None => Ok(()),
        },
{
    match validate_weights(weights) {
        Err(fault) => Err(fault),
        Ok(()) => if sum_within_limit {
            Ok(())
        } else {
            Err(ScorerError::FixedScorerWeightsTooLarge)
        },
    }
}

/// The mask of the buff types whose weight is positive.
pub fn positive_weight_mask(weights: &[WeightClass; 13]) -> (mask: u16)
    ensures
        forall|i: int|
            0 <= i < 16 ==> (has_bit(mask, i) <==> (i < 13 && weights@[i] == WeightClass::Positive)),
        crate::mask::in_domain(mask),
{
    let mut mask: u16 = 0;
    let mut index: usize = 0;
    proof {
        assert(forall|j: u16| j < 16 ==> (0u16 >> j) & 1 != 1) by (bit_vector);
    }
    while index < 13
        invariant
            index <= 13,
            forall|i: int|
                0 <= i < 16 ==> (has_bit(mask, i) <==> (i < index && weights@[i]
                    == WeightClass::Positive)),
        decreases 13 - index,
    {
        let shift: u16 = index as u16;
        let ghost before = mask;
        match weights[index] {
            WeightClass::Positive => {
                mask = mask | (1u16 << shift);
                proof {
                    assert(forall|j: u16|
                        j < 16 && shift < 16 ==> ((((before | (1u16 << shift)) >> j) & 1 == 1) <==> ((
                        before >> j) & 1 == 1 || j == shift))) by (bit_vector);
                }
            },
            _ => {},
        }
        proof {
            assert forall|i: int| 0 <= i < 16 implies (has_bit(mask, i) <==> (i < index + 1
                && weights@[i] == WeightClass::Positive)) by {
                let j = i as u16;
                assert(has_bit(before, i) <==> (i < index && weights@[i] == WeightClass::Positive));
            }
        }
        index += 1;
    }
    proof {
        assert(!has_bit(mask, 13) && !has_bit(mask, 14) && !has_bit(mask, 15));
        assert((mask >> 13u16) & 1 != 1 && (mask >> 14u16) & 1 != 1 && (mask >> 15u16) & 1 != 1
            ==> mask & !0x1FFFu16 == 0) by (bit_vector);
    }
    mask
}


/// The count that the first `count` members of `group` pool in the bucket at
/// position `bucket`: the sum of their catalog counts there.
pub open spec fn pooled_count(group: Seq<usize>, bucket: int, count: nat) -> nat
    decreases count,
{
    if count == 0 {
        0
    } else {
        pooled_count(group, bucket, (count - 1) as nat) + if bucket < catalog_histogram(
            group[count - 1] as int,
        ).len() {
            catalog_histogram(group[count - 1] as int)[bucket].1 as nat
        } else {
            0
        }
    }
}

/// Whether buff type `buff` is among the first `count` members of `group`.
pub open spec fn in_group(group: Seq<usize>, buff: int, count: nat) -> bool
    decreases count,
{
    count > 0 && (in_group(group, buff, (count - 1) as nat) || group[count - 1] == buff)
}

/// A pooled count is at most the largest bucket count for each member.
pub proof fn lemma_pooled_count_bound(group: Seq<usize>, bucket: int, count: nat)
    requires
        count <= group.len(),
        0 <= bucket,
        forall|k: int| 0 <= k < group.len() ==> group[k] < 13,
    ensures
        pooled_count(group, bucket, count) <= count * MAX_BUCKET_COUNT,
    decreases count,
{
    if count > 0 {
        lemma_pooled_count_bound(group, bucket, (count - 1) as nat);
        lemma_catalog_bounds(group[count - 1] as int);
    }
}

/// A copy of the thirteen catalog histograms.
pub fn catalog_histograms() -> (histograms: Vec<Vec<(u16, u32)>>)
    ensures
        histograms@.len() == 13,
        forall|b: int| 0 <= b < 13 ==> (#[trigger] histograms@[b])@ == catalog_histogram(b),
{
    let mut histograms: Vec<Vec<(u16, u32)>> = Vec::new();
    let mut buff: usize = 0;
    while buff < 13
        invariant
            buff <= 13,
            histograms@.len() == buff,
            forall|b: int| 0 <= b < buff ==> (#[trigger] histograms@[b])@ == catalog_histogram(b),
        decreases 13 - buff,
    {
        let source = buff_histogram(buff);
        let mut copy: Vec<(u16, u32)> = Vec::new();
        let mut v: usize = 0;
        while v < source.len()
            invariant
                v <= source@.len(),
                copy@ == source@.take(v as int),
            decreases source@.len() - v,
        {
            copy.push(source[v]);
            v += 1;
            assert(copy@ =~= source@.take(v as int));
        }
        assert(source@.take(source@.len() as int) =~= source@);
        histograms.push(copy);
        buff += 1;
    }
    histograms
}

/// Pools the counts of the buff types in `group`: in the histogram of every
/// member, the count of each bucket becomes the sum of the members' catalog
/// counts in the bucket at that position. Rolled values stay, and so do the
/// histograms of all other buff types.
///
/// No member may have more buckets than the first member, in the catalog or
/// in `blended`.
pub fn blend_group(blended: &mut Vec<Vec<(u16, u32)>>, group: &[usize])
    requires
        group@.len() >= 1,
        group@.len() * MAX_BUCKET_COUNT <= u32::MAX,
        forall|k: int|
            0 <= k < group@.len() ==> {
                &&& (#[trigger] group@[k]) < 13
                &&& group@[k] < old(blended)@.len()
                &&& catalog_histogram(group@[k] as int).len() <= catalog_histogram(
                    group@[0] as int,
                ).len()
                &&& old(blended)@[group@[k] as int]@.len() <= catalog_histogram(
                    group@[0] as int,
                ).len()
            },
    ensures
        final(blended)@.len() == old(blended)@.len(),
        forall|b: int|
            0 <= b < final(blended)@.len() ==> (#[trigger] final(blended)@[b])@.len() == old(
                blended,
            )@[b]@.len(),
        forall|b: int, v: int|
            0 <= b < final(blended)@.len() && 0 <= v < final(blended)@[b]@.len() ==> {
                &&& (#[trigger] final(blended)@[b]@[v]).0 == old(blended)@[b]@[v].0
                &&& final(blended)@[b]@[v].1 as nat == if in_group(group@, b, group@.len()) {
                    pooled_count(group@, v, group@.len())
                } else {
                    old(blended)@[b]@[v].1 as nat
                }
            },
{
    let len = buff_histogram(group[0]).len();
    let mut counts: Vec<u32> = Vec::new();
    let mut v: usize = 0;
    while v < len
        invariant
            v <= len,
            counts@.len() == v,
            forall|i: int| 0 <= i < v ==> #[trigger] counts@[i] == 0,
        decreases len - v,
    {
        counts.push(0);
        v += 1;
    }
    let mut k: usize = 0;
    while k < group.len()
        invariant
            k <= group@.len(),
            group@.len() * MAX_BUCKET_COUNT <= u32::MAX,
            len == catalog_histogram(group@[0] as int).len(),
            counts@.len() == len,
            forall|j: int|
                0 <= j < group@.len() ==> (#[trigger] group@[j]) < 13 && catalog_histogram(
                    group@[j] as int,
                ).len() <= len,
            forall|i: int|
                0 <= i < len ==> #[trigger] counts@[i] == pooled_count(group@, i, k as nat),
        decreases group@.len() - k,
    {
        let histogram = buff_histogram(group[k]);
        let mut i: usize = 0;
        while i < histogram.len()
            invariant
                i <= histogram@.len(),
                k < group@.len(),
                group@.len() * MAX_BUCKET_COUNT <= u32::MAX,
                histogram@ == catalog_histogram(group@[k as int] as int),
                histogram@.len() <= len,
                counts@.len() == len,
                forall|j: int| 0 <= j < group@.len() ==> (#[trigger] group@[j]) < 13,
                forall|j: int|
                    0 <= j < i ==> #[trigger] counts@[j] == pooled_count(group@, j, (k + 1) as nat),
                forall|j: int|
                    i <= j < len ==> #[trigger] counts@[j] == pooled_count(group@, j, k as nat),
            decreases histogram@.len() - i,
        {
            proof {
                lemma_pooled_count_bound(group@, i as int, k as nat);
                lemma_catalog_bounds(group@[k as int] as int);
                assert(k * MAX_BUCKET_COUNT + MAX_BUCKET_COUNT <= group@.len() * MAX_BUCKET_COUNT)
                    by (nonlinear_arith)
                    requires
                        k < group@.len(),
                ;
            }
            let added = histogram[i].1;
            counts[i] = counts[i] + added;
            i += 1;
        }
        k += 1;
    }
    let ghost before = blended@;
    let mut k: usize = 0;
    while k < group.len()
        invariant
            k <= group@.len(),
            before == old(blended)@,
            blended@.len() == before.len(),
            counts@.len() == len,
            forall|j: int|
                0 <= j < group@.len() ==> (#[trigger] group@[j]) < before.len()
                    && before[group@[j] as int]@.len() <= len,
            forall|i: int|
                0 <= i < len ==> #[trigger] counts@[i] == pooled_count(group@, i, group@.len()),
            forall|b: int|
                0 <= b < blended@.len() ==> (#[trigger] blended@[b])@.len() == before[b]@.len(),
            forall|b: int, v: int|
                0 <= b < blended@.len() && 0 <= v < blended@[b]@.len() ==> {
                    &&& (#[trigger] blended@[b]@[v]).0 == before[b]@[v].0
                    &&& blended@[b]@[v].1 == if in_group(group@, b, k as nat) {
                        counts@[v]
                    } else {
                        before[b]@[v].1
                    }
                },
        decreases group@.len() - k,
    {
        let buff = group[k];
        let size = blended[buff].len();
        let ghost entering = blended@;
        let mut v: usize = 0;
        while v < size
            invariant
                v <= size,
                k < group@.len(),
                buff == group@[k as int],
                buff < blended@.len(),
                size == blended@[buff as int]@.len(),
                size <= len,
                counts@.len() == len,
                blended@.len() == entering.len(),
                forall|b: int|
                    0 <= b < blended@.len() && b != buff ==> #[trigger] blended@[b] == entering[b],
                blended@[buff as int]@.len() == entering[buff as int]@.len(),
                forall|j: int|
                    0 <= j < size ==> {
                        &&& (#[trigger] blended@[buff as int]@[j]).0 == entering[buff as int]@[j].0
                        &&& blended@[buff as int]@[j].1 == if j < v {
                            counts@[j]
                        } else {
                            entering[buff as int]@[j].1
                        }
                    },
            decreases size - v,
        {
            let value = blended[buff][v].0;
            blended[buff][v] = (value, counts[v]);
            v += 1;
        }
        k += 1;
    }
    proof {
        assert forall|b: int, v: int|
            0 <= b < blended@.len() && 0 <= v < blended@[b]@.len() implies {
            &&& (#[trigger] blended@[b]@[v]).0 == before[b]@[v].0
            &&& blended@[b]@[v].1 as nat == if in_group(group@, b, group@.len()) {
                pooled_count(group@, v, group@.len())
            } else {
                before[b]@[v].1 as nat
            }
        } by {
            if in_group(group@, b, group@.len()) {
                let j = lemma_group_member(group@, b, group@.len());
                assert(before[group@[j] as int]@.len() <= len);
            }
        }
    }
}

/// A buff type that is in a group stands at some position of it.
proof fn lemma_group_member(group: Seq<usize>, buff: int, count: nat) -> (position: int)
    requires
        in_group(group, buff, count),
    ensures
        0 <= position < count,
        group[position] == buff,
    decreases count,
{
    if group[count - 1] == buff {
        count - 1
    } else {
        lemma_group_member(group, buff, (count - 1) as nat)
    }
}


/// The count of a bucket after blending: for a crit buff type the pooled
/// count of the crit group, for a main-stat buff type the pooled count of the
/// main-stat group, and for any other buff type the catalog count.
pub open spec fn blended_count(buff: int, bucket: int) -> nat {
    if in_group(BLEND_GROUP_CRIT@, buff, 2) {
        pooled_count(BLEND_GROUP_CRIT@, bucket, 2)
    } else if in_group(BLEND_GROUP_MAIN@, buff, 9) {
        pooled_count(BLEND_GROUP_MAIN@, bucket, 9)
    } else {
        catalog_histogram(buff)[bucket].1 as nat
    }
}

/// The two groups share no buff type, and every member of a group has eight
/// buckets.
pub proof fn lemma_blend_groups()
    ensures
        forall|buff: int|
            !(in_group(BLEND_GROUP_CRIT@, buff, 2) && in_group(BLEND_GROUP_MAIN@, buff, 9)),
        forall|k: int|
            0 <= k < 2 ==> (#[trigger] BLEND_GROUP_CRIT@[k]) < 13 && catalog_histogram(
                BLEND_GROUP_CRIT@[k] as int,
            ).len() == 8,
        forall|k: int|
            0 <= k < 9 ==> (#[trigger] BLEND_GROUP_MAIN@[k]) < 13 && catalog_histogram(
                BLEND_GROUP_MAIN@[k] as int,
            ).len() == 8,
{
    reveal_with_fuel(in_group, 10);
    assert(BLEND_GROUP_CRIT@[0] == 0 && catalog_histogram(0).len() == 8);
    assert(BLEND_GROUP_CRIT@[1] == 1 && catalog_histogram(1).len() == 8);
    assert(BLEND_GROUP_MAIN@[0] == 2 && catalog_histogram(2).len() == 8);
    assert(BLEND_GROUP_MAIN@[1] == 3 && catalog_histogram(3).len() == 8);
    assert(BLEND_GROUP_MAIN@[2] == 4 && catalog_histogram(4).len() == 8);
    assert(BLEND_GROUP_MAIN@[3] == 7 && catalog_histogram(7).len() == 8);
    assert(BLEND_GROUP_MAIN@[4] == 8 && catalog_histogram(8).len() == 8);
    assert(BLEND_GROUP_MAIN@[5] == 9 && catalog_histogram(9).len() == 8);
    assert(BLEND_GROUP_MAIN@[6] == 10 && catalog_histogram(10).len() == 8);
    assert(BLEND_GROUP_MAIN@[7] == 11 && catalog_histogram(11).len() == 8);
    assert(BLEND_GROUP_MAIN@[8] == 12 && catalog_histogram(12).len() == 8);
}

/// The catalog histograms with the counts of the crit group and of the
/// main-stat group pooled: the buff types of a group are rolled from one pool.
pub fn build_blended_histograms() -> (blended: Vec<Vec<(u16, u32)>>)
    ensures
        blended@.len() == 13,
        forall|b: int|
            0 <= b < 13 ==> (#[trigger] blended@[b])@.len() == catalog_histogram(b).len(),
        forall|b: int, v: int|
            0 <= b < 13 && 0 <= v < blended@[b]@.len() ==> {
                &&& (#[trigger] blended@[b]@[v]).0 == catalog_histogram(b)[v].0
                &&& blended@[b]@[v].1 as nat == blended_count(b, v)
            },
{
    let mut blended = catalog_histograms();
    proof {
        lemma_blend_groups();
    }
    let ghost catalog = blended@;
    blend_group(&mut blended, &BLEND_GROUP_CRIT);
    let ghost crit_blended = blended@;
    blend_group(&mut blended, &BLEND_GROUP_MAIN);
    proof {
        assert forall|b: int, v: int| 0 <= b < 13 && 0 <= v < blended@[b]@.len() implies {
            &&& (#[trigger] blended@[b]@[v]).0 == catalog_histogram(b)[v].0
            &&& blended@[b]@[v].1 as nat == blended_count(b, v)
        } by {
            assert(crit_blended[b]@.len() == catalog[b]@.len());
            assert(crit_blended[b]@[v].0 == catalog[b]@[v].0);
        }
    }
    blended
}


/// Whether `score` is the score of one of the first `count` buckets.
pub open spec fn occurs(scores: Seq<u16>, score: u16, count: nat) -> bool
    decreases count,
{
    count > 0 && (occurs(scores, score, (count - 1) as nat) || scores[count - 1] == score)
}

/// The count that the first `count` buckets give to `score`: the sum of the
/// counts of those whose score it is.
pub open spec fn mass_at(histogram: Seq<(u16, u32)>, scores: Seq<u16>, score: u16, count: nat)
    -> nat
    decreases count,
{
    if count == 0 {
        0
    } else {
        mass_at(histogram, scores, score, (count - 1) as nat) + if scores[count - 1] == score {
            histogram[count - 1].1 as nat
        } else {
            0
        }
    }
}

/// The sum of the counts of the first `count` buckets.
pub open spec fn total_mass(histogram: Seq<(u16, u32)>, count: nat) -> nat
    decreases count,
{
    if count == 0 {
        0
    } else {
        total_mass(histogram, (count - 1) as nat) + histogram[count - 1].1 as nat
    }
}

/// The sum of the counts of the first `count` entries of a tally.
pub open spec fn tally_mass(tally: Seq<(u16, u64)>, count: nat) -> nat
    decreases count,
{
    if count == 0 {
        0
    } else {
        tally_mass(tally, (count - 1) as nat) + tally[count - 1].1 as nat
    }
}

/// The count that the first `count` entries of a tally hold for `score`.
pub open spec fn tallied(tally: Seq<(u16, u64)>, score: u16, count: nat) -> Option<u64>
    decreases count,
{
    if count == 0 {
        None
    } else if tally[count - 1].0 == score {
        Some(tally[count - 1].1)
    } else {
        tallied(tally, score, (count - 1) as nat)
    }
}

/// Whether the scores of a tally ascend strictly.
pub open spec fn strictly_ascending(tally: Seq<(u16, u64)>) -> bool {
    forall|a: int, b: int| 0 <= a < b < tally.len() ==> tally[a].0 < tally[b].0
}

/// Whether `tally` is the tally of the first `count` buckets: it holds every
/// score that occurs, once, with the sum of the counts of its buckets.
pub open spec fn is_tally_of(
    tally: Seq<(u16, u64)>,
    histogram: Seq<(u16, u32)>,
    scores: Seq<u16>,
    count: nat,
) -> bool {
    &&& strictly_ascending(tally)
    &&& forall|score: u16| #[trigger]
        tallied(tally, score, tally.len()) == if occurs(scores, score, count) {
            Some(mass_at(histogram, scores, score, count) as u64)
        } else {
            None
        }
    &&& tally_mass(tally, tally.len()) == total_mass(histogram, count)
}

proof fn lemma_lookup(tally: Seq<(u16, u64)>, score: u16, count: nat) -> (at: int)
    requires
        count <= tally.len(),
    ensures
        -1 <= at < count,
        at == -1 ==> tallied(tally, score, count).is_none() && forall|k: int|
            0 <= k < count ==> tally[k].0 != score,
        at >= 0 ==> tally[at].0 == score && tallied(tally, score, count) == Some(tally[at].1),
    decreases count,
{
    if count == 0 {
        -1
    } else if tally[count - 1].0 == score {
        count - 1
    } else {
        lemma_lookup(tally, score, (count - 1) as nat)
    }
}

proof fn lemma_mass_bounds(histogram: Seq<(u16, u32)>, scores: Seq<u16>, score: u16, count: nat)
    ensures
        mass_at(histogram, scores, score, count) <= total_mass(histogram, count),
        total_mass(histogram, count) <= count * 0xFFFF_FFFF,
        !occurs(scores, score, count) ==> mass_at(histogram, scores, score, count) == 0,
    decreases count,
{
    if count > 0 {
        lemma_mass_bounds(histogram, scores, score, (count - 1) as nat);
    }
}

/// Whether a map from score to count holds the tally of the first `count`
/// buckets: a key for every score that occurs, and for no other, with the sum
/// of the counts of its buckets.
spec fn holds_tally(
    counts: Map<u16, u64>,
    histogram: Seq<(u16, u32)>,
    scores: Seq<u16>,
    count: nat,
) -> bool {
    forall|score: u16|
        {
            &&& #[trigger] counts.contains_key(score) <==> occurs(scores, score, count)
            &&& counts.contains_key(score) ==> counts[score] == mass_at(
                histogram,
                scores,
                score,
                count,
            )
        }
}

/// The sum, over the first `upto` entries of a tally, of the counts that the
/// first `count` buckets give to the scores of those entries.
spec fn keyed_mass(
    tally: Seq<(u16, u64)>,
    histogram: Seq<(u16, u32)>,
    scores: Seq<u16>,
    count: nat,
    upto: nat,
) -> nat
    decreases upto,
{
    if upto == 0 {
        0
    } else {
        keyed_mass(tally, histogram, scores, count, (upto - 1) as nat) + mass_at(
            histogram,
            scores,
            tally[upto - 1].0,
            count,
        )
    }
}

proof fn lemma_keyed_mass_of_nothing(
    tally: Seq<(u16, u64)>,
    histogram: Seq<(u16, u32)>,
    scores: Seq<u16>,
    upto: nat,
)
    ensures
        keyed_mass(tally, histogram, scores, 0, upto) == 0,
    decreases upto,
{
    if upto > 0 {
        lemma_keyed_mass_of_nothing(tally, histogram, scores, (upto - 1) as nat);
    }
}

/// One more bucket adds its count to the entry of its score, and to no other.
proof fn lemma_keyed_mass_step(
    tally: Seq<(u16, u64)>,
    histogram: Seq<(u16, u32)>,
    scores: Seq<u16>,
    count: nat,
    upto: nat,
)
    requires
        strictly_ascending(tally),
        upto <= tally.len(),
        count > 0,
    ensures
        keyed_mass(tally, histogram, scores, count, upto) == keyed_mass(
            tally,
            histogram,
            scores,
            (count - 1) as nat,
            upto,
        ) + if tallied(tally, scores[count - 1], upto).is_some() {
            histogram[count - 1].1 as nat
        } else {
            0
        },
    decreases upto,
{
    if upto > 0 {
        lemma_keyed_mass_step(tally, histogram, scores, count, (upto - 1) as nat);
        if tally[upto - 1].0 == scores[count - 1] {
            let earlier = lemma_lookup(tally, scores[count - 1], (upto - 1) as nat);
            if earlier >= 0 {
                assert(tally[earlier].0 < tally[upto - 1].0);
            }
        }
    }
}

/// Where a tally has an entry for every score that occurs, the counts that the
/// buckets give to its scores are the counts of all the buckets.
proof fn lemma_keyed_mass_is_total(
    tally: Seq<(u16, u64)>,
    histogram: Seq<(u16, u32)>,
    scores: Seq<u16>,
    count: nat,
)
    requires
        strictly_ascending(tally),
        forall|score: u16|
            occurs(scores, score, count) ==> (#[trigger] tallied(
                tally,
                score,
                tally.len(),
            )).is_some(),
    ensures
        keyed_mass(tally, histogram, scores, count, tally.len()) == total_mass(histogram, count),
    decreases count,
{
    if count == 0 {
        lemma_keyed_mass_of_nothing(tally, histogram, scores, tally.len());
    } else {
        lemma_keyed_mass_is_total(tally, histogram, scores, (count - 1) as nat);
        lemma_keyed_mass_step(tally, histogram, scores, count, tally.len());
        assert(occurs(scores, scores[count - 1], count));
    }
}

proof fn lemma_tally_mass_is_keyed(
    tally: Seq<(u16, u64)>,
    histogram: Seq<(u16, u32)>,
    scores: Seq<u16>,
    count: nat,
    upto: nat,
)
    requires
        upto <= tally.len(),
        forall|k: int|
            0 <= k < tally.len() ==> (#[trigger] tally[k]).1 == mass_at(
                histogram,
                scores,
                tally[k].0,
                count,
            ),
    ensures
        tally_mass(tally, upto) == keyed_mass(tally, histogram, scores, count, upto),
    decreases upto,
{
    if upto > 0 {
        lemma_tally_mass_is_keyed(tally, histogram, scores, count, (upto - 1) as nat);
        assert(tally[upto - 1].1 == mass_at(histogram, scores, tally[upto - 1].0, count));
    }
}

/// The entries of a map that holds the tally, in ascending order of their
/// scores, are the tally.
proof fn lemma_entries_are_the_tally(
    tally: Seq<(u16, u64)>,
    counts: Map<u16, u64>,
    histogram: Seq<(u16, u32)>,
    scores: Seq<u16>,
    count: nat,
)
    requires
        holds_tally(counts, histogram, scores, count),
        lists(tally, counts),
    ensures
        is_tally_of(tally, histogram, scores, count),
{
    assert forall|score: u16| #[trigger]
        tallied(tally, score, tally.len()) == if occurs(scores, score, count) {
            Some(mass_at(histogram, scores, score, count) as u64)
        } else {
            None
        } by {
        let found = lemma_lookup(tally, score, tally.len());
        if found >= 0 {
            assert(counts.contains_key(tally[found].0));
        } else if counts.contains_key(score) {
            let k = choose|k: int| 0 <= k < tally.len() && #[trigger] tally[k].0 == score;
            assert(false);
        }
    }
    assert forall|k: int| 0 <= k < tally.len() implies (#[trigger] tally[k]).1 == mass_at(
        histogram,
        scores,
        tally[k].0,
        count,
    ) by {
        assert(counts.contains_key(tally[k].0));
    }
    lemma_tally_mass_is_keyed(tally, histogram, scores, count, tally.len());
    lemma_keyed_mass_is_total(tally, histogram, scores, count);
}

/// Whether `tally` lists the entries of `counts`, each once, in ascending
/// order of the scores.
spec fn lists(tally: Seq<(u16, u64)>, counts: Map<u16, u64>) -> bool {
    &&& strictly_ascending(tally)
    &&& forall|k: int|
        0 <= k < tally.len() ==> counts.contains_key(#[trigger] tally[k].0) && counts[tally[k].0]
            == tally[k].1
    &&& forall|score: u16|
        counts.contains_key(score) ==> exists|k: int|
            0 <= k < tally.len() && #[trigger] tally[k].0 == score
}

/// The counts of the buckets, added up under the score of each.
fn count_by_score(histogram: &[(u16, u32)], scores: &[u16]) -> (counts: BTreeMap<u16, u64>)
    requires
        scores@.len() == histogram@.len(),
        histogram@.len() <= 0xFFFF_FFFF,
    ensures
        holds_tally(counts@, histogram@, scores@, histogram@.len()),
{
    broadcast use group_btree_axioms;

    let mut counts: BTreeMap<u16, u64> = BTreeMap::new();
    let mut index: usize = 0;
    while index < histogram.len()
        invariant
            index <= histogram@.len(),
            scores@.len() == histogram@.len(),
            histogram@.len() <= 0xFFFF_FFFF,
            holds_tally(counts@, histogram@, scores@, index as nat),
        decreases histogram@.len() - index,
    {
        let score = scores[index];
        let added = histogram[index].1;
        let ghost before = counts@;
        let held: u64 = match counts.get(&score) {
            Some(count) => *count,
            None => 0,
        };
        proof {
            lemma_mass_bounds(histogram@, scores@, score, index as nat);
            assert(before.contains_key(score) <==> occurs(scores@, score, index as nat));
            assert(held == mass_at(histogram@, scores@, score, index as nat));
            assert(index * 0xFFFF_FFFF + 0xFFFF_FFFF <= u64::MAX) by (nonlinear_arith)
                requires
                    index < 0xFFFF_FFFF,
            ;
        }
        counts.insert(score, held + added as u64);
        proof {
            assert forall|other: u16|
                {
                    &&& #[trigger] counts@.contains_key(other) <==> occurs(
                        scores@,
                        other,
                        (index + 1) as nat,
                    )
                    &&& counts@.contains_key(other) ==> counts@[other] == mass_at(
                        histogram@,
                        scores@,
                        other,
                        (index + 1) as nat,
                    )
                } by {
                assert(before.contains_key(other) <==> occurs(scores@, other, index as nat));
            }
        }
        index += 1;
    }
    counts
}

/// The entries of a map from score to count, in ascending order of the scores.
fn entries_in_order(counts: &BTreeMap<u16, u64>) -> (tally: Vec<(u16, u64)>)
    ensures
        lists(tally@, counts@),
{
    broadcast use group_btree_axioms;

    let mut tally: Vec<(u16, u64)> = Vec::new();
    for entry in walk: counts.iter()
        invariant
            tally@.len() == walk.index(),
            walk.seq() == spec_btree_map_iter(counts).remaining(),
            increasing_seq(walk.seq().map_values(|entry: (&u16, &u64)| *entry.0)),
            forall|j: int|
                0 <= j < tally@.len() ==> (#[trigger] tally@[j]) == (
                    *walk.seq()[j].0,
                    *walk.seq()[j].1,
                ),
    {
        tally.push((*entry.0, *entry.1));
    }
    proof {
        let entries = spec_btree_map_iter(counts).remaining();
        let keys = entries.map_values(|entry: (&u16, &u64)| *entry.0);
        assert(tally@.len() == entries.len());
        assert forall|a: int, b: int| 0 <= a < b < tally@.len() implies tally@[a].0 < tally@[b].0 by {
            assert(keys[a] == tally@[a].0);
            assert(keys[b] == tally@[b].0);
            assert(keys[a].cmp_spec(&keys[b]) is Less);
        }
        assert forall|score: u16| counts@.contains_key(score) implies exists|k: int|
            0 <= k < tally@.len() && #[trigger] tally@[k].0 == score by {
            assert(entries.contains((&score, &counts@[score])));
            let k = choose|k: int| 0 <= k < entries.len() && entries[k] == (&score, &counts@[score]);
            assert(tally@[k].0 == score);
        }
    }
    tally
}

/// The tally of a histogram by score: `scores` gives the score of each
/// bucket, and the tally holds every score that occurs, in ascending order,
/// with the sum of the counts of its buckets. No count is lost: the counts of
/// the tally sum to the counts of the histogram.
///
/// `None` where `scores` does not give one score for each bucket, or where
/// there are more than `u32::MAX` buckets.
pub fn tally_scores(histogram: &[(u16, u32)], scores: &[u16]) -> (result: Option<Vec<(u16, u64)>>)
    ensures
        result.is_none() <==> (scores@.len() != histogram@.len() || histogram@.len()
            > 0xFFFF_FFFF),
        result matches Some(tally) ==> is_tally_of(
            tally@,
            histogram@,
            scores@,
            histogram@.len(),
        ),
{
    if scores.len() != histogram.len() || histogram.len() > 0xFFFF_FFFF {
        return None;
    }
    let counts = count_by_score(histogram, scores);
    let tally = entries_in_order(&counts);
    proof {
        lemma_entries_are_the_tally(tally@, counts@, histogram@, scores@, histogram@.len());
    }
    Some(tally)
}

} // verus!
