//! The upgrade policy: for each partial mask and score, whether to reveal the
//! next slot or to abandon the echo.
//!
//! The solver keeps the state space and the policy. The values that a policy
//! is derived from are computed by the caller, who walks the states with
//! [`UpgradePolicySolver::visit`], stores each result with
//! [`UpgradePolicySolver::record`] and ends the pass with
//! [`UpgradePolicySolver::finish_policy`]. Until then the solver answers no
//! question about the policy. The type `V` of those values is the caller's;
//! the solver stores them and never looks inside.

use crate::mask::{
    calculate_num_filled_slots, in_domain, is_full, is_partial, is_valid_external_full_mask,
    lemma_class_bounds, lemma_index_bijection, mask_rank, mask_table, MaskClass, MaskTables,
};
use crate::mask_cache::{lower_cut_off, MaskCache};
use crate::score_bounds::{
    best_case_remaining, best_case_remaining_score, best_sum, lemma_best_sum_monotone,
    lemma_best_sum_of_empty_mask, lemma_mask_sum_cap, lemma_mask_sum_pointwise, mask_score_sum,
    mask_sum, slots_left, top_scores_sum,
};
use vstd::prelude::*;

verus! {

/// What the caller found when it checked the probabilities of one score
/// distribution.
#[derive(Clone, Copy, PartialEq, Eq, Structural, Debug)]
pub enum MassVerdict {
    /// Every probability is a number that is not negative, and they sum to one.
    Normalized,
    /// The probability of the entry at this position is no such number.
    InvalidProbability { entry: usize },
    /// The probabilities do not sum to one.
    NotNormalized,
}

/// The score distribution of one buff type: the scores it can add, each with
/// its probability, and the verdict on those probabilities.
pub struct ScorePmf<V> {
    pub entries: Vec<(u16, V)>,
    pub verdict: MassVerdict,
}

/// Why the upgrade solver refuses.
#[derive(Clone, Copy, PartialEq, Eq, Structural, Debug)]
pub enum UpgradePolicySolverError {
    ExpectedResourcesNotComputed,
    InvalidMask { mask: u16 },
    InvalidScorePmfCount { count: usize },
    InvalidScorePmfEmpty { buff_index: usize },
    InvalidScorePmfProbability { buff_index: usize, entry: usize },
    InvalidScorePmfNotNormalized { buff_index: usize },
    ScoreRangeOverflow { max_score_sum: u32 },
    InvalidScore,
    InvalidTolerance,
    LambdaNotBracketed,
    LambdaNotFoundWithinMaxIter,
    PolicyNotDerived,
    TargetScoreImpossible { max_possible_score: u16, target_score: u16 },
}

/// The least score among the first `count` entries; `u16::MAX` where there is
/// none.
pub open spec fn min_score_of<V>(entries: Seq<(u16, V)>, count: nat) -> u16
    decreases count,
{
    if count == 0 {
        u16::MAX
    } else {
        let rest = min_score_of(entries, (count - 1) as nat);
        if entries[count - 1].0 < rest {
            entries[count - 1].0
        } else {
            rest
        }
    }
}

/// The largest score among the first `count` entries; 0 where there is none.
pub open spec fn max_score_of<V>(entries: Seq<(u16, V)>, count: nat) -> u16
    decreases count,
{
    if count == 0 {
        0
    } else {
        let rest = max_score_of(entries, (count - 1) as nat);
        if entries[count - 1].0 > rest {
            entries[count - 1].0
        } else {
            rest
        }
    }
}

/// For each buff type the least score it can add.
pub open spec fn buff_min_scores<V>(pmfs: Seq<ScorePmf<V>>) -> Seq<u16> {
    Seq::new(pmfs.len(), |i: int| min_score_of(pmfs[i].entries@, pmfs[i].entries@.len()))
}

/// For each buff type the largest score it can add.
pub open spec fn buff_max_scores<V>(pmfs: Seq<ScorePmf<V>>) -> Seq<u16> {
    Seq::new(pmfs.len(), |i: int| max_score_of(pmfs[i].entries@, pmfs[i].entries@.len()))
}

/// What is wrong with the distribution of buff type `buff_index`, if anything.
pub open spec fn pmf_fault<V>(pmf: ScorePmf<V>, buff_index: int) -> Option<
    UpgradePolicySolverError,
> {
    if pmf.entries@.len() == 0 {
        Some(UpgradePolicySolverError::InvalidScorePmfEmpty { buff_index: buff_index as usize })
    } else {
        match pmf.verdict {
            MassVerdict::Normalized => None,
            MassVerdict::InvalidProbability { entry } => Some(
                UpgradePolicySolverError::InvalidScorePmfProbability {
                    buff_index: buff_index as usize,
                    entry,
                },
            ),
            MassVerdict::NotNormalized => Some(
                UpgradePolicySolverError::InvalidScorePmfNotNormalized {
                    buff_index: buff_index as usize,
                },
            ),
        }
    }
}

/// The fault of the first faulty distribution among the first `count`.
pub open spec fn first_pmf_fault<V>(pmfs: Seq<ScorePmf<V>>, count: nat) -> Option<
    UpgradePolicySolverError,
>
    decreases count,
{
    if count == 0 {
        None
    } else {
        match first_pmf_fault(pmfs, (count - 1) as nat) {
            Some(fault) => Some(fault),
            None => pmf_fault(pmfs[count - 1], count - 1),
        }
    }
}

/// The largest score a full echo can have: the five largest of the buff types'
/// largest scores.
pub open spec fn max_score_sum<V>(pmfs: Seq<ScorePmf<V>>) -> nat {
    best_sum(buff_max_scores(pmfs), 0, 13, 5)
}

/// Why no solver can be made from these distributions and this target, if
/// there is a reason. The checks are made in this order: the number of
/// distributions, each distribution in turn, the score range, the target.
pub open spec fn construction_fault<V>(pmfs: Seq<ScorePmf<V>>, target_score: u16) -> Option<
    UpgradePolicySolverError,
> {
    if pmfs.len() != 13 {
        Some(UpgradePolicySolverError::InvalidScorePmfCount { count: pmfs.len() as usize })
    } else if first_pmf_fault(pmfs, 13).is_some() {
        first_pmf_fault(pmfs, 13)
    } else if max_score_sum(pmfs) > u16::MAX {
        Some(
            UpgradePolicySolverError::ScoreRangeOverflow {
                max_score_sum: max_score_sum(pmfs) as u32,
            },
        )
    } else if target_score > max_score_sum(pmfs) {
        Some(
            UpgradePolicySolverError::TargetScoreImpossible {
                max_possible_score: max_score_sum(pmfs) as u16,
                target_score,
            },
        )
    } else {
        None
    }
}

/// The least score that `mask` can have.
pub open spec fn least_score<V>(pmfs: Seq<ScorePmf<V>>, mask: u16) -> nat {
    mask_sum(buff_min_scores(pmfs), mask, 13)
}

/// The largest score that `mask` can have.
pub open spec fn largest_score<V>(pmfs: Seq<ScorePmf<V>>, mask: u16) -> nat {
    mask_sum(buff_max_scores(pmfs), mask, 13)
}

/// The score under which a state is looked up: a score at or above the target
/// stands for every such score, and is replaced by the target, or by the least
/// score of the mask where that is larger.
pub open spec fn clamped_score<V>(pmfs: Seq<ScorePmf<V>>, target_score: u16, mask: u16, score: u16)
    -> int {
    if score >= target_score {
        if least_score(pmfs, mask) > target_score {
            least_score(pmfs, mask) as int
        } else {
            target_score as int
        }
    } else {
        score as int
    }
}

/// The decision that a policy with the given cut-off makes at `score`.
pub open spec fn decision_at(mask: u16, cut_off: Option<u16>, score: u16) -> bool {
    if mask == 0 {
        true
    } else {
        match cut_off {
            Some(s) => score >= s,
            None => false,
        }
    }
}

proof fn lemma_min_max_of<V>(entries: Seq<(u16, V)>, count: nat)
    requires
        count <= entries.len(),
    ensures
        forall|j: int|
            0 <= j < count ==> min_score_of(entries, count) <= (#[trigger] entries[j]).0
                <= max_score_of(entries, count),
        count > 0 ==> min_score_of(entries, count) <= max_score_of(entries, count),
    decreases count,
{
    if count > 0 {
        lemma_min_max_of(entries, (count - 1) as nat);
        assert(entries[count - 1].0 <= max_score_of(entries, count));
    }
}

/// Every score of a distribution lies between the least and the largest score
/// of its buff type.
pub proof fn lemma_entry_in_range<V>(pmfs: Seq<ScorePmf<V>>, buff: int, entry: int)
    requires
        0 <= buff < pmfs.len(),
        0 <= entry < pmfs[buff].entries@.len(),
    ensures
        buff_min_scores(pmfs)[buff] <= pmfs[buff].entries@[entry].0 <= buff_max_scores(pmfs)[buff],
{
    lemma_min_max_of(pmfs[buff].entries@, pmfs[buff].entries@.len());
}

/// The least and the largest score over the entries of one distribution.
fn score_range<V>(entries: &Vec<(u16, V)>) -> (range: (u16, u16))
    ensures
        range.0 == min_score_of(entries@, entries@.len()),
        range.1 == max_score_of(entries@, entries@.len()),
{
    let mut min_score: u16 = u16::MAX;
    let mut max_score: u16 = 0;
    let mut j: usize = 0;
    while j < entries.len()
        invariant
            j <= entries@.len(),
            min_score == min_score_of(entries@, j as nat),
            max_score == max_score_of(entries@, j as nat),
        decreases entries@.len() - j,
    {
        let score = entries[j].0;
        if score < min_score {
            min_score = score;
        }
        if score > max_score {
            max_score = score;
        }
        j += 1;
    }
    (min_score, max_score)
}

/// The fault of one distribution, if it has one.
fn check_pmf<V>(pmf: &ScorePmf<V>, buff_index: usize) -> (fault: Option<UpgradePolicySolverError>)
    ensures
        fault == pmf_fault(*pmf, buff_index as int),
{
    if pmf.entries.len() == 0 {
        return Some(UpgradePolicySolverError::InvalidScorePmfEmpty { buff_index });
    }
    match pmf.verdict {
        MassVerdict::Normalized => None,
        MassVerdict::InvalidProbability { entry } => Some(
            UpgradePolicySolverError::InvalidScorePmfProbability { buff_index, entry },
        ),
        MassVerdict::NotNormalized => Some(
            UpgradePolicySolverError::InvalidScorePmfNotNormalized { buff_index },
        ),
    }
}

/// Whether `cache` is the cache of `mask` under these score ranges.
pub open spec fn cache_fits<V: Copy>(
    cache: MaskCache<V>,
    mask: u16,
    mins: Seq<u16>,
    maxes: Seq<u16>,
) -> bool {
    &&& cache.wf()
    &&& cache.least() == mask_sum(mins, mask, 13)
    &&& cache.largest() == mask_sum(maxes, mask, 13)
    &&& cache.best_case() == best_case_remaining(maxes, mask)
}

/// The caches of all partial masks, in the order of their dense index, each
/// sized from the least and the largest score of its mask.
fn build_caches<V: Copy>(tables: &MaskTables, mins: &[u16; 13], maxes: &[u16; 13]) -> (caches: Vec<
    MaskCache<V>,
>)
    requires
        best_sum(maxes@, 0, 13, 5) <= u16::MAX,
        forall|i: int| 0 <= i < 13 ==> mins@[i] <= maxes@[i],
    ensures
        caches@.len() == mask_table(MaskClass::Partial).len(),
        forall|i: int|
            0 <= i < caches@.len() ==> {
                &&& cache_fits(
                    #[trigger] caches@[i],
                    mask_table(MaskClass::Partial)[i],
                    mins@,
                    maxes@,
                )
                &&& caches@[i].is_clean()
            },
{
    let count = tables.num_partial_masks();
    let mut caches: Vec<MaskCache<V>> = Vec::new();
    let mut index: usize = 0;
    proof {
        lemma_index_bijection(MaskClass::Partial);
    }
    while index < count
        invariant
            index <= count,
            count == mask_table(MaskClass::Partial).len(),
            caches@.len() == index,
            best_sum(maxes@, 0, 13, 5) <= u16::MAX,
            forall|i: int| 0 <= i < 13 ==> mins@[i] <= maxes@[i],
            forall|i: int|
                0 <= i < mask_table(MaskClass::Partial).len() ==> is_partial(
                    #[trigger] mask_table(MaskClass::Partial)[i],
                ),
            forall|i: int|
                0 <= i < caches@.len() ==> {
                    &&& cache_fits(
                        #[trigger] caches@[i],
                        mask_table(MaskClass::Partial)[i],
                        mins@,
                        maxes@,
                    )
                    &&& caches@[i].is_clean()
                },
        decreases count - index,
    {
        let mask = tables.partial_mask(index);
        proof {
            assert(is_partial(mask_table(MaskClass::Partial)[index as int]));
            lemma_mask_sum_cap(maxes@, mask);
            lemma_mask_sum_pointwise(mins@, maxes@, mask, 13);
            lemma_best_sum_of_empty_mask(maxes@, mask, 13, slots_left(mask));
            lemma_best_sum_monotone(maxes@, 0, 13, slots_left(mask), 5);
        }
        let mask_min_score = mask_score_sum(mask, mins) as u16;
        let mask_max_score = mask_score_sum(mask, maxes) as u16;
        let best_case = best_case_remaining_score(mask, maxes);
        caches.push(MaskCache::new(mask_min_score, mask_max_score, best_case));
        index += 1;
    }
    caches
}


/// What the expected-cost pass knows of one partial mask.
pub enum ExpectedCostCacheEntry<W> {
    /// The policy abandons the mask at every score.
    Abandon,
    /// The policy continues from `cut_off_score` on. `states` holds one slot
    /// for each score from the cut-off up to the target, and is empty where the
    /// cut-off is not below the target.
    Reachable { cut_off_score: u16, states: Vec<Option<W>> },
}

/// How far the derivation of a policy has come.
#[derive(Clone, Copy, PartialEq, Eq, Structural, Debug)]
pub enum PolicyPhase {
    NotDerived,
    /// A price is installed and values are being recorded. No query is
    /// answered yet.
    Deriving,
    /// The policy is finished: queries are answered, and nothing more is
    /// recorded.
    Derived,
}

/// How far the expected-cost pass has come.
#[derive(Clone, Copy, PartialEq, Eq, Structural, Debug)]
pub enum ExpectedPhase {
    NotComputed,
    /// The pass is under way.
    Computing,
    Computed,
}

/// What to do at a state of the expected-cost recursion.
pub enum ResourceVisit<W> {
    /// The mask is full: the echo succeeds or fails with its score.
    Terminal { success: bool },
    /// The policy abandons here: certain failure at no further cost.
    Failed,
    /// The score has reached the target: certain success, at the cost of
    /// filling the empty slots.
    Guaranteed { filled_slots: usize },
    /// The expected cost of the state is known.
    Known { state: W },
    /// The expected cost has to be computed from the states that follow.
    Expand { filled_slots: usize },
}

/// The chance of success at a state, as far as the solver knows it.
pub enum Likelihood<W> {
    /// The score has reached the target.
    Certain,
    /// The policy abandons here.
    Impossible,
    /// The expected cost computed for the state, which holds the chance.
    Stored { state: W },
}

/// What to do at a state of the value recursion.
pub enum Visit<V> {
    /// The mask is full: the echo succeeds or fails with its score.
    Terminal { success: bool },
    /// The value of the state is known.
    Cached { value: V },
    /// Even the best case for the empty slots stays below the target: the
    /// value is zero and the decision is to abandon. `score` is the score under
    /// which to record that.
    Hopeless { score: u16 },
    /// The value has to be computed from the states that follow; `score` is
    /// the score to add the next slot's score to, and under which to record the
    /// result.
    Expand { score: u16, filled_slots: usize },
}

/// The solver of the upgrade problem over values of type `V`, with expected
/// costs of type `W`.
pub struct UpgradePolicySolver<V, W> {
    score_pmfs: Vec<ScorePmf<V>>,
    target_score: u16,
    lambda: Option<V>,
    policy_phase: PolicyPhase,
    buff_min_score: [u16; 13],
    buff_max_score: [u16; 13],
    max_possible_score: u16,
    tables: MaskTables,
    caches: Vec<MaskCache<V>>,
    touched_cache: Vec<usize>,
    expected_phase: ExpectedPhase,
    memo: Vec<ExpectedCostCacheEntry<W>>,
}

/// A partial mask of the domain.
pub open spec fn valid_partial(mask: u16) -> bool {
    in_domain(mask) && is_partial(mask)
}

/// A full mask of the domain.
pub open spec fn valid_full(mask: u16) -> bool {
    in_domain(mask) && is_full(mask)
}

impl<V: Copy, W: Copy> UpgradePolicySolver<V, W> {
    /// The score distributions the solver was made from.
    pub closed spec fn pmfs(&self) -> Seq<ScorePmf<V>> {
        self.score_pmfs@
    }

    /// The target score.
    pub closed spec fn target(&self) -> u16 {
        self.target_score
    }

    /// How far the derivation of the policy has come.
    pub closed spec fn policy_phase(&self) -> PolicyPhase {
        self.policy_phase
    }

    /// Whether a policy is installed and finished.
    pub open spec fn derived(&self) -> bool {
        self.policy_phase() == PolicyPhase::Derived
    }

    /// Whether a policy is being derived.
    pub open spec fn deriving(&self) -> bool {
        self.policy_phase() == PolicyPhase::Deriving
    }

    /// The price at which the installed policy was derived.
    pub closed spec fn price(&self) -> Option<V> {
        self.lambda
    }

    /// The largest score a full echo can have.
    pub closed spec fn max_possible(&self) -> u16 {
        self.max_possible_score
    }

    /// The cache of a partial mask.
    pub closed spec fn cache_of(&self, mask: u16) -> MaskCache<V> {
        self.caches@[mask_rank(MaskClass::Partial, mask) as int]
    }

    /// The cut-off score of a partial mask, if the policy continues anywhere.
    pub open spec fn cut_off_of(&self, mask: u16) -> Option<u16> {
        self.cache_of(mask).cut_off()
    }

    /// The value recorded for a state, if there is one.
    pub open spec fn value_of(&self, mask: u16, score: int) -> Option<V> {
        self.cache_of(mask).value_at(score)
    }

    /// No value and no cut-off is recorded for any mask.
    pub closed spec fn is_blank(&self) -> bool {
        forall|i: int| 0 <= i < self.caches@.len() ==> (#[trigger] self.caches@[i]).is_clean()
    }

    /// Whether the expected costs have been computed.
    pub open spec fn expected_computed(&self) -> bool {
        self.phase() == ExpectedPhase::Computed
    }

    /// How far the expected-cost pass has come.
    pub closed spec fn phase(&self) -> ExpectedPhase {
        self.expected_phase
    }

    /// What the expected-cost pass knows of a partial mask.
    pub closed spec fn entry_of(&self, mask: u16) -> ExpectedCostCacheEntry<W> {
        self.memo@[mask_rank(MaskClass::Partial, mask) as int]
    }

    /// Whether the expected-cost pass is under way.
    pub open spec fn expected_computing(&self) -> bool {
        self.phase() == ExpectedPhase::Computing
    }

    /// The invariant of the solver.
    pub closed spec fn wf(&self) -> bool {
        &&& self.score_pmfs@.len() == 13
        &&& forall|i: int| 0 <= i < 13 ==> (#[trigger] self.score_pmfs@[i]).entries@.len() > 0
        &&& self.buff_min_score@ == buff_min_scores(self.score_pmfs@)
        &&& self.buff_max_score@ == buff_max_scores(self.score_pmfs@)
        &&& best_sum(self.buff_max_score@, 0, 13, 5) == self.max_possible_score
        &&& self.target_score <= self.max_possible_score
        &&& self.caches@.len() == mask_table(MaskClass::Partial).len()
        &&& forall|i: int|
            0 <= i < self.caches@.len() ==> cache_fits(
                #[trigger] self.caches@[i],
                mask_table(MaskClass::Partial)[i],
                self.buff_min_score@,
                self.buff_max_score@,
            )
        &&& forall|k: int|
            0 <= k < self.touched_cache@.len() ==> (#[trigger] self.touched_cache@[k])
                < self.caches@.len()
        &&& forall|i: int|
            0 <= i < self.caches@.len() && !(#[trigger] self.caches@[i]).is_clean() ==> exists|
                k: int,
            |
                0 <= k < self.touched_cache@.len() && self.touched_cache@[k] == i
        &&& self.policy_phase == PolicyPhase::NotDerived ==> self.touched_cache@.len() == 0
        &&& self.policy_phase != PolicyPhase::NotDerived ==> self.lambda.is_some()
        &&& self.expected_phase != ExpectedPhase::NotComputed ==> self.policy_phase
            == PolicyPhase::Derived
        &&& self.expected_phase != ExpectedPhase::NotComputed ==> {
            &&& self.memo@.len() == self.caches@.len()
            &&& forall|i: int|
                0 <= i < self.memo@.len() ==> entry_shaped(
                    #[trigger] self.memo@[i],
                    mask_table(MaskClass::Partial)[i],
                    self.target_score,
                )
        }
    }

    /// The cache of a partial mask of the domain is sized from the mask's
    /// least and largest score.
    pub proof fn lemma_cache_fits(&self, mask: u16)
        requires
            self.wf(),
            valid_partial(mask),
        ensures
            cache_fits(
                self.cache_of(mask),
                mask,
                buff_min_scores(self.pmfs()),
                buff_max_scores(self.pmfs()),
            ),
            self.cache_of(mask).least() == least_score(self.pmfs(), mask),
            self.cache_of(mask).largest() == largest_score(self.pmfs(), mask),
            self.target() <= self.max_possible() == max_score_sum(self.pmfs()),
    {
        lemma_class_bounds(mask);
        lemma_index_bijection(MaskClass::Partial);
        let i = mask_rank(MaskClass::Partial, mask) as int;
        crate::mask::lemma_masks_below_members(MaskClass::Partial, mask as nat);
        assert(crate::mask::index_table(MaskClass::Partial)[mask as int] == i);
        assert(mask_table(MaskClass::Partial)[i] == mask);
    }

    /// While no policy is installed, nothing is recorded.
    pub proof fn lemma_not_derived_is_blank(&self)
        requires
            self.wf(),
            self.policy_phase() == PolicyPhase::NotDerived,
        ensures
            self.is_blank(),
            !self.expected_computed(),
            !self.expected_computing(),
    {
        assert forall|i: int| 0 <= i < self.caches@.len() implies (#[trigger] self.caches@[i]).is_clean() by {
            if !self.caches@[i].is_clean() {
                let k = choose|k: int|
                    0 <= k < self.touched_cache@.len() && self.touched_cache@[k] == i;
                assert(false);
            }
        }
    }

    /// A blank solver has no cut-off and no value for any mask.
    pub proof fn lemma_blank_has_nothing(&self, mask: u16)
        requires
            self.wf(),
            self.is_blank(),
            valid_partial(mask),
        ensures
            self.cut_off_of(mask).is_none(),
            forall|score: int| self.value_of(mask, score).is_none(),
    {
        self.lemma_cache_fits(mask);
        lemma_class_bounds(mask);
        lemma_index_bijection(MaskClass::Partial);
        crate::mask::lemma_masks_below_members(MaskClass::Partial, mask as nat);
        let i = mask_rank(MaskClass::Partial, mask) as int;
        assert(crate::mask::index_table(MaskClass::Partial)[mask as int] == i);
        assert(self.caches@[i].is_clean());
        self.cache_of(mask).lemma_clean_is_empty();
    }

    /// A solver for these score distributions and this target score, with no
    /// policy installed.
    ///
    /// Fails with the first fault that `construction_fault` names.
    pub fn new(score_pmfs: Vec<ScorePmf<V>>, target_score: u16) -> (result: Result<
        Self,
        UpgradePolicySolverError,
    >)
        ensures
            match result {
                Ok(solver) => {
                    &&& construction_fault(score_pmfs@, target_score).is_none()
                    &&& solver.wf()
                    &&& solver.pmfs() == score_pmfs@
                    &&& solver.target() == target_score
                    &&& solver.max_possible() == max_score_sum(score_pmfs@)
                    &&& solver.policy_phase() == PolicyPhase::NotDerived
                    &&& solver.price().is_none()
                    &&& solver.is_blank()
                },
                Err(fault) => construction_fault(score_pmfs@, target_score) == Some(fault),
            },
    {
        if score_pmfs.len() != 13 {
            return Err(UpgradePolicySolverError::InvalidScorePmfCount { count: score_pmfs.len() });
        }
        let mut buff_min_score = [0u16; 13];
        let mut buff_max_score = [0u16; 13];
        let mut buff_index: usize = 0;
        while buff_index < 13
            invariant
                buff_index <= 13,
                score_pmfs@.len() == 13,
                first_pmf_fault(score_pmfs@, buff_index as nat).is_none(),
                forall|i: int|
                    0 <= i < buff_index ==> {
                        &&& (#[trigger] score_pmfs@[i]).entries@.len() > 0
                        &&& buff_min_score@[i] == buff_min_scores(score_pmfs@)[i]
                        &&& buff_max_score@[i] == buff_max_scores(score_pmfs@)[i]
                        &&& buff_min_score@[i] <= buff_max_score@[i]
                    },
            decreases 13 - buff_index,
        {
            match check_pmf(&score_pmfs[buff_index], buff_index) {
                Some(fault) => {
                    proof {
                        lemma_first_fault_stays(score_pmfs@, (buff_index + 1) as nat, 13);
                    }
                    return Err(fault);
                },
                None => {},
            }
            let range = score_range(&score_pmfs[buff_index].entries);
            proof {
                lemma_min_max_of(
                    score_pmfs@[buff_index as int].entries@,
                    score_pmfs@[buff_index as int].entries@.len(),
                );
            }
            buff_min_score[buff_index] = range.0;
            buff_max_score[buff_index] = range.1;
            buff_index += 1;
        }
        assert(buff_min_score@ =~= buff_min_scores(score_pmfs@));
        assert(buff_max_score@ =~= buff_max_scores(score_pmfs@));
        let max_score_sum: u32 = top_scores_sum(0, &buff_max_score, 5);
        if max_score_sum > 0xFFFF {
            return Err(UpgradePolicySolverError::ScoreRangeOverflow { max_score_sum });
        }
        let max_possible_score: u16 = max_score_sum as u16;
        if target_score > max_possible_score {
            return Err(
                UpgradePolicySolverError::TargetScoreImpossible { max_possible_score, target_score },
            );
        }
        let tables = MaskTables::new();
        let caches = build_caches(&tables, &buff_min_score, &buff_max_score);
        Ok(
            UpgradePolicySolver {
                score_pmfs,
                target_score,
                lambda: None,
                policy_phase: PolicyPhase::NotDerived,
                buff_min_score,
                buff_max_score,
                max_possible_score,
                tables,
                caches,
                touched_cache: Vec::new(),
                expected_phase: ExpectedPhase::NotComputed,
                memo: Vec::new(),
            },
        )
    }

    /// Whether a policy is installed and finished.
    pub fn is_policy_derived(&self) -> (derived: bool)
        ensures
            derived == self.derived(),
    {
        match self.policy_phase {
            PolicyPhase::Derived => true,
            _ => false,
        }
    }

    /// Whether a policy is being derived.
    pub fn is_policy_deriving(&self) -> (deriving: bool)
        ensures
            deriving == self.deriving(),
    {
        match self.policy_phase {
            PolicyPhase::Deriving => true,
            _ => false,
        }
    }

    /// Whether a price is installed: a policy is being derived or is finished.
    fn is_started(&self) -> (started: bool)
        ensures
            started == (self.policy_phase() != PolicyPhase::NotDerived),
    {
        match self.policy_phase {
            PolicyPhase::NotDerived => false,
            _ => true,
        }
    }

    /// The target score.
    pub fn target_score(&self) -> (target: u16)
        ensures
            target == self.target(),
    {
        self.target_score
    }

    /// The largest score a full echo can have.
    pub fn max_possible_score(&self) -> (score: u16)
        ensures
            score == self.max_possible(),
    {
        self.max_possible_score
    }

    /// The price at which the installed policy was derived.
    pub fn lambda(&self) -> (price: Option<V>)
        ensures
            price == self.price(),
    {
        self.lambda
    }

    /// The score distribution of one buff type.
    pub fn score_pmf(&self, buff_index: usize) -> (pmf: &ScorePmf<V>)
        requires
            self.wf(),
            buff_index < 13,
        ensures
            *pmf == self.pmfs()[buff_index as int],
            pmf.entries@.len() > 0,
    {
        &self.score_pmfs[buff_index]
    }
}

impl<V: Copy, W: Copy> UpgradePolicySolver<V, W> {
    /// Everything but the policy: the distributions, the target and the score
    /// ranges are those of `other`.
    pub closed spec fn same_problem(&self, other: &Self) -> bool {
        &&& self.score_pmfs@ == other.score_pmfs@
        &&& self.buff_min_score@ == other.buff_min_score@
        &&& self.buff_max_score@ == other.buff_max_score@
        &&& self.max_possible_score == other.max_possible_score
        &&& self.target_score == other.target_score
    }

    /// A solver poses the same problem as itself.
    pub proof fn lemma_same_problem_reflexive(&self)
        ensures
            self.same_problem(self),
            self.same_policy(self),
    {
    }

    /// Two solvers for the same problem have the same distributions, target
    /// and score range.
    pub proof fn lemma_same_problem(&self, other: &Self)
        requires
            self.same_problem(other),
        ensures
            self.pmfs() == other.pmfs(),
            self.target() == other.target(),
            self.max_possible() == other.max_possible(),
    {
    }

    /// Removes the policy: every recorded value and cut-off, the price, and
    /// the expected costs. Only entries that were set are reset.
    pub fn clear_caches(&mut self)
        requires
            old(self).wf(),
        ensures
            final(self).wf(),
            final(self).same_problem(old(self)),
            final(self).policy_phase() == PolicyPhase::NotDerived,
            final(self).price().is_none(),
            final(self).is_blank(),
            !final(self).expected_computed(),
            !final(self).expected_computing(),
    {
        self.lambda = None;
        self.policy_phase = PolicyPhase::NotDerived;
        self.expected_phase = ExpectedPhase::NotComputed;
        self.memo = Vec::new();
        let count = self.touched_cache.len();
        let mut k: usize = 0;
        while k < count
            invariant
                k <= count,
                count == self.touched_cache@.len(),
                self.touched_cache@ == old(self).touched_cache@,
                self.same_problem(old(self)),
                self.caches@.len() == old(self).caches@.len(),
                self.lambda.is_none(),
                self.policy_phase == PolicyPhase::NotDerived,
                self.expected_phase == ExpectedPhase::NotComputed,
                old(self).wf(),
                forall|i: int|
                    0 <= i < self.caches@.len() ==> cache_fits(
                        #[trigger] self.caches@[i],
                        mask_table(MaskClass::Partial)[i],
                        self.buff_min_score@,
                        self.buff_max_score@,
                    ),
                forall|j: int|
                    0 <= j < k ==> self.caches@[(#[trigger] self.touched_cache@[j]) as int].is_clean(),
                forall|i: int|
                    0 <= i < self.caches@.len() && !(#[trigger] self.caches@[i]).is_clean() ==> !old(
                        self,
                    ).caches@[i].is_clean(),
            decreases count - k,
        {
            let index = self.touched_cache[k];
            assert(old(self).touched_cache@[k as int] < old(self).caches@.len());
            self.caches[index].clear_touched();
            k += 1;
        }
        proof {
            assert forall|i: int| 0 <= i < self.caches@.len() implies (#[trigger] self.caches@[i]).is_clean() by {
                if !self.caches@[i].is_clean() {
                    let j = choose|j: int|
                        0 <= j < old(self).touched_cache@.len() && old(self).touched_cache@[j] == i;
                    assert(self.caches@[self.touched_cache@[j] as int].is_clean());
                }
            }
        }
        self.touched_cache.clear();
    }

    /// Sets a new target score and removes the policy. A target above the
    /// largest possible score is refused, and the solver stays as it was.
    pub fn update_target_score(&mut self, new_target_score: u16) -> (result: Result<
        (),
        UpgradePolicySolverError,
    >)
        requires
            old(self).wf(),
        ensures
            final(self).wf(),
            final(self).pmfs() == old(self).pmfs(),
            final(self).max_possible() == old(self).max_possible(),
            match result {
                Ok(()) => {
                    &&& new_target_score <= old(self).max_possible()
                    &&& final(self).target() == new_target_score
                    &&& final(self).policy_phase() == PolicyPhase::NotDerived
                    &&& final(self).price().is_none()
                    &&& final(self).is_blank()
                    &&& !final(self).expected_computed()
                },
                Err(fault) => {
                    &&& new_target_score > old(self).max_possible()
                    &&& fault == UpgradePolicySolverError::TargetScoreImpossible {
                        max_possible_score: old(self).max_possible(),
                        target_score: new_target_score,
                    }
                    &&& *final(self) == *old(self)
                },
            },
    {
        if new_target_score > self.max_possible_score {
            return Err(
                UpgradePolicySolverError::TargetScoreImpossible {
                    max_possible_score: self.max_possible_score,
                    target_score: new_target_score,
                },
            );
        }
        self.clear_caches();
        self.target_score = new_target_score;
        Ok(())
    }

    /// Starts a policy at the price `lambda`: removes the policy that was
    /// installed and installs the price. The values of the new policy are then
    /// recorded by walking the states, and `finish_policy` ends the
    /// derivation. Until then no query is answered.
    pub fn derive_policy_at_lambda(&mut self, lambda: V)
        requires
            old(self).wf(),
        ensures
            final(self).wf(),
            final(self).same_problem(old(self)),
            final(self).deriving(),
            final(self).price() == Some(lambda),
            final(self).is_blank(),
            !final(self).expected_computed(),
            !final(self).expected_computing(),
    {
        self.clear_caches();
        self.lambda = Some(lambda);
        self.policy_phase = PolicyPhase::Deriving;
    }

    /// Ends the derivation: marks the policy as derived. From then on queries
    /// are answered and nothing more is recorded. What was recorded stays as
    /// it is. Where no derivation is under way, nothing changes.
    pub fn finish_policy(&mut self) -> (result: Result<(), UpgradePolicySolverError>)
        requires
            old(self).wf(),
        ensures
            final(self).wf(),
            final(self).same_problem(old(self)),
            final(self).price() == old(self).price(),
            result == if old(self).deriving() {
                Ok::<(), _>(())
            } else {
                Err(UpgradePolicySolverError::PolicyNotDerived)
            },
            result.is_err() ==> *final(self) == *old(self),
            result.is_ok() ==> {
                &&& final(self).derived()
                &&& forall|mask: u16|
                    valid_partial(mask) ==> final(self).cache_of(mask) == old(self).cache_of(mask)
                &&& !final(self).expected_computed()
                &&& !final(self).expected_computing()
            },
    {
        if !self.is_policy_deriving() {
            return Err(UpgradePolicySolverError::PolicyNotDerived);
        }
        let ghost before = *self;
        self.policy_phase = PolicyPhase::Derived;
        proof {
            assert(self.caches@ == before.caches@);
            assert(self.touched_cache@ == before.touched_cache@);
            assert(self.score_pmfs@ == before.score_pmfs@);
            assert(self.wf());
        }
        Ok(())
    }

    /// What `get_decision` returns.
    pub open spec fn decision_spec(&self, mask: u16, score: u16) -> Result<
        bool,
        UpgradePolicySolverError,
    > {
        if !self.derived() {
            Err(UpgradePolicySolverError::PolicyNotDerived)
        } else if valid_partial(mask) {
            Ok(decision_at(mask, self.cut_off_of(mask), score))
        } else if valid_full(mask) {
            Ok(false)
        } else {
            Err(UpgradePolicySolverError::InvalidMask { mask })
        }
    }

    /// Whether to reveal the next slot at this state: always at the empty
    /// mask, never at a full mask, and at any other partial mask exactly when
    /// the score is at or above the cut-off of the mask.
    pub fn get_decision(&self, mask: u16, score: u16) -> (result: Result<
        bool,
        UpgradePolicySolverError,
    >)
        requires
            self.wf(),
        ensures
            result == self.decision_spec(mask, score),
    {
        if !self.is_policy_derived() {
            return Err(UpgradePolicySolverError::PolicyNotDerived);
        }
        match self.tables.find_partial(mask) {
            Some(cache_index) => {
                if mask == 0 {
                    return Ok(true);
                }
                match self.caches[cache_index].get_decision(score) {
                    Some(decision) => Ok(decision),
                    None => Ok(false),
                }
            },
            None => {
                if is_valid_external_full_mask(mask) {
                    Ok(false)
                } else {
                    Err(UpgradePolicySolverError::InvalidMask { mask })
                }
            },
        }
    }

    /// The cut-off score of a partial mask: the least score at which the
    /// installed policy continues, if there is one.
    pub fn cut_off_score(&self, mask: u16) -> (result: Result<
        Option<u16>,
        UpgradePolicySolverError,
    >)
        requires
            self.wf(),
        ensures
            result == if !self.derived() {
                Err::<Option<u16>, _>(UpgradePolicySolverError::PolicyNotDerived)
            } else if valid_partial(mask) {
                Ok(self.cut_off_of(mask))
            } else {
                Err(UpgradePolicySolverError::InvalidMask { mask })
            },
    {
        if !self.is_policy_derived() {
            return Err(UpgradePolicySolverError::PolicyNotDerived);
        }
        match self.tables.find_partial(mask) {
            Some(cache_index) => Ok(self.caches[cache_index].cut_off_score()),
            None => Err(UpgradePolicySolverError::InvalidMask { mask }),
        }
    }

    /// The least and the largest score that a partial mask can have.
    pub fn score_bounds(&self, mask: u16) -> (result: Result<(u16, u16), UpgradePolicySolverError>)
        requires
            self.wf(),
        ensures
            result == if valid_partial(mask) {
                Ok::<(u16, u16), _>(
                    (
                        least_score(self.pmfs(), mask) as u16,
                        largest_score(self.pmfs(), mask) as u16,
                    ),
                )
            } else {
                Err(UpgradePolicySolverError::InvalidMask { mask })
            },
            valid_partial(mask) ==> least_score(self.pmfs(), mask) <= largest_score(
                self.pmfs(),
                mask,
            ) <= self.max_possible(),
    {
        match self.tables.find_partial(mask) {
            Some(cache_index) => {
                proof {
                    self.lemma_cache_fits(mask);
                    self.cache_of(mask).lemma_range();
                    lemma_mask_sum_cap(self.buff_max_score@, mask);
                }
                Ok((self.caches[cache_index].min_score(), self.caches[cache_index].max_score()))
            },
            None => Err(UpgradePolicySolverError::InvalidMask { mask }),
        }
    }

    /// What `visit` returns.
    pub open spec fn visit_spec(&self, mask: u16, score: u16) -> Result<
        Visit<V>,
        UpgradePolicySolverError,
    > {
        if self.policy_phase() == PolicyPhase::NotDerived {
            Err(UpgradePolicySolverError::PolicyNotDerived)
        } else if valid_full(mask) {
            Ok(Visit::Terminal { success: score >= self.target() })
        } else if !valid_partial(mask) {
            Err(UpgradePolicySolverError::InvalidMask { mask })
        } else if score < least_score(self.pmfs(), mask) || score > largest_score(
            self.pmfs(),
            mask,
        ) {
            Err(UpgradePolicySolverError::InvalidScore)
        } else {
            let clamped = clamped_score(self.pmfs(), self.target(), mask, score);
            match self.value_of(mask, clamped) {
                Some(value) => Ok(Visit::Cached { value }),
                None => if clamped + best_case_remaining(buff_max_scores(self.pmfs()), mask)
                    < self.target() {
                    Ok(Visit::Hopeless { score: clamped as u16 })
                } else {
                    Ok(
                        Visit::Expand {
                            score: clamped as u16,
                            filled_slots: crate::mask::popcount(mask) as usize,
                        },
                    )
                },
            }
        }
    }

    /// What the value recursion has to do at a state.
    ///
    /// A full mask is terminal. At a partial mask the score is first clamped;
    /// a value that is cached is handed back; a state that cannot reach the
    /// target even in the best case is hopeless; any other state has to be
    /// expanded. A mask outside the domain and a score that the mask cannot
    /// have are refused.
    pub fn visit(&self, mask: u16, score: u16) -> (result: Result<
        Visit<V>,
        UpgradePolicySolverError,
    >)
        requires
            self.wf(),
        ensures
            result == self.visit_spec(mask, score),
            result matches Ok(Visit::Expand { score: clamped, .. }) ==> least_score(
                self.pmfs(),
                mask,
            ) <= clamped <= largest_score(self.pmfs(), mask),
            result matches Ok(Visit::Hopeless { score: clamped }) ==> least_score(
                self.pmfs(),
                mask,
            ) <= clamped <= largest_score(self.pmfs(), mask),
    {
        if !self.is_started() {
            return Err(UpgradePolicySolverError::PolicyNotDerived);
        }
        if is_valid_external_full_mask(mask) {
            return Ok(Visit::Terminal { success: score >= self.target_score });
        }
        let cache_index = match self.tables.find_partial(mask) {
            Some(cache_index) => cache_index,
            None => {
                return Err(UpgradePolicySolverError::InvalidMask { mask });
            },
        };
        proof {
            self.lemma_cache_fits(mask);
        }
        let cache = &self.caches[cache_index];
        let min_score = cache.min_score();
        if score < min_score || score > cache.max_score() {
            return Err(UpgradePolicySolverError::InvalidScore);
        }
        let clamped: u16 = if score >= self.target_score {
            if min_score > self.target_score {
                min_score
            } else {
                self.target_score
            }
        } else {
            score
        };
        match cache.dp(clamped) {
            Some(value) => Ok(Visit::Cached { value }),
            None => {
                if (clamped as u32) + (cache.best_case_remaining_score() as u32)
                    < self.target_score as u32 {
                    Ok(Visit::Hopeless { score: clamped })
                } else {
                    Ok(
                        Visit::Expand {
                            score: clamped,
                            filled_slots: calculate_num_filled_slots(mask),
                        },
                    )
                }
            },
        }
    }

    /// Records the value of a state and the decision made there. A decision
    /// to continue lowers the cut-off of the mask to `score` where it was
    /// higher or absent. Nothing else changes; a state that does not exist is
    /// refused and nothing changes at all.
    pub fn record(&mut self, mask: u16, score: u16, value: V, decision: bool) -> (result: Result<
        (),
        UpgradePolicySolverError,
    >)
        requires
            old(self).wf(),
        ensures
            final(self).wf(),
            final(self).same_problem(old(self)),
            final(self).policy_phase() == old(self).policy_phase(),
            final(self).price() == old(self).price(),
            result == if !old(self).deriving() {
                Err::<(), _>(UpgradePolicySolverError::PolicyNotDerived)
            } else if !valid_partial(mask) {
                Err(UpgradePolicySolverError::InvalidMask { mask })
            } else if score < least_score(old(self).pmfs(), mask) || score > largest_score(
                old(self).pmfs(),
                mask,
            ) {
                Err(UpgradePolicySolverError::InvalidScore)
            } else {
                Ok(())
            },
            result.is_err() ==> *final(self) == *old(self),
            result.is_ok() ==> {
                &&& final(self).value_of(mask, score as int) == Some(value)
                &&& forall|other: int|
                    other != score ==> final(self).value_of(mask, other) == old(self).value_of(
                        mask,
                        other,
                    )
                &&& final(self).cut_off_of(mask) == if decision {
                    Some(lower_cut_off(old(self).cut_off_of(mask), score))
                } else {
                    old(self).cut_off_of(mask)
                }
                &&& forall|other: u16|
                    valid_partial(other) && other != mask ==> final(self).cache_of(other) == old(
                        self,
                    ).cache_of(other)
            },
    {
        if !self.is_policy_deriving() {
            return Err(UpgradePolicySolverError::PolicyNotDerived);
        }
        let cache_index = match self.tables.find_partial(mask) {
            Some(cache_index) => cache_index,
            None => {
                return Err(UpgradePolicySolverError::InvalidMask { mask });
            },
        };
        proof {
            self.lemma_cache_fits(mask);
        }
        if score < self.caches[cache_index].min_score() || score
            > self.caches[cache_index].max_score() {
            return Err(UpgradePolicySolverError::InvalidScore);
        }
        if !self.caches[cache_index].is_touched() {
            self.touched_cache.push(cache_index);
        }
        self.caches[cache_index].set_cache(score, value, decision);
        proof {
            let before = *old(self);
            assert forall|i: int|
                0 <= i < self.caches@.len() && !(#[trigger] self.caches@[i]).is_clean() implies exists|
                k: int,
            |
                0 <= k < self.touched_cache@.len() && self.touched_cache@[k] == i by {
                if i == cache_index {
                    if before.caches@[i].is_clean() {
                        assert(self.touched_cache@[before.touched_cache@.len() as int] == i);
                    } else {
                        let k = choose|k: int|
                            0 <= k < before.touched_cache@.len() && before.touched_cache@[k] == i;
                        assert(self.touched_cache@[k] == i);
                    }
                } else {
                    assert(self.caches@[i] == before.caches@[i]);
                    let k = choose|k: int|
                        0 <= k < before.touched_cache@.len() && before.touched_cache@[k] == i;
                    assert(self.touched_cache@[k] == i);
                }
            }
            assert forall|k: int| 0 <= k < self.touched_cache@.len() implies (
            #[trigger] self.touched_cache@[k]) < self.caches@.len() by {
                if k < before.touched_cache@.len() {
                    assert(before.touched_cache@[k] < before.caches@.len());
                }
            }
            assert forall|other: u16| valid_partial(other) && other != mask implies self.cache_of(
                other,
            ) == before.cache_of(other) by {
                lemma_class_bounds(other);
                lemma_class_bounds(mask);
                lemma_index_bijection(MaskClass::Partial);
                crate::mask::lemma_masks_below_members(MaskClass::Partial, other as nat);
                crate::mask::lemma_masks_below_members(MaskClass::Partial, mask as nat);
                let a = mask_rank(MaskClass::Partial, other) as int;
                let b = mask_rank(MaskClass::Partial, mask) as int;
                assert(crate::mask::index_table(MaskClass::Partial)[other as int] == a);
                assert(crate::mask::index_table(MaskClass::Partial)[mask as int] == b);
                assert(mask_table(MaskClass::Partial)[a] == other);
                assert(mask_table(MaskClass::Partial)[b] == mask);
            }
        }
        Ok(())
    }
}

/// Whether `entry` has a slot for every score of `mask` that the pass can ask
/// for: at the empty mask one slot; at any other mask that the policy
/// continues from below the target, one slot for each score from the cut-off
/// to the target.
pub open spec fn entry_shaped<W>(entry: ExpectedCostCacheEntry<W>, mask: u16, target_score: u16)
    -> bool {
    match entry {
        ExpectedCostCacheEntry::Abandon => mask != 0,
        ExpectedCostCacheEntry::Reachable { cut_off_score, states } => if mask == 0 {
            cut_off_score == 0 && states@.len() == 1
        } else {
            cut_off_score < target_score ==> states@.len() == target_score - cut_off_score + 1
        },
    }
}

/// Whether `entry` is what the expected-cost pass starts from at `mask`: at
/// the empty mask one unset slot; at a mask without cut-off nothing; at any
/// other mask the cut-off, with one unset slot for each score from the cut-off
/// to the target, and none where the cut-off is not below the target.
pub open spec fn is_initial_entry<W>(
    entry: ExpectedCostCacheEntry<W>,
    mask: u16,
    cut_off: Option<u16>,
    target_score: u16,
) -> bool {
    if mask == 0 {
        entry matches ExpectedCostCacheEntry::Reachable { cut_off_score, states }
            && cut_off_score == 0 && states@ == seq![None::<W>]
    } else {
        match cut_off {
            None => entry is Abandon,
            Some(s) => entry matches ExpectedCostCacheEntry::Reachable { cut_off_score, states }
                && cut_off_score == s && states@ == Seq::new(
                if s < target_score {
                    (target_score - s + 1) as nat
                } else {
                    0nat
                },
                |i: int| None::<W>,
            ),
        }
    }
}

/// `count` unset slots.
fn unset_states<W>(count: usize) -> (states: Vec<Option<W>>)
    ensures
        states@ == Seq::new(count as nat, |i: int| None::<W>),
{
    let mut states: Vec<Option<W>> = Vec::new();
    let mut i: usize = 0;
    while i < count
        invariant
            i <= count,
            states@ == Seq::new(i as nat, |j: int| None::<W>),
        decreases count - i,
    {
        states.push(None);
        i += 1;
        assert(states@ =~= Seq::new(i as nat, |j: int| None::<W>));
    }
    states
}

impl<V: Copy, W: Copy> UpgradePolicySolver<V, W> {
    /// The problem and the policy are those of `other`; only the expected
    /// costs may differ.
    pub closed spec fn same_policy(&self, other: &Self) -> bool {
        &&& self.same_problem(other)
        &&& self.caches@ == other.caches@
        &&& self.touched_cache@ == other.touched_cache@
        &&& self.lambda == other.lambda
        &&& self.policy_phase == other.policy_phase
    }

    /// Two solvers with the same policy agree on every cut-off and value.
    pub proof fn lemma_same_policy(&self, other: &Self)
        requires
            self.same_policy(other),
        ensures
            self.same_problem(other),
            self.policy_phase() == other.policy_phase(),
            self.price() == other.price(),
            forall|mask: u16| self.cache_of(mask) == other.cache_of(mask),
    {
    }

    /// Starts the expected-cost pass: sets up, for every partial mask, what
    /// the pass knows before any expected cost is computed.
    pub fn begin_expected_resources(&mut self) -> (result: Result<(), UpgradePolicySolverError>)
        requires
            old(self).wf(),
        ensures
            final(self).wf(),
            final(self).same_policy(old(self)),
            match result {
                Ok(()) => {
                    &&& old(self).derived()
                    &&& final(self).phase() == ExpectedPhase::Computing
                    &&& forall|mask: u16|
                        valid_partial(mask) ==> is_initial_entry(
                            #[trigger] final(self).entry_of(mask),
                            mask,
                            old(self).cut_off_of(mask),
                            old(self).target(),
                        )
                },
                Err(fault) => {
                    &&& !old(self).derived()
                    &&& fault == UpgradePolicySolverError::PolicyNotDerived
                    &&& *final(self) == *old(self)
                },
            },
    {
        if !self.is_policy_derived() {
            return Err(UpgradePolicySolverError::PolicyNotDerived);
        }
        let count = self.tables.num_partial_masks();
        let mut memo: Vec<ExpectedCostCacheEntry<W>> = Vec::new();
        let mut index: usize = 0;
        while index < count
            invariant
                index <= count,
                count == mask_table(MaskClass::Partial).len(),
                count == self.caches@.len(),
                memo@.len() == index,
                forall|i: int|
                    0 <= i < index ==> is_initial_entry(
                        #[trigger] memo@[i],
                        mask_table(MaskClass::Partial)[i],
                        self.caches@[i].cut_off(),
                        self.target_score,
                    ),
            decreases count - index,
        {
            let mask = self.tables.partial_mask(index);
            let entry = if mask == 0 {
                let states = unset_states(1);
                assert(states@ =~= seq![None::<W>]);
                ExpectedCostCacheEntry::Reachable { cut_off_score: 0, states }
            } else {
                match self.caches[index].cut_off_score() {
                    None => ExpectedCostCacheEntry::Abandon,
                    Some(cut_off_score) => {
                        let size: usize = if cut_off_score < self.target_score {
                            (self.target_score - cut_off_score) as usize + 1
                        } else {
                            0
                        };
                        ExpectedCostCacheEntry::Reachable {
                            cut_off_score,
                            states: unset_states(size),
                        }
                    },
                }
            };
            memo.push(entry);
            index += 1;
        }
        self.memo = memo;
        self.expected_phase = ExpectedPhase::Computing;
        proof {
            assert(self.caches@ == old(self).caches@);
            assert(self.touched_cache@ == old(self).touched_cache@);
            assert(self.memo@.len() == self.caches@.len());
            assert forall|i: int| 0 <= i < self.memo@.len() implies entry_shaped(
                #[trigger] self.memo@[i],
                mask_table(MaskClass::Partial)[i],
                self.target_score,
            ) by {
                assert(is_initial_entry(
                    self.memo@[i],
                    mask_table(MaskClass::Partial)[i],
                    self.caches@[i].cut_off(),
                    self.target_score,
                ));
            }
            assert(self.score_pmfs@ == old(self).score_pmfs@);
            assert(self.same_policy(old(self)));
            assert(self.wf());
            assert forall|mask: u16| valid_partial(mask) implies is_initial_entry(
                #[trigger] self.entry_of(mask),
                mask,
                old(self).cut_off_of(mask),
                old(self).target(),
            ) by {
                lemma_class_bounds(mask);
                lemma_index_bijection(MaskClass::Partial);
                crate::mask::lemma_masks_below_members(MaskClass::Partial, mask as nat);
                let i = mask_rank(MaskClass::Partial, mask) as int;
                assert(crate::mask::index_table(MaskClass::Partial)[mask as int] == i);
                assert(mask_table(MaskClass::Partial)[i] == mask);
            }
        }
        Ok(())
    }

    /// What `resource_visit` returns.
    pub open spec fn resource_visit_spec(&self, mask: u16, score: u16) -> Result<
        ResourceVisit<W>,
        UpgradePolicySolverError,
    > {
        if self.phase() != ExpectedPhase::Computing {
            Err(UpgradePolicySolverError::ExpectedResourcesNotComputed)
        } else if valid_full(mask) {
            Ok(ResourceVisit::Terminal { success: score >= self.target() })
        } else if !valid_partial(mask) {
            Err(UpgradePolicySolverError::InvalidMask { mask })
        } else {
            match self.entry_of(mask) {
                ExpectedCostCacheEntry::Abandon => Ok(ResourceVisit::Failed),
                ExpectedCostCacheEntry::Reachable { cut_off_score, states } => {
                    if score < cut_off_score {
                        Ok(ResourceVisit::Failed)
                    } else if score >= self.target() {
                        Ok(
                            ResourceVisit::Guaranteed {
                                filled_slots: crate::mask::popcount(mask) as usize,
                            },
                        )
                    } else if score - cut_off_score >= states@.len() {
                        Err(UpgradePolicySolverError::InvalidScore)
                    } else {
                        match states@[score - cut_off_score] {
                            Some(state) => Ok(ResourceVisit::Known { state }),
                            None => Ok(
                                ResourceVisit::Expand {
                                    filled_slots: crate::mask::popcount(mask) as usize,
                                },
                            ),
                        }
                    }
                },
            }
        }
    }

    /// What the expected-cost recursion has to do at a state.
    ///
    /// A full mask is terminal. At a partial mask a score below the cut-off
    /// fails, a score at or above the target is a guaranteed success, and a
    /// score in between is known from the memo or has to be expanded.
    pub fn resource_visit(&self, mask: u16, score: u16) -> (result: Result<
        ResourceVisit<W>,
        UpgradePolicySolverError,
    >)
        requires
            self.wf(),
        ensures
            result == self.resource_visit_spec(mask, score),
    {
        match self.expected_phase {
            ExpectedPhase::Computing => {},
            _ => {
                return Err(UpgradePolicySolverError::ExpectedResourcesNotComputed);
            },
        }
        if is_valid_external_full_mask(mask) {
            return Ok(ResourceVisit::Terminal { success: score >= self.target_score });
        }
        let cache_index = match self.tables.find_partial(mask) {
            Some(cache_index) => cache_index,
            None => {
                return Err(UpgradePolicySolverError::InvalidMask { mask });
            },
        };
        match &self.memo[cache_index] {
            ExpectedCostCacheEntry::Abandon => Ok(ResourceVisit::Failed),
            ExpectedCostCacheEntry::Reachable { cut_off_score, states } => {
                if score < *cut_off_score {
                    return Ok(ResourceVisit::Failed);
                }
                if score >= self.target_score {
                    return Ok(
                        ResourceVisit::Guaranteed { filled_slots: calculate_num_filled_slots(mask) },
                    );
                }
                let score_key: usize = (score - *cut_off_score) as usize;
                if score_key >= states.len() {
                    return Err(UpgradePolicySolverError::InvalidScore);
                }
                match states[score_key] {
                    Some(state) => Ok(ResourceVisit::Known { state }),
                    None => Ok(
                        ResourceVisit::Expand { filled_slots: calculate_num_filled_slots(mask) },
                    ),
                }
            },
        }
    }

    /// Whether the memo has a slot for this state: the pass is under way, the
    /// mask is a partial mask that the policy continues from, and the score
    /// lies from its cut-off up to the last slot.
    pub open spec fn has_slot(&self, mask: u16, score: u16) -> bool {
        &&& self.phase() == ExpectedPhase::Computing
        &&& valid_partial(mask)
        &&& self.entry_of(mask) matches ExpectedCostCacheEntry::Reachable { cut_off_score, states }
        &&& cut_off_score <= score
        &&& score - cut_off_score < states@.len()
    }

    /// Stores the expected cost computed for a state in its slot of the memo.
    /// Where the memo has no slot for the state, nothing changes.
    pub fn resource_record(&mut self, mask: u16, score: u16, state: W) -> (result: Result<
        (),
        UpgradePolicySolverError,
    >)
        requires
            old(self).wf(),
        ensures
            final(self).wf(),
            final(self).same_policy(old(self)),
            final(self).phase() == old(self).phase(),
            result == if old(self).phase() != ExpectedPhase::Computing {
                Err::<(), _>(UpgradePolicySolverError::ExpectedResourcesNotComputed)
            } else if !valid_partial(mask) {
                Err(UpgradePolicySolverError::InvalidMask { mask })
            } else if !old(self).has_slot(mask, score) {
                Err(UpgradePolicySolverError::InvalidScore)
            } else {
                Ok(())
            },
            result.is_err() ==> *final(self) == *old(self),
            result.is_ok() ==> {
                &&& final(self).entry_of(mask) matches ExpectedCostCacheEntry::Reachable {
                    cut_off_score,
                    states,
                }
                &&& old(self).entry_of(mask) matches ExpectedCostCacheEntry::Reachable {
                    cut_off_score: old_cut_off,
                    states: old_states,
                }
                &&& cut_off_score == old_cut_off
                &&& states@ == old_states@.update(score - cut_off_score, Some(state))
                &&& forall|other: u16|
                    valid_partial(other) && other != mask ==> final(self).entry_of(other) == old(
                        self,
                    ).entry_of(other)
            },
    {
        match self.expected_phase {
            ExpectedPhase::Computing => {},
            _ => {
                return Err(UpgradePolicySolverError::ExpectedResourcesNotComputed);
            },
        }
        let cache_index = match self.tables.find_partial(mask) {
            Some(cache_index) => cache_index,
            None => {
                return Err(UpgradePolicySolverError::InvalidMask { mask });
            },
        };
        let score_key: usize = match &self.memo[cache_index] {
            ExpectedCostCacheEntry::Abandon => {
                return Err(UpgradePolicySolverError::InvalidScore);
            },
            ExpectedCostCacheEntry::Reachable { cut_off_score, states } => {
                if score < *cut_off_score || (score - *cut_off_score) as usize >= states.len() {
                    return Err(UpgradePolicySolverError::InvalidScore);
                }
                (score - *cut_off_score) as usize
            },
        };
        match &mut self.memo[cache_index] {
            ExpectedCostCacheEntry::Reachable { cut_off_score, states } => {
                states[score_key] = Some(state);
            },
            ExpectedCostCacheEntry::Abandon => {},
        }
        proof {
            let before = *old(self);
            assert(self.caches@ == before.caches@);
            assert(self.touched_cache@ == before.touched_cache@);
            assert(self.memo@.len() == self.caches@.len());
            assert(self.score_pmfs@ == before.score_pmfs@);
            assert(self.same_policy(old(self)));
            assert forall|i: int| 0 <= i < self.memo@.len() implies entry_shaped(
                #[trigger] self.memo@[i],
                mask_table(MaskClass::Partial)[i],
                self.target_score,
            ) by {
                assert(entry_shaped(
                    before.memo@[i],
                    mask_table(MaskClass::Partial)[i],
                    before.target_score,
                ));
            }
            assert(self.wf());
            assert forall|other: u16| valid_partial(other) && other != mask implies self.entry_of(
                other,
            ) == before.entry_of(other) by {
                lemma_class_bounds(other);
                lemma_class_bounds(mask);
                lemma_index_bijection(MaskClass::Partial);
                crate::mask::lemma_masks_below_members(MaskClass::Partial, other as nat);
                crate::mask::lemma_masks_below_members(MaskClass::Partial, mask as nat);
                let a = mask_rank(MaskClass::Partial, other) as int;
                let b = mask_rank(MaskClass::Partial, mask) as int;
                assert(crate::mask::index_table(MaskClass::Partial)[other as int] == a);
                assert(crate::mask::index_table(MaskClass::Partial)[mask as int] == b);
                assert(mask_table(MaskClass::Partial)[a] == other);
                assert(mask_table(MaskClass::Partial)[b] == mask);
            }
        }
        Ok(())
    }

    /// Ends the expected-cost pass: stores the expected cost of the empty mask
    /// and marks the expected costs as computed.
    pub fn finish_expected_resources(&mut self, root: W) -> (result: Result<
        (),
        UpgradePolicySolverError,
    >)
        requires
            old(self).wf(),
        ensures
            final(self).wf(),
            final(self).same_policy(old(self)),
            result == if old(self).has_slot(0, 0) {
                Ok::<(), _>(())
            } else {
                Err(UpgradePolicySolverError::ExpectedResourcesNotComputed)
            },
            result.is_err() ==> *final(self) == *old(self),
            result.is_ok() ==> {
                &&& final(self).phase() == ExpectedPhase::Computed
                &&& final(self).entry_of(0) matches ExpectedCostCacheEntry::Reachable {
                    cut_off_score,
                    states,
                }
                &&& old(self).entry_of(0) matches ExpectedCostCacheEntry::Reachable {
                    cut_off_score: old_cut_off,
                    states: old_states,
                }
                &&& cut_off_score == old_cut_off
                &&& states@ == old_states@.update(0, Some(root))
                &&& forall|other: u16|
                    valid_partial(other) && other != 0 ==> final(self).entry_of(other) == old(
                        self,
                    ).entry_of(other)
            },
    {
        proof {
            lemma_zero_is_partial();
        }
        match self.resource_record(0, 0, root) {
            Ok(()) => {
                let ghost recorded = *self;
                self.expected_phase = ExpectedPhase::Computed;
                proof {
                    assert(self.caches@ == recorded.caches@);
                    assert(self.touched_cache@ == recorded.touched_cache@);
                    assert(self.memo@ == recorded.memo@);
                    assert(self.score_pmfs@ == recorded.score_pmfs@);
                    assert(self.same_policy(old(self)));
                    assert(self.wf());
                }
                Ok(())
            },
            Err(_) => Err(UpgradePolicySolverError::ExpectedResourcesNotComputed),
        }
    }

    /// What `get_success_probability` returns.
    pub open spec fn success_probability_spec(&self, mask: u16, score: u16) -> Result<
        Likelihood<W>,
        UpgradePolicySolverError,
    > {
        if !valid_partial(mask) && !valid_full(mask) {
            Err(UpgradePolicySolverError::InvalidMask { mask })
        } else if !self.derived() {
            Err(UpgradePolicySolverError::PolicyNotDerived)
        } else if score >= self.target() {
            Ok(Likelihood::Certain)
        } else if valid_full(mask) || !decision_at(mask, self.cut_off_of(mask), score) {
            Ok(Likelihood::Impossible)
        } else if self.phase() != ExpectedPhase::Computed {
            Err(UpgradePolicySolverError::ExpectedResourcesNotComputed)
        } else {
            match self.entry_of(mask) {
                ExpectedCostCacheEntry::Abandon => Ok(Likelihood::Impossible),
                ExpectedCostCacheEntry::Reachable { cut_off_score, states } => {
                    if score < cut_off_score {
                        Ok(Likelihood::Impossible)
                    } else if score - cut_off_score >= states@.len() {
                        Err(UpgradePolicySolverError::InvalidScore)
                    } else {
                        match states@[score - cut_off_score] {
                            Some(state) => Ok(Likelihood::Stored { state }),
                            None => Err(UpgradePolicySolverError::InvalidScore),
                        }
                    }
                },
            }
        }
    }

    /// The chance of reaching the target from a state by following the
    /// policy: certain at or above the target, impossible where the policy
    /// abandons, and otherwise the expected cost stored for the state, which
    /// holds the chance. A state for which nothing was stored is refused, and
    /// so is every state while no policy is derived.
    pub fn get_success_probability(&self, mask: u16, score: u16) -> (result: Result<
        Likelihood<W>,
        UpgradePolicySolverError,
    >)
        requires
            self.wf(),
        ensures
            result == self.success_probability_spec(mask, score),
    {
        let cache_index = match self.tables.find_partial(mask) {
            Some(cache_index) => Some(cache_index),
            None => {
                if !is_valid_external_full_mask(mask) {
                    return Err(UpgradePolicySolverError::InvalidMask { mask });
                }
                None
            },
        };
        if !self.is_policy_derived() {
            return Err(UpgradePolicySolverError::PolicyNotDerived);
        }
        if score >= self.target_score {
            return Ok(Likelihood::Certain);
        }
        match self.get_decision(mask, score) {
            Err(fault) => {
                return Err(fault);
            },
            Ok(false) => {
                return Ok(Likelihood::Impossible);
            },
            Ok(true) => {},
        }
        let cache_index = match cache_index {
            Some(cache_index) => cache_index,
            None => {
                return Ok(Likelihood::Impossible);
            },
        };
        match self.expected_phase {
            ExpectedPhase::Computed => {},
            _ => {
                return Err(UpgradePolicySolverError::ExpectedResourcesNotComputed);
            },
        }
        match &self.memo[cache_index] {
            ExpectedCostCacheEntry::Abandon => Ok(Likelihood::Impossible),
            ExpectedCostCacheEntry::Reachable { cut_off_score, states } => {
                if score < *cut_off_score {
                    return Ok(Likelihood::Impossible);
                }
                let score_key: usize = (score - *cut_off_score) as usize;
                if score_key >= states.len() {
                    return Err(UpgradePolicySolverError::InvalidScore);
                }
                match states[score_key] {
                    Some(state) => Ok(Likelihood::Stored { state }),
                    None => Err(UpgradePolicySolverError::InvalidScore),
                }
            },
        }
    }
}

/// The empty mask is a partial mask of the domain.
pub proof fn lemma_zero_is_partial()
    ensures
        valid_partial(0),
{
    assert(0u16 & !0x1FFFu16 == 0 && crate::mask::popcount(0u16) <= 4) by (bit_vector);
}

/// Revealing one more slot leads from a state to a state: where a score is
/// one that `mask` can have, and the next slot rolls an unused buff type with
/// one of the scores of its distribution, the sum is a score that the new mask
/// can have, and it is no larger than the largest score of a full echo.
pub proof fn lemma_successor_in_range<V>(
    pmfs: Seq<ScorePmf<V>>,
    mask: u16,
    score: u16,
    buff: int,
    entry: int,
)
    requires
        pmfs.len() == 13,
        valid_partial(mask),
        0 <= buff < 13,
        !crate::mask::has_bit(mask, buff),
        0 <= entry < pmfs[buff].entries@.len(),
        least_score(pmfs, mask) <= score <= largest_score(pmfs, mask),
    ensures
        in_domain(mask | (1u16 << (buff as u16))),
        crate::mask::popcount(mask | (1u16 << (buff as u16))) == crate::mask::popcount(mask) + 1,
        least_score(pmfs, mask | (1u16 << (buff as u16))) <= score + pmfs[buff].entries@[entry].0
            <= largest_score(pmfs, mask | (1u16 << (buff as u16))) <= max_score_sum(pmfs),
{
    let next = mask | (1u16 << (buff as u16));
    crate::score_bounds::lemma_mask_sum_add_bit(buff_min_scores(pmfs), mask, buff, 13);
    crate::score_bounds::lemma_mask_sum_add_bit(buff_max_scores(pmfs), mask, buff, 13);
    lemma_entry_in_range(pmfs, buff, entry);
    lemma_mask_sum_cap(buff_max_scores(pmfs), next);
}

/// The value recursion never meets a refusal: at every partial mask of the
/// domain and every score that the mask can have, `visit` hands out a step.
/// With `lemma_successor_in_range`, the states that follow a state are states
/// again, so a walk from the empty mask stays within the states.
pub proof fn lemma_visit_accepts_every_state<V: Copy, W: Copy>(
    solver: &UpgradePolicySolver<V, W>,
    mask: u16,
    score: u16,
)
    requires
        solver.policy_phase() != PolicyPhase::NotDerived,
        valid_partial(mask) || valid_full(mask),
        valid_partial(mask) ==> least_score(solver.pmfs(), mask) <= score <= largest_score(
            solver.pmfs(),
            mask,
        ),
    ensures
        solver.visit_spec(mask, score).is_ok(),
{
}

/// The expected-cost recursion never meets a refusal: while the pass is under
/// way, `resource_visit` hands out a step at every mask but the empty one,
/// whatever the score, and `resource_record` takes the result of every step
/// that had to be expanded.
pub proof fn lemma_resource_visit_accepts_every_state<V: Copy, W: Copy>(
    solver: &UpgradePolicySolver<V, W>,
    mask: u16,
    score: u16,
)
    requires
        solver.wf(),
        solver.phase() == ExpectedPhase::Computing,
        mask != 0,
        valid_partial(mask) || valid_full(mask),
    ensures
        solver.resource_visit_spec(mask, score).is_ok(),
        solver.resource_visit_spec(mask, score) matches Ok(ResourceVisit::Expand { .. })
            ==> solver.has_slot(mask, score),
{
    if valid_partial(mask) {
        lemma_class_bounds(mask);
        lemma_index_bijection(MaskClass::Partial);
        crate::mask::lemma_masks_below_members(MaskClass::Partial, mask as nat);
        let i = mask_rank(MaskClass::Partial, mask) as int;
        assert(crate::mask::index_table(MaskClass::Partial)[mask as int] == i);
        assert(mask_table(MaskClass::Partial)[i] == mask);
        assert(entry_shaped(solver.memo@[i], mask, solver.target_score));
    } else {
        assert(!(crate::mask::is_partial(mask) && crate::mask::is_full(mask)));
    }
}

/// All scores at or above the target are one state: the recursion does the
/// same at each of them.
pub proof fn lemma_scores_above_target_share_a_state<V: Copy, W: Copy>(
    solver: &UpgradePolicySolver<V, W>,
    mask: u16,
    first: u16,
    second: u16,
)
    requires
        valid_partial(mask),
        solver.target() <= first <= largest_score(solver.pmfs(), mask),
        solver.target() <= second <= largest_score(solver.pmfs(), mask),
        least_score(solver.pmfs(), mask) <= first,
        least_score(solver.pmfs(), mask) <= second,
    ensures
        solver.visit_spec(mask, first) == solver.visit_spec(mask, second),
{
}

/// A hopeless state cannot succeed: where the score and the best case for the
/// empty slots stay below the target, so does the score with the largest
/// scores of any buff types that can still be rolled, however they are chosen.
pub proof fn lemma_hopeless_cannot_succeed<V>(
    pmfs: Seq<ScorePmf<V>>,
    mask: u16,
    score: u16,
    chosen: u16,
    target_score: u16,
)
    requires
        forall|i: int| 0 <= i < 13 && crate::mask::has_bit(chosen, i) ==> !crate::mask::has_bit(
            mask,
            i,
        ),
        crate::score_bounds::bits_below(chosen, 13) <= slots_left(mask),
        score + best_case_remaining(buff_max_scores(pmfs), mask) < target_score,
    ensures
        score + mask_sum(buff_max_scores(pmfs), chosen, 13) < target_score,
{
    crate::score_bounds::lemma_best_sum_bounds_every_choice(
        buff_max_scores(pmfs),
        mask,
        chosen,
        13,
        slots_left(mask),
    );
}

/// No query is answered before a policy is finished: while none is derived,
/// or one is still being derived, every query about a mask of the domain is
/// refused as `PolicyNotDerived`, whatever the score.
pub proof fn lemma_no_answer_before_the_policy_is_finished<V: Copy, W: Copy>(
    solver: &UpgradePolicySolver<V, W>,
    mask: u16,
    score: u16,
)
    requires
        !solver.derived(),
    ensures
        solver.decision_spec(mask, score) == Err::<bool, _>(
            UpgradePolicySolverError::PolicyNotDerived,
        ),
        valid_partial(mask) || valid_full(mask) ==> solver.success_probability_spec(mask, score)
            == Err::<Likelihood<W>, _>(UpgradePolicySolverError::PolicyNotDerived),
{
}

/// Cut-off policies are monotone: where the policy continues at a score, it
/// continues at every larger score.
pub proof fn lemma_decision_monotone(mask: u16, cut_off: Option<u16>, low: u16, high: u16)
    requires
        low <= high,
        decision_at(mask, cut_off, low),
    ensures
        decision_at(mask, cut_off, high),
{
}

/// For every partial mask and any two scores, the lower first: if the solver
/// decides to continue at the lower score, it decides to continue at the
/// higher.
pub proof fn lemma_get_decision_monotone<V: Copy, W: Copy>(
    solver: &UpgradePolicySolver<V, W>,
    mask: u16,
    low: u16,
    high: u16,
)
    requires
        valid_partial(mask),
        low <= high,
        solver.decision_spec(mask, low) == Ok::<bool, UpgradePolicySolverError>(true),
    ensures
        solver.decision_spec(mask, high) == Ok::<bool, UpgradePolicySolverError>(true),
{
}

/// A fault among the first distributions is the fault of any longer prefix.
proof fn lemma_first_fault_stays<V>(pmfs: Seq<ScorePmf<V>>, low: nat, high: nat)
    requires
        low <= high,
        first_pmf_fault(pmfs, low).is_some(),
    ensures
        first_pmf_fault(pmfs, high) == first_pmf_fault(pmfs, low),
    decreases high,
{
    if low < high {
        lemma_first_fault_stays(pmfs, low, (high - 1) as nat);
    }
}

} // verus!
