//! The per-mask cache of the upgrade policy: one value for each score the mask
//! can have, filled lazily, together with the cut-off score of the mask.

use vstd::prelude::*;

verus! {

/// The smaller of a cut-off score and a newly accepted score.
pub open spec fn lower_cut_off(cut_off: Option<u16>, score: u16) -> u16 {
    match cut_off {
        Some(s) => if s <= score {
            s
        } else {
            score
        },
        None => score,
    }
}

/// The cache of one mask, over the scores from its least to its largest.
///
/// A value that has not been set is `None`. The indices that hold a value are
/// remembered, so that clearing resets those entries only.
pub struct MaskCache<V> {
    dp: Vec<Option<V>>,
    touched: Vec<usize>,
    min_score: u16,
    best_case_remaining_score: u16,
    cut_off_score: Option<u16>,
}

impl<V: Copy> MaskCache<V> {
    /// The invariant: every index that was touched holds a value, every value
    /// was touched, and a cut-off exists only where a value does.
    pub closed spec fn wf(&self) -> bool {
        &&& 1 <= self.dp@.len()
        &&& self.min_score + self.dp@.len() <= 0x10000
        &&& forall|k: int|
            0 <= k < self.touched@.len() ==> {
                &&& (#[trigger] self.touched@[k]) < self.dp@.len()
                &&& self.dp@[self.touched@[k] as int].is_some()
            }
        &&& forall|i: int|
            0 <= i < self.dp@.len() && (#[trigger] self.dp@[i]).is_some() ==> exists|k: int|
                0 <= k < self.touched@.len() && self.touched@[k] == i
        &&& self.cut_off_score.is_some() ==> self.touched@.len() > 0
        &&& self.cut_off_score matches Some(s) ==> self.min_score <= s < self.min_score
            + self.dp@.len()
    }

    /// The least score of the mask.
    pub closed spec fn least(&self) -> u16 {
        self.min_score
    }

    /// The largest score of the mask.
    pub closed spec fn largest(&self) -> int {
        self.min_score + self.dp@.len() - 1
    }

    /// The most that the empty slots of the mask can add.
    pub closed spec fn best_case(&self) -> u16 {
        self.best_case_remaining_score
    }

    /// The least score for which continuing was recorded as the decision, if
    /// there is one.
    pub closed spec fn cut_off(&self) -> Option<u16> {
        self.cut_off_score
    }

    /// The value cached for `score`, if one was set.
    pub closed spec fn value_at(&self, score: int) -> Option<V> {
        if self.min_score <= score < self.min_score + self.dp@.len() {
            self.dp@[score - self.min_score]
        } else {
            None
        }
    }

    /// Nothing has been set since the cache was made or cleared.
    pub closed spec fn is_clean(&self) -> bool {
        self.touched@.len() == 0
    }

    /// The least score is at most the largest, and both are scores.
    pub proof fn lemma_range(&self)
        requires
            self.wf(),
        ensures
            self.least() <= self.largest() <= u16::MAX,
            self.cut_off() matches Some(s) ==> self.least() <= s <= self.largest(),
    {
    }

    /// A clean cache holds no value and no cut-off.
    pub proof fn lemma_clean_is_empty(&self)
        requires
            self.wf(),
            self.is_clean(),
        ensures
            self.cut_off().is_none(),
            forall|score: int| self.value_at(score).is_none(),
    {
        assert forall|score: int| self.value_at(score).is_none() by {
            if self.min_score <= score < self.min_score + self.dp@.len() {
                let i = score - self.min_score;
                if self.dp@[i].is_some() {
                    let k = choose|k: int| 0 <= k < self.touched@.len() && self.touched@[k] == i;
                    assert(false);
                }
            }
        }
    }

    /// An empty cache for the scores from `min_score` to `max_score`.
    pub fn new(min_score: u16, max_score: u16, best_case_remaining_score: u16) -> (cache: Self)
        requires
            min_score <= max_score,
        ensures
            cache.wf(),
            cache.is_clean(),
            cache.least() == min_score,
            cache.largest() == max_score,
            cache.best_case() == best_case_remaining_score,
            cache.cut_off().is_none(),
            forall|score: int| cache.value_at(score).is_none(),
    {
        let size: usize = (max_score - min_score) as usize + 1;
        let mut dp: Vec<Option<V>> = Vec::new();
        let mut i: usize = 0;
        while i < size
            invariant
                i <= size,
                dp@.len() == i,
                forall|j: int| 0 <= j < i ==> (#[trigger] dp@[j]).is_none(),
            decreases size - i,
        {
            dp.push(None);
            i += 1;
        }
        MaskCache {
            dp,
            touched: Vec::new(),
            min_score,
            best_case_remaining_score,
            cut_off_score: None,
        }
    }

    /// The least score of the mask.
    pub fn min_score(&self) -> (score: u16)
        ensures
            score == self.least(),
    {
        self.min_score
    }

    /// The largest score of the mask.
    pub fn max_score(&self) -> (score: u16)
        requires
            self.wf(),
        ensures
            score == self.largest(),
    {
        (self.min_score as usize + self.dp.len() - 1) as u16
    }

    /// The most that the empty slots of the mask can add.
    pub fn best_case_remaining_score(&self) -> (score: u16)
        ensures
            score == self.best_case(),
    {
        self.best_case_remaining_score
    }

    /// The least score for which continuing was recorded, if there is one.
    pub fn cut_off_score(&self) -> (cut_off: Option<u16>)
        ensures
            cut_off == self.cut_off(),
    {
        self.cut_off_score
    }

    /// Whether any value is set.
    pub fn is_touched(&self) -> (touched: bool)
        ensures
            touched == !self.is_clean(),
    {
        self.touched.len() > 0
    }

    /// The decision for `score`: continue exactly at and above the cut-off.
    /// `None` while no cut-off exists.
    pub fn get_decision(&self, score: u16) -> (decision: Option<bool>)
        ensures
            decision == match self.cut_off() {
                Some(s) => Some(score >= s),
                None => None::<bool>,
            },
    {
        match self.cut_off_score {
            Some(s) => Some(score >= s),
            None => None,
        }
    }

    /// The position of `score` in the cache.
    pub fn score_to_index(&self, score: u16) -> (index: usize)
        requires
            self.least() <= score <= self.largest(),
        ensures
            index == score - self.least(),
    {
        (score - self.min_score) as usize
    }

    /// The value cached for `score`; `None` if it has not been set.
    pub fn dp(&self, score: u16) -> (value: Option<V>)
        requires
            self.wf(),
            self.least() <= score <= self.largest(),
        ensures
            value == self.value_at(score as int),
    {
        self.dp[self.score_to_index(score)]
    }

    /// Caches `dp` for `score`. A decision to continue lowers the cut-off to
    /// `score` where it was higher or absent.
    pub fn set_cache(&mut self, score: u16, dp: V, decision: bool)
        requires
            old(self).wf(),
            old(self).least() <= score <= old(self).largest(),
        ensures
            final(self).wf(),
            !final(self).is_clean(),
            final(self).least() == old(self).least(),
            final(self).largest() == old(self).largest(),
            final(self).best_case() == old(self).best_case(),
            final(self).value_at(score as int) == Some(dp),
            forall|other: int|
                other != score ==> final(self).value_at(other) == old(self).value_at(other),
            final(self).cut_off() == if decision {
                Some(lower_cut_off(old(self).cut_off(), score))
            } else {
                old(self).cut_off()
            },
    {
        let index = self.score_to_index(score);
        let ghost before = *self;
        if self.dp[index].is_none() {
            self.touched.push(index);
        } else {
            proof {
                let k = choose|k: int| 0 <= k < before.touched@.len() && before.touched@[k] == index;
                assert(before.touched@.len() > 0);
            }
        }
        self.dp[index] = Some(dp);
        if decision {
            let lowered = match self.cut_off_score {
                Some(s) => if s <= score {
                    s
                } else {
                    score
                },
                None => score,
            };
            self.cut_off_score = Some(lowered);
        }
        proof {
            assert forall|i: int|
                0 <= i < self.dp@.len() && (#[trigger] self.dp@[i]).is_some() implies exists|k: int|
                0 <= k < self.touched@.len() && self.touched@[k] == i by {
                if i == index {
                    if before.dp@[index as int].is_none() {
                        assert(self.touched@[before.touched@.len() as int] == index);
                    } else {
                        let k = choose|k: int|
                            0 <= k < before.touched@.len() && before.touched@[k] == index;
                        assert(self.touched@[k] == index);
                    }
                } else {
                    assert(before.dp@[i].is_some());
                    let k = choose|k: int| 0 <= k < before.touched@.len() && before.touched@[k] == i;
                    assert(self.touched@[k] == i);
                }
            }
            assert forall|k: int| 0 <= k < self.touched@.len() implies {
                &&& (#[trigger] self.touched@[k]) < self.dp@.len()
                &&& self.dp@[self.touched@[k] as int].is_some()
            } by {
                if k < before.touched@.len() {
                    assert(before.touched@[k] < before.dp@.len());
                }
            }
        }
    }

    /// Resets every value that was set, and the cut-off.
    pub fn clear_touched(&mut self)
        requires
            old(self).wf(),
        ensures
            final(self).wf(),
            final(self).is_clean(),
            final(self).least() == old(self).least(),
            final(self).largest() == old(self).largest(),
            final(self).best_case() == old(self).best_case(),
            final(self).cut_off().is_none(),
            forall|score: int| final(self).value_at(score).is_none(),
    {
        let count = self.touched.len();
        let mut k: usize = 0;
        while k < count
            invariant
                k <= count,
                count == self.touched@.len(),
                self.touched@ == old(self).touched@,
                self.dp@.len() == old(self).dp@.len(),
                self.min_score == old(self).min_score,
                self.best_case_remaining_score == old(self).best_case_remaining_score,
                old(self).wf(),
                forall|j: int| 0 <= j < k ==> self.dp@[(#[trigger] self.touched@[j]) as int].is_none(),
                forall|i: int|
                    0 <= i < self.dp@.len() && (#[trigger] self.dp@[i]).is_some() ==> old(
                        self,
                    ).dp@[i].is_some(),
            decreases count - k,
        {
            let index = self.touched[k];
            assert(old(self).touched@[k as int] < old(self).dp@.len());
            self.dp[index] = None;
            k += 1;
        }
        proof {
            assert forall|i: int| 0 <= i < self.dp@.len() implies (#[trigger] self.dp@[i]).is_none() by {
                if self.dp@[i].is_some() {
                    let j = choose|j: int|
                        0 <= j < old(self).touched@.len() && old(self).touched@[j] == i;
                    assert(self.dp@[self.touched@[j] as int].is_none());
                }
            }
        }
        self.touched.clear();
        self.cut_off_score = None;
    }
}

} // verus!
