//! The search for the price at which the advantage of the empty state is
//! zero, as a machine that is told what each probe found and answers with the
//! next thing to do.
//!
//! The search first brackets the root: it probes the lower end, then the upper
//! end, and doubles the upper end while the advantage there is positive. It
//! then narrows the bracket by false position, each time halving the weight
//! of the end that did not move, until the advantage at the probed price is
//! within tolerance or the bracket is tight.

use crate::upgrade_policy::{PolicyPhase, UpgradePolicySolver, UpgradePolicySolverError};
use vstd::prelude::*;

verus! {

/// How often the upper end of the bracket may be doubled.
pub const MAX_EXPANSIONS: usize = 80;

/// What a probe found of the advantage at the probed price.
#[derive(Clone, Copy, PartialEq, Eq, Structural, Debug)]
pub struct Reading {
    /// The advantage is above zero.
    pub positive: bool,
    /// The advantage is below zero.
    pub negative: bool,
    /// The size of the advantage is at most the tolerance.
    pub within_tolerance: bool,
}

/// The price to probe next.
#[derive(Clone, Copy, PartialEq, Eq, Structural, Debug)]
pub enum Probe {
    /// The lower end of the first bracket: the price zero.
    Lower,
    /// The upper end of the first bracket: the price one.
    Upper,
    /// Twice the upper end.
    DoubleUpper,
    /// The price where the line through the two ends crosses zero, with the
    /// advantage at each end halved as often as given.
    Interpolate { lower_halvings: usize, upper_halvings: usize },
    /// The middle of the bracket.
    Midpoint,
}

/// What the machine hears.
#[derive(Clone, Copy, PartialEq, Eq, Structural, Debug)]
pub enum SearchEvent {
    /// The answer to a probe.
    Probed(Reading),
    /// The answer to `Narrow`: whether the bracket has become tight.
    Narrowed { tight: bool },
}

/// What the machine asks for.
#[derive(Clone, Copy, PartialEq, Eq, Structural, Debug)]
pub enum SearchStep {
    /// Derive the policy at this price and report the advantage.
    Probe(Probe),
    /// Move this end of the bracket to the price just probed, and report
    /// whether the bracket is tight.
    Narrow { lower_end: bool },
    /// The price just probed is the result.
    Done,
    /// The search has failed; no policy is to stay installed.
    Failed(UpgradePolicySolverError),
    /// The event answers nothing that was asked; it is ignored.
    Ignored,
}

/// Where the search stands: what it is waiting for.
#[derive(Clone, Copy, PartialEq, Eq, Structural, Debug)]
pub enum SearchStage {
    AwaitLower,
    AwaitUpper { expansions: usize },
    AwaitInterior { iterations: usize, lower_halvings: usize, upper_halvings: usize },
    AwaitWidth { iterations: usize, lower_halvings: usize, upper_halvings: usize },
    AwaitMidpoint,
    Finished,
}

/// Whether a stage can occur with the given iteration budget.
pub open spec fn stage_valid(stage: SearchStage, max_iter: usize) -> bool {
    match stage {
        SearchStage::AwaitUpper { expansions } => expansions <= MAX_EXPANSIONS,
        SearchStage::AwaitInterior { iterations, lower_halvings, upper_halvings } => {
            &&& iterations < max_iter
            &&& lower_halvings <= iterations
            &&& upper_halvings <= iterations
        },
        SearchStage::AwaitWidth { iterations, lower_halvings, upper_halvings } => {
            &&& iterations < max_iter
            &&& lower_halvings <= iterations + 1
            &&& upper_halvings <= iterations + 1
        },
        _ => true,
    }
}

/// The stage that follows `stage` on `event`, and what is asked next.
pub open spec fn search_transition(stage: SearchStage, max_iter: usize, event: SearchEvent) -> (
    SearchStage,
    SearchStep,
) {
    match (stage, event) {
        (SearchStage::AwaitLower, SearchEvent::Probed(reading)) => if reading.negative {
            (
                SearchStage::Finished,
                SearchStep::Failed(UpgradePolicySolverError::LambdaNotBracketed),
            )
        } else {
            (SearchStage::AwaitUpper { expansions: 0 }, SearchStep::Probe(Probe::Upper))
        },
        (SearchStage::AwaitUpper { expansions }, SearchEvent::Probed(reading)) => if reading.positive
            && expansions < MAX_EXPANSIONS {
            (
                SearchStage::AwaitUpper { expansions: (expansions + 1) as usize },
                SearchStep::Probe(Probe::DoubleUpper),
            )
        } else if reading.positive {
            (
                SearchStage::Finished,
                SearchStep::Failed(UpgradePolicySolverError::LambdaNotBracketed),
            )
        } else if max_iter == 0 {
            (
                SearchStage::Finished,
                SearchStep::Failed(UpgradePolicySolverError::LambdaNotFoundWithinMaxIter),
            )
        } else {
            (
                SearchStage::AwaitInterior { iterations: 0, lower_halvings: 0, upper_halvings: 0 },
                SearchStep::Probe(Probe::Interpolate { lower_halvings: 0, upper_halvings: 0 }),
            )
        },
        (
            SearchStage::AwaitInterior { iterations, lower_halvings, upper_halvings },
            SearchEvent::Probed(reading),
        ) => if reading.within_tolerance {
            (SearchStage::Finished, SearchStep::Done)
        } else if reading.positive {
            (
                SearchStage::AwaitWidth {
                    iterations,
                    lower_halvings: 0,
                    upper_halvings: (upper_halvings + 1) as usize,
                },
                SearchStep::Narrow { lower_end: true },
            )
        } else {
            (
                SearchStage::AwaitWidth {
                    iterations,
                    lower_halvings: (lower_halvings + 1) as usize,
                    upper_halvings: 0,
                },
                SearchStep::Narrow { lower_end: false },
            )
        },
        (
            SearchStage::AwaitWidth { iterations, lower_halvings, upper_halvings },
            SearchEvent::Narrowed { tight },
        ) => if tight {
            (SearchStage::AwaitMidpoint, SearchStep::Probe(Probe::Midpoint))
        } else if iterations + 1 < max_iter {
            (
                SearchStage::AwaitInterior {
                    iterations: (iterations + 1) as usize,
                    lower_halvings,
                    upper_halvings,
                },
                SearchStep::Probe(Probe::Interpolate { lower_halvings, upper_halvings }),
            )
        } else {
            (
                SearchStage::Finished,
                SearchStep::Failed(UpgradePolicySolverError::LambdaNotFoundWithinMaxIter),
            )
        },
        (SearchStage::AwaitMidpoint, SearchEvent::Probed(_)) => (
            SearchStage::Finished,
            SearchStep::Done,
        ),
        _ => (stage, SearchStep::Ignored),
    }
}

/// An upper bound on the number of events that the search still answers.
pub open spec fn steps_left(stage: SearchStage, max_iter: usize) -> nat {
    match stage {
        SearchStage::AwaitLower => (2 * max_iter + 4 + MAX_EXPANSIONS) as nat,
        SearchStage::AwaitUpper { expansions } => (2 * max_iter + 2 + MAX_EXPANSIONS
            - expansions) as nat,
        SearchStage::AwaitInterior { iterations, .. } => (2 * (max_iter - iterations) + 1) as nat,
        SearchStage::AwaitWidth { iterations, .. } => (2 * (max_iter - iterations)) as nat,
        SearchStage::AwaitMidpoint => 1,
        SearchStage::Finished => 0,
    }
}

/// Every event that is not ignored brings the search nearer to its end, and
/// leads to a stage that can occur. So a search ends after at most
/// `2 * max_iter + 84` events.
pub proof fn lemma_search_terminates(stage: SearchStage, max_iter: usize, event: SearchEvent)
    requires
        stage_valid(stage, max_iter),
    ensures
        stage_valid(search_transition(stage, max_iter, event).0, max_iter),
        search_transition(stage, max_iter, event).1 != SearchStep::Ignored ==> steps_left(
            search_transition(stage, max_iter, event).0,
            max_iter,
        ) < steps_left(stage, max_iter),
        search_transition(stage, max_iter, event).1 == SearchStep::Ignored ==> search_transition(
            stage,
            max_iter,
            event,
        ).0 == stage,
{
}

/// A search ends exactly when it is done or has failed.
pub proof fn lemma_search_ends(stage: SearchStage, max_iter: usize, event: SearchEvent)
    ensures
        (search_transition(stage, max_iter, event).1 == SearchStep::Done || search_transition(
            stage,
            max_iter,
            event,
        ).1 is Failed) ==> search_transition(stage, max_iter, event).0 == SearchStage::Finished,
        stage == SearchStage::Finished ==> search_transition(stage, max_iter, event).1
            == SearchStep::Ignored,
{
}

/// A search in progress.
#[derive(Clone, Copy, Debug)]
pub struct LambdaSearch {
    stage: SearchStage,
    max_iter: usize,
}

impl LambdaSearch {
    #[verifier::type_invariant]
    spec fn well_formed(self) -> bool {
        stage_valid(self.stage, self.max_iter)
    }

    /// Where the search stands.
    pub closed spec fn stage(&self) -> SearchStage {
        self.stage
    }

    /// The largest number of narrowing steps.
    pub closed spec fn budget(&self) -> usize {
        self.max_iter
    }

    /// Starts a search. The first thing asked is to probe the lower end. A
    /// tolerance that is no positive number is refused.
    pub fn start(tolerance_valid: bool, max_iter: usize) -> (result: Result<
        (LambdaSearch, SearchStep),
        UpgradePolicySolverError,
    >)
        ensures
            match result {
                Ok((search, step)) => {
                    &&& tolerance_valid
                    &&& search.stage() == SearchStage::AwaitLower
                    &&& search.budget() == max_iter
                    &&& step == SearchStep::Probe(Probe::Lower)
                },
                Err(fault) => !tolerance_valid && fault
                    == UpgradePolicySolverError::InvalidTolerance,
            },
    {
        if !tolerance_valid {
            return Err(UpgradePolicySolverError::InvalidTolerance);
        }
        Ok((LambdaSearch { stage: SearchStage::AwaitLower, max_iter }, SearchStep::Probe(Probe::Lower)))
    }

    /// Whether the search has ended.
    pub fn is_finished(&self) -> (finished: bool)
        ensures
            finished == (self.stage() == SearchStage::Finished),
    {
        match self.stage {
            SearchStage::Finished => true,
            _ => false,
        }
    }

    /// Takes the answer to what was asked last, and says what to do next.
    pub fn advance(&mut self, event: SearchEvent) -> (step: SearchStep)
        ensures
            final(self).budget() == old(self).budget(),
            (final(self).stage(), step) == search_transition(
                old(self).stage(),
                old(self).budget(),
                event,
            ),
    {
        proof {
            use_type_invariant(&*self);
            lemma_search_terminates(self.stage, self.max_iter, event);
        }
        let max_iter = self.max_iter;
        let (stage, step) = match (self.stage, event) {
            (SearchStage::AwaitLower, SearchEvent::Probed(reading)) => {
                if reading.negative {
                    (
                        SearchStage::Finished,
                        SearchStep::Failed(UpgradePolicySolverError::LambdaNotBracketed),
                    )
                } else {
                    (SearchStage::AwaitUpper { expansions: 0 }, SearchStep::Probe(Probe::Upper))
                }
            },
            (SearchStage::AwaitUpper { expansions }, SearchEvent::Probed(reading)) => {
                if reading.positive && expansions < MAX_EXPANSIONS {
                    (
                        SearchStage::AwaitUpper { expansions: expansions + 1 },
                        SearchStep::Probe(Probe::DoubleUpper),
                    )
                } else if reading.positive {
                    (
                        SearchStage::Finished,
                        SearchStep::Failed(UpgradePolicySolverError::LambdaNotBracketed),
                    )
                } else if max_iter == 0 {
                    (
                        SearchStage::Finished,
                        SearchStep::Failed(UpgradePolicySolverError::LambdaNotFoundWithinMaxIter),
                    )
                } else {
                    (
                        SearchStage::AwaitInterior {
                            iterations: 0,
                            lower_halvings: 0,
                            upper_halvings: 0,
                        },
                        SearchStep::Probe(
                            Probe::Interpolate { lower_halvings: 0, upper_halvings: 0 },
                        ),
                    )
                }
            },
            (
                SearchStage::AwaitInterior { iterations, lower_halvings, upper_halvings },
                SearchEvent::Probed(reading),
            ) => {
                if reading.within_tolerance {
                    (SearchStage::Finished, SearchStep::Done)
                } else if reading.positive {
                    (
                        SearchStage::AwaitWidth {
                            iterations,
                            lower_halvings: 0,
                            upper_halvings: upper_halvings + 1,
                        },
                        SearchStep::Narrow { lower_end: true },
                    )
                } else {
                    (
                        SearchStage::AwaitWidth {
                            iterations,
                            lower_halvings: lower_halvings + 1,
                            upper_halvings: 0,
                        },
                        SearchStep::Narrow { lower_end: false },
                    )
                }
            },
            (
                SearchStage::AwaitWidth { iterations, lower_halvings, upper_halvings },
                SearchEvent::Narrowed { tight },
            ) => {
                if tight {
                    (SearchStage::AwaitMidpoint, SearchStep::Probe(Probe::Midpoint))
                } else if iterations + 1 < max_iter {
                    (
                        SearchStage::AwaitInterior {
                            iterations: iterations + 1,
                            lower_halvings,
                            upper_halvings,
                        },
                        SearchStep::Probe(Probe::Interpolate { lower_halvings, upper_halvings }),
                    )
                } else {
                    (
                        SearchStage::Finished,
                        SearchStep::Failed(UpgradePolicySolverError::LambdaNotFoundWithinMaxIter),
                    )
                }
            },
            (SearchStage::AwaitMidpoint, SearchEvent::Probed(_)) => (
                SearchStage::Finished,
                SearchStep::Done,
            ),
            (stage, _) => (stage, SearchStep::Ignored),
        };
        self.stage = stage;
        step
    }
}


impl<V: Copy, W: Copy> UpgradePolicySolver<V, W> {
    /// Starts the search for the price at which the advantage of the empty
    /// state is zero. The search is then driven with `search_step`.
    pub fn lambda_search(&self, tolerance_valid: bool, max_iter: usize) -> (result: Result<
        (LambdaSearch, SearchStep),
        UpgradePolicySolverError,
    >)
        ensures
            match result {
                Ok((search, step)) => {
                    &&& tolerance_valid
                    &&& search.stage() == SearchStage::AwaitLower
                    &&& search.budget() == max_iter
                    &&& step == SearchStep::Probe(Probe::Lower)
                },
                Err(fault) => !tolerance_valid && fault
                    == UpgradePolicySolverError::InvalidTolerance,
            },
    {
        LambdaSearch::start(tolerance_valid, max_iter)
    }

    /// Advances the search by one event. Where the search fails, the policy
    /// of the last probe is removed, so that no partial policy stays
    /// installed; otherwise the solver is left as it is.
    pub fn search_step(&mut self, search: &mut LambdaSearch, event: SearchEvent) -> (step:
        SearchStep)
        requires
            old(self).wf(),
        ensures
            final(self).wf(),
            final(self).same_problem(old(self)),
            final(search).budget() == old(search).budget(),
            (final(search).stage(), step) == search_transition(
                old(search).stage(),
                old(search).budget(),
                event,
            ),
            step is Failed ==> final(self).policy_phase() == PolicyPhase::NotDerived,
            step is Failed ==> final(self).is_blank(),
            step is Failed ==> !final(self).expected_computed(),
            !(step is Failed) ==> *final(self) == *old(self),
    {
        let step = search.advance(event);
        match step {
            SearchStep::Failed(_) => {
                self.clear_caches();
            },
            _ => {
                proof {
                    self.lemma_same_problem_reflexive();
                }
            },
        }
        step
    }
}

} // verus!
