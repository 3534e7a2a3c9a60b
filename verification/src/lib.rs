//! The discrete core of a policy engine for a gear-upgrade game.
//!
//! An echo has five slots. Revealing a slot assigns it one of thirteen buff
//! types, none twice, and a rolled value that adds to the score of the echo.
//! Two problems are solved over this game: whether to go on revealing slots
//! or to abandon the echo (the upgrade policy), and which slots of a finished
//! echo to lock before the others are rolled again (the reroll policy).
//!
//! This crate holds everything about the two problems that is a matter of
//! whole numbers: the masks of buff types and their dense indices, the
//! catalog of observed rolls, the score ranges of the states, the caches and
//! cut-offs that make up a policy, the lock choices and the states a reroll
//! leads to, the ranking of lock choices, and the order in which inputs are
//! checked. Values, probabilities and prices are numbers of the caller's: the
//! caller computes them, and hands them in where the crate stores them
//! without looking inside, or as keys that order as the numbers do.
//!
//! Every function is verified against its contract with Verus. Two contracts
//! are believed without proof: that `u16::count_ones` counts the bits that are
//! set, and that rayon maps an index range in order.

pub mod cost;
pub mod data;
pub mod lambda_search;
pub mod mask;
pub mod mask_cache;
pub mod reroll_policy;
pub mod score_bounds;
pub mod scoring;
pub mod selection;
pub mod upgrade_policy;
