//! What a search for the best split of a segment returns.

use crate::gain::GainResult;
use crate::ratio::Ratio;
use vstd::prelude::*;

verus! {

/// The best split of the segment `start..stop`, its gain, and the evidence
/// that the search gathered.
#[derive(Debug)]
pub struct OptimizerResult {
    pub start: usize,
    pub stop: usize,
    pub best_split: usize,
    pub max_gain: Ratio,
    pub gain_results: Vec<GainResult>,
}

} // verus!
