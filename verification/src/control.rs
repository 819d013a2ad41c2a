//! Tuning parameters shared by gains, optimizers and model selection.

use vstd::prelude::*;

verus! {

/// The fraction `num / den` of two machine words. It is well formed when
/// `den` is positive.
#[derive(Clone, Copy, Debug)]
pub struct Fraction {
    pub num: u64,
    pub den: u64,
}

impl Fraction {
    /// A fraction is well formed when its denominator is positive.
    pub open spec fn wf(self) -> bool {
        self.den > 0
    }

    /// The fraction lies strictly between zero and one.
    pub open spec fn is_probability(self) -> bool {
        0 < self.num < self.den
    }

    /// The fraction lies strictly between zero and one half.
    pub open spec fn is_below_half(self) -> bool {
        0 < self.num && 2 * self.num < self.den
    }

    /// The fraction `num / den`.
    pub fn new(num: u64, den: u64) -> (r: Fraction)
        ensures
            r.num == num,
            r.den == den,
    {
        Fraction { num, den }
    }
}

/// Immutable configuration: the seed of the permutation test, the
/// significance level, and the least share of a segment that each side of a
/// split must keep.
#[derive(Clone, Copy, Debug)]
pub struct Control {
    pub seed: u64,
    pub model_selection_alpha: Fraction,
    pub minimal_relative_segment_length: Fraction,
}

impl Control {
    /// The significance level is a probability and the minimal relative
    /// segment length lies below one half.
    pub open spec fn wf(self) -> bool {
        &&& self.model_selection_alpha.is_probability()
        &&& self.minimal_relative_segment_length.is_below_half()
    }

    /// A configuration with the given seed, significance level and minimal
    /// relative segment length.
    pub fn new(
        seed: u64,
        model_selection_alpha: Fraction,
        minimal_relative_segment_length: Fraction,
    ) -> (r: Control)
        ensures
            r.seed == seed,
            r.model_selection_alpha == model_selection_alpha,
            r.minimal_relative_segment_length == minimal_relative_segment_length,
    {
        Control { seed, model_selection_alpha, minimal_relative_segment_length }
    }

    /// The same configuration with another seed.
    pub fn with_seed(self, seed: u64) -> (r: Control)
        ensures
            r == (Control { seed, ..self }),
    {
        Control { seed, ..self }
    }

    /// The same configuration with another significance level.
    pub fn with_model_selection_alpha(self, model_selection_alpha: Fraction) -> (r: Control)
        ensures
            r == (Control { model_selection_alpha, ..self }),
    {
        Control { model_selection_alpha, ..self }
    }

    /// The same configuration with another minimal relative segment length.
    pub fn with_minimal_relative_segment_length(
        self,
        minimal_relative_segment_length: Fraction,
    ) -> (r: Control)
        ensures
            r == (Control { minimal_relative_segment_length, ..self }),
    {
        Control { minimal_relative_segment_length, ..self }
    }
}

} // verus!
