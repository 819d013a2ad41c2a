//! A gain that scores splits by the likelihoods of a classifier, and tests
//! the best split for significance by permutation.

use crate::control::Control;
use crate::gain::{
    approx_gain_at, exceeds_level, gain_exceeds_level, ApproxGain, ApproxGainResult, Gain,
    GainResult, LikelihoodTable,
};
use crate::model_selection::{
    below_level, evidence_of, is_test_verdict, well_shaped, ModelSelectionResult,
    PermutationEvidence, PERMUTATIONS,
};
use crate::optimizer::optimizer_result::OptimizerResult;
use crate::ratio::Ratio;
use vstd::prelude::*;

verus! {

/// A classifier that tells the rows before a split from the rows after it.
///
/// What it predicts and how likely it finds a row is its own affair. An
/// implementation says which answers it gives through `predicts`, `scores`
/// and `tabulates`; one that says nothing admits every answer.
pub trait Classifier {
    /// The number of observations.
    spec fn rows(&self) -> usize;

    /// The configuration of the classifier.
    spec fn settings(&self) -> Control;

    /// Whether `predictions` are classes that a fit of `start..stop` with a
    /// split at `split` may predict for the rows of the segment.
    open spec fn predicts(&self, start: int, stop: int, split: int, predictions: Seq<i32>) -> bool {
        true
    }

    /// Whether `score` is a likelihood score that the classifier may give
    /// the split of `start..stop` at `split`, on these predictions.
    open spec fn scores(
        &self,
        predictions: Seq<i32>,
        start: int,
        stop: int,
        split: int,
        score: i64,
    ) -> bool {
        true
    }

    /// Whether `before` and `after` are likelihoods that the classifier may
    /// give the rows of `start..stop` under the two models of a fit at
    /// `guess`, on these predictions.
    open spec fn tabulates(
        &self,
        predictions: Seq<i32>,
        start: int,
        stop: int,
        guess: int,
        before: Seq<i32>,
        after: Seq<i32>,
    ) -> bool {
        true
    }

    /// The number of observations.
    fn n(&self) -> (r: usize)
        ensures
            r == self.rows(),
    ;

    /// The class predicted for each row of `start..stop` by a fit that
    /// splits the segment at `split`.
    fn predict(&self, start: usize, stop: usize, split: usize) -> (r: Vec<i32>)
        requires
            start <= split <= stop <= self.rows(),
        ensures
            self.predicts(start as int, stop as int, split as int, r@),
    ;

    /// The likelihood score of the one split at `split`, on the predictions
    /// of a fit at that split.
    fn single_likelihood(
        &self,
        predictions: &Vec<i32>,
        start: usize,
        stop: usize,
        split: usize,
    ) -> (r: i64)
        requires
            start < split < stop <= self.rows(),
            self.predicts(start as int, stop as int, split as int, predictions@),
        ensures
            self.scores(predictions@, start as int, stop as int, split as int, r),
    ;

    /// The likelihood of every row under the two models of a fit at
    /// `guess`, on the predictions of that fit.
    fn full_likelihood(
        &self,
        predictions: &Vec<i32>,
        start: usize,
        stop: usize,
        guess: usize,
    ) -> (r: LikelihoodTable)
        requires
            start <= guess <= stop <= self.rows(),
            self.predicts(start as int, stop as int, guess as int, predictions@),
        ensures
            self.tabulates(
                predictions@,
                start as int,
                stop as int,
                guess as int,
                r.before(),
                r.after(),
            ),
    ;

    /// The configuration of the classifier.
    fn control(&self) -> (r: &Control)
        ensures
            *r == self.settings(),
    ;
}

/// The gain of a classifier.
pub struct ClassifierGain<T: Classifier> {
    pub classifier: T,
}

/// The approximate gain of every split from the likelihoods of one fit:
/// entry `k` is the sum of the deltas of the rows before `k`, on top of the
/// sum of the likelihoods under the model after the split.
pub fn gain_from_likelihoods(likelihoods: &LikelihoodTable) -> (r: Vec<i128>)
    ensures
        r@.len() == likelihoods.before().len(),
        forall|k: int|
            0 <= k < r@.len() ==> #[trigger] r@[k] == approx_gain_at(
                likelihoods.before(),
                likelihoods.after(),
                k,
            ),
{
    let n: usize = likelihoods.width();
    let baseline: i128 = likelihoods.baseline();
    let mut gain: Vec<i128> = Vec::new();
    let mut running: i128 = baseline;
    let mut k: usize = 0;
    while k < n
        invariant
            k <= n,
            n == likelihoods.before().len(),
            n == likelihoods.after().len(),
            gain@.len() == k,
            running == approx_gain_at(likelihoods.before(), likelihoods.after(), k as int),
            -0x8000_0000_0000_0000_0000_0000 - k * 0x1_0000_0000 <= running
                <= 0x8000_0000_0000_0000_0000_0000 + k * 0x1_0000_0000,
            forall|i: int|
                0 <= i < k ==> #[trigger] gain@[i] == approx_gain_at(
                    likelihoods.before(),
                    likelihoods.after(),
                    i,
                ),
        decreases n - k,
    {
        gain.push(running);
        let before: i128 = likelihoods.before_at(k) as i128;
        let after: i128 = likelihoods.after_at(k) as i128;
        running = running + (before - after);
        k += 1;
    }
    gain
}

impl<T: Classifier> ClassifierGain<T> {
    /// The configuration of the classifier.
    pub fn control(&self) -> (r: &Control)
        ensures
            *r == self.classifier.settings(),
    {
        self.classifier.control()
    }

    /// Whether the greatest gain of a search is significant: the verdict of
    /// the permutation test on the likelihoods of its three fits, under the
    /// configuration of the classifier. The split is significant exactly
    /// when the p-value lies below the significance level of that
    /// configuration. The segment has up to `u32::MAX` rows.
    pub fn model_selection(&self, optimizer_result: &OptimizerResult) -> (r: ModelSelectionResult)
        requires
            well_shaped(*optimizer_result),
            optimizer_result.stop - optimizer_result.start <= u32::MAX,
        ensures
            is_test_verdict(evidence_of(*optimizer_result), self.classifier.settings(), r),
            r.p_value.is_some(),
            r.p_value.unwrap().den == PERMUTATIONS + 1,
            1 <= r.p_value.unwrap().num <= PERMUTATIONS + 1,
            r.is_significant == below_level(
                r.p_value.unwrap(),
                self.classifier.settings().model_selection_alpha,
            ),
    {
        let evidence = PermutationEvidence::from_result(optimizer_result).unwrap();
        let control = self.classifier.control();
        evidence.permutation_test(control)
    }
}

impl<T: Classifier> Gain for ClassifierGain<T> {
    /// Every instance is fit for use.
    open spec fn wf(&self) -> bool {
        true
    }

    /// A segment reaches as far as the observations of the classifier.
    open spec fn rows(&self) -> nat {
        self.classifier.rows() as nat
    }

    /// The gain is a whole number: zero where one side of the split is
    /// empty, and else a score that the classifier gives the split on
    /// predictions of a fit at that split.
    open spec fn admits(&self, start: int, stop: int, split: int, value: Ratio) -> bool {
        &&& value.den == 1
        &&& (split == start || split == stop) ==> value.num == 0
        &&& start < split < stop ==> exists|predictions: Seq<i32>, score: i64|
            {
                &&& self.classifier.predicts(start, stop, split, predictions)
                &&& #[trigger] self.classifier.scores(predictions, start, stop, split, score)
                &&& value.num == score
            }
    }

    /// On one piece of evidence a split is significant when its gain exceeds
    /// the significance level.
    open spec fn significant(&self, max_gain: Ratio, gain_result: GainResult, control: Control) -> bool {
        exceeds_level(max_gain, control.model_selection_alpha)
    }

    /// The one number that the instance reports: the number of observations
    /// of the classifier.
    open spec fn counts(&self, n: usize) -> bool {
        n == self.classifier.rows()
    }

    /// The number of observations of the classifier.
    fn n(&self) -> (r: usize)
        ensures
            r == self.classifier.rows(),
    {
        self.classifier.n()
    }

    /// The likelihood score that the classifier gives the split of
    /// `start..stop` at `split`, on its predictions of a fit at `split`.
    /// Where one side of the split is empty the gain is zero and the
    /// classifier is not asked.
    fn gain(&self, start: usize, stop: usize, split: usize) -> (r: Ratio) {
        if split == start || split == stop {
            return Ratio::zero();
        }
        let predictions = self.classifier.predict(start, stop, split);
        let score: i64 = self.classifier.single_likelihood(&predictions, start, stop, split);
        assert(self.classifier.scores(
            predictions@,
            start as int,
            stop as int,
            split as int,
            score,
        ));
        Ratio::from_int(score as i128)
    }

    fn is_significant(&self, max_gain: &Ratio, gain_result: &GainResult, control: &Control) -> (r:
        bool) {
        gain_exceeds_level(max_gain, &control.model_selection_alpha)
    }
}

impl<T: Classifier> ApproxGain for ClassifierGain<T> {
    /// One fit of the classifier at `guess`: its predictions for the rows of
    /// the segment, the likelihoods that it gives on them, and the gain
    /// curve derived from these. The candidates take no part in it.
    fn gain_approx(
        &self,
        start: usize,
        stop: usize,
        guess: usize,
        split_candidates: &Vec<usize>,
    ) -> (r: ApproxGainResult)
        ensures
            self.classifier.predicts(start as int, stop as int, guess as int, r.predictions@),
            self.classifier.tabulates(
                r.predictions@,
                start as int,
                stop as int,
                guess as int,
                r.likelihoods.before(),
                r.likelihoods.after(),
            ),
    {
        let predictions = self.classifier.predict(start, stop, guess);
        let likelihoods = self.classifier.full_likelihood(&predictions, start, stop, guess);
        let gain = gain_from_likelihoods(&likelihoods);
        ApproxGainResult {
            start,
            stop,
            guess,
            gain,
            best_split: None,
            max_gain: None,
            likelihoods,
            predictions,
        }
    }
}

} // verus!
