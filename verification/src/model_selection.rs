//! Model selection: whether the best split of a segment is significant,
//! decided by a permutation test on the likelihoods of three classifier
//! fits.

use crate::control::{Control, Fraction};
use crate::gain::{total, GainResult, LikelihoodTable};
use crate::optimizer::optimizer_result::OptimizerResult;
use crate::random::{draw_permutation, is_permutation, seeded_generator};
use vstd::prelude::*;

verus! {

/// The number of walks of the permutation test.
pub const PERMUTATIONS: usize = 99;

/// The verdict on a split, with the p-value where a test produced one.
#[derive(Clone, Copy, Debug)]
pub struct ModelSelectionResult {
    pub is_significant: bool,
    pub p_value: Option<Fraction>,
}

/// One classifier fit as the permutation test reads it: for each row the
/// likelihood under the model before the split less that under the model
/// after it, and the sum of the likelihoods under the model after it.
pub struct Series {
    pub deltas: Seq<int>,
    pub baseline: int,
}

/// All that the permutation test reads: the series of the fits, the gain
/// that a permutation has to reach, and the length of the segment.
pub struct Evidence {
    pub series: Seq<Series>,
    pub reference: int,
    pub length: nat,
}

/// The series of a likelihood table.
pub open spec fn series_of(table: LikelihoodTable) -> Series {
    Series {
        deltas: Seq::new(table.before().len(), |k: int| table.before()[k] - table.after()[k]),
        baseline: total(table.after()),
    }
}

/// The greatest of three numbers.
pub open spec fn greatest(a: int, b: int, c: int) -> int {
    if a >= b && a >= c {
        a
    } else if b >= c {
        b
    } else {
        c
    }
}

/// Whether `result` holds what the permutation test needs: three
/// approximate gain results, each with its greatest gain and with a
/// likelihood for every row of the segment.
pub open spec fn well_shaped(result: OptimizerResult) -> bool {
    &&& result.start <= result.stop
    &&& result.gain_results@.len() == 3
    &&& forall|j: int|
        0 <= j < 3 ==> {
            &&& #[trigger] result.gain_results@[j] is ApproxGainResult
            &&& result.gain_results@[j]->ApproxGainResult_0.max_gain.is_some()
            &&& result.gain_results@[j]->ApproxGainResult_0.likelihoods.before().len()
                >= result.stop - result.start
        }
}

/// The evidence in a well-shaped result: the series of its three fits, and
/// the greatest of their three gains as the reference.
pub open spec fn evidence_of(result: OptimizerResult) -> Evidence {
    let fits = result.gain_results@;
    Evidence {
        series: Seq::new(3, |j: int| series_of(fits[j]->ApproxGainResult_0.likelihoods)),
        reference: greatest(
            fits[0]->ApproxGainResult_0.max_gain.unwrap() as int,
            fits[1]->ApproxGainResult_0.max_gain.unwrap() as int,
            fits[2]->ApproxGainResult_0.max_gain.unwrap() as int,
        ),
        length: (result.stop - result.start) as nat,
    }
}

/// The value of a series after the first `steps` rows of `order` have been
/// walked: its baseline plus the deltas of those rows.
pub open spec fn walked(series: Series, order: Seq<usize>, steps: int) -> int
    decreases steps,
{
    if steps <= 0 {
        series.baseline
    } else {
        walked(series, order, steps - 1) + series.deltas[order[steps - 1] as int]
    }
}

/// Whether series `j` has reached the reference once row `t` of `order` has
/// been walked.
pub open spec fn reaches(evidence: Evidence, order: Seq<usize>, t: int, j: int) -> bool {
    walked(evidence.series[j], order, t + 1) >= evidence.reference
}

/// Whether a walk in the order `order` is as extreme as the observed gain:
/// some series reaches the reference at some row.
pub open spec fn is_extreme(evidence: Evidence, order: Seq<usize>) -> bool {
    exists|t: int, j: int|
        0 <= t < order.len() && 0 <= j < evidence.series.len() && #[trigger] reaches(
            evidence,
            order,
            t,
            j,
        )
}

/// The number of extreme walks among `orders`.
pub open spec fn count_extreme(evidence: Evidence, orders: Seq<Seq<usize>>) -> nat
    decreases orders.len(),
{
    if orders.len() == 0 {
        0
    } else {
        count_extreme(evidence, orders.drop_last()) + if is_extreme(evidence, orders.last()) {
            1nat
        } else {
            0nat
        }
    }
}

/// The p-value after the walks `orders`: the extreme walks and one more,
/// over the walks and one more.
pub open spec fn p_value_of(evidence: Evidence, orders: Seq<Seq<usize>>) -> Fraction {
    Fraction {
        num: (1 + count_extreme(evidence, orders)) as u64,
        den: (1 + orders.len()) as u64,
    }
}

/// Whether the fraction `p` lies strictly below the level `alpha`.
pub open spec fn below_level(p: Fraction, alpha: Fraction) -> bool {
    p.num * alpha.den < alpha.num * p.den
}

/// The verdict after the walks `orders` at the level `alpha`: the p-value,
/// and significance exactly where it lies below `alpha`.
pub open spec fn decision(evidence: Evidence, orders: Seq<Seq<usize>>, alpha: Fraction) -> ModelSelectionResult {
    ModelSelectionResult {
        is_significant: below_level(p_value_of(evidence, orders), alpha),
        p_value: Some(p_value_of(evidence, orders)),
    }
}

/// No more walks are extreme than there are walks.
pub proof fn lemma_count_extreme_bound(evidence: Evidence, orders: Seq<Seq<usize>>)
    ensures
        count_extreme(evidence, orders) <= orders.len(),
    decreases orders.len(),
{
    if orders.len() > 0 {
        lemma_count_extreme_bound(evidence, orders.drop_last());
    }
}

/// The p-value lies between one over the number of walks and one more, and
/// one: with 99 walks, between 1/100 and 1.
pub proof fn lemma_p_value_bounds(evidence: Evidence, orders: Seq<Seq<usize>>)
    requires
        orders.len() < u64::MAX,
    ensures
        p_value_of(evidence, orders).den == orders.len() + 1,
        1 <= p_value_of(evidence, orders).num <= p_value_of(evidence, orders).den,
{
    lemma_count_extreme_bound(evidence, orders);
}

/// The walks of a test, each as a sequence.
pub open spec fn orders_of(orders: Seq<Vec<usize>>) -> Seq<Seq<usize>> {
    Seq::new(orders.len(), |i: int| orders[i]@)
}

/// What the permutation test reads from an optimizer result, gathered once
/// for all walks.
pub struct PermutationEvidence {
    deltas: Vec<Vec<i64>>,
    baselines: Vec<i128>,
    reference: i128,
    length: usize,
}

/// What the test reads from one piece of evidence: the deltas and the
/// baseline of its likelihoods, and its greatest gain. `None` where the
/// evidence is not an approximate gain result, lacks its greatest gain or
/// has fewer likelihoods than `length`.
fn read_fit(gain_result: &GainResult, length: usize) -> (r: Option<(Vec<i64>, i128, i128)>)
    ensures
        r.is_some() <==> {
            &&& gain_result is ApproxGainResult
            &&& gain_result->ApproxGainResult_0.max_gain.is_some()
            &&& gain_result->ApproxGainResult_0.likelihoods.before().len() >= length
        },
        r.is_some() ==> {
            let fit = gain_result->ApproxGainResult_0;
            let series = series_of(fit.likelihoods);
            &&& r.unwrap().0@.len() == series.deltas.len()
            &&& forall|k: int|
                0 <= k < series.deltas.len() ==> #[trigger] r.unwrap().0@[k] == series.deltas[k]
            &&& r.unwrap().1 == series.baseline
            &&& r.unwrap().2 == fit.max_gain.unwrap()
            &&& -0x8000_0000_0000_0000_0000_0000 <= r.unwrap().1 <= 0x8000_0000_0000_0000_0000_0000
        },
{
    match gain_result {
        GainResult::ApproxGainResult(fit) => {
            match fit.max_gain {
                Some(max_gain) => {
                    if fit.likelihoods.width() < length {
                        return None;
                    }
                    let deltas = fit.likelihoods.deltas();
                    let baseline = fit.likelihoods.baseline();
                    Some((deltas, baseline, max_gain))
                },
                None => None,
            }
        },
        GainResult::FullGainResult(_) => None,
    }
}

impl PermutationEvidence {
    /// The evidence as the test reads it.
    pub closed spec fn view(&self) -> Evidence {
        Evidence {
            series: Seq::new(
                self.deltas@.len(),
                |j: int|
                    Series {
                        deltas: Seq::new(
                            self.deltas@[j]@.len(),
                            |k: int| self.deltas@[j]@[k] as int,
                        ),
                        baseline: self.baselines@[j] as int,
                    },
            ),
            reference: self.reference as int,
            length: self.length as nat,
        }
    }

    /// Every series has a baseline and a delta for each row of the segment,
    /// and both are small enough for a walk to be summed in 128 bits.
    #[verifier::type_invariant]
    pub closed spec fn wf(&self) -> bool {
        &&& self.deltas@.len() == self.baselines@.len()
        &&& forall|j: int|
            0 <= j < self.deltas@.len() ==> (#[trigger] self.deltas@[j])@.len() >= self.length
        &&& forall|j: int, k: int|
            0 <= j < self.deltas@.len() && 0 <= k < self.deltas@[j]@.len() ==> -0x1_0000_0000
                <= #[trigger] self.deltas@[j]@[k] <= 0x1_0000_0000
        &&& forall|j: int|
            0 <= j < self.baselines@.len() ==> -0x8000_0000_0000_0000_0000_0000
                <= #[trigger] self.baselines@[j] <= 0x8000_0000_0000_0000_0000_0000
    }

    /// The evidence in `result`; `None` when `result` does not hold three
    /// approximate gain results with their greatest gains and a likelihood
    /// for every row of its segment.
    pub fn from_result(result: &OptimizerResult) -> (r: Option<PermutationEvidence>)
        ensures
            r.is_some() <==> well_shaped(*result),
            r.is_some() ==> r.unwrap()@ == evidence_of(*result),
    {
        if result.stop < result.start || result.gain_results.len() != 3 {
            return None;
        }
        let length: usize = result.stop - result.start;
        let first = match read_fit(&result.gain_results[0], length) {
            Some(fit) => fit,
            None => {
                return None;
            },
        };
        let second = match read_fit(&result.gain_results[1], length) {
            Some(fit) => fit,
            None => {
                return None;
            },
        };
        let third = match read_fit(&result.gain_results[2], length) {
            Some(fit) => fit,
            None => {
                return None;
            },
        };
        let reference: i128 = if first.2 >= second.2 && first.2 >= third.2 {
            first.2
        } else if second.2 >= third.2 {
            second.2
        } else {
            third.2
        };
        let mut deltas: Vec<Vec<i64>> = Vec::new();
        deltas.push(first.0);
        deltas.push(second.0);
        deltas.push(third.0);
        let mut baselines: Vec<i128> = Vec::new();
        baselines.push(first.1);
        baselines.push(second.1);
        baselines.push(third.1);
        let evidence = PermutationEvidence { deltas, baselines, reference, length };
        proof {
            let model = evidence@;
            let wanted = evidence_of(*result);
            assert(model.series.len() == 3);
            assert forall|j: int| 0 <= j < 3 implies #[trigger] model.series[j]
                == wanted.series[j] by {
                assert(model.series[j].deltas =~= wanted.series[j].deltas);
            }
            assert(model.series =~= wanted.series);
        }
        Some(evidence)
    }

    /// Whether the walk in the order `order` is extreme. The walk adds, row
    /// by row and series by series, the delta of the row to the series, and
    /// ends as soon as a series reaches the reference.
    pub fn trial_is_extreme(&self, order: &Vec<usize>) -> (r: bool)
        requires
            forall|k: int| 0 <= k < order@.len() ==> #[trigger] order@[k] < self@.length,
        ensures
            r == is_extreme(self@, order@),
    {
        proof {
            use_type_invariant(self);
        }
        let series: usize = self.deltas.len();
        let mut values: Vec<i128> = Vec::new();
        let mut j: usize = 0;
        while j < series
            invariant
                j <= series,
                series == self.baselines@.len(),
                values@.len() == j,
                forall|i: int| 0 <= i < j ==> #[trigger] values@[i] == self.baselines@[i],
            decreases series - j,
        {
            values.push(self.baselines[j]);
            j += 1;
        }
        let mut t: usize = 0;
        while t < order.len()
            invariant
                t <= order@.len(),
                self.wf(),
                series == self.deltas@.len(),
                series == self@.series.len(),
                values@.len() == series,
                forall|k: int| 0 <= k < order@.len() ==> #[trigger] order@[k] < self@.length,
                forall|i: int|
                    0 <= i < series ==> #[trigger] values@[i] == walked(
                        self@.series[i],
                        order@,
                        t as int,
                    ),
                forall|i: int|
                    0 <= i < series ==> -0x8000_0000_0000_0000_0000_0000 - t * 0x1_0000_0000
                        <= #[trigger] values@[i] <= 0x8000_0000_0000_0000_0000_0000 + t
                        * 0x1_0000_0000,
                forall|u: int, i: int|
                    0 <= u < t && 0 <= i < series ==> !#[trigger] reaches(self@, order@, u, i),
            decreases order@.len() - t,
        {
            let row: usize = order[t];
            let mut j: usize = 0;
            while j < series
                invariant
                    j <= series,
                    t < order@.len(),
                    row == order@[t as int],
                    row < self@.length,
                    self.wf(),
                    series == self.deltas@.len(),
                    series == self@.series.len(),
                    values@.len() == series,
                    forall|i: int|
                        0 <= i < j ==> #[trigger] values@[i] == walked(
                            self@.series[i],
                            order@,
                            t + 1,
                        ),
                    forall|i: int|
                        j <= i < series ==> #[trigger] values@[i] == walked(
                            self@.series[i],
                            order@,
                            t as int,
                        ),
                    forall|i: int|
                        0 <= i < series ==> -0x8000_0000_0000_0000_0000_0000 - (t + 1)
                            * 0x1_0000_0000 <= #[trigger] values@[i]
                            <= 0x8000_0000_0000_0000_0000_0000 + (t + 1) * 0x1_0000_0000,
                    forall|i: int|
                        j <= i < series ==> -0x8000_0000_0000_0000_0000_0000 - t * 0x1_0000_0000
                            <= #[trigger] values@[i] <= 0x8000_0000_0000_0000_0000_0000 + t
                            * 0x1_0000_0000,
                    forall|u: int, i: int|
                        0 <= u < t && 0 <= i < series ==> !#[trigger] reaches(self@, order@, u, i),
                    forall|i: int| 0 <= i < j ==> !#[trigger] reaches(self@, order@, t as int, i),
                decreases series - j,
            {
                proof {
                    assert(self.deltas@[j as int]@.len() >= self.length);
                    assert(self@.series[j as int].deltas[row as int] == self.deltas@[j as int]@[row as int]);
                }
                let next: i128 = values[j] + self.deltas[j][row] as i128;
                values.set(j, next);
                if next >= self.reference {
                    proof {
                        assert(reaches(self@, order@, t as int, j as int));
                    }
                    return true;
                }
                j += 1;
            }
            t += 1;
        }
        false
    }

    /// The verdict of the test after the walks `orders` at the level
    /// `alpha`: the p-value is the number of extreme walks and one more,
    /// over the number of walks and one more, and the split is significant
    /// exactly when the p-value lies below `alpha`.
    pub fn decide(&self, orders: &Vec<Vec<usize>>, alpha: &Fraction) -> (r: ModelSelectionResult)
        requires
            orders@.len() < u64::MAX,
            forall|i: int, k: int|
                0 <= i < orders@.len() && 0 <= k < orders@[i]@.len() ==> #[trigger] orders@[i]@[k]
                    < self@.length,
        ensures
            r == decision(self@, orders_of(orders@), *alpha),
    {
        let ghost walks = orders_of(orders@);
        let mut extreme: u64 = 0;
        let mut i: usize = 0;
        while i < orders.len()
            invariant
                i <= orders@.len(),
                orders@.len() < u64::MAX,
                walks == orders_of(orders@),
                extreme == count_extreme(self@, walks.take(i as int)),
                extreme <= i,
                forall|a: int, k: int|
                    0 <= a < orders@.len() && 0 <= k < orders@[a]@.len() ==> #[trigger] orders@[a]@[k]
                        < self@.length,
            decreases orders@.len() - i,
        {
            proof {
                assert(walks.take(i + 1).drop_last() =~= walks.take(i as int));
                assert(walks.take(i + 1).last() == orders@[i as int]@);
            }
            if self.trial_is_extreme(&orders[i]) {
                extreme += 1;
            }
            i += 1;
        }
        proof {
            assert(walks.take(orders@.len() as int) =~= walks);
        }
        verdict(extreme, orders.len() as u64, alpha)
    }

    /// The permutation test under `control`. Each of the 99 walks goes
    /// through the rows of the segment in a random order, drawn from a
    /// generator that is seeded with the seed of `control`; the p-value is
    /// the number of extreme walks and one more, over 100, and the split is
    /// significant exactly when the p-value lies below the significance
    /// level of `control`. The generator draws walks of up to `u32::MAX`
    /// rows.
    pub fn permutation_test(&self, control: &Control) -> (r: ModelSelectionResult)
        requires
            self@.length <= u32::MAX,
        ensures
            is_test_verdict(self@, *control, r),
            r.p_value.is_some(),
            r.p_value.unwrap().den == PERMUTATIONS + 1,
            1 <= r.p_value.unwrap().num <= PERMUTATIONS + 1,
            r.is_significant == below_level(r.p_value.unwrap(), control.model_selection_alpha),
    {
        let mut generator = seeded_generator(control.seed);
        let ghost mut walks: Seq<Seq<usize>> = Seq::empty();
        let mut extreme: u64 = 0;
        let mut trial: usize = 0;
        while trial < PERMUTATIONS
            invariant
                trial <= PERMUTATIONS,
                walks.len() == trial,
                self@.length <= u32::MAX,
                forall|i: int|
                    0 <= i < walks.len() ==> is_permutation(
                        #[trigger] walks[i],
                        self@.length as int,
                    ),
                extreme == count_extreme(self@, walks),
                extreme <= trial,
            decreases PERMUTATIONS - trial,
        {
            let order = draw_permutation(&mut generator, self.length);
            let hit: bool = self.trial_is_extreme(&order);
            proof {
                let before = walks;
                walks = walks.push(order@);
                assert(walks.drop_last() =~= before);
                assert(walks.last() == order@);
            }
            if hit {
                extreme += 1;
            }
            trial += 1;
        }
        verdict(extreme, PERMUTATIONS as u64, &control.model_selection_alpha)
    }
}

/// Whether `r` is a verdict of the permutation test on `evidence` under
/// `control`: the verdict after 99 walks at the significance level of
/// `control`, each walk going through the rows of the segment in some
/// order.
pub open spec fn is_test_verdict(
    evidence: Evidence,
    control: Control,
    r: ModelSelectionResult,
) -> bool {
    exists|walks: Seq<Seq<usize>>|
        {
            &&& walks.len() == PERMUTATIONS
            &&& forall|i: int|
                0 <= i < walks.len() ==> is_permutation(#[trigger] walks[i], evidence.length as int)
            &&& r == decision(evidence, walks, control.model_selection_alpha)
        }
}

/// Every verdict of the permutation test has a p-value of a whole number of
/// hundredths, between 1/100 and 1, and takes the split for significant
/// exactly when that p-value lies below the significance level.
pub proof fn lemma_test_verdict_bounds(
    evidence: Evidence,
    control: Control,
    r: ModelSelectionResult,
)
    requires
        is_test_verdict(evidence, control, r),
    ensures
        r.p_value.is_some(),
        r.p_value.unwrap().den == 100,
        1 <= r.p_value.unwrap().num <= 100,
        r.is_significant == below_level(r.p_value.unwrap(), control.model_selection_alpha),
{
    let walks = choose|walks: Seq<Seq<usize>>|
        {
            &&& walks.len() == PERMUTATIONS
            &&& forall|i: int|
                0 <= i < walks.len() ==> is_permutation(#[trigger] walks[i], evidence.length as int)
            &&& r == decision(evidence, walks, control.model_selection_alpha)
        };
    lemma_p_value_bounds(evidence, walks);
}

/// The verdict after `trials` walks of which `extreme` were extreme: the
/// p-value `(1 + extreme) / (1 + trials)`, and significance exactly where it
/// lies below `alpha`.
pub fn verdict(extreme: u64, trials: u64, alpha: &Fraction) -> (r: ModelSelectionResult)
    requires
        extreme <= trials < u64::MAX,
    ensures
        r.p_value == Some(Fraction { num: (1 + extreme) as u64, den: (1 + trials) as u64 }),
        r.is_significant == below_level(r.p_value.unwrap(), *alpha),
{
    let p = Fraction { num: 1 + extreme, den: 1 + trials };
    let ghost top: int = 0xFFFF_FFFF_FFFF_FFFF;
    assert(p.num * alpha.den <= top * top && alpha.num * p.den <= top * top) by (nonlinear_arith)
        requires
            0 <= p.num <= top,
            0 <= p.den <= top,
            0 <= alpha.num <= top,
            0 <= alpha.den <= top,
    ;
    let is_significant: bool = (p.num as u128) * (alpha.den as u128) < (alpha.num as u128) * (
    p.den as u128);
    ModelSelectionResult { is_significant, p_value: Some(p) }
}

} // verus!
