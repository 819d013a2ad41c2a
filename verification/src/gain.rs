//! Gains: scores of the splits of a segment, and the evidence that a gain
//! function hands to optimizers and to model selection.

use crate::control::{Control, Fraction};
use crate::ratio::Ratio;
use vstd::prelude::*;

pub mod classifier_gain;

verus! {

/// The sum of `values`.
pub open spec fn total(values: Seq<i32>) -> int
    decreases values.len(),
{
    if values.len() == 0 {
        0
    } else {
        total(values.drop_last()) + values.last()
    }
}

/// The sum of a sequence that ends in `last`.
proof fn lemma_total_push(values: Seq<i32>, last: i32)
    ensures
        total(values.push(last)) == total(values) + last,
{
    assert(values.push(last).drop_last() =~= values);
}

/// The likelihood of each row of a segment under two competing models: the
/// model fitted before a guessed split and the one fitted after it.
#[derive(Debug)]
pub struct LikelihoodTable {
    before: Vec<i32>,
    after: Vec<i32>,
}

impl LikelihoodTable {
    /// The likelihoods under the model before the split, one per row.
    pub closed spec fn before(&self) -> Seq<i32> {
        self.before@
    }

    /// The likelihoods under the model after the split, one per row.
    pub closed spec fn after(&self) -> Seq<i32> {
        self.after@
    }

    /// Both rows of the table have the same length.
    #[verifier::type_invariant]
    pub open spec fn wf(&self) -> bool {
        self.before().len() == self.after().len()
    }

    /// A table from its two rows; `None` when their lengths differ.
    pub fn new(before: Vec<i32>, after: Vec<i32>) -> (r: Option<LikelihoodTable>)
        ensures
            r.is_some() <==> before@.len() == after@.len(),
            r.is_some() ==> r.unwrap().before() == before@ && r.unwrap().after() == after@
                && r.unwrap().wf(),
    {
        if before.len() == after.len() {
            Some(LikelihoodTable { before, after })
        } else {
            None
        }
    }

    /// The number of rows of the segment that the table covers.
    pub fn width(&self) -> (r: usize)
        ensures
            self.wf(),
            r == self.before().len(),
            r == self.after().len(),
    {
        proof {
            use_type_invariant(self);
        }
        self.before.len()
    }

    /// The likelihood of row `k` under the model before the split.
    pub fn before_at(&self, k: usize) -> (r: i32)
        requires
            k < self.before().len(),
        ensures
            r == self.before()[k as int],
    {
        self.before[k]
    }

    /// The likelihood of row `k` under the model after the split.
    pub fn after_at(&self, k: usize) -> (r: i32)
        requires
            k < self.after().len(),
        ensures
            r == self.after()[k as int],
    {
        self.after[k]
    }

    /// The likelihood of each row under the model before the split, less that
    /// under the model after it.
    pub fn deltas(&self) -> (r: Vec<i64>)
        ensures
            r@.len() == self.before().len(),
            forall|k: int|
                0 <= k < r@.len() ==> #[trigger] r@[k] == self.before()[k] - self.after()[k],
    {
        let width: usize = self.width();
        let mut deltas: Vec<i64> = Vec::new();
        let mut k: usize = 0;
        while k < width
            invariant
                k <= width,
                width == self.before().len(),
                width == self.after().len(),
                deltas@.len() == k,
                forall|i: int|
                    0 <= i < k ==> #[trigger] deltas@[i] == self.before()[i] - self.after()[i],
            decreases width - k,
        {
            let before: i64 = self.before_at(k) as i64;
            let after: i64 = self.after_at(k) as i64;
            deltas.push(before - after);
            k += 1;
        }
        deltas
    }

    /// The sum of the likelihoods under the model after the split.
    pub fn baseline(&self) -> (r: i128)
        ensures
            r == total(self.after()),
            -0x8000_0000_0000_0000_0000_0000 <= r <= 0x8000_0000_0000_0000_0000_0000,
    {
        let width: usize = self.width();
        let mut sum: i128 = 0;
        let mut k: usize = 0;
        while k < width
            invariant
                k <= width,
                width == self.after().len(),
                sum == total(self.after().take(k as int)),
                -k * 0x8000_0000 <= sum <= k * 0x8000_0000,
            decreases width - k,
        {
            proof {
                let seen = self.after().take(k as int);
                assert(self.after().take(k + 1) =~= seen.push(self.after()[k as int]));
                lemma_total_push(seen, self.after()[k as int]);
            }
            sum = sum + self.after_at(k) as i128;
            k += 1;
        }
        proof {
            assert(self.after().take(width as int) =~= self.after());
        }
        sum
    }
}

/// The gain of every candidate split of a segment, found by evaluating each.
/// Entry `i` belongs to the split `start + i`; it is `None` where the split
/// was not a candidate.
#[derive(Debug)]
pub struct FullGainResult {
    pub start: usize,
    pub stop: usize,
    pub gain: Vec<Option<Ratio>>,
}

/// An approximate gain curve over a segment, derived from one classifier fit
/// at the split `guess`.
#[derive(Debug)]
pub struct ApproxGainResult {
    pub start: usize,
    pub stop: usize,
    pub guess: usize,
    pub gain: Vec<i128>,
    pub best_split: Option<usize>,
    pub max_gain: Option<i128>,
    pub likelihoods: LikelihoodTable,
    pub predictions: Vec<i32>,
}

/// The evidence behind a search: exact gains or an approximate curve.
#[derive(Debug)]
pub enum GainResult {
    ApproxGainResult(ApproxGainResult),
    FullGainResult(FullGainResult),
}

/// An entry of a full gain result is present exactly where its split was a
/// candidate.
pub open spec fn present_for_candidates(
    start: int,
    candidates: Seq<usize>,
    i: int,
    entry: Option<Ratio>,
) -> bool {
    entry.is_some() <==> candidates.contains((start + i) as usize)
}

/// Whether a gain exceeds a significance level, both as rational numbers.
pub open spec fn exceeds_level(max_gain: Ratio, level: Fraction) -> bool {
    max_gain.num * level.den > level.num * max_gain.den
}

/// Whether `max_gain` exceeds `level`.
pub fn gain_exceeds_level(max_gain: &Ratio, level: &Fraction) -> (r: bool)
    requires
        max_gain.wf(),
        level.wf(),
    ensures
        r == exceeds_level(*max_gain, *level),
{
    let threshold = Ratio::new(level.num as i128, level.den as u128);
    max_gain.gt(&threshold)
}

/// A gain function: it scores the split of the rows `start..stop` of its data
/// at `split`.
pub trait Gain {
    /// The instance is fit for use.
    spec fn wf(&self) -> bool;

    /// The number of rows that a segment may reach.
    spec fn rows(&self) -> nat;

    /// Whether `value` is a gain that the instance may report for the split
    /// of `start..stop` at `split`.
    spec fn admits(&self, start: int, stop: int, split: int, value: Ratio) -> bool;

    /// Whether the instance takes a split of gain `max_gain`, backed by the
    /// evidence `gain_result`, for significant under `control`.
    spec fn significant(&self, max_gain: Ratio, gain_result: GainResult, control: Control) -> bool;

    /// Whether `n` is a number of observations that the instance may
    /// report.
    spec fn counts(&self, n: usize) -> bool;

    /// The number of observations.
    fn n(&self) -> (r: usize)
        requires
            self.wf(),
        ensures
            self.counts(r),
    ;

    /// The gain of splitting `start..stop` at `split`. It is zero where one
    /// side of the split is empty.
    fn gain(&self, start: usize, stop: usize, split: usize) -> (r: Ratio)
        requires
            self.wf(),
            start <= split <= stop <= self.rows(),
        ensures
            r.wf(),
            self.admits(start as int, stop as int, split as int, r),
            (split == start || split == stop) ==> r.num == 0,
    ;

    /// The instance's own test of significance for a split of gain
    /// `max_gain`.
    fn is_significant(&self, max_gain: &Ratio, gain_result: &GainResult, control: &Control) -> (r:
        bool)
        requires
            self.wf(),
            max_gain.wf(),
            control.wf(),
        ensures
            r == self.significant(*max_gain, *gain_result, *control),
    ;

    /// The gain of every split among `split_candidates`, laid out over the
    /// segment `start..stop`.
    fn gain_full(&self, start: usize, stop: usize, split_candidates: &Vec<usize>) -> (r:
        FullGainResult)
        requires
            self.wf(),
            start <= stop <= self.rows(),
            forall|k: int|
                0 <= k < split_candidates@.len() ==> start <= #[trigger] split_candidates@[k]
                    < stop,
        ensures
            r.start == start,
            r.stop == stop,
            r.gain@.len() == stop - start,
            forall|i: int|
                0 <= i < stop - start ==> present_for_candidates(
                    start as int,
                    split_candidates@,
                    i,
                    #[trigger] r.gain@[i],
                ),
            forall|i: int|
                0 <= i < stop - start && (#[trigger] r.gain@[i]).is_some() ==> {
                    &&& r.gain@[i].unwrap().wf()
                    &&& self.admits(start as int, stop as int, start + i, r.gain@[i].unwrap())
                },
    {
        let mut gain: Vec<Option<Ratio>> = Vec::new();
        let mut i: usize = 0;
        while i < stop - start
            invariant
                i <= stop - start,
                gain@.len() == i,
                forall|k: int| 0 <= k < i ==> (#[trigger] gain@[k]).is_none(),
            decreases stop - start - i,
        {
            gain.push(None);
            i += 1;
        }
        let mut done: usize = 0;
        while done < split_candidates.len()
            invariant
                self.wf(),
                start <= stop <= self.rows(),
                done <= split_candidates@.len(),
                gain@.len() == stop - start,
                forall|k: int|
                    0 <= k < split_candidates@.len() ==> start <= #[trigger] split_candidates@[k]
                        < stop,
                forall|i: int|
                    0 <= i < stop - start ==> present_for_candidates(
                        start as int,
                        split_candidates@.take(done as int),
                        i,
                        #[trigger] gain@[i],
                    ),
                forall|i: int|
                    0 <= i < stop - start && (#[trigger] gain@[i]).is_some() ==> {
                        &&& gain@[i].unwrap().wf()
                        &&& self.admits(start as int, stop as int, start + i, gain@[i].unwrap())
                    },
            decreases split_candidates@.len() - done,
        {
            let split: usize = split_candidates[done];
            let value: Ratio = self.gain(start, stop, split);
            let ghost before = gain@;
            gain.set(split - start, Some(value));
            proof {
                let seen = split_candidates@.take(done as int);
                let next = split_candidates@.take(done + 1);
                assert(next =~= seen.push(split));
                assert forall|i: int| 0 <= i < stop - start implies present_for_candidates(
                    start as int,
                    next,
                    i,
                    #[trigger] gain@[i],
                ) by {
                    assert(present_for_candidates(start as int, seen, i, before[i]));
                    let s = (start + i) as usize;
                    if s == split {
                        assert(next[done as int] == s);
                    } else {
                        if seen.contains(s) {
                            let w = choose|w: int| 0 <= w < seen.len() && seen[w] == s;
                            assert(next[w] == s);
                        }
                        if next.contains(s) {
                            let w = choose|w: int| 0 <= w < next.len() && next[w] == s;
                            assert(seen[w] == s);
                        }
                    }
                }
            }
            done += 1;
        }
        proof {
            assert(split_candidates@.take(done as int) =~= split_candidates@);
        }
        FullGainResult { start, stop, gain }
    }
}

/// The sum over the first `k` rows of the likelihood under the model
/// before the split less that under the model after it.
pub open spec fn delta_sum(before: Seq<i32>, after: Seq<i32>, k: int) -> int
    decreases k,
{
    if k <= 0 {
        0
    } else {
        delta_sum(before, after, k - 1) + (before[k - 1] - after[k - 1])
    }
}

/// The approximate gain of the split at row `k` of a segment: the running
/// sum of the deltas of the rows before `k`, on top of the sum of the
/// likelihoods under the model after the split.
pub open spec fn approx_gain_at(before: Seq<i32>, after: Seq<i32>, k: int) -> int {
    delta_sum(before, after, k) + total(after)
}

/// The sum of a sequence is the sum of its first `k` entries plus the sum of
/// the rest.
pub proof fn lemma_total_split(values: Seq<i32>, k: int)
    requires
        0 <= k <= values.len(),
    ensures
        total(values) == total(values.take(k)) + total(values.skip(k)),
    decreases values.len(),
{
    if k == values.len() {
        assert(values.take(k) =~= values);
        assert(values.skip(k).len() == 0);
    } else {
        let front = values.drop_last();
        lemma_total_split(front, k);
        assert(front.take(k) =~= values.take(k));
        assert(values.skip(k).drop_last() =~= front.skip(k));
        assert(values.skip(k).last() == values.last());
    }
}

/// The running sum of the deltas over the first `k` rows is the sum of the
/// likelihoods of those rows under the model before the split, less their
/// sum under the model after it.
pub proof fn lemma_delta_sum(before: Seq<i32>, after: Seq<i32>, k: int)
    requires
        0 <= k <= before.len(),
        before.len() == after.len(),
    ensures
        delta_sum(before, after, k) == total(before.take(k)) - total(after.take(k)),
    decreases k,
{
    if k > 0 {
        lemma_delta_sum(before, after, k - 1);
        assert(before.take(k).drop_last() =~= before.take(k - 1));
        assert(after.take(k).drop_last() =~= after.take(k - 1));
    }
}

/// The approximate gain of the split at row `k` is the likelihood of the
/// segment when the rows before `k` follow the model before the split and
/// the rows from `k` on follow the model after it.
pub proof fn lemma_approx_gain_slides(before: Seq<i32>, after: Seq<i32>, k: int)
    requires
        0 <= k <= before.len(),
        before.len() == after.len(),
    ensures
        approx_gain_at(before, after, k) == total(before.take(k)) + total(after.skip(k)),
{
    lemma_delta_sum(before, after, k);
    lemma_total_split(after, k);
}

/// A gain function that can approximate the gain of every split of a
/// segment from one fit at a guessed split.
pub trait ApproxGain: Gain {
    /// The approximate gain curve of `start..stop` from one fit at `guess`:
    /// the likelihoods of that fit, and the curve derived from them. The
    /// best split and the greatest gain are left for the search to fill in.
    fn gain_approx(
        &self,
        start: usize,
        stop: usize,
        guess: usize,
        split_candidates: &Vec<usize>,
    ) -> (r: ApproxGainResult)
        requires
            self.wf(),
            start <= guess <= stop <= self.rows(),
        ensures
            r.start == start,
            r.stop == stop,
            r.guess == guess,
            r.best_split.is_none(),
            r.max_gain.is_none(),
            r.gain@.len() == r.likelihoods.before().len(),
            forall|k: int|
                0 <= k < r.gain@.len() ==> #[trigger] r.gain@[k] == approx_gain_at(
                    r.likelihoods.before(),
                    r.likelihoods.after(),
                    k,
                ),
    ;
}

} // verus!
