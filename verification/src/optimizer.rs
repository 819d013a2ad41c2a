//! Optimizers: searches for the best split of a segment among the splits
//! that leave each side long enough.

use crate::control::Control;
use crate::optimizer::optimizer_result::OptimizerResult;
use crate::ratio::{lemma_gt_after_ge, Ratio};
use vstd::prelude::*;

pub mod grid_search;
pub mod optimizer_result;

verus! {

/// Whether `split` is a candidate for the segment `start..stop`: it lies
/// strictly inside, and each side holds at least the minimal share of the
/// segment. A side of exactly that share is long enough.
pub open spec fn admissible(control: Control, start: int, stop: int, split: int) -> bool {
    let share = control.minimal_relative_segment_length;
    &&& start < split < stop
    &&& (split - start) * share.den >= share.num * (stop - start)
    &&& (stop - split) * share.den >= share.num * (stop - start)
}

/// The least length that is at least `num / den` of `length`.
fn minimal_length(num: u64, den: u64, length: usize) -> (r: usize)
    requires
        0 < num < den,
    ensures
        r <= length,
        forall|d: int| 0 <= d ==> (#[trigger] (d * den) >= num * length <==> d >= r),
{
    let total: u128 = length as u128;
    let ghost top: int = 0xFFFF_FFFF_FFFF_FFFF;
    assert(num * total <= top * top) by (nonlinear_arith)
        requires
            0 <= num <= top,
            0 <= total <= top,
    ;
    let scaled: u128 = (num as u128) * total;
    let wide: u128 = den as u128;
    let shifted: u128 = scaled + wide - 1;
    let least: u128 = shifted / wide;
    proof {
        let rest: int = shifted as int % wide as int;
        assert(shifted == least * wide + rest && 0 <= rest < wide) by (nonlinear_arith)
            requires
                least == shifted / wide,
                rest == shifted as int % wide as int,
                wide > 0,
        ;
        assert(least <= total) by (nonlinear_arith)
            requires
                least * wide + rest == num * total + wide - 1,
                0 <= rest,
                0 < num < wide,
                0 <= total,
                0 <= least,
        ;
        assert forall|d: int| 0 <= d implies (#[trigger] (d * den) >= num * length <==> d
            >= least) by {
            if d >= least {
                assert(d * den >= least * wide) by (nonlinear_arith)
                    requires
                        d >= least,
                        wide == den,
                        wide > 0,
                ;
            } else {
                assert(d * den <= (least - 1) * wide) by (nonlinear_arith)
                    requires
                        d <= least - 1,
                        wide == den,
                        wide > 0,
                ;
                assert((least - 1) * wide == least * wide - wide) by (nonlinear_arith);
            }
        }
    }
    least as usize
}

/// The candidates for splitting the segment `start..stop`, in rising order.
pub fn split_candidates(control: &Control, start: usize, stop: usize) -> (r: Vec<usize>)
    requires
        control.wf(),
        start <= stop,
    ensures
        forall|k: int|
            0 <= k < r@.len() ==> admissible(
                *control,
                start as int,
                stop as int,
                #[trigger] r@[k] as int,
            ),
        forall|split: int| #[trigger]
            admissible(*control, start as int, stop as int, split) ==> r@.contains(split as usize),
        forall|k: int| 0 <= k < r@.len() ==> #[trigger] r@[k] == r@[0] + k,
{
    let share = control.minimal_relative_segment_length;
    let length: usize = stop - start;
    let least: usize = minimal_length(share.num, share.den, length);
    let mut found: Vec<usize> = Vec::new();
    proof {
        assert forall|split: int| admissible(*control, start as int, stop as int, split) <==> (
        start + least <= split <= stop - least && start < split < stop) by {
            if start < split < stop {
                assert(((split - start) * share.den >= share.num * length) <==> split - start
                    >= least);
                assert(((stop - split) * share.den >= share.num * length) <==> stop - split
                    >= least);
            }
        }
        assert((0 * share.den >= share.num * length) <==> 0 >= least);
        assert(length > 0 ==> share.num * length > 0) by (nonlinear_arith)
            requires
                share.num > 0,
        ;
    }
    if length == 0 || 2 * (least as u128) > length as u128 {
        return found;
    }
    let first: usize = start + least;
    let last: usize = stop - least;
    let mut split: usize = first;
    while split <= last
        invariant
            start < first <= split <= last + 1,
            last < stop,
            found@.len() == split - first,
            forall|k: int| 0 <= k < found@.len() ==> #[trigger] found@[k] == first + k,
        decreases last + 1 - split,
    {
        found.push(split);
        split += 1;
    }
    proof {
        assert forall|at: int| #[trigger]
            admissible(*control, start as int, stop as int, at) implies found@.contains(
            at as usize,
        ) by {
            assert(found@[at - first] == at);
        }
    }
    found
}

/// Whether `best`, with the gain `max`, is the first of the `candidates`
/// whose gain no other candidate exceeds: every candidate before it has a
/// strictly smaller gain, and none after it has a greater one. Entry `i` of
/// `gain` belongs to the split `start + i`.
pub open spec fn is_first_maximum(
    gain: Seq<Option<Ratio>>,
    start: int,
    candidates: Seq<usize>,
    best: int,
    max: Ratio,
) -> bool {
    exists|at: int|
        {
            &&& 0 <= at < candidates.len()
            &&& #[trigger] candidates[at] == best
            &&& gain[best - start] == Some(max)
            &&& forall|k: int|
                0 <= k < at ==> max.gt_spec(#[trigger] gain[candidates[k] - start].unwrap())
            &&& forall|k: int|
                at <= k < candidates.len() ==> !(#[trigger] gain[candidates[k] - start]).unwrap().gt_spec(
                    max,
                )
        }
}

/// The first of the `candidates` with the greatest gain, and that gain. A
/// later candidate takes the lead only with a strictly greater gain.
pub fn best_candidate(gain: &Vec<Option<Ratio>>, start: usize, candidates: &Vec<usize>) -> (r: (
    usize,
    Ratio,
))
    requires
        candidates@.len() > 0,
        forall|k: int|
            0 <= k < candidates@.len() ==> {
                &&& start <= #[trigger] candidates@[k] < start + gain@.len()
                &&& gain@[candidates@[k] - start].is_some()
                &&& gain@[candidates@[k] - start].unwrap().wf()
            },
    ensures
        is_first_maximum(gain@, start as int, candidates@, r.0 as int, r.1),
        r.1.wf(),
{
    let mut at: usize = 0;
    let mut best_split: usize = candidates[0];
    let mut max_gain: Ratio = gain[best_split - start].unwrap();
    let mut k: usize = 1;
    while k < candidates.len()
        invariant
            1 <= k <= candidates@.len(),
            0 <= at < k,
            candidates@[at as int] == best_split,
            gain@[best_split - start] == Some(max_gain),
            max_gain.wf(),
            forall|l: int|
                0 <= l < candidates@.len() ==> {
                    &&& start <= #[trigger] candidates@[l] < start + gain@.len()
                    &&& gain@[candidates@[l] - start].is_some()
                    &&& gain@[candidates@[l] - start].unwrap().wf()
                },
            forall|l: int|
                0 <= l < at ==> max_gain.gt_spec(#[trigger] gain@[candidates@[l] - start].unwrap()),
            forall|l: int|
                at <= l < k ==> !(#[trigger] gain@[candidates@[l] - start]).unwrap().gt_spec(
                    max_gain,
                ),
        decreases candidates@.len() - k,
    {
        let split: usize = candidates[k];
        let value: Ratio = gain[split - start].unwrap();
        if value.gt(&max_gain) {
            proof {
                assert forall|l: int| 0 <= l < k implies value.gt_spec(
                    #[trigger] gain@[candidates@[l] - start].unwrap(),
                ) by {
                    let other = gain@[candidates@[l] - start].unwrap();
                    assert(start <= candidates@[l]);
                    if l < at {
                        assert(max_gain.gt_spec(other));
                    } else {
                        assert(!other.gt_spec(max_gain));
                    }
                    lemma_gt_after_ge(value, max_gain, other);
                }
            }
            at = k;
            best_split = split;
            max_gain = value;
        }
        k += 1;
    }
    (best_split, max_gain)
}

/// An optimizer: it searches the segment `start..stop` for its best split.
pub trait Optimizer {
    /// The instance is fit for use.
    spec fn wf(&self) -> bool;

    /// The number of rows that a segment may reach.
    spec fn rows(&self) -> nat;

    /// The configuration that the search goes by.
    spec fn settings(&self) -> Control;

    /// Whether the instance takes the split that `optimizer_result` reports
    /// for significant.
    spec fn significant(&self, optimizer_result: OptimizerResult) -> bool;

    /// Whether `n` is a number of observations that the instance may
    /// report.
    spec fn counts(&self, n: usize) -> bool;

    /// The number of observations.
    fn n(&self) -> (r: usize)
        requires
            self.wf(),
        ensures
            self.counts(r),
    ;

    /// The configuration that the search goes by.
    fn control(&self) -> (r: &Control)
        requires
            self.wf(),
        ensures
            *r == self.settings(),
    ;

    /// The best split of `start..stop`. The search fails exactly when the
    /// segment is too small to have a candidate; a split that it reports is
    /// a candidate.
    fn find_best_split(&self, start: usize, stop: usize) -> (r: Result<
        OptimizerResult,
        &'static str,
    >)
        requires
            self.wf(),
            start <= stop <= self.rows(),
        ensures
            r.is_err() <==> (forall|split: int|
                !#[trigger] admissible(self.settings(), start as int, stop as int, split)),
            r.is_err() ==> r->Err_0@ == "Segment too small."@,
            r.is_ok() ==> {
                let found = r->Ok_0;
                &&& found.start == start
                &&& found.stop == stop
                &&& admissible(self.settings(), start as int, stop as int, found.best_split as int)
                &&& found.max_gain.wf()
                &&& found.gain_results@.len() > 0
            },
    ;

    /// Whether the split that `optimizer_result` reports is significant.
    fn is_significant(&self, optimizer_result: &OptimizerResult) -> (r: bool)
        requires
            self.wf(),
            optimizer_result.max_gain.wf(),
            optimizer_result.gain_results@.len() > 0,
        ensures
            r == self.significant(*optimizer_result),
    ;
}

} // verus!
