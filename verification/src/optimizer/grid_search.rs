//! The exhaustive optimizer: it evaluates the gain of every candidate.

use crate::change_in_mean::{mean_shift_gain, ChangeInMean};
use crate::control::Control;
use crate::gain::{FullGainResult, Gain, GainResult};
use crate::optimizer::optimizer_result::OptimizerResult;
use crate::optimizer::{admissible, best_candidate, split_candidates, Optimizer};
use crate::ratio::Ratio;
use vstd::prelude::*;

verus! {

/// A search that evaluates `gain` at every candidate split.
pub struct GridSearch<'a, T: Gain> {
    pub gain: T,
    pub control: &'a Control,
}

/// Whether `full` is the evidence of an exhaustive search of `start..stop`
/// with `gain`: one entry per row of the segment, present exactly at the
/// candidates, each a gain that `gain` reports for its split.
pub open spec fn evaluates_candidates<T: Gain>(
    gain: &T,
    control: Control,
    start: int,
    stop: int,
    full: FullGainResult,
) -> bool {
    &&& full.start == start
    &&& full.stop == stop
    &&& full.gain@.len() == stop - start
    &&& forall|i: int|
        0 <= i < stop - start ==> ((#[trigger] full.gain@[i]).is_some() <==> admissible(
            control,
            start,
            stop,
            start + i,
        ))
    &&& forall|i: int|
        0 <= i < stop - start && (#[trigger] full.gain@[i]).is_some() ==> {
            &&& full.gain@[i].unwrap().wf()
            &&& gain.admits(start, stop, start + i, full.gain@[i].unwrap())
        }
}

/// Whether `best`, with the gain `max`, is the candidate of greatest gain in
/// `full`, and the lowest such candidate: no candidate has a greater gain,
/// and every candidate below `best` has a strictly smaller one.
pub open spec fn is_lowest_maximizer(
    control: Control,
    start: int,
    stop: int,
    full: FullGainResult,
    best: int,
    max: Ratio,
) -> bool {
    &&& admissible(control, start, stop, best)
    &&& full.gain@[best - start] == Some(max)
    &&& forall|split: int| #[trigger]
        admissible(control, start, stop, split) ==> !full.gain@[split - start].unwrap().gt_spec(max)
    &&& forall|split: int| #[trigger]
        admissible(control, start, stop, split) && split < best ==> max.gt_spec(
            full.gain@[split - start].unwrap(),
        )
}

/// Whether `found` is what an exhaustive search of `start..stop` with
/// `gain` returns.
pub open spec fn found_by_grid_search<T: Gain>(
    gain: &T,
    control: Control,
    start: int,
    stop: int,
    found: OptimizerResult,
) -> bool {
    &&& found.start == start
    &&& found.stop == stop
    &&& found.gain_results@.len() == 1
    &&& found.gain_results@[0] is FullGainResult
    &&& evaluates_candidates(gain, control, start, stop, found.gain_results@[0]->FullGainResult_0)
    &&& is_lowest_maximizer(
        control,
        start,
        stop,
        found.gain_results@[0]->FullGainResult_0,
        found.best_split as int,
        found.max_gain,
    )
}

impl<'a, T: Gain> Optimizer for GridSearch<'a, T> {
    /// The gain function is fit for use and the configuration is valid.
    open spec fn wf(&self) -> bool {
        self.gain.wf() && self.control.wf()
    }

    /// The number of rows that the gain function lets a segment reach.
    open spec fn rows(&self) -> nat {
        self.gain.rows()
    }

    open spec fn settings(&self) -> Control {
        *self.control
    }

    /// The gain function's own test, on the greatest gain and the last piece
    /// of evidence.
    open spec fn significant(&self, optimizer_result: OptimizerResult) -> bool {
        self.gain.significant(
            optimizer_result.max_gain,
            optimizer_result.gain_results@.last(),
            *self.control,
        )
    }

    /// The numbers of observations that the gain function may report.
    open spec fn counts(&self, n: usize) -> bool {
        self.gain.counts(n)
    }

    /// The number of observations that the gain function reports.
    fn n(&self) -> (r: usize)
        ensures
            self.gain.counts(r),
    {
        self.gain.n()
    }

    fn control(&self) -> (r: &Control) {
        self.control
    }

    /// The candidate of `start..stop` with the greatest gain, and the lowest
    /// such candidate, with the gain of every candidate as evidence.
    fn find_best_split(&self, start: usize, stop: usize) -> (r: Result<
        OptimizerResult,
        &'static str,
    >)
        ensures
            r.is_ok() ==> found_by_grid_search(
                &self.gain,
                *self.control,
                start as int,
                stop as int,
                r->Ok_0,
            ),
    {
        let split_candidates = split_candidates(self.control, start, stop);
        if split_candidates.len() == 0 {
            proof {
                assert forall|split: int|
                    !#[trigger] admissible(*self.control, start as int, stop as int, split) by {
                    if admissible(*self.control, start as int, stop as int, split) {
                        assert(split_candidates@.contains(split as usize));
                    }
                }
            }
            return Err("Segment too small.");
        }
        let full_gain = self.gain.gain_full(start, stop, &split_candidates);
        let ghost first = split_candidates@[0] as int;
        proof {
            assert(admissible(*self.control, start as int, stop as int, first));
            assert forall|i: int| 0 <= i < stop - start implies ((#[trigger] full_gain.gain@[i]).is_some()
                <==> admissible(*self.control, start as int, stop as int, start + i)) by {
                let split = (start + i) as usize;
                assert(crate::gain::present_for_candidates(
                    start as int,
                    split_candidates@,
                    i,
                    full_gain.gain@[i],
                ));
                if split_candidates@.contains(split) {
                    let k = choose|k: int|
                        0 <= k < split_candidates@.len() && split_candidates@[k] == split;
                    assert(admissible(
                        *self.control,
                        start as int,
                        stop as int,
                        split_candidates@[k] as int,
                    ));
                }
                if admissible(*self.control, start as int, stop as int, start + i) {
                    assert(split_candidates@.contains(split));
                }
            }
            assert forall|k: int| 0 <= k < split_candidates@.len() implies {
                &&& start <= #[trigger] split_candidates@[k] < start + full_gain.gain@.len()
                &&& full_gain.gain@[split_candidates@[k] - start].is_some()
                &&& full_gain.gain@[split_candidates@[k] - start].unwrap().wf()
            } by {
                assert(admissible(
                    *self.control,
                    start as int,
                    stop as int,
                    split_candidates@[k] as int,
                ));
                let i = split_candidates@[k] - start;
                assert(full_gain.gain@[i].is_some());
            }
        }
        let best = best_candidate(&full_gain.gain, start, &split_candidates);
        let best_split: usize = best.0;
        let max_gain: Ratio = best.1;
        proof {
            let at = choose|at: int|
                {
                    &&& 0 <= at < split_candidates@.len()
                    &&& #[trigger] split_candidates@[at] == best_split
                    &&& full_gain.gain@[best_split - start] == Some(max_gain)
                    &&& forall|k: int|
                        0 <= k < at ==> max_gain.gt_spec(
                            #[trigger] full_gain.gain@[split_candidates@[k] - start].unwrap(),
                        )
                    &&& forall|k: int|
                        at <= k < split_candidates@.len() ==> !(#[trigger] full_gain.gain@[split_candidates@[k]
                            - start]).unwrap().gt_spec(max_gain)
                };
            assert(admissible(
                *self.control,
                start as int,
                stop as int,
                split_candidates@[at] as int,
            ));
            assert forall|split: int| #[trigger]
                admissible(*self.control, start as int, stop as int, split) implies !full_gain.gain@[split
                - start].unwrap().gt_spec(max_gain) by {
                assert(split_candidates@.contains(split as usize));
                let k = choose|k: int|
                    0 <= k < split_candidates@.len() && split_candidates@[k] == split as usize;
                let entry = full_gain.gain@[split_candidates@[k] - start];
                if k < at {
                    assert(max_gain.gt_spec(entry.unwrap()));
                } else {
                    assert(!entry.unwrap().gt_spec(max_gain));
                }
            }
            assert forall|split: int| #[trigger]
                admissible(*self.control, start as int, stop as int, split) && split
                < best_split implies max_gain.gt_spec(full_gain.gain@[split - start].unwrap()) by {
                assert(split_candidates@.contains(split as usize));
                let k = choose|k: int|
                    0 <= k < split_candidates@.len() && split_candidates@[k] == split as usize;
                assert(split_candidates@[k] == first + k);
                assert(split_candidates@[at] == first + at);
                let entry = full_gain.gain@[split_candidates@[k] - start];
                assert(max_gain.gt_spec(entry.unwrap()));
            }
        }
        assert(admissible(self.settings(), start as int, stop as int, best_split as int));
        let mut gain_results: Vec<GainResult> = Vec::new();
        gain_results.push(GainResult::FullGainResult(full_gain));
        Ok(OptimizerResult { start, stop, best_split, max_gain, gain_results })
    }

    /// Whether the gain function takes the greatest gain for significant,
    /// given the last piece of evidence and the configuration.
    fn is_significant(&self, optimizer_result: &OptimizerResult) -> (r: bool) {
        let last: usize = optimizer_result.gain_results.len() - 1;
        let gain_result = &optimizer_result.gain_results[last];
        self.gain.is_significant(&optimizer_result.max_gain, gain_result, self.control)
    }
}

/// What an exhaustive search with the mean-shift gain finds: the greatest
/// gain that it reports is the mean-shift gain of the best split, no
/// candidate has a greater mean-shift gain, and every candidate below the
/// best split has a strictly smaller one.
pub proof fn lemma_grid_search_maximizes_mean_shift(
    gain: &ChangeInMean,
    control: Control,
    start: int,
    stop: int,
    found: OptimizerResult,
)
    requires
        0 <= start <= stop,
        found_by_grid_search(gain, control, start, stop, found),
    ensures
        admissible(control, start, stop, found.best_split as int),
        found.max_gain == mean_shift_gain(
            gain.data(),
            gain.features() as int,
            start,
            stop,
            found.best_split as int,
        ),
        forall|split: int| #[trigger]
            admissible(control, start, stop, split) ==> !mean_shift_gain(
                gain.data(),
                gain.features() as int,
                start,
                stop,
                split,
            ).gt_spec(found.max_gain),
        forall|split: int| #[trigger]
            admissible(control, start, stop, split) && split < found.best_split
                ==> found.max_gain.gt_spec(
                mean_shift_gain(gain.data(), gain.features() as int, start, stop, split),
            ),
{
    let full = found.gain_results@[0]->FullGainResult_0;
    assert forall|split: int| #[trigger]
        admissible(control, start, stop, split) implies full.gain@[split - start] == Some(
        mean_shift_gain(gain.data(), gain.features() as int, start, stop, split),
    ) by {
        let i = split - start;
        assert(full.gain@[i].is_some());
        assert(gain.admits(start, stop, start + i, full.gain@[i].unwrap()));
    }
}

} // verus!
