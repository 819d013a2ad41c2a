use changepoint::control::{Control, Fraction};
use changepoint::gain::classifier_gain::{gain_from_likelihoods, Classifier, ClassifierGain};
use changepoint::gain::{ApproxGain, ApproxGainResult, FullGainResult, Gain, GainResult, LikelihoodTable};
use changepoint::model_selection::{verdict, PermutationEvidence};
use changepoint::optimizer::grid_search::GridSearch;
use changepoint::optimizer::optimizer_result::OptimizerResult;
use changepoint::optimizer::Optimizer;
use changepoint::ratio::Ratio;
use rand::SeedableRng;

/// A classifier with fixed likelihoods, whose score peaks at `peak`.
struct Fixed {
    control: Control,
    before: Vec<i32>,
    after: Vec<i32>,
    peak: usize,
}

impl Classifier for Fixed {
    fn rows(&self) -> usize {
        self.before.len()
    }

    fn settings(&self) -> Control {
        self.control
    }

    fn n(&self) -> usize {
        self.before.len()
    }

    fn predict(&self, start: usize, stop: usize, split: usize) -> Vec<i32> {
        (start..stop).map(|row| if row < split { 0 } else { 1 }).collect()
    }

    fn single_likelihood(&self, predictions: &Vec<i32>, start: usize, stop: usize, split: usize) -> i64 {
        assert_eq!(predictions.len(), stop - start);
        let away = if split > self.peak { split - self.peak } else { self.peak - split };
        100 - (away * away) as i64
    }

    fn full_likelihood(&self, predictions: &Vec<i32>, start: usize, stop: usize, _guess: usize) -> LikelihoodTable {
        assert_eq!(predictions.len(), stop - start);
        LikelihoodTable::new(self.before[start..stop].to_vec(), self.after[start..stop].to_vec()).unwrap()
    }

    fn control(&self) -> &Control {
        &self.control
    }
}

fn fixed(seed: u64, before: Vec<i32>, after: Vec<i32>) -> ClassifierGain<Fixed> {
    let control = Control::new(seed, Fraction::new(1, 20), Fraction::new(1, 10));
    ClassifierGain { classifier: Fixed { control, before, after, peak: 3 } }
}

fn three_fits(gain: &ClassifierGain<Fixed>, stop: usize, max_gain: [i128; 3]) -> OptimizerResult {
    let mut gain_results = Vec::new();
    let mut greatest = max_gain[0];
    for (at, value) in max_gain.iter().enumerate() {
        let mut fit = gain.gain_approx(0, stop, stop * (at + 1) / 4, &Vec::new());
        fit.max_gain = Some(*value);
        fit.best_split = Some(stop / 2);
        if *value > greatest {
            greatest = *value;
        }
        gain_results.push(GainResult::ApproxGainResult(fit));
    }
    OptimizerResult {
        start: 0,
        stop,
        best_split: stop / 2,
        max_gain: Ratio::from_int(greatest),
        gain_results,
    }
}

#[test]
fn gain_from_likelihoods_is_the_shifted_running_sum() {
    let table = LikelihoodTable::new(vec![1, 2, 3], vec![10, 20, 30]).unwrap();
    assert_eq!(gain_from_likelihoods(&table), vec![60, 51, 33]);
    let empty = LikelihoodTable::new(Vec::new(), Vec::new()).unwrap();
    assert_eq!(gain_from_likelihoods(&empty), Vec::<i128>::new());
    let one = LikelihoodTable::new(vec![7], vec![-4]).unwrap();
    assert_eq!(gain_from_likelihoods(&one), vec![-4]);
    let extreme = LikelihoodTable::new(vec![i32::MAX; 4], vec![i32::MIN; 4]).unwrap();
    let low: i128 = 4 * (i32::MIN as i128);
    let step: i128 = (i32::MAX as i128) - (i32::MIN as i128);
    assert_eq!(gain_from_likelihoods(&extreme), vec![low, low + step, low + 2 * step, low + 3 * step]);
}

#[test]
fn likelihood_table_needs_rows_of_one_length() {
    assert!(LikelihoodTable::new(vec![1, 2], vec![1]).is_none());
    let table = LikelihoodTable::new(vec![1, 2], vec![5, 3]).unwrap();
    assert_eq!(table.width(), 2);
    assert_eq!((table.before_at(1), table.after_at(0)), (2, 5));
    assert_eq!(table.deltas(), vec![-4, -1]);
    assert_eq!(table.baseline(), 8);
}

#[test]
fn gain_approx_derives_the_curve_from_one_fit() {
    let gain = fixed(0, vec![1, 2, 3, 4, 5, 6], vec![6, 5, 4, 3, 2, 1]);
    let fit = gain.gain_approx(1, 5, 3, &vec![2, 3, 4]);
    assert_eq!((fit.start, fit.stop, fit.guess), (1, 5, 3));
    assert_eq!((fit.best_split, fit.max_gain), (None, None));
    assert_eq!(fit.predictions, vec![0, 0, 1, 1]);
    assert_eq!(fit.likelihoods.deltas(), vec![-3, -1, 1, 3]);
    assert_eq!(fit.gain, vec![14, 11, 10, 11]);
}

#[test]
fn classifier_gain_is_the_score_of_the_classifier() {
    let gain = fixed(0, vec![0; 8], vec![0; 8]);
    assert_eq!(gain.n(), 8);
    let at_peak = gain.gain(0, 8, 3);
    assert_eq!((at_peak.num, at_peak.den), (100, 1));
    let away = gain.gain(0, 8, 6);
    assert_eq!((away.num, away.den), (91, 1));
    assert!(gain.gain(0, 8, 0).is_zero());
    assert!(gain.gain(0, 8, 8).is_zero());
    assert!(gain.gain(3, 3, 3).is_zero());
    assert_eq!(gain.control().seed, 0);
}

#[test]
fn grid_search_over_a_classifier_finds_its_peak() {
    let gain = fixed(0, vec![0; 8], vec![0; 8]);
    let control = Control::new(0, Fraction::new(1, 20), Fraction::new(1, 10));
    let grid_search = GridSearch { gain, control: &control };
    let found = grid_search.find_best_split(0, 8).unwrap();
    assert_eq!(found.best_split, 3);
    assert_eq!((found.max_gain.num, found.max_gain.den), (100, 1));
    let found = grid_search.find_best_split(4, 8).unwrap();
    assert_eq!(found.best_split, 5);
    assert_eq!((found.max_gain.num, found.max_gain.den), (96, 1));
    assert!(grid_search.is_significant(&found));
}

#[test]
fn a_reference_that_no_walk_reaches_gives_the_least_p_value() {
    let gain = fixed(5, vec![1, 2, 3, 4, 5, 6], vec![1, 2, 3, 4, 5, 6]);
    let result = three_fits(&gain, 6, [3, 22, 7]);
    // All deltas are zero and every baseline is 21: below the reference 22.
    let verdict = gain.model_selection(&result);
    let p = verdict.p_value.unwrap();
    assert_eq!((p.num, p.den), (1, 100));
    assert!(verdict.is_significant);
}

#[test]
fn a_reference_that_every_walk_reaches_gives_p_value_one() {
    let gain = fixed(5, vec![1, 2, 3, 4, 5, 6], vec![1, 2, 3, 4, 5, 6]);
    let result = three_fits(&gain, 6, [3, 21, 7]);
    let verdict = gain.model_selection(&result);
    let p = verdict.p_value.unwrap();
    assert_eq!((p.num, p.den), (100, 100));
    assert!(!verdict.is_significant);
}

#[test]
fn an_empty_segment_has_no_extreme_walk() {
    let gain = fixed(5, vec![1, 2, 3], vec![1, 2, 3]);
    let result = three_fits(&gain, 0, [-50, -60, -70]);
    let verdict = gain.model_selection(&result);
    let p = verdict.p_value.unwrap();
    assert_eq!((p.num, p.den), (1, 100));
}

#[test]
fn model_selection_counts_the_walks_drawn_from_the_seed() {
    // The delta of row 0 is 3 and all others are -1: a walk reaches the
    // reference 3 exactly when it starts at row 0.
    let gain = fixed(42, vec![3, -1, -1, -1, -1, -1], vec![0; 6]);
    let result = three_fits(&gain, 6, [3, 2, 1]);
    let verdict = gain.model_selection(&result);
    let p = verdict.p_value.unwrap();

    let mut generator = rand::rngs::StdRng::seed_from_u64(42);
    let mut orders: Vec<Vec<usize>> = Vec::new();
    let mut starting_at_zero: u64 = 0;
    for _ in 0..99 {
        let order = rand::seq::index::sample(&mut generator, 6, 6).into_vec();
        let mut sorted = order.clone();
        sorted.sort();
        assert_eq!(sorted, vec![0, 1, 2, 3, 4, 5]);
        if order[0] == 0 {
            starting_at_zero += 1;
        }
        orders.push(order);
    }
    assert_eq!((p.num, p.den), (1 + starting_at_zero, 100));
    assert!(1 <= p.num && p.num <= 100);
    assert!(starting_at_zero > 0 && starting_at_zero < 99);
    assert_eq!(verdict.is_significant, p.num * 20 < 100);

    let evidence = PermutationEvidence::from_result(&result).unwrap();
    let decided = evidence.decide(&orders, &Fraction::new(1, 20));
    assert_eq!(decided.p_value.unwrap().num, p.num);
    assert_eq!(decided.p_value.unwrap().den, p.den);
    assert_eq!(decided.is_significant, verdict.is_significant);
}

#[test]
fn model_selection_is_reproducible() {
    let gain = fixed(7, vec![3, -1, 2, -1, -4, 1, 0, 2], vec![0, 1, -1, 0, 2, 0, 1, -2]);
    let result = three_fits(&gain, 8, [2, 4, 3]);
    let first = gain.model_selection(&result);
    let second = gain.model_selection(&result);
    assert_eq!(first.p_value.unwrap().num, second.p_value.unwrap().num);
    assert_eq!(first.p_value.unwrap().den, 100);
    assert_eq!(second.p_value.unwrap().den, 100);
    assert_eq!(first.is_significant, second.is_significant);
    let p = first.p_value.unwrap();
    assert!(1 <= p.num && p.num <= 100);
    assert_eq!(first.is_significant, p.num * 20 < 100);
}

#[test]
fn the_reference_is_the_greatest_of_the_three_gains() {
    let gain = fixed(1, vec![0; 4], vec![5; 4]);
    // Every baseline is 20 and every delta is -5: only the start can reach.
    let evidence = PermutationEvidence::from_result(&three_fits(&gain, 4, [1, 2, 16])).unwrap();
    assert!(!evidence.trial_is_extreme(&vec![0, 1, 2, 3]));
    let evidence = PermutationEvidence::from_result(&three_fits(&gain, 4, [15, 2, 1])).unwrap();
    assert!(evidence.trial_is_extreme(&vec![0, 1, 2, 3]));
    let evidence = PermutationEvidence::from_result(&three_fits(&gain, 4, [1, 15, 2])).unwrap();
    assert!(evidence.trial_is_extreme(&vec![3, 2, 1, 0]));
}

#[test]
fn a_walk_is_extreme_when_a_series_reaches_the_reference() {
    let gain = fixed(1, vec![3, -1, -1, -1, -1, -1], vec![0; 6]);
    let evidence = PermutationEvidence::from_result(&three_fits(&gain, 6, [3, 2, 1])).unwrap();
    assert!(evidence.trial_is_extreme(&vec![0, 1, 2, 3, 4, 5]));
    assert!(!evidence.trial_is_extreme(&vec![1, 0, 2, 3, 4, 5]));
    assert!(!evidence.trial_is_extreme(&vec![5, 4, 3, 2, 1, 0]));
    assert!(!evidence.trial_is_extreme(&Vec::new()));
    let none = evidence.decide(&Vec::new(), &Fraction::new(1, 2));
    assert_eq!((none.p_value.unwrap().num, none.p_value.unwrap().den), (1, 1));
    assert!(!none.is_significant);
    let two = evidence.decide(
        &vec![vec![0, 1, 2, 3, 4, 5], vec![1, 0, 2, 3, 4, 5], vec![2, 1, 0, 3, 4, 5]],
        &Fraction::new(3, 5),
    );
    assert_eq!((two.p_value.unwrap().num, two.p_value.unwrap().den), (2, 4));
    assert!(two.is_significant);
}

#[test]
fn evidence_of_another_shape_is_refused() {
    let gain = fixed(1, vec![0; 4], vec![0; 4]);
    let mut two = three_fits(&gain, 4, [1, 2, 3]);
    two.gain_results.pop();
    assert!(PermutationEvidence::from_result(&two).is_none());

    let mut exact = three_fits(&gain, 4, [1, 2, 3]);
    exact.gain_results[1] =
        GainResult::FullGainResult(FullGainResult { start: 0, stop: 4, gain: vec![None; 4] });
    assert!(PermutationEvidence::from_result(&exact).is_none());

    let mut open = three_fits(&gain, 4, [1, 2, 3]);
    if let GainResult::ApproxGainResult(fit) = &mut open.gain_results[2] {
        fit.max_gain = None;
    }
    assert!(PermutationEvidence::from_result(&open).is_none());

    let mut short = three_fits(&gain, 4, [1, 2, 3]);
    let narrow: ApproxGainResult = gain.gain_approx(0, 3, 1, &Vec::new());
    short.gain_results[0] = GainResult::ApproxGainResult(ApproxGainResult { max_gain: Some(1), ..narrow });
    assert!(PermutationEvidence::from_result(&short).is_none());

    let mut backwards = three_fits(&gain, 4, [1, 2, 3]);
    backwards.start = 5;
    assert!(PermutationEvidence::from_result(&backwards).is_none());

    assert!(PermutationEvidence::from_result(&three_fits(&gain, 4, [1, 2, 3])).is_some());
}

#[test]
fn every_order_of_two_rows_reaches_a_reference_met_at_the_first_row() {
    // The likelihoods [[2, 0], [0, 0]]: the delta of row 0 is 2, the baseline 0.
    let gain = fixed(0, vec![2, 0], vec![0, 0]);
    let result = three_fits(&gain, 2, [2, 2, 2]);
    let verdict = gain.model_selection(&result);
    let p = verdict.p_value.unwrap();
    assert_eq!((p.num, p.den), (100, 100));
    assert!(!verdict.is_significant);
}

#[test]
fn no_order_reaches_a_reference_above_flat_likelihoods() {
    let gain = fixed(0, vec![0, 0], vec![0, 0]);
    let result = three_fits(&gain, 2, [1, 1, 1]);
    let verdict = gain.model_selection(&result);
    let p = verdict.p_value.unwrap();
    assert_eq!((p.num, p.den), (1, 100));
    assert!(verdict.is_significant);
}

#[test]
fn the_reference_is_taken_from_the_fits_and_not_from_the_search() {
    let gain = fixed(0, vec![2, 0], vec![0, 0]);
    let mut result = three_fits(&gain, 2, [2, 2, 2]);
    result.max_gain = Ratio::from_int(5);
    let verdict = gain.model_selection(&result);
    let p = verdict.p_value.unwrap();
    assert_eq!((p.num, p.den), (100, 100));
    assert!(!verdict.is_significant);
}

#[test]
fn significance_goes_by_the_level_of_the_classifier() {
    // Half of the orders of two rows start at row 0 or reach 1 at the end:
    // the deltas are 1 and -1 and the reference is 1.
    let mut gain = fixed(3, vec![1, -1], vec![0, 0]);
    let result = three_fits(&gain, 2, [1, 0, -1]);
    let strict = gain.model_selection(&result);
    let p = strict.p_value.unwrap();
    assert!(1 < p.num && p.num < 100);
    assert_eq!(strict.is_significant, p.num * 20 < 100);
    // The same walks under a level just above and just below the p-value.
    gain.classifier.control = gain.classifier.control.with_model_selection_alpha(Fraction::new(p.num + 1, 101));
    let above = gain.model_selection(&result);
    assert_eq!(above.p_value.unwrap().num, p.num);
    assert!(above.is_significant);
    gain.classifier.control = gain.classifier.control.with_model_selection_alpha(Fraction::new(p.num, 100));
    let at = gain.model_selection(&result);
    assert_eq!(at.p_value.unwrap().num, p.num);
    assert!(!at.is_significant);
}

#[test]
fn gain_approx_takes_no_account_of_the_candidates() {
    let gain = fixed(0, vec![1, 2, 3, 4, 5, 6], vec![6, 5, 4, 3, 2, 1]);
    let one = gain.gain_approx(1, 5, 3, &vec![2, 3, 4]);
    let other = gain.gain_approx(1, 5, 3, &Vec::new());
    assert_eq!(one.gain, other.gain);
    assert_eq!(one.predictions, other.predictions);
    assert_eq!(one.likelihoods.deltas(), other.likelihoods.deltas());
    assert_eq!(one.likelihoods.baseline(), other.likelihoods.baseline());
}

#[test]
fn verdict_is_the_smoothed_share_of_extreme_walks() {
    let alpha = Fraction::new(1, 20);
    let none = verdict(0, 99, &alpha);
    assert_eq!((none.p_value.unwrap().num, none.p_value.unwrap().den), (1, 100));
    assert!(none.is_significant);
    let four = verdict(3, 99, &alpha);
    assert_eq!((four.p_value.unwrap().num, four.p_value.unwrap().den), (4, 100));
    assert!(four.is_significant);
    let five = verdict(4, 99, &alpha);
    assert_eq!((five.p_value.unwrap().num, five.p_value.unwrap().den), (5, 100));
    assert!(!five.is_significant);
    let all = verdict(99, 99, &alpha);
    assert_eq!((all.p_value.unwrap().num, all.p_value.unwrap().den), (100, 100));
    assert!(!all.is_significant);
    let wide = verdict(u64::MAX - 2, u64::MAX - 1, &Fraction::new(u64::MAX - 1, u64::MAX));
    assert!(!wide.is_significant);
}
