use changepoint::change_in_mean::ChangeInMean;
use changepoint::control::{Control, Fraction};
use changepoint::gain::GainResult;
use changepoint::matrix::Matrix;
use changepoint::optimizer::grid_search::GridSearch;
use changepoint::optimizer::{best_candidate, split_candidates, Optimizer};
use changepoint::ratio::Ratio;

fn steps() -> Matrix {
    let rows: Vec<Vec<i32>> = vec![
        vec![0, 1],
        vec![0, 1],
        vec![1, -1],
        vec![1, -1],
        vec![-1, -1],
        vec![-1, -1],
        vec![-1, -1],
    ];
    Matrix::from_rows(rows, 2).unwrap()
}

fn one_in_ten() -> Control {
    Control::new(0, Fraction::new(1, 20), Fraction::new(1, 10))
}

fn best_split_of(start: usize, stop: usize) -> usize {
    let x = steps();
    assert_eq!((x.nrows(), x.ncols()), (7, 2));
    let gain = ChangeInMean::new(&x);
    let control = one_in_ten();
    let grid_search = GridSearch { gain, control: &control };
    grid_search.find_best_split(start, stop).unwrap().best_split
}

#[test]
fn test_change_in_mean_find_best_split_0_7() {
    assert_eq!(best_split_of(0, 7), 2);
}

#[test]
fn test_change_in_mean_find_best_split_1_7() {
    assert_eq!(best_split_of(1, 7), 4);
}

#[test]
fn test_change_in_mean_find_best_split_2_7() {
    assert_eq!(best_split_of(2, 7), 4);
}

#[test]
fn test_change_in_mean_find_best_split_3_7() {
    assert_eq!(best_split_of(3, 7), 4);
}

#[test]
fn test_change_in_mean_find_best_split_1_5() {
    assert_eq!(best_split_of(1, 5), 2);
}

#[test]
fn test_change_in_mean_find_best_split_1_6() {
    assert_eq!(best_split_of(1, 6), 4);
}

#[test]
fn test_change_in_mean_find_best_split_2_6() {
    assert_eq!(best_split_of(2, 6), 4);
}

#[test]
fn test_change_in_mean_find_best_split_3_6() {
    assert_eq!(best_split_of(3, 6), 4);
}

#[test]
fn find_best_split_reports_the_gain_and_the_evidence() {
    let x = steps();
    let control = one_in_ten();
    let grid_search = GridSearch { gain: ChangeInMean::new(&x), control: &control };
    let found = grid_search.find_best_split(0, 7).unwrap();
    assert_eq!((found.start, found.stop, found.best_split), (0, 7, 2));
    assert_eq!((found.max_gain.num, found.max_gain.den), (404, 490));
    assert_eq!(found.gain_results.len(), 1);
    match &found.gain_results[0] {
        GainResult::FullGainResult(full) => {
            assert_eq!((full.start, full.stop, full.gain.len()), (0, 7, 7));
            assert!(full.gain[0].is_none());
            let expected: Vec<(i128, u128)> =
                vec![(101, 294), (404, 490), (356, 588), (468, 588), (208, 490), (52, 294)];
            for split in 1..7usize {
                let value = full.gain[split].unwrap();
                assert_eq!((value.num, value.den), expected[split - 1]);
                assert!(!value.gt(&found.max_gain));
            }
        }
        GainResult::ApproxGainResult(_) => panic!("an exhaustive search reports exact gains"),
    }
}

#[test]
fn find_best_split_takes_the_lowest_of_equal_gains() {
    let flat = Matrix::from_rows(vec![vec![5, -5]; 9], 2).unwrap();
    let control = one_in_ten();
    let grid_search = GridSearch { gain: ChangeInMean::new(&flat), control: &control };
    let found = grid_search.find_best_split(0, 9).unwrap();
    assert_eq!(found.best_split, 1);
    assert!(found.max_gain.is_zero());
    let found = grid_search.find_best_split(3, 8).unwrap();
    assert_eq!(found.best_split, 4);

    // Two equal jumps: the gains at 2 and at 4 are equal, and 2 wins.
    let mirror = Matrix::from_rows(vec![vec![0], vec![0], vec![1], vec![1], vec![0], vec![0]], 1)
        .unwrap();
    let gain = ChangeInMean::new(&mirror);
    let grid_search = GridSearch { gain, control: &control };
    let found = grid_search.find_best_split(0, 6).unwrap();
    assert_eq!(found.best_split, 2);
}

#[test]
fn find_best_split_fails_on_a_segment_that_is_too_small() {
    let x = steps();
    let control = one_in_ten();
    let grid_search = GridSearch { gain: ChangeInMean::new(&x), control: &control };
    assert_eq!(grid_search.find_best_split(3, 4).unwrap_err(), "Segment too small.");
    assert_eq!(grid_search.find_best_split(5, 5).unwrap_err(), "Segment too small.");
    assert!(grid_search.find_best_split(3, 5).is_ok());

    let strict = Control::new(0, Fraction::new(1, 20), Fraction::new(2, 5));
    let grid_search = GridSearch { gain: ChangeInMean::new(&x), control: &strict };
    // Two fifths of 3 rows are more than one row, and two sides of two rows do not fit.
    assert_eq!(grid_search.find_best_split(0, 3).unwrap_err(), "Segment too small.");
    assert_eq!(grid_search.find_best_split(4, 7).unwrap_err(), "Segment too small.");
    // Two fifths of 4 rows are 1.6 rows: the one candidate leaves two rows on each side.
    assert_eq!(grid_search.find_best_split(2, 6).unwrap().best_split, 4);
    // Two fifths of 7 rows are 2.8 rows: the sides have 3 rows at least.
    assert_eq!(grid_search.find_best_split(0, 7).unwrap().best_split, 4);
    assert_eq!(grid_search.find_best_split(0, 5).unwrap().best_split, 2);
}

#[test]
fn split_candidates_keep_the_minimal_share_on_each_side() {
    let control = one_in_ten();
    assert_eq!(split_candidates(&control, 0, 7), vec![1, 2, 3, 4, 5, 6]);
    assert_eq!(split_candidates(&control, 1, 5), vec![2, 3, 4]);
    assert_eq!(split_candidates(&control, 3, 4), Vec::<usize>::new());
    assert_eq!(split_candidates(&control, 4, 4), Vec::<usize>::new());
    assert_eq!(split_candidates(&control, 0, 20), (2..=18).collect::<Vec<usize>>());
    assert_eq!(split_candidates(&control, 0, 21), (3..=18).collect::<Vec<usize>>());
    assert_eq!(split_candidates(&control, 10, 12), vec![11]);
}

#[test]
fn split_candidates_include_a_side_of_exactly_the_minimal_share() {
    let quarter = Control::new(0, Fraction::new(1, 20), Fraction::new(1, 4));
    assert_eq!(split_candidates(&quarter, 0, 8), vec![2, 3, 4, 5, 6]);
    assert_eq!(split_candidates(&quarter, 0, 9), vec![3, 4, 5, 6]);
    let almost_half = Control::new(0, Fraction::new(1, 20), Fraction::new(49, 100));
    assert_eq!(split_candidates(&almost_half, 0, 2), vec![1]);
    assert_eq!(split_candidates(&almost_half, 0, 3), Vec::<usize>::new());
    assert_eq!(split_candidates(&almost_half, 0, 100), vec![49, 50, 51]);
}

#[test]
fn best_candidate_is_the_first_of_the_greatest() {
    let gain: Vec<Option<Ratio>> = vec![
        None,
        Some(Ratio::new(1, 3)),
        Some(Ratio::new(2, 4)),
        Some(Ratio::new(1, 2)),
        Some(Ratio::new(-1, 1)),
        Some(Ratio::new(3, 6)),
    ];
    let best = best_candidate(&gain, 10, &vec![11, 12, 13, 14, 15]);
    assert_eq!((best.0, best.1.num, best.1.den), (12, 2, 4));
    let best = best_candidate(&gain, 10, &vec![13, 12, 15]);
    assert_eq!((best.0, best.1.num, best.1.den), (13, 1, 2));
    let best = best_candidate(&gain, 10, &vec![14, 11]);
    assert_eq!((best.0, best.1.num, best.1.den), (11, 1, 3));
    let best = best_candidate(&gain, 10, &vec![14]);
    assert_eq!((best.0, best.1.num, best.1.den), (14, -1, 1));
}

#[test]
fn grid_search_hands_out_its_parts() {
    let x = steps();
    let control = one_in_ten().with_seed(11);
    let grid_search = GridSearch { gain: ChangeInMean::new(&x), control: &control };
    assert_eq!(grid_search.n(), 7);
    assert_eq!(grid_search.control().seed, 11);
}

#[test]
fn grid_search_significance_is_that_of_the_gain() {
    let x = steps();
    let control = Control::new(0, Fraction::new(4, 5), Fraction::new(1, 10));
    let grid_search = GridSearch { gain: ChangeInMean::new(&x), control: &control };
    // 404/490 exceeds 4/5, 261/378 does not.
    let found = grid_search.find_best_split(0, 7).unwrap();
    assert!(grid_search.is_significant(&found));
    let found = grid_search.find_best_split(1, 7).unwrap();
    assert!(!grid_search.is_significant(&found));
}

#[test]
fn grid_search_over_many_rows_reads_one_table() {
    // A jump after 30 000 of 50 000 rows: every candidate is one read of the table.
    let rows: Vec<Vec<i32>> = (0..50_000).map(|i| vec![if i < 30_000 { -2 } else { 3 }]).collect();
    let x = Matrix::from_rows(rows, 1).unwrap();
    assert!(ChangeInMean::supports(&x));
    let control = Control::new(0, Fraction::new(1, 20), Fraction::new(1, 100));
    let grid_search = GridSearch { gain: ChangeInMean::new(&x), control: &control };
    let found = grid_search.find_best_split(0, 50_000).unwrap();
    assert_eq!(found.best_split, 30_000);
    let term: i128 = 30_000 * (20_000 * 3) - 20_000 * (30_000 * -2);
    assert_eq!(found.max_gain.num, term * term);
    assert_eq!(found.max_gain.den, 50_000u128 * 30_000 * 20_000 * 50_000);
}
