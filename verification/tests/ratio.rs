use changepoint::control::{Control, Fraction};
use changepoint::ratio::{magnitude_of, product_exceeds, wide_product, Ratio};

#[test]
fn wide_product_of_the_largest_numbers() {
    assert_eq!(wide_product(u128::MAX, u128::MAX), (u128::MAX - 1, 1));
    assert_eq!(wide_product(u128::MAX, 2), (1, u128::MAX - 1));
    assert_eq!(wide_product(1 << 64, 1 << 64), (1, 0));
    assert_eq!(wide_product(0, u128::MAX), (0, 0));
    assert_eq!(wide_product(3, 5), (0, 15));
    assert_eq!(
        wide_product(0xFFFF_FFFF_FFFF_FFFF, 0xFFFF_FFFF_FFFF_FFFF),
        (0, 0xFFFF_FFFF_FFFF_FFFE_0000_0000_0000_0001)
    );
}

#[test]
fn product_exceeds_beyond_128_bits() {
    assert!(product_exceeds(u128::MAX, u128::MAX, u128::MAX, u128::MAX - 1));
    assert!(!product_exceeds(u128::MAX, u128::MAX - 1, u128::MAX, u128::MAX));
    assert!(!product_exceeds(u128::MAX, u128::MAX, u128::MAX, u128::MAX));
    assert!(product_exceeds(1 << 100, 1 << 100, (1 << 100) - 1, (1 << 100) + 1));
    assert!(!product_exceeds(2, 3, 3, 2));
    assert!(product_exceeds(2, 4, 7, 1));
}

#[test]
fn magnitude_of_the_least_number() {
    assert_eq!(magnitude_of(i128::MIN), 1u128 << 127);
    assert_eq!(magnitude_of(-5), 5);
    assert_eq!(magnitude_of(5), 5);
    assert_eq!(magnitude_of(0), 0);
}

#[test]
fn ratios_are_ordered_by_value() {
    let half = Ratio::new(1, 2);
    let third = Ratio::new(1, 3);
    let two_quarters = Ratio::new(2, 4);
    assert!(half.gt(&third));
    assert!(!third.gt(&half));
    assert!(!half.gt(&two_quarters));
    assert!(half.ge(&two_quarters));
    assert!(two_quarters.ge(&half));
    assert!(!third.ge(&half));
    let minus_half = Ratio::new(-1, 2);
    let minus_third = Ratio::new(-1, 3);
    assert!(minus_third.gt(&minus_half));
    assert!(!minus_half.gt(&minus_third));
    assert!(third.gt(&minus_third));
    assert!(!minus_third.gt(&third));
    assert!(Ratio::zero().gt(&minus_third));
    assert!(!Ratio::zero().gt(&Ratio::new(0, 7)));
    let least = Ratio::new(i128::MIN, 1);
    let almost = Ratio::new(i128::MIN + 1, 1);
    assert!(almost.gt(&least));
    assert!(!least.gt(&almost));
    let big = Ratio::new(i128::MAX, u128::MAX);
    let bigger = Ratio::new(i128::MAX, u128::MAX - 1);
    assert!(bigger.gt(&big));
    assert!(!big.gt(&bigger));
}

#[test]
fn ratio_constructors() {
    let whole = Ratio::from_int(-7);
    assert_eq!((whole.num, whole.den), (-7, 1));
    let zero = Ratio::zero();
    assert_eq!((zero.num, zero.den), (0, 1));
    assert!(zero.is_zero());
    assert!(!whole.is_zero());
}

#[test]
fn control_builders_replace_one_field() {
    let control = Control::new(3, Fraction::new(1, 20), Fraction::new(1, 10));
    let other = control
        .with_seed(9)
        .with_model_selection_alpha(Fraction::new(1, 100))
        .with_minimal_relative_segment_length(Fraction::new(1, 4));
    assert_eq!(control.seed, 3);
    assert_eq!(other.seed, 9);
    assert_eq!((other.model_selection_alpha.num, other.model_selection_alpha.den), (1, 100));
    assert_eq!(
        (
            other.minimal_relative_segment_length.num,
            other.minimal_relative_segment_length.den
        ),
        (1, 4)
    );
    assert_eq!((control.model_selection_alpha.num, control.model_selection_alpha.den), (1, 20));
}
