use maze_coevolution::fraction::{Fraction, FRACTION_DENOMINATOR};

#[test]
fn scale_takes_the_floor_of_the_product() {
    assert_eq!(Fraction::from_ratio(32, 100).scale(10), 3);
    assert_eq!(Fraction::from_ratio(32, 100).scale(7), 2);
    assert_eq!(Fraction::from_ratio(4, 10).scale(7), 2);
    assert_eq!(Fraction::from_ratio(4, 10).scale(9), 3);
    assert_eq!(Fraction::from_ratio(1, 2).scale(9), 4);
    assert_eq!(Fraction::from_bits(0).scale(10), 0);
}

#[test]
fn scale_stays_below_the_length() {
    let almost_one = Fraction::from_bits(u32::MAX);
    assert_eq!(almost_one.scale(10), 9);
    assert_eq!(almost_one.scale(1), 0);
    assert_eq!(almost_one.scale(u32::MAX), u32::MAX - 1);
    assert_eq!(almost_one.scale(0), 0);
}

#[test]
fn from_ratio_rounds_down_to_fixed_point() {
    assert_eq!(FRACTION_DENOMINATOR, 1u64 << 32);
    assert_eq!(Fraction::from_ratio(1, 2).bits, 1u32 << 31);
    assert_eq!(Fraction::from_ratio(1, 4).bits, 1u32 << 30);
    assert_eq!(Fraction::from_ratio(0, 7).bits, 0);
    assert_eq!(Fraction::from_ratio(1, 3).bits, 1_431_655_765);
    assert_eq!(Fraction::from_ratio(32, 100).bits, 1_374_389_534);
    assert_eq!(Fraction::from_ratio(u32::MAX - 1, u32::MAX).bits, u32::MAX - 1);
}

#[test]
fn less_than_compares_the_values() {
    let quarter = Fraction::from_ratio(1, 4);
    let half = Fraction::from_ratio(1, 2);
    assert!(quarter.less_than(&half));
    assert!(!half.less_than(&quarter));
    assert!(!half.less_than(&half));
}
