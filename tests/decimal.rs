use cexdex_arb::decimal::{Decimal, UNITS_PER_ONE};

#[test]
fn parts_with_few_digits_scale_up() {
    assert_eq!(Decimal::from_parts(105, 1), Some(Decimal { units: 10_500_000_000_000 }));
    assert_eq!(Decimal::from_parts(-7, 0), Some(Decimal { units: -7 * UNITS_PER_ONE }));
}

#[test]
fn parts_with_many_digits_need_trailing_zeros() {
    assert_eq!(Decimal::from_parts(1_500, 14), Some(Decimal { units: 15 }));
    assert_eq!(Decimal::from_parts(-1_500, 14), Some(Decimal { units: -15 }));
    assert_eq!(Decimal::from_parts(1_501, 14), None);
    assert_eq!(Decimal::from_parts(-1_501, 14), None);
    assert_eq!(Decimal::from_parts(-15, 13), None);
}

#[test]
fn parts_out_of_range_are_refused() {
    assert_eq!(Decimal::from_parts(i128::MAX, 0), None);
    assert_eq!(Decimal::from_parts(i128::MAX, 12), Some(Decimal { units: i128::MAX }));
}

#[test]
fn whole_numbers() {
    assert_eq!(Decimal::from_u64(3), Decimal { units: 3 * UNITS_PER_ONE });
    assert_eq!(Decimal::from_u64(u64::MAX).units, u64::MAX as i128 * UNITS_PER_ONE);
}
