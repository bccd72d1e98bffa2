use orderbook_aggregator::num::{Num, FRAC_DIGITS, UNITS_MAX};

#[test]
fn from_units_checks_the_range() {
    assert_eq!(Num::from_units(123), Some(Num { units: 123 }));
    assert_eq!(Num::from_units(-UNITS_MAX), Some(Num { units: -UNITS_MAX }));
    assert_eq!(Num::from_units(UNITS_MAX), Some(Num { units: UNITS_MAX }));
    assert_eq!(Num::from_units(i64::MAX), None);
    assert_eq!(Num::from_units(i64::MIN), None);
}

#[test]
fn from_parts_scales_up_short_fractions() {
    // 123.45 = mantissa 12345 at scale 2; at eight fractional digits that is
    // 12_345_000_000 units.
    assert_eq!(Num::from_parts(12345, 2, false), Some(Num { units: 12_345_000_000 }));
    // An integer: 7 at scale 0.
    assert_eq!(Num::from_parts(7, 0, false), Some(Num { units: 700_000_000 }));
    // Exactly eight fractional digits pass through unscaled.
    assert_eq!(Num::from_parts(42, FRAC_DIGITS, true), Some(Num { units: -42 }));
}

#[test]
fn from_parts_accepts_exact_long_fractions() {
    // 1.2300000000 at scale 10: the digits beyond the eighth place are zero.
    assert_eq!(Num::from_parts(12_300_000_000, 10, false), Some(Num { units: 123_000_000 }));
}

#[test]
fn from_parts_rejects_inexact_long_fractions() {
    // 0.000000001 at scale 9 carries a non-zero ninth fractional digit.
    assert_eq!(Num::from_parts(1, 9, false), None);
}

#[test]
fn from_parts_rejects_out_of_range_values() {
    assert_eq!(Num::from_parts(UNITS_MAX as u128 + 1, FRAC_DIGITS, false), None);
    assert_eq!(Num::from_parts(u128::MAX, 0, false), None);
}

#[test]
fn from_parts_applies_the_sign() {
    assert_eq!(Num::from_parts(5, 0, true), Some(Num { units: -500_000_000 }));
    assert_eq!(Num::from_parts(0, 0, true), Some(Num { units: 0 }));
}

#[test]
fn subtraction_is_exact() {
    let a = Num { units: 150 };
    let b = Num { units: 200 };
    assert_eq!(a.sub(b), Num { units: -50 });
    assert_eq!(b.sub(a), Num { units: 50 });
    // The extremes of the range never overflow.
    let hi = Num { units: UNITS_MAX };
    let lo = Num { units: -UNITS_MAX };
    assert_eq!(hi.sub(lo), Num { units: 2 * UNITS_MAX });
}

#[test]
fn comparisons_follow_the_values() {
    let a = Num { units: 1 };
    let b = Num { units: 2 };
    assert!(a.lt(b));
    assert!(a.le(b));
    assert!(a.le(a));
    assert!(!b.lt(a));
    assert_eq!(Num::zero(), Num { units: 0 });
}
