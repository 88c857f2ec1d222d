use backtest_engine::data::{is_strictly_ordered, OHLCVData};
use backtest_engine::fee::{charge, FeeType};
use backtest_engine::fixed::{
    add_fixed, adjust, div_trunc, hundredfold, mean_weighted, mul_fixed, narrow, product_wide,
    scaled, share, sub_fixed, wide_product, SCALE,
};
use backtest_engine::position::{Position, PositionError};
use backtest_engine::saturating::{
    sat_add, sat_div, sat_mul, sat_portion, sat_sub, saturate, sqrt_floor, to_cents,
};

fn units(x: f64) -> i64 {
    (x * 1_000_000.0).round() as i64
}

#[test]
fn product_of_whole_units() {
    assert_eq!(SCALE, 1_000_000);
    assert_eq!(mul_fixed(units(2.0), units(3.0)), Some(units(6.0)));
    assert_eq!(mul_fixed(units(0.5), units(0.5)), Some(units(0.25)));
    assert_eq!(mul_fixed(units(-1.5), units(2.0)), Some(units(-3.0)));
}

#[test]
fn products_and_quotients_round_toward_zero() {
    assert_eq!(mul_fixed(1, 1), Some(0));
    assert_eq!(mul_fixed(-1, 1), Some(0));
    assert_eq!(mul_fixed(1_999_999, 1), Some(1));
    assert_eq!(mul_fixed(-1_999_999, 1), Some(-1));
    assert_eq!(sat_div(units(1.0), units(3.0)), 333_333);
    assert_eq!(sat_div(units(-1.0), units(3.0)), -333_333);
    assert_eq!(div_trunc(-7, 2), -3);
    assert_eq!(div_trunc(7, 2), 3);
    assert_eq!(share(units(5.0), units(2.0), units(5.0)), units(2.0));
    assert_eq!(share(-7, 1, 2), -3);
}

#[test]
fn results_that_cannot_be_stored_are_reported() {
    assert_eq!(mul_fixed(i64::MAX, units(2.0)), None);
    assert_eq!(mul_fixed(i64::MAX, units(1.0)), Some(i64::MAX));
    assert_eq!(add_fixed(i64::MAX, 1), None);
    assert_eq!(add_fixed(i64::MAX, -1), Some(i64::MAX - 1));
    assert_eq!(sub_fixed(i64::MIN, 1), None);
    assert_eq!(sub_fixed(5, 7), Some(-2));
    assert_eq!(narrow(1 << 63), None);
    assert_eq!(narrow(-(1 << 63)), Some(i64::MIN));
    assert_eq!(wide_product(i64::MIN, i64::MIN), 1 << 126);
    assert_eq!(product_wide(i64::MAX, units(2.0)), 2 * (i64::MAX as i128));
    assert_eq!(scaled(-3), -3_000_000);
    assert_eq!(hundredfold(7), 700_000_000);
    assert_eq!(adjust(i64::MAX, 1), None);
}

#[test]
fn prices_are_moved_by_a_fraction_of_themselves() {
    assert_eq!(adjust(units(100.0), units(0.005)), Some(units(100.5)));
    assert_eq!(adjust(units(100.0), units(-0.005)), Some(units(99.5)));
    assert_eq!(adjust(units(100.0), 0), Some(units(100.0)));
    assert_eq!(adjust(units(100.0), units(-2.0)), Some(units(-100.0)));
}

#[test]
fn weighted_mean_of_two_prices() {
    assert_eq!(mean_weighted(units(100.0), units(1.0), units(110.0), units(1.0)), units(105.0));
    assert_eq!(mean_weighted(units(100.0), units(3.0), units(200.0), units(1.0)), units(125.0));
    assert_eq!(mean_weighted(units(7.0), 0, units(9.0), units(2.0)), units(9.0));
    assert_eq!(mean_weighted(i64::MAX, i64::MAX - 1, i64::MAX, 1), i64::MAX);
    assert_eq!(mean_weighted(i64::MIN, 1, i64::MAX, 1), 0);
}

#[test]
fn saturating_arithmetic_stops_at_the_ends() {
    assert_eq!(saturate(i128::MAX), i64::MAX);
    assert_eq!(saturate(i128::MIN), i64::MIN);
    assert_eq!(sat_add(i64::MAX, 1), i64::MAX);
    assert_eq!(sat_add(2, 3), 5);
    assert_eq!(sat_sub(i64::MIN, 1), i64::MIN);
    assert_eq!(sat_sub(2, 3), -1);
    assert_eq!(sat_mul(i64::MAX, units(2.0)), i64::MAX);
    assert_eq!(sat_mul(i64::MIN, units(2.0)), i64::MIN);
    assert_eq!(sat_mul(units(1.5), units(1.5)), units(2.25));
    assert_eq!(sat_div(i64::MAX, 1), i64::MAX);
    assert_eq!(sat_div(units(1.0), units(4.0)), units(0.25));
    assert_eq!(sat_portion(units(900.0), units(200.0), units(100.0)), units(1800.0));
    assert_eq!(sat_portion(i64::MAX, i64::MAX, 1), i64::MAX);
}

#[test]
fn amounts_are_cut_down_to_hundredths() {
    assert_eq!(to_cents(units(1.239)), units(1.23));
    assert_eq!(to_cents(units(-1.239)), units(-1.23));
    assert_eq!(to_cents(9_999), 0);
    assert_eq!(to_cents(-9_999), 0);
    assert_eq!(to_cents(i64::MAX), 9_223_372_036_854_770_000);
    assert_eq!(to_cents(i64::MIN), -9_223_372_036_854_770_000);
}

#[test]
fn square_roots_are_rounded_down() {
    assert_eq!(sqrt_floor(0), 0);
    assert_eq!(sqrt_floor(1), 1);
    assert_eq!(sqrt_floor(3), 1);
    assert_eq!(sqrt_floor(4), 2);
    assert_eq!(sqrt_floor(99), 9);
    assert_eq!(sqrt_floor(252_000_000_000_000), 15_874_507);
    assert_eq!(sqrt_floor((1 << 100) - 1), (1 << 50) - 1);
}

#[test]
fn fee_schedules() {
    assert_eq!(charge(&None, units(100.0)), Some(0));
    assert_eq!(charge(&Some(FeeType::Flat(units(1.5))), units(100.0)), Some(units(1.5)));
    assert_eq!(charge(&Some(FeeType::Percentage(units(0.01))), units(250.0)), Some(units(2.5)));
    assert_eq!(charge(&Some(FeeType::Percentage(units(3.0))), i64::MAX), None);
    assert!(FeeType::Flat(0).is_acceptable());
    assert!(!FeeType::Flat(-1).is_acceptable());
    assert!(FeeType::Percentage(units(1.0)).is_acceptable());
    assert!(!FeeType::Percentage(units(1.0) + 1).is_acceptable());
    assert!(!FeeType::Percentage(-1).is_acceptable());
}

#[test]
fn position_arithmetic() {
    let mut position = Position::new(units(1.0), units(100.0));
    position.update(units(3.0), units(200.0));
    assert_eq!(position.quantity, units(4.0));
    assert_eq!(position.average_price, units(175.0));
    assert_eq!(position.remove(units(1.5)), Ok(()));
    assert_eq!(position.quantity, units(2.5));
    assert_eq!(position.average_price, units(175.0));
    assert_eq!(position.remove(units(2.6)), Err(PositionError::InsufficientQuantity));
    assert_eq!(position.quantity, units(2.5));
    assert_eq!(position.remove(units(2.5)), Ok(()));
    assert_eq!(position.quantity, 0);
    assert_eq!(
        PositionError::InsufficientQuantity.message(),
        "Cannot remove more than the available quantity."
    );
}

fn sample(timestamp: i64, low: i64, open: i64, close: i64, high: i64) -> OHLCVData {
    OHLCVData { timestamp, open, high, low, close, volume: 0 }
}

#[test]
fn samples_and_feeds_are_checked() {
    assert!(sample(0, 1, 2, 3, 4).is_well_formed());
    assert!(sample(0, 0, 0, 0, 0).is_well_formed());
    assert!(!sample(0, 3, 2, 3, 4).is_well_formed());
    assert!(!sample(0, 1, 2, 5, 4).is_well_formed());
    assert!(!sample(0, -1, 2, 3, 4).is_well_formed());
    assert!(is_strictly_ordered(&vec![]));
    assert!(is_strictly_ordered(&vec![sample(5, 1, 1, 1, 1)]));
    assert!(is_strictly_ordered(&vec![sample(1, 1, 1, 1, 1), sample(2, 1, 1, 1, 1)]));
    assert!(!is_strictly_ordered(&vec![
        sample(1, 1, 1, 1, 1),
        sample(3, 1, 1, 1, 1),
        sample(3, 1, 1, 1, 1)
    ]));
}
