use core::cmp::Ordering;

use selene_markets::utils::{compute_midprice, mul_price_ceil, wrapped_comparison};
use selene_markets::DECIMAL_FRACTIONAL;

#[test]
fn utils_test_wrapped_comparison() {
    let target_ordering = Ordering::Greater;

    assert!(!wrapped_comparison(0u128, 12u128, target_ordering));
    assert!(wrapped_comparison(14u128, 12u128, target_ordering));
    assert!(!wrapped_comparison(12u128, 12u128, target_ordering));

    let target_ordering = Ordering::Equal;
    assert!(!wrapped_comparison(0u128, 12u128, target_ordering));
    assert!(!wrapped_comparison(14u128, 12u128, target_ordering));
    assert!(wrapped_comparison(12u128, 12u128, target_ordering));

    let target_ordering = Ordering::Less;
    assert!(wrapped_comparison(0u128, 12u128, target_ordering));
    assert!(!wrapped_comparison(14u128, 12u128, target_ordering));
    assert!(!wrapped_comparison(12u128, 12u128, target_ordering));
}

#[test]
fn utils_mul_price_ceil_rounds_up() {
    let half = DECIMAL_FRACTIONAL / 2;
    // 3 * 0.5 = 1.5, rounded up to 2: a pass-through would return 3.
    assert_eq!(mul_price_ceil(3, half), 2);
    // 4 * 0.5 = 2 exactly.
    assert_eq!(mul_price_ceil(4, half), 2);
    // 10000 * 50 = 500000.
    assert_eq!(mul_price_ceil(10000, 50 * DECIMAL_FRACTIONAL), 500000);
}

#[test]
fn utils_compute_midprice_halves() {
    let one = DECIMAL_FRACTIONAL;
    assert_eq!(compute_midprice(one, 3 * one), 2 * one);
    assert_eq!(compute_midprice(3, 5), 3);
}
