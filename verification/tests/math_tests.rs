use ref_exchange::fees::{charge, AdminFees, FEE_DIVISOR};
use ref_exchange::math::{mul_div, mul_div_rem, mul_div_up};
use ref_exchange::errors::PoolError;

#[test]
fn mul_div_small_values() {
    assert_eq!(mul_div(7, 3, 2), Some(10));
    assert_eq!(mul_div_rem(7, 3, 2), Some((10, 1)));
    assert_eq!(mul_div_up(7, 3, 2), Some(11));
    assert_eq!(mul_div_up(8, 3, 2), Some(12));
    assert_eq!(mul_div(0, 5, 9), Some(0));
    assert_eq!(mul_div(5, 0, 9), Some(0));
}

#[test]
fn mul_div_product_beyond_128_bits() {
    let a: u128 = 1u128 << 127;
    assert_eq!(mul_div(a, 6, 4), Some(255211775190703847597530955573826158592));
    assert_eq!(mul_div(u128::MAX, u128::MAX, u128::MAX), Some(u128::MAX));
    let e30: u128 = 1_000_000_000_000_000_000_000_000_000_000;
    let e25: u128 = 10_000_000_000_000_000_000_000_000;
    assert_eq!(mul_div(e30, e30, e25), Some(100_000_000_000_000_000_000_000_000_000_000_000));
    let e38: u128 = 100_000_000_000_000_000_000_000_000_000_000_000_000;
    assert_eq!(
        mul_div_rem(e38, 7, 3),
        Some((233_333_333_333_333_333_333_333_333_333_333_333_333, 1))
    );
}

#[test]
fn mul_div_refuses_zero_divisor_and_overflow() {
    assert_eq!(mul_div(1, 1, 0), None);
    assert_eq!(mul_div_rem(0, 0, 0), None);
    assert_eq!(mul_div(u128::MAX, 2, 1), None);
    assert_eq!(mul_div(u128::MAX, 2, 2), Some(u128::MAX));
    assert_eq!(mul_div_up(u128::MAX, 3, 3), Some(u128::MAX));
    assert_eq!(mul_div_up(u128::MAX, 1, 0), None);
}

#[test]
fn mul_div_up_overflows_only_past_the_top() {
    // floor fits, ceiling does not
    assert_eq!(mul_div(u128::MAX, 3, 3), Some(u128::MAX));
    let top = u128::MAX;
    assert_eq!(mul_div_rem(top, 2, 2), Some((top, 0)));
    // (MAX * 2 + 1) cannot be written as a product with these operands, so
    // take a quotient of MAX with a remainder through a larger divisor
    assert_eq!(mul_div_rem(top, top, top - 1), None);
}

#[test]
fn fee_is_charged_rounded_up() {
    assert_eq!(charge(10_000, 30), 30);
    assert_eq!(charge(100, 30), 1);
    assert_eq!(charge(1, 30), 1);
    assert_eq!(charge(0, 30), 0);
    assert_eq!(charge(12_345, 0), 0);
    assert_eq!(charge(10, FEE_DIVISOR), 10);
}

#[test]
fn fee_split_adds_up() {
    let fees = AdminFees::new(10, "exchange".to_string(), 5, Some("referrer".to_string()));
    let parts = fees.split(149_999_999_999_999_999, 30).unwrap();
    assert_eq!(parts.exchange, 49_999_999_999_999_999);
    assert_eq!(parts.referral, 24_999_999_999_999_999);
    assert_eq!(parts.lp, 75_000_000_000_000_001);
    assert_eq!(parts.lp + parts.exchange + parts.referral, 149_999_999_999_999_999);
}

#[test]
fn fee_split_without_referrer_keeps_that_part_for_providers() {
    let fees = AdminFees::new(10, "exchange".to_string(), 25, None);
    let parts = fees.split(300, 30).unwrap();
    assert_eq!(parts.exchange, 100);
    assert_eq!(parts.referral, 0);
    assert_eq!(parts.lp, 200);
}

#[test]
fn fee_split_refuses_rates_above_the_total() {
    let fees = AdminFees::new(20, "exchange".to_string(), 11, Some("referrer".to_string()));
    assert_eq!(fees.split(300, 30), Err(PoolError::FeeTooHigh));
    let edge = AdminFees::new(20, "exchange".to_string(), 10, Some("referrer".to_string()));
    assert!(edge.split(300, 30).is_ok());
    let wide = AdminFees::new(u32::MAX, "exchange".to_string(), 1, Some("r".to_string()));
    assert_eq!(wide.split(300, 30), Err(PoolError::FeeTooHigh));
}

#[test]
fn fee_split_of_zero_rate_keeps_everything() {
    let zero = AdminFees::zero();
    let parts = zero.split(77, 0).unwrap();
    assert_eq!((parts.lp, parts.exchange, parts.referral), (77, 0, 0));
    let parts = zero.split(77, 30).unwrap();
    assert_eq!((parts.lp, parts.exchange, parts.referral), (77, 0, 0));
}
