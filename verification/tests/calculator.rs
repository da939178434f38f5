use stellarnova::limit_orders::calculate_min_output;
use stellarnova::BigUint;

fn big(x: u128) -> BigUint {
    BigUint::from_u128(x)
}

#[test]
fn minimum_output_at_price_fifty_and_five_percent() {
    let out = calculate_min_output(&big(1000), &big(50), &big(1), 500);
    assert_eq!(out, big(47500));
    assert_eq!(out.to_u64(), Some(47500));
}

#[test]
fn minimum_output_without_slippage_is_the_expected_output() {
    assert_eq!(calculate_min_output(&big(1000), &big(50), &big(1), 0), big(50000));
    assert_eq!(calculate_min_output(&big(7), &big(1), &big(2), 0), big(3));
}

#[test]
fn minimum_output_at_full_slippage_is_zero() {
    assert_eq!(calculate_min_output(&big(1000), &big(50), &big(1), 10000), big(0));
}

#[test]
fn minimum_output_rounds_down_twice() {
    // 10 * 1 / 3 = 3 (not 3.33), then 3 * 9999 / 10000 = 2 (not 2.9997).
    assert_eq!(calculate_min_output(&big(10), &big(1), &big(3), 1), big(2));
    // 999 * 7 / 10 = 699, then 699 * 9500 / 10000 = 664 (not 664.05).
    assert_eq!(calculate_min_output(&big(999), &big(7), &big(10), 500), big(664));
}

#[test]
fn minimum_output_of_nothing_is_nothing() {
    assert_eq!(calculate_min_output(&big(0), &big(50), &big(1), 500), big(0));
    assert_eq!(calculate_min_output(&big(1000), &big(0), &big(1), 500), big(0));
}

#[test]
fn minimum_output_does_not_overflow_on_wide_amounts() {
    // The product of amount and price needs more than 128 bits.
    let amount = u128::MAX;
    let price = u128::MAX;
    let out = calculate_min_output(&big(amount), &big(price), &big(price), 500);
    // amount * price / price = amount; amount * 9500 / 10000 computed by parts.
    let q = amount / 10000;
    let r = amount % 10000;
    assert_eq!(out, big(q * 9500 + r * 9500 / 10000));
    let wide = calculate_min_output(&big(amount), &big(price), &big(1), 0);
    assert_eq!(wide, big(amount).mul(&big(price)));
    assert_eq!(wide.to_u64(), None);
}

#[test]
fn minimum_output_with_eighteen_decimals() {
    // 2.5 tokens of 18 decimals at 40.25, 1% slippage.
    let amount = 2_500_000_000_000_000_000u128;
    let out = calculate_min_output(&big(amount), &big(4025), &big(100), 100);
    assert_eq!(out, big(amount * 4025 / 100 * 9900 / 10000));
}
