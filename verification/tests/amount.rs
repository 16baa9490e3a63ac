use vaporpay::amount::normalize_amount;
use vaporpay::error::Error;

#[test]
fn one_and_a_half_at_six_places() {
    assert_eq!(normalize_amount("1.5", 6), Ok(1_500_000));
}

#[test]
fn zero_at_eighteen_places() {
    assert_eq!(normalize_amount("0", 18), Ok(0));
}

#[test]
fn negative_amount_is_refused() {
    assert_eq!(normalize_amount("-1", 18), Err(Error::InvalidAmount));
    assert_eq!(normalize_amount("-0.5", 6), Err(Error::InvalidAmount));
    assert_eq!(normalize_amount("-0", 6), Err(Error::InvalidAmount));
}

#[test]
fn a_tenth_of_the_native_asset() {
    assert_eq!(normalize_amount("0.1", 18), Ok(100_000_000_000_000_000));
}

#[test]
fn amounts_written_by_a_float() {
    let cases: [(f64, u8, u128); 4] =
        [(1.5, 6, 1_500_000), (0.0, 18, 0), (0.1, 18, 100_000_000_000_000_000), (42.0, 0, 42)];
    for (amount, decimals, expected) in cases {
        assert_eq!(normalize_amount(&amount.to_string(), decimals), Ok(expected));
    }
    assert_eq!(normalize_amount(&(-1.5f64).to_string(), 6), Err(Error::InvalidAmount));
    assert_eq!(normalize_amount(&f64::NAN.to_string(), 6), Err(Error::InvalidAmount));
    assert_eq!(normalize_amount(&f64::INFINITY.to_string(), 6), Err(Error::InvalidAmount));
}

#[test]
fn places_beyond_the_precision_are_cut() {
    assert_eq!(normalize_amount("1.23456789", 6), Ok(1_234_567));
    assert_eq!(normalize_amount("0.9999999", 6), Ok(999_999));
    assert_eq!(normalize_amount("0.0000001", 6), Ok(0));
    assert_eq!(normalize_amount("12.999", 0), Ok(12));
}

#[test]
fn missing_places_are_filled() {
    assert_eq!(normalize_amount("7", 3), Ok(7000));
    assert_eq!(normalize_amount("7.", 3), Ok(7000));
    assert_eq!(normalize_amount(".5", 1), Ok(5));
    assert_eq!(normalize_amount("0012.5", 2), Ok(1250));
}

#[test]
fn malformed_amounts_are_refused() {
    for text in ["", ".", "1.2.3", "1e5", "+1", " 1", "1 ", "abc", "1,5", "0x10"] {
        assert_eq!(normalize_amount(text, 6), Err(Error::InvalidAmount), "{:?}", text);
    }
}

#[test]
fn decimals_whose_power_overflows_are_refused() {
    assert_eq!(normalize_amount("0", 38), Ok(0));
    assert_eq!(normalize_amount("1", 38), Ok(100_000_000_000_000_000_000_000_000_000_000_000_000));
    assert_eq!(normalize_amount("0", 39), Err(Error::InvalidAmount));
    assert_eq!(normalize_amount("0", 255), Err(Error::InvalidAmount));
}

#[test]
fn results_beyond_128_bits_are_refused() {
    assert_eq!(normalize_amount("340282366920938463463374607431768211455", 0), Ok(u128::MAX));
    assert_eq!(
        normalize_amount("340282366920938463463374607431768211456", 0),
        Err(Error::InvalidAmount)
    );
    assert_eq!(
        normalize_amount("3.4", 38),
        Ok(340_000_000_000_000_000_000_000_000_000_000_000_000)
    );
    assert_eq!(normalize_amount("3.5", 38), Err(Error::InvalidAmount));
    assert_eq!(
        normalize_amount("34028236692093846346337460743176821145.5", 1),
        Ok(u128::MAX)
    );
}
