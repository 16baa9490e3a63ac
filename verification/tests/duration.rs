use vaporpay::duration::{parse_duration, parse_single};
use vaporpay::error::Error;

#[test]
fn parses_all_four_units() {
    assert_eq!(parse_duration("1d2h3m4s"), Ok(93784));
}

#[test]
fn parses_zero_seconds() {
    assert_eq!(parse_duration("0s"), Ok(0));
}

#[test]
fn rejects_number_without_unit() {
    assert_eq!(parse_duration("5"), Err(Error::InvalidUnit(String::new())));
    assert_eq!(parse_duration("1h30"), Err(Error::InvalidUnit(String::new())));
}

#[test]
fn repeated_segments_accumulate() {
    assert_eq!(parse_duration("1h1h"), parse_duration("2h"));
    assert_eq!(parse_duration("1h1h"), Ok(7200));
    assert_eq!(parse_duration("2d12h"), Ok(2 * 86400 + 12 * 3600));
}

#[test]
fn concatenation_adds_up() {
    let a = "1d2h";
    let b = "3m4s";
    let joined = format!("{}{}", a, b);
    assert_eq!(
        parse_duration(&joined).unwrap(),
        parse_duration(a).unwrap() + parse_duration(b).unwrap()
    );
}

#[test]
fn each_unit_has_its_multiplier() {
    assert_eq!(parse_duration("7s"), Ok(7));
    assert_eq!(parse_duration("7m"), Ok(420));
    assert_eq!(parse_duration("7h"), Ok(25200));
    assert_eq!(parse_duration("7d"), Ok(604800));
}

#[test]
fn text_without_digits_holds_no_segment() {
    assert_eq!(parse_duration(""), Ok(0));
    assert_eq!(parse_duration("h"), Ok(0));
    assert_eq!(parse_duration("abc"), Ok(0));
}

#[test]
fn reports_the_unknown_unit() {
    assert_eq!(parse_duration("5x"), Err(Error::InvalidUnit("x".to_string())));
    assert_eq!(parse_duration("1hh"), Err(Error::InvalidUnit("hh".to_string())));
    assert_eq!(parse_duration("1h 2m"), Err(Error::InvalidUnit("h ".to_string())));
    assert_eq!(parse_duration("3H"), Err(Error::InvalidUnit("H".to_string())));
    assert_eq!(parse_duration("-5s"), Err(Error::InvalidNumber));
}

#[test]
fn reports_a_missing_number() {
    assert_eq!(parse_duration("h5m"), Err(Error::InvalidNumber));
    assert_eq!(parse_single("", "s"), Err(Error::InvalidNumber));
    assert_eq!(parse_single("1a", "s"), Err(Error::InvalidNumber));
    assert_eq!(parse_single("+", "s"), Err(Error::InvalidNumber));
}

#[test]
fn first_failing_segment_decides() {
    assert_eq!(parse_duration("1x2y"), Err(Error::InvalidUnit("x".to_string())));
    assert_eq!(parse_duration("1h2y3z"), Err(Error::InvalidUnit("y".to_string())));
}

#[test]
fn overflow_is_reported() {
    assert_eq!(parse_duration("18446744073709551615s"), Ok(u64::MAX));
    assert_eq!(parse_duration("18446744073709551616s"), Err(Error::Overflow));
    assert_eq!(parse_duration("18446744073709551615s1s"), Err(Error::Overflow));
    assert_eq!(parse_duration("213503982334601d"), Ok(213503982334601 * 86400));
    assert_eq!(parse_duration("213503982334602d"), Err(Error::Overflow));
    assert_eq!(
        parse_duration("999999999999999999999999999999999999999999999999s"),
        Err(Error::Overflow)
    );
}

#[test]
fn single_segment() {
    assert_eq!(parse_single("90", "m"), Ok(5400));
    assert_eq!(parse_single("+5", "m"), Ok(300));
    assert_eq!(parse_single("007", "d"), Ok(604800));
    assert_eq!(parse_single("5", "sec"), Err(Error::InvalidUnit("sec".to_string())));
    assert_eq!(parse_single("5", ""), Err(Error::InvalidUnit(String::new())));
    assert_eq!(parse_single("x", "y"), Err(Error::InvalidNumber));
}
