use zenith::config::{parse_i64, parse_u64, validate_height, validate_refresh_rate};

#[test]
fn refresh_rate_accepts_at_least_1000_ms() {
    assert!(validate_refresh_rate(String::from("1000")).is_ok());
    assert!(validate_refresh_rate(String::from("2000")).is_ok());
    assert!(validate_refresh_rate(String::from("999")).is_err());
    assert!(validate_refresh_rate(String::from("0")).is_err());
}

#[test]
fn refresh_rate_rejects_text_that_is_no_number() {
    let err = validate_refresh_rate(String::from("abc")).unwrap_err();
    assert_eq!(err, "abc Enter a refresh rate that is at least 1000 ms");
    assert!(validate_refresh_rate(String::from("")).is_err());
    assert!(validate_refresh_rate(String::from("12x0")).is_err());
}

#[test]
fn height_rejects_only_negative_numbers() {
    assert!(validate_height(String::from("0")).is_ok());
    assert!(validate_height(String::from("10")).is_ok());
    let err = validate_height(String::from("-3")).unwrap_err();
    assert_eq!(err, "-3 Enter a height greater than or equal to 0.");
    // text that does not parse falls back to zero rows and passes,
    // mirroring the defaulting at the flag boundary
    assert!(validate_height(String::from("abc")).is_ok());
    assert!(validate_height(String::from("-0")).is_ok());
}

#[test]
fn parse_u64_handles_sign_bounds_and_junk() {
    assert_eq!(parse_u64("0"), Some(0));
    assert_eq!(parse_u64("2000"), Some(2000));
    assert_eq!(parse_u64("+7"), Some(7));
    assert_eq!(parse_u64("18446744073709551615"), Some(u64::MAX));
    assert_eq!(parse_u64("18446744073709551616"), None); // one past the end
    assert_eq!(parse_u64(""), None);
    assert_eq!(parse_u64("+"), None);
    assert_eq!(parse_u64("1 2"), None);
    assert_eq!(parse_u64("-1"), None);
}

#[test]
fn parse_i64_handles_sign_bounds_and_junk() {
    assert_eq!(parse_i64("-5"), Some(-5));
    assert_eq!(parse_i64("5"), Some(5));
    assert_eq!(parse_i64("+5"), Some(5));
    assert_eq!(parse_i64("9223372036854775807"), Some(i64::MAX));
    assert_eq!(parse_i64("9223372036854775808"), None);
    assert_eq!(parse_i64("-9223372036854775808"), Some(i64::MIN));
    assert_eq!(parse_i64("-9223372036854775809"), None);
    assert_eq!(parse_i64("-"), None);
    assert_eq!(parse_i64("--1"), None);
}
