use co2_reader::parse::parse_reading;

#[test]
fn plain_reading_with_newline() {
    assert_eq!(parse_reading("412\n"), Some(412));
}

#[test]
fn reading_with_surrounding_whitespace() {
    assert_eq!(parse_reading("  87 "), Some(87));
}

#[test]
fn reading_with_mixed_whitespace() {
    assert_eq!(parse_reading("\t\r\n 1024 \n\r\t"), Some(1024));
}

#[test]
fn negative_reading() {
    assert_eq!(parse_reading("-5"), Some(-5));
}

#[test]
fn negative_reading_with_newline() {
    assert_eq!(parse_reading("-5\n"), Some(-5));
}

#[test]
fn explicit_plus_sign() {
    assert_eq!(parse_reading("+7"), Some(7));
}

#[test]
fn zero_reading() {
    assert_eq!(parse_reading("0"), Some(0));
}

#[test]
fn non_numeric_body() {
    assert_eq!(parse_reading("error"), None);
}

#[test]
fn empty_body() {
    assert_eq!(parse_reading(""), None);
}

#[test]
fn whitespace_only_body() {
    assert_eq!(parse_reading(" \n\t"), None);
}

#[test]
fn bare_sign_is_not_a_reading() {
    assert_eq!(parse_reading("-"), None);
    assert_eq!(parse_reading("+"), None);
    assert_eq!(parse_reading("- 5"), None);
}

#[test]
fn inner_whitespace_is_not_trimmed() {
    assert_eq!(parse_reading("4 2"), None);
}

#[test]
fn trailing_garbage_rejected() {
    assert_eq!(parse_reading("12a"), None);
    assert_eq!(parse_reading("12.5"), None);
}

#[test]
fn non_ascii_body_rejected() {
    assert_eq!(parse_reading("４１２"), None);
}

#[test]
fn extreme_values_fit() {
    assert_eq!(parse_reading("2147483647"), Some(i32::MAX));
    assert_eq!(parse_reading("-2147483648"), Some(i32::MIN));
}

#[test]
fn overflow_is_an_error_not_a_crash() {
    assert_eq!(parse_reading("2147483648"), None);
    assert_eq!(parse_reading("-2147483649"), None);
    assert_eq!(parse_reading("999999999999999999999999999999"), None);
}

#[test]
fn leading_zeros_accepted() {
    assert_eq!(parse_reading("0000412"), Some(412));
}
