use catalog_sync::price::{get_default_price, parse_price};

fn accepts(text: &str) -> bool {
    parse_price(text).is_some()
}

#[test]
fn default_price_text_is_zero_with_two_decimals() {
    assert_eq!(get_default_price(), "0.00");
}

#[test]
fn default_price_parses_to_zero() {
    let price = parse_price(&get_default_price()).expect("the default is a numeral");
    assert_eq!(price.as_str(), "0.00");
    assert_eq!(price.as_str().parse::<f64>().unwrap(), 0.0);
}

#[test]
fn plain_price_is_kept_as_written() {
    let price = parse_price("12.50").expect("a numeral");
    assert_eq!(price.as_str(), "12.50");
    assert_eq!(price.as_str().parse::<f64>().unwrap(), 12.50);
}

#[test]
fn integer_price_is_accepted() {
    assert_eq!(parse_price("7").unwrap().as_str(), "7");
}

#[test]
fn signed_prices_are_accepted() {
    assert_eq!(parse_price("+0.10").unwrap().as_str(), "+0.10");
    assert_eq!(parse_price("-3").unwrap().as_str(), "-3");
}

#[test]
fn point_may_lead_or_trail() {
    assert!(accepts(".5"));
    assert!(accepts("5."));
    assert_eq!(parse_price(".5").unwrap().as_str().parse::<f64>().unwrap(), 0.5);
}

#[test]
fn long_numeral_is_accepted() {
    assert!(accepts("123456789012345678901234567890.000000000000000000001"));
}

#[test]
fn empty_text_is_rejected() {
    assert!(!accepts(""));
}

#[test]
fn lone_sign_or_point_is_rejected() {
    assert!(!accepts("+"));
    assert!(!accepts("-"));
    assert!(!accepts("."));
    assert!(!accepts("+."));
}

#[test]
fn second_point_is_rejected() {
    assert!(!accepts("1.2.3"));
    assert!(!accepts("1..2"));
}

#[test]
fn second_sign_is_rejected() {
    assert!(!accepts("--1"));
    assert!(!accepts("1-"));
}

#[test]
fn letters_and_blanks_are_rejected() {
    assert!(!accepts("abc"));
    assert!(!accepts("12,50"));
    assert!(!accepts(" 1"));
    assert!(!accepts("1 "));
    assert!(!accepts("1e5"));
    assert!(!accepts("inf"));
    assert!(!accepts("NaN"));
}

#[test]
fn non_ascii_text_is_rejected() {
    assert!(!accepts("１２"));
    assert!(!accepts("1€"));
    assert!(!accepts("é"));
}

#[test]
fn duplicate_keeps_the_text() {
    let price = parse_price("3.14").unwrap();
    assert_eq!(price.duplicate().as_str(), "3.14");
}
