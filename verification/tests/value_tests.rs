use docindex::text::{chars_of, lower_chars, contains_token, lex_cmp};
use docindex::values::{parse_i64, parse_bool};
use docindex::decimal::{parse_float, float_cmp, FloatVal};

fn cs(s: &str) -> Vec<char> {
    chars_of(s)
}

#[test]
fn parse_i64_plain() {
    assert_eq!(parse_i64(&cs("0")), Some(0));
    assert_eq!(parse_i64(&cs("42")), Some(42));
    assert_eq!(parse_i64(&cs("-17")), Some(-17));
    assert_eq!(parse_i64(&cs("+9")), Some(9));
    assert_eq!(parse_i64(&cs("0007")), Some(7));
}

#[test]
fn parse_i64_limits() {
    assert_eq!(parse_i64(&cs("9223372036854775807")), Some(i64::MAX));
    assert_eq!(parse_i64(&cs("-9223372036854775808")), Some(i64::MIN));
    assert_eq!(parse_i64(&cs("9223372036854775808")), None);
    assert_eq!(parse_i64(&cs("-9223372036854775809")), None);
}

#[test]
fn parse_i64_rejects() {
    assert_eq!(parse_i64(&cs("")), None);
    assert_eq!(parse_i64(&cs("-")), None);
    assert_eq!(parse_i64(&cs("12a")), None);
    assert_eq!(parse_i64(&cs("1.5")), None);
    assert_eq!(parse_i64(&cs(" 3")), None);
}

#[test]
fn parse_bool_cases() {
    assert_eq!(parse_bool(&cs("true")), Some(true));
    assert_eq!(parse_bool(&cs("TRUE")), Some(true));
    assert_eq!(parse_bool(&cs("False")), Some(false));
    assert_eq!(parse_bool(&cs("yes")), None);
    assert_eq!(parse_bool(&cs("")), None);
}

fn fv(s: &str) -> FloatVal {
    parse_float(&cs(s)).expect("float literal should parse")
}

#[test]
fn parse_float_accepts() {
    assert!(parse_float(&cs("0")).is_some());
    assert!(parse_float(&cs("10.5")).is_some());
    assert!(parse_float(&cs("-3.25e2")).is_some());
    assert!(parse_float(&cs(".5")).is_some());
    assert!(parse_float(&cs("5.")).is_some());
    assert!(parse_float(&cs("inf")).is_some());
    assert!(parse_float(&cs("-Infinity")).is_some());
    assert!(parse_float(&cs("NaN")).is_some());
}

#[test]
fn parse_float_rejects() {
    assert!(parse_float(&cs("")).is_none());
    assert!(parse_float(&cs(".")).is_none());
    assert!(parse_float(&cs("1e")).is_none());
    assert!(parse_float(&cs("1.2.3")).is_none());
    assert!(parse_float(&cs("ten")).is_none());
}

#[test]
fn float_order_basic() {
    // equal values written differently compare equal
    assert_eq!(float_cmp(&fv("10.5"), &fv("10.50")), 1);
    assert_eq!(float_cmp(&fv("1e3"), &fv("1000")), 1);
    assert_eq!(float_cmp(&fv("0"), &fv("0.000")), 1);
    // numeric order, not digit-string order
    assert_eq!(float_cmp(&fv("2"), &fv("10")), 0);
    assert_eq!(float_cmp(&fv("-1"), &fv("0")), 0);
    assert_eq!(float_cmp(&fv("-10"), &fv("-2")), 0);
    assert_eq!(float_cmp(&fv("0.5"), &fv("0.25")), 2);
}

#[test]
fn float_order_specials() {
    assert_eq!(float_cmp(&fv("-inf"), &fv("-1e300")), 0);
    assert_eq!(float_cmp(&fv("1e300"), &fv("inf")), 0);
    assert_eq!(float_cmp(&fv("inf"), &fv("nan")), 0);
    assert_eq!(float_cmp(&fv("inf"), &fv("infinity")), 1);
}

#[test]
fn lex_cmp_order() {
    assert_eq!(lex_cmp(&cs("apple"), &cs("banana")), 0);
    assert_eq!(lex_cmp(&cs("apple"), &cs("apple")), 1);
    assert_eq!(lex_cmp(&cs("applesauce"), &cs("apple")), 2);
    assert_eq!(lex_cmp(&cs(""), &cs("a")), 0);
}

#[test]
fn token_containment() {
    let text = cs("Super Broom 2000");
    assert!(contains_token(&text, &lower_chars(&cs("Broom"))));
    assert!(contains_token(&text, &cs("broom")));
    assert!(contains_token(&text, &cs("2000")));
    assert!(!contains_token(&text, &cs("broo")));
    assert!(!contains_token(&text, &cs("mole")));
}
