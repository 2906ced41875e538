use mapo::text::{decimal_value_text, integer_text};
use mapo::LabelText;

#[test]
fn integer_labels() {
    assert_eq!(0i64.label(), "0");
    assert_eq!(1234i64.label(), "1234");
    assert_eq!((-56i64).label(), "-56");
    assert_eq!(i64::MIN.label(), i64::MIN.to_string());
    assert_eq!(i64::MAX.label(), i64::MAX.to_string());
}

#[test]
fn string_labels() {
    assert_eq!("abc".label(), "abc");
    assert_eq!(String::from("é x").label(), "é x");
}

#[test]
fn decimal_values() {
    assert_eq!(decimal_value_text(5, 1), "0.5");
    assert_eq!(decimal_value_text(-5, 1), "-0.5");
    assert_eq!(decimal_value_text(1200, 3), "1.2");
    assert_eq!(decimal_value_text(100, 2), "1");
    assert_eq!(decimal_value_text(-100, 2), "-1");
    assert_eq!(decimal_value_text(7, 3), "0.007");
    assert_eq!(decimal_value_text(-123456, 2), "-1234.56");
    assert_eq!(decimal_value_text(0, 5), "0");
    assert_eq!(decimal_value_text(42, 0), "42");
    assert_eq!(integer_text(-170141183460469231731687303715884105727), "-170141183460469231731687303715884105727");
}
