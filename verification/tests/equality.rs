use boa_core::bigint::BigInt;
use boa_core::equality::{same_value, same_value_zero, string_to_bigint};
use boa_core::value::Value;

fn rational(x: f64) -> Value {
    Value::Rational(x.to_bits())
}

#[test]
fn strict_equality_identifies_the_two_zeroes() {
    let pz = rational(0.0);
    let nz = rational(-0.0);
    assert!(pz.equals(&nz));
    assert!(nz.equals(&pz));
    assert!(!same_value(&pz, &nz));
    assert!(!same_value(&nz, &pz));
    assert!(same_value_zero(&pz, &nz));
    assert!(same_value(&pz, &pz));
    assert!(same_value(&nz, &nz));
}

#[test]
fn nan_is_never_strictly_equal_but_is_the_same_value() {
    let nan = rational(f64::NAN);
    assert!(!nan.equals(&nan));
    assert!(same_value(&nan, &nan));
    assert!(same_value_zero(&nan, &nan));
    let one = rational(1.0);
    assert!(!nan.equals(&one));
    assert!(!same_value(&nan, &one));
    assert!(!same_value_zero(&nan, &one));
}

#[test]
fn plain_rationals_compare_by_bits() {
    assert!(rational(1.5).equals(&rational(1.5)));
    assert!(!rational(1.5).equals(&rational(2.5)));
    assert!(same_value(&rational(1.5), &rational(1.5)));
    assert!(same_value_zero(&rational(1.5), &rational(1.5)));
}

#[test]
fn mixed_integer_rational_pairs_promote_the_integer() {
    assert!(Value::Integer(2).equals(&rational(2.0)));
    assert!(rational(2.0).equals(&Value::Integer(2)));
    assert!(!Value::Integer(2).equals(&rational(2.5)));
    assert!(Value::Integer(-7).equals(&rational(-7.0)));
    assert!(Value::Integer(i32::MIN).equals(&rational(-2147483648.0)));
    assert!(Value::Integer(i32::MAX).equals(&rational(2147483647.0)));
    assert!(Value::Integer(1).equals(&rational(1.0)));
    assert!(!Value::Integer(1).equals(&rational(f64::NAN)));
}

#[test]
fn integer_zero_against_the_rational_zeroes() {
    assert!(Value::Integer(0).equals(&rational(0.0)));
    assert!(Value::Integer(0).equals(&rational(-0.0)));
    assert!(same_value(&Value::Integer(0), &rational(0.0)));
    assert!(!same_value(&Value::Integer(0), &rational(-0.0)));
    assert!(same_value_zero(&Value::Integer(0), &rational(-0.0)));
}

#[test]
fn integers_compare_exactly() {
    assert!(Value::Integer(5).equals(&Value::Integer(5)));
    assert!(!Value::Integer(5).equals(&Value::Integer(6)));
    assert!(same_value(&Value::Integer(5), &Value::Integer(5)));
    assert!(same_value_zero(&Value::Integer(5), &Value::Integer(5)));
}

#[test]
fn mismatched_tags_are_never_equal() {
    assert!(!Value::Integer(1).equals(&Value::Boolean(true)));
    assert!(!Value::Null.equals(&Value::Undefined));
    assert!(!Value::Null.equals(&Value::Object(0)));
    assert!(!Value::BigInt(BigInt::from_i64(2)).equals(&Value::Integer(2)));
    assert!(!Value::Str("1".to_string()).equals(&Value::Integer(1)));
}

#[test]
fn non_numeric_categories_compare_structurally() {
    assert!(Value::Null.equals(&Value::Null));
    assert!(Value::Undefined.equals(&Value::Undefined));
    assert!(Value::Boolean(true).equals(&Value::Boolean(true)));
    assert!(!Value::Boolean(true).equals(&Value::Boolean(false)));
    assert!(Value::Str("abc".to_string()).equals(&Value::Str("abc".to_string())));
    assert!(!Value::Str("abc".to_string()).equals(&Value::Str("abd".to_string())));
}

#[test]
fn objects_compare_by_reference_identity_only() {
    assert!(Value::Object(3).equals(&Value::Object(3)));
    assert!(!Value::Object(3).equals(&Value::Object(4)));
    assert!(same_value(&Value::Object(3), &Value::Object(3)));
    assert!(same_value_zero(&Value::Object(3), &Value::Object(3)));
    assert!(!same_value(&Value::Object(3), &Value::Object(4)));
}

#[test]
fn bigints_compare_by_arithmetic_value() {
    let a = Value::BigInt(BigInt::from_i64(12345));
    let b = Value::BigInt(BigInt::from_i64(12345));
    let c = Value::BigInt(BigInt::from_i64(-12345));
    assert!(a.equals(&b));
    assert!(!a.equals(&c));
    assert!(same_value(&a, &b));
    assert!(same_value_zero(&a, &b));
}

#[test]
fn string_to_bigint_empty_is_zero() {
    let z = string_to_bigint("").unwrap();
    assert_eq!(z, BigInt::from_i64(0));
    assert!(BigInt::equal(&z, &BigInt::zero()));
}

#[test]
fn string_to_bigint_reads_decimal_literals() {
    assert_eq!(string_to_bigint("42").unwrap(), BigInt::from_i64(42));
    assert_eq!(string_to_bigint("+17").unwrap(), BigInt::from_i64(17));
    assert_eq!(string_to_bigint("-9001").unwrap(), BigInt::from_i64(-9001));
    assert_eq!(string_to_bigint("007").unwrap(), BigInt::from_i64(7));
    assert_eq!(string_to_bigint("-0").unwrap(), BigInt::from_i64(0));
    assert_eq!(
        string_to_bigint("123456789012345678").unwrap(),
        BigInt::from_i64(123456789012345678)
    );
}

#[test]
fn string_to_bigint_rejects_everything_else() {
    assert_eq!(string_to_bigint("abc"), None);
    assert_eq!(string_to_bigint("12x"), None);
    assert_eq!(string_to_bigint("-"), None);
    assert_eq!(string_to_bigint("+"), None);
    assert_eq!(string_to_bigint(" 1"), None);
    assert_eq!(string_to_bigint("1.5"), None);
}

#[test]
fn bigint_same_value_relations_agree_with_equal() {
    let a = BigInt::from_i64(99);
    let b = BigInt::from_i64(99);
    let c = BigInt::from_i64(-99);
    assert!(BigInt::same_value(&a, &b));
    assert!(BigInt::same_value_zero(&a, &b));
    assert!(!BigInt::same_value(&a, &c));
}
