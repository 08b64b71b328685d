//! The equality engine: the three total equality relations of the language
//! — strict equality, `SameValue` and `SameValueZero` — over the full tagged
//! value space, and the conversion from text to a big integer.
//!
//! The three relations differ only in their treatment of `NaN` and of the
//! two floating-point zeroes; a mixed integer/rational pair is compared by
//! promoting the integer to its floating-point bit pattern.

use vstd::prelude::*;
use crate::bigint::{BigInt, is_bigint_literal, bigint_literal_value};
use crate::value::{
    AbstractValue, Value, f64_bits_of_i32, f64_is_nan, f64_is_zero, i32_to_f64_bits,
    rational_is_nan, rational_is_zero,
};

verus! {

/// Strict equality on binary64 bit patterns: `NaN` equals nothing, the two
/// zeroes are equal, and otherwise equal bits mean equal numbers.
pub open spec fn f64_eq(x: u64, y: u64) -> bool {
    !f64_is_nan(x) && !f64_is_nan(y) && (x == y || (f64_is_zero(x) && f64_is_zero(y)))
}

/// `SameValue` on binary64 bit patterns: every `NaN` equals every `NaN`,
/// and the two zeroes are distinct.
pub open spec fn f64_same_value(x: u64, y: u64) -> bool {
    (f64_is_nan(x) && f64_is_nan(y)) || x == y
}

/// `SameValueZero` on binary64 bit patterns: every `NaN` equals every
/// `NaN`, and the two zeroes are equal.
pub open spec fn f64_same_value_zero(x: u64, y: u64) -> bool {
    (f64_is_nan(x) && f64_is_nan(y)) || x == y || (f64_is_zero(x) && f64_is_zero(y))
}

/// The shared non-numeric part of all three relations: structural on the
/// absent, null, boolean and text categories, reference identity on
/// objects, false on every mismatched pair of tags.
pub open spec fn same_value_non_numeric_spec(x: AbstractValue, y: AbstractValue) -> bool {
    match (x, y) {
        (AbstractValue::Undefined, AbstractValue::Undefined) => true,
        (AbstractValue::Null, AbstractValue::Null) => true,
        (AbstractValue::Boolean(a), AbstractValue::Boolean(b)) => a == b,
        (AbstractValue::Str(a), AbstractValue::Str(b)) => a == b,
        (AbstractValue::Object(a), AbstractValue::Object(b)) => a == b,
        _ => false,
    }
}

/// Strict equality over abstract values.
pub open spec fn strict_equals_spec(x: AbstractValue, y: AbstractValue) -> bool {
    match (x, y) {
        (AbstractValue::BigInt(a), AbstractValue::BigInt(b)) => a == b,
        (AbstractValue::Rational(a), AbstractValue::Rational(b)) => f64_eq(a, b),
        (AbstractValue::Rational(a), AbstractValue::Integer(b)) => f64_eq(a, f64_bits_of_i32(b)),
        (AbstractValue::Integer(a), AbstractValue::Rational(b)) => f64_eq(f64_bits_of_i32(a), b),
        (AbstractValue::Integer(a), AbstractValue::Integer(b)) => a == b,
        _ => same_value_non_numeric_spec(x, y),
    }
}

/// `SameValue` over abstract values.
pub open spec fn same_value_spec(x: AbstractValue, y: AbstractValue) -> bool {
    match (x, y) {
        (AbstractValue::BigInt(a), AbstractValue::BigInt(b)) => a == b,
        (AbstractValue::Rational(a), AbstractValue::Rational(b)) => f64_same_value(a, b),
        (AbstractValue::Rational(a), AbstractValue::Integer(b)) => f64_same_value(
            a,
            f64_bits_of_i32(b),
        ),
        (AbstractValue::Integer(a), AbstractValue::Rational(b)) => f64_same_value(
            f64_bits_of_i32(a),
            b,
        ),
        (AbstractValue::Integer(a), AbstractValue::Integer(b)) => a == b,
        _ => same_value_non_numeric_spec(x, y),
    }
}

/// `SameValueZero` over abstract values.
pub open spec fn same_value_zero_spec(x: AbstractValue, y: AbstractValue) -> bool {
    match (x, y) {
        (AbstractValue::BigInt(a), AbstractValue::BigInt(b)) => a == b,
        (AbstractValue::Rational(a), AbstractValue::Rational(b)) => f64_same_value_zero(a, b),
        (AbstractValue::Rational(a), AbstractValue::Integer(b)) => f64_same_value_zero(
            a,
            f64_bits_of_i32(b),
        ),
        (AbstractValue::Integer(a), AbstractValue::Rational(b)) => f64_same_value_zero(
            f64_bits_of_i32(a),
            b,
        ),
        (AbstractValue::Integer(a), AbstractValue::Integer(b)) => a == b,
        _ => same_value_non_numeric_spec(x, y),
    }
}

fn same_value_non_numeric(x: &Value, y: &Value) -> (r: bool)
    ensures
        r == same_value_non_numeric_spec(x@, y@),
{
    match (x, y) {
        (Value::Undefined, Value::Undefined) => true,
        (Value::Null, Value::Null) => true,
        (Value::Boolean(a), Value::Boolean(b)) => *a == *b,
        (Value::Str(a), Value::Str(b)) => a.eq(b),
        (Value::Object(a), Value::Object(b)) => *a == *b,
        _ => false,
    }
}

fn rational_eq(a: u64, b: u64) -> (r: bool)
    ensures
        r == f64_eq(a, b),
{
    !rational_is_nan(a) && !rational_is_nan(b) && (a == b || (rational_is_zero(a)
        && rational_is_zero(b)))
}

fn rational_same_value(a: u64, b: u64) -> (r: bool)
    ensures
        r == f64_same_value(a, b),
{
    (rational_is_nan(a) && rational_is_nan(b)) || a == b
}

fn rational_same_value_zero(a: u64, b: u64) -> (r: bool)
    ensures
        r == f64_same_value_zero(a, b),
{
    (rational_is_nan(a) && rational_is_nan(b)) || a == b || (rational_is_zero(a)
        && rational_is_zero(b))
}

impl Value {
    /// Strict equality: false on mismatched tags (null never reaches the
    /// object path), numeric categories by value with `+0 == -0` and `NaN`
    /// unequal to everything, objects by reference identity.
    pub fn equals(&self, other: &Self) -> (r: bool)
        ensures
            r == strict_equals_spec(self@, other@),
    {
        match (self, other) {
            (Value::BigInt(x), Value::BigInt(y)) => BigInt::equal(x, y),
            (Value::Rational(x), Value::Rational(y)) => rational_eq(*x, *y),
            (Value::Rational(x), Value::Integer(y)) => rational_eq(*x, i32_to_f64_bits(*y)),
            (Value::Integer(x), Value::Rational(y)) => rational_eq(i32_to_f64_bits(*x), *y),
            (Value::Integer(x), Value::Integer(y)) => *x == *y,
            (Value::Null, Value::Null) => true,
            (_, _) => same_value_non_numeric(self, other),
        }
    }
}

/// The `SameValue` comparison: as strict equality, except that every `NaN`
/// is the same value as every `NaN` and `+0` is not the same value as `-0`.
pub fn same_value(x: &Value, y: &Value) -> (r: bool)
    ensures
        r == same_value_spec(x@, y@),
{
    match (x, y) {
        (Value::BigInt(a), Value::BigInt(b)) => BigInt::same_value(a, b),
        (Value::Rational(a), Value::Rational(b)) => rational_same_value(*a, *b),
        (Value::Rational(a), Value::Integer(b)) => rational_same_value(*a, i32_to_f64_bits(*b)),
        (Value::Integer(a), Value::Rational(b)) => rational_same_value(i32_to_f64_bits(*a), *b),
        (Value::Integer(a), Value::Integer(b)) => *a == *b,
        (_, _) => same_value_non_numeric(x, y),
    }
}

/// The `SameValueZero` comparison: as `SameValue`, except that `+0` is the
/// same value as `-0`.
pub fn same_value_zero(x: &Value, y: &Value) -> (r: bool)
    ensures
        r == same_value_zero_spec(x@, y@),
{
    match (x, y) {
        (Value::BigInt(a), Value::BigInt(b)) => BigInt::same_value_zero(a, b),
        (Value::Rational(a), Value::Rational(b)) => rational_same_value_zero(*a, *b),
        (Value::Rational(a), Value::Integer(b)) => rational_same_value_zero(
            *a,
            i32_to_f64_bits(*b),
        ),
        (Value::Integer(a), Value::Rational(b)) => rational_same_value_zero(
            i32_to_f64_bits(*a),
            *b,
        ),
        (Value::Integer(a), Value::Integer(b)) => *a == *b,
        (_, _) => same_value_non_numeric(x, y),
    }
}

/// Converts text to a big integer: the empty text yields zero, any other
/// text is read under the integer-literal grammar, and text outside that
/// grammar yields no value.
pub fn string_to_bigint(string: &str) -> (r: Option<BigInt>)
    ensures
        r is Some <==> is_bigint_literal(string@),
        r matches Some(b) ==> b@ == bigint_literal_value(string@),
{
    if string.unicode_len() == 0 {
        return Some(BigInt::zero());
    }
    BigInt::from_str(string)
}

/// The bits a numeric value contributes when a mixed pair is compared: a
/// rational's own bits, an integer's promoted bits.
pub open spec fn promoted_bits(v: AbstractValue) -> u64
    recommends
        v is Integer || v is Rational,
{
    match v {
        AbstractValue::Integer(i) => f64_bits_of_i32(i),
        AbstractValue::Rational(bits) => bits,
        _ => 0,
    }
}

/// The two zero bit patterns are not `NaN` patterns.
proof fn lemma_zero_not_nan()
    ensures
        !f64_is_nan(0u64),
        !f64_is_nan(0x8000_0000_0000_0000u64),
{
    assert(0u64 & 0x7FF0_0000_0000_0000u64 == 0u64) by (bit_vector);
    assert(0x8000_0000_0000_0000u64 & 0x7FF0_0000_0000_0000u64 == 0u64) by (bit_vector);
}

/// On pairs of numeric values of which at least one is a rational, the
/// three relations compare the promoted bit patterns: strict equality
/// identifies the two zeroes and never accepts `NaN`; `SameValue` disagrees
/// with strict equality exactly on a pair of distinct zero patterns — where
/// strict equality holds and `SameValue` does not — and on a pair of `NaN`
/// patterns, where `SameValue` holds and strict equality does not;
/// `SameValueZero` accepts both those pairs. On a pair of integers all
/// three relations are numeric equality and never disagree.
pub proof fn lemma_numeric_equality_relations(x: AbstractValue, y: AbstractValue)
    requires
        x is Integer || x is Rational,
        y is Integer || y is Rational,
    ensures
        (x is Rational || y is Rational) ==> {
            let a = promoted_bits(x);
            let b = promoted_bits(y);
            &&& strict_equals_spec(x, y) == f64_eq(a, b)
            &&& same_value_spec(x, y) == f64_same_value(a, b)
            &&& same_value_zero_spec(x, y) == f64_same_value_zero(a, b)
            &&& (same_value_spec(x, y) != strict_equals_spec(x, y) <==> ((f64_is_nan(a)
                && f64_is_nan(b)) || (f64_is_zero(a) && f64_is_zero(b) && a != b)))
            &&& ((f64_is_nan(a) && f64_is_nan(b)) ==> same_value_zero_spec(x, y))
            &&& ((f64_is_zero(a) && f64_is_zero(b)) ==> same_value_zero_spec(x, y)
                && strict_equals_spec(x, y))
        },
        (x is Integer && y is Integer) ==> {
            &&& strict_equals_spec(x, y) == (x->Integer_0 == y->Integer_0)
            &&& same_value_spec(x, y) == strict_equals_spec(x, y)
            &&& same_value_zero_spec(x, y) == strict_equals_spec(x, y)
        },
{
    lemma_zero_not_nan();
    match (x, y) {
        (AbstractValue::Integer(a), AbstractValue::Rational(b)) => {
            assert(promoted_bits(x) == f64_bits_of_i32(a));
            assert(promoted_bits(y) == b);
        }
        (AbstractValue::Rational(a), AbstractValue::Integer(b)) => {
            assert(promoted_bits(x) == a);
            assert(promoted_bits(y) == f64_bits_of_i32(b));
        }
        (AbstractValue::Rational(a), AbstractValue::Rational(b)) => {
            assert(promoted_bits(x) == a);
            assert(promoted_bits(y) == b);
        }
        _ => {}
    }
}

/// Strict equality on two object references holds exactly when the two
/// refer to the identical object, never by structural content.
pub proof fn lemma_object_identity(x: AbstractValue, y: AbstractValue)
    requires
        x is Object,
        y is Object,
    ensures
        strict_equals_spec(x, y) == (x->Object_0 == y->Object_0),
        same_value_spec(x, y) == strict_equals_spec(x, y),
        same_value_zero_spec(x, y) == strict_equals_spec(x, y),
{
}

} // verus!
