//! The tagged value model: every runtime value carries exactly one of the
//! primitive categories of the language. A `Rational` is carried as the 64
//! raw bits of an IEEE 754 binary64 number, so that the equality engine can
//! state its treatment of `NaN` and of the two zeroes exactly.

use vstd::prelude::*;
use vstd::arithmetic::power2::{
    pow2, lemma_pow2_adds, lemma_pow2_pos, lemma_pow2_strictly_increases, lemma2_to64,
    lemma2_to64_rest,
};
use crate::bigint::BigInt;

verus! {

/// Exponent field of an IEEE 754 binary64 bit pattern.
pub const F64_EXP_MASK: u64 = 0x7FF0_0000_0000_0000;
/// Fraction (mantissa) field of an IEEE 754 binary64 bit pattern.
pub const F64_FRAC_MASK: u64 = 0x000F_FFFF_FFFF_FFFF;
/// Sign bit of an IEEE 754 binary64 bit pattern; also the bits of `-0.0`.
pub const F64_NEG_ZERO: u64 = 0x8000_0000_0000_0000;

/// A binary64 bit pattern denotes `NaN` when its exponent field is all ones
/// and its fraction field is not zero.
pub open spec fn f64_is_nan(bits: u64) -> bool {
    bits & F64_EXP_MASK == F64_EXP_MASK && bits & F64_FRAC_MASK != 0
}

/// A binary64 bit pattern denotes a zero exactly for the two patterns `+0.0`
/// and `-0.0`.
pub open spec fn f64_is_zero(bits: u64) -> bool {
    bits == 0 || bits == F64_NEG_ZERO
}

/// Runtime check mirroring [`f64_is_nan`].
pub fn rational_is_nan(bits: u64) -> (r: bool)
    ensures
        r == f64_is_nan(bits),
{
    bits & F64_EXP_MASK == F64_EXP_MASK && bits & F64_FRAC_MASK != 0
}

/// Runtime check mirroring [`f64_is_zero`].
pub fn rational_is_zero(bits: u64) -> (r: bool)
    ensures
        r == f64_is_zero(bits),
{
    bits == 0 || bits == F64_NEG_ZERO
}

/// Floor of the base-2 logarithm.
pub open spec fn ilog2(n: nat) -> nat
    decreases n,
{
    if n < 2 {
        0
    } else {
        1 + ilog2((n / 2) as nat)
    }
}

/// The binary64 bit pattern of a 32-bit signed integer, by place value: the
/// sign bit, then the biased exponent, then the fraction. Every such integer
/// is exactly representable, so this is the promotion the equality engine
/// applies to a mixed integer/rational pair.
pub open spec fn f64_bits_of_i32(i: int) -> u64
    recommends
        -0x8000_0000 <= i < 0x8000_0000,
{
    if i == 0 {
        0
    } else {
        let m = (if i < 0 { -i } else { i }) as nat;
        let p = ilog2(m);
        let sign: nat = if i < 0 { 1 } else { 0 };
        (sign * pow2(63) + (1023 + p) * pow2(52) + (m - pow2(p)) * pow2((52 - p) as nat)) as u64
    }
}

/// `pow2(e)` as a machine word.
pub fn pow2_u64(e: u64) -> (r: u64)
    requires
        e <= 63,
    ensures
        r as nat == pow2(e as nat),
{
    proof {
        lemma2_to64();
    }
    let mut r: u64 = 1;
    let mut j: u64 = 0;
    while j < e
        invariant
            j <= e <= 63,
            r as nat == pow2(j as nat),
        decreases e - j,
    {
        proof {
            lemma_pow2_adds(j as nat, 1);
            lemma2_to64();
            lemma2_to64_rest();
            lemma_pow2_strictly_increases(j as nat, 63);
        }
        r = r * 2;
        j = j + 1;
    }
    r
}

proof fn lemma_ilog2_mono(m: nat, e: nat)
    requires
        1 <= m < pow2(e),
    ensures
        ilog2(m) < e,
    decreases m,
{
    if m < 2 {
        if e == 0 {
            assert(pow2(0) == 1) by {
                lemma2_to64();
            }
        }
    } else {
        assert(e >= 1) by {
            if e == 0 {
                lemma2_to64();
            }
        }
        assert(pow2((e - 1) as nat) * 2 == pow2(e)) by {
            lemma_pow2_adds((e - 1) as nat, 1);
            lemma2_to64();
        }
        lemma_ilog2_mono((m / 2) as nat, (e - 1) as nat);
    }
}

/// Converts a 32-bit integer to the bit pattern of the binary64 number with
/// the same value.
pub fn i32_to_f64_bits(i: i32) -> (r: u64)
    ensures
        r == f64_bits_of_i32(i as int),
{
    if i == 0 {
        return 0;
    }
    let neg: bool = i < 0;
    let m: u64 = if i < 0 {
        (-(i as i64)) as u64
    } else {
        i as u64
    };
    assert(m == (if (i as int) < 0 { -(i as int) } else { i as int }));
    assert(1 <= m <= 0x8000_0000);
    let mut p: u64 = 0;
    let mut t: u64 = m;
    proof {
        lemma2_to64();
    }
    while t >= 2
        invariant
            1 <= t <= m <= 0x8000_0000,
            ilog2(m as nat) == p + ilog2(t as nat),
            pow2(p as nat) * t <= m as nat,
            (m as nat) < pow2(p as nat) * (t + 1),
            p <= 63,
        decreases t,
    {
        proof {
            lemma_pow2_adds(p as nat, 1);
            lemma2_to64();
            assert(pow2((p + 1) as nat) * (t / 2) <= pow2(p as nat) * t) by (nonlinear_arith)
                requires
                    pow2((p + 1) as nat) == pow2(p as nat) * 2,
                    t >= 2,
            ;
            assert(pow2(p as nat) * (t + 1) <= pow2((p + 1) as nat) * (t / 2 + 1))
                by (nonlinear_arith)
                requires
                    pow2((p + 1) as nat) == pow2(p as nat) * 2,
                    t >= 2,
            ;
            assert(pow2(p as nat) >= 1) by {
                lemma_pow2_pos(p as nat);
            }
            assert(pow2(p as nat) * t >= t) by (nonlinear_arith)
                requires
                    pow2(p as nat) >= 1,
                    t >= 0,
            ;
            if p + 1 > 63 {
                // impossible: pow2(p + 1) would exceed the range of m
                lemma_ilog2_mono(m as nat, 32);
                assert(m as nat >= pow2((p + 1) as nat));
                lemma_pow2_strictly_increases(32, (p + 1) as nat);
                assert((m as nat) < pow2(32)) by {
                    lemma2_to64();
                }
            }
        }
        t = t / 2;
        p = p + 1;
    }
    // t == 1, so p is the floor log of m
    assert(ilog2(m as nat) == p as nat);
    assert(pow2(p as nat) <= m as nat && (m as nat) < pow2(p as nat) * 2);
    proof {
        assert((m as nat) < pow2(32)) by {
            lemma2_to64();
        }
        lemma_ilog2_mono(m as nat, 32);
    }
    assert(p <= 31);
    let pw: u64 = pow2_u64(p);
    let frac_scale: u64 = pow2_u64(52 - p);
    let ghost mm: int = m as int;
    let ghost pwi: int = pw as int;
    let ghost fsi: int = frac_scale as int;
    proof {
        lemma_pow2_adds(p as nat, (52 - p) as nat);
        lemma_pow2_pos((52 - p) as nat);
        assert(pwi * fsi == pow2(52));
        assert(0 <= mm - pwi <= pwi - 1);
        assert((mm - pwi) * fsi <= (pwi - 1) * fsi) by (nonlinear_arith)
            requires
                mm - pwi <= pwi - 1,
                fsi >= 0,
        ;
        assert((pwi - 1) * fsi == pwi * fsi - fsi) by (nonlinear_arith);
        assert((mm - pwi) * fsi < pow2(52));
        assert((mm - pwi) * fsi >= 0) by (nonlinear_arith)
            requires
                mm - pwi >= 0,
                fsi >= 0,
        ;
        lemma2_to64();
        lemma2_to64_rest();
        assert((1023 + p) * 0x10_0000_0000_0000 <= 1054 * 0x10_0000_0000_0000);
    }
    let mantissa: u64 = (m - pw) * frac_scale;
    let expbits: u64 = (1023 + p) * 0x10_0000_0000_0000;
    if neg {
        let r: u64 = 0x8000_0000_0000_0000u64 + expbits + mantissa;
        assert(r == f64_bits_of_i32(i as int)) by {
            lemma2_to64();
            lemma2_to64_rest();
        }
        r
    } else {
        let r: u64 = expbits + mantissa;
        assert(r == f64_bits_of_i32(i as int)) by {
            lemma2_to64();
            lemma2_to64_rest();
        }
        r
    }
}

/// A runtime value: exactly one tag is active, and the numeric tags never
/// unify except through the equality engine's explicit promotion.
#[derive(Debug, PartialEq)]
pub enum Value {
    /// Absence of a value.
    Undefined,
    /// The null value.
    Null,
    /// A boolean.
    Boolean(bool),
    /// An exact 32-bit signed integer.
    Integer(i32),
    /// A double-precision floating-point number, carried as its raw bits.
    Rational(u64),
    /// An arbitrary-precision signed integer.
    BigInt(BigInt),
    /// Text.
    Str(String),
    /// An opaque object reference; equality is reference identity.
    Object(usize),
}

/// The mathematical shape of a [`Value`]: text as a sequence of characters,
/// a big integer as its numeric value.
pub enum AbstractValue {
    Undefined,
    Null,
    Boolean(bool),
    Integer(int),
    Rational(u64),
    BigInt(int),
    Str(Seq<char>),
    Object(int),
}

impl View for Value {
    type V = AbstractValue;

    open spec fn view(&self) -> AbstractValue {
        match self {
            Value::Undefined => AbstractValue::Undefined,
            Value::Null => AbstractValue::Null,
            Value::Boolean(b) => AbstractValue::Boolean(*b),
            Value::Integer(i) => AbstractValue::Integer(*i as int),
            Value::Rational(bits) => AbstractValue::Rational(*bits),
            Value::BigInt(b) => AbstractValue::BigInt(b@),
            Value::Str(s) => AbstractValue::Str(s@),
            Value::Object(o) => AbstractValue::Object(*o as int),
        }
    }
}

impl Value {
    /// A copy of the value, equal in the mathematical model.
    pub fn duplicate(&self) -> (r: Value)
        ensures
            r@ == self@,
    {
        match self {
            Value::Undefined => Value::Undefined,
            Value::Null => Value::Null,
            Value::Boolean(b) => Value::Boolean(*b),
            Value::Integer(i) => Value::Integer(*i),
            Value::Rational(bits) => Value::Rational(*bits),
            Value::BigInt(b) => Value::BigInt(b.duplicate()),
            Value::Str(s) => Value::Str(s.clone()),
            Value::Object(o) => Value::Object(*o),
        }
    }
}

} // verus!
