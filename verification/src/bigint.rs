//! Arbitrary-precision signed integers, held in canonical form: decimal
//! digits with the least significant first, no trailing zero digit, and a
//! sign flag that is never set on zero. Canonical form makes structural
//! equality coincide with numeric equality.

use vstd::prelude::*;
use vstd::string::StrSliceExecFns;

verus! {

/// Numeric value of a least-significant-first sequence of decimal digits.
pub open spec fn digits_value(s: Seq<u8>) -> int
    decreases s.len(),
{
    if s.len() == 0 {
        0
    } else {
        s[0] + 10 * digits_value(s.drop_first())
    }
}

/// Powers of ten.
pub open spec fn pow10(n: nat) -> int
    decreases n,
{
    if n == 0 {
        1
    } else {
        10 * pow10((n - 1) as nat)
    }
}

/// The digit sequence is canonical: every entry is a decimal digit and the
/// most significant digit, when present, is not zero.
pub open spec fn digits_canonical(s: Seq<u8>) -> bool {
    (forall|i: int| 0 <= i < s.len() ==> s[i] < 10) && (s.len() > 0 ==> s[s.len() - 1] != 0)
}

pub proof fn lemma_digits_value_nonneg(s: Seq<u8>)
    ensures
        digits_value(s) >= 0,
    decreases s.len(),
{
    if s.len() > 0 {
        lemma_digits_value_nonneg(s.drop_first());
    }
}

pub proof fn lemma_digits_value_positive(s: Seq<u8>)
    requires
        digits_canonical(s),
        s.len() > 0,
    ensures
        digits_value(s) >= 1,
    decreases s.len(),
{
    assert(digits_value(s) == s[0] + 10 * digits_value(s.drop_first()));
    if s.len() == 1 {
        assert(s.drop_first().len() == 0);
        assert(s[0] == s[s.len() - 1]);
    } else {
        let rest = s.drop_first();
        assert(forall|i: int| 0 <= i < rest.len() ==> rest[i] < 10);
        assert(rest[rest.len() - 1] == s[s.len() - 1]);
        lemma_digits_value_positive(rest);
    }
}

/// Canonical digit sequences are uniquely determined by their value.
pub proof fn lemma_digits_value_injective(a: Seq<u8>, b: Seq<u8>)
    requires
        digits_canonical(a),
        digits_canonical(b),
        digits_value(a) == digits_value(b),
    ensures
        a == b,
    decreases a.len(),
{
    if a.len() == 0 && b.len() == 0 {
        assert(a =~= b);
    } else if a.len() == 0 {
        lemma_digits_value_positive(b);
    } else if b.len() == 0 {
        lemma_digits_value_positive(a);
    } else {
        let ar = a.drop_first();
        let br = b.drop_first();
        lemma_digits_value_nonneg(ar);
        lemma_digits_value_nonneg(br);
        assert(a[0] + 10 * digits_value(ar) == b[0] + 10 * digits_value(br));
        assert(a[0] < 10 && b[0] < 10);
        assert(digits_value(ar) == digits_value(br));
        assert(a[0] == b[0]);
        assert(forall|i: int| 0 <= i < ar.len() ==> ar[i] < 10);
        assert(forall|i: int| 0 <= i < br.len() ==> br[i] < 10);
        if ar.len() > 0 {
            assert(ar[ar.len() - 1] == a[a.len() - 1]);
        }
        if br.len() > 0 {
            assert(br[br.len() - 1] == b[b.len() - 1]);
        }
        lemma_digits_value_injective(ar, br);
        assert forall|i: int| 0 <= i < a.len() implies a[i] == b[i] by {
            if i >= 1 {
                assert(ar[i - 1] == br[i - 1]);
            }
        }
        assert(a =~= b);
    }
}

/// Appending a more significant digit adds its place value.
proof fn lemma_digits_value_push(s: Seq<u8>, d: u8)
    ensures
        digits_value(s.push(d)) == digits_value(s) + d * pow10(s.len()),
    decreases s.len(),
{
    if s.len() == 0 {
        assert(s.push(d).drop_first() =~= s);
    } else {
        assert(s.push(d).drop_first() =~= s.drop_first().push(d));
        lemma_digits_value_push(s.drop_first(), d);
        assert(10 * (digits_value(s.drop_first()) + d * pow10((s.len() - 1) as nat))
            == 10 * digits_value(s.drop_first()) + d * (10 * pow10((s.len() - 1) as nat)))
            by (nonlinear_arith);
    }
}

/// A trailing zero digit does not change the value.
proof fn lemma_digits_drop_trailing_zero(s: Seq<u8>)
    requires
        s.len() > 0,
        s[s.len() - 1] == 0,
    ensures
        digits_value(s) == digits_value(s.drop_last()),
    decreases s.len(),
{
    assert(digits_value(s) == s[0] + 10 * digits_value(s.drop_first()));
    if s.len() == 1 {
        assert(s.drop_last().len() == 0);
        assert(s.drop_first().len() == 0);
        assert(s[0] == 0);
    } else {
        let rest = s.drop_first();
        assert(rest[rest.len() - 1] == 0);
        lemma_digits_drop_trailing_zero(rest);
        assert(rest.drop_last() =~= s.drop_last().drop_first());
        assert(s.drop_last().len() > 0);
        assert(s.drop_last()[0] == s[0]);
        assert(digits_value(s.drop_last()) == s.drop_last()[0] + 10 * digits_value(
            s.drop_last().drop_first(),
        ));
    }
}

/// An arbitrary-precision signed integer.
#[derive(Debug, PartialEq)]
pub struct BigInt {
    negative: bool,
    digits: Vec<u8>,
}

impl View for BigInt {
    type V = int;

    closed spec fn view(&self) -> int {
        if self.negative {
            -digits_value(self.digits@)
        } else {
            digits_value(self.digits@)
        }
    }
}

fn copy_digits(v: &Vec<u8>) -> (r: Vec<u8>)
    ensures
        r@ == v@,
{
    let mut r: Vec<u8> = Vec::new();
    let mut i: usize = 0;
    while i < v.len()
        invariant
            i <= v.len(),
            r@ == v@.take(i as int),
        decreases v.len() - i,
    {
        r.push(v[i]);
        proof {
            assert(r@ =~= v@.take(i + 1));
        }
        i = i + 1;
    }
    proof {
        assert(v@.take(v@.len() as int) =~= v@);
    }
    r
}

fn digits_eq(a: &Vec<u8>, b: &Vec<u8>) -> (r: bool)
    ensures
        r == (a@ == b@),
{
    if a.len() != b.len() {
        return false;
    }
    let mut i: usize = 0;
    while i < a.len()
        invariant
            i <= a.len(),
            a@.len() == b@.len(),
            forall|j: int| 0 <= j < i ==> a@[j] == b@[j],
        decreases a.len() - i,
    {
        if a[i] != b[i] {
            return false;
        }
        i = i + 1;
    }
    proof {
        assert(a@ =~= b@);
    }
    true
}

impl BigInt {
    #[verifier::type_invariant]
    spec fn canonical(self) -> bool {
        digits_canonical(self.digits@) && (self.negative ==> self.digits@.len() > 0)
    }

    /// The integer zero.
    pub fn zero() -> (r: BigInt)
        ensures
            r@ == 0,
    {
        let digits: Vec<u8> = Vec::new();
        BigInt { negative: false, digits }
    }

    /// The big integer with the value of the given machine integer.
    pub fn from_i64(v: i64) -> (r: BigInt)
        ensures
            r@ == v as int,
    {
        let negative: bool = v < 0;
        let mut n: u64 = if v < 0 {
            (-(v as i128)) as u64
        } else {
            v as u64
        };
        let ghost m: int = n as int;
        assert(m == if v < 0 { -(v as int) } else { v as int });
        let mut digits: Vec<u8> = Vec::new();
        let ghost mut scale: int = 1;
        while n > 0
            invariant
                scale == pow10(digits@.len()),
                digits_value(digits@) + n as int * scale == m,
                forall|i: int| 0 <= i < digits@.len() ==> digits@[i] < 10,
                digits@.len() > 0 && n == 0 ==> digits@[digits@.len() - 1] != 0,
            decreases n,
        {
            let d: u8 = (n % 10) as u8;
            let ghost pre = digits@;
            let ghost n0: int = n as int;
            proof {
                lemma_digits_value_push(pre, d);
            }
            digits.push(d);
            n = n / 10;
            proof {
                assert(digits_value(pre.push(d)) == digits_value(pre) + d * scale);
                assert(d + 10 * (n0 / 10) == n0) by {
                    assert(n0 % 10 == d);
                }
                assert(digits_value(pre) + d * scale + (n0 / 10) * (10 * scale) == digits_value(
                    pre,
                ) + (d + 10 * (n0 / 10)) * scale) by (nonlinear_arith);
                scale = scale * 10;
            }
        }
        assert(digits_value(digits@) == m);
        proof {
            if negative {
                lemma_digits_value_nonneg(digits@);
                assert(m >= 1);
                assert(digits@.len() > 0);
            }
        }
        BigInt { negative, digits }
    }

    /// Whether the integer is strictly negative.
    pub fn is_negative(&self) -> (r: bool)
        ensures
            r == (self@ < 0),
    {
        proof {
            use_type_invariant(self);
            if self.negative {
                lemma_digits_value_positive(self.digits@);
            } else {
                lemma_digits_value_nonneg(self.digits@);
            }
        }
        self.negative
    }

    /// The decimal digits of the magnitude, least significant first and in
    /// canonical form.
    pub fn digit_values(&self) -> (r: &Vec<u8>)
        ensures
            digits_canonical(r@),
            digits_value(r@) == if self@ < 0 {
                -self@
            } else {
                self@
            },
    {
        proof {
            use_type_invariant(self);
            if self.negative {
                lemma_digits_value_positive(self.digits@);
            } else {
                lemma_digits_value_nonneg(self.digits@);
            }
        }
        &self.digits
    }

    /// A copy of the big integer, equal in value.
    pub fn duplicate(&self) -> (r: BigInt)
        ensures
            r@ == self@,
    {
        proof {
            use_type_invariant(self);
        }
        let digits = copy_digits(&self.digits);
        BigInt { negative: self.negative, digits }
    }

    /// Numeric equality; in canonical form this is structural equality.
    pub fn equal(x: &BigInt, y: &BigInt) -> (r: bool)
        ensures
            r == (x@ == y@),
    {
        proof {
            use_type_invariant(x);
            use_type_invariant(y);
            if x@ == y@ {
                if x.negative == y.negative {
                    lemma_digits_value_injective(x.digits@, y.digits@);
                } else {
                    if x.negative {
                        lemma_digits_value_positive(x.digits@);
                        lemma_digits_value_nonneg(y.digits@);
                    } else {
                        lemma_digits_value_positive(y.digits@);
                        lemma_digits_value_nonneg(x.digits@);
                    }
                }
            }
        }
        if x.negative != y.negative {
            return false;
        }
        digits_eq(&x.digits, &y.digits)
    }

    /// The `SameValue` relation on big integers: numeric equality.
    pub fn same_value(x: &BigInt, y: &BigInt) -> (r: bool)
        ensures
            r == (x@ == y@),
    {
        BigInt::equal(x, y)
    }

    /// The `SameValueZero` relation on big integers: numeric equality.
    pub fn same_value_zero(x: &BigInt, y: &BigInt) -> (r: bool)
        ensures
            r == (x@ == y@),
    {
        BigInt::equal(x, y)
    }
}

/// A character is a decimal digit.
pub open spec fn is_digit_char(c: char) -> bool {
    48 <= (c as u32) <= 57
}

/// The numeric value of a decimal digit character.
pub open spec fn digit_of_char(c: char) -> int {
    c as u32 - 48
}

/// A non-empty run of decimal digit characters.
pub open spec fn is_dec_digits(s: Seq<char>) -> bool {
    s.len() > 0 && forall|i: int| 0 <= i < s.len() ==> is_digit_char(s[i])
}

/// Value of a most-significant-first run of decimal digit characters.
pub open spec fn dec_digits_value(s: Seq<char>) -> int
    decreases s.len(),
{
    if s.len() == 0 {
        0
    } else {
        dec_digits_value(s.drop_last()) * 10 + digit_of_char(s.last())
    }
}

/// The integer-literal grammar accepted when a text value is converted to a
/// big integer: empty, or an optional sign followed by decimal digits.
pub open spec fn is_bigint_literal(s: Seq<char>) -> bool {
    if s.len() == 0 {
        true
    } else if s[0] == '+' || s[0] == '-' {
        is_dec_digits(s.drop_first())
    } else {
        is_dec_digits(s)
    }
}

/// The value denoted by a well-formed integer literal; the empty text
/// denotes zero.
pub open spec fn bigint_literal_value(s: Seq<char>) -> int {
    if s.len() == 0 {
        0
    } else if s[0] == '-' {
        -dec_digits_value(s.drop_first())
    } else if s[0] == '+' {
        dec_digits_value(s.drop_first())
    } else {
        dec_digits_value(s)
    }
}

impl BigInt {
    /// Parses an integer literal: an optional `+` or `-` sign followed by at
    /// least one decimal digit. Any other text yields no value.
    #[verifier::loop_isolation(false)]
    pub fn from_str(s: &str) -> (r: Option<BigInt>)
        ensures
            r is Some <==> s@.len() > 0 && is_bigint_literal(s@),
            r matches Some(b) ==> b@ == bigint_literal_value(s@),
    {
        let n: usize = s.unicode_len();
        if n == 0 {
            return None;
        }
        let c0: char = s.get_char(0);
        let negative: bool = c0 == '-';
        let start: usize = if c0 == '-' || c0 == '+' {
            1
        } else {
            0
        };
        if start == n {
            return None;
        }
        let ghost body = s@.subrange(start as int, n as int);
        proof {
            if start == 1 {
                assert(body =~= s@.drop_first());
            } else {
                assert(body =~= s@);
            }
        }
        let mut digits: Vec<u8> = Vec::new();
        let mut i: usize = start;
        while i < n
            invariant
                start <= i <= n,
                n == s@.len(),
                start == 0 || start == 1,
                body == s@.subrange(start as int, n as int),
                digits@.len() == i - start,
                forall|j: int| 0 <= j < digits@.len() ==> digits@[j] < 10,
                forall|j: int| start <= j < i ==> is_digit_char(s@[j]),
                digits_value(digits@) == dec_digits_value(s@.subrange(start as int, i as int)),
            decreases n - i,
        {
            let c: char = s.get_char(i);
            let cu: u32 = c as u32;
            if cu < 48 || cu > 57 {
                proof {
                    assert(body[i - start] == s@[i as int]);
                    assert(!is_digit_char(body[i - start]));
                    assert(!is_dec_digits(body));
                    if start == 1 {
                        assert(body == s@.drop_first());
                        assert(!is_bigint_literal(s@));
                    } else {
                        assert(body == s@);
                        assert(s@[0] != '+' && s@[0] != '-');
                        assert(!is_bigint_literal(s@));
                    }
                }
                return None;
            }
            let d: u8 = (cu - 48) as u8;
            let ghost pre = digits@;
            digits.insert(0, d);
            proof {
                assert(digits@ =~= seq![d].add(pre));
                assert(digits@.drop_first() =~= pre);
                assert(digits_value(digits@) == d + 10 * digits_value(pre));
                let piece = s@.subrange(start as int, i + 1);
                assert(piece.drop_last() =~= s@.subrange(start as int, i as int));
                assert(piece.last() == s@[i as int]);
            }
            i = i + 1;
        }
        proof {
            assert(s@.subrange(start as int, n as int) == body);
            assert(is_dec_digits(body));
            assert(digits_value(digits@) == dec_digits_value(body));
        }
        // canonicalize: strip zero digits at the significant end
        while digits.len() > 0 && digits[digits.len() - 1] == 0
            invariant
                forall|j: int| 0 <= j < digits@.len() ==> digits@[j] < 10,
                digits_value(digits@) == dec_digits_value(body),
            decreases digits@.len(),
        {
            let ghost pre = digits@;
            proof {
                lemma_digits_drop_trailing_zero(pre);
            }
            digits.pop();
            proof {
                assert(digits@ =~= pre.drop_last());
            }
        }
        let is_zero: bool = digits.len() == 0;
        proof {
            lemma_digits_value_nonneg(digits@);
            if digits@.len() > 0 {
                lemma_digits_value_positive(digits@);
            }
        }
        let r = BigInt { negative: negative && !is_zero, digits };
        Some(r)
    }
}

} // verus!
