//! Exact rational numbers.
//!
//! A `Real` keeps its value as the canonical text of a fraction in lowest
//! terms; the arithmetic itself is done by `rug`.

use vstd::prelude::*;
use vstd::string::*;
use crate::text::{all_digits, chars_of, digits_between, digits_value, find_char, find_from, int_text, lemma_find_char, nat_text};
use rug::Rational;

verus! {

/// `n` and `d` have no common divisor above one.
pub open spec fn coprime(n: int, d: int) -> bool {
    forall|k: int| k > 1 ==> !(#[trigger] (n % k) == 0 && d % k == 0)
}

/// The part of a fraction's text before the first slash.
pub open spec fn numer_text(s: Seq<char>) -> Seq<char> {
    s.subrange(0, find_char(s, '/'))
}

/// The part of a fraction's text after the first slash; `1` when there is
/// none.
pub open spec fn denom_text(s: Seq<char>) -> Seq<char> {
    if find_char(s, '/') < s.len() {
        s.subrange(find_char(s, '/') + 1, s.len() as int)
    } else {
        seq!['1']
    }
}

/// The integer that an optional minus sign followed by digits denotes.
pub open spec fn signed_value(s: Seq<char>) -> int {
    if s.len() > 0 && s[0] == '-' {
        -(digits_value(s.skip(1)) as int)
    } else {
        digits_value(s) as int
    }
}

/// One or more digits, optionally after a minus sign.
pub open spec fn is_signed_digits(s: Seq<char>) -> bool {
    if s.len() > 0 && s[0] == '-' {
        s.len() >= 2 && all_digits(s.skip(1))
    } else {
        s.len() >= 1 && all_digits(s)
    }
}

/// A fraction written as `n` or `n/d`: `n` an optional minus sign and digits,
/// `d` digits that denote a number other than zero.
pub open spec fn is_ratio_literal(s: Seq<char>) -> bool {
    &&& is_signed_digits(numer_text(s))
    &&& denom_text(s).len() >= 1
    &&& all_digits(denom_text(s))
    &&& digits_value(denom_text(s)) != 0
}

/// The numerator that a fraction's text denotes.
pub open spec fn text_numer(s: Seq<char>) -> int {
    signed_value(numer_text(s))
}

/// The denominator that a fraction's text denotes.
pub open spec fn text_denom(s: Seq<char>) -> int {
    digits_value(denom_text(s)) as int
}

/// The number that a fraction's text denotes.
pub open spec fn text_value(s: Seq<char>) -> real {
    (text_numer(s) as real) / (text_denom(s) as real)
}

/// The one text that stands for a rational number: the fraction in lowest
/// terms, the denominator left out when it is one, no leading zeros, and no
/// sign on zero.
pub open spec fn is_fraction_text(s: Seq<char>) -> bool {
    &&& is_ratio_literal(s)
    &&& coprime(text_numer(s), text_denom(s))
    &&& s == int_text(text_numer(s)) + (if text_denom(s) == 1 {
        Seq::<char>::empty()
    } else {
        seq!['/'] + nat_text(text_denom(s) as nat)
    })
}

/// `k` is not above `x`, and the next integer is.
pub open spec fn floors(k: int, x: real) -> bool {
    (k as real) <= x && x < ((k + 1) as real)
}

/// The largest integer that is not above `x`.
pub open spec fn real_floor(x: real) -> int {
    choose|k: int| floors(k, x)
}

/// The whole number next to `x` as fixed-point constants are rounded: a
/// positive number goes down when its fraction is below one half and up
/// otherwise; zero and negative numbers go down.
pub open spec fn nearest(x: real) -> int {
    if x > 0real && 2real * (x - (real_floor(x) as real)) >= 1real {
        real_floor(x) + 1
    } else {
        real_floor(x)
    }
}

/// `x` multiplied by itself `n` times.
pub open spec fn real_pow_nat(x: real, n: nat) -> real
    decreases n,
{
    if n == 0 {
        1real
    } else {
        x * real_pow_nat(x, (n - 1) as nat)
    }
}

/// `x` raised to the power `e`; a negative power is the inverse of the
/// positive one.
pub open spec fn real_pow(x: real, e: int) -> real {
    if e >= 0 {
        real_pow_nat(x, e as nat)
    } else {
        1real / real_pow_nat(x, (-e) as nat)
    }
}

/// Calls `rug::Rational::from_str_radix` with radix ten and prints what it
/// parsed with `to_string_radix`: for a fraction `n` or `n/d` this gives the
/// canonical text of the same number.
#[verifier::external_body]
fn rational_canonical(s: &str) -> (r: String)
    requires
        is_ratio_literal(s@),
    ensures
        is_fraction_text(r@),
        text_value(r@) == text_value(s@),
{
    Rational::from_str_radix(s, 10).unwrap().to_string_radix(10)
}

/// Calls `rug::Rational::from` on an `i64`: the rational number equal to the
/// integer.
#[verifier::external_body]
fn rational_from_i64(n: i64) -> (r: String)
    ensures
        is_fraction_text(r@),
        r@ == int_text(n as int),
        text_value(r@) == n as real,
{
    Rational::from(n).to_string_radix(10)
}

/// Calls `rug::Rational::from` on a `u64`: the rational number equal to the
/// integer.
#[verifier::external_body]
fn rational_from_u64(n: u64) -> (r: String)
    ensures
        is_fraction_text(r@),
        r@ == nat_text(n as nat),
        text_value(r@) == n as real,
{
    Rational::from(n).to_string_radix(10)
}

/// Calls `+` of `rug::Rational`: the exact sum.
#[verifier::external_body]
fn rational_add(a: &str, b: &str) -> (r: String)
    requires
        is_fraction_text(a@),
        is_fraction_text(b@),
    ensures
        is_fraction_text(r@),
        text_value(r@) == text_value(a@) + text_value(b@),
{
    let x = Rational::from_str_radix(a, 10).unwrap();
    let y = Rational::from_str_radix(b, 10).unwrap();
    (x + y).to_string_radix(10)
}

/// Calls `-` of `rug::Rational`: the exact difference.
#[verifier::external_body]
fn rational_sub(a: &str, b: &str) -> (r: String)
    requires
        is_fraction_text(a@),
        is_fraction_text(b@),
    ensures
        is_fraction_text(r@),
        text_value(r@) == text_value(a@) - text_value(b@),
{
    let x = Rational::from_str_radix(a, 10).unwrap();
    let y = Rational::from_str_radix(b, 10).unwrap();
    (x - y).to_string_radix(10)
}

/// Calls `*` of `rug::Rational`: the exact product.
#[verifier::external_body]
fn rational_mul(a: &str, b: &str) -> (r: String)
    requires
        is_fraction_text(a@),
        is_fraction_text(b@),
    ensures
        is_fraction_text(r@),
        text_value(r@) == text_value(a@) * text_value(b@),
{
    let x = Rational::from_str_radix(a, 10).unwrap();
    let y = Rational::from_str_radix(b, 10).unwrap();
    (x * y).to_string_radix(10)
}

/// Calls `/` of `rug::Rational`, which panics on a zero divisor: the exact
/// quotient.
#[verifier::external_body]
fn rational_div(a: &str, b: &str) -> (r: String)
    requires
        is_fraction_text(a@),
        is_fraction_text(b@),
        text_value(b@) != 0real,
    ensures
        is_fraction_text(r@),
        text_value(r@) == text_value(a@) / text_value(b@),
{
    let x = Rational::from_str_radix(a, 10).unwrap();
    let y = Rational::from_str_radix(b, 10).unwrap();
    (x / y).to_string_radix(10)
}

/// Calls unary `-` of `rug::Rational`: the number with the sign changed.
#[verifier::external_body]
fn rational_neg(a: &str) -> (r: String)
    requires
        is_fraction_text(a@),
    ensures
        is_fraction_text(r@),
        text_value(r@) == -text_value(a@),
{
    (-Rational::from_str_radix(a, 10).unwrap()).to_string_radix(10)
}

/// Calls `rug::Rational::abs`: the number without its sign.
#[verifier::external_body]
fn rational_abs(a: &str) -> (r: String)
    requires
        is_fraction_text(a@),
    ensures
        is_fraction_text(r@),
        text_value(r@) == (if text_value(a@) < 0real {
            -text_value(a@)
        } else {
            text_value(a@)
        }),
{
    Rational::from_str_radix(a, 10).unwrap().abs().to_string_radix(10)
}

/// Calls `rug::Rational::floor`: the number rounded towards minus infinity.
#[verifier::external_body]
fn rational_floor(a: &str) -> (r: String)
    requires
        is_fraction_text(a@),
    ensures
        is_fraction_text(r@),
        r@ == int_text(real_floor(text_value(a@))),
        text_value(r@) == real_floor(text_value(a@)) as real,
        text_value(r@) <= text_value(a@),
        text_value(a@) < text_value(r@) + 1real,
{
    Rational::from_str_radix(a, 10).unwrap().floor().to_string_radix(10)
}

/// Calls `rug::ops::Pow::pow` of `rug::Rational` with an `i32` exponent,
/// which divides by zero when zero is raised to a negative power.
#[verifier::external_body]
fn rational_pow(a: &str, e: i32) -> (r: String)
    requires
        is_fraction_text(a@),
        e < 0 ==> text_value(a@) != 0real,
    ensures
        is_fraction_text(r@),
        text_value(r@) == real_pow(text_value(a@), e as int),
{
    rug::ops::Pow::pow(Rational::from_str_radix(a, 10).unwrap(), e).to_string_radix(10)
}

/// Calls `<` of `rug::Rational`: the order of the two numbers.
#[verifier::external_body]
fn rational_lt(a: &str, b: &str) -> (r: bool)
    requires
        is_fraction_text(a@),
        is_fraction_text(b@),
    ensures
        r == (text_value(a@) < text_value(b@)),
{
    let x = Rational::from_str_radix(a, 10).unwrap();
    let y = Rational::from_str_radix(b, 10).unwrap();
    x < y
}

/// Calls `rug::Rational::floor` and then `rug::Integer::to_i64` on the
/// numerator of the whole number that it gives: the floor of the number where
/// an `i64` can hold it, nothing otherwise.
#[verifier::external_body]
fn rational_floor_i64(a: &str) -> (r: Option<i64>)
    requires
        is_fraction_text(a@),
    ensures
        r == (if i64::MIN <= real_floor(text_value(a@)) <= i64::MAX {
            Some(real_floor(text_value(a@)) as i64)
        } else {
            None
        }),
{
    Rational::from_str_radix(a, 10).unwrap().floor().numer().to_i64()
}

/// Calls `rug::Rational::floor` and then `rug::Integer::significant_bits` on
/// the numerator of the whole number that it gives: the number of bits that
/// the magnitude of the floor needs.
#[verifier::external_body]
fn rational_floor_bits(a: &str) -> (r: u32)
    requires
        is_fraction_text(a@),
    ensures
        r as nat == bit_length(abs_int(real_floor(text_value(a@)))),
{
    Rational::from_str_radix(a, 10).unwrap().floor().numer().significant_bits()
}

/// Calls `rug::Rational::numer`: the numerator of the fraction in lowest
/// terms, as a whole number.
#[verifier::external_body]
fn rational_numer(a: &str) -> (r: String)
    requires
        is_fraction_text(a@),
    ensures
        is_fraction_text(r@),
        text_value(r@) == text_numer(a@) as real,
{
    Rational::from(Rational::from_str_radix(a, 10).unwrap().numer()).to_string_radix(10)
}

/// Calls `rug::Rational::denom`: the denominator of the fraction in lowest
/// terms, as a whole number.
#[verifier::external_body]
fn rational_denom(a: &str) -> (r: String)
    requires
        is_fraction_text(a@),
    ensures
        is_fraction_text(r@),
        text_value(r@) == text_denom(a@) as real,
{
    Rational::from(Rational::from_str_radix(a, 10).unwrap().denom()).to_string_radix(10)
}

/// The magnitude of an integer.
pub open spec fn abs_int(i: int) -> nat {
    if i < 0 {
        (-i) as nat
    } else {
        i as nat
    }
}

/// The number of binary digits of `n`; zero has none.
pub open spec fn bit_length(n: nat) -> nat
    decreases n,
{
    if n == 0 {
        0
    } else {
        1 + bit_length(n / 2)
    }
}

/// An exact rational number.
#[derive(Debug)]
pub struct Real {
    text: String,
}

impl View for Real {
    type V = real;

    closed spec fn view(&self) -> real {
        text_value(self.text@)
    }
}

impl Clone for Real {
    fn clone(&self) -> (r: Self)
        ensures
            r == *self,
    {
        proof {
            use_type_invariant(self);
        }
        Real { text: self.text.clone() }
    }
}

impl Real {
    #[verifier::type_invariant]
    spec fn well_formed(self) -> bool {
        is_fraction_text(self.text@)
    }

    /// The canonical text of the number.
    pub closed spec fn spec_text(self) -> Seq<char> {
        self.text@
    }

    /// The canonical text of the number: `n`, or `n/d` in lowest terms.
    pub fn text(&self) -> (r: &String)
        ensures
            r@ == self.spec_text(),
            is_fraction_text(r@),
            text_value(r@) == self@,
    {
        proof {
            use_type_invariant(self);
        }
        &self.text
    }

    /// Reads a fraction written as `n` or `n/d`, `n` with an optional minus
    /// sign; anything else is no number.
    pub fn from_text(s: &str) -> (r: Option<Real>)
        ensures
            r is Some <==> is_ratio_literal(s@),
            r matches Some(x) ==> x@ == text_value(s@),
    {
        if is_ratio_literal_exec(s) {
            Some(Real { text: rational_canonical(s) })
        } else {
            None
        }
    }

    pub fn zero() -> (r: Real)
        ensures
            r@ == 0real,
    {
        Real { text: rational_from_i64(0) }
    }

    pub fn one() -> (r: Real)
        ensures
            r@ == 1real,
    {
        Real { text: rational_from_i64(1) }
    }

    pub fn from_i64(n: i64) -> (r: Real)
        ensures
            r@ == n as real,
            r.spec_text() == int_text(n as int),
    {
        Real { text: rational_from_i64(n) }
    }

    pub fn from_u64(n: u64) -> (r: Real)
        ensures
            r@ == n as real,
            r.spec_text() == nat_text(n as nat),
    {
        Real { text: rational_from_u64(n) }
    }

    pub fn from_usize(n: usize) -> (r: Real)
        ensures
            r@ == n as real,
            r.spec_text() == nat_text(n as nat),
    {
        Real { text: rational_from_u64(n as u64) }
    }

    /// The exact sum.
    pub fn add(&self, other: &Real) -> (r: Real)
        ensures
            r@ == self@ + other@,
    {
        proof {
            use_type_invariant(self);
            use_type_invariant(other);
        }
        Real { text: rational_add(self.text.as_str(), other.text.as_str()) }
    }

    /// The exact difference.
    pub fn sub(&self, other: &Real) -> (r: Real)
        ensures
            r@ == self@ - other@,
    {
        proof {
            use_type_invariant(self);
            use_type_invariant(other);
        }
        Real { text: rational_sub(self.text.as_str(), other.text.as_str()) }
    }

    /// The exact product.
    pub fn mul(&self, other: &Real) -> (r: Real)
        ensures
            r@ == self@ * other@,
    {
        proof {
            use_type_invariant(self);
            use_type_invariant(other);
        }
        Real { text: rational_mul(self.text.as_str(), other.text.as_str()) }
    }

    /// The exact quotient.
    pub fn div(&self, other: &Real) -> (r: Real)
        requires
            other@ != 0real,
        ensures
            r@ == self@ / other@,
    {
        proof {
            use_type_invariant(self);
            use_type_invariant(other);
        }
        Real { text: rational_div(self.text.as_str(), other.text.as_str()) }
    }

    /// The quotient, or nothing when the divisor is zero.
    pub fn checked_div(&self, other: &Real) -> (r: Option<Real>)
        ensures
            r is Some <==> other@ != 0real,
            r matches Some(q) ==> q@ == self@ / other@,
    {
        if other.is_zero() {
            None
        } else {
            Some(self.div(other))
        }
    }

    /// The number with its sign changed.
    pub fn neg(&self) -> (r: Real)
        ensures
            r@ == -self@,
    {
        proof {
            use_type_invariant(self);
        }
        Real { text: rational_neg(self.text.as_str()) }
    }

    pub fn abs(&self) -> (r: Real)
        ensures
            r@ == (if self@ < 0real {
                -self@
            } else {
                self@
            }),
    {
        proof {
            use_type_invariant(self);
        }
        Real { text: rational_abs(self.text.as_str()) }
    }

    /// The largest whole number that is not above this one.
    pub fn floor(&self) -> (r: Real)
        ensures
            r@ == real_floor(self@) as real,
            r@ <= self@ < r@ + 1real,
            r.spec_text() == int_text(real_floor(self@)),
    {
        proof {
            use_type_invariant(self);
        }
        Real { text: rational_floor(self.text.as_str()) }
    }

    /// The number raised to the power `exp`.
    pub fn pow(&self, exp: i32) -> (r: Real)
        requires
            exp < 0 ==> self@ != 0real,
        ensures
            r@ == real_pow(self@, exp as int),
    {
        proof {
            use_type_invariant(self);
        }
        Real { text: rational_pow(self.text.as_str(), exp) }
    }

    /// Whether this number is below `other`.
    pub fn lt(&self, other: &Real) -> (r: bool)
        ensures
            r == (self@ < other@),
    {
        proof {
            use_type_invariant(self);
            use_type_invariant(other);
        }
        rational_lt(self.text.as_str(), other.text.as_str())
    }

    /// Whether the two numbers are equal.
    pub fn same(&self, other: &Real) -> (r: bool)
        ensures
            r == (self@ == other@),
    {
        !self.lt(other) && !other.lt(self)
    }

    pub fn is_zero(&self) -> (r: bool)
        ensures
            r == (self@ == 0real),
    {
        let zero = Real::zero();
        self.same(&zero)
    }

    pub fn is_positive(&self) -> (r: bool)
        ensures
            r == (self@ > 0real),
    {
        let zero = Real::zero();
        zero.lt(self)
    }

    /// The largest whole number that is not above this one, where an `i64`
    /// can hold it.
    pub fn floor_to_i64(&self) -> (r: Option<i64>)
        ensures
            r == (if i64::MIN <= real_floor(self@) <= i64::MAX {
                Some(real_floor(self@) as i64)
            } else {
                None
            }),
    {
        proof {
            use_type_invariant(self);
        }
        rational_floor_i64(self.text.as_str())
    }

    /// The number of bits that the magnitude of the floor of this number
    /// needs; none for zero.
    pub fn floor_bits(&self) -> (r: u32)
        ensures
            r as nat == bit_length(abs_int(real_floor(self@))),
    {
        proof {
            use_type_invariant(self);
        }
        rational_floor_bits(self.text.as_str())
    }

    /// The whole number next to this one, where an `i64` can hold it: a
    /// positive number goes down when its fraction is below one half and up
    /// otherwise; zero and negative numbers go down.
    pub fn nearest_integer(&self) -> (r: Option<i64>)
        ensures
            r == (if i64::MIN <= nearest(self@) <= i64::MAX {
                Some(nearest(self@) as i64)
            } else {
                None
            }),
    {
        let whole = self.floor();
        let below = match self.floor_to_i64() {
            Some(v) => v,
            None => {
                return None;
            },
        };
        if !self.is_positive() {
            return Some(below);
        }
        let fraction = self.sub(&whole);
        let two = Real::from_i64(2);
        let doubled = fraction.mul(&two);
        let one = Real::one();
        if doubled.lt(&one) {
            Some(below)
        } else if below == i64::MAX {
            None
        } else {
            Some(below + 1)
        }
    }

    /// The smaller of the two numbers.
    pub fn min(&self, other: &Real) -> (r: Real)
        ensures
            r@ == (if self@ < other@ {
                self@
            } else {
                other@
            }),
    {
        if self.lt(other) {
            self.clone()
        } else {
            other.clone()
        }
    }

    /// The larger of the two numbers.
    pub fn max(&self, other: &Real) -> (r: Real)
        ensures
            r@ == (if self@ > other@ {
                self@
            } else {
                other@
            }),
    {
        if other.lt(self) {
            self.clone()
        } else {
            other.clone()
        }
    }
}

/// Whether `s` is written as `n` or `n/d` with digits in both places, an
/// optional minus sign before `n`, and `d` not zero.
fn is_ratio_literal_exec(s: &str) -> (r: bool)
    ensures
        r == is_ratio_literal(s@),
{
    let chars = chars_of(s);
    let n = chars.len();
    let slash = find_from(&chars, '/', 0);
    proof {
        assert(chars@.skip(0) =~= chars@);
        lemma_find_char(s@, '/');
        assert(numer_text(s@) =~= chars@.subrange(0, slash as int));
    }
    let numer_ok = if slash > 0 && chars[0] == '-' {
        proof {
            assert(numer_text(s@).skip(1) =~= chars@.subrange(1, slash as int));
        }
        slash >= 2 && digits_between(&chars, 1, slash)
    } else {
        slash >= 1 && digits_between(&chars, 0, slash)
    };
    if !numer_ok {
        return false;
    }
    if slash == n {
        proof {
            let one = seq!['1'];
            assert(denom_text(s@) =~= one);
            assert(one.drop_last() =~= Seq::<char>::empty());
            assert(digits_value(one.drop_last()) == 0);
            assert(digits_value(one) == 1);
        }
        return true;
    }
    proof {
        assert(denom_text(s@) =~= chars@.subrange(slash + 1, n as int));
    }
    slash + 1 < n && digits_between(&chars, slash + 1, n) && !digits_are_zero(
        &chars,
        slash + 1,
        n,
    )
}

/// Whether the digits from `from` up to `to` denote zero.
fn digits_are_zero(s: &Vec<char>, from: usize, to: usize) -> (r: bool)
    requires
        from <= to <= s.len(),
        all_digits(s@.subrange(from as int, to as int)),
    ensures
        r == (digits_value(s@.subrange(from as int, to as int)) == 0),
{
    let mut i: usize = from;
    while i < to
        invariant
            from <= i <= to <= s.len(),
            all_digits(s@.subrange(from as int, to as int)),
            digits_value(s@.subrange(from as int, i as int)) == 0,
        decreases to - i,
    {
        proof {
            let t = s@.subrange(from as int, i + 1);
            assert(t.drop_last() =~= s@.subrange(from as int, i as int));
            assert(t.last() == s@[i as int]);
            assert(s@.subrange(from as int, to as int)[i - from] == s@[i as int]);
        }
        if s[i] != '0' {
            proof {
                let whole = s@.subrange(from as int, to as int);
                let part = s@.subrange(from as int, i + 1);
                assert(part =~= whole.subrange(0, part.len() as int));
                lemma_digits_value_grows(part, whole);
            }
            return false;
        }
        i += 1;
    }
    assert(s@.subrange(from as int, i as int) =~= s@.subrange(from as int, to as int));
    true
}

/// A prefix of a digit sequence does not denote more than the whole.
proof fn lemma_digits_value_grows(p: Seq<char>, s: Seq<char>)
    requires
        p.len() <= s.len(),
        p == s.subrange(0, p.len() as int),
    ensures
        digits_value(p) <= digits_value(s),
    decreases s.len() - p.len(),
{
    if p.len() < s.len() {
        let q = s.subrange(0, p.len() + 1 as int);
        assert(q.drop_last() =~= p);
        lemma_digits_value_grows(q, s);
    } else {
        assert(p =~= s);
    }
}

/// A whole number is its own floor.
pub proof fn lemma_whole_floor(k: int)
    ensures
        real_floor(k as real) == k,
{
    assert(floors(k, k as real));
    let f = real_floor(k as real);
    assert(floors(f, k as real));
    if f < k {
        assert(((f + 1) as real) <= (k as real));
    }
    if k < f {
        assert(((k + 1) as real) <= (f as real));
    }
}

/// `x` with its fraction cut off: rounded towards zero.
pub open spec fn truncated(x: real) -> int {
    if x < 0real {
        -real_floor(-x)
    } else {
        real_floor(x)
    }
}

/// A whole number of any size.
#[derive(Debug)]
pub struct Integer {
    value: Real,
}

impl View for Integer {
    type V = int;

    closed spec fn view(&self) -> int {
        real_floor(self.value@)
    }
}

impl Clone for Integer {
    fn clone(&self) -> (r: Self)
        ensures
            r@ == self@,
    {
        proof {
            use_type_invariant(self);
        }
        Integer { value: self.value.clone() }
    }
}

impl Integer {
    #[verifier::type_invariant]
    spec fn whole(self) -> bool {
        self.value@ == real_floor(self.value@) as real
    }

    pub fn from_u32(n: u32) -> (r: Integer)
        ensures
            r@ == n,
    {
        proof {
            lemma_whole_floor(n as int);
        }
        Integer { value: Real::from_u64(n as u64) }
    }

    pub fn one() -> (r: Integer)
        ensures
            r@ == 1,
    {
        proof {
            lemma_whole_floor(1);
        }
        Integer { value: Real::from_i64(1) }
    }

    pub fn is_zero(&self) -> (r: bool)
        ensures
            r == (self@ == 0),
    {
        proof {
            use_type_invariant(self);
        }
        self.value.is_zero()
    }

    pub fn is_positive(&self) -> (r: bool)
        ensures
            r == (self@ > 0),
    {
        proof {
            use_type_invariant(self);
        }
        self.value.is_positive()
    }

    /// The number of binary digits of the magnitude; none for zero.
    pub fn bits(&self) -> (r: u32)
        ensures
            r as nat == bit_length(abs_int(self@)),
    {
        self.value.floor_bits()
    }

    /// The number as an `i64`, which can hold it.
    pub fn to_i64(&self) -> (r: i64)
        requires
            i64::MIN <= self@ <= i64::MAX,
        ensures
            r == self@,
    {
        match self.value.floor_to_i64() {
            Some(v) => v,
            None => 0,
        }
    }

    /// The number as an `i64`, if that can hold it.
    pub fn checked_to_i64(&self) -> (r: Option<i64>)
        ensures
            r == (if i64::MIN <= self@ <= i64::MAX {
                Some(self@ as i64)
            } else {
                None
            }),
    {
        self.value.floor_to_i64()
    }

    /// One more than the magnitude of the number.
    pub fn next_magnitude(&self) -> (r: Integer)
        ensures
            r@ == abs_int(self@) + 1,
    {
        proof {
            use_type_invariant(self);
            lemma_whole_floor((abs_int(self@) + 1) as int);
        }
        let next = self.value.abs().add(&Real::one());
        assert(next@ == (abs_int(self@) + 1) as real);
        Integer { value: next }
    }

    /// The decimal text of the number.
    pub fn to_text(&self) -> (r: String)
        ensures
            r@ == int_text(self@),
    {
        self.value.floor().text().clone()
    }

    /// The difference of two whole numbers.
    pub fn sub(&self, other: &Integer) -> (r: Integer)
        ensures
            r@ == self@ - other@,
    {
        proof {
            use_type_invariant(self);
            use_type_invariant(other);
            lemma_whole_floor(self@ - other@);
        }
        let difference = self.value.sub(&other.value);
        assert(difference@ == (self@ - other@) as real);
        Integer { value: difference }
    }
}

impl Real {
    /// The numerator of the fraction in lowest terms.
    pub fn numer(&self) -> (r: Integer)
        ensures
            r@ == text_numer(self.spec_text()),
    {
        proof {
            use_type_invariant(self);
            lemma_whole_floor(text_numer(self.text@));
        }
        Integer { value: Real { text: rational_numer(self.text.as_str()) } }
    }

    /// The denominator of the fraction in lowest terms.
    pub fn denom(&self) -> (r: Integer)
        ensures
            r@ == text_denom(self.spec_text()),
    {
        proof {
            use_type_invariant(self);
            lemma_whole_floor(text_denom(self.text@));
        }
        Integer { value: Real { text: rational_denom(self.text.as_str()) } }
    }

    /// The number with its fraction cut off.
    pub fn to_integer(&self) -> (r: Integer)
        ensures
            r@ == truncated(self@),
    {
        let zero = Real::zero();
        if self.lt(&zero) {
            let below = self.neg().floor();
            let whole = below.neg();
            proof {
                lemma_whole_floor(-real_floor(-self@));
                assert(whole@ == (-real_floor(-self@)) as real);
            }
            Integer { value: whole }
        } else {
            let whole = self.floor();
            proof {
                lemma_whole_floor(real_floor(self@));
            }
            Integer { value: whole }
        }
    }
}

} // verus!
