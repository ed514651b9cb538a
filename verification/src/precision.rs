//! Number formats: two floating-point formats and fixed point with a total
//! and a fractional bit count, with their textual form.

use vstd::prelude::*;
use vstd::string::*;
use crate::text::{all_digits, chars_of, concat, digits_between, digits_value, find_char, find_from, i64_to_text, int_text, is_digit, lemma_find_char_is, lemma_nat_text_digits, nat_text};

verus! {

/// The fractional bit count that stands for "choose it from the range".
pub const AUTO_FRACTIONAL_BITS: i32 = -1;

/// The number format of one value.
#[derive(Debug, Clone, Copy, PartialEq, Eq, Structural)]
pub enum Precision {
    /// Fixed point with `total_bits` bits, `fractional_bits` of them below
    /// the binary point; `-1` fractional bits ask for an automatic choice.
    Fixed { total_bits: i32, fractional_bits: i32 },
    /// IEEE 754 single precision.
    Float32,
    /// IEEE 754 double precision.
    Float64,
}

/// Why a text is not a number format.
#[derive(Debug, Clone, Copy, PartialEq, Eq, Structural)]
pub enum PrecisionError {
    /// The bit count after `Fixed` is not a 32-bit integer.
    InvalidTotalBits,
    /// The bit count after the dash is not a 32-bit integer.
    InvalidFractionalBits,
    /// Integer and fractional bits together exceed a 32-bit integer.
    TotalOutOfRange,
    /// The text is neither `Float32`, `Float64` nor starts with `Fixed`.
    UnknownFormat,
}

pub open spec fn float32_text() -> Seq<char> {
    seq!['F', 'l', 'o', 'a', 't', '3', '2']
}

pub open spec fn float64_text() -> Seq<char> {
    seq!['F', 'l', 'o', 'a', 't', '6', '4']
}

pub open spec fn fixed_text() -> Seq<char> {
    seq!['F', 'i', 'x', 'e', 'd']
}

/// The digits of a signed decimal: the text without its sign, if it has one.
pub open spec fn unsigned_part(s: Seq<char>) -> Seq<char> {
    if s.len() > 0 && (s[0] == '-' || s[0] == '+') {
        s.skip(1)
    } else {
        s
    }
}

/// The integer that an optional sign followed by digits denotes.
pub open spec fn decimal_value(s: Seq<char>) -> int {
    if s.len() > 0 && s[0] == '-' {
        -(digits_value(s.skip(1)) as int)
    } else {
        digits_value(unsigned_part(s)) as int
    }
}

/// An optional sign, then at least one digit and nothing else, denoting a
/// number that a 32-bit integer holds.
pub open spec fn is_i32_text(s: Seq<char>) -> bool {
    &&& unsigned_part(s).len() >= 1
    &&& all_digits(unsigned_part(s))
    &&& i32::MIN <= decimal_value(s) <= i32::MAX
}

/// What a text denotes as a number format. After `Fixed` comes the total bit
/// count alone, or the integer bits, the first dash, and the fractional bits.
pub open spec fn parse_precision(s: Seq<char>) -> Result<Precision, PrecisionError> {
    if s == float32_text() {
        Ok(Precision::Float32)
    } else if s == float64_text() {
        Ok(Precision::Float64)
    } else if s.len() >= 5 && s.subrange(0, 5) == fixed_text() {
        let rest = s.skip(5);
        let dash = find_char(rest, '-');
        if dash < rest.len() {
            let integer = rest.subrange(0, dash);
            let fraction = rest.skip(dash + 1);
            if !is_i32_text(integer) {
                Err(PrecisionError::InvalidTotalBits)
            } else if !is_i32_text(fraction) {
                Err(PrecisionError::InvalidFractionalBits)
            } else if !(i32::MIN <= decimal_value(integer) + decimal_value(fraction)
                <= i32::MAX) {
                Err(PrecisionError::TotalOutOfRange)
            } else {
                Ok(
                    Precision::Fixed {
                        total_bits: (decimal_value(integer) + decimal_value(fraction)) as i32,
                        fractional_bits: decimal_value(fraction) as i32,
                    },
                )
            }
        } else if !is_i32_text(rest) {
            Err(PrecisionError::InvalidTotalBits)
        } else {
            Ok(
                Precision::Fixed {
                    total_bits: decimal_value(rest) as i32,
                    fractional_bits: AUTO_FRACTIONAL_BITS,
                },
            )
        }
    } else {
        Err(PrecisionError::UnknownFormat)
    }
}

/// The text of a number format: `Float32`, `Float64`, `Fixed` and the total
/// bits where the fractional bits are chosen automatically, and otherwise
/// `Fixed`, the integer bits, a dash and the fractional bits.
pub open spec fn precision_text(p: Precision) -> Seq<char> {
    match p {
        Precision::Float32 => float32_text(),
        Precision::Float64 => float64_text(),
        Precision::Fixed { total_bits, fractional_bits } => if fractional_bits
            == AUTO_FRACTIONAL_BITS {
            fixed_text() + int_text(total_bits as int)
        } else {
            fixed_text() + int_text(total_bits - fractional_bits) + seq!['-'] + int_text(
                fractional_bits as int,
            )
        },
    }
}

/// The formats whose text reads back: the number printed after `Fixed` is
/// not negative and fits 32 bits.
pub open spec fn reads_back(p: Precision) -> bool {
    match p {
        Precision::Fixed { total_bits, fractional_bits } => if fractional_bits
            == AUTO_FRACTIONAL_BITS {
            total_bits >= 0
        } else {
            0 <= total_bits - fractional_bits <= i32::MAX
        },
        _ => true,
    }
}

/// The value of the digits from `from` up to `to`, unless it exceeds
/// `limit`.
fn digits_to_number(s: &Vec<char>, from: usize, to: usize, limit: u64) -> (r: Option<u64>)
    requires
        from <= to <= s.len(),
        all_digits(s@.subrange(from as int, to as int)),
        limit <= 0x8000_0000,
    ensures
        match r {
            Some(v) => v == digits_value(s@.subrange(from as int, to as int)) && v <= limit,
            None => digits_value(s@.subrange(from as int, to as int)) > limit,
        },
{
    let mut value: u64 = 0;
    let mut i: usize = from;
    assert(s@.subrange(from as int, from as int) =~= Seq::<char>::empty());
    while i < to
        invariant
            from <= i <= to <= s.len(),
            all_digits(s@.subrange(from as int, to as int)),
            value == digits_value(s@.subrange(from as int, i as int)),
            value <= limit <= 0x8000_0000,
        decreases to - i,
    {
        let c = s[i];
        proof {
            let t = s@.subrange(from as int, i + 1);
            assert(t.drop_last() =~= s@.subrange(from as int, i as int));
            assert(t.last() == c);
            assert(s@.subrange(from as int, to as int)[i - from] == c);
        }
        let d: u64 = if c == '0' {
            0
        } else if c == '1' {
            1
        } else if c == '2' {
            2
        } else if c == '3' {
            3
        } else if c == '4' {
            4
        } else if c == '5' {
            5
        } else if c == '6' {
            6
        } else if c == '7' {
            7
        } else if c == '8' {
            8
        } else {
            9
        };
        let next = value * 10 + d;
        if next > limit {
            proof {
                let whole = s@.subrange(from as int, to as int);
                let part = s@.subrange(from as int, i + 1);
                assert(part =~= whole.subrange(0, part.len() as int));
                lemma_digits_prefix(part, whole);
            }
            return None;
        }
        value = next;
        i += 1;
    }
    Some(value)
}

/// A prefix of a digit sequence does not denote more than the whole.
pub proof fn lemma_digits_prefix(p: Seq<char>, s: Seq<char>)
    requires
        p.len() <= s.len(),
        p == s.subrange(0, p.len() as int),
    ensures
        digits_value(p) <= digits_value(s),
    decreases s.len() - p.len(),
{
    if p.len() < s.len() {
        let q = s.subrange(0, p.len() + 1 as int);
        assert(q.drop_last() =~= p);
        lemma_digits_prefix(q, s);
    } else {
        assert(p =~= s);
    }
}

/// Reads the characters from `from` up to `to` as a 32-bit integer: an
/// optional sign and digits.
pub fn parse_i32(s: &Vec<char>, from: usize, to: usize) -> (r: Option<i32>)
    requires
        from <= to <= s.len(),
    ensures
        r is Some <==> is_i32_text(s@.subrange(from as int, to as int)),
        r matches Some(v) ==> v == decimal_value(s@.subrange(from as int, to as int)),
{
    let ghost t = s@.subrange(from as int, to as int);
    if from == to {
        return None;
    }
    assert(t[0] == s@[from as int]);
    let negative = s[from] == '-';
    let start = if negative || s[from] == '+' {
        from + 1
    } else {
        from
    };
    assert(unsigned_part(t) =~= s@.subrange(start as int, to as int));
    if start == to || !digits_between(s, start, to) {
        return None;
    }
    if negative {
        assert(t.skip(1) =~= s@.subrange(start as int, to as int));
        match digits_to_number(s, start, to, 0x8000_0000) {
            Some(v) => {
                if v == 0x8000_0000 {
                    Some(i32::MIN)
                } else {
                    Some(-(v as i32))
                }
            },
            None => None,
        }
    } else {
        match digits_to_number(s, start, to, 0x7fff_ffff) {
            Some(v) => Some(v as i32),
            None => None,
        }
    }
}

/// Whether the characters of `s` from `from` on are exactly those of `t`.
fn matches_at(s: &Vec<char>, from: usize, t: &str) -> (r: bool)
    requires
        from <= s.len(),
    ensures
        r == (s@.len() - from >= t@.len() && s@.subrange(from as int, from + t@.len()) == t@),
{
    let n = t.unicode_len();
    if s.len() - from < n {
        return false;
    }
    let mut i: usize = 0;
    while i < n
        invariant
            i <= n,
            n == t@.len(),
            from + n <= s.len(),
            forall|k: int| 0 <= k < i ==> s@[from + k] == t@[k],
        decreases n - i,
    {
        if s[from + i] != t.get_char(i) {
            assert(s@.subrange(from as int, from + t@.len())[i as int] != t@[i as int]);
            return false;
        }
        i += 1;
    }
    assert(s@.subrange(from as int, from + t@.len()) =~= t@);
    true
}

impl Precision {
    /// Reads a number format from its text.
    pub fn parse(s: &str) -> (r: Result<Precision, PrecisionError>)
        ensures
            r == parse_precision(s@),
    {
        let chars = chars_of(s);
        let n = chars.len();
        proof {
            reveal_strlit("Float32");
            reveal_strlit("Float64");
            reveal_strlit("Fixed");
            assert("Float32"@ =~= float32_text());
            assert("Float64"@ =~= float64_text());
            assert("Fixed"@ =~= fixed_text());
            assert(chars@.subrange(0, n as int) =~= chars@);
        }
        if n == 7 && matches_at(&chars, 0, "Float32") {
            return Ok(Precision::Float32);
        }
        if n == 7 && matches_at(&chars, 0, "Float64") {
            return Ok(Precision::Float64);
        }
        if !matches_at(&chars, 0, "Fixed") {
            return Err(PrecisionError::UnknownFormat);
        }
        let ghost rest = s@.skip(5);
        let dash = find_from(&chars, '-', 5);
        if dash < n {
            proof {
                assert(rest.subrange(0, dash - 5) =~= chars@.subrange(5, dash as int));
                assert(rest.skip(dash - 5 + 1) =~= chars@.subrange(dash + 1, n as int));
            }
            let integer = match parse_i32(&chars, 5, dash) {
                Some(v) => v,
                None => {
                    return Err(PrecisionError::InvalidTotalBits);
                },
            };
            let fraction = match parse_i32(&chars, dash + 1, n) {
                Some(v) => v,
                None => {
                    return Err(PrecisionError::InvalidFractionalBits);
                },
            };
            let total: i64 = integer as i64 + fraction as i64;
            if total < -0x8000_0000 || total > 0x7fff_ffff {
                return Err(PrecisionError::TotalOutOfRange);
            }
            Ok(Precision::Fixed { total_bits: total as i32, fractional_bits: fraction })
        } else {
            proof {
                assert(rest =~= chars@.subrange(5, n as int));
            }
            match parse_i32(&chars, 5, n) {
                Some(v) => Ok(
                    Precision::Fixed { total_bits: v, fractional_bits: AUTO_FRACTIONAL_BITS },
                ),
                None => Err(PrecisionError::InvalidTotalBits),
            }
        }
    }

    /// The text of the number format.
    pub fn to_text(&self) -> (r: String)
        ensures
            r@ == precision_text(*self),
    {
        proof {
            reveal_strlit("Float32");
            reveal_strlit("Float64");
            reveal_strlit("Fixed");
            reveal_strlit("-");
            assert("Float32"@ =~= float32_text());
            assert("Float64"@ =~= float64_text());
            assert("Fixed"@ =~= fixed_text());
            assert("-"@ =~= seq!['-']);
        }
        match self {
            Precision::Float32 => String::from_str("Float32"),
            Precision::Float64 => String::from_str("Float64"),
            Precision::Fixed { total_bits, fractional_bits } => {
                if *fractional_bits == AUTO_FRACTIONAL_BITS {
                    let total = i64_to_text(*total_bits as i64);
                    concat("Fixed", total.as_str())
                } else {
                    let integer = i64_to_text(*total_bits as i64 - *fractional_bits as i64);
                    let fraction = i64_to_text(*fractional_bits as i64);
                    let mut out = concat("Fixed", integer.as_str());
                    out.append("-");
                    out.append(fraction.as_str());
                    out
                }
            },
        }
    }
}

/// What is said of a text that is no number format: which part cannot be
/// read, or the text itself where it has no known form.
pub open spec fn error_text(error: PrecisionError, s: Seq<char>) -> Seq<char> {
    match error {
        PrecisionError::InvalidTotalBits => "Invalid total bits"@,
        PrecisionError::InvalidFractionalBits => "Invalid fractional bits"@,
        PrecisionError::TotalOutOfRange => "Invalid total bits"@,
        PrecisionError::UnknownFormat => "Unknown precision format: "@ + s,
    }
}

impl core::str::FromStr for Precision {
    type Err = String;

    /// Reads a number format from its text, as `parse` does; the error says
    /// in words why the text is none.
    fn from_str(s: &str) -> (r: Result<Precision, String>)
        ensures
            match parse_precision(s@) {
                Ok(p) => r == Ok::<Precision, String>(p),
                Err(e) => r matches Err(message) && message@ == error_text(e, s@),
            },
    {
        match Precision::parse(s) {
            Ok(p) => Ok(p),
            Err(PrecisionError::InvalidTotalBits) => Err("Invalid total bits".to_owned()),
            Err(PrecisionError::InvalidFractionalBits) => Err("Invalid fractional bits".to_owned()),
            Err(PrecisionError::TotalOutOfRange) => Err("Invalid total bits".to_owned()),
            Err(PrecisionError::UnknownFormat) => Err(concat("Unknown precision format: ", s)),
        }
    }
}

/// The text of an integer that 32 bits hold reads back as that integer.
pub proof fn lemma_int_text_reads_back(n: int)
    requires
        i32::MIN <= n <= i32::MAX,
    ensures
        is_i32_text(int_text(n)),
        decimal_value(int_text(n)) == n,
        n >= 0 ==> find_char(int_text(n), '-') == int_text(n).len(),
{
    let t = int_text(n);
    if n < 0 {
        lemma_nat_text_digits((-n) as nat);
        assert(t.skip(1) =~= nat_text((-n) as nat));
    } else {
        lemma_nat_text_digits(n as nat);
        assert(is_digit(t[0]));
        assert forall|i: int| 0 <= i < t.len() implies t[i] != '-' by {
            assert(is_digit(t[i]));
        }
        lemma_find_char_is(t, '-', t.len() as int);
    }
}

/// A number format read back from its own text is the format itself, for
/// every format whose printed bit count is not negative and fits 32 bits.
pub proof fn lemma_precision_round_trip(p: Precision)
    requires
        reads_back(p),
    ensures
        parse_precision(precision_text(p)) == Ok::<Precision, PrecisionError>(p),
{
    let s = precision_text(p);
    match p {
        Precision::Float32 => {},
        Precision::Float64 => {
            assert(float64_text()[5] != float32_text()[5]);
        },
        Precision::Fixed { total_bits, fractional_bits } => {
            assert(s[1] == 'i');
            assert(float32_text()[1] == 'l');
            assert(float64_text()[1] == 'l');
            assert(s.subrange(0, 5) =~= fixed_text());
            let rest = s.skip(5);
            if fractional_bits == AUTO_FRACTIONAL_BITS {
                lemma_int_text_reads_back(total_bits as int);
                assert(rest =~= int_text(total_bits as int));
            } else {
                let integer = int_text(total_bits - fractional_bits);
                let fraction = int_text(fractional_bits as int);
                lemma_int_text_reads_back(total_bits - fractional_bits);
                lemma_int_text_reads_back(fractional_bits as int);
                assert(rest =~= integer + seq!['-'] + fraction);
                assert forall|i: int| 0 <= i < integer.len() implies rest[i] != '-' by {
                    lemma_nat_text_digits((total_bits - fractional_bits) as nat);
                    assert(is_digit(integer[i]));
                }
                assert(rest[integer.len() as int] == '-');
                lemma_find_char_is(rest, '-', integer.len() as int);
                assert(rest.subrange(0, integer.len() as int) =~= integer);
                assert(rest.skip(integer.len() + 1 as int) =~= fraction);
            }
        },
    }
}

} // verus!
