//! The analyser's reports: one line per identifier with its range, its
//! error bound, or its number format.

use vstd::prelude::*;
use vstd::string::*;
use crate::codegen_c::two_to;
use crate::idmap::{lemma_position_in, position_in};
use crate::namemap::{entry_names, has_name, lemma_insert_named, named, put, NameMap};
use crate::precision::{parse_precision, Precision, PrecisionError, AUTO_FRACTIONAL_BITS};
use crate::rational::{abs_int, bit_length, floors, real_floor, Real};
use crate::text::{chars_of, find_between, find_char, slice_text};

verus! {

/// Why a line of a report cannot be read.
#[derive(Debug, Clone, Copy, PartialEq, Eq, Structural)]
pub enum ReportError {
    /// The line has no colon between identifier and value.
    MissingSeparator,
    /// A range is not written between square brackets.
    MissingBrackets,
    /// A range has no comma and so no upper bound.
    MissingUpperBound,
    /// A range has more than two bounds.
    ExtraData,
    /// The bit count after `Fixed` is not a 32-bit integer.
    InvalidTotalBits,
    /// The bit count after the dash is not a 32-bit integer.
    InvalidFractionalBits,
    /// The bits of a fixed-point format exceed a 32-bit integer.
    BitsOutOfRange,
    /// The value is no number format.
    UnknownPrecision,
    /// No range is known for an identifier that needs one.
    UnknownIdentifier,
}

/// The characters that count as white space.
pub open spec fn is_space(c: char) -> bool {
    ||| c == '\t'
    ||| c == '\n'
    ||| c == '\u{0B}'
    ||| c == '\u{0C}'
    ||| c == '\r'
    ||| c == ' '
    ||| c == '\u{85}'
    ||| c == '\u{A0}'
    ||| c == '\u{1680}'
    ||| ('\u{2000}' <= c && c <= '\u{200A}')
    ||| c == '\u{2028}'
    ||| c == '\u{2029}'
    ||| c == '\u{202F}'
    ||| c == '\u{205F}'
    ||| c == '\u{3000}'
}

/// The number of white-space characters at the start of `s`.
pub open spec fn leading_spaces(s: Seq<char>) -> nat
    decreases s.len(),
{
    if s.len() > 0 && is_space(s[0]) {
        1 + leading_spaces(s.skip(1))
    } else {
        0
    }
}

/// The number of white-space characters at the end of `s`.
pub open spec fn trailing_spaces(s: Seq<char>) -> nat
    decreases s.len(),
{
    if s.len() > 0 && is_space(s.last()) {
        1 + trailing_spaces(s.drop_last())
    } else {
        0
    }
}

/// `s` without the white space at its start and at its end.
pub open spec fn trimmed(s: Seq<char>) -> Seq<char> {
    if leading_spaces(s) == s.len() {
        Seq::empty()
    } else {
        s.subrange(leading_spaces(s) as int, s.len() - trailing_spaces(s))
    }
}

/// Identifier and value of a line of the form `identifier: value`, both
/// without surrounding white space; nothing for a blank line. The first colon
/// separates the two.
pub open spec fn value_line(line: Seq<char>) -> Result<
    Option<(Seq<char>, Seq<char>)>,
    ReportError,
> {
    let t = trimmed(line);
    if t.len() == 0 {
        Ok(None)
    } else if find_char(t, ':') == t.len() {
        Err(ReportError::MissingSeparator)
    } else {
        Ok(
            Some(
                (trimmed(t.subrange(0, find_char(t, ':'))), trimmed(t.skip(find_char(t, ':') + 1))),
            ),
        )
    }
}

/// Lower and upper bound of a range written as `[lower, upper]`, both without
/// surrounding white space.
pub open spec fn range_bounds(value: Seq<char>) -> Result<(Seq<char>, Seq<char>), ReportError> {
    if value.len() < 2 || value[0] != '[' || value.last() != ']' {
        Err(ReportError::MissingBrackets)
    } else {
        let inner = value.subrange(1, value.len() - 1);
        let comma = find_char(inner, ',');
        if comma == inner.len() {
            Err(ReportError::MissingUpperBound)
        } else if find_char(inner.skip(comma + 1), ',') < inner.len() - comma - 1 {
            Err(ReportError::ExtraData)
        } else {
            Ok((trimmed(inner.subrange(0, comma)), trimmed(inner.skip(comma + 1))))
        }
    }
}

/// Identifier and bounds of a line of the form `identifier: [lower, upper]`;
/// nothing for a blank line.
pub open spec fn range_line(line: Seq<char>) -> Result<
    Option<(Seq<char>, Seq<char>, Seq<char>)>,
    ReportError,
> {
    match value_line(line) {
        Err(e) => Err(e),
        Ok(None) => Ok(None),
        Ok(Some((name, value))) => match range_bounds(value) {
            Err(e) => Err(e),
            Ok((lower, upper)) => Ok(Some((name, lower, upper))),
        },
    }
}

/// Whether `c` counts as white space.
pub fn is_space_char(c: char) -> (r: bool)
    ensures
        r == is_space(c),
{
    c == '\t' || c == '\n' || c == '\u{0B}' || c == '\u{0C}' || c == '\r' || c == ' ' || c
        == '\u{85}' || c == '\u{A0}' || c == '\u{1680}' || ('\u{2000}' <= c && c <= '\u{200A}')
        || c == '\u{2028}' || c == '\u{2029}' || c == '\u{202F}' || c == '\u{205F}' || c
        == '\u{3000}'
}

/// The part of `s` between `from` and `to` without the white space at its
/// start and at its end, as a pair of positions.
pub fn trim_between(s: &Vec<char>, from: usize, to: usize) -> (r: (usize, usize))
    requires
        from <= to <= s.len(),
    ensures
        from <= r.0 <= r.1 <= to,
        s@.subrange(r.0 as int, r.1 as int) == trimmed(s@.subrange(from as int, to as int)),
{
    let ghost t = s@.subrange(from as int, to as int);
    let mut a: usize = from;
    assert(t.skip(0) =~= t);
    while a < to && is_space_char(s[a])
        invariant
            from <= a <= to <= s.len(),
            t == s@.subrange(from as int, to as int),
            leading_spaces(t) == (a - from) + leading_spaces(t.skip(a - from)),
        decreases to - a,
    {
        proof {
            let u = t.skip(a - from);
            assert(u[0] == s@[a as int]);
            assert(u.skip(1) =~= t.skip(a - from + 1));
        }
        a += 1;
    }
    proof {
        let u = t.skip(a - from);
        if a < to {
            assert(u[0] == s@[a as int]);
        }
        assert(leading_spaces(u) == 0);
    }
    if a == to {
        assert(s@.subrange(a as int, a as int) =~= Seq::<char>::empty());
        return (a, a);
    }
    let mut b: usize = to;
    assert(t.subrange(0, t.len() as int) =~= t);
    assert(!is_space(s@[a as int]));
    while is_space_char(s[b - 1])
        invariant
            from <= a < b <= to <= s.len(),
            !is_space(s@[a as int]),
            t == s@.subrange(from as int, to as int),
            trailing_spaces(t) == (to - b) + trailing_spaces(t.subrange(0, b - from)),
        decreases b,
    {
        proof {
            let u = t.subrange(0, b - from);
            assert(u.last() == s@[b - 1]);
            assert(u.drop_last() =~= t.subrange(0, b - from - 1));
        }
        b -= 1;
    }
    proof {
        let u = t.subrange(0, b - from);
        assert(u.last() == s@[b - 1]);
        assert(trailing_spaces(u) == 0);
        assert(s@.subrange(a as int, b as int) =~= t.subrange(
            leading_spaces(t) as int,
            t.len() - trailing_spaces(t),
        ));
    }
    (a, b)
}

/// An optional pair of texts as contracts see it.
pub open spec fn pair_view(r: Result<Option<(String, String)>, ReportError>) -> Result<
    Option<(Seq<char>, Seq<char>)>,
    ReportError,
> {
    match r {
        Ok(Some((a, b))) => Ok(Some((a@, b@))),
        Ok(None) => Ok(None),
        Err(e) => Err(e),
    }
}

/// An optional triple of texts as contracts see it.
pub open spec fn triple_view(r: Result<Option<(String, String, String)>, ReportError>) -> Result<
    Option<(Seq<char>, Seq<char>, Seq<char>)>,
    ReportError,
> {
    match r {
        Ok(Some((a, b, c))) => Ok(Some((a@, b@, c@))),
        Ok(None) => Ok(None),
        Err(e) => Err(e),
    }
}

/// Where identifier and value of a line lie: the positions of both, or
/// nothing for a blank line.
fn locate_value(chars: &Vec<char>) -> (r: Result<Option<(usize, usize, usize, usize)>, ReportError>)
    ensures
        match value_line(chars@) {
            Ok(Some((name, value))) => r matches Ok(Some((a, b, c, d))) && a <= b <= c <= d
                <= chars@.len() && chars@.subrange(a as int, b as int) == name && chars@.subrange(
                c as int,
                d as int,
            ) == value,
            Ok(None) => r == Ok::<Option<(usize, usize, usize, usize)>, ReportError>(None),
            Err(e) => r == Err::<Option<(usize, usize, usize, usize)>, ReportError>(e),
        },
{
    let n = chars.len();
    assert(chars@.subrange(0, n as int) =~= chars@);
    let (a, b) = trim_between(chars, 0, n);
    if a == b {
        return Ok(None);
    }
    let ghost t = chars@.subrange(a as int, b as int);
    let colon = find_between(chars, ':', a, b);
    if colon == b {
        return Err(ReportError::MissingSeparator);
    }
    proof {
        assert(t.subrange(0, colon - a) =~= chars@.subrange(a as int, colon as int));
        assert(t.skip(colon - a + 1) =~= chars@.subrange(colon + 1, b as int));
    }
    let (na, nb) = trim_between(chars, a, colon);
    let (va, vb) = trim_between(chars, colon + 1, b);
    Ok(Some((na, nb, va, vb)))
}

/// Splits a line of the form `identifier: value` at its first colon.
pub fn split_value_line(line: &str) -> (r: Result<Option<(String, String)>, ReportError>)
    ensures
        pair_view(r) == value_line(line@),
{
    let chars = chars_of(line);
    match locate_value(&chars) {
        Err(e) => Err(e),
        Ok(None) => Ok(None),
        Ok(Some((a, b, c, d))) => Ok(Some((slice_text(line, a, b), slice_text(line, c, d)))),
    }
}

/// Splits a line of the form `identifier: [lower, upper]`.
pub fn split_range_line(line: &str) -> (r: Result<Option<(String, String, String)>, ReportError>)
    ensures
        triple_view(r) == range_line(line@),
{
    let chars = chars_of(line);
    let (a, b, va, vb) = match locate_value(&chars) {
        Err(e) => {
            return Err(e);
        },
        Ok(None) => {
            return Ok(None);
        },
        Ok(Some(found)) => found,
    };
    let ghost value = chars@.subrange(va as int, vb as int);
    if vb - va < 2 {
        return Err(ReportError::MissingBrackets);
    }
    assert(value[0] == chars@[va as int]);
    assert(value.last() == chars@[vb - 1]);
    if chars[va] != '[' || chars[vb - 1] != ']' {
        return Err(ReportError::MissingBrackets);
    }
    let ghost inner = value.subrange(1, value.len() - 1);
    assert(inner =~= chars@.subrange(va + 1, vb - 1));
    let comma = find_between(&chars, ',', va + 1, vb - 1);
    if comma == vb - 1 {
        return Err(ReportError::MissingUpperBound);
    }
    assert(inner.skip(comma - va - 1 + 1) =~= chars@.subrange(comma + 1, vb - 1));
    assert(inner.subrange(0, comma - va - 1) =~= chars@.subrange(va + 1, comma as int));
    let second = find_between(&chars, ',', comma + 1, vb - 1);
    if second < vb - 1 {
        return Err(ReportError::ExtraData);
    }
    let (la, lb) = trim_between(&chars, va + 1, comma);
    let (ua, ub) = trim_between(&chars, comma + 1, vb - 1);
    Ok(Some((slice_text(line, a, b), slice_text(line, la, lb), slice_text(line, ua, ub))))
}

/// The range of values that the analyser reports for one identifier.
#[derive(Debug)]
pub struct DaisyRange {
    pub lower: Real,
    pub upper: Real,
}

impl View for DaisyRange {
    type V = (real, real);

    open spec fn view(&self) -> (real, real) {
        (self.lower@, self.upper@)
    }
}

impl Clone for DaisyRange {
    fn clone(&self) -> (r: Self)
        ensures
            r@ == self@,
    {
        DaisyRange { lower: self.lower.clone(), upper: self.upper.clone() }
    }
}

/// The reported ranges by name, as contracts see them.
pub open spec fn ranges_view(map: &NameMap<DaisyRange>) -> Seq<(Seq<char>, (real, real))> {
    map.entries_with(|r: DaisyRange| r@)
}

/// The reported error bounds by name, as contracts see them.
pub open spec fn errors_view(map: &NameMap<Real>) -> Seq<(Seq<char>, real)> {
    map.entries_with(|e: Real| e@)
}

pub open spec fn min_real(a: real, b: real) -> real {
    if a < b {
        a
    } else {
        b
    }
}

pub open spec fn max_real(a: real, b: real) -> real {
    if a > b {
        a
    } else {
        b
    }
}

pub open spec fn abs_real(a: real) -> real {
    if a < 0real {
        -a
    } else {
        a
    }
}

/// The ranges after one more line for `name`: a first line gives the range
/// as reported, a further line widens the range to cover both.
pub open spec fn widened(
    ranges: Seq<(Seq<char>, (real, real))>,
    name: Seq<char>,
    lower: real,
    upper: real,
) -> Seq<(Seq<char>, (real, real))> {
    if has_name(ranges, name) {
        put(
            ranges,
            name,
            (min_real(named(ranges, name).0, lower), max_real(named(ranges, name).1, upper)),
        )
    } else {
        put(ranges, name, (lower, upper))
    }
}

/// The error bounds after one more line for `name`: of two values for one
/// name the one with the larger magnitude stays, the earlier one on a tie.
pub open spec fn worsened(errors: Seq<(Seq<char>, real)>, name: Seq<char>, value: real) -> Seq<
    (Seq<char>, real),
> {
    if has_name(errors, name) && abs_real(value) <= abs_real(named(errors, name)) {
        errors
    } else {
        put(errors, name, value)
    }
}

/// Records one line of the range report.
pub fn record_range(ranges: &mut NameMap<DaisyRange>, name: String, lower: Real, upper: Real)
    requires
        old(ranges).wf(),
    ensures
        final(ranges).wf(),
        ranges_view(final(ranges)) == widened(ranges_view(old(ranges)), name@, lower@, upper@),
{
    let ghost before = *ranges;
    proof {
        before.lemma_entries_with(|r: DaisyRange| r@);
    }
    let merged = match ranges.get(name.as_str()) {
        Some(known) => DaisyRange { lower: known.lower.min(&lower), upper: known.upper.max(&upper) },
        None => DaisyRange { lower, upper },
    };
    ranges.insert(name, merged);
    proof {
        lemma_insert_named(&before, ranges, name@, merged, |r: DaisyRange| r@);
    }
}

/// Records one line of the error report.
pub fn record_error(errors: &mut NameMap<Real>, name: String, value: Real)
    requires
        old(errors).wf(),
    ensures
        final(errors).wf(),
        errors_view(final(errors)) == worsened(errors_view(old(errors)), name@, value@),
{
    let ghost before = *errors;
    proof {
        before.lemma_entries_with(|e: Real| e@);
    }
    let keep = match errors.get(name.as_str()) {
        Some(known) => !known.abs().lt(&value.abs()),
        None => false,
    };
    if !keep {
        errors.insert(name, value);
        proof {
            lemma_insert_named(&before, errors, name@, value, |e: Real| e@);
        }
    }
}

/// The lines of a range report as contracts see them.
pub open spec fn range_lines_view(lines: Seq<(String, Real, Real)>) -> Seq<
    (Seq<char>, real, real),
> {
    Seq::new(lines.len(), |i: int| (lines[i].0@, lines[i].1@, lines[i].2@))
}

/// The lines of an error report as contracts see them.
pub open spec fn error_lines_view(lines: Seq<(String, Real)>) -> Seq<(Seq<char>, real)> {
    Seq::new(lines.len(), |i: int| (lines[i].0@, lines[i].1@))
}

/// The ranges that the first `n` lines of a report give.
pub open spec fn merged_ranges(lines: Seq<(Seq<char>, real, real)>, n: nat) -> Seq<
    (Seq<char>, (real, real)),
>
    decreases n,
{
    if n == 0 {
        Seq::empty()
    } else {
        widened(merged_ranges(lines, (n - 1) as nat), lines[n - 1].0, lines[n - 1].1, lines[n - 1].2)
    }
}

/// The error bounds that the first `n` lines of a report give.
pub open spec fn merged_errors(lines: Seq<(Seq<char>, real)>, n: nat) -> Seq<(Seq<char>, real)>
    decreases n,
{
    if n == 0 {
        Seq::empty()
    } else {
        worsened(merged_errors(lines, (n - 1) as nat), lines[n - 1].0, lines[n - 1].1)
    }
}

/// Collects the lines of a range report: identifier, lower and upper bound
/// of each line, in the order of the report.
pub fn parse_daisy_ranges(lines: &Vec<(String, Real, Real)>) -> (r: NameMap<DaisyRange>)
    ensures
        r.wf(),
        ranges_view(&r) == merged_ranges(range_lines_view(lines@), lines@.len()),
{
    let mut ranges: NameMap<DaisyRange> = NameMap::new();
    assert(ranges_view(&ranges) =~= Seq::empty());
    let mut i: usize = 0;
    while i < lines.len()
        invariant
            i <= lines.len(),
            ranges.wf(),
            ranges_view(&ranges) == merged_ranges(range_lines_view(lines@), i as nat),
        decreases lines.len() - i,
    {
        let line = &lines[i];
        record_range(&mut ranges, line.0.clone(), line.1.clone(), line.2.clone());
        i += 1;
    }
    ranges
}

/// Collects the lines of an error report: identifier and error bound of each
/// line, in the order of the report.
pub fn parse_daisy_errors(lines: &Vec<(String, Real)>) -> (r: NameMap<Real>)
    ensures
        r.wf(),
        errors_view(&r) == merged_errors(error_lines_view(lines@), lines@.len()),
{
    let mut errors: NameMap<Real> = NameMap::new();
    assert(errors_view(&errors) =~= Seq::empty());
    let mut i: usize = 0;
    while i < lines.len()
        invariant
            i <= lines.len(),
            errors.wf(),
            errors_view(&errors) == merged_errors(error_lines_view(lines@), i as nat),
        decreases lines.len() - i,
    {
        let line = &lines[i];
        record_error(&mut errors, line.0.clone(), line.1.clone());
        i += 1;
    }
    errors
}

/// Two lines for one identifier that was not reported before give the range
/// that covers both: the smaller of the lower bounds and the larger of the
/// upper bounds.
pub proof fn lemma_two_lines_cover(
    ranges: Seq<(Seq<char>, (real, real))>,
    name: Seq<char>,
    first: (real, real),
    second: (real, real),
)
    requires
        !has_name(ranges, name),
    ensures
        ({
            let both = widened(
                widened(ranges, name, first.0, first.1),
                name,
                second.0,
                second.1,
            );
            has_name(both, name) && named(both, name) == (
                min_real(first.0, second.0),
                max_real(first.1, second.1),
            )
        }),
{
    let one = widened(ranges, name, first.0, first.1);
    lemma_put_named(ranges, name, first);
    let merged = (min_real(first.0, second.0), max_real(first.1, second.1));
    lemma_put_named(one, name, merged);
}

/// After a value was stored under a name, it is what the name holds.
pub proof fn lemma_put_named<X>(entries: Seq<(Seq<char>, X)>, name: Seq<char>, value: X)
    ensures
        has_name(put(entries, name, value), name),
        named(put(entries, name, value), name) == value,
{
    let names = entry_names(entries);
    lemma_position_in(names, name);
    let p = position_in(names, name);
    let after = put(entries, name, value);
    let after_names = entry_names(after);
    assert(after_names.len() == after.len());
    assert(after[p].0 == name);
    assert forall|i: int| 0 <= i < p implies after_names[i] != name by {
        assert(after_names[i] == names[i]);
    }
    assert(after_names[p] == name);
    crate::idmap::lemma_position_is(after_names, name, p);
}

/// The smallest whole number that is not below `x`.
pub open spec fn real_ceil(x: real) -> int {
    -real_floor(-x)
}

/// The integer bits, sign included, that a fixed-point format needs for
/// values of magnitude up to `bound`: one for a bound up to one, and
/// otherwise one more than the binary digits of the largest whole number
/// below the bound.
pub open spec fn integer_bits(bound: real) -> int {
    if bound <= 1real {
        1
    } else {
        (bit_length(abs_int(real_ceil(bound) - 1)) + 1) as int
    }
}

/// The number format that a report gives as `value` for an identifier whose
/// reported range is `range`. `Double` stands for `Float64`. Fixed point with
/// a total bit count alone takes its fractional bits from the range: the
/// total less the integer bits that the larger magnitude of the two bounds
/// needs.
pub open spec fn report_precision(value: Seq<char>, range: Option<(real, real)>) -> Result<
    Precision,
    ReportError,
> {
    if value == "Double"@ {
        Ok(Precision::Float64)
    } else {
        match parse_precision(value) {
            Err(PrecisionError::InvalidTotalBits) => Err(ReportError::InvalidTotalBits),
            Err(PrecisionError::InvalidFractionalBits) => Err(ReportError::InvalidFractionalBits),
            Err(PrecisionError::TotalOutOfRange) => Err(ReportError::BitsOutOfRange),
            Err(PrecisionError::UnknownFormat) => Err(ReportError::UnknownPrecision),
            Ok(Precision::Fixed { total_bits, fractional_bits }) => if fractional_bits
                != AUTO_FRACTIONAL_BITS {
                Ok(Precision::Fixed { total_bits, fractional_bits })
            } else {
                match range {
                    None => Err(ReportError::UnknownIdentifier),
                    Some((lower, upper)) => {
                        let bits = total_bits - integer_bits(
                            max_real(abs_real(lower), abs_real(upper)),
                        );
                        if i32::MIN <= bits <= i32::MAX {
                            Ok(Precision::Fixed { total_bits, fractional_bits: bits as i32 })
                        } else {
                            Err(ReportError::BitsOutOfRange)
                        }
                    },
                }
            },
            Ok(other) => Ok(other),
        }
    }
}

/// A whole number is its own floor.
pub proof fn lemma_floor_of_whole(k: int)
    ensures
        real_floor(k as real) == k,
{
    assert(floors(k, k as real));
    let f = real_floor(k as real);
    assert(floors(f, k as real));
    if f < k {
        assert(((f + 1) as real) <= (k as real));
    }
    if k < f {
        assert(((k + 1) as real) <= (f as real));
    }
}

/// A positive number lies between the powers of two that its binary digits
/// give.
pub proof fn lemma_bit_length_bounds(n: nat)
    requires
        n >= 1,
    ensures
        bit_length(n) >= 1,
        two_to((bit_length(n) - 1) as nat) <= n < two_to(bit_length(n)),
    decreases n,
{
    if n >= 2 {
        lemma_bit_length_bounds(n / 2);
    } else {
        assert(bit_length(0) == 0);
        assert(bit_length(1) == 1 + bit_length(0));
        assert(two_to(1) == 2 * two_to(0));
    }
}

/// The integer bits that values of magnitude up to `bound` need: for a bound
/// above one, one more than the least `k` with `bound <= 2^k`.
pub fn count_integer_bits(bound: &Real) -> (r: u64)
    ensures
        r == integer_bits(bound@),
        1 <= r <= 0x1_0000_0000,
        bound@ > 1real ==> r >= 2 && (two_to((r - 2) as nat) as real) < bound@ <= (two_to(
            (r - 1) as nat,
        ) as real),
{
    let one = Real::one();
    if !one.lt(bound) {
        return 1;
    }
    let below = bound.neg().floor();
    let largest = below.neg().sub(&one);
    proof {
        lemma_floor_of_whole(real_ceil(bound@) - 1);
        assert(largest@ == (real_ceil(bound@) - 1) as real);
        let n = real_ceil(bound@) - 1;
        assert((n as real) < bound@ <= ((n + 1) as real));
        assert(n >= 1) by {
            if n < 1 {
                assert(((n + 1) as real) <= 1real);
            }
        }
        lemma_bit_length_bounds(n as nat);
        let k = bit_length(n as nat);
        assert((two_to((k - 1) as nat) as real) <= (n as real));
        assert(((n + 1) as real) <= (two_to(k) as real));
    }
    let digits = largest.floor_bits();
    digits as u64 + 1
}

/// Reads the number format that a report gives as `value` for the identifier
/// `name`, whose range, if it has one, is in `ranges`.
pub fn parse_report_precision(value: &str, name: &str, ranges: &NameMap<DaisyRange>) -> (r: Result<
    Precision,
    ReportError,
>)
    requires
        ranges.wf(),
    ensures
        r == report_precision(
            value@,
            if has_name(ranges_view(ranges), name@) {
                Some(named(ranges_view(ranges), name@))
            } else {
                None
            },
        ),
{
    proof {
        ranges.lemma_entries_with(|r: DaisyRange| r@);
    }
    if string_equals(value, "Double") {
        return Ok(Precision::Float64);
    }
    match Precision::parse(value) {
        Err(PrecisionError::InvalidTotalBits) => Err(ReportError::InvalidTotalBits),
        Err(PrecisionError::InvalidFractionalBits) => Err(ReportError::InvalidFractionalBits),
        Err(PrecisionError::TotalOutOfRange) => Err(ReportError::BitsOutOfRange),
        Err(PrecisionError::UnknownFormat) => Err(ReportError::UnknownPrecision),
        Ok(Precision::Fixed { total_bits, fractional_bits }) => {
            if fractional_bits != AUTO_FRACTIONAL_BITS {
                return Ok(Precision::Fixed { total_bits, fractional_bits });
            }
            let range = match ranges.get(name) {
                Some(range) => range,
                None => {
                    return Err(ReportError::UnknownIdentifier);
                },
            };
            let bound = range.lower.abs().max(&range.upper.abs());
            let bits: i64 = total_bits as i64 - count_integer_bits(&bound) as i64;
            if bits < -0x8000_0000 || bits > 0x7fff_ffff {
                Err(ReportError::BitsOutOfRange)
            } else {
                Ok(Precision::Fixed { total_bits, fractional_bits: bits as i32 })
            }
        },
        Ok(other) => Ok(other),
    }
}

/// Whether two texts hold the same characters.
fn string_equals(a: &str, b: &str) -> (r: bool)
    ensures
        r == (a@ == b@),
{
    let x = chars_of(a);
    let y = chars_of(b);
    if x.len() != y.len() {
        return false;
    }
    let mut i: usize = 0;
    while i < x.len()
        invariant
            i <= x.len(),
            x.len() == y.len(),
            x@ == a@,
            y@ == b@,
            forall|k: int| 0 <= k < i ==> x@[k] == y@[k],
        decreases x.len() - i,
    {
        if x[i] != y[i] {
            assert(a@[i as int] != b@[i as int]);
            return false;
        }
        i += 1;
    }
    assert(x@ =~= y@);
    true
}

/// The number formats by name, as contracts see them.
pub open spec fn formats_view(map: &NameMap<Precision>) -> Seq<(Seq<char>, Precision)> {
    map.entries_with(|p: Precision| p)
}

/// The texts of the lines of a report.
pub open spec fn lines_view(lines: Seq<String>) -> Seq<Seq<char>> {
    Seq::new(lines.len(), |i: int| lines[i]@)
}

/// The range of `name` in `ranges`, if it has one.
pub open spec fn range_of(ranges: Seq<(Seq<char>, (real, real))>, name: Seq<char>) -> Option<
    (real, real),
> {
    if has_name(ranges, name) {
        Some(named(ranges, name))
    } else {
        None
    }
}

/// What one line of a precision report adds to the formats read so far.
pub open spec fn format_line(
    formats: Seq<(Seq<char>, Precision)>,
    ranges: Seq<(Seq<char>, (real, real))>,
    line: Seq<char>,
) -> Result<Seq<(Seq<char>, Precision)>, ReportError> {
    match value_line(line) {
        Err(e) => Err(e),
        Ok(None) => Ok(formats),
        Ok(Some((name, value))) => match report_precision(value, range_of(ranges, name)) {
            Err(e) => Err(e),
            Ok(p) => Ok(put(formats, name, p)),
        },
    }
}

/// The entries of the first `n` lines of a range report, each with the
/// number of its line counted from one, blank lines left out; or the number
/// of the first line that cannot be split, with the reason.
pub open spec fn range_entries(lines: Seq<Seq<char>>, n: nat) -> Result<
    Seq<(usize, Seq<char>, Seq<char>, Seq<char>)>,
    (usize, ReportError),
>
    decreases n,
{
    if n == 0 {
        Ok(Seq::empty())
    } else {
        match range_entries(lines, (n - 1) as nat) {
            Err(e) => Err(e),
            Ok(entries) => match range_line(lines[n - 1]) {
                Err(e) => Err((n as usize, e)),
                Ok(None) => Ok(entries),
                Ok(Some((name, lower, upper))) => Ok(
                    entries.push((n as usize, name, lower, upper)),
                ),
            },
        }
    }
}

/// The entries of the first `n` lines of an error report, each with the
/// number of its line counted from one, blank lines left out; or the number
/// of the first line that cannot be split, with the reason.
pub open spec fn value_entries(lines: Seq<Seq<char>>, n: nat) -> Result<
    Seq<(usize, Seq<char>, Seq<char>)>,
    (usize, ReportError),
>
    decreases n,
{
    if n == 0 {
        Ok(Seq::empty())
    } else {
        match value_entries(lines, (n - 1) as nat) {
            Err(e) => Err(e),
            Ok(entries) => match value_line(lines[n - 1]) {
                Err(e) => Err((n as usize, e)),
                Ok(None) => Ok(entries),
                Ok(Some((name, value))) => Ok(entries.push((n as usize, name, value))),
            },
        }
    }
}

/// Once a line cannot be split, reading more lines fails in the same way.
proof fn lemma_range_entries_fail(lines: Seq<Seq<char>>, n: nat, m: nat)
    requires
        n <= m,
        range_entries(lines, n) is Err,
    ensures
        range_entries(lines, m) == range_entries(lines, n),
    decreases m - n,
{
    if n < m {
        lemma_range_entries_fail(lines, n, (m - 1) as nat);
    }
}

/// Once a line cannot be split, reading more lines fails in the same way.
proof fn lemma_value_entries_fail(lines: Seq<Seq<char>>, n: nat, m: nat)
    requires
        n <= m,
        value_entries(lines, n) is Err,
    ensures
        value_entries(lines, m) == value_entries(lines, n),
    decreases m - n,
{
    if n < m {
        lemma_value_entries_fail(lines, n, (m - 1) as nat);
    }
}

/// The entries of a range report as contracts see them.
pub open spec fn range_entries_view(entries: Seq<(usize, String, String, String)>) -> Seq<
    (usize, Seq<char>, Seq<char>, Seq<char>),
> {
    Seq::new(entries.len(), |i: int| (entries[i].0, entries[i].1@, entries[i].2@, entries[i].3@))
}

/// The entries of an error report as contracts see them.
pub open spec fn value_entries_view(entries: Seq<(usize, String, String)>) -> Seq<
    (usize, Seq<char>, Seq<char>),
> {
    Seq::new(entries.len(), |i: int| (entries[i].0, entries[i].1@, entries[i].2@))
}

/// Splits a range report, line by line: `identifier: [lower, upper]`. Blank
/// lines are skipped. The first line that cannot be split fails the whole
/// report, and nothing of the lines before it is returned.
pub fn split_range_report(lines: &Vec<String>) -> (r: Result<
    Vec<(usize, String, String, String)>,
    (usize, ReportError),
>)
    ensures
        match range_entries(lines_view(lines@), lines@.len()) {
            Ok(entries) => r matches Ok(found) && range_entries_view(found@) == entries,
            Err(e) => r matches Err(f) && f == e,
        },
{
    let mut found: Vec<(usize, String, String, String)> = Vec::new();
    assert(range_entries_view(found@) =~= Seq::empty());
    let mut i: usize = 0;
    while i < lines.len()
        invariant
            i <= lines.len(),
            range_entries(lines_view(lines@), i as nat) == Ok::<
                Seq<(usize, Seq<char>, Seq<char>, Seq<char>)>,
                (usize, ReportError),
            >(range_entries_view(found@)),
        decreases lines.len() - i,
    {
        assert(lines_view(lines@)[i as int] == lines@[i as int]@);
        match split_range_line(lines[i].as_str()) {
            Err(e) => {
                proof {
                    lemma_range_entries_fail(lines_view(lines@), (i + 1) as nat, lines@.len());
                }
                return Err((i + 1, e));
            },
            Ok(None) => {},
            Ok(Some((name, lower, upper))) => {
                let ghost before = range_entries_view(found@);
                found.push((i + 1, name, lower, upper));
                assert(range_entries_view(found@) =~= before.push(
                    ((i + 1) as usize, name@, lower@, upper@),
                ));
            },
        }
        i += 1;
    }
    Ok(found)
}

/// Splits an error report, line by line: `identifier: value`. Blank lines
/// are skipped. The first line that cannot be split fails the whole report,
/// and nothing of the lines before it is returned.
pub fn split_value_report(lines: &Vec<String>) -> (r: Result<
    Vec<(usize, String, String)>,
    (usize, ReportError),
>)
    ensures
        match value_entries(lines_view(lines@), lines@.len()) {
            Ok(entries) => r matches Ok(found) && value_entries_view(found@) == entries,
            Err(e) => r matches Err(f) && f == e,
        },
{
    let mut found: Vec<(usize, String, String)> = Vec::new();
    assert(value_entries_view(found@) =~= Seq::empty());
    let mut i: usize = 0;
    while i < lines.len()
        invariant
            i <= lines.len(),
            value_entries(lines_view(lines@), i as nat) == Ok::<
                Seq<(usize, Seq<char>, Seq<char>)>,
                (usize, ReportError),
            >(value_entries_view(found@)),
        decreases lines.len() - i,
    {
        assert(lines_view(lines@)[i as int] == lines@[i as int]@);
        match split_value_line(lines[i].as_str()) {
            Err(e) => {
                proof {
                    lemma_value_entries_fail(lines_view(lines@), (i + 1) as nat, lines@.len());
                }
                return Err((i + 1, e));
            },
            Ok(None) => {},
            Ok(Some((name, value))) => {
                let ghost before = value_entries_view(found@);
                found.push((i + 1, name, value));
                assert(value_entries_view(found@) =~= before.push(
                    ((i + 1) as usize, name@, value@),
                ));
            },
        }
        i += 1;
    }
    Ok(found)
}

/// The number formats that the first `n` lines of a precision report give,
/// or the number of the first line that cannot be read, counted from one,
/// with the reason. A later line for an identifier replaces an earlier one.
pub open spec fn formats_upto(
    lines: Seq<Seq<char>>,
    ranges: Seq<(Seq<char>, (real, real))>,
    n: nat,
) -> Result<Seq<(Seq<char>, Precision)>, (usize, ReportError)>
    decreases n,
{
    if n == 0 {
        Ok(Seq::empty())
    } else {
        match formats_upto(lines, ranges, (n - 1) as nat) {
            Err(e) => Err(e),
            Ok(formats) => match format_line(formats, ranges, lines[n - 1]) {
                Err(e) => Err((n as usize, e)),
                Ok(next) => Ok(next),
            },
        }
    }
}

/// Once a line cannot be read, reading more lines fails in the same way.
proof fn lemma_formats_fail(
    lines: Seq<Seq<char>>,
    ranges: Seq<(Seq<char>, (real, real))>,
    n: nat,
    m: nat,
)
    requires
        n <= m,
        formats_upto(lines, ranges, n) is Err,
    ensures
        formats_upto(lines, ranges, m) == formats_upto(lines, ranges, n),
    decreases m - n,
{
    if n < m {
        lemma_formats_fail(lines, ranges, n, (m - 1) as nat);
    }
}

/// The identifier that a line of a report names; nothing for a line that
/// names none.
pub open spec fn line_name(line: Seq<char>) -> Seq<char> {
    match value_line(line) {
        Ok(Some((name, _))) => name,
        _ => Seq::empty(),
    }
}

/// Why a precision report cannot be read: the number of the line, counted
/// from one, the reason, and the identifier that the line names.
#[derive(Debug)]
pub struct ReportFailure {
    pub line: usize,
    pub reason: ReportError,
    pub name: String,
}

/// Reads a precision report, line by line: `identifier: format`. Blank lines
/// are skipped. The first line that cannot be read fails the whole report:
/// the failure names the line, the reason and the identifier of the line,
/// and nothing of the lines before it is returned.
pub fn parse_daisy_precisions(lines: &Vec<String>, ranges: &NameMap<DaisyRange>) -> (r: Result<
    NameMap<Precision>,
    ReportFailure,
>)
    requires
        ranges.wf(),
    ensures
        match formats_upto(lines_view(lines@), ranges_view(ranges), lines@.len()) {
            Ok(formats) => r matches Ok(map) && map.wf() && formats_view(&map) == formats,
            Err(e) => r matches Err(f) && f.line == e.0 && f.reason == e.1 && 1 <= e.0
                <= lines@.len() && f.name@ == line_name(lines_view(lines@)[e.0 - 1]),
        },
{
    let mut formats: NameMap<Precision> = NameMap::new();
    assert(formats_view(&formats) =~= Seq::empty());
    let mut i: usize = 0;
    while i < lines.len()
        invariant
            i <= lines.len(),
            ranges.wf(),
            formats.wf(),
            formats_upto(lines_view(lines@), ranges_view(ranges), i as nat) == Ok::<
                Seq<(Seq<char>, Precision)>,
                (usize, ReportError),
            >(formats_view(&formats)),
        decreases lines.len() - i,
    {
        assert(lines_view(lines@)[i as int] == lines@[i as int]@);
        let parsed = match split_value_line(lines[i].as_str()) {
            Err(e) => {
                proof {
                    lemma_formats_fail(
                        lines_view(lines@),
                        ranges_view(ranges),
                        (i + 1) as nat,
                        lines@.len(),
                    );
                }
                let name = String::from_str("");
                proof {
                    reveal_strlit("");
                    assert(name@ =~= Seq::<char>::empty());
                }
                return Err(ReportFailure { line: i + 1, reason: e, name });
            },
            Ok(parsed) => parsed,
        };
        match parsed {
            None => {},
            Some((name, value)) => {
                match parse_report_precision(value.as_str(), name.as_str(), ranges) {
                    Err(e) => {
                        proof {
                            lemma_formats_fail(
                                lines_view(lines@),
                                ranges_view(ranges),
                                (i + 1) as nat,
                                lines@.len(),
                            );
                        }
                        return Err(ReportFailure { line: i + 1, reason: e, name });
                    },
                    Ok(p) => {
                        let ghost before = formats;
                        formats.insert(name, p);
                        proof {
                            lemma_insert_named(&before, &formats, name@, p, |p: Precision| p);
                        }
                    },
                }
            },
        }
        i += 1;
    }
    Ok(formats)
}

} // verus!
