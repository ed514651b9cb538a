//! Decimal rendering of integers and small helpers on character sequences.

use vstd::prelude::*;
use vstd::string::*;

verus! {

/// The character that stands for the decimal digit `d`.
pub open spec fn digit_char(d: int) -> char {
    if d == 0 {
        '0'
    } else if d == 1 {
        '1'
    } else if d == 2 {
        '2'
    } else if d == 3 {
        '3'
    } else if d == 4 {
        '4'
    } else if d == 5 {
        '5'
    } else if d == 6 {
        '6'
    } else if d == 7 {
        '7'
    } else if d == 8 {
        '8'
    } else {
        '9'
    }
}

/// Decimal digits of `n`, most significant first, without leading zeros.
pub open spec fn nat_text(n: nat) -> Seq<char>
    decreases n,
{
    if n < 10 {
        seq![digit_char(n as int)]
    } else {
        nat_text(n / 10).push(digit_char((n % 10) as int))
    }
}

/// Decimal text of a signed integer: a minus sign before the magnitude of a
/// negative number.
pub open spec fn int_text(i: int) -> Seq<char> {
    if i < 0 {
        seq!['-'] + nat_text((-i) as nat)
    } else {
        nat_text(i as nat)
    }
}

/// Whether `c` is one of the ten decimal digits.
pub open spec fn is_digit(c: char) -> bool {
    c == '0' || c == '1' || c == '2' || c == '3' || c == '4' || c == '5' || c == '6' || c == '7'
        || c == '8' || c == '9'
}

/// The value of the digit `c`.
pub open spec fn digit_value(c: char) -> int {
    if c == '0' {
        0
    } else if c == '1' {
        1
    } else if c == '2' {
        2
    } else if c == '3' {
        3
    } else if c == '4' {
        4
    } else if c == '5' {
        5
    } else if c == '6' {
        6
    } else if c == '7' {
        7
    } else if c == '8' {
        8
    } else {
        9
    }
}

/// The number that a sequence of digits denotes; leading zeros count for
/// nothing and the empty sequence denotes zero.
pub open spec fn digits_value(s: Seq<char>) -> nat
    decreases s.len(),
{
    if s.len() == 0 {
        0
    } else {
        (digits_value(s.drop_last()) * 10 + digit_value(s.last())) as nat
    }
}

/// Every character of `s` is a decimal digit.
pub open spec fn all_digits(s: Seq<char>) -> bool {
    forall|i: int| 0 <= i < s.len() ==> is_digit(#[trigger] s[i])
}

/// The text of a number consists of digits, is not empty, and reads back as
/// the number.
pub proof fn lemma_nat_text_digits(n: nat)
    ensures
        nat_text(n).len() >= 1,
        all_digits(nat_text(n)),
        digits_value(nat_text(n)) == n,
        n > 0 ==> nat_text(n)[0] != '0',
    decreases n,
{
    if n < 10 {
        assert(nat_text(n) =~= seq![digit_char(n as int)]);
        assert(nat_text(n).drop_last() =~= Seq::<char>::empty());
        assert(digits_value(nat_text(n).drop_last()) == 0);
    } else {
        lemma_nat_text_digits(n / 10);
        let p = nat_text(n / 10);
        let t = nat_text(n);
        assert(t =~= p.push(digit_char((n % 10) as int)));
        assert(t.drop_last() =~= p);
        assert(t[0] == p[0]);
        assert forall|i: int| 0 <= i < t.len() implies is_digit(#[trigger] t[i]) by {
            if i < p.len() {
                assert(t[i] == p[i]);
            }
        }
    }
}

/// Two numbers with the same decimal text are the same number.
pub proof fn lemma_nat_text_injective(a: nat, b: nat)
    requires
        nat_text(a) == nat_text(b),
    ensures
        a == b,
{
    lemma_nat_text_digits(a);
    lemma_nat_text_digits(b);
}

/// The one-character string of a decimal digit.
fn digit_str(d: usize) -> (r: &'static str)
    requires
        d < 10,
    ensures
        r@ == seq![digit_char(d as int)],
{
    proof {
        reveal_strlit("0");
        reveal_strlit("1");
        reveal_strlit("2");
        reveal_strlit("3");
        reveal_strlit("4");
        reveal_strlit("5");
        reveal_strlit("6");
        reveal_strlit("7");
        reveal_strlit("8");
        reveal_strlit("9");
    }
    let r = if d == 0 {
        "0"
    } else if d == 1 {
        "1"
    } else if d == 2 {
        "2"
    } else if d == 3 {
        "3"
    } else if d == 4 {
        "4"
    } else if d == 5 {
        "5"
    } else if d == 6 {
        "6"
    } else if d == 7 {
        "7"
    } else if d == 8 {
        "8"
    } else {
        "9"
    };
    assert(r@ =~= seq![digit_char(d as int)]);
    r
}

/// Renders `n` in decimal.
pub fn u64_to_text(n: u64) -> (r: String)
    ensures
        r@ == nat_text(n as nat),
    decreases n,
{
    if n < 10 {
        String::from_str(digit_str(n as usize))
    } else {
        let mut s = u64_to_text(n / 10);
        s.append(digit_str((n % 10) as usize));
        assert(s@ =~= nat_text((n / 10) as nat).push(digit_char((n % 10) as int)));
        s
    }
}

/// Renders `n` in decimal.
pub fn usize_to_text(n: usize) -> (r: String)
    ensures
        r@ == nat_text(n as nat),
{
    u64_to_text(n as u64)
}

/// Renders `n` in decimal, with a leading minus sign when it is negative.
pub fn i64_to_text(n: i64) -> (r: String)
    ensures
        r@ == int_text(n as int),
{
    if n >= 0 {
        u64_to_text(n as u64)
    } else {
        let magnitude: u64 = ((-(n + 1)) as u64) + 1;
        let mut s = String::from_str("-");
        let digits = u64_to_text(magnitude);
        s.append(digits.as_str());
        proof {
            reveal_strlit("-");
            assert(s@ =~= seq!['-'] + nat_text((-(n as int)) as nat));
        }
        s
    }
}

/// The characters of a text, one by one.
pub fn chars_of(s: &str) -> (r: Vec<char>)
    ensures
        r@ == s@,
{
    let n = s.unicode_len();
    let mut out: Vec<char> = Vec::new();
    let mut i: usize = 0;
    while i < n
        invariant
            n as nat == s@.len(),
            i <= n,
            out@ == s@.subrange(0, i as int),
        decreases n - i,
    {
        out.push(s.get_char(i));
        assert(out@ =~= s@.subrange(0, i + 1));
        i += 1;
    }
    assert(out@ =~= s@);
    out
}

/// Position of the first `c` in `s`; the length of `s` when there is none.
pub open spec fn find_char(s: Seq<char>, c: char) -> int
    decreases s.len(),
{
    if s.len() == 0 {
        0
    } else if s[0] == c {
        0
    } else {
        1 + find_char(s.skip(1), c)
    }
}

/// `find_char` gives a position within `s` or its length, the character there
/// is `c`, and no earlier one is.
pub proof fn lemma_find_char(s: Seq<char>, c: char)
    ensures
        0 <= find_char(s, c) <= s.len(),
        find_char(s, c) < s.len() ==> s[find_char(s, c)] == c,
        forall|i: int| 0 <= i < find_char(s, c) ==> s[i] != c,
    decreases s.len(),
{
    if s.len() > 0 && s[0] != c {
        lemma_find_char(s.skip(1), c);
        assert forall|i: int| 0 <= i < find_char(s, c) implies s[i] != c by {
            if i > 0 {
                assert(s.skip(1)[i - 1] == s[i]);
            }
        }
    }
}

/// A position that holds `c` and has no `c` before it is what `find_char`
/// gives; so is the length of a text without any `c`.
pub proof fn lemma_find_char_is(s: Seq<char>, c: char, p: int)
    requires
        0 <= p <= s.len(),
        p < s.len() ==> s[p] == c,
        forall|i: int| 0 <= i < p ==> s[i] != c,
    ensures
        find_char(s, c) == p,
{
    lemma_find_char(s, c);
}

/// Finds the first `c` at or after `from`.
pub fn find_from(s: &Vec<char>, c: char, from: usize) -> (r: usize)
    requires
        from <= s.len(),
    ensures
        r == from + find_char(s@.skip(from as int), c),
        from <= r <= s.len(),
{
    let mut i: usize = from;
    while i < s.len() && s[i] != c
        invariant
            from <= i <= s.len(),
            forall|k: int| from <= k < i ==> s@[k] != c,
        decreases s.len() - i,
    {
        i += 1;
    }
    proof {
        let t = s@.skip(from as int);
        assert forall|k: int| 0 <= k < i - from implies t[k] != c by {
            assert(t[k] == s@[from + k]);
        }
        lemma_find_char_is(t, c, i - from);
    }
    i
}

/// Finds the first `c` between `from` and `to`; `to` when there is none.
pub fn find_between(s: &Vec<char>, c: char, from: usize, to: usize) -> (r: usize)
    requires
        from <= to <= s.len(),
    ensures
        r == from + find_char(s@.subrange(from as int, to as int), c),
        from <= r <= to,
{
    let mut i: usize = from;
    while i < to && s[i] != c
        invariant
            from <= i <= to <= s.len(),
            forall|k: int| from <= k < i ==> s@[k] != c,
        decreases to - i,
    {
        i += 1;
    }
    proof {
        let t = s@.subrange(from as int, to as int);
        assert forall|k: int| 0 <= k < i - from implies t[k] != c by {
            assert(t[k] == s@[from + k]);
        }
        if i < to {
            assert(t[i - from] == s@[i as int]);
        }
        lemma_find_char_is(t, c, i - from);
    }
    i
}

/// The characters of `line` between two positions, as a text of its own.
pub fn slice_text(line: &str, from: usize, to: usize) -> (r: String)
    requires
        from <= to <= line@.len(),
    ensures
        r@ == line@.subrange(from as int, to as int),
{
    String::from_str(line.substring_char(from, to))
}

/// Whether `c` is a decimal digit.
pub fn is_digit_char(c: char) -> (r: bool)
    ensures
        r == is_digit(c),
{
    c == '0' || c == '1' || c == '2' || c == '3' || c == '4' || c == '5' || c == '6' || c == '7'
        || c == '8' || c == '9'
}

/// Whether the characters from `from` up to `to` are all decimal digits.
pub fn digits_between(s: &Vec<char>, from: usize, to: usize) -> (r: bool)
    requires
        from <= to <= s.len(),
    ensures
        r == all_digits(s@.subrange(from as int, to as int)),
{
    let mut i: usize = from;
    while i < to
        invariant
            from <= i <= to <= s.len(),
            forall|k: int| from <= k < i ==> is_digit(s@[k]),
        decreases to - i,
    {
        if !is_digit_char(s[i]) {
            proof {
                let t = s@.subrange(from as int, to as int);
                assert(t[i - from] == s@[i as int]);
            }
            return false;
        }
        i += 1;
    }
    proof {
        let t = s@.subrange(from as int, to as int);
        assert forall|k: int| 0 <= k < t.len() implies is_digit(#[trigger] t[k]) by {
            assert(t[k] == s@[from + k]);
        }
    }
    true
}

/// Joins two texts.
pub fn concat(a: &str, b: &str) -> (r: String)
    ensures
        r@ == a@ + b@,
{
    let mut s = String::from_str(a);
    s.append(b);
    s
}

/// Joins three texts.
pub fn concat3(a: &str, b: &str, c: &str) -> (r: String)
    ensures
        r@ == a@ + b@ + c@,
{
    let mut s = String::from_str(a);
    s.append(b);
    s.append(c);
    s
}

} // verus!
