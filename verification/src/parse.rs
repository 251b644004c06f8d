//! Reading a duration such as `30s`, `1.5ms` or `5m`: its decimal number and its unit.
use vstd::prelude::*;
use crate::decimal::{all_digits, is_digit};
use crate::text::{
    ascii_lowercase, chars_eq, chars_of, lowercase_chars, message, slice_chars,
    string_from_chars, trim_chars, trimmed,
};

verus! {

/// Whether `c` may belong to the number at the start of a duration.
pub open spec fn is_number_char(c: char) -> bool {
    is_digit(c) || c == '.'
}

/// The length of the longest prefix of `t` made of digits and dots.
pub open spec fn number_len(t: Seq<char>) -> nat
    decreases t.len(),
{
    if t.len() > 0 && is_number_char(t[0]) {
        1 + number_len(t.drop_first())
    } else {
        0
    }
}

/// The number of dots in `s`.
pub open spec fn dot_count(s: Seq<char>) -> nat
    decreases s.len(),
{
    if s.len() == 0 {
        0
    } else {
        dot_count(s.drop_last()) + if s.last() == '.' { 1nat } else { 0nat }
    }
}

/// The length of the longest prefix of `s` made of digits.
pub open spec fn digit_run(s: Seq<char>) -> nat
    decreases s.len(),
{
    if s.len() > 0 && is_digit(s[0]) {
        1 + digit_run(s.drop_first())
    } else {
        0
    }
}

/// Whether a string of digits and dots is a decimal number that `f64::from_str`
/// accepts: at most one dot and at least one digit.
pub open spec fn is_decimal_number(num: Seq<char>) -> bool {
    dot_count(num) <= 1 && dot_count(num) < num.len()
}

/// The unit a duration's number is counted in.
#[derive(Clone, Copy, Debug, PartialEq, Eq, Structural)]
pub enum DurationUnit {
    Hours,
    Minutes,
    Seconds,
    Millis,
    Micros,
    Nanos,
}

/// A duration as written: a decimal number (digits with at most one dot and at least one
/// digit) and its unit.
#[derive(Clone, Debug, PartialEq, Eq)]
pub struct DurationText {
    pub number: String,
    pub unit: DurationUnit,
}

/// The unit named by a lower-cased suffix: none or `s` for seconds, `ms`, `μs` or `us`,
/// `ns`, `m` for minutes and `h` for hours.
pub open spec fn unit_of_suffix(suffix: Seq<char>) -> Option<DurationUnit> {
    if suffix == Seq::<char>::empty() || suffix == seq!['s'] {
        Some(DurationUnit::Seconds)
    } else if suffix == seq!['m', 's'] {
        Some(DurationUnit::Millis)
    } else if suffix == seq!['μ', 's'] || suffix == seq!['u', 's'] {
        Some(DurationUnit::Micros)
    } else if suffix == seq!['n', 's'] {
        Some(DurationUnit::Nanos)
    } else if suffix == seq!['m'] {
        Some(DurationUnit::Minutes)
    } else if suffix == seq!['h'] {
        Some(DurationUnit::Hours)
    } else {
        None
    }
}

/// What reading the text `s` as a duration gives: the number and its unit, or the error
/// message.
pub open spec fn duration_parts(s: Seq<char>) -> Result<(Seq<char>, DurationUnit), Seq<char>> {
    let t = trimmed(s);
    let n = number_len(t);
    let num = t.take(n as int);
    let suffix = t.skip(n as int);
    if t.len() == 0 {
        Err("empty duration"@)
    } else if n == 0 || !is_decimal_number(num) {
        Err("invalid duration: "@ + t)
    } else {
        match unit_of_suffix(ascii_lowercase(suffix)) {
            Some(unit) => Ok((num, unit)),
            None => Err("unknown time suffix: "@ + suffix),
        }
    }
}

/// The plain form of a reading.
pub open spec fn parts_view(r: Result<DurationText, String>) -> Result<(Seq<char>, DurationUnit), Seq<char>> {
    match r {
        Ok(d) => Ok((d.number@, d.unit)),
        Err(e) => Err(e@),
    }
}

pub proof fn lemma_digit_run(s: Seq<char>, j: int)
    requires
        0 <= j <= s.len(),
        forall|k: int| 0 <= k < j ==> is_digit(#[trigger] s[k]),
        j == s.len() || !is_digit(s[j]),
    ensures
        digit_run(s) == j,
    decreases j,
{
    if j > 0 {
        let r = s.drop_first();
        assert forall|k: int| 0 <= k < j - 1 implies is_digit(#[trigger] r[k]) by {
            assert(r[k] == s[k + 1]);
        }
        lemma_digit_run(r, j - 1);
    }
}

pub proof fn lemma_dot_count_concat(a: Seq<char>, b: Seq<char>)
    ensures
        dot_count(a + b) == dot_count(a) + dot_count(b),
    decreases b.len(),
{
    if b.len() > 0 {
        assert((a + b).drop_last() =~= a + b.drop_last());
        lemma_dot_count_concat(a, b.drop_last());
    } else {
        assert(a + b =~= a);
    }
}

pub proof fn lemma_digits_no_dots(s: Seq<char>)
    requires
        all_digits(s),
    ensures
        dot_count(s) == 0,
    decreases s.len(),
{
    if s.len() > 0 {
        assert(all_digits(s.drop_last())) by {
            assert forall|i: int| 0 <= i < s.drop_last().len() implies is_digit(#[trigger] s.drop_last()[i]) by {
                assert(s.drop_last()[i] == s[i]);
            }
        }
        lemma_digits_no_dots(s.drop_last());
        assert(is_digit(s[s.len() - 1]));
    }
}

/// The unit named by a lower-cased suffix, or `None` for an unknown suffix.
fn unit_of(suffix: &Vec<char>) -> (unit: Option<DurationUnit>)
    ensures
        unit == unit_of_suffix(suffix@),
{
    let empty: Vec<char> = Vec::new();
    let s = vec!['s'];
    let ms = vec!['m', 's'];
    let mu = vec!['μ', 's'];
    let us = vec!['u', 's'];
    let ns = vec!['n', 's'];
    let m = vec!['m'];
    let h = vec!['h'];
    assert(empty@ =~= Seq::<char>::empty() && s@ =~= seq!['s'] && ms@ =~= seq!['m', 's']);
    assert(mu@ =~= seq!['μ', 's'] && us@ =~= seq!['u', 's'] && ns@ =~= seq!['n', 's']);
    assert(m@ =~= seq!['m'] && h@ =~= seq!['h']);
    if chars_eq(suffix, &empty) || chars_eq(suffix, &s) {
        Some(DurationUnit::Seconds)
    } else if chars_eq(suffix, &ms) {
        Some(DurationUnit::Millis)
    } else if chars_eq(suffix, &mu) || chars_eq(suffix, &us) {
        Some(DurationUnit::Micros)
    } else if chars_eq(suffix, &ns) {
        Some(DurationUnit::Nanos)
    } else if chars_eq(suffix, &m) {
        Some(DurationUnit::Minutes)
    } else if chars_eq(suffix, &h) {
        Some(DurationUnit::Hours)
    } else {
        None
    }
}

pub proof fn lemma_number_len(t: Seq<char>, j: int)
    requires
        0 <= j <= t.len(),
        forall|k: int| 0 <= k < j ==> is_number_char(#[trigger] t[k]),
        j == t.len() || !is_number_char(t[j]),
    ensures
        number_len(t) == j,
    decreases j,
{
    if j > 0 {
        let r = t.drop_first();
        assert forall|k: int| 0 <= k < j - 1 implies is_number_char(#[trigger] r[k]) by {
            assert(r[k] == t[k + 1]);
        }
        lemma_number_len(r, j - 1);
    }
}

/// Counts the dots in `s`.
fn count_dots(s: &Vec<char>) -> (n: usize)
    ensures
        n == dot_count(s@),
{
    let mut n: usize = 0;
    let mut i: usize = 0;
    while i < s.len()
        invariant
            0 <= i <= s@.len(),
            n == dot_count(s@.take(i as int)),
            n <= i,
        decreases s.len() - i,
    {
        assert(s@.take(i + 1).drop_last() =~= s@.take(i as int));
        if s[i] == '.' {
            n += 1;
        }
        i += 1;
    }
    assert(s@.take(i as int) =~= s@);
    n
}

/// Reads a duration: optional surrounding whitespace, a decimal number (digits with at
/// most one dot and at least one digit) and a unit suffix, matched without regard to
/// ASCII case: none or `s` for seconds, `ms`, `μs` or `us`, `ns`, `m` for minutes, `h`
/// for hours. The result is the number, as written, and its unit. An empty text, a
/// missing or malformed number, and an unknown suffix are errors, each with its message.
pub fn parse_duration(s: &str) -> (r: Result<DurationText, String>)
    ensures
        parts_view(r) == duration_parts(s@),
{
    parse_duration_chars(&chars_of(s))
}

/// Reads a duration given as characters; see `parse_duration`.
pub fn parse_duration_chars(raw: &Vec<char>) -> (r: Result<DurationText, String>)
    ensures
        parts_view(r) == duration_parts(raw@),
{
    let t = trim_chars(raw);
    if t.len() == 0 {
        return Err("empty duration".to_owned());
    }
    let mut n: usize = 0;
    while n < t.len() && (crate::decimal::char_is_digit(t[n]) || t[n] == '.')
        invariant
            0 <= n <= t@.len(),
            forall|k: int| 0 <= k < n ==> is_number_char(#[trigger] t@[k]),
        decreases t.len() - n,
    {
        n += 1;
    }
    proof {
        lemma_number_len(t@, n as int);
    }
    if n == 0 {
        return Err(message("invalid duration: ", &t));
    }
    let num = slice_chars(&t, 0, n);
    assert(num@ =~= t@.take(n as int));
    let dots = count_dots(&num);
    if dots > 1 || dots >= num.len() {
        return Err(message("invalid duration: ", &t));
    }
    let suffix = slice_chars(&t, n, t.len());
    assert(suffix@ =~= t@.skip(n as int));
    let lower = lowercase_chars(&suffix);
    match unit_of(&lower) {
        None => Err(message("unknown time suffix: ", &suffix)),
        Some(unit) => Ok(DurationText { number: string_from_chars(&num), unit }),
    }
}

} // verus!
