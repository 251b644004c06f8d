//! Decimal digits: rendering unsigned integers and reading digit strings.
use vstd::prelude::*;

verus! {

/// The ASCII character for a digit `d < 10`.
pub open spec fn digit_char(d: nat) -> char {
    (48 + d) as char
}

/// Whether `c` is one of `'0'..='9'`.
pub open spec fn is_digit(c: char) -> bool {
    '0' <= c && c <= '9'
}

/// The value of a digit character.
pub open spec fn digit_value(c: char) -> nat {
    (c as int - 48) as nat
}

/// The shortest decimal rendering of `n`, as `{}` prints an unsigned integer.
pub open spec fn decimal(n: nat) -> Seq<char>
    decreases n,
{
    if n < 10 {
        seq![digit_char(n)]
    } else {
        decimal(n / 10).push(digit_char(n % 10))
    }
}

/// The last `width` decimal digits of `n`, with leading zeros.
pub open spec fn padded_decimal(n: nat, width: nat) -> Seq<char>
    decreases width,
{
    if width == 0 {
        seq![]
    } else {
        padded_decimal(n / 10, (width - 1) as nat).push(digit_char(n % 10))
    }
}

/// Whether every character of `s` is a decimal digit.
pub open spec fn all_digits(s: Seq<char>) -> bool {
    forall|i: int| 0 <= i < s.len() ==> is_digit(#[trigger] s[i])
}

/// The value of a string of decimal digits, most significant first (0 for the empty string).
pub open spec fn digits_value(s: Seq<char>) -> nat
    decreases s.len(),
{
    if s.len() == 0 {
        0
    } else {
        digits_value(s.drop_last()) * 10 + digit_value(s.last())
    }
}

/// `10` to the power `k`.
pub open spec fn pow10(k: nat) -> nat
    decreases k,
{
    if k == 0 {
        1
    } else {
        10 * pow10((k - 1) as nat)
    }
}

/// The character for a digit.
pub fn digit_to_char(d: u128) -> (c: char)
    requires
        d < 10,
    ensures
        c == digit_char(d as nat),
        is_digit(c),
        digit_value(c) == d,
{
    let b: u8 = 48u8 + d as u8;
    b as char
}

/// Appends the decimal rendering of `n` to `out`.
pub fn push_decimal(out: &mut Vec<char>, n: u128)
    ensures
        final(out)@ == old(out)@ + decimal(n as nat),
    decreases n,
{
    if n >= 10 {
        push_decimal(out, n / 10);
    }
    let c = digit_to_char(n % 10);
    out.push(c);
}

/// Appends the last `width` decimal digits of `n`, zero-padded.
pub fn push_padded(out: &mut Vec<char>, n: u128, width: usize)
    ensures
        final(out)@ == old(out)@ + padded_decimal(n as nat, width as nat),
    decreases width,
{
    if width > 0 {
        push_padded(out, n / 10, width - 1);
        let c = digit_to_char(n % 10);
        out.push(c);
    }
}

/// Whether `c` is a decimal digit.
pub fn char_is_digit(c: char) -> (b: bool)
    ensures
        b == is_digit(c),
{
    '0' <= c && c <= '9'
}

/// The value of a digit character.
pub fn char_digit_value(c: char) -> (d: u8)
    requires
        is_digit(c),
    ensures
        d == digit_value(c),
        d < 10,
{
    (c as u8) - 48
}

proof fn lemma_digit_char(d: nat)
    requires
        d < 10,
    ensures
        is_digit(digit_char(d)),
        digit_value(digit_char(d)) == d,
{
}

/// The decimal rendering of `n` is a non-empty string of digits whose value is `n`.
pub proof fn lemma_decimal(n: nat)
    ensures
        all_digits(decimal(n)),
        decimal(n).len() >= 1,
        digits_value(decimal(n)) == n,
    decreases n,
{
    lemma_digit_char(n % 10);
    if n >= 10 {
        lemma_decimal(n / 10);
        let p = decimal(n / 10);
        assert(decimal(n).drop_last() =~= p);
        assert(decimal(n).last() == digit_char(n % 10));
        assert forall|i: int| 0 <= i < decimal(n).len() implies is_digit(#[trigger] decimal(n)[i]) by {
            if i < p.len() {
                assert(decimal(n)[i] == p[i]);
            }
        }
        assert(digits_value(decimal(n)) == (n / 10) * 10 + n % 10);
    } else {
        assert(decimal(n).drop_last() =~= Seq::<char>::empty());
        assert(decimal(n).last() == digit_char(n));
        lemma_digit_char(n);
        assert(digits_value(decimal(n).drop_last()) == 0);
    }
}

/// The zero-padded rendering of `n` has `width` digits, whose value is `n` modulo `10^width`.
pub proof fn lemma_padded_decimal(n: nat, width: nat)
    ensures
        all_digits(padded_decimal(n, width)),
        padded_decimal(n, width).len() == width,
        digits_value(padded_decimal(n, width)) == n % pow10(width),
    decreases width,
{
    if width == 0 {
        assert(n % 1 == 0);
    } else {
        let w1 = (width - 1) as nat;
        lemma_padded_decimal(n / 10, w1);
        lemma_digit_char(n % 10);
        let p = padded_decimal(n / 10, w1);
        let full = padded_decimal(n, width);
        assert(full.drop_last() =~= p);
        assert forall|i: int| 0 <= i < full.len() implies is_digit(#[trigger] full[i]) by {
            if i < p.len() {
                assert(full[i] == p[i]);
            }
        }
        lemma_pow10_pos(w1);
        vstd::arithmetic::div_mod::lemma_mod_breakdown(n as int, 10, pow10(w1) as int);
        assert(pow10(width) == 10 * pow10(w1));
        assert(digits_value(full) == ((n / 10) % pow10(w1)) * 10 + n % 10);
    }
}

pub proof fn lemma_pow10_pos(k: nat)
    ensures
        pow10(k) > 0,
    decreases k,
{
    if k > 0 {
        lemma_pow10_pos((k - 1) as nat);
    }
}

/// The digits of `v` after an optional leading `+`.
pub open spec fn unsigned_digits(v: Seq<char>) -> Seq<char> {
    if v.len() > 0 && v[0] == '+' {
        v.drop_first()
    } else {
        v
    }
}

/// What `usize::from_str` gives for `v`: an optional `+` and at least one digit, with a
/// value that fits in a `usize`.
pub open spec fn usize_parse(v: Seq<char>) -> Option<usize> {
    let d = unsigned_digits(v);
    if d.len() > 0 && all_digits(d) && digits_value(d) <= usize::MAX {
        Some(digits_value(d) as usize)
    } else {
        None
    }
}

/// `2^64`: larger running values are held at this cap while reading digits.
const READ_CAP: u128 = 0x1_0000_0000_0000_0000;

/// Reads an unsigned integer as `usize::from_str` does.
pub fn parse_usize(v: &Vec<char>) -> (r: Option<usize>)
    ensures
        r == usize_parse(v@),
{
    let start: usize = if v.len() > 0 && v[0] == '+' { 1 } else { 0 };
    let ghost d = unsigned_digits(v@);
    assert(d =~= v@.skip(start as int));
    if start == v.len() {
        return None;
    }
    let mut acc: u128 = 0;
    let mut i: usize = start;
    while i < v.len()
        invariant
            start <= i <= v@.len(),
            d == v@.skip(start as int),
            d == unsigned_digits(v@),
            all_digits(v@.subrange(start as int, i as int)),
            acc == if digits_value(v@.subrange(start as int, i as int)) < READ_CAP {
                digits_value(v@.subrange(start as int, i as int))
            } else {
                READ_CAP as nat
            },
        decreases v.len() - i,
    {
        if !char_is_digit(v[i]) {
            assert(d[i - start] == v@[i as int]);
            assert(!is_digit(d[i - start]));
            assert(!all_digits(d));
            return None;
        }
        let digit = char_digit_value(v[i]);
        assert(v@.subrange(start as int, i + 1).drop_last() =~= v@.subrange(start as int, i as int));
        assert forall|k: int| 0 <= k < i + 1 - start implies is_digit(#[trigger] v@.subrange(start as int, i + 1)[k]) by {
            if k < i - start {
                assert(v@.subrange(start as int, i + 1)[k] == v@.subrange(start as int, i as int)[k]);
            }
        }
        let next = acc * 10 + digit as u128;
        acc = if next < READ_CAP { next } else { READ_CAP };
        i += 1;
    }
    assert(v@.subrange(start as int, i as int) =~= d);
    if acc > usize::MAX as u128 {
        None
    } else {
        Some(acc as usize)
    }
}

/// A decimal number within `usize` reads as itself.
pub proof fn lemma_usize_parse_decimal(n: nat)
    requires
        n <= usize::MAX,
    ensures
        usize_parse(decimal(n)) == Some(n as usize),
{
    lemma_decimal(n);
    assert(is_digit(decimal(n)[0]));
    assert(unsigned_digits(decimal(n)) == decimal(n));
}

} // verus!
