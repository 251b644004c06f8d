//! Properties of the smart-unit text, and properties that relate the formatter to
//! the reader of durations.
use vstd::prelude::*;
use crate::decimal::{
    all_digits, decimal, digits_value, is_digit, lemma_decimal, lemma_padded_decimal,
    lemma_pow10_pos, padded_decimal, pow10,
};
use crate::format::{
    auto_parts, auto_text, components, duration_text, fixed_point, join_spaced, law_components_exact,
    part, DisplayMode,
};
use crate::parse::{
    digit_run, dot_count, duration_parts, is_decimal_number, is_number_char, lemma_digit_run,
    lemma_digits_no_dots, lemma_dot_count_concat, lemma_number_len, number_len, unit_of_suffix,
    DurationUnit,
};
use crate::text::{
    ascii_lower, ascii_lowercase, ascii_upper, ascii_uppercase, is_whitespace, lemma_split_on_append, lemma_split_on_single, split_on, trim_end,
    trim_start, trimmed,
};

verus! {

proof fn lemma_trimmed_identity(s: Seq<char>)
    requires
        s.len() > 0,
        !is_whitespace(s[0]),
        !is_whitespace(s.last()),
    ensures
        trimmed(s) == s,
{
    assert(trim_start(s) == s);
    assert(trim_end(s) == s);
}

/// What a suffix must be for a number in front of it to be read in `unit`.
spec fn suffix_for(sfx: Seq<char>, unit: DurationUnit) -> bool {
    &&& unit_of_suffix(ascii_lowercase(sfx)) == Some(unit)
    &&& sfx.len() == 0 || (!is_number_char(sfx[0]) && !is_whitespace(sfx.last()))
}

/// Reading a decimal number of digits and dots followed by a unit suffix.
proof fn lemma_read_number(num: Seq<char>, sfx: Seq<char>, unit: DurationUnit)
    requires
        num.len() > 0,
        is_digit(num[0]),
        is_digit(num.last()),
        forall|k: int| 0 <= k < num.len() ==> is_number_char(#[trigger] num[k]),
        is_decimal_number(num),
        suffix_for(sfx, unit),
    ensures
        duration_parts(num + sfx) == Ok::<(Seq<char>, DurationUnit), Seq<char>>((num, unit)),
{
    let text = num + sfx;
    assert(text[0] == num[0]);
    if sfx.len() > 0 {
        assert(text.last() == sfx.last());
    } else {
        assert(text.last() == num.last());
    }
    lemma_trimmed_identity(text);
    assert forall|k: int| 0 <= k < num.len() implies is_number_char(#[trigger] text[k]) by {
        assert(text[k] == num[k]);
    }
    if sfx.len() > 0 {
        assert(text[num.len() as int] == sfx[0]);
    }
    lemma_number_len(text, num.len() as int);
    assert(text.take(num.len() as int) =~= num);
    assert(text.skip(num.len() as int) =~= sfx);
}

/// `a.b`, for digit strings `a` and `b`, is a decimal number.
proof fn lemma_fixed_point_number(a: Seq<char>, b: Seq<char>)
    requires
        all_digits(a),
        all_digits(b),
        a.len() >= 1,
        b.len() >= 1,
    ensures
        ({
            let num = a + seq!['.'] + b;
            &&& is_digit(num[0]) && is_digit(num.last())
            &&& forall|k: int| 0 <= k < num.len() ==> is_number_char(#[trigger] num[k])
            &&& is_decimal_number(num)
        }),
{
    let num = a + seq!['.'] + b;
    assert(num[0] == a[0]);
    assert(num.last() == b[b.len() - 1]);
    assert forall|k: int| 0 <= k < num.len() implies is_number_char(#[trigger] num[k]) by {
        if k < a.len() {
            assert(num[k] == a[k]);
        } else if k > a.len() {
            assert(num[k] == b[k - a.len() - 1]);
        }
    }
    lemma_digits_no_dots(a);
    lemma_digits_no_dots(b);
    lemma_dot_count_concat(a + seq!['.'], b);
    lemma_dot_count_concat(a, seq!['.']);
    assert(seq!['.'].drop_last() =~= Seq::<char>::empty());
    assert(dot_count(Seq::<char>::empty()) == 0);
    assert(dot_count(seq!['.']) == 1);
}

/// A non-empty digit string is a decimal number.
proof fn lemma_whole_number(a: Seq<char>)
    requires
        all_digits(a),
        a.len() >= 1,
    ensures
        is_digit(a[0]) && is_digit(a.last()),
        forall|k: int| 0 <= k < a.len() ==> is_number_char(#[trigger] a[k]),
        is_decimal_number(a),
{
    assert(is_digit(a[a.len() - 1]));
    lemma_digits_no_dots(a);
}

/// Reading back `n` shown with `k` fractional digits, followed by a unit suffix.
proof fn lemma_read_back_fixed_point(n: nat, k: nat, sfx: Seq<char>, unit: DurationUnit)
    requires
        k >= 1,
        suffix_for(sfx, unit),
    ensures
        duration_parts(fixed_point(n, k) + sfx) == Ok::<(Seq<char>, DurationUnit), Seq<char>>(
            (fixed_point(n, k), unit),
        ),
{
    lemma_pow10_pos(k);
    let p = pow10(k);
    lemma_decimal(n / p);
    lemma_padded_decimal(n % p, k);
    lemma_fixed_point_number(decimal(n / p), padded_decimal(n % p, k));
    lemma_read_number(fixed_point(n, k), sfx, unit);
}

/// A duration shown in decimal seconds reads back as that very number of seconds.
pub proof fn law_seconds_read_back(n: nat)
    ensures
        duration_parts(duration_text(n, DisplayMode::Seconds)) == Ok::<
            (Seq<char>, DurationUnit),
            Seq<char>,
        >((duration_text(n, DisplayMode::Seconds), DurationUnit::Seconds)),
{
    assert(ascii_lowercase(Seq::<char>::empty()) =~= Seq::<char>::empty());
    lemma_read_back_fixed_point(n, 9, Seq::<char>::empty(), DurationUnit::Seconds);
    assert(fixed_point(n, 9) + Seq::<char>::empty() =~= fixed_point(n, 9));
}

/// A duration shown in decimal milliseconds, with `ms` added, reads back as that very
/// number of milliseconds.
pub proof fn law_millis_read_back(n: nat)
    ensures
        duration_parts(duration_text(n, DisplayMode::Millis) + seq!['m', 's']) == Ok::<
            (Seq<char>, DurationUnit),
            Seq<char>,
        >((duration_text(n, DisplayMode::Millis), DurationUnit::Millis)),
{
    assert(ascii_lowercase(seq!['m', 's']) =~= seq!['m', 's']);
    lemma_read_back_fixed_point(n, 6, seq!['m', 's'], DurationUnit::Millis);
}

/// A duration shown in decimal microseconds, with `us` added, reads back as that very
/// number of microseconds.
pub proof fn law_micros_read_back(n: nat)
    ensures
        duration_parts(duration_text(n, DisplayMode::Micros) + seq!['u', 's']) == Ok::<
            (Seq<char>, DurationUnit),
            Seq<char>,
        >((duration_text(n, DisplayMode::Micros), DurationUnit::Micros)),
{
    assert(ascii_lowercase(seq!['u', 's']) =~= seq!['u', 's']);
    lemma_read_back_fixed_point(n, 3, seq!['u', 's'], DurationUnit::Micros);
}

/// A duration shown in whole nanoseconds, with `ns` added, reads back as that very
/// number of nanoseconds.
pub proof fn law_nanos_read_back(n: nat)
    ensures
        duration_parts(duration_text(n, DisplayMode::Nanos) + seq!['n', 's']) == Ok::<
            (Seq<char>, DurationUnit),
            Seq<char>,
        >((decimal(n), DurationUnit::Nanos)),
{
    assert(ascii_lowercase(seq!['n', 's']) =~= seq!['n', 's']);
    lemma_decimal(n);
    lemma_whole_number(decimal(n));
    lemma_read_number(decimal(n), seq!['n', 's'], DurationUnit::Nanos);
}

/// Nanoseconds per unit of a smart-unit part (0 for anything else).
pub open spec fn unit_scale(unit: Seq<char>) -> nat {
    if unit == seq!['h'] {
        3_600_000_000_000
    } else if unit == seq!['m'] {
        60_000_000_000
    } else if unit == seq!['s'] {
        1_000_000_000
    } else if unit == seq!['m', 's'] {
        1_000_000
    } else if unit == seq!['μ', 's'] {
        1_000
    } else if unit == seq!['n', 's'] {
        1
    } else {
        0
    }
}

proof fn lemma_unit_scales()
    ensures
        unit_scale(seq!['h']) == 3_600_000_000_000,
        unit_scale(seq!['m']) == 60_000_000_000,
        unit_scale(seq!['s']) == 1_000_000_000,
        unit_scale(seq!['m', 's']) == 1_000_000,
        unit_scale(seq!['μ', 's']) == 1_000,
        unit_scale(seq!['n', 's']) == 1,
{
    let h = seq!['h'];
    let m = seq!['m'];
    let s = seq!['s'];
    let ms = seq!['m', 's'];
    let us = seq!['μ', 's'];
    let ns = seq!['n', 's'];
    assert(m[0] != h[0] && s[0] != h[0] && s[0] != m[0]);
    assert(ms.len() != h.len() && ms.len() != m.len() && ms.len() != s.len());
    assert(us.len() != h.len() && us.len() != m.len() && us.len() != s.len() && us[0] != ms[0]);
    assert(ns.len() != h.len() && ns.len() != m.len() && ns.len() != s.len() && ns[0] != ms[0]
        && ns[0] != us[0]);
}

/// The nanoseconds that one `<digits><unit>` part stands for.
pub open spec fn part_nanos(p: Seq<char>) -> nat {
    let k = digit_run(p) as int;
    digits_value(p.take(k)) * unit_scale(p.skip(k))
}

/// The nanoseconds that a list of parts stands for.
pub open spec fn parts_nanos(ps: Seq<Seq<char>>) -> nat
    decreases ps.len(),
{
    if ps.len() == 0 {
        0
    } else {
        parts_nanos(ps.drop_last()) + part_nanos(ps.last())
    }
}

/// Reading a smart-unit text: the total of its space-separated parts.
pub open spec fn auto_text_nanos(t: Seq<char>) -> nat {
    parts_nanos(split_on(t, ' '))
}

/// No part holds a space.
spec fn spaceless(ps: Seq<Seq<char>>) -> bool {
    forall|i: int, k: int| 0 <= i < ps.len() && 0 <= k < ps[i].len() ==> #[trigger] ps[i][k] != ' '
}

proof fn lemma_parts_nanos_concat(a: Seq<Seq<char>>, b: Seq<Seq<char>>)
    ensures
        parts_nanos(a + b) == parts_nanos(a) + parts_nanos(b),
    decreases b.len(),
{
    if b.len() > 0 {
        assert((a + b).drop_last() =~= a + b.drop_last());
        lemma_parts_nanos_concat(a, b.drop_last());
    } else {
        assert(a + b =~= a);
    }
}

/// The part for `value` in `unit` holds no space and stands for `value` units.
proof fn lemma_part(value: nat, unit: Seq<char>)
    requires
        unit.len() > 0,
        !is_digit(unit[0]),
        forall|k: int| 0 <= k < unit.len() ==> #[trigger] unit[k] != ' ',
    ensures
        spaceless(part(value, unit)),
        parts_nanos(part(value, unit)) == value * unit_scale(unit),
{
    if value > 0 {
        lemma_decimal(value);
        let d = decimal(value);
        let p = d + unit;
        assert forall|k: int| 0 <= k < d.len() implies is_digit(#[trigger] p[k]) by {
            assert(p[k] == d[k]);
        }
        assert(p[d.len() as int] == unit[0]);
        lemma_digit_run(p, d.len() as int);
        assert(p.take(d.len() as int) =~= d);
        assert(p.skip(d.len() as int) =~= unit);
        assert forall|k: int| 0 <= k < p.len() implies #[trigger] p[k] != ' ' by {
            if k < d.len() {
                assert(is_digit(d[k]));
            } else {
                assert(p[k] == unit[k - d.len()]);
            }
        }
        assert(part(value, unit) =~= seq![p]);
        assert(seq![p].drop_last() =~= Seq::<Seq<char>>::empty());
        assert(parts_nanos(seq![p]) == parts_nanos(Seq::<Seq<char>>::empty()) + part_nanos(p));
        assert(part_nanos(p) == digits_value(d) * unit_scale(unit));
    } else {
        assert(part(value, unit) =~= Seq::<Seq<char>>::empty());
        assert(parts_nanos(Seq::<Seq<char>>::empty()) == 0);
        assert(value * unit_scale(unit) == 0);
    }
}

proof fn lemma_spaceless_concat(a: Seq<Seq<char>>, b: Seq<Seq<char>>)
    requires
        spaceless(a),
        spaceless(b),
    ensures
        spaceless(a + b),
{
    assert forall|i: int, k: int| 0 <= i < (a + b).len() && 0 <= k < (a + b)[i].len() implies #[trigger] (a + b)[i][k] != ' ' by {
        if i < a.len() {
            assert((a + b)[i] == a[i]);
        } else {
            assert((a + b)[i] == b[i - a.len()]);
        }
    }
}

/// Splitting joined space-free parts at spaces gives the parts back.
proof fn lemma_split_join(ps: Seq<Seq<char>>)
    requires
        ps.len() > 0,
        spaceless(ps),
    ensures
        split_on(join_spaced(ps), ' ') == ps,
    decreases ps.len(),
{
    let last = ps.last();
    assert forall|k: int| 0 <= k < last.len() implies #[trigger] last[k] != ' ' by {
        assert(ps[ps.len() - 1][k] != ' ');
    }
    if ps.len() == 1 {
        lemma_split_on_single(ps[0], ' ');
        assert(seq![ps[0]] =~= ps);
    } else {
        let init = ps.drop_last();
        assert forall|i: int, k: int| 0 <= i < init.len() && 0 <= k < init[i].len() implies #[trigger] init[i][k] != ' ' by {
            assert(init[i] == ps[i]);
        }
        lemma_split_join(init);
        lemma_split_on_append(join_spaced(init), ' ', last);
        assert(init.push(last) =~= ps);
    }
}

/// The smart-unit text of `n` reads back as `n`.
pub proof fn lemma_auto_text_reads_back(n: nat)
    ensures
        auto_text_nanos(auto_text(n)) == n,
{
    let (h, m, s, ms, us, ns) = components(n);
    law_components_exact(n);
    lemma_unit_scales();
    assert(seq!['h'][0] == 'h' && seq!['m'][0] == 'm' && seq!['s'][0] == 's');
    assert(seq!['m', 's'][0] == 'm' && seq!['μ', 's'][0] == 'μ' && seq!['n', 's'][0] == 'n');
    assert(seq!['m', 's'][1] == 's' && seq!['μ', 's'][1] == 's' && seq!['n', 's'][1] == 's');
    lemma_part(h, seq!['h']);
    lemma_part(m, seq!['m']);
    lemma_part(s, seq!['s']);
    lemma_part(ms, seq!['m', 's']);
    lemma_part(us, seq!['μ', 's']);
    lemma_part(ns, seq!['n', 's']);
    let a1 = part(h, seq!['h']);
    let a2 = a1 + part(m, seq!['m']);
    let a3 = a2 + part(s, seq!['s']);
    let a4 = a3 + part(ms, seq!['m', 's']);
    let a5 = a4 + part(us, seq!['μ', 's']);
    let a6 = a5 + part(ns, seq!['n', 's']);
    assert(a6 == auto_parts(n));
    lemma_parts_nanos_concat(a1, part(m, seq!['m']));
    lemma_parts_nanos_concat(a2, part(s, seq!['s']));
    lemma_parts_nanos_concat(a3, part(ms, seq!['m', 's']));
    lemma_parts_nanos_concat(a4, part(us, seq!['μ', 's']));
    lemma_parts_nanos_concat(a5, part(ns, seq!['n', 's']));
    lemma_spaceless_concat(a1, part(m, seq!['m']));
    lemma_spaceless_concat(a2, part(s, seq!['s']));
    lemma_spaceless_concat(a3, part(ms, seq!['m', 's']));
    lemma_spaceless_concat(a4, part(us, seq!['μ', 's']));
    lemma_spaceless_concat(a5, part(ns, seq!['n', 's']));
    if auto_parts(n).len() == 0 {
        let z = seq!['0', 'n', 's'];
        assert(h == 0 && m == 0 && s == 0 && ms == 0 && us == 0 && ns == 0);
        lemma_split_on_single(z, ' ');
        lemma_decimal(0);
        let d = decimal(0);
        assert(d =~= seq!['0']);
        lemma_digit_run(z, 1);
        assert(z.take(1) =~= d);
        assert(z.skip(1) =~= seq!['n', 's']);
        assert(seq![z].drop_last() =~= Seq::<Seq<char>>::empty());
        assert(auto_text(n) == z);
        assert(unit_scale(seq!['n', 's']) == 1);
        assert(digits_value(d) == 0);
        assert(part_nanos(z) == 0);
        assert(parts_nanos(seq![z]) == parts_nanos(Seq::<Seq<char>>::empty()) + part_nanos(z));
        assert(n == 0);
    } else {
        lemma_split_join(auto_parts(n));
        assert(auto_text(n) == join_spaced(auto_parts(n)));
        assert(parts_nanos(a6) == h * 3_600_000_000_000 + m * 60_000_000_000 + s * 1_000_000_000
            + ms * 1_000_000 + us * 1_000 + ns);
    }
}

/// Different durations have different smart-unit texts: the text tells the duration.
pub proof fn law_auto_text_distinct(a: nat, b: nat)
    requires
        a != b,
    ensures
        auto_text(a) != auto_text(b),
{
    lemma_auto_text_reads_back(a);
    lemma_auto_text_reads_back(b);
}

/// `s` and `t` agree character by character once ASCII letters are lower-cased.
spec fn folds_alike(s: Seq<char>, t: Seq<char>) -> bool {
    s.len() == t.len() && forall|i: int| 0 <= i < s.len() ==> #[trigger] ascii_lower(s[i])
        == ascii_lower(t[i])
}

proof fn lemma_fold_char(c: char, d: char)
    requires
        ascii_lower(c) == ascii_lower(d),
    ensures
        is_whitespace(c) == is_whitespace(d),
        is_number_char(c) ==> c == d,
        is_number_char(d) ==> c == d,
{
    if 'A' <= c && c <= 'Z' {
        assert((((c as int) + 32) as char) as int == (c as int) + 32);
    }
    if 'A' <= d && d <= 'Z' {
        assert((((d as int) + 32) as char) as int == (d as int) + 32);
    }
}

proof fn lemma_folds_alike_from_lowercase(s: Seq<char>, t: Seq<char>)
    requires
        ascii_lowercase(s) == ascii_lowercase(t),
    ensures
        folds_alike(s, t),
{
    assert(ascii_lowercase(s).len() == s.len());
    assert(ascii_lowercase(t).len() == t.len());
    assert forall|i: int| 0 <= i < s.len() implies #[trigger] ascii_lower(s[i]) == ascii_lower(t[i]) by {
        assert(ascii_lowercase(s)[i] == ascii_lower(s[i]));
        assert(ascii_lowercase(t)[i] == ascii_lower(t[i]));
    }
}

proof fn lemma_fold_trim_start(s: Seq<char>, t: Seq<char>)
    requires
        folds_alike(s, t),
    ensures
        folds_alike(trim_start(s), trim_start(t)),
    decreases s.len(),
{
    if s.len() > 0 {
        assert(ascii_lower(s[0]) == ascii_lower(t[0]));
        lemma_fold_char(s[0], t[0]);
        if is_whitespace(s[0]) {
            assert forall|i: int| 0 <= i < s.drop_first().len() implies #[trigger] ascii_lower(s.drop_first()[i]) == ascii_lower(t.drop_first()[i]) by {
                assert(ascii_lower(s[i + 1]) == ascii_lower(t[i + 1]));
            }
            lemma_fold_trim_start(s.drop_first(), t.drop_first());
        }
    }
}

proof fn lemma_fold_trim_end(s: Seq<char>, t: Seq<char>)
    requires
        folds_alike(s, t),
    ensures
        folds_alike(trim_end(s), trim_end(t)),
    decreases s.len(),
{
    if s.len() > 0 {
        let j = s.len() - 1;
        assert(ascii_lower(s[j]) == ascii_lower(t[j]));
        lemma_fold_char(s[j], t[j]);
        if is_whitespace(s.last()) {
            assert forall|i: int| 0 <= i < s.drop_last().len() implies #[trigger] ascii_lower(s.drop_last()[i]) == ascii_lower(t.drop_last()[i]) by {
                assert(ascii_lower(s[i]) == ascii_lower(t[i]));
            }
            lemma_fold_trim_end(s.drop_last(), t.drop_last());
        }
    }
}

proof fn lemma_fold_number_len(s: Seq<char>, t: Seq<char>)
    requires
        folds_alike(s, t),
    ensures
        number_len(s) == number_len(t),
    decreases s.len(),
{
    if s.len() > 0 {
        assert(ascii_lower(s[0]) == ascii_lower(t[0]));
        lemma_fold_char(s[0], t[0]);
        assert forall|i: int| 0 <= i < s.drop_first().len() implies #[trigger] ascii_lower(s.drop_first()[i]) == ascii_lower(t.drop_first()[i]) by {
            assert(ascii_lower(s[i + 1]) == ascii_lower(t[i + 1]));
        }
        lemma_fold_number_len(s.drop_first(), t.drop_first());
    }
}

/// Number characters are never letters, so texts that fold alike agree on a prefix of
/// number characters.
proof fn lemma_fold_number_prefix(s: Seq<char>, t: Seq<char>, n: int)
    requires
        folds_alike(s, t),
        0 <= n <= s.len(),
        forall|k: int| 0 <= k < n ==> is_number_char(#[trigger] s[k]),
    ensures
        s.take(n) == t.take(n),
{
    assert forall|k: int| 0 <= k < n implies s.take(n)[k] == t.take(n)[k] by {
        assert(ascii_lower(s[k]) == ascii_lower(t[k]));
        assert(is_number_char(s[k]));
        lemma_fold_char(s[k], t[k]);
    }
    assert(s.take(n) =~= t.take(n));
}

proof fn lemma_number_len_chars(t: Seq<char>)
    ensures
        number_len(t) <= t.len(),
        forall|k: int| 0 <= k < number_len(t) ==> is_number_char(#[trigger] t[k]),
    decreases t.len(),
{
    if t.len() > 0 && is_number_char(t[0]) {
        lemma_number_len_chars(t.drop_first());
        assert forall|k: int| 0 <= k < number_len(t) implies is_number_char(#[trigger] t[k]) by {
            if k > 0 {
                assert(t[k] == t.drop_first()[k - 1]);
            }
        }
    }
}

proof fn lemma_trim_start_after_space(w: Seq<char>, x: Seq<char>)
    requires
        forall|k: int| 0 <= k < w.len() ==> is_whitespace(#[trigger] w[k]),
    ensures
        trim_start(w + x) == trim_start(x),
    decreases w.len(),
{
    if w.len() > 0 {
        assert(is_whitespace(w[0]));
        assert((w + x)[0] == w[0]);
        assert((w + x).drop_first() =~= w.drop_first() + x);
        assert forall|k: int| 0 <= k < w.drop_first().len() implies is_whitespace(#[trigger] w.drop_first()[k]) by {
            assert(w.drop_first()[k] == w[k + 1]);
        }
        lemma_trim_start_after_space(w.drop_first(), x);
    } else {
        assert(w + x =~= x);
    }
}

proof fn lemma_trim_end_before_space(x: Seq<char>, w: Seq<char>)
    requires
        forall|k: int| 0 <= k < w.len() ==> is_whitespace(#[trigger] w[k]),
    ensures
        trim_end(x + w) == trim_end(x),
    decreases w.len(),
{
    if w.len() > 0 {
        assert(is_whitespace(w[w.len() - 1]));
        assert((x + w).last() == w.last());
        assert((x + w).drop_last() =~= x + w.drop_last());
        assert forall|k: int| 0 <= k < w.drop_last().len() implies is_whitespace(#[trigger] w.drop_last()[k]) by {
            assert(w.drop_last()[k] == w[k]);
        }
        lemma_trim_end_before_space(x, w.drop_last());
    } else {
        assert(x + w =~= x);
    }
}

proof fn lemma_trimmed_ignores_trailing_space(x: Seq<char>, w: Seq<char>)
    requires
        forall|k: int| 0 <= k < w.len() ==> is_whitespace(#[trigger] w[k]),
    ensures
        trimmed(x + w) == trimmed(x),
    decreases x.len(),
{
    if x.len() == 0 {
        assert(x + w =~= Seq::<char>::empty() + w);
        lemma_trim_start_after_space(w, Seq::<char>::empty());
        assert(w + Seq::<char>::empty() =~= w);
        assert(x + w =~= w);
    } else if is_whitespace(x[0]) {
        assert((x + w)[0] == x[0]);
        assert((x + w).drop_first() =~= x.drop_first() + w);
        lemma_trimmed_ignores_trailing_space(x.drop_first(), w);
    } else {
        assert((x + w)[0] == x[0]);
        lemma_trim_end_before_space(x, w);
    }
}

/// Surrounding whitespace and the ASCII case of letters do not change what an accepted
/// duration reads as: whitespace before and after it, and any text that is the same
/// once ASCII letters are lower-cased, give the same reading.
pub proof fn law_parse_ignores_spacing_and_case(s: Seq<char>, t: Seq<char>, w1: Seq<char>, w2: Seq<char>)
    requires
        duration_parts(s) is Ok,
        ascii_lowercase(t) == ascii_lowercase(s),
        forall|k: int| 0 <= k < w1.len() ==> is_whitespace(#[trigger] w1[k]),
        forall|k: int| 0 <= k < w2.len() ==> is_whitespace(#[trigger] w2[k]),
    ensures
        duration_parts(w1 + t + w2) == duration_parts(s),
{
    let x = w1 + t + w2;
    assert(x =~= w1 + (t + w2));
    lemma_trim_start_after_space(w1, t + w2);
    lemma_trimmed_ignores_trailing_space(t, w2);
    assert(trimmed(x) == trimmed(t));
    lemma_folds_alike_from_lowercase(s, t);
    lemma_fold_trim_start(s, t);
    lemma_fold_trim_end(trim_start(s), trim_start(t));
    let ts = trimmed(s);
    let tt = trimmed(t);
    lemma_fold_number_len(ts, tt);
    let n = number_len(ts) as int;
    lemma_number_len_chars(ts);
    lemma_fold_number_prefix(ts, tt, n);
    let sfx_s = ts.skip(n);
    let sfx_t = tt.skip(n);
    assert(ascii_lowercase(sfx_s) =~= ascii_lowercase(sfx_t)) by {
        assert forall|i: int| 0 <= i < sfx_s.len() implies ascii_lowercase(sfx_s)[i] == ascii_lowercase(sfx_t)[i] by {
            assert(ascii_lower(ts[i + n]) == ascii_lower(tt[i + n]));
        }
    }
}

/// An accepted duration written in ASCII capitals with a space on either side reads
/// the same.
pub proof fn law_parse_ignores_spaces_and_capitals(s: Seq<char>)
    requires
        duration_parts(s) is Ok,
    ensures
        duration_parts(seq![' '] + ascii_uppercase(s) + seq![' ']) == duration_parts(s),
{
    assert(ascii_lowercase(ascii_uppercase(s)) =~= ascii_lowercase(s)) by {
        assert forall|i: int| 0 <= i < s.len() implies ascii_lower(ascii_upper(s[i])) == ascii_lower(s[i]) by {
            let c = s[i];
            if 'a' <= c && c <= 'z' {
                assert((((c as int) - 32) as char) as int == (c as int) - 32);
            }
        }
    }
    assert(is_whitespace(' '));
    law_parse_ignores_spacing_and_case(s, ascii_uppercase(s), seq![' '], seq![' ']);
}

/// How many of the six smart-unit components of `n` are nonzero.
pub open spec fn nonzero_components(n: nat) -> nat {
    let (h, m, s, ms, us, ns) = components(n);
    (if h > 0 { 1nat } else { 0nat }) + (if m > 0 { 1nat } else { 0nat }) + (if s > 0 { 1nat } else { 0nat })
        + (if ms > 0 { 1nat } else { 0nat }) + (if us > 0 { 1nat } else { 0nat }) + (if ns > 0 { 1nat } else { 0nat })
}

/// The largest nonzero component of `n` in decimal, with its unit (`0` nanoseconds for
/// zero).
pub open spec fn leading_component(n: nat) -> (Seq<char>, DurationUnit) {
    let (h, m, s, ms, us, ns) = components(n);
    if h > 0 {
        (decimal(h), DurationUnit::Hours)
    } else if m > 0 {
        (decimal(m), DurationUnit::Minutes)
    } else if s > 0 {
        (decimal(s), DurationUnit::Seconds)
    } else if ms > 0 {
        (decimal(ms), DurationUnit::Millis)
    } else if us > 0 {
        (decimal(us), DurationUnit::Micros)
    } else {
        (decimal(ns), DurationUnit::Nanos)
    }
}

proof fn lemma_read_part(v: nat, u: Seq<char>, unit: DurationUnit)
    requires
        suffix_for(u, unit),
    ensures
        duration_parts(decimal(v) + u) == Ok::<(Seq<char>, DurationUnit), Seq<char>>((decimal(v), unit)),
{
    lemma_decimal(v);
    lemma_whole_number(decimal(v));
    lemma_read_number(decimal(v), u, unit);
}

/// A smart-unit text with a single component, such as `5m` or `250ms`, reads back as
/// that component's number and unit (and `0ns` as 0 nanoseconds).
pub proof fn law_single_unit_auto_text_reads_back(n: nat)
    requires
        nonzero_components(n) <= 1,
    ensures
        duration_parts(auto_text(n)) == Ok::<(Seq<char>, DurationUnit), Seq<char>>(leading_component(n)),
{
    let (h, m, s, ms, us, ns) = components(n);
    let uh = seq!['h'];
    let um = seq!['m'];
    let us_ = seq!['s'];
    let ums = seq!['m', 's'];
    let uus = seq!['μ', 's'];
    let uns = seq!['n', 's'];
    assert(ascii_lowercase(uh) =~= uh && ascii_lowercase(um) =~= um && ascii_lowercase(us_) =~= us_);
    assert(ascii_lowercase(ums) =~= ums && ascii_lowercase(uus) =~= uus && ascii_lowercase(uns) =~= uns);
    assert(uh[0] == 'h' && um[0] == 'm' && us_[0] == 's' && ums[0] == 'm' && uus[0] == 'μ' && uns[0] == 'n');
    assert(uh.last() == 'h' && um.last() == 'm' && us_.last() == 's' && ums.last() == 's'
        && uus.last() == 's' && uns.last() == 's');
    assert(ums != um && ums != us_ && ums != uh) by {
        assert(ums.len() != um.len());
    }
    assert(uus != uh && uus != um && uus != us_ && uus != ums) by {
        assert(uus.len() != uh.len());
        assert(uus[0] != ums[0]);
    }
    assert(uns != uh && uns != um && uns != us_ && uns != ums && uns != uus) by {
        assert(uns.len() != uh.len());
        assert(uns[0] != ums[0]);
        assert(uns[0] != uus[0]);
    }
    assert(um != uh && us_ != uh && us_ != um) by {
        assert(um[0] != uh[0]);
        assert(us_[0] != uh[0]);
        assert(us_[0] != um[0]);
    }
    let e: Seq<Seq<char>> = seq![];
    if h > 0 {
        let p = decimal(h) + uh;
        assert(auto_parts(n) =~~= seq![p]);
        lemma_read_part(h, uh, DurationUnit::Hours);
    } else if m > 0 {
        let p = decimal(m) + um;
        assert(auto_parts(n) =~~= seq![p]);
        lemma_read_part(m, um, DurationUnit::Minutes);
    } else if s > 0 {
        let p = decimal(s) + us_;
        assert(auto_parts(n) =~~= seq![p]);
        lemma_read_part(s, us_, DurationUnit::Seconds);
    } else if ms > 0 {
        let p = decimal(ms) + ums;
        assert(auto_parts(n) =~~= seq![p]);
        lemma_read_part(ms, ums, DurationUnit::Millis);
    } else if us > 0 {
        let p = decimal(us) + uus;
        assert(auto_parts(n) =~~= seq![p]);
        lemma_read_part(us, uus, DurationUnit::Micros);
    } else if ns > 0 {
        let p = decimal(ns) + uns;
        assert(auto_parts(n) =~~= seq![p]);
        lemma_read_part(ns, uns, DurationUnit::Nanos);
    } else {
        assert(auto_parts(n) =~~= e);
        assert(decimal(0) =~= seq!['0']);
        assert(seq!['0', 'n', 's'] =~= decimal(0) + uns);
        lemma_read_part(0, uns, DurationUnit::Nanos);
    }
}

} // verus!
