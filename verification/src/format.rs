//! Rendering a duration, given in nanoseconds, for display.
use vstd::prelude::*;
use crate::decimal::{decimal, padded_decimal, pow10, push_decimal, push_padded};
use crate::text::string_from_chars;

verus! {

/// Nanoseconds in an hour, a minute, a second, a millisecond and a microsecond.
pub const NANOS_PER_HOUR: u128 = 3_600_000_000_000;
pub const NANOS_PER_MINUTE: u128 = 60_000_000_000;
pub const NANOS_PER_SECOND: u128 = 1_000_000_000;
pub const NANOS_PER_MILLI: u128 = 1_000_000;
pub const NANOS_PER_MICRO: u128 = 1_000;

/// How a duration is shown.
#[derive(Clone, Copy, Debug, PartialEq, Eq, Structural)]
pub enum DisplayMode {
    /// Smart units, e.g. `1m 10s 982ms 441μs 221ns`.
    Auto,
    /// Decimal seconds, e.g. `70.982441221`.
    Seconds,
    /// Decimal milliseconds, e.g. `70982.441221`.
    Millis,
    /// Decimal microseconds, e.g. `70982441.221`.
    Micros,
    /// Integer nanoseconds, e.g. `70982441221`.
    Nanos,
}

/// The six unit components of `n` nanoseconds: hours (unbounded), then minutes,
/// seconds, milliseconds, microseconds and nanoseconds, each within its unit's range.
pub open spec fn components(n: nat) -> (nat, nat, nat, nat, nat, nat) {
    (
        n / 3_600_000_000_000,
        (n % 3_600_000_000_000) / 60_000_000_000,
        (n % 60_000_000_000) / 1_000_000_000,
        (n % 1_000_000_000) / 1_000_000,
        (n % 1_000_000) / 1_000,
        n % 1_000,
    )
}

/// One `<value><unit>` part, present only when `value` is nonzero.
pub open spec fn part(value: nat, unit: Seq<char>) -> Seq<Seq<char>> {
    if value > 0 {
        seq![decimal(value) + unit]
    } else {
        seq![]
    }
}

/// The nonzero parts of `n` nanoseconds, largest unit first.
pub open spec fn auto_parts(n: nat) -> Seq<Seq<char>> {
    let (h, m, s, ms, us, ns) = components(n);
    part(h, seq!['h']) + part(m, seq!['m']) + part(s, seq!['s']) + part(ms, seq!['m', 's'])
        + part(us, seq!['μ', 's']) + part(ns, seq!['n', 's'])
}

/// The parts joined by single spaces.
pub open spec fn join_spaced(parts: Seq<Seq<char>>) -> Seq<char>
    decreases parts.len(),
{
    if parts.len() == 0 {
        seq![]
    } else if parts.len() == 1 {
        parts[0]
    } else {
        join_spaced(parts.drop_last()) + seq![' '] + parts.last()
    }
}

/// The smart-unit text of `n` nanoseconds: its nonzero parts joined by spaces, or `0ns`.
pub open spec fn auto_text(n: nat) -> Seq<char> {
    if auto_parts(n).len() == 0 {
        seq!['0', 'n', 's']
    } else {
        join_spaced(auto_parts(n))
    }
}

/// `n` nanoseconds as a decimal number of units of `10^k` nanoseconds, with `k`
/// fractional digits.
pub open spec fn fixed_point(n: nat, k: nat) -> Seq<char> {
    decimal(n / pow10(k)) + seq!['.'] + padded_decimal(n % pow10(k), k)
}

/// The text of `n` nanoseconds in display mode `mode`.
pub open spec fn duration_text(n: nat, mode: DisplayMode) -> Seq<char> {
    match mode {
        DisplayMode::Auto => auto_text(n),
        DisplayMode::Seconds => fixed_point(n, 9),
        DisplayMode::Millis => fixed_point(n, 6),
        DisplayMode::Micros => fixed_point(n, 3),
        DisplayMode::Nanos => decimal(n),
    }
}

proof fn lemma_join_push(parts: Seq<Seq<char>>, p: Seq<char>)
    requires
        parts.len() > 0,
    ensures
        join_spaced(parts.push(p)) == join_spaced(parts) + seq![' '] + p,
{
    assert(parts.push(p).drop_last() =~= parts);
}

/// Appends the part for `value` (if nonzero) to the text built so far, which holds
/// `join_spaced(parts)`.
fn push_part(out: &mut Vec<char>, value: u128, unit: &Vec<char>, Ghost(parts): Ghost<Seq<Seq<char>>>)
    requires
        old(out)@ == join_spaced(parts),
        old(out)@.len() == 0 <==> parts.len() == 0,
    ensures
        final(out)@ == join_spaced(parts + part(value as nat, unit@)),
        final(out)@.len() == 0 <==> (parts + part(value as nat, unit@)).len() == 0,
{
    if value > 0 {
        let ghost p = decimal(value as nat) + unit@;
        assert(parts + part(value as nat, unit@) =~= parts.push(p));
        if out.len() > 0 {
            out.push(' ');
            proof { lemma_join_push(parts, p); }
        } else {
            assert(parts.push(p) =~= seq![p]);
        }
        push_decimal(out, value);
        let mut i: usize = 0;
        while i < unit.len()
            invariant
                0 <= i <= unit@.len(),
                out@ == old(out)@ + (if old(out)@.len() > 0 { seq![' '] } else { seq![] })
                    + decimal(value as nat) + unit@.take(i as int),
            decreases unit.len() - i,
        {
            out.push(unit[i]);
            i += 1;
            assert(unit@.take(i as int) =~= unit@.take(i - 1).push(unit@[i - 1]));
        }
        assert(unit@.take(i as int) =~= unit@);
        proof {
            if old(out)@.len() > 0 {
                assert(out@ =~= join_spaced(parts) + seq![' '] + p);
            } else {
                assert(out@ =~= p);
            }
        }
    } else {
        assert(parts + part(value as nat, unit@) =~= parts);
    }
}

/// Formats a duration of `total_ns` nanoseconds with smart units, largest first,
/// leaving out zero components: `1m 10s 982ms 441μs 221ns`; zero is `0ns`.
pub fn format_duration_auto(total_ns: u128) -> (text: String)
    ensures
        text@ == auto_text(total_ns as nat),
{
    let hours = total_ns / NANOS_PER_HOUR;
    let minutes = (total_ns % NANOS_PER_HOUR) / NANOS_PER_MINUTE;
    let seconds = (total_ns % NANOS_PER_MINUTE) / NANOS_PER_SECOND;
    let millis = (total_ns % NANOS_PER_SECOND) / NANOS_PER_MILLI;
    let micros = (total_ns % NANOS_PER_MILLI) / NANOS_PER_MICRO;
    let nanos = total_ns % NANOS_PER_MICRO;

    let unit_h = vec!['h'];
    let unit_m = vec!['m'];
    let unit_s = vec!['s'];
    let unit_ms = vec!['m', 's'];
    let unit_us = vec!['μ', 's'];
    let unit_ns = vec!['n', 's'];
    assert(unit_h@ =~= seq!['h'] && unit_m@ =~= seq!['m'] && unit_s@ =~= seq!['s']);
    assert(unit_ms@ =~= seq!['m', 's'] && unit_us@ =~= seq!['μ', 's'] && unit_ns@ =~= seq!['n', 's']);

    let mut out: Vec<char> = Vec::new();
    let ghost p0: Seq<Seq<char>> = seq![];
    assert(out@ =~= join_spaced(p0));
    push_part(&mut out, hours, &unit_h, Ghost(p0));
    let ghost p1 = p0 + part(hours as nat, seq!['h']);
    push_part(&mut out, minutes, &unit_m, Ghost(p1));
    let ghost p2 = p1 + part(minutes as nat, seq!['m']);
    push_part(&mut out, seconds, &unit_s, Ghost(p2));
    let ghost p3 = p2 + part(seconds as nat, seq!['s']);
    push_part(&mut out, millis, &unit_ms, Ghost(p3));
    let ghost p4 = p3 + part(millis as nat, seq!['m', 's']);
    push_part(&mut out, micros, &unit_us, Ghost(p4));
    let ghost p5 = p4 + part(micros as nat, seq!['μ', 's']);
    push_part(&mut out, nanos, &unit_ns, Ghost(p5));
    let ghost p6 = p5 + part(nanos as nat, seq!['n', 's']);
    assert(p6 =~= auto_parts(total_ns as nat));
    if out.len() == 0 {
        out = vec!['0', 'n', 's'];
    }
    string_from_chars(&out)
}

/// Appends `n` as a decimal number of units of `10^k` nanoseconds with `k` fractional digits.
fn push_fixed_point(out: &mut Vec<char>, n: u128, k: usize, unit: u128)
    requires
        unit == pow10(k as nat),
        unit > 0,
    ensures
        final(out)@ == old(out)@ + fixed_point(n as nat, k as nat),
{
    push_decimal(out, n / unit);
    out.push('.');
    push_padded(out, n % unit, k);
}

/// Formats a duration of `total_ns` nanoseconds in the given display mode: smart units,
/// decimal seconds (9 fractional digits), decimal milliseconds (6), decimal
/// microseconds (3), or integer nanoseconds.
pub fn format_duration(total_ns: u128, mode: DisplayMode) -> (text: String)
    ensures
        text@ == duration_text(total_ns as nat, mode),
{
    proof {
        reveal_with_fuel(pow10, 10);
    }
    let mut out: Vec<char> = Vec::new();
    match mode {
        DisplayMode::Auto => {
            return format_duration_auto(total_ns);
        },
        DisplayMode::Seconds => push_fixed_point(&mut out, total_ns, 9, NANOS_PER_SECOND),
        DisplayMode::Millis => push_fixed_point(&mut out, total_ns, 6, NANOS_PER_MILLI),
        DisplayMode::Micros => push_fixed_point(&mut out, total_ns, 3, NANOS_PER_MICRO),
        DisplayMode::Nanos => push_decimal(&mut out, total_ns),
    }
    assert(out@ =~= duration_text(total_ns as nat, mode));
    string_from_chars(&out)
}

/// One level of the unit breakdown: the remainder modulo a larger unit `a * b`, split
/// into whole units of `a` (fewer than `b`) and the remainder modulo `a`.
proof fn lemma_unit_level(n: int, a: int, b: int)
    requires
        n >= 0,
        a > 0,
        b > 0,
    ensures
        (n % (a * b)) / a < b,
        (n % (a * b)) == a * ((n % (a * b)) / a) + n % a,
{
    vstd::arithmetic::div_mod::lemma_mod_breakdown(n, a, b);
    vstd::arithmetic::div_mod::lemma_mod_mod(n, a, b);
    let r = n % (a * b);
    vstd::arithmetic::div_mod::lemma_fundamental_div_mod(r, a);
    assert(0 <= (n / a) % b < b) by {
        vstd::arithmetic::div_mod::lemma_mod_bound(n / a, b);
    }
    assert(r / a == (n / a) % b) by {
        vstd::arithmetic::div_mod::lemma_div_multiples_vanish_fancy((n / a) % b, n % a, a);
        vstd::arithmetic::div_mod::lemma_mod_bound(n, a);
    }
}

/// The smart-unit breakdown loses nothing: minutes and seconds are below 60, the
/// smaller units below 1000, and together, in their units, they make up the duration.
pub proof fn law_components_exact(n: nat)
    ensures
        ({
            let (h, m, s, ms, us, ns) = components(n);
            &&& m < 60 && s < 60 && ms < 1000 && us < 1000 && ns < 1000
            &&& h * 3_600_000_000_000 + m * 60_000_000_000 + s * 1_000_000_000 + ms * 1_000_000
                + us * 1_000 + ns == n
        }),
{
    let x = n as int;
    vstd::arithmetic::div_mod::lemma_fundamental_div_mod(x, 3_600_000_000_000);
    lemma_unit_level(x, 60_000_000_000, 60);
    lemma_unit_level(x, 1_000_000_000, 60);
    lemma_unit_level(x, 1_000_000, 1000);
    lemma_unit_level(x, 1_000, 1000);
    vstd::arithmetic::div_mod::lemma_mod_bound(x, 1_000);
}

} // verus!
