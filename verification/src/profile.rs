//! Reading a profile: lines of `key=value` settings for runs, warmup and quiet.
use vstd::prelude::*;
use crate::decimal::{
    decimal, is_digit, lemma_decimal, lemma_usize_parse_decimal, parse_usize, usize_parse,
};
use crate::text::{
    chars_eq, chars_of, lemma_split_on_append, slice_chars, split_on, trim_chars, trim_end, trim_start,
    trimmed,
};

verus! {

/// The settings a profile gives: measured runs, warmup runs, and quiet output.
pub type ProfileSettings = (usize, usize, bool);

/// The settings before any line is read: one run, no warmup, not quiet.
pub open spec fn profile_defaults() -> ProfileSettings {
    (1, 0, false)
}

/// The pieces of `s` between line breaks, in order (an empty piece where two breaks
/// meet, and at the end after a final break).
pub open spec fn split_lines(s: Seq<char>) -> Seq<Seq<char>> {
    split_on(s, '\n')
}

/// The position of the first `=` in `s`, if any.
pub open spec fn first_equals(s: Seq<char>) -> Option<nat>
    decreases s.len(),
{
    if s.len() == 0 {
        None
    } else if s[0] == '=' {
        Some(0)
    } else {
        match first_equals(s.drop_first()) {
            Some(i) => Some(i + 1),
            None => None,
        }
    }
}

/// The settings after one line: blank lines and lines starting with `#` are skipped,
/// and so are lines without `=`; otherwise the trimmed key before the first `=` picks
/// the setting and the trimmed rest is its value. `runs` and `warmup` take an unsigned
/// integer (1 and 0 where the value does not read as one); `quiet` is on exactly for
/// `true`. Other keys change nothing.
pub open spec fn apply_line(p: ProfileSettings, line: Seq<char>) -> ProfileSettings {
    let l = trimmed(line);
    if l.len() == 0 || l[0] == '#' {
        p
    } else {
        match first_equals(l) {
            None => p,
            Some(i) => {
                let key = trimmed(l.take(i as int));
                let value = trimmed(l.skip(i + 1int));
                if key == "runs"@ {
                    (
                        match usize_parse(value) {
                            Some(n) => n,
                            None => 1,
                        },
                        p.1,
                        p.2,
                    )
                } else if key == "warmup"@ {
                    (
                        p.0,
                        match usize_parse(value) {
                            Some(n) => n,
                            None => 0,
                        },
                        p.2,
                    )
                } else if key == "quiet"@ {
                    (p.0, p.1, value == "true"@)
                } else {
                    p
                }
            },
        }
    }
}

/// The settings after reading `lines` in order, from the defaults.
pub open spec fn apply_lines(lines: Seq<Seq<char>>) -> ProfileSettings
    decreases lines.len(),
{
    if lines.len() == 0 {
        profile_defaults()
    } else {
        apply_line(apply_lines(lines.drop_last()), lines.last())
    }
}

/// The settings that the profile text `s` gives. A blank piece changes nothing, so
/// reading the pieces between line breaks gives what reading `str::lines` gives.
pub open spec fn profile_settings(s: Seq<char>) -> ProfileSettings {
    apply_lines(split_lines(s))
}

proof fn lemma_first_equals(s: Seq<char>, j: int)
    requires
        0 <= j <= s.len(),
        forall|k: int| 0 <= k < j ==> #[trigger] s[k] != '=',
        j == s.len() || s[j] == '=',
    ensures
        first_equals(s) == if j < s.len() { Some(j as nat) } else { None::<nat> },
    decreases j,
{
    if j > 0 {
        let r = s.drop_first();
        assert forall|k: int| 0 <= k < j - 1 implies #[trigger] r[k] != '=' by {
            assert(r[k] == s[k + 1]);
        }
        lemma_first_equals(r, j - 1);
    }
}

/// Applies one line to the settings.
fn read_line(p: ProfileSettings, line: &Vec<char>) -> (q: ProfileSettings)
    ensures
        q == apply_line(p, line@),
{
    let l = trim_chars(line);
    if l.len() == 0 || l[0] == '#' {
        return p;
    }
    let mut i: usize = 0;
    while i < l.len() && l[i] != '='
        invariant
            0 <= i <= l@.len(),
            forall|k: int| 0 <= k < i ==> #[trigger] l@[k] != '=',
        decreases l.len() - i,
    {
        i += 1;
    }
    proof {
        lemma_first_equals(l@, i as int);
    }
    if i == l.len() {
        return p;
    }
    let key_raw = slice_chars(&l, 0, i);
    let value_raw = slice_chars(&l, i + 1, l.len());
    assert(key_raw@ =~= l@.take(i as int));
    assert(value_raw@ =~= l@.skip(i + 1));
    let key = trim_chars(&key_raw);
    let value = trim_chars(&value_raw);
    if chars_eq(&key, &chars_of("runs")) {
        let runs = match parse_usize(&value) {
            Some(n) => n,
            None => 1,
        };
        (runs, p.1, p.2)
    } else if chars_eq(&key, &chars_of("warmup")) {
        let warmup = match parse_usize(&value) {
            Some(n) => n,
            None => 0,
        };
        (p.0, warmup, p.2)
    } else if chars_eq(&key, &chars_of("quiet")) {
        (p.0, p.1, chars_eq(&value, &chars_of("true")))
    } else {
        p
    }
}

/// Reads a profile's text into `(runs, warmup, quiet)`: starting from one run, no
/// warmup and not quiet, each `key=value` line sets its setting, later lines winning.
pub fn parse_profile(content: &str) -> (settings: ProfileSettings)
    ensures
        settings == profile_settings(content@),
{
    let text = chars_of(content);
    let mut settings: ProfileSettings = (1, 0, false);
    let mut line: Vec<char> = Vec::new();
    let ghost mut done: Seq<Seq<char>> = seq![];
    let mut i: usize = 0;
    assert(split_lines(text@.take(0)) =~= done.push(line@)) by {
        assert(text@.take(0) =~= Seq::<char>::empty());
    }
    while i < text.len()
        invariant
            0 <= i <= text@.len(),
            split_lines(text@.take(i as int)) == done.push(line@),
            settings == apply_lines(done),
        decreases text.len() - i,
    {
        let c = text[i];
        let ghost prefix = text@.take(i as int);
        assert(text@.take(i + 1).drop_last() =~= prefix);
        if c == '\n' {
            settings = read_line(settings, &line);
            proof {
                assert(done.push(line@).drop_last() =~= done);
                done = done.push(line@);
            }
            line = Vec::new();
            assert(split_lines(text@.take(i + 1)) =~= done.push(line@));
        } else {
            let ghost old_line = line@;
            line.push(c);
            assert(split_lines(text@.take(i + 1)) =~= done.push(line@));
        }
        i += 1;
    }
    assert(text@.take(i as int) =~= text@);
    settings = read_line(settings, &line);
    assert(done.push(line@).drop_last() =~= done);
    settings
}

/// Reading a profile is line by line: the settings of a text with one more line at the
/// end are those of the text, then changed by that line alone.
pub proof fn law_profile_line_by_line(s: Seq<char>, line: Seq<char>)
    requires
        forall|k: int| 0 <= k < line.len() ==> #[trigger] line[k] != '\n',
    ensures
        profile_settings(s + seq!['\n'] + line) == apply_line(profile_settings(s), line),
{
    lemma_split_on_append(s, '\n', line);
    assert(split_lines(s).push(line).drop_last() =~= split_lines(s));
}

/// A line changes at most one setting: after any line, at least two of runs, warmup and
/// quiet are what they were before it. So lines setting different keys do not disturb
/// each other.
pub proof fn law_line_changes_one_setting(p: ProfileSettings, line: Seq<char>)
    ensures
        ({
            let q = apply_line(p, line);
            ||| q.0 == p.0 && q.1 == p.1
            ||| q.0 == p.0 && q.2 == p.2
            ||| q.1 == p.1 && q.2 == p.2
        }),
{
}

proof fn lemma_first_equals_at(s: Seq<char>, j: int)
    requires
        0 <= j < s.len(),
        s[j] == '=',
        forall|k: int| 0 <= k < j ==> #[trigger] s[k] != '=',
    ensures
        first_equals(s) == Some(j as nat),
{
    lemma_first_equals(s, j);
}

/// The line `<key>=<n>` for a key made of letters.
proof fn lemma_key_value_line(key: Seq<char>, n: nat)
    requires
        key.len() > 0,
        forall|k: int| 0 <= k < key.len() ==> 'a' <= #[trigger] key[k] && key[k] <= 'z',
    ensures
        ({
            let line = key + seq!['='] + decimal(n);
            let l = trimmed(line);
            &&& l == line
            &&& l[0] != '#'
            &&& first_equals(l) == Some(key.len())
            &&& trimmed(l.take(key.len() as int)) == key
            &&& trimmed(l.skip(key.len() + 1int)) == decimal(n)
        }),
{
    lemma_decimal(n);
    let d = decimal(n);
    let line = key + seq!['='] + d;
    assert(line[0] == key[0]);
    assert(line.last() == d[d.len() - 1]);
    assert(is_digit(d[d.len() - 1]));
    assert(trim_start(line) == line);
    assert(trim_end(line) == line);
    assert(line[key.len() as int] == '=');
    assert forall|k: int| 0 <= k < key.len() implies #[trigger] line[k] != '=' by {
        assert(line[k] == key[k]);
    }
    lemma_first_equals_at(line, key.len() as int);
    assert(line.take(key.len() as int) =~= key);
    assert(line.skip(key.len() + 1int) =~= d);
    assert(key[key.len() - 1] == key.last());
    assert(trim_start(key) == key);
    assert(trim_end(key) == key);
    assert(d[0] == d.first());
    assert(is_digit(d[0]));
    assert(trim_start(d) == d);
    assert(trim_end(d) == d);
}

/// `runs=<n>` sets runs to `n` and `warmup=<n>` sets warmup to `n`, each keeping the other
/// two settings; `quiet=true` turns quiet on, keeping runs and warmup.
pub proof fn law_setting_lines(p: ProfileSettings, n: usize)
    ensures
        apply_line(p, "runs="@ + decimal(n as nat)) == (n, p.1, p.2),
        apply_line(p, "warmup="@ + decimal(n as nat)) == (p.0, n, p.2),
        apply_line(p, "quiet=true"@) == (p.0, p.1, true),
{
    reveal_strlit("runs");
    reveal_strlit("warmup");
    reveal_strlit("quiet");
    reveal_strlit("true");
    reveal_strlit("runs=");
    reveal_strlit("warmup=");
    reveal_strlit("quiet=true");
    lemma_usize_parse_decimal(n as nat);
    let runs = "runs"@;
    let warmup = "warmup"@;
    assert("runs="@ =~= runs + seq!['=']);
    assert("warmup="@ =~= warmup + seq!['=']);
    lemma_key_value_line(runs, n as nat);
    lemma_key_value_line(warmup, n as nat);
    assert(runs != warmup);
    let q = "quiet=true"@;
    assert(trim_start(q) == q);
    assert(trim_end(q) == q);
    assert forall|k: int| 0 <= k < 5 implies #[trigger] q[k] != '=' by {}
    lemma_first_equals_at(q, 5);
    let qk = q.take(5);
    let qv = q.skip(6);
    assert(qk =~= "quiet"@);
    assert(qv =~= "true"@);
    assert(trim_start(qk) == qk && trim_end(qk) == qk);
    assert(trim_start(qv) == qv && trim_end(qv) == qv);
    assert(qk != runs && qk != warmup);
}

} // verus!
