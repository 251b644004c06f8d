//! Summary statistics of a series of measured durations (in nanoseconds).
use vstd::prelude::*;
use vstd::relations::{sorted_by, total_ordering};

verus! {

/// The measured durations, in the order they were taken, and their summary.
pub struct TimingResult {
    pub times: Vec<u128>,
    pub avg: u128,
    pub median: u128,
    pub min: u128,
    pub max: u128,
}

/// `2^64`: a value cast to `u64` is taken modulo this.
pub open spec fn u64_modulus() -> nat {
    0x1_0000_0000_0000_0000
}

/// The ascending order on durations.
pub open spec fn time_leq() -> spec_fn(u128, u128) -> bool {
    |a: u128, b: u128| a <= b
}

/// The durations in ascending order.
pub open spec fn sorted_times(s: Seq<u128>) -> Seq<u128> {
    s.sort_by(time_leq())
}

/// The sum of the durations.
pub open spec fn total_nanos(s: Seq<u128>) -> nat
    decreases s.len(),
{
    if s.len() == 0 {
        0
    } else {
        total_nanos(s.drop_last()) + s.last() as nat
    }
}

/// The mean of the durations, rounded down and then cut to 64 bits.
pub open spec fn average_of(s: Seq<u128>) -> int {
    (total_nanos(s) as int / s.len() as int) % (u64_modulus() as int)
}

/// The middle duration of the sorted series; for an even count, the two middle
/// durations added, cut to 64 bits, and halved.
pub open spec fn median_of(s: Seq<u128>) -> int {
    let t = sorted_times(s);
    let n = s.len() as int;
    if n % 2 == 0 {
        ((t[n / 2 - 1] + t[n / 2]) % (u64_modulus() as int)) / 2
    } else {
        t[n / 2] as int
    }
}

/// The statistics that `calculate_timing_stats` gives for the series `s`.
pub open spec fn stats_match(r: TimingResult, s: Seq<u128>) -> bool {
    &&& r.times@ == s
    &&& if s.len() == 0 {
        r.avg == 0 && r.median == 0 && r.min == 0 && r.max == 0
    } else {
        &&& r.avg == average_of(s)
        &&& r.median == median_of(s)
        &&& r.min == sorted_times(s)[0]
        &&& r.max == sorted_times(s)[s.len() - 1]
    }
}

pub proof fn lemma_time_leq_total()
    ensures
        total_ordering(time_leq()),
{
    let leq = time_leq();
    assert(forall|x: u128| #[trigger] leq(x, x));
    assert(forall|x: u128, y: u128| #[trigger] leq(x, y) && #[trigger] leq(y, x) ==> x == y);
    assert(forall|x: u128, y: u128, z: u128| #[trigger] leq(x, y) && #[trigger] leq(y, z) ==> leq(x, z));
    assert(forall|x: u128, y: u128| #[trigger] leq(x, y) || #[trigger] leq(y, x));
}

/// `sorted_times(s)` is sorted and holds the same durations as `s`.
pub proof fn lemma_sorted_times(s: Seq<u128>)
    ensures
        sorted_by(sorted_times(s), time_leq()),
        sorted_times(s).to_multiset() == s.to_multiset(),
        sorted_times(s).len() == s.len(),
{
    lemma_time_leq_total();
    s.lemma_sort_by_ensures(time_leq());
    broadcast use vstd::seq_lib::group_to_multiset_ensures;
    assert(sorted_times(s).len() == sorted_times(s).to_multiset().len());
}

/// A sorted sequence with the same durations as `s` is `sorted_times(s)`.
pub proof fn lemma_sorted_is_sorted_times(v: Seq<u128>, s: Seq<u128>)
    requires
        sorted_by(v, time_leq()),
        v.to_multiset() == s.to_multiset(),
    ensures
        v == sorted_times(s),
{
    lemma_time_leq_total();
    lemma_sorted_times(s);
    vstd::seq_lib::lemma_sorted_unique(v, sorted_times(s), time_leq());
}

proof fn lemma_total_prefix(s: Seq<u128>, i: int)
    requires
        0 <= i <= s.len(),
    ensures
        total_nanos(s.take(i)) <= total_nanos(s),
    decreases s.len(),
{
    if i < s.len() {
        assert(s.drop_last().take(i) =~= s.take(i));
        lemma_total_prefix(s.drop_last(), i);
    } else {
        assert(s.take(i) =~= s);
    }
}

proof fn lemma_total_concat(a: Seq<u128>, b: Seq<u128>)
    ensures
        total_nanos(a + b) == total_nanos(a) + total_nanos(b),
    decreases b.len(),
{
    if b.len() > 0 {
        assert((a + b).drop_last() =~= a + b.drop_last());
        lemma_total_concat(a, b.drop_last());
    } else {
        assert(a + b =~= a);
    }
}

proof fn lemma_total_insert(s: Seq<u128>, j: int, x: u128)
    requires
        0 <= j <= s.len(),
    ensures
        total_nanos(s.insert(j, x)) == total_nanos(s) + x,
{
    let a = s.take(j);
    let b = s.skip(j);
    assert(s =~= a + b);
    assert(s.insert(j, x) =~= a.push(x) + b);
    lemma_total_concat(a, b);
    lemma_total_concat(a.push(x), b);
    assert(a.push(x).drop_last() =~= a);
}

/// Two durations at different places in a series add up to at most its total.
proof fn lemma_two_le_total(s: Seq<u128>, a: int, b: int)
    requires
        0 <= a < b < s.len(),
    ensures
        s[a] + s[b] <= total_nanos(s),
    decreases s.len(),
{
    if b < s.len() - 1 {
        lemma_two_le_total(s.drop_last(), a, b);
    } else {
        lemma_one_le_total(s.drop_last(), a);
    }
}

proof fn lemma_one_le_total(s: Seq<u128>, a: int)
    requires
        0 <= a < s.len(),
    ensures
        s[a] <= total_nanos(s),
    decreases s.len(),
{
    if a < s.len() - 1 {
        lemma_one_le_total(s.drop_last(), a);
    }
}

/// The durations of `times` in ascending order.
fn sort_times(times: &Vec<u128>) -> (sorted: Vec<u128>)
    ensures
        sorted@ == sorted_times(times@),
        total_nanos(sorted@) == total_nanos(times@),
{
    broadcast use vstd::seq_lib::group_to_multiset_ensures;
    let mut out: Vec<u128> = Vec::new();
    let mut i: usize = 0;
    while i < times.len()
        invariant
            0 <= i <= times@.len(),
            sorted_by(out@, time_leq()),
            out@.to_multiset() == times@.take(i as int).to_multiset(),
            total_nanos(out@) == total_nanos(times@.take(i as int)),
        decreases times.len() - i,
    {
        let x = times[i];
        let mut j: usize = 0;
        while j < out.len() && out[j] <= x
            invariant
                0 <= j <= out@.len(),
                forall|k: int| 0 <= k < j ==> out@[k] <= x,
            decreases out.len() - j,
        {
            j += 1;
        }
        let ghost before = out@;
        assert forall|k: int| j <= k < before.len() implies x < before[k] by {
            if j < before.len() {
                assert(time_leq()(before[j as int], before[k]) || k == j);
            }
        }
        out.insert(j, x);
        assert(out@ == before.insert(j as int, x));
        proof {
            lemma_total_insert(before, j as int, x);
        }
        assert forall|a: int, b: int| 0 <= a < b < out@.len() implies #[trigger] time_leq()(out@[a], out@[b]) by {
            if b < j {
                assert(time_leq()(before[a], before[b]));
            } else if b == j {
            } else if a < j {
                assert(out@[b] == before[b - 1]);
            } else if a == j {
                assert(out@[b] == before[b - 1]);
            } else {
                assert(time_leq()(before[a - 1], before[b - 1]));
            }
        }
        assert(times@.take(i + 1) =~= times@.take(i as int).push(x));
        proof {
            vstd::seq_lib::to_multiset_insert(before, j as int, x);
            vstd::seq_lib::to_multiset_build(times@.take(i as int), x);
        }
        assert(times@.take(i + 1).drop_last() =~= times@.take(i as int));
        i += 1;
    }
    assert(times@.take(i as int) =~= times@);
    proof {
        lemma_sorted_is_sorted_times(out@, times@);
    }
    out
}

/// Summarises the measured durations: average, median, minimum and maximum, with the
/// durations themselves kept in their original order. An empty series gives zeros.
pub fn calculate_timing_stats(times: Vec<u128>) -> (result: TimingResult)
    requires
        total_nanos(times@) <= u128::MAX,
    ensures
        stats_match(result, times@),
{
    if times.len() == 0 {
        return TimingResult { times, avg: 0, median: 0, min: 0, max: 0 };
    }
    let sorted = sort_times(&times);
    proof {
        lemma_sorted_times(times@);
    }
    let n = sorted.len();
    let min = sorted[0];
    let max = sorted[n - 1];

    let mut sum: u128 = 0;
    let mut i: usize = 0;
    while i < times.len()
        invariant
            0 <= i <= times@.len(),
            sum == total_nanos(times@.take(i as int)),
            total_nanos(times@) <= u128::MAX,
        decreases times.len() - i,
    {
        assert(times@.take(i + 1).drop_last() =~= times@.take(i as int));
        proof {
            lemma_total_prefix(times@, i + 1);
        }
        sum = sum + times[i];
        i += 1;
    }
    assert(times@.take(i as int) =~= times@);
    let avg_ns = sum / (times.len() as u128);
    let avg = (#[verifier::truncate] (avg_ns as u64)) as u128;

    let median = if n % 2 == 0 {
        let mid1 = sorted[n / 2 - 1];
        let mid2 = sorted[n / 2];
        proof {
            lemma_two_le_total(sorted@, (n / 2 - 1) as int, (n / 2) as int);
        }
        let both: u128 = mid1 + mid2;
        assert((both as u64) == both % 0x1_0000_0000_0000_0000) by (bit_vector);
        ((#[verifier::truncate] (both as u64)) / 2) as u128
    } else {
        sorted[n / 2]
    };
    assert((avg_ns as u64) == avg_ns % 0x1_0000_0000_0000_0000) by (bit_vector);
    TimingResult { times, avg, median, min, max }
}

/// The first position of `t` whose duration exceeds `x` (or the length of `t`).
spec fn insert_position(t: Seq<u128>, x: u128) -> nat
    decreases t.len(),
{
    if t.len() == 0 {
        0
    } else if t[0] > x {
        0
    } else {
        1 + insert_position(t.drop_first(), x)
    }
}

proof fn lemma_insert_position(t: Seq<u128>, x: u128)
    requires
        sorted_by(t, time_leq()),
    ensures
        insert_position(t, x) <= t.len(),
        forall|k: int| 0 <= k < insert_position(t, x) ==> t[k] <= x,
        forall|k: int| insert_position(t, x) <= k < t.len() ==> x < t[k],
    decreases t.len(),
{
    if t.len() > 0 && t[0] <= x {
        let r = t.drop_first();
        assert forall|a: int, b: int| 0 <= a < b < r.len() implies #[trigger] time_leq()(r[a], r[b]) by {
            assert(time_leq()(t[a + 1], t[b + 1]));
        }
        lemma_insert_position(r, x);
        assert forall|k: int| 0 <= k < insert_position(t, x) implies t[k] <= x by {
            if k > 0 {
                assert(t[k] == r[k - 1]);
            }
        }
        assert forall|k: int| insert_position(t, x) <= k < t.len() implies x < t[k] by {
            assert(t[k] == r[k - 1]);
        }
    } else if t.len() > 0 {
        assert forall|k: int| 0 <= k < t.len() implies x < t[k] by {
            if k > 0 {
                assert(time_leq()(t[0], t[k]));
            }
        }
    }
}

/// The total of a series does not depend on the order of its durations.
pub proof fn lemma_total_sorted(s: Seq<u128>)
    ensures
        total_nanos(sorted_times(s)) == total_nanos(s),
    decreases s.len(),
{
    broadcast use vstd::seq_lib::group_to_multiset_ensures;
    if s.len() == 0 {
        lemma_sorted_times(s);
        assert(sorted_times(s).len() == 0);
        assert(sorted_times(s) =~= s);
    } else {
        let p = s.drop_last();
        let x = s.last();
        lemma_total_sorted(p);
        lemma_sorted_times(p);
        let t = sorted_times(p);
        lemma_insert_position(t, x);
        let j = insert_position(t, x) as int;
        let u = t.insert(j, x);
        assert forall|a: int, b: int| 0 <= a < b < u.len() implies #[trigger] time_leq()(u[a], u[b]) by {
            if b < j {
                assert(time_leq()(t[a], t[b]));
            } else if b == j {
            } else if a < j {
                assert(u[b] == t[b - 1]);
            } else if a == j {
                assert(u[b] == t[b - 1]);
            } else {
                assert(time_leq()(t[a - 1], t[b - 1]));
            }
        }
        vstd::seq_lib::to_multiset_insert(t, j, x);
        assert(s =~= p.push(x));
        vstd::seq_lib::to_multiset_build(p, x);
        lemma_sorted_is_sorted_times(u, s);
        lemma_total_insert(t, j, x);
    }
}

/// Statistics do not depend on the order in which the durations were measured:
/// two series holding the same durations have the same average, median, minimum
/// and maximum.
pub proof fn law_stats_ignore_order(s: Seq<u128>, t: Seq<u128>)
    requires
        s.to_multiset() == t.to_multiset(),
    ensures
        sorted_times(s) == sorted_times(t),
        total_nanos(s) == total_nanos(t),
        s.len() == t.len(),
        average_of(s) == average_of(t),
        median_of(s) == median_of(t),
{
    lemma_sorted_times(s);
    lemma_sorted_is_sorted_times(sorted_times(s), t);
    lemma_total_sorted(s);
    lemma_total_sorted(t);
    lemma_sorted_times(t);
}

/// The minimum is at most, and the maximum at least, every measured duration, and
/// both are measured durations.
pub proof fn law_min_max_bound(s: Seq<u128>)
    requires
        s.len() > 0,
    ensures
        forall|i: int| 0 <= i < s.len() ==> sorted_times(s)[0] <= #[trigger] s[i],
        forall|i: int| 0 <= i < s.len() ==> #[trigger] s[i] <= sorted_times(s)[s.len() - 1],
        s.contains(sorted_times(s)[0]),
        s.contains(sorted_times(s)[s.len() - 1]),
{
    broadcast use vstd::seq_lib::group_to_multiset_ensures;
    lemma_sorted_times(s);
    let t = sorted_times(s);
    assert forall|i: int| 0 <= i < s.len() implies t[0] <= #[trigger] s[i] && s[i] <= t[s.len() - 1] by {
        assert(s.to_multiset().count(s[i]) > 0);
        assert(t.contains(s[i]));
        let k = choose|k: int| 0 <= k < t.len() && t[k] == s[i];
        if k > 0 {
            assert(time_leq()(t[0], t[k]));
        }
        if k < t.len() - 1 {
            assert(time_leq()(t[k], t[t.len() - 1]));
        }
    }
    assert(t.contains(t[0]));
    assert(t.contains(t[s.len() - 1]));
    assert(t.to_multiset().count(t[0]) > 0);
    assert(t.to_multiset().count(t[s.len() - 1]) > 0);
}

/// The median lies between the minimum and the maximum, whenever the two middle
/// durations of an even series add up to less than `2^64` (beyond that the sum is cut
/// to 64 bits before halving).
pub proof fn law_median_between_min_max(s: Seq<u128>)
    requires
        s.len() > 0,
        s.len() % 2 == 0 ==> sorted_times(s)[s.len() / 2 - 1] + sorted_times(s)[(s.len() / 2) as int] < u64_modulus(),
    ensures
        sorted_times(s)[0] <= median_of(s) <= sorted_times(s)[s.len() - 1],
{
    lemma_sorted_times(s);
    let t = sorted_times(s);
    let n = s.len() as int;
    if n % 2 == 0 {
        assert(time_leq()(t[0], t[n / 2 - 1]) || n / 2 - 1 == 0);
        assert(time_leq()(t[n / 2 - 1], t[n / 2]));
        assert(time_leq()(t[n / 2], t[n - 1]) || n / 2 == n - 1);
    } else {
        assert(time_leq()(t[0], t[n / 2]) || n / 2 == 0);
        assert(time_leq()(t[n / 2], t[n - 1]) || n / 2 == n - 1);
    }
}

proof fn lemma_total_bounds(s: Seq<u128>, lo: int, hi: int)
    requires
        forall|i: int| 0 <= i < s.len() ==> lo <= #[trigger] s[i] <= hi,
    ensures
        s.len() * lo <= total_nanos(s) <= s.len() * hi,
    decreases s.len(),
{
    if s.len() > 0 {
        let p = s.drop_last();
        assert forall|i: int| 0 <= i < p.len() implies lo <= #[trigger] p[i] <= hi by {
            assert(p[i] == s[i]);
        }
        lemma_total_bounds(p, lo, hi);
        assert(s.len() * lo == p.len() * lo + lo) by (nonlinear_arith)
            requires
                s.len() == p.len() + 1,
        ;
        assert(s.len() * hi == p.len() * hi + hi) by (nonlinear_arith)
            requires
                s.len() == p.len() + 1,
        ;
    }
}

/// The average lies between the minimum and the maximum, whenever the mean fits in
/// 64 bits (beyond that it is cut to 64 bits).
pub proof fn law_average_between_min_max(s: Seq<u128>)
    requires
        s.len() > 0,
        total_nanos(s) / s.len() < u64_modulus(),
    ensures
        sorted_times(s)[0] <= average_of(s) <= sorted_times(s)[s.len() - 1],
{
    law_min_max_bound(s);
    let t = sorted_times(s);
    let n = s.len() as int;
    let lo = t[0] as int;
    let hi = t[n - 1] as int;
    lemma_total_bounds(s, lo, hi);
    let tot = total_nanos(s) as int;
    assert(lo <= tot / n <= hi) by (nonlinear_arith)
        requires
            n > 0,
            n * lo <= tot <= n * hi,
    ;
}

/// Two results of `calculate_timing_stats` over the same durations, measured in any
/// order, agree on the average, median, minimum and maximum. (The total the function
/// requires to fit in 128 bits is the same for both series.)
pub proof fn law_results_ignore_order(r1: TimingResult, r2: TimingResult)
    requires
        stats_match(r1, r1.times@),
        stats_match(r2, r2.times@),
        r1.times@.to_multiset() == r2.times@.to_multiset(),
    ensures
        r1.avg == r2.avg,
        r1.median == r2.median,
        r1.min == r2.min,
        r1.max == r2.max,
{
    law_stats_ignore_order(r1.times@, r2.times@);
}

} // verus!
