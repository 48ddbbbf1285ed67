//! Order statistics of a list of times: minimum, percentiles, maximum.
use vstd::prelude::*;
use vstd::relations::{sorted_by, total_ordering};
use vstd::seq_lib::{
    lemma_multiset_commutative, lemma_sorted_unique, to_multiset_build, to_multiset_len,
};

verus! {

/// The order of numbers.
pub open spec fn ascending() -> spec_fn(i64, i64) -> bool {
    |a: i64, b: i64| a <= b
}

/// The times, the shortest first.
pub open spec fn in_order(times: Seq<i64>) -> Seq<i64> {
    times.sort_by(ascending())
}

/// Putting times in order keeps them: the same times as often, each at most the next.
pub proof fn in_order_keeps_times(times: Seq<i64>)
    ensures
        in_order(times).to_multiset() == times.to_multiset(),
        in_order(times).len() == times.len(),
        sorted_by(in_order(times), ascending()),
{
    assert(total_ordering(ascending()));
    times.lemma_sort_by_ensures(ascending());
    to_multiset_len(times);
    to_multiset_len(in_order(times));
}

/// Taking one more time from either of two lists adds it to the times of both.
proof fn one_more(left: Seq<i64>, right: Seq<i64>, x: i64)
    ensures
        (left.push(x) + right).to_multiset() == (left + right).to_multiset().insert(x),
        (left + right.push(x)).to_multiset() == (left + right).to_multiset().insert(x),
{
    lemma_multiset_commutative(left, right);
    lemma_multiset_commutative(left.push(x), right);
    lemma_multiset_commutative(left, right.push(x));
    to_multiset_build(left, x);
    to_multiset_build(right, x);
    assert((left.push(x) + right).to_multiset() =~= (left + right).to_multiset().insert(x));
    assert((left + right.push(x)).to_multiset() =~= (left + right).to_multiset().insert(x));
}

/// Every element of an ordered list from a place on is at least the one at the place.
proof fn rest_is_larger(s: Seq<i64>, at: int)
    requires
        sorted_by(s, ascending()),
        0 <= at < s.len(),
    ensures
        forall|b: int| at <= b < s.len() ==> s[at] <= #[trigger] s[b],
{
    assert forall|b: int| at <= b < s.len() implies s[at] <= #[trigger] s[b] by {
        if b > at {
            assert(ascending()(s[at], s[b]));
        }
    }
}

/// The two ordered lists in one.
fn merge(left: &Vec<i64>, right: &Vec<i64>) -> (out: Vec<i64>)
    requires
        sorted_by(left@, ascending()),
        sorted_by(right@, ascending()),
    ensures
        sorted_by(out@, ascending()),
        out@.to_multiset() == (left@ + right@).to_multiset(),
{
    let mut out: Vec<i64> = Vec::new();
    let mut i: usize = 0;
    let mut j: usize = 0;
    assert(left@.take(0) + right@.take(0) =~= out@);
    while i < left.len() || j < right.len()
        invariant
            i <= left.len(),
            j <= right.len(),
            sorted_by(left@, ascending()),
            sorted_by(right@, ascending()),
            sorted_by(out@, ascending()),
            out@.to_multiset() == (left@.take(i as int) + right@.take(j as int)).to_multiset(),
            forall|a: int, b: int|
                #![trigger out@[a], left@[b]]
                0 <= a < out@.len() && i <= b < left@.len() ==> out@[a] <= left@[b],
            forall|a: int, b: int|
                #![trigger out@[a], right@[b]]
                0 <= a < out@.len() && j <= b < right@.len() ==> out@[a] <= right@[b],
        decreases left.len() - i + right.len() - j,
    {
        let ghost before = out@;
        if j >= right.len() || (i < left.len() && left[i] <= right[j]) {
            proof {
                one_more(left@.take(i as int), right@.take(j as int), left@[i as int]);
                to_multiset_build(before, left@[i as int]);
                assert(left@.take(i + 1) =~= left@.take(i as int).push(left@[i as int]));
                rest_is_larger(left@, i as int);
                if j < right@.len() {
                    rest_is_larger(right@, j as int);
                }
            }
            out.push(left[i]);
            i = i + 1;
        } else {
            proof {
                one_more(left@.take(i as int), right@.take(j as int), right@[j as int]);
                to_multiset_build(before, right@[j as int]);
                assert(right@.take(j + 1) =~= right@.take(j as int).push(right@[j as int]));
                rest_is_larger(right@, j as int);
                if i < left@.len() {
                    rest_is_larger(left@, i as int);
                }
            }
            out.push(right[j]);
            j = j + 1;
        }
    }
    assert(left@.take(i as int) =~= left@);
    assert(right@.take(j as int) =~= right@);
    out
}

/// The times, the shortest first.
pub fn sort_times(times: &Vec<i64>) -> (out: Vec<i64>)
    ensures
        out@ == in_order(times@),
        out@.to_multiset() == times@.to_multiset(),
        forall|i: int, j: int| 0 <= i < j < out@.len() ==> out@[i] <= out@[j],
{
    let out = sort_range(times, 0, times.len());
    assert(times@.subrange(0, times@.len() as int) =~= times@);
    proof {
        assert(total_ordering(ascending()));
        in_order_keeps_times(times@);
        lemma_sorted_unique(out@, in_order(times@), ascending());
        assert forall|i: int, j: int| 0 <= i < j < out@.len() implies out@[i] <= out@[j] by {
            assert(ascending()(out@[i], out@[j]));
        }
    }
    out
}

/// The times of a range, the shortest first.
fn sort_range(times: &Vec<i64>, start: usize, end: usize) -> (out: Vec<i64>)
    requires
        start <= end <= times.len(),
    ensures
        sorted_by(out@, ascending()),
        out@.to_multiset() == times@.subrange(start as int, end as int).to_multiset(),
    decreases end - start,
{
    if end - start <= 1 {
        let mut out: Vec<i64> = Vec::new();
        if end - start == 1 {
            out.push(times[start]);
        }
        assert(out@ =~= times@.subrange(start as int, end as int));
        return out;
    }
    let mid: usize = start + (end - start) / 2;
    let left = sort_range(times, start, mid);
    let right = sort_range(times, mid, end);
    let out = merge(&left, &right);
    proof {
        let l = times@.subrange(start as int, mid as int);
        let r = times@.subrange(mid as int, end as int);
        lemma_multiset_commutative(left@, right@);
        lemma_multiset_commutative(l, r);
        assert(l + r =~= times@.subrange(start as int, end as int));
    }
    out
}

/// The place, counted from one, of the `percent`th percentile among `count` ordered times.
pub open spec fn percentile_rank(count: int, percent: int) -> int {
    (count * percent + 50) / 100
}

/// The rank of the 50th and of the 95th percentile always names one of the times.
pub proof fn percentile_rank_hits(count: int)
    requires
        count >= 1,
    ensures
        1 <= percentile_rank(count, 50) <= percentile_rank(count, 95) <= count,
{
}

/// How the times to the first token are spread.
#[derive(Debug, Clone, Copy, PartialEq, Eq, Structural)]
pub struct TtftSpread {
    pub min_ttft_ms: i64,
    pub p50_ttft_ms: i64,
    pub p95_ttft_ms: i64,
    pub max_ttft_ms: i64,
}

/// The spread of some times; nothing of no times.
pub open spec fn spread_of(times: Seq<i64>) -> Option<TtftSpread> {
    if times.len() == 0 {
        None
    } else {
        let sorted = in_order(times);
        Some(
            TtftSpread {
                min_ttft_ms: sorted[0],
                p50_ttft_ms: sorted[percentile_rank(times.len() as int, 50) - 1],
                p95_ttft_ms: sorted[percentile_rank(times.len() as int, 95) - 1],
                max_ttft_ms: sorted[times.len() - 1],
            },
        )
    }
}

/// The minimum is no more than the median, the median no more than the 95th percentile, and
/// that no more than the maximum; and every time lies between minimum and maximum.
pub proof fn spread_is_ordered(times: Seq<i64>)
    requires
        times.len() > 0,
    ensures
        spread_of(times) matches Some(s) && s.min_ttft_ms <= s.p50_ttft_ms <= s.p95_ttft_ms
            <= s.max_ttft_ms && forall|i: int|
            0 <= i < times.len() ==> s.min_ttft_ms <= #[trigger] times[i] <= s.max_ttft_ms,
{
    broadcast use vstd::seq_lib::group_to_multiset_ensures;

    in_order_keeps_times(times);
    percentile_rank_hits(times.len() as int);
    let sorted = in_order(times);
    let a = percentile_rank(times.len() as int, 50) - 1;
    let b = percentile_rank(times.len() as int, 95) - 1;
    let last = times.len() - 1;
    assert(0 < a ==> ascending()(sorted[0], sorted[a]));
    assert(a < b ==> ascending()(sorted[a], sorted[b]));
    assert(b < last ==> ascending()(sorted[b], sorted[last]));
    assert forall|i: int| 0 <= i < times.len() implies sorted[0] <= #[trigger] times[i]
        <= sorted[last] by {
        assert(times.contains(times[i]));
        assert(times.to_multiset().count(times[i]) > 0);
        assert(sorted.contains(times[i]));
        let k = choose|k: int| 0 <= k < sorted.len() && sorted[k] == times[i];
        assert(0 < k ==> ascending()(sorted[0], sorted[k]));
        assert(k < last ==> ascending()(sorted[k], sorted[last]));
    }
}

/// The spread is read off the times in order, however the order is come by: the first, the last,
/// and of `n` times the one at rank `(50 n + 50) / 100` and the one at rank `(95 n + 50) / 100`,
/// counted from one.
pub proof fn spread_is_read_off_the_order(times: Seq<i64>, sorted: Seq<i64>)
    requires
        times.len() > 0,
        sorted.to_multiset() == times.to_multiset(),
        forall|i: int, j: int| 0 <= i < j < sorted.len() ==> sorted[i] <= sorted[j],
    ensures
        sorted.len() == times.len(),
        spread_of(times) matches Some(s) && s.min_ttft_ms == sorted[0] && s.max_ttft_ms
            == sorted[times.len() - 1] && s.p50_ttft_ms == sorted[(50 * times.len() + 50) / 100 - 1]
            && s.p95_ttft_ms == sorted[(95 * times.len() + 50) / 100 - 1],
{
    assert(total_ordering(ascending()));
    in_order_keeps_times(times);
    to_multiset_len(times);
    to_multiset_len(sorted);
    lemma_sorted_unique(sorted, in_order(times), ascending());
}

/// The spread of some times.
pub fn spread(times: &Vec<i64>) -> (s: Option<TtftSpread>)
    ensures
        s == spread_of(times@),
{
    let count: usize = times.len();
    if count == 0 {
        return None;
    }
    let sorted = sort_times(times);
    proof {
        in_order_keeps_times(times@);
        percentile_rank_hits(count as int);
    }
    let median: usize = ((count as u128 * 50 + 50) / 100) as usize;
    let high: usize = ((count as u128 * 95 + 50) / 100) as usize;
    Some(
        TtftSpread {
            min_ttft_ms: sorted[0],
            p50_ttft_ms: sorted[median - 1],
            p95_ttft_ms: sorted[high - 1],
            max_ttft_ms: sorted[count - 1],
        },
    )
}

} // verus!
