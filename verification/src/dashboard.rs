//! What the statistics page shows: totals, groups by model and by surface, and a time line,
//! computed from the request log.
use vstd::prelude::*;
use vstd::seq_lib::{lemma_sorted_unique, to_multiset_build, to_multiset_insert};
use vstd::string::*;
use crate::percentile::{spread, spread_of, TtftSpread};
use crate::stats::RequestRecord;

verus! {

// ----- rows -----

/// The rows of a log at some places, in the order of the places.
pub open spec fn rows_at(log: Seq<RequestRecord>, places: Seq<usize>) -> Seq<RequestRecord> {
    Seq::new(places.len(), |i: int| log[places[i] as int])
}

/// Every place lies in a log of that length.
pub open spec fn all_inside(places: Seq<usize>, len: int) -> bool {
    forall|i: int| 0 <= i < places.len() ==> #[trigger] places[i] < len
}

/// A row that began at `since` or later.
pub open spec fn began_since(since: int) -> spec_fn(RequestRecord) -> bool {
    |r: RequestRecord| r.ts_ms >= since
}

/// The rows that began at `since` or later.
pub open spec fn rows_since(log: Seq<RequestRecord>, since: int) -> Seq<RequestRecord> {
    log.filter(began_since(since))
}

/// The rows that a page shows: all of them where `since_ms` is 0, else those that began then or
/// later.
pub open spec fn rows_shown(log: Seq<RequestRecord>, since_ms: int) -> Seq<RequestRecord> {
    if since_ms == 0 {
        log
    } else {
        rows_since(log, since_ms)
    }
}

/// The places of all rows.
fn all_places(log: &Vec<RequestRecord>) -> (places: Vec<usize>)
    ensures
        all_inside(places@, log@.len() as int),
        rows_at(log@, places@) == log@,
{
    let mut places: Vec<usize> = Vec::new();
    let mut i: usize = 0;
    while i < log.len()
        invariant
            i <= log.len(),
            places@.len() == i,
            forall|k: int| 0 <= k < i ==> #[trigger] places@[k] == k,
        decreases log.len() - i,
    {
        places.push(i);
        i = i + 1;
    }
    assert(rows_at(log@, places@) =~= log@);
    places
}

/// The places of the rows that began at `since` or later.
fn places_since(log: &Vec<RequestRecord>, since: i64) -> (places: Vec<usize>)
    ensures
        all_inside(places@, log@.len() as int),
        rows_at(log@, places@) == rows_since(log@, since as int),
{
    let mut places: Vec<usize> = Vec::new();
    let mut i: usize = 0;
    proof {
        reveal(Seq::filter);
        assert(rows_at(log@, places@) =~= rows_since(log@.take(0), since as int));
    }
    while i < log.len()
        invariant
            i <= log.len(),
            all_inside(places@, i as int),
            rows_at(log@, places@) == rows_since(log@.take(i as int), since as int),
        decreases log.len() - i,
    {
        let ghost before = rows_at(log@, places@);
        proof {
            log@.take(i as int).lemma_filter_push(log@[i as int], began_since(since as int));
            assert(log@.take(i + 1) =~= log@.take(i as int).push(log@[i as int]));
        }
        if log[i].ts_ms >= since {
            places.push(i);
            assert(rows_at(log@, places@) =~= before.push(log@[i as int]));
        }
        i = i + 1;
    }
    assert(log@.take(i as int) =~= log@);
    places
}

// ----- columns -----

/// A column of the log that is added up.
pub enum Column {
    Success,
    PromptTokens,
    CompletionTokens,
    ReasoningTokens,
    TotalTokens,
}

/// The number that a row has in a column; a set flag counts as 1.
pub open spec fn column_of(column: Column, row: RequestRecord) -> int {
    match column {
        Column::Success => if row.success {
            1
        } else {
            0
        },
        Column::PromptTokens => row.prompt_tokens as int,
        Column::CompletionTokens => row.completion_tokens as int,
        Column::ReasoningTokens => row.reasoning_tokens as int,
        Column::TotalTokens => row.total_tokens as int,
    }
}

/// The sum of a column.
pub open spec fn total(column: Column, rows: Seq<RequestRecord>) -> int
    decreases rows.len(),
{
    if rows.len() == 0 {
        0
    } else {
        total(column, rows.drop_last()) + column_of(column, rows.last())
    }
}

/// Adding a column up, row by row, stays within 64 bits.
pub open spec fn fits(column: Column, rows: Seq<RequestRecord>) -> bool
    decreases rows.len(),
{
    rows.len() > 0 ==> fits(column, rows.drop_last()) && i64::MIN <= total(column, rows) <= i64::MAX
}

/// What fits, fits up to every row.
proof fn fits_up_to(column: Column, rows: Seq<RequestRecord>, n: int)
    requires
        fits(column, rows),
        0 <= n <= rows.len(),
    ensures
        fits(column, rows.take(n)),
    decreases rows.len(),
{
    if n == rows.len() {
        assert(rows.take(n) =~= rows);
    } else {
        fits_up_to(column, rows.drop_last(), n);
        assert(rows.drop_last().take(n) =~= rows.take(n));
    }
}

/// Why the statistics of a log cannot be given.
#[derive(Debug, Clone, Copy, PartialEq, Eq, Structural)]
pub enum StatsError {
    /// A sum does not fit in 64 bits.
    IntegerOverflow,
}

/// The number that a row has in a column.
fn column_value(column: &Column, row: &RequestRecord) -> (n: i64)
    ensures
        n == column_of(*column, *row),
{
    match column {
        Column::Success => if row.success {
            1
        } else {
            0
        },
        Column::PromptTokens => row.prompt_tokens,
        Column::CompletionTokens => row.completion_tokens,
        Column::ReasoningTokens => row.reasoning_tokens,
        Column::TotalTokens => row.total_tokens,
    }
}

/// The sum of a column over some rows of the log.
fn sum_column(column: Column, log: &Vec<RequestRecord>, places: &Vec<usize>) -> (sum: Result<
    i64,
    StatsError,
>)
    requires
        all_inside(places@, log@.len() as int),
    ensures
        sum is Ok <==> fits(column, rows_at(log@, places@)),
        sum matches Ok(n) ==> n == total(column, rows_at(log@, places@)),
{
    let ghost rows = rows_at(log@, places@);
    let mut sum: i64 = 0;
    let mut i: usize = 0;
    while i < places.len()
        invariant
            i <= places.len(),
            all_inside(places@, log@.len() as int),
            rows == rows_at(log@, places@),
            sum == total(column, rows.take(i as int)),
            fits(column, rows.take(i as int)),
        decreases places.len() - i,
    {
        let n: i64 = column_value(&column, &log[places[i]]);
        assert(rows.take(i + 1).drop_last() =~= rows.take(i as int));
        match sum.checked_add(n) {
            Some(s) => {
                sum = s;
            },
            None => {
                proof {
                    if fits(column, rows) {
                        fits_up_to(column, rows, i + 1);
                    }
                }
                return Err(StatsError::IntegerOverflow);
            },
        }
        i = i + 1;
    }
    assert(rows.take(i as int) =~= rows);
    Ok(sum)
}

/// A mean: a sum and how many numbers went into it.
#[derive(Debug, Clone, Copy, PartialEq, Eq, Structural)]
pub struct Mean {
    pub sum: i128,
    pub count: u64,
}

/// The sum of some numbers.
pub open spec fn sum_of(numbers: Seq<i64>) -> int
    decreases numbers.len(),
{
    if numbers.len() == 0 {
        0
    } else {
        sum_of(numbers.drop_last()) + numbers.last()
    }
}

/// `mean` is the mean of some numbers; of no numbers there is none.
pub open spec fn is_mean(mean: Option<Mean>, numbers: Seq<i64>) -> bool {
    match mean {
        Some(m) => numbers.len() > 0 && m.sum == sum_of(numbers) && m.count == numbers.len(),
        None => numbers.len() == 0,
    }
}

/// The largest sum, either way, for which a mean is rounded exactly.
pub const EXACT_SUM: i128 = 2_251_799_813_685_248;

/// The whole number nearest to a mean; of two that are equally near, the one further from 0.
pub open spec fn nearest(sum: int, count: int) -> int {
    if sum >= 0 {
        (2 * sum + count) / (2 * count)
    } else {
        -((2 * -sum + count) / (2 * count))
    }
}

/// The nearest whole number is at most half a unit off, and where it is exactly half a unit off
/// it lies further from 0 than the mean.
pub proof fn nearest_is_near(sum: int, count: int)
    requires
        count > 0,
    ensures
        -count <= 2 * (nearest(sum, count) * count - sum) <= count,
        sum >= 0 ==> 2 * (nearest(sum, count) * count - sum) > -count,
        sum < 0 ==> 2 * (nearest(sum, count) * count - sum) < count,
{
    let size = if sum >= 0 {
        sum
    } else {
        -sum
    };
    let n = (2 * size + count) / (2 * count);
    vstd::arithmetic::div_mod::lemma_fundamental_div_mod(2 * size + count, 2 * count);
    vstd::arithmetic::div_mod::lemma_mod_bound(2 * size + count, 2 * count);
    assert((2 * count) * n == 2 * (n * count)) by (nonlinear_arith);
    assert((-n) * count == -(n * count)) by (nonlinear_arith);
}

impl Mean {
    /// The mean as a whole number, halves away from 0, where its sum is small enough to be
    /// rounded exactly.
    pub fn rounded(&self) -> (n: Option<i64>)
        ensures
            n is Some <==> self.count > 0 && -EXACT_SUM <= self.sum <= EXACT_SUM,
            n matches Some(n) ==> n == nearest(self.sum as int, self.count as int),
            n is Some <==> self.count > 0 && -2_251_799_813_685_248 <= self.sum
                <= 2_251_799_813_685_248,
            n matches Some(n) ==> -self.count <= 2 * (n * self.count - self.sum) <= self.count,
            n matches Some(n) ==> (self.sum >= 0 ==> 2 * (n * self.count - self.sum) > -self.count),
            n matches Some(n) ==> (self.sum < 0 ==> 2 * (n * self.count - self.sum) < self.count),
    {
        if self.count == 0 || self.sum < -EXACT_SUM || self.sum > EXACT_SUM {
            return None;
        }
        proof {
            nearest_is_near(self.sum as int, self.count as int);
        }
        let count: i128 = self.count as i128;
        let size: i128 = if self.sum >= 0 {
            self.sum
        } else {
            -self.sum
        };
        let n: i128 = (2 * size + count) / (2 * count);
        assert(0 <= n <= 2 * size + 1) by (nonlinear_arith)
            requires
                n == (2 * size + count) / (2 * count),
                count > 0,
                size >= 0,
        ;
        if self.sum >= 0 {
            Some(n as i64)
        } else {
            Some((-n) as i64)
        }
    }
}

/// The mean of some numbers.
fn mean_of(numbers: &Vec<i64>) -> (mean: Option<Mean>)
    ensures
        is_mean(mean, numbers@),
{
    let mut sum: i128 = 0;
    let mut i: usize = 0;
    while i < numbers.len()
        invariant
            i <= numbers.len(),
            sum == sum_of(numbers@.take(i as int)),
            i * i64::MIN <= sum <= i * i64::MAX,
        decreases numbers.len() - i,
    {
        assert(numbers@.take(i + 1).drop_last() =~= numbers@.take(i as int));
        sum = sum + numbers[i] as i128;
        i = i + 1;
    }
    assert(numbers@.take(i as int) =~= numbers@);
    if numbers.len() == 0 {
        None
    } else {
        Some(Mean { sum, count: numbers.len() as u64 })
    }
}

/// The times to the first token, of the rows that have one.
pub open spec fn ttfts(rows: Seq<RequestRecord>) -> Seq<i64>
    decreases rows.len(),
{
    if rows.len() == 0 {
        Seq::empty()
    } else {
        match rows.last().ttft_ms {
            Some(t) => ttfts(rows.drop_last()).push(t),
            None => ttfts(rows.drop_last()),
        }
    }
}

/// The times to the end.
pub open spec fn durations(rows: Seq<RequestRecord>) -> Seq<i64> {
    Seq::new(rows.len(), |i: int| rows[i].duration_ms)
}

/// The times to the first token of some rows of the log.
fn collect_ttfts(log: &Vec<RequestRecord>, places: &Vec<usize>) -> (times: Vec<i64>)
    requires
        all_inside(places@, log@.len() as int),
    ensures
        times@ == ttfts(rows_at(log@, places@)),
{
    let ghost rows = rows_at(log@, places@);
    let mut times: Vec<i64> = Vec::new();
    let mut i: usize = 0;
    while i < places.len()
        invariant
            i <= places.len(),
            all_inside(places@, log@.len() as int),
            rows == rows_at(log@, places@),
            times@ == ttfts(rows.take(i as int)),
        decreases places.len() - i,
    {
        assert(rows.take(i + 1).drop_last() =~= rows.take(i as int));
        match log[places[i]].ttft_ms {
            Some(t) => {
                times.push(t);
            },
            None => {},
        }
        i = i + 1;
    }
    assert(rows.take(i as int) =~= rows);
    times
}

/// The times to the end of some rows of the log.
fn collect_durations(log: &Vec<RequestRecord>, places: &Vec<usize>) -> (times: Vec<i64>)
    requires
        all_inside(places@, log@.len() as int),
    ensures
        times@ == durations(rows_at(log@, places@)),
{
    let mut times: Vec<i64> = Vec::new();
    let mut i: usize = 0;
    while i < places.len()
        invariant
            i <= places.len(),
            all_inside(places@, log@.len() as int),
            times@.len() == i,
            forall|j: int| 0 <= j < i ==> times@[j] == log@[places@[j] as int].duration_ms,
        decreases places.len() - i,
    {
        times.push(log[places[i]].duration_ms);
        i = i + 1;
    }
    assert(times@ =~= durations(rows_at(log@, places@)));
    times
}

// ----- groups -----

/// What rows are grouped by.
pub enum Axis {
    Model,
    Surface,
    /// The time of the row, in steps of that many milliseconds.
    Time(i64),
}

/// What the rows of a group have in common.
#[verifier::ext_equal]
pub enum Key {
    Text(Seq<char>),
    Start(int),
}

/// The start of the step that a time lies in: the time cut, toward 0, to a multiple of `width`.
pub open spec fn step_start(ts: int, width: int) -> int {
    if ts >= 0 {
        ts / width * width
    } else {
        -((-ts) / width * width)
    }
}

/// The group that a row belongs to.
pub open spec fn key_of(axis: Axis, row: RequestRecord) -> Key {
    match axis {
        Axis::Model => Key::Text(row.model@),
        Axis::Surface => Key::Text(row.surface@),
        Axis::Time(width) => Key::Start(step_start(row.ts_ms as int, width as int)),
    }
}

/// A step of time is at least a millisecond long.
pub open spec fn is_axis(axis: Axis) -> bool {
    axis matches Axis::Time(width) ==> width >= 1
}

/// A row of the group `key`.
pub open spec fn in_group(axis: Axis, key: Key) -> spec_fn(RequestRecord) -> bool {
    |r: RequestRecord| key_of(axis, r) == key
}

/// The rows of the group that the row at `p` belongs to.
pub open spec fn group_at(axis: Axis, rows: Seq<RequestRecord>, p: int) -> Seq<RequestRecord> {
    rows.filter(in_group(axis, key_of(axis, rows[p])))
}

/// The row at `p` is the first of its group.
pub open spec fn is_first(axis: Axis, rows: Seq<RequestRecord>, p: int) -> bool {
    0 <= p < rows.len() && forall|q: int|
        0 <= q < p ==> key_of(axis, #[trigger] rows[q]) != key_of(axis, rows[p])
}

/// `ps` names every group by its first row, and each group once.
pub open spec fn names_groups(axis: Axis, rows: Seq<RequestRecord>, ps: Seq<int>) -> bool {
    &&& forall|i: int| 0 <= i < ps.len() ==> is_first(axis, rows, #[trigger] ps[i])
    &&& forall|p: int| #[trigger] is_first(axis, rows, p) ==> ps.contains(p)
    &&& ps.no_duplicates()
}

/// What groups are ordered by: steps of time by their start, other groups by their size, the
/// largest first.
pub open spec fn order_of(axis: Axis, rows: Seq<RequestRecord>, p: int) -> int {
    match axis {
        Axis::Time(width) => step_start(rows[p].ts_ms as int, width as int),
        _ => -(group_at(axis, rows, p).len() as int),
    }
}

/// The group at `p` is listed before the group at `q`; of groups of one size the one with the
/// earlier first row comes first.
pub open spec fn listed_before(axis: Axis, rows: Seq<RequestRecord>, p: int, q: int) -> bool {
    order_of(axis, rows, p) < order_of(axis, rows, q) || (order_of(axis, rows, p) == order_of(
        axis,
        rows,
        q,
    ) && p < q)
}

/// `ps` lists every group, by its first row, in order.
pub open spec fn is_listing(axis: Axis, rows: Seq<RequestRecord>, ps: Seq<int>) -> bool {
    &&& names_groups(axis, rows, ps)
    &&& forall|i: int, j: int|
        0 <= i < j < ps.len() ==> listed_before(axis, rows, #[trigger] ps[i], #[trigger] ps[j])
}

/// The start of the step that a time lies in.
fn step_of(ts: i64, width: i64) -> (start: i64)
    requires
        width >= 1,
    ensures
        start == step_start(ts as int, width as int),
{
    proof {
        step_start_fits(ts as int, width as int);
    }
    (ts / width) * width
}

/// The start of a step lies between 0 and the time.
proof fn step_start_fits(ts: int, width: int)
    requires
        width >= 1,
    ensures
        ts >= 0 ==> 0 <= step_start(ts, width) <= ts,
        ts < 0 ==> ts <= step_start(ts, width) <= 0,
        ts < 0 ==> step_start(ts, width) == (-((-ts) / width)) * width,
{
    let n = if ts >= 0 {
        ts
    } else {
        -ts
    };
    assert(0 <= n / width * width <= n) by (nonlinear_arith)
        requires
            n >= 0,
            width >= 1,
    ;
    assert(-(n / width * width) == (-(n / width)) * width) by (nonlinear_arith);
}

/// Whether two rows belong to the same group.
fn same_group(axis: &Axis, a: &RequestRecord, b: &RequestRecord) -> (same: bool)
    requires
        is_axis(*axis),
    ensures
        same == (key_of(*axis, *a) == key_of(*axis, *b)),
{
    match axis {
        Axis::Model => a.model == b.model,
        Axis::Surface => a.surface == b.surface,
        Axis::Time(width) => step_of(a.ts_ms, *width) == step_of(b.ts_ms, *width),
    }
}

/// The places, in the log, of the group that the row at `p` belongs to.
fn group_places(axis: &Axis, log: &Vec<RequestRecord>, places: &Vec<usize>, p: usize) -> (group:
    Vec<usize>)
    requires
        is_axis(*axis),
        all_inside(places@, log@.len() as int),
        p < places.len(),
    ensures
        all_inside(group@, log@.len() as int),
        rows_at(log@, group@) == group_at(*axis, rows_at(log@, places@), p as int),
{
    let ghost rows = rows_at(log@, places@);
    let ghost pred = in_group(*axis, key_of(*axis, rows[p as int]));
    let mut group: Vec<usize> = Vec::new();
    let mut i: usize = 0;
    proof {
        reveal(Seq::filter);
        assert(rows_at(log@, group@) =~= rows.take(0).filter(pred));
    }
    while i < places.len()
        invariant
            is_axis(*axis),
            all_inside(places@, log@.len() as int),
            p < places.len(),
            i <= places.len(),
            rows == rows_at(log@, places@),
            pred == in_group(*axis, key_of(*axis, rows[p as int])),
            all_inside(group@, log@.len() as int),
            rows_at(log@, group@) == rows.take(i as int).filter(pred),
        decreases places.len() - i,
    {
        let ghost before = rows_at(log@, group@);
        proof {
            rows.take(i as int).lemma_filter_push(rows[i as int], pred);
            assert(rows.take(i + 1) =~= rows.take(i as int).push(rows[i as int]));
        }
        if same_group(axis, &log[places[i]], &log[places[p]]) {
            group.push(places[i]);
            assert(rows_at(log@, group@) =~= before.push(rows[i as int]));
        }
        i = i + 1;
    }
    assert(rows.take(i as int) =~= rows);
    group
}

/// Every row's group has a first row, which does not come after the row.
pub(crate) proof fn first_exists(axis: Axis, rows: Seq<RequestRecord>, q: int) -> (p: int)
    requires
        0 <= q < rows.len(),
    ensures
        is_first(axis, rows, p),
        p <= q,
        key_of(axis, rows[p]) == key_of(axis, rows[q]),
    decreases q,
{
    if is_first(axis, rows, q) {
        q
    } else {
        let k = choose|k: int|
            0 <= k < q && key_of(axis, #[trigger] rows[k]) == key_of(axis, rows[q]);
        first_exists(axis, rows, k)
    }
}

/// The first rows of all groups, in the order of the log.
fn first_rows(axis: &Axis, log: &Vec<RequestRecord>, places: &Vec<usize>) -> (firsts: Vec<usize>)
    requires
        is_axis(*axis),
        all_inside(places@, log@.len() as int),
    ensures
        forall|i: int|
            0 <= i < firsts@.len() ==> is_first(
                *axis,
                rows_at(log@, places@),
                #[trigger] firsts@[i] as int,
            ),
        forall|p: int| #[trigger]
            is_first(*axis, rows_at(log@, places@), p) ==> exists|i: int|
                0 <= i < firsts@.len() && firsts@[i] == p,
        forall|i: int, j: int| 0 <= i < j < firsts@.len() ==> firsts@[i] < firsts@[j],
{
    let ghost rows = rows_at(log@, places@);
    let mut firsts: Vec<usize> = Vec::new();
    let mut p: usize = 0;
    while p < places.len()
        invariant
            is_axis(*axis),
            all_inside(places@, log@.len() as int),
            rows == rows_at(log@, places@),
            p <= places.len(),
            forall|i: int|
                0 <= i < firsts@.len() ==> is_first(*axis, rows, #[trigger] firsts@[i] as int),
            forall|q: int| #[trigger]
                is_first(*axis, rows, q) && q < p ==> exists|i: int|
                    0 <= i < firsts@.len() && firsts@[i] == q,
            forall|i: int, j: int| 0 <= i < j < firsts@.len() ==> firsts@[i] < firsts@[j],
            forall|i: int| 0 <= i < firsts@.len() ==> #[trigger] firsts@[i] < p,
        decreases places.len() - p,
    {
        let mut known: bool = false;
        let mut k: usize = firsts.len();
        while k > 0 && !known
            invariant
                is_axis(*axis),
                all_inside(places@, log@.len() as int),
                rows == rows_at(log@, places@),
                p < places.len(),
                k <= firsts.len(),
                forall|i: int| 0 <= i < firsts@.len() ==> #[trigger] firsts@[i] < p,
                known ==> !is_first(*axis, rows, p as int),
                !known ==> forall|i: int|
                    k <= i < firsts@.len() ==> key_of(*axis, rows[#[trigger] firsts@[i] as int])
                        != key_of(*axis, rows[p as int]),
            decreases k,
        {
            k = k - 1;
            if same_group(axis, &log[places[firsts[k]]], &log[places[p]]) {
                assert(key_of(*axis, rows[firsts@[k as int] as int]) == key_of(
                    *axis,
                    rows[p as int],
                ));
                known = true;
            }
        }
        let ghost before = firsts@;
        if !known {
            proof {
                let f = first_exists(*axis, rows, p as int);
                if f < p {
                    let i = choose|i: int| 0 <= i < firsts@.len() && firsts@[i] == f;
                    assert(key_of(*axis, rows[firsts@[i] as int]) == key_of(*axis, rows[p as int]));
                }
            }
            firsts.push(p);
            assert(firsts@[before.len() as int] == p);
        }
        p = p + 1;
        proof {
            assert forall|q: int| #[trigger]
                is_first(*axis, rows, q) && q < p implies exists|i: int|
                0 <= i < firsts@.len() && firsts@[i] == q by {
                if q < p - 1 {
                    let i = choose|i: int| 0 <= i < before.len() && before[i] == q;
                    assert(firsts@[i] == q);
                } else {
                    assert(firsts@[before.len() as int] == q);
                }
            }
        }
    }
    firsts
}

/// The totals of a group.
#[derive(Debug, Clone, Copy, PartialEq, Eq, Structural)]
pub struct GroupTotals {
    pub requests: u64,
    pub total_tokens: i64,
    pub ttft: Option<Mean>,
    pub duration: Option<Mean>,
}

/// `totals` are the totals of some rows.
pub open spec fn are_totals(totals: GroupTotals, rows: Seq<RequestRecord>) -> bool {
    &&& totals.requests == rows.len()
    &&& totals.total_tokens == total(Column::TotalTokens, rows)
    &&& is_mean(totals.ttft, ttfts(rows))
    &&& is_mean(totals.duration, durations(rows))
}

/// The totals of some rows of the log.
fn totals_of(log: &Vec<RequestRecord>, places: &Vec<usize>) -> (totals: Result<
    GroupTotals,
    StatsError,
>)
    requires
        all_inside(places@, log@.len() as int),
    ensures
        totals is Ok <==> fits(Column::TotalTokens, rows_at(log@, places@)),
        totals matches Ok(t) ==> are_totals(t, rows_at(log@, places@)),
{
    match sum_column(Column::TotalTokens, log, places) {
        Ok(total_tokens) => Ok(
            GroupTotals {
                requests: places.len() as u64,
                total_tokens,
                ttft: mean_of(&collect_ttfts(log, places)),
                duration: mean_of(&collect_durations(log, places)),
            },
        ),
        Err(e) => Err(e),
    }
}

/// A group: where its first row stands, what it is ordered by, and its totals.
#[derive(Clone, Copy)]
struct Group {
    first: usize,
    order: i128,
    totals: GroupTotals,
}

/// The first rows of some groups.
spec fn firsts_of(groups: Seq<Group>) -> Seq<int> {
    Seq::new(groups.len(), |i: int| groups[i].first as int)
}

/// The groups hold the totals and the order of their rows.
spec fn groups_are(axis: Axis, rows: Seq<RequestRecord>, groups: Seq<Group>) -> bool {
    forall|i: int| 0 <= i < groups.len() ==> group_is(axis, rows, #[trigger] groups[i])
}

/// The group holds the totals and the order of its rows.
spec fn group_is(axis: Axis, rows: Seq<RequestRecord>, g: Group) -> bool {
    &&& are_totals(g.totals, group_at(axis, rows, g.first as int))
    &&& g.order == order_of(axis, rows, g.first as int)
}

/// The sums of every group stay within 64 bits.
pub open spec fn groups_fit(axis: Axis, rows: Seq<RequestRecord>) -> bool {
    forall|p: int| #[trigger]
        is_first(axis, rows, p) ==> fits(Column::TotalTokens, group_at(axis, rows, p))
}

/// All groups, in the order of their first rows.
fn all_groups(axis: &Axis, log: &Vec<RequestRecord>, places: &Vec<usize>) -> (groups: Result<
    Vec<Group>,
    StatsError,
>)
    requires
        is_axis(*axis),
        all_inside(places@, log@.len() as int),
    ensures
        groups is Ok <==> groups_fit(*axis, rows_at(log@, places@)),
        groups matches Ok(g) ==> {
            &&& groups_are(*axis, rows_at(log@, places@), g@)
            &&& names_groups(*axis, rows_at(log@, places@), firsts_of(g@))
        },
{
    let ghost rows = rows_at(log@, places@);
    let firsts = first_rows(axis, log, places);
    let mut groups: Vec<Group> = Vec::new();
    let mut i: usize = 0;
    while i < firsts.len()
        invariant
            is_axis(*axis),
            all_inside(places@, log@.len() as int),
            rows == rows_at(log@, places@),
            i <= firsts.len(),
            forall|k: int|
                0 <= k < firsts@.len() ==> is_first(*axis, rows, #[trigger] firsts@[k] as int),
            groups@.len() == i,
            groups_are(*axis, rows, groups@),
            forall|k: int| 0 <= k < i ==> (#[trigger] groups@[k]).first == firsts@[k],
            forall|k: int|
                0 <= k < i ==> fits(
                    Column::TotalTokens,
                    group_at(*axis, rows, #[trigger] firsts@[k] as int),
                ),
        decreases firsts.len() - i,
    {
        assert(is_first(*axis, rows, firsts@[i as int] as int));
        let first: usize = firsts[i];
        let group = group_places(axis, log, places, first);
        match totals_of(log, &group) {
            Ok(totals) => {
                let order: i128 = match axis {
                    Axis::Time(width) => step_of(log[places[first]].ts_ms, *width) as i128,
                    _ => -(totals.requests as i128),
                };
                groups.push(Group { first, order, totals });
            },
            Err(e) => {
                return Err(e);
            },
        }
        i = i + 1;
    }
    proof {
        let ps = firsts_of(groups@);
        assert forall|p: int| #[trigger] is_first(*axis, rows, p) implies ps.contains(p) && fits(
            Column::TotalTokens,
            group_at(*axis, rows, p),
        ) by {
            let k = choose|k: int| 0 <= k < firsts@.len() && firsts@[k] == p;
            assert(ps[k] == p);
        }
    }
    Ok(groups)
}

/// The group `a` is listed before the group `b`.
spec fn comes_before(a: Group, b: Group) -> bool {
    a.order < b.order || (a.order == b.order && a.first < b.first)
}

/// The groups stand in order.
spec fn ordered(groups: Seq<Group>) -> bool {
    forall|i: int, j: int| 0 <= i < j < groups.len() ==> #[trigger] comes_before(groups[i], groups[j])
}

/// Putting a group in at its place keeps the order.
proof fn insert_ordered(groups: Seq<Group>, at: int, g: Group)
    requires
        ordered(groups),
        0 <= at <= groups.len(),
        forall|k: int| 0 <= k < at ==> comes_before(#[trigger] groups[k], g),
        at < groups.len() ==> comes_before(g, groups[at]),
    ensures
        ordered(groups.insert(at, g)),
{
    let out = groups.insert(at, g);
    assert forall|i: int, j: int| 0 <= i < j < out.len() implies #[trigger] comes_before(
        out[i],
        out[j],
    ) by {
        let a = if i < at {
            i
        } else {
            i - 1
        };
        let b = if j < at {
            j
        } else {
            j - 1
        };
        if i == at {
            if b > at {
                assert(comes_before(groups[at], groups[b]));
            }
        } else if j == at {
            assert(comes_before(groups[a], g));
        } else {
            assert(comes_before(groups[a], groups[b]));
        }
    }
}

/// The groups in order.
fn sort_groups(groups: &Vec<Group>) -> (out: Vec<Group>)
    requires
        firsts_of(groups@).no_duplicates(),
    ensures
        ordered(out@),
        out@.to_multiset() == groups@.to_multiset(),
{
    let mut out: Vec<Group> = Vec::new();
    let mut i: usize = 0;
    assert(groups@.take(0) =~= out@);
    while i < groups.len()
        invariant
            i <= groups.len(),
            firsts_of(groups@).no_duplicates(),
            ordered(out@),
            out@.to_multiset() == groups@.take(i as int).to_multiset(),
        decreases groups.len() - i,
    {
        let g = groups[i];
        let mut at: usize = out.len();
        proof {
            broadcast use vstd::seq_lib::group_to_multiset_ensures;

            assert forall|k: int| 0 <= k < out@.len() implies (#[trigger] out@[k]).first
                != g.first by {
                assert(out@.contains(out@[k]));
                assert(groups@.take(i as int).to_multiset().count(out@[k]) > 0);
                assert(groups@.take(i as int).contains(out@[k]));
                let m = choose|m: int|
                    0 <= m < groups@.take(i as int).len() && groups@.take(i as int)[m] == out@[k];
                assert(firsts_of(groups@)[m] != firsts_of(groups@)[i as int]);
            }
        }
        while at > 0 && !(out[at - 1].order < g.order || (out[at - 1].order == g.order && out[at
            - 1].first < g.first))
            invariant
                at <= out.len(),
                ordered(out@),
                forall|k: int| 0 <= k < out@.len() ==> (#[trigger] out@[k]).first != g.first,
                at < out.len() ==> comes_before(g, out@[at as int]),
            decreases at,
        {
            at = at - 1;
        }
        proof {
            assert forall|k: int| 0 <= k < at implies comes_before(#[trigger] out@[k], g) by {
                if k < at - 1 {
                    assert(comes_before(out@[k], out@[at - 1]));
                }
            }
            insert_ordered(out@, at as int, g);
            to_multiset_insert(out@, at as int, g);
            to_multiset_build(groups@.take(i as int), g);
            assert(groups@.take(i + 1) =~= groups@.take(i as int).push(g));
        }
        out.insert(at, g);
        i = i + 1;
    }
    assert(groups@.take(i as int) =~= groups@);
    out
}

/// Groups that are the same and stand in order list all groups.
proof fn sorted_groups_list(
    axis: Axis,
    rows: Seq<RequestRecord>,
    groups: Seq<Group>,
    out: Seq<Group>,
)
    requires
        groups_are(axis, rows, groups),
        names_groups(axis, rows, firsts_of(groups)),
        ordered(out),
        out.to_multiset() == groups.to_multiset(),
    ensures
        groups_are(axis, rows, out),
        is_listing(axis, rows, firsts_of(out)),
{
    broadcast use vstd::seq_lib::group_to_multiset_ensures;

    let ps = firsts_of(groups);
    let qs = firsts_of(out);
    assert forall|k: int| 0 <= k < out.len() implies group_is(axis, rows, #[trigger] out[k])
        && is_first(axis, rows, qs[k]) by {
        assert(out.contains(out[k]));
        assert(groups.to_multiset().count(out[k]) > 0);
        assert(groups.contains(out[k]));
        let m = choose|m: int| 0 <= m < groups.len() && groups[m] == out[k];
        assert(ps[m] == qs[k]);
    }
    assert forall|k: int| 0 <= k < qs.len() implies is_first(axis, rows, #[trigger] qs[k]) by {
        assert(group_is(axis, rows, out[k]));
    }
    assert forall|p: int| #[trigger] is_first(axis, rows, p) implies qs.contains(p) by {
        assert(ps.contains(p));
        let m = choose|m: int| 0 <= m < ps.len() && ps[m] == p;
        assert(groups.contains(groups[m]));
        assert(out.to_multiset().count(groups[m]) > 0);
        assert(out.contains(groups[m]));
        let k = choose|k: int| 0 <= k < out.len() && out[k] == groups[m];
        assert(qs[k] == p);
    }
    assert forall|i: int, j: int| 0 <= i < j < qs.len() implies listed_before(
        axis,
        rows,
        #[trigger] qs[i],
        #[trigger] qs[j],
    ) by {
        assert(comes_before(out[i], out[j]));
        assert(group_is(axis, rows, out[i]));
        assert(group_is(axis, rows, out[j]));
    }
    assert forall|i: int, j: int| 0 <= i < j < qs.len() implies qs[i] != qs[j] by {
        assert(listed_before(axis, rows, qs[i], qs[j]));
    }
}

/// All groups, in order.
fn list_groups(axis: &Axis, log: &Vec<RequestRecord>, places: &Vec<usize>) -> (groups: Result<
    Vec<Group>,
    StatsError,
>)
    requires
        is_axis(*axis),
        all_inside(places@, log@.len() as int),
    ensures
        groups is Ok <==> groups_fit(*axis, rows_at(log@, places@)),
        groups matches Ok(g) ==> {
            &&& groups_are(*axis, rows_at(log@, places@), g@)
            &&& is_listing(*axis, rows_at(log@, places@), firsts_of(g@))
        },
{
    match all_groups(axis, log, places) {
        Ok(groups) => {
            let out = sort_groups(&groups);
            proof {
                sorted_groups_list(*axis, rows_at(log@, places@), groups@, out@);
            }
            Ok(out)
        },
        Err(e) => Err(e),
    }
}

// ----- the page -----

/// The totals of all rows in sight.
#[derive(Debug, Clone, Copy, PartialEq, Eq, Structural)]
pub struct Summary {
    pub requests: u64,
    pub success: i64,
    pub failed: i64,
    pub prompt_tokens: i64,
    pub completion_tokens: i64,
    pub reasoning_tokens: i64,
    pub total_tokens: i64,
    pub ttft: Option<Mean>,
    pub duration: Option<Mean>,
}

/// The totals of one model.
#[derive(Debug)]
pub struct ModelStats {
    pub model: String,
    pub totals: GroupTotals,
    /// How the times to the first token are spread; nothing where no row has one.
    pub spread: Option<TtftSpread>,
}

/// The totals of one surface.
#[derive(Debug)]
pub struct SurfaceStats {
    pub surface: String,
    pub requests: u64,
    pub total_tokens: i64,
}

/// The totals of one step of time.
#[derive(Debug, Clone, Copy, PartialEq, Eq, Structural)]
pub struct TimePoint {
    /// When the step starts, in Unix milliseconds.
    pub t: i64,
    pub totals: GroupTotals,
}

/// What the statistics page shows.
#[derive(Debug)]
pub struct Dashboard {
    pub now_ms: i64,
    pub since_ms: i64,
    pub summary: Summary,
    /// How many requests began within the last minute.
    pub rpm_now: u64,
    pub by_model: Vec<ModelStats>,
    pub by_surface: Vec<SurfaceStats>,
    pub bucket_ms: i64,
    pub points: Vec<TimePoint>,
}

/// How many groups a listing by model or by surface shows at most.
pub const GROUP_LIMIT: usize = 50;

/// How many of `len` groups are shown.
pub open spec fn shown(len: nat) -> int {
    if len < GROUP_LIMIT {
        len as int
    } else {
        GROUP_LIMIT as int
    }
}

/// `summary` holds the totals of all rows.
pub open spec fn is_summary(summary: Summary, rows: Seq<RequestRecord>) -> bool {
    &&& summary.requests == rows.len()
    &&& summary.success == total(Column::Success, rows)
    &&& summary.failed == rows.len() - total(Column::Success, rows)
    &&& summary.prompt_tokens == total(Column::PromptTokens, rows)
    &&& summary.completion_tokens == total(Column::CompletionTokens, rows)
    &&& summary.reasoning_tokens == total(Column::ReasoningTokens, rows)
    &&& summary.total_tokens == total(Column::TotalTokens, rows)
    &&& is_mean(summary.ttft, ttfts(rows))
    &&& is_mean(summary.duration, durations(rows))
}

/// The sums of the summary stay within 64 bits.
pub open spec fn summary_fits(rows: Seq<RequestRecord>) -> bool {
    &&& rows.len() <= i64::MAX
    &&& fits(Column::PromptTokens, rows)
    &&& fits(Column::CompletionTokens, rows)
    &&& fits(Column::ReasoningTokens, rows)
    &&& fits(Column::TotalTokens, rows)
}

/// `stats` are those of the model whose first row stands at `p`.
pub open spec fn is_model_stats(stats: ModelStats, rows: Seq<RequestRecord>, p: int) -> bool {
    &&& stats.model@ == rows[p].model@
    &&& are_totals(stats.totals, group_at(Axis::Model, rows, p))
    &&& stats.spread == spread_of(ttfts(group_at(Axis::Model, rows, p)))
}

/// `stats` are those of the surface whose first row stands at `p`.
pub open spec fn is_surface_stats(stats: SurfaceStats, rows: Seq<RequestRecord>, p: int) -> bool {
    &&& stats.surface@ == rows[p].surface@
    &&& stats.requests == group_at(Axis::Surface, rows, p).len()
    &&& stats.total_tokens == total(Column::TotalTokens, group_at(Axis::Surface, rows, p))
}

/// `point` is that of the step of time whose first row stands at `p`.
pub open spec fn is_time_point(point: TimePoint, width: i64, rows: Seq<RequestRecord>, p: int) -> bool {
    &&& point.t == step_start(rows[p].ts_ms as int, width as int)
    &&& are_totals(point.totals, group_at(Axis::Time(width), rows, p))
}

/// `list` shows the models, those with the most requests first, up to the limit.
pub open spec fn is_model_list(list: Seq<ModelStats>, rows: Seq<RequestRecord>) -> bool {
    exists|ps: Seq<int>| #[trigger]
        is_listing(Axis::Model, rows, ps) && list.len() == shown(ps.len()) && forall|i: int|
            0 <= i < list.len() ==> is_model_stats(#[trigger] list[i], rows, ps[i])
}

/// `list` shows the surfaces, those with the most requests first, up to the limit.
pub open spec fn is_surface_list(list: Seq<SurfaceStats>, rows: Seq<RequestRecord>) -> bool {
    exists|ps: Seq<int>| #[trigger]
        is_listing(Axis::Surface, rows, ps) && list.len() == shown(ps.len()) && forall|i: int|
            0 <= i < list.len() ==> is_surface_stats(#[trigger] list[i], rows, ps[i])
}

/// `list` shows every step of time that has rows, the earliest first.
pub open spec fn is_time_line(list: Seq<TimePoint>, width: i64, rows: Seq<RequestRecord>) -> bool {
    exists|ps: Seq<int>| #[trigger]
        is_listing(Axis::Time(width), rows, ps) && list.len() == ps.len() && forall|i: int|
            0 <= i < list.len() ==> is_time_point(#[trigger] list[i], width, rows, ps[i])
}

/// The width of a step of time: at least a millisecond.
pub open spec fn step_width(bucket_ms: i64) -> i64 {
    if bucket_ms < 1 {
        1
    } else {
        bucket_ms
    }
}

/// Every sum that the page shows stays within 64 bits.
pub open spec fn dashboard_fits(rows: Seq<RequestRecord>, bucket_ms: i64) -> bool {
    &&& summary_fits(rows)
    &&& groups_fit(Axis::Model, rows)
    &&& groups_fit(Axis::Surface, rows)
    &&& groups_fit(Axis::Time(step_width(bucket_ms)), rows)
}

/// The successes among some rows are at most the rows.
proof fn success_bounds(rows: Seq<RequestRecord>)
    ensures
        0 <= total(Column::Success, rows) <= rows.len(),
        rows.len() <= i64::MAX ==> fits(Column::Success, rows),
    decreases rows.len(),
{
    if rows.len() > 0 {
        success_bounds(rows.drop_last());
    }
}

/// The summary of some rows of the log.
fn summarise(log: &Vec<RequestRecord>, places: &Vec<usize>) -> (summary: Result<
    Summary,
    StatsError,
>)
    requires
        all_inside(places@, log@.len() as int),
    ensures
        summary is Ok <==> summary_fits(rows_at(log@, places@)),
        summary matches Ok(s) ==> is_summary(s, rows_at(log@, places@)),
{
    let count: usize = places.len();
    if count as u64 > i64::MAX as u64 {
        return Err(StatsError::IntegerOverflow);
    }
    proof {
        success_bounds(rows_at(log@, places@));
    }
    let requests: u64 = count as u64;
    let success: i64 = match sum_column(Column::Success, log, places) {
        Ok(n) => n,
        Err(e) => {
            return Err(e);
        },
    };
    let prompt_tokens: i64 = match sum_column(Column::PromptTokens, log, places) {
        Ok(n) => n,
        Err(e) => {
            return Err(e);
        },
    };
    let completion_tokens: i64 = match sum_column(Column::CompletionTokens, log, places) {
        Ok(n) => n,
        Err(e) => {
            return Err(e);
        },
    };
    let reasoning_tokens: i64 = match sum_column(Column::ReasoningTokens, log, places) {
        Ok(n) => n,
        Err(e) => {
            return Err(e);
        },
    };
    let total_tokens: i64 = match sum_column(Column::TotalTokens, log, places) {
        Ok(n) => n,
        Err(e) => {
            return Err(e);
        },
    };
    Ok(
        Summary {
            requests,
            success,
            failed: requests as i64 - success,
            prompt_tokens,
            completion_tokens,
            reasoning_tokens,
            total_tokens,
            ttft: mean_of(&collect_ttfts(log, places)),
            duration: mean_of(&collect_durations(log, places)),
        },
    )
}

/// The models, those with the most requests first.
fn list_models(log: &Vec<RequestRecord>, places: &Vec<usize>) -> (list: Result<
    Vec<ModelStats>,
    StatsError,
>)
    requires
        all_inside(places@, log@.len() as int),
    ensures
        list is Ok <==> groups_fit(Axis::Model, rows_at(log@, places@)),
        list matches Ok(l) ==> is_model_list(l@, rows_at(log@, places@)),
{
    let ghost rows = rows_at(log@, places@);
    let groups = match list_groups(&Axis::Model, log, places) {
        Ok(groups) => groups,
        Err(e) => {
            return Err(e);
        },
    };
    let ghost ps = firsts_of(groups@);
    let mut list: Vec<ModelStats> = Vec::new();
    while list.len() < groups.len() && list.len() < GROUP_LIMIT
        invariant
            all_inside(places@, log@.len() as int),
            rows == rows_at(log@, places@),
            groups_are(Axis::Model, rows, groups@),
            ps == firsts_of(groups@),
            is_listing(Axis::Model, rows, ps),
            list@.len() <= groups@.len(),
            list@.len() <= GROUP_LIMIT,
            forall|i: int| 0 <= i < list@.len() ==> is_model_stats(#[trigger] list@[i], rows, ps[i]),
        decreases groups.len() - list.len(),
    {
        let ghost at = list@.len() as int;
        assert(is_first(Axis::Model, rows, ps[at]));
        assert(group_is(Axis::Model, rows, groups@[at]));
        let g = groups[list.len()];
        let members = group_places(&Axis::Model, log, places, g.first);
        let times = collect_ttfts(log, &members);
        list.push(
            ModelStats {
                model: log[places[g.first]].model.clone(),
                totals: g.totals,
                spread: spread(&times),
            },
        );
    }
    Ok(list)
}

/// The surfaces, those with the most requests first.
fn list_surfaces(log: &Vec<RequestRecord>, places: &Vec<usize>) -> (list: Result<
    Vec<SurfaceStats>,
    StatsError,
>)
    requires
        all_inside(places@, log@.len() as int),
    ensures
        list is Ok <==> groups_fit(Axis::Surface, rows_at(log@, places@)),
        list matches Ok(l) ==> is_surface_list(l@, rows_at(log@, places@)),
{
    let ghost rows = rows_at(log@, places@);
    let groups = match list_groups(&Axis::Surface, log, places) {
        Ok(groups) => groups,
        Err(e) => {
            return Err(e);
        },
    };
    let ghost ps = firsts_of(groups@);
    let mut list: Vec<SurfaceStats> = Vec::new();
    while list.len() < groups.len() && list.len() < GROUP_LIMIT
        invariant
            all_inside(places@, log@.len() as int),
            rows == rows_at(log@, places@),
            groups_are(Axis::Surface, rows, groups@),
            ps == firsts_of(groups@),
            is_listing(Axis::Surface, rows, ps),
            list@.len() <= groups@.len(),
            list@.len() <= GROUP_LIMIT,
            forall|i: int|
                0 <= i < list@.len() ==> is_surface_stats(#[trigger] list@[i], rows, ps[i]),
        decreases groups.len() - list.len(),
    {
        let ghost at = list@.len() as int;
        assert(is_first(Axis::Surface, rows, ps[at]));
        assert(group_is(Axis::Surface, rows, groups@[at]));
        let g = groups[list.len()];
        list.push(
            SurfaceStats {
                surface: log[places[g.first]].surface.clone(),
                requests: g.totals.requests,
                total_tokens: g.totals.total_tokens,
            },
        );
    }
    Ok(list)
}

/// The steps of time, the earliest first.
fn list_points(width: i64, log: &Vec<RequestRecord>, places: &Vec<usize>) -> (list: Result<
    Vec<TimePoint>,
    StatsError,
>)
    requires
        width >= 1,
        all_inside(places@, log@.len() as int),
    ensures
        list is Ok <==> groups_fit(Axis::Time(width), rows_at(log@, places@)),
        list matches Ok(l) ==> is_time_line(l@, width, rows_at(log@, places@)),
{
    let ghost rows = rows_at(log@, places@);
    let groups = match list_groups(&Axis::Time(width), log, places) {
        Ok(groups) => groups,
        Err(e) => {
            return Err(e);
        },
    };
    let ghost ps = firsts_of(groups@);
    let mut list: Vec<TimePoint> = Vec::new();
    while list.len() < groups.len()
        invariant
            width >= 1,
            all_inside(places@, log@.len() as int),
            rows == rows_at(log@, places@),
            groups_are(Axis::Time(width), rows, groups@),
            ps == firsts_of(groups@),
            is_listing(Axis::Time(width), rows, ps),
            list@.len() <= groups@.len(),
            forall|i: int|
                0 <= i < list@.len() ==> is_time_point(#[trigger] list@[i], width, rows, ps[i]),
        decreases groups.len() - list.len(),
    {
        let ghost at = list@.len() as int;
        assert(is_first(Axis::Time(width), rows, ps[at]));
        assert(group_is(Axis::Time(width), rows, groups@[at]));
        let g = groups[list.len()];
        list.push(TimePoint { t: step_of(log[places[g.first]].ts_ms, width), totals: g.totals });
    }
    Ok(list)
}

/// `page` is the statistics page of a log.
pub open spec fn is_dashboard(
    page: Dashboard,
    log: Seq<RequestRecord>,
    now_ms: i64,
    since_ms: i64,
    bucket_ms: i64,
) -> bool {
    let rows = rows_shown(log, since_ms as int);
    &&& page.now_ms == now_ms
    &&& page.since_ms == since_ms
    &&& page.bucket_ms == bucket_ms
    &&& is_summary(page.summary, rows)
    &&& page.rpm_now == rows_since(log, now_ms - 60_000).len()
    &&& is_model_list(page.by_model@, rows)
    &&& is_surface_list(page.by_surface@, rows)
    &&& is_time_line(page.points@, step_width(bucket_ms), rows)
}

/// The statistics page of a log: what began at `since_ms` or later (everything where that is 0),
/// in steps of `bucket_ms`, and the requests of the minute before `now_ms`.
pub fn query_dashboard(log: &Vec<RequestRecord>, now_ms: i64, since_ms: i64, bucket_ms: i64) -> (page:
    Result<Dashboard, StatsError>)
    requires
        now_ms >= i64::MIN + 60_000,
    ensures
        page is Ok <==> dashboard_fits(rows_shown(log@, since_ms as int), bucket_ms),
        page matches Ok(p) ==> is_dashboard(p, log@, now_ms, since_ms, bucket_ms),
{
    let places = if since_ms == 0 {
        all_places(log)
    } else {
        places_since(log, since_ms)
    };
    let last_minute = places_since(log, now_ms - 60_000);
    let width: i64 = if bucket_ms < 1 {
        1
    } else {
        bucket_ms
    };
    let summary = match summarise(log, &places) {
        Ok(summary) => summary,
        Err(e) => {
            return Err(e);
        },
    };
    let by_model = match list_models(log, &places) {
        Ok(list) => list,
        Err(e) => {
            return Err(e);
        },
    };
    let by_surface = match list_surfaces(log, &places) {
        Ok(list) => list,
        Err(e) => {
            return Err(e);
        },
    };
    let points = match list_points(width, log, &places) {
        Ok(list) => list,
        Err(e) => {
            return Err(e);
        },
    };
    assert(rows_at(log@, last_minute@).len() == last_minute@.len());
    Ok(
        Dashboard {
            now_ms,
            since_ms,
            summary,
            rpm_now: last_minute.len() as u64,
            by_model,
            by_surface,
            bucket_ms,
            points,
        },
    )
}

/// The earliest time that the page depends on.
pub fn dashboard_floor(now_ms: i64, since_ms: i64) -> (floor: i64)
    requires
        now_ms >= i64::MIN + 60_000,
    ensures
        since_ms == 0 ==> floor == i64::MIN,
        since_ms != 0 ==> floor == if since_ms < now_ms - 60_000 {
            since_ms as int
        } else {
            now_ms - 60_000
        },
{
    let minute_ago: i64 = now_ms - 60_000;
    if since_ms == 0 {
        i64::MIN
    } else if since_ms < minute_ago {
        since_ms
    } else {
        minute_ago
    }
}

/// The latest rows of a log, the newest first: as many as asked for, at least one and at most a
/// thousand.
pub open spec fn latest(log: Seq<RequestRecord>, limit: int) -> Seq<RequestRecord> {
    let n = recent_limit_of(limit);
    log.reverse().take(
        if n < log.len() {
            n
        } else {
            log.len() as int
        },
    )
}

/// How many rows are shown at most where `limit` are asked for.
pub open spec fn recent_limit_of(limit: int) -> int {
    if limit < 1 {
        1
    } else if limit > 1000 {
        1000
    } else {
        limit
    }
}

/// How many rows are shown at most where `limit` are asked for.
pub fn recent_limit(limit: i64) -> (n: i64)
    ensures
        n == recent_limit_of(limit as int),
        1 <= limit <= 1000 ==> n == limit,
        limit < 1 ==> n == 1,
        limit > 1000 ==> n == 1000,
{
    if limit < 1 {
        1
    } else if limit > 1000 {
        1000
    } else {
        limit
    }
}

/// The latest rows of a log, the newest first.
pub fn query_recent(log: &Vec<RequestRecord>, limit: i64) -> (items: Vec<RequestRecord>)
    ensures
        items@ == latest(log@, limit as int),
        1 <= limit <= 1000 ==> items@.len() == if limit <= log@.len() {
            limit as int
        } else {
            log@.len() as int
        },
        limit < 1 ==> items@.len() == if log@.len() >= 1 {
            1int
        } else {
            0
        },
        limit > 1000 ==> items@.len() == if log@.len() >= 1000 {
            1000int
        } else {
            log@.len() as int
        },
        forall|i: int|
            0 <= i < items@.len() ==> #[trigger] items@[i] == log@[log@.len() - 1 - i],
{
    let n: usize = recent_limit(limit) as usize;
    let mut items: Vec<RequestRecord> = Vec::new();
    while items.len() < n && items.len() < log.len()
        invariant
            n == recent_limit_of(limit as int),
            items@.len() <= n,
            items@.len() <= log@.len(),
            items@ == log@.reverse().take(items@.len() as int),
        decreases n - items.len(),
    {
        let rec = log[log.len() - 1 - items.len()].clone();
        items.push(rec);
        assert(items@ =~= log@.reverse().take(items@.len() as int));
    }
    items
}

// ----- laws -----

/// Rows that were just written come first, the last of them at the top, before the older rows.
pub proof fn latest_shows_last_batch(
    log: Seq<RequestRecord>,
    batch: Seq<RequestRecord>,
    limit: int,
)
    ensures
        latest(log + batch, limit) == (batch.reverse() + log.reverse()).take(
            if recent_limit_of(limit) < (log + batch).len() {
                recent_limit_of(limit)
            } else {
                (log + batch).len() as int
            },
        ),
{
    assert((log + batch).reverse() =~= batch.reverse() + log.reverse());
}

/// The latest rows depend on as many rows at the end of the log as are shown at most.
pub proof fn latest_needs_only_the_end(log: Seq<RequestRecord>, limit: int, cut: int)
    requires
        0 <= cut,
        log.len() - cut >= recent_limit_of(limit),
    ensures
        latest(log.skip(cut), limit) == latest(log, limit),
{
    assert(latest(log.skip(cut), limit) =~= latest(log, limit));
}

/// Filtering by a condition and then by a stronger one is filtering by the stronger one.
proof fn filter_twice(
    rows: Seq<RequestRecord>,
    weak: spec_fn(RequestRecord) -> bool,
    strong: spec_fn(RequestRecord) -> bool,
)
    requires
        forall|r: RequestRecord| #[trigger] strong(r) ==> weak(r),
    ensures
        rows.filter(weak).filter(strong) == rows.filter(strong),
    decreases rows.len(),
{
    reveal(Seq::filter);
    if rows.len() > 0 {
        let init = rows.drop_last();
        filter_twice(init, weak, strong);
        init.lemma_filter_push(rows.last(), weak);
        init.lemma_filter_push(rows.last(), strong);
        init.filter(weak).lemma_filter_push(rows.last(), strong);
        assert(rows =~= init.push(rows.last()));
    }
}

/// Every row began at the earliest time there is, or later.
proof fn every_row_began(rows: Seq<RequestRecord>, floor: int)
    requires
        floor <= i64::MIN,
    ensures
        rows_since(rows, floor) == rows,
    decreases rows.len(),
{
    reveal(Seq::filter);
    if rows.len() > 0 {
        every_row_began(rows.drop_last(), floor);
        assert(rows =~= rows.drop_last().push(rows.last()));
    }
}

/// The page does not depend on rows that began before both `since_ms` and the last minute; where
/// `since_ms` is 0 it may depend on every row.
pub proof fn dashboard_ignores_older_rows(
    page: Dashboard,
    log: Seq<RequestRecord>,
    now_ms: i64,
    since_ms: i64,
    bucket_ms: i64,
    floor: int,
)
    requires
        since_ms == 0 ==> floor <= i64::MIN,
        floor <= since_ms,
        floor <= now_ms - 60_000,
    ensures
        is_dashboard(page, rows_since(log, floor), now_ms, since_ms, bucket_ms) <==> is_dashboard(
            page,
            log,
            now_ms,
            since_ms,
            bucket_ms,
        ),
        dashboard_fits(rows_shown(rows_since(log, floor), since_ms as int), bucket_ms)
            == dashboard_fits(rows_shown(log, since_ms as int), bucket_ms),
{
    if since_ms == 0 {
        every_row_began(log, floor);
    }
    filter_twice(log, began_since(floor), began_since(since_ms as int));
    filter_twice(log, began_since(floor), began_since(now_ms - 60_000));
}

/// Where `since_ms` is 0, every row of the log is counted.
pub proof fn zero_shows_every_row(
    page: Dashboard,
    log: Seq<RequestRecord>,
    now_ms: i64,
    bucket_ms: i64,
)
    requires
        is_dashboard(page, log, now_ms, 0, bucket_ms),
    ensures
        page.summary.requests == log.len(),
{
}

/// The order of two listed groups, or the same group.
spec fn listed_up_to(axis: Axis, rows: Seq<RequestRecord>) -> spec_fn(int, int) -> bool {
    |p: int, q: int| p == q || listed_before(axis, rows, p, q)
}

/// There is one listing of the groups: the order of the page is fixed by the log.
pub proof fn listing_is_unique(axis: Axis, rows: Seq<RequestRecord>, ps: Seq<int>, qs: Seq<int>)
    requires
        is_listing(axis, rows, ps),
        is_listing(axis, rows, qs),
    ensures
        ps == qs,
{
    broadcast use vstd::seq_lib::group_to_multiset_ensures;

    let leq = listed_up_to(axis, rows);
    assert(vstd::relations::total_ordering(leq));
    ps.lemma_multiset_has_no_duplicates();
    qs.lemma_multiset_has_no_duplicates();
    assert forall|p: int| ps.to_multiset().count(p) == qs.to_multiset().count(p) by {
        if ps.contains(p) {
            let i = choose|i: int| 0 <= i < ps.len() && ps[i] == p;
            assert(is_first(axis, rows, ps[i]));
            assert(qs.contains(p));
        }
        if qs.contains(p) {
            let i = choose|i: int| 0 <= i < qs.len() && qs[i] == p;
            assert(is_first(axis, rows, qs[i]));
            assert(ps.contains(p));
        }
        assert(ps.to_multiset().contains(p) <==> qs.to_multiset().contains(p));
    }
    assert(ps.to_multiset() =~= qs.to_multiset());
    lemma_sorted_unique(ps, qs, leq);
}

/// The rows of a group and the other rows are all rows.
proof fn filter_splits(
    rows: Seq<RequestRecord>,
    p: spec_fn(RequestRecord) -> bool,
    q: spec_fn(RequestRecord) -> bool,
)
    requires
        forall|r: RequestRecord| #[trigger] q(r) == !p(r),
    ensures
        rows.filter(p).len() + rows.filter(q).len() == rows.len(),
    decreases rows.len(),
{
    reveal(Seq::filter);
    if rows.len() > 0 {
        filter_splits(rows.drop_last(), p, q);
    }
}

/// The sizes of the groups `keys`, added up.
spec fn sizes(axis: Axis, rows: Seq<RequestRecord>, keys: Seq<Key>) -> int
    decreases keys.len(),
{
    if keys.len() == 0 {
        0
    } else {
        sizes(axis, rows, keys.drop_last()) + rows.filter(in_group(axis, keys.last())).len()
    }
}

/// Taking a group's rows away does not change the sizes of the other groups.
proof fn sizes_without(
    axis: Axis,
    rows: Seq<RequestRecord>,
    keys: Seq<Key>,
    other: spec_fn(RequestRecord) -> bool,
    key: Key,
)
    requires
        !keys.contains(key),
        forall|r: RequestRecord| #[trigger] other(r) == !in_group(axis, key)(r),
    ensures
        sizes(axis, rows.filter(other), keys) == sizes(axis, rows, keys),
    decreases keys.len(),
{
    if keys.len() > 0 {
        assert(keys.contains(keys[keys.len() - 1]));
        assert forall|k: Key| keys.drop_last().contains(k) implies keys.contains(k) by {
            let i = choose|i: int| 0 <= i < keys.drop_last().len() && keys.drop_last()[i] == k;
            assert(keys[i] == k);
        }
        sizes_without(axis, rows, keys.drop_last(), other, key);
        filter_twice(rows, other, in_group(axis, keys.last()));
    }
}

/// Groups that cover all rows have as many rows as there are.
proof fn sizes_add_up(axis: Axis, rows: Seq<RequestRecord>, keys: Seq<Key>)
    requires
        keys.no_duplicates(),
        forall|i: int| 0 <= i < rows.len() ==> keys.contains(key_of(axis, #[trigger] rows[i])),
    ensures
        sizes(axis, rows, keys) == rows.len(),
    decreases keys.len(),
{
    if keys.len() == 0 {
        if rows.len() > 0 {
            assert(keys.contains(key_of(axis, rows[0])));
        }
    } else {
        let key = keys.last();
        let init = keys.drop_last();
        let other = |r: RequestRecord| key_of(axis, r) != key;
        let rest = rows.filter(other);
        broadcast use vstd::seq_lib::group_filter_ensures;

        filter_splits(rows, in_group(axis, key), other);
        assert(!init.contains(key)) by {
            if init.contains(key) {
                let i = choose|i: int| 0 <= i < init.len() && init[i] == key;
                assert(keys[i] == keys[keys.len() - 1]);
            }
        }
        assert forall|i: int| 0 <= i < rest.len() implies init.contains(
            key_of(axis, #[trigger] rest[i]),
        ) by {
            assert(other(rest[i]));
            assert(rest.contains(rest[i]));
            rows.lemma_filter_contains_rev(other, rest[i]);
            assert(rows.contains(rest[i]));
            let j = choose|j: int| 0 <= j < rows.len() && rows[j] == rest[i];
            assert(keys.contains(key_of(axis, rows[j])));
            let k = choose|k: int| 0 <= k < keys.len() && keys[k] == key_of(axis, rows[j]);
            assert(init[k] == keys[k]);
        }
        sizes_add_up(axis, rest, init);
        sizes_without(axis, rows, init, other, key);
    }
}

/// The requests of all points of a time line.
pub open spec fn requests_in(list: Seq<TimePoint>) -> int
    decreases list.len(),
{
    if list.len() == 0 {
        0
    } else {
        requests_in(list.drop_last()) + list.last().totals.requests
    }
}

/// The requests of the points are the sizes of their groups.
proof fn requests_are_sizes(list: Seq<TimePoint>, width: i64, rows: Seq<RequestRecord>, ps: Seq<int>)
    requires
        list.len() == ps.len(),
        forall|i: int| 0 <= i < list.len() ==> is_time_point(#[trigger] list[i], width, rows, ps[i]),
    ensures
        requests_in(list) == sizes(
            Axis::Time(width),
            rows,
            Seq::new(ps.len(), |i: int| key_of(Axis::Time(width), rows[ps[i]])),
        ),
    decreases list.len(),
{
    let axis = Axis::Time(width);
    let keys = Seq::new(ps.len(), |i: int| key_of(axis, rows[ps[i]]));
    if list.len() > 0 {
        let init = ps.drop_last();
        assert forall|i: int| 0 <= i < list.drop_last().len() implies is_time_point(
            #[trigger] list.drop_last()[i],
            width,
            rows,
            init[i],
        ) by {
            assert(is_time_point(list[i], width, rows, ps[i]));
        }
        requests_are_sizes(list.drop_last(), width, rows, init);
        assert(keys.drop_last() =~= Seq::new(init.len(), |i: int| key_of(axis, rows[init[i]])));
        assert(is_time_point(list[list.len() - 1], width, rows, ps[list.len() - 1]));
    }
}

/// The time line counts every request once: its points add up to the summary's requests.
pub proof fn time_line_counts_every_request(
    list: Seq<TimePoint>,
    width: i64,
    rows: Seq<RequestRecord>,
    summary: Summary,
)
    requires
        is_time_line(list, width, rows),
        is_summary(summary, rows),
    ensures
        requests_in(list) == summary.requests,
{
    let axis = Axis::Time(width);
    let ps = choose|ps: Seq<int>| #[trigger]
        is_listing(axis, rows, ps) && list.len() == ps.len() && forall|i: int|
            0 <= i < list.len() ==> is_time_point(#[trigger] list[i], width, rows, ps[i]);
    let keys = Seq::new(ps.len(), |i: int| key_of(axis, rows[ps[i]]));
    requests_are_sizes(list, width, rows, ps);
    assert forall|i: int| 0 <= i < rows.len() implies keys.contains(
        key_of(axis, #[trigger] rows[i]),
    ) by {
        let p = first_exists(axis, rows, i);
        assert(ps.contains(p));
        let k = choose|k: int| 0 <= k < ps.len() && ps[k] == p;
        assert(keys[k] == key_of(axis, rows[i]));
    }
    assert(keys.no_duplicates()) by {
        assert forall|i: int, j: int| 0 <= i < j < keys.len() implies keys[i] != keys[j] by {
            assert(listed_before(axis, rows, ps[i], ps[j]));
            assert(is_first(axis, rows, ps[i]));
            assert(is_first(axis, rows, ps[j]));
        }
    }
    sizes_add_up(axis, rows, keys);
}

/// A summary's successes and failures are all its requests, and neither is negative.
pub proof fn summary_splits_requests(summary: Summary, rows: Seq<RequestRecord>)
    requires
        is_summary(summary, rows),
    ensures
        summary.success + summary.failed == summary.requests,
        summary.success >= 0,
        summary.failed >= 0,
{
    success_bounds(rows);
}

} // verus!
