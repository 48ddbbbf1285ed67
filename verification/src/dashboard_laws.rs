//! What the statistics page says of the request log, in terms of the fields of its records.
use vstd::prelude::*;
use crate::dashboard::{
    are_totals, column_of, dashboard_fits, durations, first_exists, fits, group_at, groups_fit,
    in_group, is_dashboard, is_first, is_listing, is_mean, is_model_list, is_model_stats,
    is_summary, is_surface_list, is_surface_stats, is_time_line, is_time_point, key_of, latest,
    listed_before, recent_limit_of, rows_shown, step_start, step_width, sum_of, total, ttfts, Axis,
    Column, Dashboard, GroupTotals, Mean, ModelStats, Summary, SurfaceStats, TimePoint,
};
use crate::percentile::spread_of;
use crate::stats::RequestRecord;

verus! {

// ----- sums -----

/// A sum of a column is the sum of what the records hold there.
proof fn total_folds(
    column: Column,
    rows: Seq<RequestRecord>,
    add_up: spec_fn(int, RequestRecord) -> int,
)
    requires
        forall|sum: int, r: RequestRecord| #[trigger] add_up(sum, r) == sum + column_of(column, r),
    ensures
        rows.fold_left(0, add_up) == total(column, rows),
    decreases rows.len(),
{
    if rows.len() > 0 {
        total_folds(column, rows.drop_last(), add_up);
    }
}

/// The sum of the total tokens of some records.
pub open spec fn tokens_of(rows: Seq<RequestRecord>) -> int {
    rows.fold_left(0, |sum: int, r: RequestRecord| sum + r.total_tokens)
}

/// Each sum of a column is the sum of the field of that name, and the successes are the records
/// whose flag is set.
pub proof fn columns_are_fields(rows: Seq<RequestRecord>)
    ensures
        total(Column::Success, rows) == rows.filter(|r: RequestRecord| r.success).len(),
        rows.len() - total(Column::Success, rows) == rows.filter(
            |r: RequestRecord| !r.success,
        ).len(),
        total(Column::PromptTokens, rows) == rows.fold_left(
            0,
            |sum: int, r: RequestRecord| sum + r.prompt_tokens,
        ),
        total(Column::CompletionTokens, rows) == rows.fold_left(
            0,
            |sum: int, r: RequestRecord| sum + r.completion_tokens,
        ),
        total(Column::ReasoningTokens, rows) == rows.fold_left(
            0,
            |sum: int, r: RequestRecord| sum + r.reasoning_tokens,
        ),
        total(Column::TotalTokens, rows) == tokens_of(rows),
{
    successes_are_counted(
        rows,
        |r: RequestRecord| r.success,
        |r: RequestRecord| !r.success,
    );
    total_folds(
        Column::PromptTokens,
        rows,
        |sum: int, r: RequestRecord| sum + r.prompt_tokens,
    );
    total_folds(
        Column::CompletionTokens,
        rows,
        |sum: int, r: RequestRecord| sum + r.completion_tokens,
    );
    total_folds(
        Column::ReasoningTokens,
        rows,
        |sum: int, r: RequestRecord| sum + r.reasoning_tokens,
    );
    total_folds(Column::TotalTokens, rows, |sum: int, r: RequestRecord| sum + r.total_tokens);
}

proof fn successes_are_counted(
    rows: Seq<RequestRecord>,
    succeeded: spec_fn(RequestRecord) -> bool,
    failed: spec_fn(RequestRecord) -> bool,
)
    requires
        forall|r: RequestRecord| #[trigger] succeeded(r) == r.success,
        forall|r: RequestRecord| #[trigger] failed(r) == !r.success,
    ensures
        total(Column::Success, rows) == rows.filter(succeeded).len(),
        rows.len() - total(Column::Success, rows) == rows.filter(failed).len(),
    decreases rows.len(),
{
    reveal(Seq::filter);
    if rows.len() > 0 {
        successes_are_counted(rows.drop_last(), succeeded, failed);
    }
}

// ----- means -----

/// The mean time to the first token: over the records that have one, and none where none has.
pub open spec fn is_ttft_mean(mean: Option<Mean>, rows: Seq<RequestRecord>) -> bool {
    let counted = rows.filter(|r: RequestRecord| r.ttft_ms is Some);
    match mean {
        Some(m) => m.count == counted.len() && counted.len() > 0 && m.sum == counted.fold_left(
            0,
            |sum: int, r: RequestRecord| sum + r.ttft_ms->0,
        ),
        None => counted.len() == 0,
    }
}

/// The mean time to the end: over all records, and none where there are none.
pub open spec fn is_duration_mean(mean: Option<Mean>, rows: Seq<RequestRecord>) -> bool {
    match mean {
        Some(m) => m.count == rows.len() && rows.len() > 0 && m.sum == rows.fold_left(
            0,
            |sum: int, r: RequestRecord| sum + r.duration_ms,
        ),
        None => rows.len() == 0,
    }
}

proof fn ttfts_add_up(
    rows: Seq<RequestRecord>,
    has: spec_fn(RequestRecord) -> bool,
    add_up: spec_fn(int, RequestRecord) -> int,
)
    requires
        forall|r: RequestRecord| #[trigger] has(r) == (r.ttft_ms is Some),
        forall|sum: int, r: RequestRecord| #[trigger] add_up(sum, r) == sum + r.ttft_ms->0,
    ensures
        ttfts(rows).len() == rows.filter(has).len(),
        sum_of(ttfts(rows)) == rows.filter(has).fold_left(0, add_up),
    decreases rows.len(),
{
    reveal(Seq::filter);
    if rows.len() > 0 {
        let init = rows.drop_last();
        ttfts_add_up(init, has, add_up);
        if rows.last().ttft_ms is Some {
            assert(ttfts(rows).drop_last() =~= ttfts(init));
            assert(rows.filter(has).drop_last() =~= init.filter(has));
        }
    }
}

proof fn durations_add_up(
    rows: Seq<RequestRecord>,
    add_up: spec_fn(int, RequestRecord) -> int,
)
    requires
        forall|sum: int, r: RequestRecord| #[trigger] add_up(sum, r) == sum + r.duration_ms,
    ensures
        sum_of(durations(rows)) == rows.fold_left(0, add_up),
    decreases rows.len(),
{
    if rows.len() > 0 {
        durations_add_up(rows.drop_last(), add_up);
        assert(durations(rows).drop_last() =~= durations(rows.drop_last()));
    }
}

/// Means of times are means of the fields of that name.
pub proof fn means_are_of_fields(mean: Option<Mean>, rows: Seq<RequestRecord>)
    ensures
        is_mean(mean, ttfts(rows)) <==> is_ttft_mean(mean, rows),
        is_mean(mean, durations(rows)) <==> is_duration_mean(mean, rows),
{
    ttfts_add_up(
        rows,
        |r: RequestRecord| r.ttft_ms is Some,
        |sum: int, r: RequestRecord| sum + r.ttft_ms->0,
    );
    durations_add_up(rows, |sum: int, r: RequestRecord| sum + r.duration_ms);
}

// ----- the page -----

/// The page shows the records that began at `since_ms` or later, all of them where that is 0, and
/// counts those of the last 60 seconds.
pub proof fn page_shows_its_rows(
    page: Dashboard,
    log: Seq<RequestRecord>,
    now_ms: i64,
    since_ms: i64,
    bucket_ms: i64,
)
    requires
        is_dashboard(page, log, now_ms, since_ms, bucket_ms),
    ensures
        page.now_ms == now_ms,
        page.since_ms == since_ms,
        page.bucket_ms == bucket_ms,
        page.rpm_now == log.filter(|r: RequestRecord| r.ts_ms >= now_ms - 60_000).len(),
        ({
            let rows = if since_ms == 0 {
                log
            } else {
                log.filter(|r: RequestRecord| r.ts_ms >= since_ms)
            };
            &&& is_summary(page.summary, rows)
            &&& is_model_list(page.by_model@, rows)
            &&& is_surface_list(page.by_surface@, rows)
            &&& is_time_line(
                page.points@,
                if bucket_ms < 1 {
                    1
                } else {
                    bucket_ms
                },
                rows,
            )
        }),
{
    let since = |r: RequestRecord| r.ts_ms >= since_ms;
    let lately = |r: RequestRecord| r.ts_ms >= now_ms - 60_000;
    assert(crate::dashboard::began_since(since_ms as int) =~= since);
    assert(crate::dashboard::began_since(now_ms - 60_000) =~= lately);
}

/// Which records a page is about.
pub proof fn rows_shown_began_in_time(log: Seq<RequestRecord>, since_ms: int)
    ensures
        rows_shown(log, 0) == log,
        since_ms != 0 ==> rows_shown(log, since_ms) == log.filter(
            |r: RequestRecord| r.ts_ms >= since_ms,
        ),
{
    let since = |r: RequestRecord| r.ts_ms >= since_ms;
    assert(crate::dashboard::began_since(since_ms) =~= since);
}

/// The summary counts the records, the successful and the failed ones by their flag, and adds the
/// token fields up, each under its own name.
pub proof fn summary_is_of_fields(summary: Summary, rows: Seq<RequestRecord>)
    requires
        is_summary(summary, rows),
    ensures
        summary.requests == rows.len(),
        summary.success == rows.filter(|r: RequestRecord| r.success).len(),
        summary.failed == rows.filter(|r: RequestRecord| !r.success).len(),
        summary.prompt_tokens == rows.fold_left(
            0,
            |sum: int, r: RequestRecord| sum + r.prompt_tokens,
        ),
        summary.completion_tokens == rows.fold_left(
            0,
            |sum: int, r: RequestRecord| sum + r.completion_tokens,
        ),
        summary.reasoning_tokens == rows.fold_left(
            0,
            |sum: int, r: RequestRecord| sum + r.reasoning_tokens,
        ),
        summary.total_tokens == rows.fold_left(
            0,
            |sum: int, r: RequestRecord| sum + r.total_tokens,
        ),
        is_ttft_mean(summary.ttft, rows),
        is_duration_mean(summary.duration, rows),
{
    columns_are_fields(rows);
    means_are_of_fields(summary.ttft, rows);
    means_are_of_fields(summary.duration, rows);
}

/// The totals of some records: their number, their total tokens, and their mean times.
pub proof fn totals_are_of_fields(totals: GroupTotals, rows: Seq<RequestRecord>)
    requires
        are_totals(totals, rows),
    ensures
        totals.requests == rows.len(),
        totals.total_tokens == tokens_of(rows),
        is_ttft_mean(totals.ttft, rows),
        is_duration_mean(totals.duration, rows),
{
    columns_are_fields(rows);
    means_are_of_fields(totals.ttft, rows);
    means_are_of_fields(totals.duration, rows);
}

/// A record of a model.
pub open spec fn has_model(model: Seq<char>) -> spec_fn(RequestRecord) -> bool {
    |r: RequestRecord| r.model@ == model
}

/// The records of a model.
pub open spec fn of_model(rows: Seq<RequestRecord>, model: Seq<char>) -> Seq<RequestRecord> {
    rows.filter(has_model(model))
}

/// A record of a surface.
pub open spec fn has_surface(surface: Seq<char>) -> spec_fn(RequestRecord) -> bool {
    |r: RequestRecord| r.surface@ == surface
}

/// The records of a surface.
pub open spec fn of_surface(rows: Seq<RequestRecord>, surface: Seq<char>) -> Seq<RequestRecord> {
    rows.filter(has_surface(surface))
}

/// The start of the step of `width` milliseconds that a time lies in: the nearest multiple of
/// `width` on the way to 0.
pub open spec fn cut_to_step(ts: int, width: int) -> int {
    if ts >= 0 {
        ts - ts % width
    } else {
        ts + (-ts) % width
    }
}

/// The records of a step of time.
pub open spec fn of_step(rows: Seq<RequestRecord>, width: int, t: int) -> Seq<RequestRecord> {
    rows.filter(|r: RequestRecord| cut_to_step(r.ts_ms as int, width) == t)
}

/// The times to the first token, of the records that have one.
pub open spec fn first_token_times(rows: Seq<RequestRecord>) -> Seq<i64> {
    rows.filter_map(|r: RequestRecord| r.ttft_ms)
}

proof fn ttfts_are_found(
    rows: Seq<RequestRecord>,
    find: spec_fn(RequestRecord) -> Option<i64>,
)
    requires
        forall|r: RequestRecord| #[trigger] find(r) == r.ttft_ms,
    ensures
        ttfts(rows) == rows.filter_map(find),
    decreases rows.len(),
{
    if rows.len() > 0 {
        ttfts_are_found(rows.drop_last(), find);
        assert(ttfts(rows) =~= rows.filter_map(find));
    }
}

/// A listing has a group for every row: the one of the row's first companion.
proof fn listing_covers(axis: Axis, rows: Seq<RequestRecord>, ps: Seq<int>, q: int) -> (i: int)
    requires
        is_listing(axis, rows, ps),
        0 <= q < rows.len(),
    ensures
        0 <= i < ps.len(),
        0 <= ps[i] < rows.len(),
        key_of(axis, rows[ps[i]]) == key_of(axis, rows[q]),
{
    let p = first_exists(axis, rows, q);
    assert(ps.contains(p));
    choose|i: int| 0 <= i < ps.len() && ps[i] == p
}

/// A group is not empty.
proof fn group_has_its_row(axis: Axis, rows: Seq<RequestRecord>, p: int)
    requires
        0 <= p < rows.len(),
    ensures
        group_at(axis, rows, p).len() >= 1,
{
    let pred = in_group(axis, key_of(axis, rows[p]));
    rows.lemma_filter_contains(pred, p);
    assert(group_at(axis, rows, p).contains(rows[p]));
}

/// Each model in the list is shown with its own records: how many, their tokens, their mean times
/// and the spread of their times to the first token.
pub proof fn models_are_of_fields(list: Seq<ModelStats>, rows: Seq<RequestRecord>, i: int)
    requires
        is_model_list(list, rows),
        0 <= i < list.len(),
    ensures
        ({
            let own = of_model(rows, list[i].model@);
            &&& own.len() >= 1
            &&& list[i].totals.requests == own.len()
            &&& list[i].totals.total_tokens == tokens_of(own)
            &&& is_ttft_mean(list[i].totals.ttft, own)
            &&& is_duration_mean(list[i].totals.duration, own)
            &&& list[i].spread == spread_of(first_token_times(own))
        }),
{
    let ps = choose|ps: Seq<int>| #[trigger]
        is_listing(Axis::Model, rows, ps) && list.len() == crate::dashboard::shown(ps.len())
            && forall|k: int|
            0 <= k < list.len() ==> is_model_stats(#[trigger] list[k], rows, ps[k]);
    assert(is_model_stats(list[i], rows, ps[i]));
    assert(is_first(Axis::Model, rows, ps[i]));
    model_group(rows, ps[i]);
    group_has_its_row(Axis::Model, rows, ps[i]);
    let own = of_model(rows, list[i].model@);
    totals_are_of_fields(list[i].totals, own);
    ttfts_are_found(own, |r: RequestRecord| r.ttft_ms);
}

proof fn model_group(rows: Seq<RequestRecord>, p: int)
    ensures
        group_at(Axis::Model, rows, p) == of_model(rows, rows[p].model@),
{
    let pred = has_model(rows[p].model@);
    assert(in_group(Axis::Model, key_of(Axis::Model, rows[p])) =~= pred);
}

/// The list of models is by their number of records, the largest first, without a model twice; it
/// holds at most 50, and a model that it does not hold has no more records than any that it holds
/// and is missing only where there are 50.
pub proof fn models_are_ranked(list: Seq<ModelStats>, rows: Seq<RequestRecord>)
    requires
        is_model_list(list, rows),
    ensures
        list.len() <= 50,
        forall|i: int, j: int|
            0 <= i < j < list.len() ==> (#[trigger] list[i]).model@ != (#[trigger] list[j]).model@
                && list[i].totals.requests >= list[j].totals.requests,
        forall|q: int|
            0 <= q < rows.len() ==> (exists|i: int|
                0 <= i < list.len() && (#[trigger] list[i]).model@ == rows[q].model@) || (list.len()
                == 50 && forall|i: int|
                0 <= i < list.len() ==> (#[trigger] list[i]).totals.requests >= of_model(
                    rows,
                    (#[trigger] rows[q]).model@,
                ).len()),
{
    let axis = Axis::Model;
    let ps = choose|ps: Seq<int>| #[trigger]
        is_listing(axis, rows, ps) && list.len() == crate::dashboard::shown(ps.len()) && forall|k:
            int| 0 <= k < list.len() ==> is_model_stats(#[trigger] list[k], rows, ps[k]);
    assert forall|i: int, j: int| 0 <= i < j < list.len() implies (#[trigger] list[i]).model@ != (
    #[trigger] list[j]).model@ && list[i].totals.requests >= list[j].totals.requests by {
        assert(is_model_stats(list[i], rows, ps[i]));
        assert(is_model_stats(list[j], rows, ps[j]));
        assert(listed_before(axis, rows, ps[i], ps[j]));
        firsts_differ(axis, rows, ps, i, j);
    }
    assert forall|q: int| 0 <= q < rows.len() implies (exists|i: int|
        0 <= i < list.len() && (#[trigger] list[i]).model@ == rows[q].model@) || (list.len() == 50
        && forall|i: int|
        0 <= i < list.len() ==> (#[trigger] list[i]).totals.requests >= of_model(
            rows,
            (#[trigger] rows[q]).model@,
        ).len()) by {
        let k = listing_covers(axis, rows, ps, q);
        model_group(rows, ps[k]);
        if k < list.len() {
            assert(is_model_stats(list[k], rows, ps[k]));
            assert(list[k].model@ == rows[q].model@);
        } else {
            assert forall|i: int| 0 <= i < list.len() implies (#[trigger] list[i]).totals.requests
                >= of_model(rows, rows[q].model@).len() by {
                assert(is_model_stats(list[i], rows, ps[i]));
                assert(listed_before(axis, rows, ps[i], ps[k]));
            }
        }
    }
}

/// Two groups of a listing have nothing in common.
proof fn firsts_differ(axis: Axis, rows: Seq<RequestRecord>, ps: Seq<int>, i: int, j: int)
    requires
        is_listing(axis, rows, ps),
        0 <= i < j < ps.len(),
    ensures
        key_of(axis, rows[ps[i]]) != key_of(axis, rows[ps[j]]),
{
    assert(is_first(axis, rows, ps[i]));
    assert(is_first(axis, rows, ps[j]));
    assert(listed_before(axis, rows, ps[i], ps[j]));
}

/// Each surface in the list is shown with its own records: how many, and their tokens.
pub proof fn surfaces_are_of_fields(list: Seq<SurfaceStats>, rows: Seq<RequestRecord>, i: int)
    requires
        is_surface_list(list, rows),
        0 <= i < list.len(),
    ensures
        ({
            let own = of_surface(rows, list[i].surface@);
            &&& own.len() >= 1
            &&& list[i].requests == own.len()
            &&& list[i].total_tokens == tokens_of(own)
        }),
{
    let ps = choose|ps: Seq<int>| #[trigger]
        is_listing(Axis::Surface, rows, ps) && list.len() == crate::dashboard::shown(ps.len())
            && forall|k: int|
            0 <= k < list.len() ==> is_surface_stats(#[trigger] list[k], rows, ps[k]);
    assert(is_surface_stats(list[i], rows, ps[i]));
    assert(is_first(Axis::Surface, rows, ps[i]));
    surface_group(rows, ps[i]);
    group_has_its_row(Axis::Surface, rows, ps[i]);
    columns_are_fields(of_surface(rows, list[i].surface@));
}

proof fn surface_group(rows: Seq<RequestRecord>, p: int)
    ensures
        group_at(Axis::Surface, rows, p) == of_surface(rows, rows[p].surface@),
{
    let pred = has_surface(rows[p].surface@);
    assert(in_group(Axis::Surface, key_of(Axis::Surface, rows[p])) =~= pred);
}

/// The list of surfaces is ranked as the list of models is.
pub proof fn surfaces_are_ranked(list: Seq<SurfaceStats>, rows: Seq<RequestRecord>)
    requires
        is_surface_list(list, rows),
    ensures
        list.len() <= 50,
        forall|i: int, j: int|
            0 <= i < j < list.len() ==> (#[trigger] list[i]).surface@ != (
            #[trigger] list[j]).surface@ && list[i].requests >= list[j].requests,
        forall|q: int|
            0 <= q < rows.len() ==> (exists|i: int|
                0 <= i < list.len() && (#[trigger] list[i]).surface@ == rows[q].surface@) || (
            list.len() == 50 && forall|i: int|
                0 <= i < list.len() ==> (#[trigger] list[i]).requests >= of_surface(
                    rows,
                    (#[trigger] rows[q]).surface@,
                ).len()),
{
    let axis = Axis::Surface;
    let ps = choose|ps: Seq<int>| #[trigger]
        is_listing(axis, rows, ps) && list.len() == crate::dashboard::shown(ps.len()) && forall|k:
            int| 0 <= k < list.len() ==> is_surface_stats(#[trigger] list[k], rows, ps[k]);
    assert forall|i: int, j: int| 0 <= i < j < list.len() implies (#[trigger] list[i]).surface@
        != (#[trigger] list[j]).surface@ && list[i].requests >= list[j].requests by {
        assert(is_surface_stats(list[i], rows, ps[i]));
        assert(is_surface_stats(list[j], rows, ps[j]));
        assert(listed_before(axis, rows, ps[i], ps[j]));
        firsts_differ(axis, rows, ps, i, j);
    }
    assert forall|q: int| 0 <= q < rows.len() implies (exists|i: int|
        0 <= i < list.len() && (#[trigger] list[i]).surface@ == rows[q].surface@) || (list.len()
        == 50 && forall|i: int|
        0 <= i < list.len() ==> (#[trigger] list[i]).requests >= of_surface(
            rows,
            (#[trigger] rows[q]).surface@,
        ).len()) by {
        let k = listing_covers(axis, rows, ps, q);
        surface_group(rows, ps[k]);
        if k < list.len() {
            assert(is_surface_stats(list[k], rows, ps[k]));
            assert(list[k].surface@ == rows[q].surface@);
        } else {
            assert forall|i: int| 0 <= i < list.len() implies (#[trigger] list[i]).requests
                >= of_surface(rows, rows[q].surface@).len() by {
                assert(is_surface_stats(list[i], rows, ps[i]));
                assert(listed_before(axis, rows, ps[i], ps[k]));
            }
        }
    }
}

/// The start of a step is the time cut to a multiple of its width.
proof fn steps_are_cut(ts: int, width: int)
    requires
        width >= 1,
    ensures
        step_start(ts, width) == cut_to_step(ts, width),
{
    let n = if ts >= 0 {
        ts
    } else {
        -ts
    };
    vstd::arithmetic::div_mod::lemma_fundamental_div_mod(n, width);
    assert(n / width * width == width * (n / width)) by (nonlinear_arith);
}

/// Each point of the time line is shown with the records of its own step.
pub proof fn points_are_of_fields(
    list: Seq<TimePoint>,
    width: i64,
    rows: Seq<RequestRecord>,
    i: int,
)
    requires
        width >= 1,
        is_time_line(list, width, rows),
        0 <= i < list.len(),
    ensures
        ({
            let own = of_step(rows, width as int, list[i].t as int);
            &&& own.len() >= 1
            &&& list[i].totals.requests == own.len()
            &&& list[i].totals.total_tokens == tokens_of(own)
            &&& is_ttft_mean(list[i].totals.ttft, own)
            &&& is_duration_mean(list[i].totals.duration, own)
        }),
{
    let axis = Axis::Time(width);
    let ps = choose|ps: Seq<int>| #[trigger]
        is_listing(axis, rows, ps) && list.len() == ps.len() && forall|k: int|
            0 <= k < list.len() ==> is_time_point(#[trigger] list[k], width, rows, ps[k]);
    assert(is_time_point(list[i], width, rows, ps[i]));
    assert(is_first(axis, rows, ps[i]));
    step_group(rows, width, ps[i]);
    group_has_its_row(axis, rows, ps[i]);
    totals_are_of_fields(list[i].totals, of_step(rows, width as int, list[i].t as int));
}

proof fn step_group(rows: Seq<RequestRecord>, width: i64, p: int)
    requires
        width >= 1,
    ensures
        group_at(Axis::Time(width), rows, p) == of_step(
            rows,
            width as int,
            step_start(rows[p].ts_ms as int, width as int),
        ),
{
    let axis = Axis::Time(width);
    let t = step_start(rows[p].ts_ms as int, width as int);
    let w = width as int;
    let pred = |r: RequestRecord| cut_to_step(r.ts_ms as int, w) == t;
    assert forall|r: RequestRecord| #[trigger] in_group(axis, key_of(axis, rows[p]))(r) == pred(
        r,
    ) by {
        steps_are_cut(r.ts_ms as int, w);
    }
    assert(in_group(axis, key_of(axis, rows[p])) =~= pred);
}

/// The time line runs from the earliest step to the latest, without a step twice, and has one for
/// every record.
pub proof fn points_are_in_order(list: Seq<TimePoint>, width: i64, rows: Seq<RequestRecord>)
    requires
        width >= 1,
        is_time_line(list, width, rows),
    ensures
        forall|i: int, j: int|
            0 <= i < j < list.len() ==> (#[trigger] list[i]).t < (#[trigger] list[j]).t,
        forall|q: int|
            0 <= q < rows.len() ==> exists|i: int|
                0 <= i < list.len() && (#[trigger] list[i]).t == cut_to_step(
                    (#[trigger] rows[q]).ts_ms as int,
                    width as int,
                ),
{
    let axis = Axis::Time(width);
    let ps = choose|ps: Seq<int>| #[trigger]
        is_listing(axis, rows, ps) && list.len() == ps.len() && forall|k: int|
            0 <= k < list.len() ==> is_time_point(#[trigger] list[k], width, rows, ps[k]);
    assert forall|i: int, j: int| 0 <= i < j < list.len() implies (#[trigger] list[i]).t < (
    #[trigger] list[j]).t by {
        assert(is_time_point(list[i], width, rows, ps[i]));
        assert(is_time_point(list[j], width, rows, ps[j]));
        assert(listed_before(axis, rows, ps[i], ps[j]));
        firsts_differ(axis, rows, ps, i, j);
    }
    assert forall|q: int| 0 <= q < rows.len() implies exists|i: int|
        0 <= i < list.len() && (#[trigger] list[i]).t == cut_to_step(
            (#[trigger] rows[q]).ts_ms as int,
            width as int,
        ) by {
        let k = listing_covers(axis, rows, ps, q);
        steps_are_cut(rows[q].ts_ms as int, width as int);
        assert(is_time_point(list[k], width, rows, ps[k]));
        assert(list[k].t == cut_to_step(rows[q].ts_ms as int, width as int));
    }
}

// ----- when a page can be shown -----

/// Adding records up one after the other stays within 64 bits.
pub open spec fn stays_in_range(
    rows: Seq<RequestRecord>,
    add_up: spec_fn(int, RequestRecord) -> int,
) -> bool {
    forall|n: int|
        0 <= n <= rows.len() ==> -9_223_372_036_854_775_808 <= (#[trigger] rows.take(n)).fold_left(
            0,
            add_up,
        ) <= 9_223_372_036_854_775_807
}

proof fn fits_means_in_range(
    column: Column,
    rows: Seq<RequestRecord>,
    add_up: spec_fn(int, RequestRecord) -> int,
)
    requires
        forall|sum: int, r: RequestRecord| #[trigger] add_up(sum, r) == sum + column_of(column, r),
    ensures
        fits(column, rows) <==> stays_in_range(rows, add_up),
    decreases rows.len(),
{
    total_folds(column, rows, add_up);
    if rows.len() > 0 {
        let init = rows.drop_last();
        fits_means_in_range(column, init, add_up);
        assert(rows.take(rows.len() as int) =~= rows);
        assert forall|n: int| 0 <= n < rows.len() implies #[trigger] rows.take(n) == init.take(
            n,
        ) by {
            assert(rows.take(n) =~= init.take(n));
        }
        if stays_in_range(rows, add_up) {
            assert forall|n: int| 0 <= n <= init.len() implies -9_223_372_036_854_775_808 <= (
            #[trigger] init.take(n)).fold_left(0, add_up) <= 9_223_372_036_854_775_807 by {
                assert(rows.take(n) == init.take(n));
            }
        }
        if fits(column, rows) {
            assert forall|n: int| 0 <= n <= rows.len() implies -9_223_372_036_854_775_808 <= (
            #[trigger] rows.take(n)).fold_left(0, add_up) <= 9_223_372_036_854_775_807 by {
                if n < rows.len() {
                    assert(rows.take(n) == init.take(n));
                }
            }
        }
    } else {
        assert forall|n: int| 0 <= n <= rows.len() implies #[trigger] rows.take(n) == rows by {
            assert(rows.take(n) =~= rows);
        }
    }
}

/// The total tokens of some records stay within 64 bits.
pub open spec fn tokens_stay_in_range(rows: Seq<RequestRecord>) -> bool {
    stays_in_range(rows, |sum: int, r: RequestRecord| sum + r.total_tokens)
}

/// A page can be shown exactly where every sum that it needs stays within 64 bits while the
/// records are added up in their order: each token field over all records, and the total tokens of
/// each model, of each surface and of each step of time.
pub proof fn page_needs_sums_that_fit(rows: Seq<RequestRecord>, bucket_ms: i64)
    requires
        rows.len() <= i64::MAX,
    ensures
        ({
            let width: int = if bucket_ms < 1 {
                1
            } else {
                bucket_ms as int
            };
            dashboard_fits(rows, bucket_ms) <==> {
                &&& stays_in_range(rows, |sum: int, r: RequestRecord| sum + r.prompt_tokens)
                &&& stays_in_range(rows, |sum: int, r: RequestRecord| sum + r.completion_tokens)
                &&& stays_in_range(rows, |sum: int, r: RequestRecord| sum + r.reasoning_tokens)
                &&& tokens_stay_in_range(rows)
                &&& forall|q: int|
                    0 <= q < rows.len() ==> tokens_stay_in_range(
                        of_model(rows, (#[trigger] rows[q]).model@),
                    )
                &&& forall|q: int|
                    0 <= q < rows.len() ==> tokens_stay_in_range(
                        of_surface(rows, (#[trigger] rows[q]).surface@),
                    )
                &&& forall|q: int|
                    0 <= q < rows.len() ==> tokens_stay_in_range(
                        of_step(rows, width, cut_to_step((#[trigger] rows[q]).ts_ms as int, width)),
                    )
            }
        }),
{
    fits_means_in_range(
        Column::PromptTokens,
        rows,
        |sum: int, r: RequestRecord| sum + r.prompt_tokens,
    );
    fits_means_in_range(
        Column::CompletionTokens,
        rows,
        |sum: int, r: RequestRecord| sum + r.completion_tokens,
    );
    fits_means_in_range(
        Column::ReasoningTokens,
        rows,
        |sum: int, r: RequestRecord| sum + r.reasoning_tokens,
    );
    tokens_fit(rows);
    models_fit(rows);
    surfaces_fit(rows);
    steps_fit(rows, step_width(bucket_ms));
}

proof fn tokens_fit(rows: Seq<RequestRecord>)
    ensures
        fits(Column::TotalTokens, rows) <==> tokens_stay_in_range(rows),
{
    fits_means_in_range(
        Column::TotalTokens,
        rows,
        |sum: int, r: RequestRecord| sum + r.total_tokens,
    );
}

proof fn models_fit(rows: Seq<RequestRecord>)
    ensures
        groups_fit(Axis::Model, rows) <==> forall|q: int|
            0 <= q < rows.len() ==> tokens_stay_in_range(
                of_model(rows, (#[trigger] rows[q]).model@),
            ),
{
    let axis = Axis::Model;
    if groups_fit(axis, rows) {
        assert forall|q: int| 0 <= q < rows.len() implies tokens_stay_in_range(
            of_model(rows, (#[trigger] rows[q]).model@),
        ) by {
            let p = first_exists(axis, rows, q);
            model_group(rows, p);
            tokens_fit(of_model(rows, rows[q].model@));
        }
    }
    if forall|q: int|
        0 <= q < rows.len() ==> tokens_stay_in_range(of_model(rows, (#[trigger] rows[q]).model@)) {
        assert forall|p: int| #[trigger] is_first(axis, rows, p) implies fits(
            Column::TotalTokens,
            group_at(axis, rows, p),
        ) by {
            model_group(rows, p);
            assert(tokens_stay_in_range(of_model(rows, rows[p].model@)));
            tokens_fit(of_model(rows, rows[p].model@));
        }
    }
}

proof fn surfaces_fit(rows: Seq<RequestRecord>)
    ensures
        groups_fit(Axis::Surface, rows) <==> forall|q: int|
            0 <= q < rows.len() ==> tokens_stay_in_range(
                of_surface(rows, (#[trigger] rows[q]).surface@),
            ),
{
    let axis = Axis::Surface;
    if groups_fit(axis, rows) {
        assert forall|q: int| 0 <= q < rows.len() implies tokens_stay_in_range(
            of_surface(rows, (#[trigger] rows[q]).surface@),
        ) by {
            let p = first_exists(axis, rows, q);
            surface_group(rows, p);
            tokens_fit(of_surface(rows, rows[q].surface@));
        }
    }
    if forall|q: int|
        0 <= q < rows.len() ==> tokens_stay_in_range(
            of_surface(rows, (#[trigger] rows[q]).surface@),
        ) {
        assert forall|p: int| #[trigger] is_first(axis, rows, p) implies fits(
            Column::TotalTokens,
            group_at(axis, rows, p),
        ) by {
            surface_group(rows, p);
            assert(tokens_stay_in_range(of_surface(rows, rows[p].surface@)));
            tokens_fit(of_surface(rows, rows[p].surface@));
        }
    }
}

proof fn steps_fit(rows: Seq<RequestRecord>, width: i64)
    requires
        width >= 1,
    ensures
        groups_fit(Axis::Time(width), rows) <==> forall|q: int|
            0 <= q < rows.len() ==> tokens_stay_in_range(
                of_step(
                    rows,
                    width as int,
                    cut_to_step((#[trigger] rows[q]).ts_ms as int, width as int),
                ),
            ),
{
    let axis = Axis::Time(width);
    let w = width as int;
    if groups_fit(axis, rows) {
        assert forall|q: int| 0 <= q < rows.len() implies tokens_stay_in_range(
            of_step(rows, w, cut_to_step((#[trigger] rows[q]).ts_ms as int, w)),
        ) by {
            let p = first_exists(axis, rows, q);
            step_group(rows, width, p);
            steps_are_cut(rows[q].ts_ms as int, w);
            tokens_fit(of_step(rows, w, cut_to_step(rows[q].ts_ms as int, w)));
        }
    }
    if forall|q: int|
        0 <= q < rows.len() ==> tokens_stay_in_range(
            of_step(rows, w, cut_to_step((#[trigger] rows[q]).ts_ms as int, w)),
        ) {
        assert forall|p: int| #[trigger] is_first(axis, rows, p) implies fits(
            Column::TotalTokens,
            group_at(axis, rows, p),
        ) by {
            step_group(rows, width, p);
            steps_are_cut(rows[p].ts_ms as int, w);
            assert(tokens_stay_in_range(
                of_step(rows, w, cut_to_step(rows[p].ts_ms as int, w)),
            ));
            tokens_fit(of_step(rows, w, cut_to_step(rows[p].ts_ms as int, w)));
        }
    }
}

// ----- the latest requests -----

/// The listing of the latest requests has as many rows as are asked for, or as there are where
/// there are fewer; fewer than one counts as one, and more than 1000 as 1000. The newest stands
/// first, and each is followed by the one that came before it.
pub proof fn latest_are_the_newest(log: Seq<RequestRecord>, limit: int)
    ensures
        1 <= limit <= 1000 && limit <= log.len() ==> latest(log, limit).len() == limit,
        1 <= limit <= 1000 && limit > log.len() ==> latest(log, limit).len() == log.len(),
        limit < 1 && log.len() >= 1 ==> latest(log, limit).len() == 1,
        limit > 1000 && log.len() >= 1000 ==> latest(log, limit).len() == 1000,
        limit > 1000 && log.len() < 1000 ==> latest(log, limit).len() == log.len(),
        log.len() == 0 ==> latest(log, limit).len() == 0,
        forall|i: int|
            0 <= i < latest(log, limit).len() ==> #[trigger] latest(log, limit)[i] == log[log.len()
                - 1 - i],
        1 <= limit <= 1000 ==> recent_limit_of(limit) == limit,
        limit < 1 ==> recent_limit_of(limit) == 1,
        limit > 1000 ==> recent_limit_of(limit) == 1000,
{
}

} // verus!
