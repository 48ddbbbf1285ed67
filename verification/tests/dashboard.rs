use qwen2api::dashboard::{
    dashboard_floor, query_dashboard, query_recent, recent_limit, Mean, StatsError, GROUP_LIMIT,
};
use qwen2api::percentile::{sort_times, spread};
use qwen2api::stats::RequestRecord;

fn row(ts_ms: i64, model: &str, surface: &str, tokens: i64, ttft_ms: Option<i64>) -> RequestRecord {
    RequestRecord {
        ts_ms,
        surface: surface.to_string(),
        model: model.to_string(),
        resolved_model: String::new(),
        chat_type: "t2t".to_string(),
        stream: false,
        success: ttft_ms.is_some(),
        error: None,
        prompt_tokens: 1,
        completion_tokens: 2,
        reasoning_tokens: 3,
        total_tokens: tokens,
        ttft_ms,
        duration_ms: 10 * tokens,
        caller: None,
    }
}

fn sample() -> Vec<RequestRecord> {
    vec![
        row(1_000, "a", "openai", 10, Some(30)),
        row(2_500, "b", "gemini", 20, None),
        row(2_999, "b", "openai", 30, Some(10)),
        row(500, "old", "openai", 99, Some(1)),
        row(70_000, "b", "openai", 5, Some(21)),
    ]
}

#[test]
fn the_summary_adds_up() {
    let page = query_dashboard(&sample(), 70_000, 1_000, 1_000).unwrap();
    let s = page.summary;
    assert_eq!((s.requests, s.success, s.failed), (4, 3, 1));
    assert_eq!((s.prompt_tokens, s.completion_tokens, s.reasoning_tokens), (4, 8, 12));
    assert_eq!(s.total_tokens, 65);
    assert_eq!(s.ttft, Some(Mean { sum: 61, count: 3 }));
    assert_eq!(s.duration, Some(Mean { sum: 650, count: 4 }));
    assert_eq!(s.ttft.unwrap().rounded(), Some(20));
    assert_eq!(s.duration.unwrap().rounded(), Some(163));
    assert_eq!((page.now_ms, page.since_ms, page.bucket_ms), (70_000, 1_000, 1_000));
    assert_eq!(page.rpm_now, 1);
}

#[test]
fn models_are_listed_by_requests() {
    let page = query_dashboard(&sample(), 70_000, 1_000, 1_000).unwrap();
    let names: Vec<&str> = page.by_model.iter().map(|m| m.model.as_str()).collect();
    assert_eq!(names, vec!["b", "a"]);
    let b = &page.by_model[0];
    assert_eq!((b.totals.requests, b.totals.total_tokens), (3, 55));
    assert_eq!(b.totals.ttft, Some(Mean { sum: 31, count: 2 }));
    let times = b.spread.unwrap();
    assert_eq!((times.min_ttft_ms, times.p50_ttft_ms), (10, 10));
    assert_eq!((times.p95_ttft_ms, times.max_ttft_ms), (21, 21));
    let surfaces: Vec<(&str, u64, i64)> =
        page.by_surface.iter().map(|s| (s.surface.as_str(), s.requests, s.total_tokens)).collect();
    assert_eq!(surfaces, vec![("openai", 3, 45), ("gemini", 1, 20)]);
}

#[test]
fn the_time_line_counts_every_request() {
    let page = query_dashboard(&sample(), 70_000, 1_000, 1_000).unwrap();
    let points: Vec<(i64, u64, i64)> =
        page.points.iter().map(|p| (p.t, p.totals.requests, p.totals.total_tokens)).collect();
    assert_eq!(points, vec![(1_000, 1, 10), (2_000, 2, 50), (70_000, 1, 5)]);
    assert_eq!(page.points.iter().map(|p| p.totals.requests).sum::<u64>(), page.summary.requests);
}

#[test]
fn steps_before_the_epoch_are_cut_toward_it() {
    let log = vec![row(-1, "a", "s", 1, None), row(-1_500, "a", "s", 1, None)];
    let page = query_dashboard(&log, 0, i64::MIN, 1_000).unwrap();
    let points: Vec<(i64, u64)> = page.points.iter().map(|p| (p.t, p.totals.requests)).collect();
    assert_eq!(points, vec![(-1_000, 1), (0, 1)]);
    let fine = query_dashboard(&log, 0, i64::MIN, 0).unwrap();
    assert_eq!(fine.points.iter().map(|p| p.t).collect::<Vec<_>>(), vec![-1_500, -1]);
    assert_eq!(fine.bucket_ms, 0);
}

#[test]
fn an_empty_log_has_an_empty_page() {
    let page = query_dashboard(&Vec::new(), 0, 0, 60_000).unwrap();
    assert_eq!((page.summary.requests, page.summary.success, page.summary.failed), (0, 0, 0));
    assert_eq!((page.summary.ttft, page.summary.duration), (None, None));
    assert!(page.by_model.is_empty() && page.by_surface.is_empty() && page.points.is_empty());
    assert_eq!(page.rpm_now, 0);
}

#[test]
fn listings_show_fifty_groups_at_most() {
    let mut log = Vec::new();
    for i in 0..60 {
        log.push(row(0, &format!("m{i}"), &format!("s{i}"), 1, None));
    }
    log.push(row(0, "m59", "s59", 1, None));
    let page = query_dashboard(&log, 0, 0, 1).unwrap();
    assert_eq!(page.by_model.len(), GROUP_LIMIT);
    assert_eq!(page.by_surface.len(), 50);
    assert_eq!(page.by_model[0].model, "m59");
    assert!(page.by_model[0].spread.is_none());
}

#[test]
fn a_sum_that_does_not_fit_is_an_error() {
    let log = vec![row(0, "a", "s", i64::MAX / 10, None), row(0, "b", "t", i64::MAX, None)];
    let mut fits = log.clone();
    fits.truncate(1);
    fits[0].duration_ms = 0;
    assert!(query_dashboard(&fits, 0, 0, 1).is_ok());
    let mut over = log.clone();
    over[0].duration_ms = 0;
    over[1].duration_ms = 0;
    assert!(matches!(query_dashboard(&over, 0, 0, 1), Err(StatsError::IntegerOverflow)));
}

#[test]
fn older_rows_do_not_matter() {
    let all = sample();
    let floor = dashboard_floor(70_000, 1_000);
    assert_eq!(floor, 1_000);
    assert_eq!(dashboard_floor(70_000, 65_000), 10_000);
    assert_eq!(dashboard_floor(70_000, 0), i64::MIN);
    let mut needed = Vec::new();
    for r in &all {
        if r.ts_ms >= floor {
            needed.push(r.clone());
        }
    }
    let a = query_dashboard(&all, 70_000, 1_000, 500).unwrap();
    let b = query_dashboard(&needed, 70_000, 1_000, 500).unwrap();
    assert_eq!(format!("{:?}", a), format!("{:?}", b));
}

#[test]
fn recent_rows_come_newest_first() {
    let log = sample();
    let times: Vec<i64> = query_recent(&log, 2).iter().map(|r| r.ts_ms).collect();
    assert_eq!(times, vec![70_000, 500]);
    assert_eq!(query_recent(&log, 0).len(), 1);
    assert_eq!(query_recent(&log, 100).len(), 5);
    assert_eq!((recent_limit(-3), recent_limit(7), recent_limit(5_000)), (1, 7, 1000));
    let tail: Vec<RequestRecord> = log[3..].to_vec();
    assert_eq!(query_recent(&tail, 2).len(), 2);
    assert_eq!(query_recent(&tail, 2)[0].ts_ms, 70_000);
}

#[test]
fn percentiles_are_ranks() {
    assert!(spread(&Vec::new()).is_none());
    let one = spread(&vec![7]).unwrap();
    assert_eq!((one.min_ttft_ms, one.p50_ttft_ms, one.p95_ttft_ms, one.max_ttft_ms), (7, 7, 7, 7));
    let times: Vec<i64> = (1..=100).rev().collect();
    let s = spread(&times).unwrap();
    assert_eq!((s.min_ttft_ms, s.p50_ttft_ms, s.p95_ttft_ms, s.max_ttft_ms), (1, 50, 95, 100));
    let three = spread(&vec![30, 10, 20]).unwrap();
    assert_eq!((three.p50_ttft_ms, three.p95_ttft_ms), (20, 30));
    assert_eq!(sort_times(&vec![3, -1, 3, 2]), vec![-1, 2, 3, 3]);
}

#[test]
fn means_round_half_away_from_zero() {
    assert_eq!(Mean { sum: 5, count: 2 }.rounded(), Some(3));
    assert_eq!(Mean { sum: -5, count: 2 }.rounded(), Some(-3));
    assert_eq!(Mean { sum: 7, count: 3 }.rounded(), Some(2));
    assert_eq!(Mean { sum: 0, count: 3 }.rounded(), Some(0));
    assert_eq!(Mean { sum: 1, count: 0 }.rounded(), None);
    assert_eq!(Mean { sum: 1 << 52, count: 1 }.rounded(), None);
    for sum in -500i64..500 {
        for count in 1u64..40 {
            let exact = (sum as f64 / count as f64).round() as i64;
            assert_eq!(Mean { sum: sum as i128, count }.rounded(), Some(exact));
        }
    }
    let near = Mean { sum: (1 << 51) - 1, count: 3 };
    assert_eq!(near.rounded(), Some((((1u64 << 51) - 1) as f64 / 3.0).round() as i64));
}

#[test]
fn zero_shows_every_row() {
    let log = vec![row(-1, "a", "s", 1, None), row(5, "a", "s", 2, None)];
    let page = query_dashboard(&log, 100_000, 0, 1_000).unwrap();
    assert_eq!((page.summary.requests, page.summary.total_tokens), (2, 3));
    assert_eq!((page.since_ms, page.rpm_now), (0, 0));
    assert_eq!(page.by_model[0].totals.requests, 2);
    let later = query_dashboard(&log, 100_000, 1, 1_000).unwrap();
    assert_eq!(later.summary.requests, 1);
    let before = query_dashboard(&log, 100_000, -1, 1_000).unwrap();
    assert_eq!(before.summary.requests, 2);
}
