use qwen2api::stats::{
    copy_text, decode_row, encode_row, RequestRecord, Stats, WriterStep, BATCH_MAX, CHANNEL_CAP,
};

fn record_at(ts_ms: i64) -> RequestRecord {
    RequestRecord {
        ts_ms,
        surface: "openai".to_string(),
        model: "gpt".to_string(),
        resolved_model: "qwen".to_string(),
        chat_type: "t2t".to_string(),
        stream: true,
        success: false,
        error: Some("boom".to_string()),
        prompt_tokens: 1,
        completion_tokens: 2,
        reasoning_tokens: 3,
        total_tokens: 6,
        ttft_ms: None,
        duration_ms: 44,
        caller: Some("sk-ab".to_string()),
    }
}

#[test]
fn rows_hold_flags_as_numbers() {
    let row = encode_row(&record_at(9));
    assert_eq!((row.stream, row.success), (1, 0));
    assert_eq!((row.ts_ms, row.total_tokens, row.duration_ms), (9, 6, 44));
    let mut odd = encode_row(&record_at(9));
    odd.success = 7;
    assert!(decode_row(odd).success);
}

#[test]
fn a_record_is_read_back_as_it_was_written() {
    let rec = record_at(5);
    let back = decode_row(encode_row(&rec));
    assert_eq!(format!("{:?}", back), format!("{:?}", rec));
    assert_eq!(format!("{:?}", rec.clone()), format!("{:?}", rec));
    assert_eq!(copy_text(&rec.error), Some("boom".to_string()));
    assert_eq!(copy_text(&None), None);
}

#[test]
fn records_leave_in_order_and_in_batches() {
    let mut stats = Stats::new("data/stats.db".to_string());
    assert_eq!(stats.db_path(), "data/stats.db");
    for i in 0..(BATCH_MAX as i64 + 3) {
        assert_eq!(stats.record(record_at(i)), None);
    }
    let first = stats.next_batch();
    assert_eq!(first.len(), BATCH_MAX);
    assert_eq!(first[0].ts_ms, 0);
    assert_eq!(first[BATCH_MAX - 1].ts_ms, BATCH_MAX as i64 - 1);
    let second = stats.next_batch();
    assert_eq!(second.iter().map(|r| r.ts_ms).collect::<Vec<_>>(), vec![512, 513, 514]);
    assert!(stats.next_batch().is_empty());
}

#[test]
fn a_full_queue_drops_and_counts() {
    let mut stats = Stats::new(String::new());
    for i in 0..CHANNEL_CAP {
        assert_eq!(stats.record(record_at(i as i64)), None);
    }
    assert_eq!(stats.dropped_count(), 0);
    for n in 1..=201u64 {
        let expected = if n % 100 == 1 { Some(n) } else { None };
        assert_eq!(stats.record(record_at(-1)), expected);
        assert_eq!(stats.dropped_count(), n);
    }
    let mut left = Vec::new();
    while let WriterStep::Write(batch) = stats.writer_step(false) {
        left.extend(batch);
    }
    assert_eq!(left.len(), CHANNEL_CAP);
    assert!(left.iter().enumerate().all(|(i, r)| r.ts_ms == i as i64));
}

#[test]
fn the_writer_stops_once_nothing_waits_and_nobody_records() {
    let mut stats = Stats::new(String::new());
    assert!(matches!(stats.writer_step(false), WriterStep::Wait));
    stats.record(record_at(1));
    assert!(matches!(stats.writer_step(true), WriterStep::Write(batch) if batch.len() == 1));
    assert!(matches!(stats.writer_step(true), WriterStep::Stop));
}

#[test]
fn records_after_the_writer_is_gone_are_not_counted() {
    let mut stats = Stats::new(String::new());
    stats.record(record_at(1));
    stats.disconnect();
    assert_eq!(stats.record(record_at(2)), None);
    assert_eq!(stats.dropped_count(), 0);
    assert!(stats.next_batch().is_empty());
}
