use base64::Engine;
use qwen2api::util::{
    char_len, exp_claim, id_prefix, jitter_ms, jwt_exp, jwt_segment, now_millis, now_unix,
    payload_exp, short_id, unix_millis, unix_seconds, utc_iso8601_basic, utc_texts, uuid4,
};
use std::time::{Duration, SystemTime, UNIX_EPOCH};

fn token_with(payload: &str) -> String {
    let middle = base64::engine::general_purpose::URL_SAFE_NO_PAD.encode(payload.as_bytes());
    format!("head.{middle}.sign")
}

#[test]
fn the_expiry_of_a_token_is_read() {
    assert_eq!(jwt_exp(&token_with("{\"exp\":1750000000}")), Some(1_750_000_000));
    assert_eq!(jwt_exp(&token_with("{\"id\":\"x\",\"exp\":-5}")), Some(-5));
    assert_eq!(jwt_exp("h.eyJleHAiOjE3NTAwMDAwMDB9.s"), Some(1_750_000_000));
}

#[test]
fn a_token_without_a_readable_expiry_has_none() {
    assert_eq!(jwt_exp(""), None);
    assert_eq!(jwt_exp("one.two"), None);
    assert_eq!(jwt_exp("a.b.c.d"), None);
    assert_eq!(jwt_exp("head.***.sign"), None);
    assert_eq!(jwt_exp("head.eyJleHAiOjF9=.sign"), None);
    assert_eq!(jwt_exp(&token_with("no json")), None);
    assert_eq!(jwt_exp(&token_with("[1]")), None);
    assert_eq!(jwt_exp(&token_with("{\"iat\":1}")), None);
    assert_eq!(jwt_exp(&token_with("{\"exp\":\"1\"}")), None);
    assert_eq!(jwt_exp(&token_with("{\"exp\":1.5}")), None);
    assert_eq!(jwt_exp(&token_with("{\"exp\":9223372036854775808}")), None);
}

#[test]
fn the_parts_of_a_token_are_read_one_by_one() {
    assert_eq!(jwt_segment("a.b.c"), Some("b".to_string()));
    assert_eq!(jwt_segment("a..c"), Some(String::new()));
    assert_eq!(jwt_segment("a.b"), None);
    assert_eq!(payload_exp(b"{\"exp\":12}"), Some(12));
    assert_eq!(payload_exp(b"{"), None);
    let doc: serde_json::Value = serde_json::from_str("{\"exp\":3}").unwrap();
    assert_eq!(exp_claim(&doc), Some(3));
    assert_eq!(exp_claim(&serde_json::Value::Null), None);
}

#[test]
fn clock_readings_become_numbers() {
    let d = Duration::new(1_700_000_000, 987_654_321);
    assert_eq!(unix_seconds(Some(d)), 1_700_000_000);
    assert_eq!(unix_millis(Some(d)), 1_700_000_000_987);
    assert_eq!(unix_seconds(None), 0);
    assert_eq!(unix_millis(None), 0);
    assert_eq!(unix_seconds(Some(Duration::from_secs(u64::MAX))), i64::MAX);
}

#[test]
fn the_clock_is_read() {
    let before = SystemTime::now().duration_since(UNIX_EPOCH).unwrap();
    let secs = now_unix();
    let ms = now_millis();
    let after = SystemTime::now().duration_since(UNIX_EPOCH).unwrap();
    assert!(before.as_secs() as i64 <= secs && secs <= after.as_secs() as i64);
    assert!(before.as_millis() as i64 <= ms && ms <= after.as_millis() as i64);
}

#[test]
fn milliseconds_and_seconds_of_one_reading_agree() {
    for ms in [0u64, 999, 1000, 1_234_567_890_123] {
        let d = Duration::from_millis(ms);
        assert_eq!(unix_millis(Some(d)) / 1000, unix_seconds(Some(d)));
    }
}

#[test]
fn utc_texts_are_iso_8601() {
    assert_eq!(utc_texts(0), ("19700101T000000Z".to_string(), "19700101".to_string()));
    assert_eq!(utc_texts(1_709_210_096), ("20240229T123456Z".to_string(), "20240229".to_string()));
    assert_eq!(utc_texts(951_782_399), ("20000228T235959Z".to_string(), "20000228".to_string()));
    assert_eq!(utc_texts(-1), ("19691231T235959Z".to_string(), "19691231".to_string()));
    assert_eq!(utc_texts(253_402_300_799).0, "99991231T235959Z");
}

#[test]
fn the_present_has_a_utc_text() {
    let before = now_unix();
    let (iso, date) = utc_iso8601_basic();
    let after = now_unix();
    assert_eq!(iso.len(), 16);
    assert_eq!(&iso[..8], date.as_str());
    assert!((before..=after).any(|secs| utc_texts(secs) == (iso.clone(), date.clone())));
}

#[test]
fn short_ids_are_hex_prefixes() {
    for n in [0usize, 1, 8, 32, 100] {
        let id = short_id(n);
        assert_eq!(id.len(), n.min(32));
        assert!(id.chars().all(|c| c.is_ascii_digit() || ('a'..='f').contains(&c)));
    }
    assert_eq!(short_id(32).as_bytes()[12], b'4');
    assert_ne!(short_id(32), short_id(32));
    assert_eq!(id_prefix("字母表", 2), "字母");
    assert_eq!(id_prefix("ab", 5), "ab");
}

#[test]
fn uuids_have_hyphenated_groups() {
    let id = uuid4();
    assert_eq!(id.len(), 36);
    for (i, c) in id.chars().enumerate() {
        assert_eq!(c == '-', [8, 13, 18, 23].contains(&i));
    }
    assert_eq!(id.as_bytes()[14], b'4');
    assert!([b'8', b'9', b'a', b'b'].contains(&id.as_bytes()[19]));
    assert_ne!(uuid4(), uuid4());
}

#[test]
fn lengths_count_characters() {
    assert_eq!(char_len(""), 0);
    assert_eq!(char_len("abc"), 3);
    assert_eq!(char_len("漢字é🙂"), 4);
}

#[test]
fn jitter_stays_in_its_range() {
    assert_eq!(jitter_ms(5, 5), 5);
    assert_eq!(jitter_ms(9, 3), 9);
    let mut seen = [false; 3];
    for _ in 0..1000 {
        let ms = jitter_ms(10, 12);
        assert!((10..=12).contains(&ms));
        seen[(ms - 10) as usize] = true;
    }
    assert_eq!(seen, [true; 3]);
}

#[test]
fn later_seconds_have_larger_texts() {
    let seconds: [i64; 15] = [
        -62_167_219_200,
        -1,
        0,
        1,
        59,
        60,
        3_599,
        3_600,
        86_399,
        86_400,
        951_782_399,
        951_782_400,
        1_735_689_599,
        1_735_689_600,
        253_402_300_799,
    ];
    for (i, &earlier) in seconds.iter().enumerate() {
        for &later in &seconds[i + 1..] {
            let (a, b) = (utc_texts(earlier), utc_texts(later));
            assert!(a.0 < b.0 && a.1 <= b.1);
            assert_eq!(a.1 == b.1, earlier.div_euclid(86_400) == later.div_euclid(86_400));
        }
    }
}
