use qwen2api::calendar::civil_from_days;
use qwen2api::text::{
    add_name, append_decimal, append_padded, chars_of, contains, copy_names, has_name, is_text,
    split,
};

#[test]
fn splitting_keeps_empty_pieces() {
    assert_eq!(split("a.b.c", '.'), vec!["a", "b", "c"]);
    assert_eq!(split(".a.", '.'), vec!["", "a", ""]);
    assert_eq!(split("", '.'), vec![""]);
    assert_eq!(split("字.é", '.').join("."), "字.é");
}

#[test]
fn texts_are_found_inside_texts() {
    let hay = chars_of("naïve café");
    assert!(contains(&hay, "ïve"));
    assert!(contains(&hay, ""));
    assert!(!contains(&hay, "cafe"));
    assert!(!contains(&chars_of("ab"), "abc"));
}

#[test]
fn numbers_are_written_out() {
    let mut out = "n=".to_string();
    append_decimal(&mut out, 0);
    append_decimal(&mut out, 18_446_744_073_709_551_615);
    assert_eq!(out, "n=018446744073709551615");
    let mut padded = String::new();
    append_padded(&mut padded, 7, 4);
    append_padded(&mut padded, 12_345, 4);
    append_padded(&mut padded, 30, 2);
    append_padded(&mut padded, -5, 4);
    assert_eq!(padded, format!("{:04}{:04}{:02}{:04}", 7, 12345, 30, -5));
}

#[test]
fn names_are_kept_once() {
    let mut names = vec!["a".to_string()];
    add_name(&mut names, &"b".to_string());
    add_name(&mut names, &"a".to_string());
    assert_eq!(names, vec!["a", "b"]);
    assert!(has_name(&names, &"b".to_string()));
    assert!(!has_name(&names, &"c".to_string()));
    assert_eq!(copy_names(&names), names);
    assert!(is_text(&"t2t".to_string(), "t2t"));
    assert!(!is_text(&"t2i".to_string(), "t2t"));
}

#[test]
fn days_become_dates() {
    for (days, year, month, day) in [
        (0, 1970, 1, 1),
        (-1, 1969, 12, 31),
        (59, 1970, 3, 1),
        (11_016, 2000, 2, 29),
        (11_017, 2000, 3, 1),
        (20_000, 2024, 10, 4),
        (-719_468, 0, 3, 1),
        (-719_528, 0, 1, 1),
        (-719_529, -1, 12, 31),
        (2_932_896, 9999, 12, 31),
        (47_541, 2100, 3, 1),
    ] {
        let date = civil_from_days(days);
        assert_eq!((date.year, date.month, date.day), (year, month, day));
    }
}

#[test]
fn each_day_follows_the_day_before() {
    let mut last = civil_from_days(-1000);
    for days in -999..200_000 {
        let date = civil_from_days(days);
        let next_day = date.year == last.year && date.month == last.month && date.day == last.day + 1;
        let next_month = date.day == 1 && date.year == last.year && date.month == last.month + 1;
        let next_year = date.day == 1 && date.month == 1 && date.year == last.year + 1;
        assert!(next_day || next_month || next_year && last.month == 12 && last.day == 31);
        last = date;
    }
}
