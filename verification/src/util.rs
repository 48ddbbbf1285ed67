//! Small shared functions: token expiry, clock readings, identifiers, jitter.
use vstd::prelude::*;
use vstd::string::*;
use crate::calendar::{
    civil_from_days, day_number, day_number_is_unique, day_number_keeps_order,
    day_number_keeps_years, is_date, is_earlier,
};
use crate::outside::{
    base64url_decoded, decode_base64url, duration_nanos, epoch_nanos, hex_text, hyphenated,
    hyphenated_text, is_random_uuid, json_document, json_get, json_members, parse_json,
    random_between, simple_text, since_epoch, uuid_bytes,
};
use crate::text::{
    all_digits, append_padded, join_with, number_named, split, split_on, split_then_join, text_less, text_less_by_end, text_less_by_start,
    text_less_is_strict, texts, zero_padded, zero_padded_keeps_order, zero_padded_len,
    zero_padded_names_its_number,
};

verus! {

// ----- token expiry -----

/// The middle one of a token's three dot-separated segments; nothing for another number of
/// segments.
pub open spec fn middle_segment(token: Seq<char>) -> Option<Seq<char>> {
    if split_on(token, '.').len() == 3 {
        Some(split_on(token, '.')[1])
    } else {
        None
    }
}

/// The integer under the name `exp`, among the members of a JSON object.
pub open spec fn exp_member(members: Map<Seq<char>, Option<i64>>) -> Option<i64> {
    if members.contains_key("exp"@) {
        members["exp"@]
    } else {
        None
    }
}

/// The expiry that a decoded payload states.
pub open spec fn payload_exp_of(payload: Seq<u8>) -> Option<i64> {
    match json_document(payload) {
        Some(members) => exp_member(members),
        None => None,
    }
}

/// The expiry that a token states.
pub open spec fn token_exp(token: Seq<char>) -> Option<i64> {
    match middle_segment(token) {
        Some(segment) => match base64url_decoded(segment) {
            Some(payload) => payload_exp_of(payload),
            None => None,
        },
        None => None,
    }
}

/// A text has no dot in it.
pub open spec fn dotless(text: Seq<char>) -> bool {
    forall|i: int| 0 <= i < text.len() ==> #[trigger] text[i] != '.'
}

/// Splitting a text without a dot leaves it whole, and a dot and a text without one add a piece.
proof fn split_at_dots(before: Seq<char>, piece: Seq<char>)
    requires
        dotless(piece),
    ensures
        split_on(piece, '.') == seq![piece],
        split_on(before + seq!['.'] + piece, '.') == split_on(before, '.').push(piece),
    decreases piece.len(),
{
    split_then_join(before, '.');
    let all = before + seq!['.'] + piece;
    if piece.len() == 0 {
        assert(piece =~= Seq::<char>::empty());
        assert(all.drop_last() =~= before);
        assert(split_on(piece, '.') =~= seq![piece]);
    } else {
        let init = piece.drop_last();
        split_at_dots(before, init);
        assert(all.drop_last() =~= before + seq!['.'] + init);
        assert(piece =~= init.push(piece.last()));
        assert(piece[piece.len() - 1] != '.');
        assert(split_on(piece, '.') =~= seq![piece]);
        assert(split_on(before, '.').push(init).drop_last() =~= split_on(before, '.'));
        assert(split_on(all, '.') =~= split_on(before, '.').push(piece));
    }
}

/// A token of three dotless parts has the middle one as its middle segment; and a token that has
/// a middle segment is such a token.
pub proof fn middle_segment_stands_between_two_dots(token: Seq<char>, segment: Seq<char>)
    ensures
        middle_segment(token) == Some(segment) <==> exists|head: Seq<char>, sign: Seq<char>|
            #![trigger dotless(head), dotless(sign)]
            dotless(head) && dotless(segment) && dotless(sign) && token == head + seq!['.']
                + segment + seq!['.'] + sign,
{
    if exists|head: Seq<char>, sign: Seq<char>|
        #![trigger dotless(head), dotless(sign)]
        dotless(head) && dotless(segment) && dotless(sign) && token == head + seq!['.'] + segment
            + seq!['.'] + sign {
        let (head, sign) = choose|head: Seq<char>, sign: Seq<char>|
            #![trigger dotless(head), dotless(sign)]
            dotless(head) && dotless(segment) && dotless(sign) && token == head + seq!['.']
                + segment + seq!['.'] + sign;
        split_at_dots(Seq::empty(), head);
        split_at_dots(head, segment);
        split_at_dots(head + seq!['.'] + segment, sign);
    }
    if middle_segment(token) == Some(segment) {
        split_then_join(token, '.');
        reveal_with_fuel(join_with, 4);
        let parts = split_on(token, '.');
        assert(parts.drop_last().drop_last().len() == 1);
        assert(join_with(parts, '.') =~= parts[0] + seq!['.'] + parts[1] + seq!['.'] + parts[2]);
        assert forall|k: int| 0 <= k < 3 implies dotless(#[trigger] parts[k]) by {
            assert forall|j: int| 0 <= j < parts[k].len() implies #[trigger] parts[k][j]
                != '.' by {
                assert(split_on(token, '.')[k][j] != '.');
            }
        }
        assert(dotless(parts[0]) && dotless(parts[1]) && dotless(parts[2]));
    }
}

/// The expiry of a payload is the integer of its member `exp`, whatever other members there are;
/// a payload without that member, or that is no JSON, has none.
pub proof fn expiry_is_the_exp_member(payload: Seq<u8>, members: Map<Seq<char>, Option<i64>>)
    ensures
        json_document(payload) == Some(members) && members.contains_key("exp"@) ==> payload_exp_of(
            payload,
        ) == members["exp"@],
        json_document(payload) == Some(members) && !members.contains_key("exp"@)
            ==> payload_exp_of(payload) is None,
        json_document(payload) is None ==> payload_exp_of(payload) is None,
        members.contains_key("exp"@) ==> exp_member(members) == members["exp"@],
        !members.contains_key("exp"@) ==> exp_member(members) is None,
{
}

/// The expiry of a token is the member `exp` of the JSON document that the base64 text between
/// its two dots holds; where any of these is missing it has none.
pub proof fn expiry_comes_from_the_middle(
    token: Seq<char>,
    head: Seq<char>,
    segment: Seq<char>,
    sign: Seq<char>,
    payload: Seq<u8>,
    members: Map<Seq<char>, Option<i64>>,
)
    requires
        dotless(head),
        dotless(segment),
        dotless(sign),
        token == head + seq!['.'] + segment + seq!['.'] + sign,
    ensures
        base64url_decoded(segment) is None ==> token_exp(token) is None,
        base64url_decoded(segment) == Some(payload) && json_document(payload) is None ==> token_exp(
            token,
        ) is None,
        base64url_decoded(segment) == Some(payload) && json_document(payload) == Some(members) ==> {
            &&& !members.contains_key("exp"@) ==> token_exp(token) is None
            &&& members.contains_key("exp"@) ==> token_exp(token) == members["exp"@]
        },
{
    middle_segment_stands_between_two_dots(token, segment);
}

/// A token that is not three dotless parts has no expiry.
pub proof fn other_tokens_have_no_expiry(token: Seq<char>)
    requires
        forall|head: Seq<char>, segment: Seq<char>, sign: Seq<char>|
            #![trigger dotless(head), dotless(segment), dotless(sign)]
            dotless(head) && dotless(segment) && dotless(sign) ==> token != head + seq!['.']
                + segment + seq!['.'] + sign,
    ensures
        token_exp(token) is None,
{
    if middle_segment(token) is Some {
        let segment = middle_segment(token)->0;
        middle_segment_stands_between_two_dots(token, segment);
        let (head, sign) = choose|head: Seq<char>, sign: Seq<char>|
            #![trigger dotless(head), dotless(sign)]
            dotless(head) && dotless(segment) && dotless(sign) && token == head + seq!['.']
                + segment + seq!['.'] + sign;
        assert(dotless(head) && dotless(segment) && dotless(sign));
    }
}

/// The middle segment of a web token: its payload, still encoded.
pub fn jwt_segment(token: &str) -> (segment: Option<String>)
    ensures
        middle_segment(token@) == (match segment {
            Some(s) => Some(s@),
            None => None,
        }),
{
    let mut parts = split(token, '.');
    assert(texts(parts@).len() == parts@.len());
    if parts.len() != 3 {
        return None;
    }
    assert(texts(parts@)[1] == parts@[1]@);
    Some(parts.swap_remove(1))
}

/// The integer that a JSON document holds under `exp`.
pub fn exp_claim(doc: &serde_json::Value) -> (exp: Option<i64>)
    ensures
        exp == exp_member(json_members(*doc)),
        json_members(*doc).contains_key("exp"@) ==> exp == json_members(*doc)["exp"@],
        !json_members(*doc).contains_key("exp"@) ==> exp is None,
{
    match json_get(doc, "exp") {
        Some(member) => member.as_i64(),
        None => None,
    }
}

/// The expiry that a decoded token payload states.
pub fn payload_exp(payload: &[u8]) -> (exp: Option<i64>)
    ensures
        exp == payload_exp_of(payload@),
        json_document(payload@) is None ==> exp is None,
        json_document(payload@) matches Some(members) ==> exp == (if members.contains_key("exp"@) {
            members["exp"@]
        } else {
            None
        }),
{
    match parse_json(payload) {
        Some(doc) => exp_claim(&doc),
        None => None,
    }
}

/// The `exp` claim of a web token (Unix seconds); nothing where the token has none that can be
/// read. The signature is not checked: the result serves to schedule refreshes, no more.
pub fn jwt_exp(token: &str) -> (exp: Option<i64>)
    ensures
        exp == token_exp(token@),
{
    match jwt_segment(token) {
        Some(segment) => match decode_base64url(segment.as_str()) {
            Some(payload) => payload_exp(payload.as_slice()),
            None => None,
        },
        None => None,
    }
}

// ----- clock readings -----

/// The Unix seconds of a time since the epoch; 0 where the clock stands before the epoch.
pub fn unix_seconds(since: Option<std::time::Duration>) -> (secs: i64)
    ensures
        since is None ==> secs == 0,
        since matches Some(d) ==> secs == if duration_nanos(d) / 1_000_000_000 <= i64::MAX {
            duration_nanos(d) / 1_000_000_000
        } else {
            i64::MAX as nat
        },
{
    match since {
        Some(d) => {
            let secs: u64 = d.as_secs();
            if secs <= i64::MAX as u64 {
                secs as i64
            } else {
                i64::MAX
            }
        },
        None => 0,
    }
}

/// The Unix milliseconds of a time since the epoch, in the low 64 bits; 0 where the clock stands
/// before the epoch.
pub fn unix_millis(since: Option<std::time::Duration>) -> (ms: i64)
    ensures
        since is None ==> ms == 0,
        since matches Some(d) ==> ms == (duration_nanos(d) / 1_000_000) as i64,
{
    match since {
        Some(d) => {
            let ms: u128 = d.as_millis();
            #[verifier::truncate]
            (ms as i64)
        },
        None => 0,
    }
}

/// The Unix seconds of a clock reading; 0 before the epoch.
pub open spec fn seconds_at(t: std::time::SystemTime) -> int {
    if epoch_nanos(t) < 0 {
        0
    } else if epoch_nanos(t) / 1_000_000_000 <= i64::MAX {
        epoch_nanos(t) / 1_000_000_000
    } else {
        i64::MAX as int
    }
}

/// The Unix milliseconds of a clock reading, in the low 64 bits; 0 before the epoch.
pub open spec fn millis_at(t: std::time::SystemTime) -> int {
    if epoch_nanos(t) < 0 {
        0
    } else {
        (epoch_nanos(t) / 1_000_000) as i64 as int
    }
}

/// Of one clock reading the milliseconds, cut to seconds, are the seconds, as long as the
/// milliseconds fit in 64 bits.
pub proof fn readings_agree(t: std::time::SystemTime)
    requires
        epoch_nanos(t) / 1_000_000 <= i64::MAX,
    ensures
        millis_at(t) / 1000 == seconds_at(t),
{
}

/// The seconds and the milliseconds of a reading after the epoch are those that have passed since
/// then; before the epoch both are 0.
pub proof fn readings_count_from_the_epoch(t: std::time::SystemTime)
    ensures
        epoch_nanos(t) < 0 ==> seconds_at(t) == 0 && millis_at(t) == 0,
        0 <= epoch_nanos(t) < 9_223_372_036_854_775_807 * 1_000_000 ==> {
            &&& seconds_at(t) * 1_000_000_000 <= epoch_nanos(t)
            &&& epoch_nanos(t) < (seconds_at(t) + 1) * 1_000_000_000
            &&& millis_at(t) * 1_000_000 <= epoch_nanos(t)
            &&& epoch_nanos(t) < (millis_at(t) + 1) * 1_000_000
        },
{
}

/// The clock's Unix seconds.
pub fn now_unix() -> (secs: i64)
    ensures
        secs >= 0,
        exists|t: std::time::SystemTime| secs == #[trigger] seconds_at(t),
{
    let t = std::time::SystemTime::now();
    let secs: i64 = unix_seconds(since_epoch(t));
    assert(secs == seconds_at(t));
    secs
}

/// The clock's Unix milliseconds.
pub fn now_millis() -> (ms: i64)
    ensures
        exists|t: std::time::SystemTime| ms == #[trigger] millis_at(t),
{
    let t = std::time::SystemTime::now();
    let ms: i64 = unix_millis(since_epoch(t));
    assert(ms == millis_at(t));
    ms
}

// ----- UTC texts -----

/// A date as `YYYYMMDD`.
pub open spec fn date_text(year: int, month: int, day: int) -> Seq<char> {
    zero_padded(year, 4) + zero_padded(month, 2) + zero_padded(day, 2)
}

/// A second of the day as `HHMMSS`.
pub open spec fn time_text(second: int) -> Seq<char> {
    zero_padded(second / 3600, 2) + zero_padded(second % 3600 / 60, 2) + zero_padded(
        second % 60,
        2,
    )
}

/// `date` is the UTC date of the Unix second `secs` as `YYYYMMDD`, and `iso` its date and time
/// as `YYYYMMDDTHHMMSSZ`.
pub open spec fn is_utc_text(secs: int, iso: Seq<char>, date: Seq<char>) -> bool {
    exists|year: int, month: int, day: int|
        #![trigger day_number(year, month, day)]
        is_date(year, month, day) && day_number(year, month, day) == secs / 86400 && date
            == date_text(year, month, day) && iso == date + seq!['T'] + time_text(secs % 86400)
            + seq!['Z']
}

/// The texts of a second are put together from its date and its time of day: year, month and day,
/// and after a `T` hours, minutes and seconds, and a `Z`.
pub proof fn utc_text_is_put_together(secs: int, iso: Seq<char>, date: Seq<char>)
    ensures
        is_utc_text(secs, iso, date) <==> exists|year: int, month: int, day: int|
            #![trigger day_number(year, month, day)]
            is_date(year, month, day) && day_number(year, month, day) == secs / 86400 && date
                == zero_padded(year, 4) + zero_padded(month, 2) + zero_padded(day, 2) && iso == date
                + seq!['T'] + (zero_padded(secs % 86400 / 3600, 2) + zero_padded(
                secs % 86400 % 3600 / 60,
                2,
            ) + zero_padded(secs % 86400 % 60, 2)) + seq!['Z'],
{
}

/// A Unix second has one UTC text.
pub proof fn utc_text_is_unique(
    secs: int,
    iso1: Seq<char>,
    date1: Seq<char>,
    iso2: Seq<char>,
    date2: Seq<char>,
)
    requires
        is_utc_text(secs, iso1, date1),
        is_utc_text(secs, iso2, date2),
    ensures
        iso1 == iso2,
        date1 == date2,
{
    let (y1, m1, d1) = choose|year: int, month: int, day: int|
        #![trigger day_number(year, month, day)]
        is_date(year, month, day) && day_number(year, month, day) == secs / 86400 && date1
            == date_text(year, month, day);
    let (y2, m2, d2) = choose|year: int, month: int, day: int|
        #![trigger day_number(year, month, day)]
        is_date(year, month, day) && day_number(year, month, day) == secs / 86400 && date2
            == date_text(year, month, day);
    day_number_is_unique(y1, m1, d1, y2, m2, d2);
}

/// From year 0 to year 9999 the date has eight characters, and the date and time sixteen.
pub proof fn utc_text_shape(secs: int, iso: Seq<char>, date: Seq<char>)
    requires
        is_utc_text(secs, iso, date),
        day_number(0, 1, 1) <= secs / 86400 <= day_number(9999, 12, 31),
    ensures
        date.len() == 8,
        iso.len() == 16,
        iso[8] == 'T',
        iso[15] == 'Z',
{
    let (y, m, d) = choose|year: int, month: int, day: int|
        #![trigger day_number(year, month, day)]
        is_date(year, month, day) && day_number(year, month, day) == secs / 86400 && date
            == date_text(year, month, day);
    day_number_keeps_years(y, m, d);
    zero_padded_len(y, 4);
    zero_padded_len(m, 2);
    zero_padded_len(d, 2);
    let second = secs % 86400;
    zero_padded_len(second / 3600, 2);
    zero_padded_len(second % 3600 / 60, 2);
    zero_padded_len(second % 60, 2);
}

/// The texts of dates, up to year 9999, stand in the order of the dates.
proof fn date_text_keeps_order(y1: int, m1: int, d1: int, y2: int, m2: int, d2: int)
    requires
        is_date(y1, m1, d1),
        is_date(y2, m2, d2),
        0 <= y1 <= 9999,
        0 <= y2 <= 9999,
        is_earlier(y1, m1, d1, y2, m2, d2),
    ensures
        text_less(date_text(y1, m1, d1), date_text(y2, m2, d2)),
{
    let (a1, b1, c1) = (zero_padded(y1, 4), zero_padded(m1, 2), zero_padded(d1, 2));
    let (a2, b2, c2) = (zero_padded(y2, 4), zero_padded(m2, 2), zero_padded(d2, 2));
    zero_padded_len(y1, 4);
    zero_padded_len(y2, 4);
    zero_padded_len(m1, 2);
    zero_padded_len(m2, 2);
    if y1 < y2 {
        zero_padded_keeps_order(y1, y2, 4);
        text_less_by_start(a1, a2, b1, b2);
        text_less_by_start(a1 + b1, a2 + b2, c1, c2);
    } else if m1 < m2 {
        zero_padded_keeps_order(m1, m2, 2);
        text_less_by_end(a1, b1, b2);
        text_less_by_start(a1 + b1, a2 + b2, c1, c2);
    } else {
        zero_padded_keeps_order(d1, d2, 2);
        text_less_by_end(a1 + b1, c1, c2);
    }
}

/// The texts of the seconds of a day stand in the order of the seconds.
proof fn time_text_keeps_order(s1: int, s2: int)
    requires
        0 <= s1 < s2 < 86400,
    ensures
        text_less(time_text(s1), time_text(s2)),
{
    let (h1, m1, t1) = (s1 / 3600, s1 % 3600 / 60, s1 % 60);
    let (h2, m2, t2) = (s2 / 3600, s2 % 3600 / 60, s2 % 60);
    let (a1, b1, c1) = (zero_padded(h1, 2), zero_padded(m1, 2), zero_padded(t1, 2));
    let (a2, b2, c2) = (zero_padded(h2, 2), zero_padded(m2, 2), zero_padded(t2, 2));
    zero_padded_len(h1, 2);
    zero_padded_len(h2, 2);
    zero_padded_len(m1, 2);
    zero_padded_len(m2, 2);
    if h1 < h2 {
        zero_padded_keeps_order(h1, h2, 2);
        text_less_by_start(a1, a2, b1, b2);
        text_less_by_start(a1 + b1, a2 + b2, c1, c2);
    } else if m1 < m2 {
        zero_padded_keeps_order(m1, m2, 2);
        text_less_by_end(a1, b1, b2);
        text_less_by_start(a1 + b1, a2 + b2, c1, c2);
    } else {
        zero_padded_keeps_order(t1, t2, 2);
        text_less_by_end(a1 + b1, c1, c2);
    }
}

/// From year 0 to year 9999 the texts stand in the order of the seconds: a later second has a
/// larger text, so that no two seconds share one; its date is no smaller, and is the same exactly
/// on the same day.
pub proof fn utc_text_keeps_order(
    s1: int,
    iso1: Seq<char>,
    date1: Seq<char>,
    s2: int,
    iso2: Seq<char>,
    date2: Seq<char>,
)
    requires
        s1 < s2,
        is_utc_text(s1, iso1, date1),
        is_utc_text(s2, iso2, date2),
        day_number(0, 1, 1) <= s1 / 86400,
        s2 / 86400 <= day_number(9999, 12, 31),
    ensures
        text_less(iso1, iso2),
        iso1 != iso2,
        date1 == date2 || text_less(date1, date2),
        date1 == date2 <==> s1 / 86400 == s2 / 86400,
{
    let (y1, m1, d1) = choose|year: int, month: int, day: int|
        #![trigger day_number(year, month, day)]
        is_date(year, month, day) && day_number(year, month, day) == s1 / 86400 && date1
            == date_text(year, month, day);
    let (y2, m2, d2) = choose|year: int, month: int, day: int|
        #![trigger day_number(year, month, day)]
        is_date(year, month, day) && day_number(year, month, day) == s2 / 86400 && date2
            == date_text(year, month, day);
    day_number_keeps_years(y1, m1, d1);
    day_number_keeps_years(y2, m2, d2);
    utc_text_shape(s1, iso1, date1);
    utc_text_shape(s2, iso2, date2);
    let (t1, t2) = (time_text(s1 % 86400), time_text(s2 % 86400));
    assert(iso1 =~= date1 + (seq!['T'] + t1 + seq!['Z']));
    assert(iso2 =~= date2 + (seq!['T'] + t2 + seq!['Z']));
    if s1 / 86400 == s2 / 86400 {
        day_number_is_unique(y1, m1, d1, y2, m2, d2);
        time_text_keeps_order(s1 % 86400, s2 % 86400);
        text_less_by_end(seq!['T'], t1, t2);
        time_text_len(s1 % 86400);
        time_text_len(s2 % 86400);
        text_less_by_start(seq!['T'] + t1, seq!['T'] + t2, seq!['Z'], seq!['Z']);
        text_less_by_end(date1, seq!['T'] + t1 + seq!['Z'], seq!['T'] + t2 + seq!['Z']);
    } else {
        day_number_keeps_order(y1, m1, d1, y2, m2, d2);
        date_text_keeps_order(y1, m1, d1, y2, m2, d2);
        text_less_is_strict(date1, date2);
        text_less_by_start(
            date1,
            date2,
            seq!['T'] + t1 + seq!['Z'],
            seq!['T'] + t2 + seq!['Z'],
        );
    }
    text_less_is_strict(iso1, iso2);
}

/// The text of a second of the day has six characters.
proof fn time_text_len(second: int)
    requires
        0 <= second < 86400,
    ensures
        time_text(second).len() == 6,
{
    zero_padded_len(second / 3600, 2);
    zero_padded_len(second % 3600 / 60, 2);
    zero_padded_len(second % 60, 2);
}

/// What the texts of a second say, from year 0 to year 9999: the date in four, two and two
/// digits, a `T`, hours, minutes and seconds in two digits each, and a `Z`. Together they name
/// the second.
pub proof fn utc_text_names_its_second(secs: int, iso: Seq<char>, date: Seq<char>)
    requires
        is_utc_text(secs, iso, date),
        day_number(0, 1, 1) <= secs / 86400 <= day_number(9999, 12, 31),
    ensures
        date.len() == 8,
        iso.len() == 16,
        all_digits(date),
        iso.subrange(0, 8) == date,
        iso[8] == 'T',
        all_digits(iso.subrange(9, 15)),
        iso[15] == 'Z',
        is_date(
            number_named(date.subrange(0, 4)),
            number_named(date.subrange(4, 6)),
            number_named(date.subrange(6, 8)),
        ),
        number_named(iso.subrange(9, 11)) < 24,
        number_named(iso.subrange(11, 13)) < 60,
        number_named(iso.subrange(13, 15)) < 60,
        secs == 86400 * day_number(
            number_named(date.subrange(0, 4)),
            number_named(date.subrange(4, 6)),
            number_named(date.subrange(6, 8)),
        ) + 3600 * number_named(iso.subrange(9, 11)) + 60 * number_named(iso.subrange(11, 13))
            + number_named(iso.subrange(13, 15)),
{
    utc_text_shape(secs, iso, date);
    let (y, m, d) = choose|year: int, month: int, day: int|
        #![trigger day_number(year, month, day)]
        is_date(year, month, day) && day_number(year, month, day) == secs / 86400 && date
            == date_text(year, month, day) && iso == date + seq!['T'] + time_text(secs % 86400)
            + seq!['Z'];
    day_number_keeps_years(y, m, d);
    let second = secs % 86400;
    let (hh, mm, ss) = (second / 3600, second % 3600 / 60, second % 60);
    zero_padded_len(y, 4);
    zero_padded_len(m, 2);
    zero_padded_len(d, 2);
    zero_padded_len(hh, 2);
    zero_padded_len(mm, 2);
    zero_padded_len(ss, 2);
    zero_padded_names_its_number(y, 4);
    zero_padded_names_its_number(m, 2);
    zero_padded_names_its_number(d, 2);
    zero_padded_names_its_number(hh, 2);
    zero_padded_names_its_number(mm, 2);
    zero_padded_names_its_number(ss, 2);
    assert(date.subrange(0, 4) =~= zero_padded(y, 4));
    assert(date.subrange(4, 6) =~= zero_padded(m, 2));
    assert(date.subrange(6, 8) =~= zero_padded(d, 2));
    assert(iso.subrange(0, 8) =~= date);
    assert(iso.subrange(9, 11) =~= zero_padded(hh, 2));
    assert(iso.subrange(11, 13) =~= zero_padded(mm, 2));
    assert(iso.subrange(13, 15) =~= zero_padded(ss, 2));
    assert(iso.subrange(9, 15) =~= zero_padded(hh, 2) + zero_padded(mm, 2) + zero_padded(ss, 2));
}

/// The UTC texts of a Unix second: date and time, then the date alone.
pub fn utc_texts(secs: i64) -> (out: (String, String))
    ensures
        is_utc_text(secs as int, out.0@, out.1@),
{
    let days: i64 = secs.checked_div_euclid(86400).unwrap();
    let rem: i64 = secs.checked_rem_euclid(86400).unwrap();
    let (hh, mm, ss): (i64, i64, i64) = (rem / 3600, (rem % 3600) / 60, rem % 60);
    let civil = civil_from_days(days);
    let mut date = String::new();
    append_padded(&mut date, civil.year, 4);
    append_padded(&mut date, civil.month, 2);
    append_padded(&mut date, civil.day, 2);
    assert(date@ =~= date_text(civil.year as int, civil.month as int, civil.day as int));
    let mut iso = date.clone();
    iso.push('T');
    append_padded(&mut iso, hh, 2);
    append_padded(&mut iso, mm, 2);
    append_padded(&mut iso, ss, 2);
    iso.push('Z');
    assert(iso@ =~= date@ + seq!['T'] + time_text(secs as int % 86400) + seq!['Z']);
    assert(day_number(civil.year as int, civil.month as int, civil.day as int) == secs as int
        / 86400);
    (iso, date)
}

/// The clock's UTC date and time as `YYYYMMDDTHHMMSSZ`, and its date as `YYYYMMDD`. A clock that
/// stands before the epoch counts as standing at it.
pub fn utc_iso8601_basic() -> (out: (String, String))
    ensures
        exists|t: std::time::SystemTime|
            is_utc_text(
                if #[trigger] epoch_nanos(t) < 0 {
                    0
                } else {
                    (epoch_nanos(t) / 1_000_000_000) as i64 as int
                },
                out.0@,
                out.1@,
            ),
{
    let t = std::time::SystemTime::now();
    let secs: i64 = match since_epoch(t) {
        Some(d) => {
            let whole: u64 = d.as_secs();
            #[verifier::truncate]
            (whole as i64)
        },
        None => 0,
    };
    let out = utc_texts(secs);
    assert(epoch_nanos(t) == epoch_nanos(t));
    out
}

// ----- identifiers and jitter -----

/// The first `n` digits of a new random identifier; all thirty-two where `n` is more.
pub fn short_id(n: usize) -> (id: String)
    ensures
        exists|bytes: Seq<u8>|
            #[trigger] is_random_uuid(bytes) && id@ == hex_text(bytes).take(
                if n < 32 {
                    n as int
                } else {
                    32
                },
            ),
{
    let fresh = uuid::Uuid::new_v4();
    let digits = simple_text(&fresh);
    let id = id_prefix(digits.as_str(), n);
    assert(is_random_uuid(uuid_bytes(fresh)));
    id
}

/// The first `n` characters of `digits`; all of them where there are fewer.
pub fn id_prefix(digits: &str, n: usize) -> (id: String)
    ensures
        id@ == digits@.take(
            if n < digits@.len() {
                n as int
            } else {
                digits@.len() as int
            },
        ),
{
    let total: usize = digits.unicode_len();
    let end: usize = if n < total {
        n
    } else {
        total
    };
    digits.substring_char(0, end).to_owned()
}

/// A new random identifier in hyphenated groups.
pub fn uuid4() -> (id: String)
    ensures
        exists|bytes: Seq<u8>|
            #[trigger] is_random_uuid(bytes) && id@ == hyphenated(hex_text(bytes)),
{
    let fresh = uuid::Uuid::new_v4();
    let id = hyphenated_text(&fresh);
    assert(is_random_uuid(uuid_bytes(fresh)));
    id
}

/// The number of Unicode scalar values of `s`.
pub fn char_len(s: &str) -> (len: usize)
    ensures
        len == s@.len(),
{
    s.unicode_len()
}

/// A random number of milliseconds from `min_ms` to `max_ms`; `min_ms` where the range is empty.
pub fn jitter_ms(min_ms: u64, max_ms: u64) -> (ms: u64)
    ensures
        max_ms <= min_ms ==> ms == min_ms,
        max_ms > min_ms ==> min_ms <= ms <= max_ms,
{
    if max_ms <= min_ms {
        return min_ms;
    }
    random_between(min_ms, max_ms)
}

} // verus!
