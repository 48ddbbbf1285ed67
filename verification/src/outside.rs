//! What the library takes from other crates and from parts of `std`: each item states what the
//! outside function returns, and nothing of it is proved here.
use base64::Engine;
use rand::Rng;
use vstd::prelude::*;
use vstd::utf8::*;

verus! {

// ----- std: text -----

/// What `str::to_lowercase` makes of a text.
pub uninterp spec fn lowercase(s: Seq<char>) -> Seq<char>;

/// The lower-case form of an ASCII character; any other character unchanged.
pub open spec fn ascii_lower(c: char) -> char {
    if 'A' <= c <= 'Z' {
        (c as u32 + 32) as char
    } else {
        c
    }
}

/// `str::to_lowercase`: Unicode lower-casing. Of a text of ASCII characters alone it lowers the
/// letters `A` to `Z` one by one and keeps the rest.
#[verifier::external_body]
pub(crate) fn to_lowercase(s: &str) -> (lower: String)
    ensures
        lower@ == lowercase(s@),
        is_ascii_chars(s@) ==> lower@ == s@.map_values(|c: char| ascii_lower(c)),
{
    s.to_lowercase()
}

/// What `String::from_utf8_lossy` reads out of some bytes.
pub uninterp spec fn utf8_lossy(bytes: Seq<u8>) -> Seq<char>;

/// `String::from_utf8_lossy`: the text of the bytes, with U+FFFD in place of what is not UTF-8.
/// Bytes that are UTF-8 are decoded exactly.
#[verifier::external_body]
pub(crate) fn from_utf8_lossy(bytes: &[u8]) -> (text: String)
    ensures
        text@ == utf8_lossy(bytes@),
        valid_utf8(bytes@) ==> text@ == decode_utf8(bytes@),
{
    String::from_utf8_lossy(bytes).into_owned()
}

// ----- std: time -----

#[verifier::external_type_specification]
#[verifier::external_body]
pub struct ExSystemTime(std::time::SystemTime);

/// How far a clock reading lies after the Unix epoch, in nanoseconds; negative before it.
pub uninterp spec fn epoch_nanos(t: std::time::SystemTime) -> int;

/// The length of a `Duration` in nanoseconds.
pub uninterp spec fn duration_nanos(d: std::time::Duration) -> nat;

/// `SystemTime::now`: the clock's reading, whatever it is.
pub assume_specification[ std::time::SystemTime::now ]() -> std::time::SystemTime;

/// `SystemTime::duration_since` the Unix epoch: the time since the epoch; nothing for a reading
/// before it.
#[verifier::external_body]
pub(crate) fn since_epoch(t: std::time::SystemTime) -> (since: Option<std::time::Duration>)
    ensures
        since is Some <==> epoch_nanos(t) >= 0,
        since matches Some(d) ==> duration_nanos(d) == epoch_nanos(t),
{
    t.duration_since(std::time::UNIX_EPOCH).ok()
}

/// `Duration::as_secs`: the whole seconds.
pub assume_specification[ std::time::Duration::as_secs ](d: &std::time::Duration) -> (secs: u64)
    ensures
        secs == duration_nanos(*d) / 1_000_000_000,
;

/// `Duration::as_millis`: the whole milliseconds.
pub assume_specification[ std::time::Duration::as_millis ](d: &std::time::Duration) -> (ms: u128)
    ensures
        ms == duration_nanos(*d) / 1_000_000,
;

// ----- rand -----

/// `Rng::gen_range` of the thread's generator over `low..=high`: some number of the range.
/// Which one is chance.
#[verifier::external_body]
pub(crate) fn random_between(low: u64, high: u64) -> (n: u64)
    requires
        low <= high,
    ensures
        low <= n <= high,
{
    rand::thread_rng().gen_range(low..=high)
}

/// `rand::random`: some number. Which one is chance.
#[verifier::external_body]
pub(crate) fn random_u64() -> u64 {
    rand::random::<u64>()
}

// ----- uuid -----

#[verifier::external_type_specification]
#[verifier::external_body]
pub struct ExUuid(uuid::Uuid);

/// The sixteen bytes of a UUID.
pub uninterp spec fn uuid_bytes(id: uuid::Uuid) -> Seq<u8>;

/// Sixteen bytes with the version and variant marks of a random UUID.
pub open spec fn is_random_uuid(bytes: Seq<u8>) -> bool {
    &&& bytes.len() == 16
    &&& bytes[6] / 16 == 4
    &&& bytes[8] / 64 == 2
}

/// The character of a hexadecimal digit, in lower case.
pub open spec fn hex_digit(d: u8) -> char {
    if d < 10 {
        (48 + d) as char
    } else {
        (87 + d) as char
    }
}

/// Two hexadecimal digits for each byte.
pub open spec fn hex_text(bytes: Seq<u8>) -> Seq<char> {
    Seq::new(
        2 * bytes.len(),
        |i: int|
            if i % 2 == 0 {
                hex_digit(bytes[i / 2] / 16)
            } else {
                hex_digit(bytes[i / 2] % 16)
            },
    )
}

/// `hex` in groups of 8, 4, 4, 4 and 12 digits, with hyphens between them.
pub open spec fn hyphenated(hex: Seq<char>) -> Seq<char> {
    hex.subrange(0, 8).push('-') + hex.subrange(8, 12).push('-') + hex.subrange(12, 16).push('-')
        + hex.subrange(16, 20).push('-') + hex.subrange(20, 32)
}

/// `Uuid::new_v4`: a random UUID. Only its marks are fixed; the other bits are chance.
pub assume_specification[ uuid::Uuid::new_v4 ]() -> (id: uuid::Uuid)
    ensures
        is_random_uuid(uuid_bytes(id)),
;

/// `Uuid::simple`, written out: the thirty-two digits of the bytes.
#[verifier::external_body]
pub(crate) fn simple_text(id: &uuid::Uuid) -> (text: String)
    ensures
        text@ == hex_text(uuid_bytes(*id)),
{
    id.simple().to_string()
}

/// `Uuid` written out: the digits in hyphenated groups.
#[verifier::external_body]
pub(crate) fn hyphenated_text(id: &uuid::Uuid) -> (text: String)
    ensures
        text@ == hyphenated(hex_text(uuid_bytes(*id))),
{
    id.to_string()
}

// ----- base64 -----

/// What the URL-safe base64 alphabet without padding decodes a text to; nothing for a text that
/// is no such encoding.
pub uninterp spec fn base64url_decoded(text: Seq<char>) -> Option<Seq<u8>>;

/// `Engine::decode` of `base64::engine::general_purpose::URL_SAFE_NO_PAD`.
#[verifier::external_body]
pub(crate) fn decode_base64url(text: &str) -> (bytes: Option<Vec<u8>>)
    ensures
        base64url_decoded(text@) == (match bytes {
            Some(b) => Some(b@),
            None => None,
        }),
{
    base64::engine::general_purpose::URL_SAFE_NO_PAD.decode(text).ok()
}

// ----- serde_json -----

#[verifier::external_type_specification]
#[verifier::external_body]
pub struct ExValue(serde_json::Value);

/// `Value::clone`: the same value again.
pub assume_specification[ <serde_json::Value as Clone>::clone ](v: &serde_json::Value) -> (copy:
    serde_json::Value)
    ensures
        copy == *v,
;

/// The members of a JSON object by name: the number of a member that is a signed integer of 64
/// bits, nothing for another member. A value that is no object has no members.
pub uninterp spec fn json_members(v: serde_json::Value) -> Map<Seq<char>, Option<i64>>;

/// The number that a JSON value is, where it is a signed integer of 64 bits.
pub uninterp spec fn json_integer(v: serde_json::Value) -> Option<i64>;

/// The members of the JSON document that the bytes hold; nothing where they hold none.
pub uninterp spec fn json_document(bytes: Seq<u8>) -> Option<Map<Seq<char>, Option<i64>>>;

/// `serde_json::from_slice` into a `Value`: the document that the bytes hold, or an error.
#[verifier::external_body]
pub(crate) fn parse_json(bytes: &[u8]) -> (doc: Option<serde_json::Value>)
    ensures
        json_document(bytes@) == (match doc {
            Some(v) => Some(json_members(v)),
            None => None,
        }),
{
    serde_json::from_slice::<serde_json::Value>(bytes).ok()
}

/// `Value::get` with a name: the member of that name, where the value is an object that has it.
#[verifier::external_body]
pub(crate) fn json_get<'a>(v: &'a serde_json::Value, name: &str) -> (member: Option<
    &'a serde_json::Value,
>)
    ensures
        member is Some <==> json_members(*v).contains_key(name@),
        member matches Some(m) ==> json_integer(*m) == json_members(*v)[name@],
{
    v.get(name)
}

/// `Value::as_i64`: the integer that the value is.
pub assume_specification[ serde_json::Value::as_i64 ](v: &serde_json::Value) -> (n: Option<i64>)
    ensures
        n == json_integer(*v),
;

} // verus!
