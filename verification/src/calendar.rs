//! The proleptic Gregorian calendar: dates from day numbers.
use vstd::prelude::*;

verus! {

/// Whether `year` has a 29th of February.
pub open spec fn is_leap(year: int) -> bool {
    year % 4 == 0 && (year % 100 != 0 || year % 400 == 0)
}

/// The number of days of a month.
pub open spec fn days_in_month(year: int, month: int) -> int {
    if month == 2 {
        if is_leap(year) {
            29
        } else {
            28
        }
    } else if month == 4 || month == 6 || month == 9 || month == 11 {
        30
    } else {
        31
    }
}

/// The days of `year` before the first of `month`.
pub open spec fn days_before_month(year: int, month: int) -> int
    decreases month,
{
    if month <= 1 {
        0
    } else {
        days_before_month(year, month - 1) + days_in_month(year, month - 1)
    }
}

/// The leap years from year 0 up to, but without, `year` (counted negatively before year 0).
pub open spec fn leap_years_before(year: int) -> int {
    (year + 3) / 4 - (year + 99) / 100 + (year + 399) / 400
}

/// A date that the calendar has.
pub open spec fn is_date(year: int, month: int, day: int) -> bool {
    1 <= month <= 12 && 1 <= day <= days_in_month(year, month)
}

/// The day's distance from 1970-01-01, in days.
pub open spec fn day_number(year: int, month: int, day: int) -> int {
    365 * year + leap_years_before(year) + days_before_month(year, month) + (day - 1) - 719528
}

/// The year of a 400-year era that begins on the first of March, and the day in that year.
proof fn year_of_era(doe: int)
    requires
        0 <= doe < 146097,
    ensures
        ({
            let yoe = (doe - doe / 1460 + doe / 36524 - doe / 146096) / 365;
            let doy = doe - (365 * yoe + yoe / 4 - yoe / 100);
            &&& 0 <= yoe < 400
            &&& 0 <= doy <= 365
            &&& doy == 365 ==> is_leap(yoe + 1)
        }),
{
}

/// The date after a date.
pub open spec fn next_date(year: int, month: int, day: int) -> (int, int, int) {
    if day < days_in_month(year, month) {
        (year, month, day + 1)
    } else if month < 12 {
        (year, month + 1, 1)
    } else {
        (year + 1, 1, 1)
    }
}

/// `day_number` counts days: it is 0 on 1970-01-01, and grows by one from a date to the next.
pub proof fn day_number_counts_days(year: int, month: int, day: int)
    requires
        is_date(year, month, day),
    ensures
        day_number(1970, 1, 1) == 0,
        ({
            let (y, m, d) = next_date(year, month, day);
            is_date(y, m, d) && day_number(y, m, d) == day_number(year, month, day) + 1
        }),
{
    reveal_with_fuel(days_before_month, 14);
}

/// The months have the lengths of the Gregorian calendar, and `day_number` adds them up: it is 0
/// on 1970-01-01, grows by one from day to day, by the length of the month from the first of a
/// month to the first of the next, and by the length of the year from year to year.
pub proof fn calendar_is_gregorian(year: int, month: int, day: int)
    ensures
        is_date(year, month, day) <==> 1 <= month <= 12 && 1 <= day <= (if month == 2 {
            if year % 400 == 0 || (year % 4 == 0 && year % 100 != 0) {
                29int
            } else {
                28
            }
        } else if month == 4 || month == 6 || month == 9 || month == 11 {
            30
        } else {
            31
        }),
        day_number(1970, 1, 1) == 0,
        day_number(year, month, day + 1) == day_number(year, month, day) + 1,
        1 <= month <= 11 ==> day_number(year, month + 1, 1) - day_number(year, month, 1) == (
        if month == 2 {
            if year % 400 == 0 || (year % 4 == 0 && year % 100 != 0) {
                29int
            } else {
                28
            }
        } else if month == 4 || month == 6 || month == 9 || month == 11 {
            30
        } else {
            31
        }),
        day_number(year + 1, 1, 1) - day_number(year, 1, 1) == (if year % 400 == 0 || (year % 4
            == 0 && year % 100 != 0) {
            366int
        } else {
            365
        }),
{
    reveal_with_fuel(days_before_month, 14);
    leap_years_step(year);
    assert(year % 400 == 0 ==> year % 4 == 0);
}

/// The days before a month lie inside the year.
proof fn month_inside_year(year: int, month: int, day: int)
    requires
        is_date(year, month, day),
    ensures
        0 <= days_before_month(year, month) + day - 1,
        days_before_month(year, month) + day <= 365 + if is_leap(year) { 1int } else { 0int },
{
    reveal_with_fuel(days_before_month, 14);
}

/// Two dates with the same day number are the same date.
pub proof fn day_number_is_unique(y1: int, m1: int, d1: int, y2: int, m2: int, d2: int)
    requires
        is_date(y1, m1, d1),
        is_date(y2, m2, d2),
        day_number(y1, m1, d1) == day_number(y2, m2, d2),
    ensures
        y1 == y2 && m1 == m2 && d1 == d2,
{
    month_inside_year(y1, m1, d1);
    month_inside_year(y2, m2, d2);
    year_starts_grow(y1, y2);
    year_starts_grow(y2, y1);
    assert(y1 == y2);
    reveal_with_fuel(days_before_month, 14);
}

/// The date `(y1, m1, d1)` comes before the date `(y2, m2, d2)`.
pub open spec fn is_earlier(y1: int, m1: int, d1: int, y2: int, m2: int, d2: int) -> bool {
    y1 < y2 || (y1 == y2 && (m1 < m2 || (m1 == m2 && d1 < d2)))
}

/// The smaller day number is that of the earlier date.
pub proof fn day_number_keeps_order(y1: int, m1: int, d1: int, y2: int, m2: int, d2: int)
    requires
        is_date(y1, m1, d1),
        is_date(y2, m2, d2),
        day_number(y1, m1, d1) < day_number(y2, m2, d2),
    ensures
        is_earlier(y1, m1, d1, y2, m2, d2),
{
    month_inside_year(y1, m1, d1);
    month_inside_year(y2, m2, d2);
    year_starts_grow(y2, y1);
    if y1 == y2 {
        reveal_with_fuel(days_before_month, 14);
    }
}

/// The day numbers of the years 0 to 9999 are those between the first and the last of these
/// years.
pub proof fn day_number_keeps_years(year: int, month: int, day: int)
    requires
        is_date(year, month, day),
        day_number(0, 1, 1) <= day_number(year, month, day) <= day_number(9999, 12, 31),
    ensures
        0 <= year <= 9999,
{
    month_inside_year(year, month, day);
    month_inside_year(9999, 12, 31);
    year_starts_grow(year, 0);
    year_starts_grow(9999, year);
    reveal_with_fuel(days_before_month, 14);
}

/// A later year begins at least a year's length later.
proof fn year_starts_grow(y1: int, y2: int)
    ensures
        y1 < y2 ==> 365 * y2 + leap_years_before(y2) >= 365 * y1 + leap_years_before(y1) + 365
            + if is_leap(y1) { 1int } else { 0int },
    decreases y2 - y1,
{
    if y1 < y2 {
        leap_years_step(y2 - 1);
        year_starts_grow(y1, y2 - 1);
    }
}

/// The month and the day of a day counted from the first of March.
proof fn month_from_march(doy: int)
    requires
        0 <= doy <= 365,
    ensures
        ({
            let mp = (5 * doy + 2) / 153;
            let day = doy - (153 * mp + 2) / 5 + 1;
            &&& 0 <= mp <= 11
            &&& 1 <= day <= 31
            &&& mp < 10 ==> forall|year: int|
                day <= days_in_month(year, mp + 3) && #[trigger] days_before_month(year, mp + 3) + day
                    - 1 == doy + 59 + if is_leap(year) { 1int } else { 0int }
            &&& mp >= 10 ==> forall|year: int|
                (doy == 365 ==> is_leap(year)) ==> day <= days_in_month(year, mp - 9)
                    && #[trigger] days_before_month(year, mp - 9) + day - 1 == doy - 306
        }),
{
    reveal_with_fuel(days_before_month, 14);
    let mp = (5 * doy + 2) / 153;
    assert(0 <= mp <= 11);
    assert(mp == 0 || mp == 1 || mp == 2 || mp == 3 || mp == 4 || mp == 5 || mp == 6 || mp == 7
        || mp == 8 || mp == 9 || mp == 10 || mp == 11);
}

/// The leap years before a year, and whether the year is one.
proof fn leap_years_step(y: int)
    ensures
        leap_years_before(y + 1) == y / 4 - y / 100 + y / 400 + 1,
        leap_years_before(y + 1) == leap_years_before(y) + if is_leap(y) { 1int } else { 0int },
{
    assert((y + 4) / 4 == (y + 3) / 4 + if y % 4 == 0 { 1int } else { 0int });
    assert((y + 100) / 100 == (y + 99) / 100 + if y % 100 == 0 { 1int } else { 0int });
    assert((y + 400) / 400 == (y + 399) / 400 + if y % 400 == 0 { 1int } else { 0int });
    assert(y % 400 == 0 ==> y % 100 == 0);
    assert(y % 100 == 0 ==> y % 4 == 0);
}

/// Leap years repeat every 400 years.
proof fn leap_years_of_era(yoe: int, era: int)
    requires
        0 <= yoe < 400,
    ensures
        ({
            let y = yoe + era * 400;
            &&& is_leap(y + 1) == is_leap(yoe + 1)
            &&& y / 4 == yoe / 4 + era * 100
            &&& y / 100 == yoe / 100 + era * 4
            &&& y / 400 == era
        }),
{
    let y = yoe + era * 400;
    assert((y + 1) % 4 == (yoe + 1) % 4);
    assert((y + 1) % 100 == (yoe + 1) % 100);
    assert((y + 1) % 400 == (yoe + 1) % 400);
}

/// A date of the calendar.
pub struct CivilDate {
    pub year: i64,
    pub month: i64,
    pub day: i64,
}

/// The date that lies `days` days after 1970-01-01.
pub fn civil_from_days(days: i64) -> (date: CivilDate)
    requires
        -200_000_000_000_000 <= days <= 200_000_000_000_000,
    ensures
        is_date(date.year as int, date.month as int, date.day as int),
        day_number(date.year as int, date.month as int, date.day as int) == days,
        -1_000_000_000_000 <= date.year <= 1_000_000_000_000,
{
    let z: i64 = days + 719468;
    let era: i64 = (if z >= 0 {
        z
    } else {
        z - 146096
    }) / 146097;
    let doe: i64 = z - era * 146097;
    assert(0 <= doe < 146097);
    let yoe: i64 = (doe - doe / 1460 + doe / 36524 - doe / 146096) / 365;
    proof {
        year_of_era(doe as int);
    }
    let y: i64 = yoe + era * 400;
    let doy: i64 = doe - (365 * yoe + yoe / 4 - yoe / 100);
    proof {
        month_from_march(doy as int);
        leap_years_of_era(yoe as int, era as int);
        leap_years_step(y as int);
    }
    let mp: i64 = (5 * doy + 2) / 153;
    let day: i64 = doy - (153 * mp + 2) / 5 + 1;
    let month: i64 = if mp < 10 {
        mp + 3
    } else {
        mp - 9
    };
    let year: i64 = if month <= 2 {
        y + 1
    } else {
        y
    };
    CivilDate { year, month, day }
}

} // verus!
