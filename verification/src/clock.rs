//! Commit and blame times, shown in the local time zone.

use vstd::prelude::*;
use chrono::{Local, TimeZone};

verus! {

/// The format of a shown time: date, hours and minutes.
pub const TIMESTAMP_FORMAT: &'static str = "%Y-%m-%d %H:%M";

/// `c` is a decimal digit.
pub open spec fn is_digit(c: char) -> bool {
    ('0' as int) <= (c as int) <= ('9' as int)
}

/// `s` is two decimal digits whose value lies in `lo..=hi`.
pub open spec fn two_digits_in(s: Seq<char>, lo: int, hi: int) -> bool {
    &&& s.len() == 2
    &&& is_digit(s[0])
    &&& is_digit(s[1])
    &&& lo <= ((s[0] as int) - ('0' as int)) * 10 + ((s[1] as int) - ('0' as int)) <= hi
}

/// A year as `%Y` shows it: four digits for the years 0 to 9999, else a
/// sign followed by at least four digits.
pub open spec fn year_text(y: Seq<char>) -> bool {
    ||| (y.len() == 4 && forall|k: int| 0 <= k < 4 ==> is_digit(#[trigger] y[k]))
    ||| (y.len() >= 5 && (y[0] == '+' || y[0] == '-') && forall|k: int|
        1 <= k < y.len() ==> is_digit(#[trigger] y[k]))
}

/// `t` is a date and time to the minute in the form `%Y-%m-%d %H:%M`:
/// a year, a month 01 to 12, a day 01 to 31, an hour 00 to 23 and a minute
/// 00 to 59.
pub open spec fn minute_text(t: Seq<char>) -> bool {
    let n = t.len() as int;
    &&& n >= 16
    &&& year_text(t.take(n - 12))
    &&& t[n - 12] == '-'
    &&& two_digits_in(t.subrange(n - 11, n - 9), 1, 12)
    &&& t[n - 9] == '-'
    &&& two_digits_in(t.subrange(n - 8, n - 6), 1, 31)
    &&& t[n - 6] == ' '
    &&& two_digits_in(t.subrange(n - 5, n - 3), 0, 23)
    &&& t[n - 3] == ':'
    &&& two_digits_in(t.subrange(n - 2, n), 0, 59)
}

/// The first and last second after the epoch that chrono's
/// `DateTime::from_timestamp` accepts: January 1 of the year -262143 and
/// December 31 of the year 262142, at the end of the day, in UTC.
pub open spec fn in_chrono_range(ts: int) -> bool {
    -8334601228800 <= ts <= 8210266876799
}

/// What chrono's `format("%Y-%m-%d %H:%M")` gives for the UTC time `secs`
/// seconds after the epoch.
pub uninterp spec fn utc_minute_text(secs: int) -> Seq<char>;

/// `t` shows the time `ts` seconds after the epoch to the minute in some
/// time zone: a text in the form `%Y-%m-%d %H:%M` that, for a time chrono
/// can represent, is the UTC text of `ts` shifted by an offset of less than
/// a day.
pub open spec fn shows_time(t: Seq<char>, ts: int) -> bool {
    &&& minute_text(t)
    &&& (in_chrono_range(ts) ==> exists|off: int|
        -86400 < off < 86400 && t == #[trigger] utc_minute_text(ts + off))
}

/// The text of the local time at `ts` seconds after the epoch, in the format
/// `%Y-%m-%d %H:%M`: `Local.timestamp_opt(ts, 0).single()`, formatted with
/// `DateTime::format`.  It is `None` exactly when `DateTime::from_timestamp`
/// rejects `ts`; otherwise it is the UTC text of `ts` shifted by the local
/// offset, which chrono's `FixedOffset` keeps under a day.  Which offset
/// rests on the machine's time zone and is not stated.
#[verifier::external_body]
fn local_time_text(ts: i64, fmt: &str) -> (r: Option<String>)
    requires
        fmt@ == "%Y-%m-%d %H:%M"@,
    ensures
        r is Some <==> in_chrono_range(ts as int),
        r matches Some(t) ==> minute_text(t@),
        r matches Some(t) ==> exists|off: int|
            -86400 < off < 86400 && t@ == #[trigger] utc_minute_text(ts + off),
{
    Local.timestamp_opt(ts, 0).single().map(|dt| dt.format(fmt).to_string())
}

/// The text of the current local time, in the format `%Y-%m-%d %H:%M`:
/// `Local::now()` formatted with `DateTime::format`.  Which time it shows
/// rests on the clock and the time zone, and is not stated.
#[verifier::external_body]
fn local_now_text(fmt: &str) -> (r: String)
    requires
        fmt@ == "%Y-%m-%d %H:%M"@,
    ensures
        minute_text(r@),
{
    Local::now().format(fmt).to_string()
}

/// The local date and time, to the minute, of `ts` seconds after the epoch;
/// the current time stands in for a time that chrono cannot represent.
pub fn format_timestamp(ts: i64) -> (text: String)
    ensures
        shows_time(text@, ts as int),
{
    match local_time_text(ts, TIMESTAMP_FORMAT) {
        Some(text) => text,
        None => local_now_text(TIMESTAMP_FORMAT),
    }
}

} // verus!
