//! Relative-time labels for note lists: how long ago a note was updated,
//! bucketed from "just now" up to weeks, and a calendar label beyond that.

use crate::codec::{dec_of, dec_u64_chars};
use vstd::prelude::*;

verus! {

/// The calendar label (abbreviated month and day) of an instant, named after
/// the formatter that computes it.
pub uninterp spec fn month_day_of(ms: i64) -> Seq<char>;

/// Relies on chrono's `DateTime::from_timestamp_millis` and
/// `format("%b %d")`: the abbreviated-month-and-day label of the instant,
/// a function of the millisecond stamp alone (chrono's `%b` names are fixed,
/// not locale-dependent); empty for stamps outside chrono's range.
#[verifier::external_body]
fn format_month_day(ms: i64) -> (r: String)
    ensures
        r@ == month_day_of(ms),
{
    match chrono::DateTime::<chrono::Utc>::from_timestamp_millis(ms) {
        Some(dt) => dt.format("%b %d").to_string(),
        None => String::new(),
    }
}

/// The label for an update stamp `then`, seen at instant `now`, both in
/// milliseconds: "just now" within a minute (or for stamps not in the past),
/// then minutes, hours, "yesterday", days and weeks ago, and the calendar
/// label from four weeks on.
pub open spec fn relative_label_of(now: int, then: int, month_day: Seq<char>) -> Seq<char> {
    let d = now - then;
    let mins = d / 60000;
    let hours = d / 3600000;
    let days = d / 86400000;
    let weeks = days / 7;
    if now <= then || mins < 1 {
        "just now"@
    } else if mins < 60 {
        dec_of(mins) + "m ago"@
    } else if hours < 24 {
        dec_of(hours) + "h ago"@
    } else if days == 1 {
        "yesterday"@
    } else if days < 7 {
        dec_of(days) + "d ago"@
    } else if weeks < 4 {
        dec_of(weeks) + "w ago"@
    } else {
        month_day
    }
}

/// Formats how long ago `then_ms` lies before `now_ms`, as
/// `relative_label_of` describes.
pub fn format_relative_time(now_ms: i64, then_ms: i64) -> (r: String)
    ensures
        r@ == relative_label_of(now_ms as int, then_ms as int, month_day_of(then_ms)),
{
    if now_ms <= then_ms {
        return String::from_str("just now");
    }
    let d: u64 = ((now_ms as i128) - (then_ms as i128)) as u64;
    proof {
        assert(d as int == now_ms as int - then_ms as int);
    }
    let mins = d / 60000;
    let hours = d / 3600000;
    let days = d / 86400000;
    let weeks = days / 7;
    if mins < 1 {
        String::from_str("just now")
    } else if mins < 60 {
        let mut s = crate::text::string_of_chars(&dec_u64_chars(mins));
        s.append("m ago");
        s
    } else if hours < 24 {
        let mut s = crate::text::string_of_chars(&dec_u64_chars(hours));
        s.append("h ago");
        s
    } else if days == 1 {
        String::from_str("yesterday")
    } else if days < 7 {
        let mut s = crate::text::string_of_chars(&dec_u64_chars(days));
        s.append("d ago");
        s
    } else if weeks < 4 {
        let mut s = crate::text::string_of_chars(&dec_u64_chars(weeks));
        s.append("w ago");
        s
    } else {
        format_month_day(then_ms)
    }
}

} // verus!
