//! Timestamps as the list shows them: month, day, hour and minute in the
//! local time zone.
use vstd::prelude::*;
use chrono::TimeZone;
use crate::calendar;

verus! {

/// How a timestamp is written: the short name of the month, the day, the hour
/// and the minute.
pub const STAMP_FORMAT: &'static str = "%b %d %H:%M";

/// The first second that the calendar covers.
pub const FIRST_SECOND: i64 = -8334601228800;

/// The last second that the calendar covers.
pub const LAST_SECOND: i64 = 8210266876799;

/// Whether `s` is how a clock of some time zone, less than a day off universal
/// time, shows the second `ts`.
pub open spec fn is_local_stamp(ts: i64, s: Seq<char>) -> bool {
    exists|offset: int|
        -86400 < offset < 86400 && s == #[trigger] calendar::stamp_at(ts as int, offset)
}

/// `chrono::Local.timestamp_opt(ts, 0).single()`, and `format` on what it
/// returns. There is a local time for exactly the seconds that the calendar
/// covers, and its text is the month, day, hour and minute of `ts` in a zone
/// less than a day off universal time. How far it is off depends on the time
/// zone of the machine and is not stated.
#[verifier::external_body]
fn local_stamp(ts: i64, format: &str) -> (r: Option<String>)
    requires
        format@ == STAMP_FORMAT@,
    ensures
        r is Some <==> FIRST_SECOND <= ts <= LAST_SECOND,
        r matches Some(s) ==> is_local_stamp(ts, s@),
{
    match chrono::Local.timestamp_opt(ts, 0).single() {
        Some(time) => Some(time.format(format).to_string()),
        None => None,
    }
}

/// Whether `s` can be what is shown for the timestamp `ts`: nothing for 0 or a
/// second that the calendar does not cover, else the month, day, hour and minute
/// of that second on a local clock.
pub open spec fn shows(ts: i64, s: Seq<char>) -> bool {
    if ts == 0 || !(FIRST_SECOND <= ts <= LAST_SECOND) {
        s.len() == 0
    } else {
        is_local_stamp(ts, s)
    }
}

/// What is shown for a timestamp whose local time is `local`: that time, or
/// nothing where there is none.
pub fn stamp_text(local: Option<String>) -> (r: String)
    ensures
        r@ == (match local {
            Some(s) => s@,
            None => Seq::<char>::empty(),
        }),
{
    match local {
        Some(s) => s,
        None => String::new(),
    }
}

/// What is shown for the timestamp `ts`, in seconds since the epoch.
pub fn fmt_ts(ts: i64) -> (r: String)
    ensures
        shows(ts, r@),
{
    if ts == 0 {
        return String::new();
    }
    stamp_text(local_stamp(ts, STAMP_FORMAT))
}

// --- Laws ---

/// The calendar covers whole years: from the first second of the year -262143 to
/// the last of the year 262142.
pub proof fn the_calendar_covers_whole_years()
    ensures
        FIRST_SECOND == calendar::year_number(-262143) * 86400,
        LAST_SECOND == calendar::year_number(262143) * 86400 - 1,
{
}

/// Every time that the calendar covers is shown, but for the very second that
/// stands for none; and what is shown is as long as a time is.
pub proof fn times_are_shown(ts: i64, s: Seq<char>)
    requires
        shows(ts, s),
    ensures
        s.len() == 0 <==> ts == 0 || ts < FIRST_SECOND || ts > LAST_SECOND,
        s.len() == 0 || s.len() == 12,
{
    if is_local_stamp(ts, s) {
        let offset = choose|offset: int|
            -86400 < offset < 86400 && s == #[trigger] calendar::stamp_at(ts as int, offset);
        calendar::stamps_have_twelve_characters(ts as int, offset);
    }
}

}
