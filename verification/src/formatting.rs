//! How an event is shown as a line.

use crate::text;
use crate::tracking::LogEvent;
use crate::tracking::LogEventView;
use vstd::prelude::*;

verus! {

/// The first second that the calendar of the years -9999 to 9999 holds.
pub const FIRST_SECOND: i64 = -377_705_116_800;

/// The last second that the calendar of the years -9999 to 9999 holds.
pub const LAST_SECOND: i64 = 253_402_300_799;

/// The largest distance of a local time from UTC, in seconds.
pub const MAX_UTC_OFFSET: i32 = 93_599;

/// Hour, minute and second of the day at the given second since the Unix epoch.
pub open spec fn clock(second: int) -> (int, int, int) {
    let of_day = second % 86_400;
    (of_day / 3600, (of_day / 60) % 60, of_day % 60)
}

/// The second can be shown on a clock that is the given seconds ahead of UTC.
pub open spec fn on_the_clock(ts: int, offset: int) -> bool {
    &&& -MAX_UTC_OFFSET <= offset <= MAX_UTC_OFFSET
    &&& FIRST_SECOND <= ts <= LAST_SECOND
    &&& FIRST_SECOND <= ts + offset <= LAST_SECOND
}

/// `time::OffsetDateTime::from_unix_timestamp` and `time::UtcOffset::from_whole_seconds` succeed on
/// what `on_the_clock` admits, and `to_offset` and `to_hms` give hour, minute and second of the day
/// there.
#[verifier::external_body]
fn local_clock(ts: i64, offset: i32) -> (res: (u8, u8, u8))
    requires
        on_the_clock(ts as int, offset as int),
    ensures
        (res.0 as int, res.1 as int, res.2 as int) == clock(ts + offset),
{
    let offset = time::UtcOffset::from_whole_seconds(offset).expect("offset in range");
    let moment = time::OffsetDateTime::from_unix_timestamp(ts).expect("second in range");
    moment.to_offset(offset).to_hms()
}

/// Whether the second can be shown on a clock that is the given seconds ahead of UTC.
pub fn fits_the_clock(ts: i64, offset: i32) -> (res: bool)
    ensures
        res == on_the_clock(ts as int, offset as int),
{
    -MAX_UTC_OFFSET <= offset && offset <= MAX_UTC_OFFSET && FIRST_SECOND <= ts && ts
        <= LAST_SECOND && FIRST_SECOND <= ts + offset as i64 && ts + offset as i64 <= LAST_SECOND
}

/// A number in two digits.
pub open spec fn two_digits(n: int) -> Seq<char> {
    text::padded(text::decimal(n as nat), '0', 2)
}

/// The time of day of an event, where the distance of the local time from UTC is known.
pub open spec fn time_text(ts: int, offset: Option<i32>) -> Seq<char> {
    match offset {
        Some(offset) => {
            let (hour, minute, second) = clock(ts + offset);
            two_digits(hour) + ":"@ + two_digits(minute) + ":"@ + two_digits(second)
        },
        None => "??:??:??"@,
    }
}

/// The line that shows an event.
pub open spec fn event_line(
    event: LogEventView,
    show_timestamps: bool,
    offset: Option<i32>,
) -> Seq<char> {
    if show_timestamps {
        "["@ + time_text(event.ts as int, offset) + "] ["@ + event.source + "] "@ + event.line
    } else {
        "["@ + event.source + "] "@ + event.line
    }
}

fn two_digit_text(n: u8) -> (res: String)
    ensures
        res@ == two_digits(n as int),
{
    text::pad(text::decimal_text(n as u64).as_str(), '0', 2)
}

/// Hour, minute and second of an event.
pub fn local_hms(ts: i64, utc_offset: i32) -> (res: String)
    requires
        on_the_clock(ts as int, utc_offset as int),
    ensures
        res@ == time_text(ts as int, Some(utc_offset)),
{
    let (hour, minute, second) = local_clock(ts, utc_offset);
    text::concat5(
        two_digit_text(hour).as_str(),
        ":",
        two_digit_text(minute).as_str(),
        ":",
        two_digit_text(second).as_str(),
    )
}

/// The line that shows an event, with the time of day where that is wanted. The local time is
/// `utc_offset` seconds ahead of UTC; where that is not known, the time is not either.
pub fn format_event_line(event: &LogEvent, show_timestamps: bool, utc_offset: Option<i32>) -> (res:
    String)
    requires
        show_timestamps && utc_offset is Some ==> on_the_clock(
            event.ts as int,
            utc_offset->0 as int,
        ),
    ensures
        res@ == event_line(event@, show_timestamps, utc_offset),
{
    let mut res: String = "[".to_owned();
    if show_timestamps {
        let time: String = match utc_offset {
            Some(offset) => local_hms(event.ts, offset),
            None => "??:??:??".to_owned(),
        };
        res.append(time.as_str());
        res.append("] [");
    }
    res.append(event.source.as_str());
    res.append("] ");
    res.append(event.line.as_str());
    res
}

/// Hour, minute and second are those of a day.
pub proof fn clock_shows_a_time_of_day(second: int)
    ensures
        ({
            let (hour, minute, second) = clock(second);
            0 <= hour < 24 && 0 <= minute < 60 && 0 <= second < 60
        }),
{
}

/// A day later the clock shows the same.
pub proof fn clock_repeats_every_day(second: int)
    ensures
        clock(second + 86_400) == clock(second),
{
    vstd::arithmetic::div_mod::lemma_mod_add_multiples_vanish(second, 86_400);
}

} // verus!
