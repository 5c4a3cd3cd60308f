use logtrak::formatting::{
    fits_the_clock, format_event_line, local_hms, FIRST_SECOND, LAST_SECOND, MAX_UTC_OFFSET,
};
use logtrak::watcher::LogEvent;

fn event(ts: i64) -> LogEvent {
    LogEvent {
        ts,
        source: "a.log".to_string(),
        line: "hello".to_string(),
    }
}

#[test]
fn lines_without_a_time() {
    assert_eq!(format_event_line(&event(5), false, Some(0)), "[a.log] hello");
}

#[test]
fn lines_with_a_time() {
    assert_eq!(
        format_event_line(&event(3 * 3600 + 25 * 60 + 45), true, Some(0)),
        "[03:25:45] [a.log] hello"
    );
    assert_eq!(
        format_event_line(&event(0), true, Some(-1)),
        "[23:59:59] [a.log] hello"
    );
    assert_eq!(
        format_event_line(&event(86_399), true, Some(3600)),
        "[00:59:59] [a.log] hello"
    );
}

#[test]
fn lines_where_the_local_time_is_not_known() {
    assert_eq!(format_event_line(&event(0), true, None), "[??:??:??] [a.log] hello");
}

#[test]
fn the_ends_of_the_calendar() {
    assert!(fits_the_clock(FIRST_SECOND, 0));
    assert!(!fits_the_clock(FIRST_SECOND, -1));
    assert!(!fits_the_clock(FIRST_SECOND - 1, 0));
    assert!(fits_the_clock(LAST_SECOND, 0));
    assert!(!fits_the_clock(LAST_SECOND, 1));
    assert!(!fits_the_clock(LAST_SECOND + 1, 0));
    assert!(fits_the_clock(0, MAX_UTC_OFFSET));
    assert!(!fits_the_clock(0, MAX_UTC_OFFSET + 1));
    assert!(!fits_the_clock(i64::MAX, i32::MAX));
    assert_eq!(local_hms(FIRST_SECOND, 0), "00:00:00");
    assert_eq!(local_hms(LAST_SECOND, 0), "23:59:59");
    assert_eq!(local_hms(FIRST_SECOND, MAX_UTC_OFFSET), "01:59:59");
    assert_eq!(local_hms(LAST_SECOND, -MAX_UTC_OFFSET), "22:00:00");
}

#[test]
fn clocks_agree_with_the_time_crate() {
    for ts in [-1_000_000_007i64, -1, 0, 59, 3_661, 1_777_777_777] {
        for offset in [-43_200, -3_599, 0, 1, 19_800, 50_400] {
            let moment = time::OffsetDateTime::from_unix_timestamp(ts)
                .expect("moment")
                .to_offset(time::UtcOffset::from_whole_seconds(offset).expect("offset"));
            assert_eq!(
                local_hms(ts, offset),
                format!("{:02}:{:02}:{:02}", moment.hour(), moment.minute(), moment.second())
            );
        }
    }
}
