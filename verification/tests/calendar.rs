use chrono::{Datelike, NaiveDate, TimeZone, Utc};
use rebalance::calendar::{
    calendar_window, earliest_next_trading, funding_second_of, session_funding_time, window_from,
};
use rebalance::time::Timestamp;

fn day(year: i32, month: u32, date: u32) -> i32 {
    NaiveDate::from_ymd_opt(year, month, date).unwrap().num_days_from_ce()
}

fn utc(year: i32, month: u32, date: u32, hour: u32, minute: u32) -> Timestamp {
    let at = Utc.with_ymd_and_hms(year, month, date, hour, minute, 0).unwrap();
    Timestamp { secs: at.timestamp(), nanos: 0 }
}

#[test]
fn next_cycle_waits_a_day_after_the_last_funding() {
    let now = utc(2024, 1, 15, 12, 0);
    assert_eq!(earliest_next_trading(now, None), Some(now));
    let last = utc(2024, 1, 15, 9, 0);
    assert_eq!(earliest_next_trading(now, Some(last)), Some(utc(2024, 1, 16, 9, 0)));
    let last = utc(2024, 1, 10, 9, 0);
    assert_eq!(earliest_next_trading(now, Some(last)), Some(now));
    let last = utc(2024, 1, 14, 12, 0);
    assert_eq!(earliest_next_trading(now, Some(last)), Some(now));
    let end = Timestamp { secs: i64::MAX, nanos: 0 };
    assert_eq!(earliest_next_trading(now, Some(end)), None);
}

#[test]
fn calendar_window_starts_on_the_day_of_the_exchange() {
    // three in the morning in Greenwich is ten in the evening before in New York
    let at = utc(2024, 1, 15, 3, 0);
    assert_eq!(calendar_window(&at), Some((day(2024, 1, 14), day(2024, 1, 21))));
    let at = utc(2024, 1, 15, 5, 0);
    assert_eq!(calendar_window(&at), Some((day(2024, 1, 15), day(2024, 1, 22))));
    // in summer the exchange is four hours behind
    let at = utc(2024, 7, 1, 3, 59);
    assert_eq!(calendar_window(&at), Some((day(2024, 6, 30), day(2024, 7, 7))));
    let at = utc(2024, 7, 1, 4, 0);
    assert_eq!(calendar_window(&at), Some((day(2024, 7, 1), day(2024, 7, 8))));
}

#[test]
fn calendar_window_is_sought_within_limits() {
    assert_eq!(calendar_window(&Timestamp { secs: 8_000_000_000_001, nanos: 0 }), None);
    assert_eq!(calendar_window(&Timestamp { secs: -8_000_000_000_001, nanos: 0 }), None);
    assert_eq!(calendar_window(&Timestamp { secs: 0, nanos: 1_000_000_000 }), None);
    assert!(calendar_window(&Timestamp { secs: 8_000_000_000_000, nanos: 999_999_999 }).is_some());
    assert!(calendar_window(&Timestamp { secs: -8_000_000_000_000, nanos: 0 }).is_some());
}

#[test]
fn window_is_a_week_long() {
    assert_eq!(window_from(10), Some((10, 17)));
    assert_eq!(window_from(-3), Some((-3, 4)));
    assert_eq!(window_from(i32::MAX - 7), Some((i32::MAX - 7, i32::MAX)));
    assert_eq!(window_from(i32::MAX - 6), None);
}

#[test]
fn funding_is_an_hour_after_the_opening() {
    // half past nine in New York, in winter five hours behind Greenwich
    assert_eq!(
        session_funding_time(day(2024, 1, 16), 9 * 3_600 + 1_800, 0),
        Some(utc(2024, 1, 16, 15, 30))
    );
    // and in summer four
    assert_eq!(
        session_funding_time(day(2024, 7, 1), 9 * 3_600 + 1_800, 0),
        Some(utc(2024, 7, 1, 14, 30))
    );
    assert_eq!(
        session_funding_time(day(2024, 7, 1), 9 * 3_600 + 1_800, 5),
        Some(Timestamp { secs: utc(2024, 7, 1, 14, 30).secs, nanos: 5 })
    );
}

#[test]
fn funding_hour_is_counted_round_the_clock() {
    assert_eq!(
        session_funding_time(day(2024, 1, 16), 23 * 3_600 + 1_800, 0),
        Some(utc(2024, 1, 16, 5, 30))
    );
}

#[test]
fn funding_has_no_time_that_the_clock_skips_or_repeats() {
    // on 10 March 2024 the clock went from two to three
    assert_eq!(session_funding_time(day(2024, 3, 10), 3_600 + 1_800, 0), None);
    // on 3 November 2024 it showed the hour after one twice
    assert_eq!(session_funding_time(day(2024, 11, 3), 1_800, 0), None);
    assert!(session_funding_time(day(2024, 11, 3), 3_600 + 1_800, 0).is_some());
}

#[test]
fn funding_is_sought_for_sessions_only() {
    assert_eq!(session_funding_time(day(2024, 1, 16), 86_400, 0), None);
    assert_eq!(session_funding_time(day(2024, 1, 16), 0, 1_000_000_000), None);
    assert_eq!(session_funding_time(90_000_001, 0, 0), None);
    assert_eq!(session_funding_time(-90_000_001, 0, 0), None);
    assert!(session_funding_time(90_000_000, 0, 0).is_some());
    assert!(session_funding_time(-90_000_000, 0, 0).is_some());
}

#[test]
fn funding_second_is_an_hour_later_round_the_clock() {
    assert_eq!(funding_second_of(0), 3_600);
    assert_eq!(funding_second_of(34_200), 37_800);
    assert_eq!(funding_second_of(82_799), 86_399);
    assert_eq!(funding_second_of(82_800), 0);
    assert_eq!(funding_second_of(86_399), 3_599);
    assert_eq!(funding_second_of(u32::MAX), 26_895);
}
