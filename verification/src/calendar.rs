//! When the next funding cycle may start: one hour after the exchange
//! opens, on the first trading day that is at least a day after the last
//! funding.

use vstd::prelude::*;
use crate::time::Timestamp;

verus! {

/// The days of the trading calendar that are asked for at a time.
pub const CALENDAR_WINDOW_DAYS: i32 = 7;

/// The seconds between the opening of the exchange and the funding.
pub const OPEN_DELAY_SECONDS: u32 = 3_600;

/// The first second, counted from the start of 1970, that a calendar day is
/// sought for.
pub const FIRST_CALENDAR_SECOND: i64 = -8_000_000_000_000;

/// The last second that a calendar day is sought for.
pub const LAST_CALENDAR_SECOND: i64 = 8_000_000_000_000;

/// The first day, counted from the first of January of the year 1 as day 1,
/// that an instant is sought for.
pub const FIRST_CALENDAR_DAY: i32 = -90_000_000;

/// The last day that an instant is sought for.
pub const LAST_CALENDAR_DAY: i32 = 90_000_000;

/// The calendar day on the clock of the exchange, counted from the first of
/// January of the year 1 as day 1, at the instant `secs` seconds and
/// `nanos` nanoseconds after the start of 1970.
pub uninterp spec fn exchange_day_of(secs: i64, nanos: u32) -> i32;

/// The instant at which the clock of the exchange shows `second` seconds
/// and `nanos` nanoseconds after midnight of `day`, as seconds and
/// nanoseconds after the start of 1970; none where that clock skips this
/// time of day or shows it twice.
pub uninterp spec fn exchange_instant_of(day: i32, second: u32, nanos: u32) -> Option<(i64, u32)>;

/// The instant can be placed on the calendar of the exchange.
pub open spec fn on_calendar(at: Timestamp) -> bool {
    &&& FIRST_CALENDAR_SECOND <= at.secs <= LAST_CALENDAR_SECOND
    &&& at.nanos < 1_000_000_000
}

/// `chrono::DateTime::from_timestamp`, `with_timezone` to
/// `chrono_tz::US::Eastern`, `date_naive` and `num_days_from_ce`: the date
/// that Eastern time shows at the instant, as a day number. The range asked
/// of `secs` lies a day and more inside the one in which chrono builds the
/// instant and its local time; the day number is named, not computed here.
#[verifier::external_body]
fn exchange_day(secs: i64, nanos: u32) -> (day: i32)
    requires
        FIRST_CALENDAR_SECOND <= secs <= LAST_CALENDAR_SECOND,
        nanos < 1_000_000_000,
    ensures
        day == exchange_day_of(secs, nanos),
{
    let utc = chrono::DateTime::<chrono::Utc>::from_timestamp(secs, nanos).unwrap();
    let local = utc.with_timezone(&chrono_tz::US::Eastern);
    chrono::Datelike::num_days_from_ce(&local.date_naive())
}

/// `chrono::TimeZone::from_local_datetime` on `chrono_tz::US::Eastern`, for
/// the date with this day number and the time this many seconds and
/// nanoseconds after midnight: the one instant at which Eastern time shows
/// that date and time, and none where it shows them never or twice. The
/// day and the time of day are asked to be ones that chrono can build. The
/// instant is named, not computed here.
#[verifier::external_body]
fn exchange_instant(day: i32, second: u32, nanos: u32) -> (at: Option<Timestamp>)
    requires
        FIRST_CALENDAR_DAY <= day <= LAST_CALENDAR_DAY,
        second < 86_400,
        nanos < 1_000_000_000,
    ensures
        at == instant_at(exchange_instant_of(day, second, nanos)),
{
    let date = chrono::NaiveDate::from_num_days_from_ce_opt(day).unwrap();
    let time = chrono::NaiveTime::from_num_seconds_from_midnight_opt(second, nanos).unwrap();
    let local = date.and_time(time);
    match chrono::TimeZone::from_local_datetime(&chrono_tz::US::Eastern, &local) {
        chrono::offset::LocalResult::Single(at) => Some(
            Timestamp { secs: at.timestamp(), nanos: at.timestamp_subsec_nanos() },
        ),
        chrono::offset::LocalResult::Ambiguous(_, _) => None,
        chrono::offset::LocalResult::None => None,
    }
}

/// The earliest instant at which the next cycle may start: `now`, or a day
/// after the last funding where that is later. None where the clock cannot
/// hold the day after the last funding.
pub fn earliest_next_trading(now: Timestamp, last_funding_date: Option<Timestamp>) -> (r: Option<
    Timestamp,
>)
    ensures
        r == match last_funding_date {
            None => Some(now),
            Some(last) => match last.shifted(1) {
                Some(next) => Some(now.later(next)),
                None => None,
            },
        },
{
    match last_funding_date {
        None => Some(now),
        Some(last) => match last.plus_days(1) {
            Some(next) => Some(now.later_of(next)),
            None => None,
        },
    }
}

/// The days of the trading calendar to ask for when the first of them is
/// `start`: that day, and the day a week later. None where the week ends
/// beyond the last day number.
pub open spec fn window_of(start: i32) -> Option<(i32, i32)> {
    if start + CALENDAR_WINDOW_DAYS <= i32::MAX {
        Some((start, (start + CALENDAR_WINDOW_DAYS) as i32))
    } else {
        None
    }
}

/// The days of the trading calendar to ask for when the first of them is
/// `start`.
pub fn window_from(start: i32) -> (r: Option<(i32, i32)>)
    ensures
        r == window_of(start),
{
    match start.checked_add(CALENDAR_WINDOW_DAYS) {
        Some(end) => Some((start, end)),
        None => None,
    }
}

/// The days of the trading calendar to ask for: from the day that the
/// exchange has at `earliest`, and the day a week later. None where
/// `earliest` cannot be placed on the calendar.
pub fn calendar_window(earliest: &Timestamp) -> (r: Option<(i32, i32)>)
    ensures
        r == if on_calendar(*earliest) {
            window_of(exchange_day_of(earliest.secs, earliest.nanos))
        } else {
            None
        },
{
    if earliest.secs < FIRST_CALENDAR_SECOND || earliest.secs > LAST_CALENDAR_SECOND
        || earliest.nanos >= 1_000_000_000 {
        return None;
    }
    window_from(exchange_day(earliest.secs, earliest.nanos))
}

/// The time of day of the funding, in seconds after midnight, on a day on
/// which the exchange opens `open_second` seconds after midnight: an hour
/// later, counted round the clock.
pub open spec fn funding_second(open_second: u32) -> u32 {
    ((open_second + OPEN_DELAY_SECONDS) % 86_400) as u32
}

/// The time of day of the funding, in seconds after midnight, on a day on
/// which the exchange opens `open_second` seconds after midnight.
pub fn funding_second_of(open_second: u32) -> (r: u32)
    ensures
        r == funding_second(open_second),
        r < 86_400,
{
    let later: u64 = (open_second as u64) + (OPEN_DELAY_SECONDS as u64);
    (later % 86_400) as u32
}

/// A session can be placed on the clock of the exchange.
pub open spec fn is_session(day: i32, open_second: u32, open_nanos: u32) -> bool {
    &&& FIRST_CALENDAR_DAY <= day <= LAST_CALENDAR_DAY
    &&& open_second < 86_400
    &&& open_nanos < 1_000_000_000
}

/// The instant that seconds and nanoseconds after the start of 1970 make.
pub open spec fn instant_at(parts: Option<(i64, u32)>) -> Option<Timestamp> {
    match parts {
        Some((secs, nanos)) => Some(Timestamp { secs, nanos }),
        None => None,
    }
}

/// The instant of the funding on the trading day `day`, on which the
/// exchange opens `open_second` seconds and `open_nanos` nanoseconds after
/// midnight: an hour after the opening, on the clock of the exchange. None
/// where the session cannot be placed on that clock, or where the clock
/// skips that time of day or shows it twice.
pub fn session_funding_time(day: i32, open_second: u32, open_nanos: u32) -> (r: Option<Timestamp>)
    ensures
        r == if is_session(day, open_second, open_nanos) {
            instant_at(exchange_instant_of(day, funding_second(open_second), open_nanos))
        } else {
            None
        },
{
    if day < FIRST_CALENDAR_DAY || day > LAST_CALENDAR_DAY || open_second >= 86_400 || open_nanos
        >= 1_000_000_000 {
        return None;
    }
    exchange_instant(day, funding_second_of(open_second), open_nanos)
}

} // verus!
