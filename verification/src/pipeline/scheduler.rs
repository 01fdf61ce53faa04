//! Time windows: downloads wait outside the hours in which they may run.

use crate::clock::{LAST_SECOND, present};
use crate::types::{AppSettings, DownloadEntry, ScheduleWindow};
use chrono::{DateTime, Local, NaiveTime, TimeZone, Timelike};
use vstd::prelude::*;

verus! {

/// How many seconds pass between two looks at the schedule.
pub const SCHEDULE_POLL_SECS: u64 = 60;

/// How many seconds a day has.
pub const DAY_SECS: u32 = 86_400;

/// The seconds from midnight to a time of day; none where the hour, the minute or the second is not
/// one of a clock.
pub open spec fn clock(hour: int, min: int, sec: int) -> Option<int> {
    if 0 <= hour < 24 && 0 <= min < 60 && 0 <= sec < 60 {
        Some(hour * 3600 + min * 60 + sec)
    } else {
        None
    }
}

/// `NaiveTime::from_hms_opt` gives the time of day with that hour, minute and second, and nothing
/// where one of them is out of range; the time is handed on as its seconds from midnight.
#[verifier::external_body]
fn clock_seconds(hour: u32, min: u32, sec: u32) -> (res: Option<u32>)
    ensures
        match res {
            Some(s) => clock(hour as int, min as int, sec as int) == Some(s as int),
            None => clock(hour as int, min as int, sec as int) is None,
        },
{
    NaiveTime::from_hms_opt(hour, min, sec).map(|t| t.num_seconds_from_midnight())
}

/// `Local.timestamp_opt` gives the local time at so many seconds since 1970, exactly one for a second
/// of the calendar; its time of day is handed on as whole seconds from midnight. Which second that is
/// depends on the time zone of the machine, so that only the range is stated. The zone is that of
/// the system, or UTC where none can be read; data of a zone that name no local time for the second
/// make the call panic, which no argument can rule out.
#[verifier::external_body]
fn local_seconds_at(secs: i64) -> (res: u32)
    requires
        0 <= secs <= LAST_SECOND,
    ensures
        res < DAY_SECS,
{
    Local.timestamp_opt(secs, 0).unwrap().time().num_seconds_from_midnight()
}

/// The instant that a timestamp of RFC 3339 names: seconds since 1970-01-01T00:00:00Z and
/// nanoseconds.
pub uninterp spec fn rfc3339_instant(ts: Seq<char>) -> Option<(i64, u32)>;

/// `DateTime::parse_from_rfc3339` reads a timestamp; what it reads depends on the text alone. The
/// instant is handed on as its seconds and nanoseconds in UTC, an error as nothing.
#[verifier::external_body]
fn parse_instant(ts: &str) -> (res: Option<(i64, u32)>)
    ensures
        res == rfc3339_instant(ts@),
{
    DateTime::parse_from_rfc3339(ts).ok().map(|d| (d.timestamp(), d.timestamp_subsec_nanos()))
}

/// The second at which a window opens; midnight where its start is not a time of day.
pub open spec fn opens_at(w: ScheduleWindow) -> int {
    match clock(w.start_hour as int, w.start_minute as int, 0) {
        Some(s) => s,
        None => 0,
    }
}

/// The second at which a window closes, the first that is outside of it; the last second of the day
/// where its end is not a time of day.
pub open spec fn closes_at(w: ScheduleWindow) -> int {
    match clock(w.end_hour as int, w.end_minute as int, 0) {
        Some(s) => s,
        None => DAY_SECS - 1,
    }
}

/// The second of the day lies in the window, which may reach over midnight.
pub open spec fn in_window(w: ScheduleWindow, now: int) -> bool {
    if opens_at(w) <= closes_at(w) {
        opens_at(w) <= now < closes_at(w)
    } else {
        opens_at(w) <= now || now < closes_at(w)
    }
}

/// Downloads may run at that second of the day: there is no window, or it lies in one.
pub open spec fn allowed_at(windows: Seq<ScheduleWindow>, now: int) -> bool {
    windows.len() == 0 || exists|i: int| 0 <= i < windows.len() && in_window(#[trigger] windows[i], now)
}

/// Whether the second of the day lies in the window.
fn window_holds(w: &ScheduleWindow, now: u32) -> (res: bool)
    ensures
        res == in_window(*w, now as int),
{
    let start: u32 = match clock_seconds(w.start_hour as u32, w.start_minute as u32, 0) {
        Some(s) => s,
        None => 0,
    };
    let end: u32 = match clock_seconds(w.end_hour as u32, w.end_minute as u32, 0) {
        Some(s) => s,
        None => DAY_SECS - 1,
    };
    if start <= end {
        now >= start && now < end
    } else {
        now >= start || now < end
    }
}

/// Whether downloads may run at that second of the day.
pub fn is_allowed_at(settings: &AppSettings, now: u32) -> (res: bool)
    ensures
        res == allowed_at(settings.schedule_windows@, now as int),
{
    if settings.schedule_windows.len() == 0 {
        return true;
    }
    let mut i: usize = 0;
    while i < settings.schedule_windows.len()
        invariant
            i <= settings.schedule_windows@.len(),
            forall|k: int|
                0 <= k < i ==> !in_window(#[trigger] settings.schedule_windows@[k], now as int),
        decreases settings.schedule_windows@.len() - i,
    {
        if window_holds(&settings.schedule_windows[i], now) {
            assert(in_window(settings.schedule_windows@[i as int], now as int));
            return true;
        }
        i = i + 1;
    }
    false
}

/// Whether downloads may run now.
pub fn is_within_schedule(settings: &AppSettings) -> (res: bool)
    ensures
        settings.schedule_windows@.len() == 0 ==> res,
        exists|now: int|
            0 <= now < DAY_SECS && res == #[trigger] allowed_at(settings.schedule_windows@, now),
{
    let now = local_seconds_at(present().0);
    is_allowed_at(settings, now)
}

/// How long to wait until the next look at the schedule, where downloads may run or not.
pub fn wait_for(allowed: bool) -> (res: Option<u64>)
    ensures
        res == if allowed {
            None
        } else {
            Some(SCHEDULE_POLL_SECS)
        },
{
    if allowed {
        None
    } else {
        Some(SCHEDULE_POLL_SECS)
    }
}

/// How many seconds to wait before downloads may run: none where they may run now.
pub fn next_schedule_wait(settings: &AppSettings) -> (res: Option<u64>)
    ensures
        settings.schedule_windows@.len() == 0 ==> res is None,
        exists|now: int|
            0 <= now < DAY_SECS && res == if #[trigger] allowed_at(
                settings.schedule_windows@,
                now,
            ) {
                None
            } else {
                Some(SCHEDULE_POLL_SECS)
            },
{
    wait_for(is_within_schedule(settings))
}

/// An instant is not later than another.
pub open spec fn not_later(a: (i64, u32), b: (i64, u32)) -> bool {
    a.0 < b.0 || (a.0 == b.0 && a.1 <= b.1)
}

/// A download may start at an instant: it is not scheduled, its schedule cannot be read, or the
/// scheduled instant has come.
pub open spec fn ready_at(scheduled: Option<(i64, u32)>, now: (i64, u32)) -> bool {
    match scheduled {
        Some(t) => not_later(t, now),
        None => true,
    }
}

/// Whether a download that is scheduled for an instant may start at another.
pub fn is_ready_at(scheduled: Option<(i64, u32)>, now: (i64, u32)) -> (res: bool)
    ensures
        res == ready_at(scheduled, now),
{
    match scheduled {
        Some(t) => t.0 < now.0 || (t.0 == now.0 && t.1 <= now.1),
        None => true,
    }
}

/// The instant for which a download is scheduled.
pub open spec fn scheduled_instant(scheduled_at: Option<Seq<char>>) -> Option<(i64, u32)> {
    match scheduled_at {
        Some(ts) => rfc3339_instant(ts),
        None => None,
    }
}

/// The instant for which a download is scheduled; none where it is not, or where its schedule cannot
/// be read.
pub fn entry_instant(entry: &DownloadEntry) -> (res: Option<(i64, u32)>)
    ensures
        res == scheduled_instant(entry@.scheduled_at),
{
    match &entry.scheduled_at {
        Some(ts) => parse_instant(ts.as_str()),
        None => None,
    }
}

/// Whether a download may start now.
pub fn is_entry_ready(entry: &DownloadEntry) -> (res: bool)
    ensures
        scheduled_instant(entry@.scheduled_at) is None ==> res,
        exists|now: (i64, u32)|
            res == #[trigger] ready_at(scheduled_instant(entry@.scheduled_at), now),
{
    let now = present();
    is_ready_at(entry_instant(entry), now)
}

/// A window from some time to an earlier one reaches over midnight: it holds exactly the seconds
/// that the window from its end to its start leaves out.
pub proof fn law_overnight_window_is_the_rest_of_the_day(w: ScheduleWindow, now: int)
    requires
        closes_at(w) < opens_at(w),
    ensures
        in_window(w, now) <==> !(closes_at(w) <= now < opens_at(w)),
{
}

/// A download never stops being ready as time passes.
pub proof fn law_ready_stays_ready(
    scheduled: Option<(i64, u32)>,
    now: (i64, u32),
    later: (i64, u32),
)
    requires
        ready_at(scheduled, now),
        not_later(now, later),
    ensures
        ready_at(scheduled, later),
{
}

/// Another window never forbids a time at which downloads may run, where there was one before.
pub proof fn law_more_windows_allow_more(
    windows: Seq<ScheduleWindow>,
    extra: ScheduleWindow,
    now: int,
)
    requires
        windows.len() > 0,
        allowed_at(windows, now),
    ensures
        allowed_at(windows.push(extra), now),
{
    let i = choose|i: int| 0 <= i < windows.len() && in_window(#[trigger] windows[i], now);
    assert(windows.push(extra)[i] == windows[i]);
}

/// A window is open from the minute at which it starts up to, not including, the minute at which it
/// ends, over midnight where that is earlier.
pub proof fn law_windows_are_open_from_start_to_end(w: ScheduleWindow, now: int)
    requires
        w.start_hour < 24,
        w.start_minute < 60,
        w.end_hour < 24,
        w.end_minute < 60,
        0 <= now < 86_400,
    ensures
        ({
            let start = w.start_hour * 60 + w.start_minute;
            let end = w.end_hour * 60 + w.end_minute;
            let minute = now / 60;
            &&& start <= end ==> (in_window(w, now) <==> start <= minute < end)
            &&& start > end ==> (in_window(w, now) <==> start <= minute || minute < end)
        }),
{
}

/// A window whose start is no time of day starts at midnight, and one whose end is none ends with the
/// last second of the day.
pub proof fn law_windows_without_a_time_reach_to_midnight(w: ScheduleWindow, now: int)
    requires
        0 <= now < 86_400,
    ensures
        (w.start_hour >= 24 || w.start_minute >= 60) && w.end_hour < 24 && w.end_minute < 60
            ==> (in_window(w, now) <==> now < w.end_hour * 3600 + w.end_minute * 60),
        (w.end_hour >= 24 || w.end_minute >= 60) && w.start_hour < 24 && w.start_minute < 60
            ==> (in_window(w, now) <==> w.start_hour * 3600 + w.start_minute * 60 <= now < 86_399),
{
}

/// Downloads may run where there is no window, and else exactly at the times that lie in one.
pub proof fn law_one_open_window_is_enough(windows: Seq<ScheduleWindow>, now: int, i: int)
    ensures
        windows.len() == 0 ==> allowed_at(windows, now),
        0 <= i < windows.len() && in_window(windows[i], now) ==> allowed_at(windows, now),
        windows.len() > 0 && (forall|k: int|
            0 <= k < windows.len() ==> !in_window(#[trigger] windows[k], now)) ==> !allowed_at(
            windows,
            now,
        ),
{
}

/// A scheduled download is ready exactly from its instant on, to the nanosecond.
pub proof fn law_ready_from_the_instant_on(at: (i64, u32), now: (i64, u32))
    requires
        at.1 < 1_000_000_000,
        now.1 < 1_000_000_000,
    ensures
        ready_at(Some(at), now) <==> at.0 * 1_000_000_000 + at.1 <= now.0 * 1_000_000_000 + now.1,
        ready_at(None, now),
{
}

} // verus!
