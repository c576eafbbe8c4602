//! When runs took place, in local time.

use crate::persistence::{HistoryEntry, HistoryModel};
use crate::text;
use crate::text::{decimal, Text};
use crate::tui::style::Panel;
use crate::tui::view;
use crate::tui::view::{history_panel_with, SHOWN_RUNS};
use chrono::TimeZone;
use vstd::prelude::*;

verus! {

/// How the time of a run is written: month and day, hour and minute.
pub const HISTORY_TIME_FORMAT: &'static str = "%m-%d %H:%M";

/// The last second of the year 9999.
pub const LAST_COMMON_SECOND: i64 = 253_402_300_799;

/// A number below one hundred with two digits.
pub open spec fn two_digits(n: nat) -> Text {
    seq![text::digit_char(n / 10), text::digit_char(n % 10)]
}

/// A time written as month and day, hour and minute.
pub open spec fn minute_text(month: nat, day: nat, hour: nat, minute: nat) -> Text {
    two_digits(month) + seq!['-'] + two_digits(day) + seq![' '] + two_digits(hour) + seq![':']
        + two_digits(minute)
}

/// The days from the start of 1970 to a day of the Gregorian calendar. Years are
/// counted from March, so that a leap day is the last of its year.
pub open spec fn days_to(year: int, month: int, day: int) -> int {
    let y = if month <= 2 {
        year - 1
    } else {
        year
    };
    let era = y / 400;
    let of_era = y - era * 400;
    let of_year = (153 * (if month > 2 {
        month - 3
    } else {
        month + 9
    }) + 2) / 5 + day - 1;
    era * 146097 + of_era * 365 + of_era / 4 - of_era / 100 + of_year - 719468
}

/// How many days a month of the Gregorian calendar has.
pub open spec fn days_in(year: int, month: int) -> int {
    if month == 2 {
        if year % 4 == 0 && (year % 100 != 0 || year % 400 == 0) {
            29
        } else {
            28
        }
    } else if month == 4 || month == 6 || month == 9 || month == 11 {
        30
    } else {
        31
    }
}

/// At this many seconds after the start of 1970, clocks that are this many
/// seconds ahead of universal time show this minute.
pub open spec fn at_minute(
    secs: int,
    offset: int,
    year: int,
    month: nat,
    day: nat,
    hour: nat,
    minute: nat,
) -> bool {
    let start = days_to(year, month as int, day as int) * 86_400 + hour * 3_600 + minute * 60;
    &&& -86_400 < offset < 86_400
    &&& 1 <= month <= 12
    &&& 1 <= day <= days_in(year, month as int)
    &&& hour <= 23
    &&& minute <= 59
    &&& start <= secs + offset < start + 60
}

/// The text is the minute that clocks show at this many seconds after the start
/// of 1970 in some time zone, which is less than a day ahead of or behind
/// universal time.
pub open spec fn shows_instant(text: Text, secs: int) -> bool {
    exists|offset: int, year: int, month: nat, day: nat, hour: nat, minute: nat| #[trigger]
        at_minute(secs, offset, year, month, day, hour, minute) && text == minute_text(
            month,
            day,
            hour,
            minute,
        )
}

/// Calls `chrono::TimeZone::timestamp_opt` on `chrono::Local` and then
/// `chrono::DateTime::format`: the local time at this many seconds after the
/// start of 1970, written as month and day, hour and minute, or nothing where
/// that is beyond the times that can be represented. All times from 1970 to 9999
/// can be. The offset of local time is less than a day; which it is depends on
/// the time zone of the machine, so no more is claimed of it.
#[verifier::external_body]
fn local_time(secs: i64, format: &str) -> (res: Option<String>)
    requires
        format@ == HISTORY_TIME_FORMAT@,
    ensures
        res matches Some(text) ==> shows_instant(text@, secs as int),
        0 <= secs <= LAST_COMMON_SECOND ==> res is Some,
{
    chrono::Local.timestamp_opt(secs, 0).single().map(|time| time.format(format).to_string())
}

/// The label of a time: its local time, or else its seconds.
pub open spec fn time_label(local: Option<Text>, secs: u64) -> Text {
    match local {
        Some(label) => label,
        None => text::decimal_text(secs as nat),
    }
}

/// The label of a time: its local time, or else its seconds.
pub fn label_or_seconds(local: Option<String>, secs: u64) -> (res: String)
    ensures
        res@ == time_label(local.deep_view(), secs),
{
    match local {
        Some(label) => label,
        None => decimal(secs),
    }
}

/// The text can label this time: it is the minute of that time in some time zone,
/// or, where the time is beyond the year 9999, possibly its seconds. Seconds are
/// taken as a signed number of the same width.
pub open spec fn labels_time(text: Text, secs: u64) -> bool {
    ||| shows_instant(text, (secs as i64) as int)
    ||| secs > LAST_COMMON_SECOND && text == text::decimal_text(secs as nat)
}

/// When a run took place, in local time. Whatever the time zone, it is the minute
/// of the start of that run.
pub fn format_history_time(entry: &HistoryEntry) -> (res: String)
    ensures
        labels_time(res@, entry@.started_at_unix_secs),
{
    let secs: u64 = entry.started_at_unix_secs;
    let signed: i64 = #[verifier::truncate] (secs as i64);
    label_or_seconds(local_time(signed, HISTORY_TIME_FORMAT), secs)
}

/// These label the times of the latest runs of a history, the latest first.
pub open spec fn label_latest(times: Seq<Text>, history: Seq<HistoryModel>) -> bool {
    &&& times.len() == view::shown_runs(history)
    &&& forall|k: int|
        0 <= k < times.len() ==> labels_time(
            #[trigger] times[k],
            history[history.len() - 1 - k].started_at_unix_secs,
        )
}

/// The history panel: the latest runs with their local times. Whatever the time
/// zone, it is the panel with labels for the times of those runs.
pub fn render_history_panel(history: &Vec<HistoryEntry>) -> (res: Panel)
    ensures
        exists|times: Seq<Text>| #[trigger]
            label_latest(times, history.deep_view()) && res@ == view::history_shown(
                history.deep_view(),
                times,
            ),
{
    let ghost all = history.deep_view();
    let count: usize = if history.len() < SHOWN_RUNS {
        history.len()
    } else {
        SHOWN_RUNS
    };
    let mut times: Vec<String> = Vec::new();
    let mut k: usize = 0;
    while k < count
        invariant
            k <= count <= history.len(),
            all == history.deep_view(),
            times.len() == k,
            forall|j: int|
                0 <= j < k ==> labels_time(
                    #[trigger] times.deep_view()[j],
                    all[all.len() - 1 - j].started_at_unix_secs,
                ),
        decreases count - k,
    {
        let position: usize = history.len() - 1 - k;
        let label = format_history_time(&history[position]);
        let ghost before = times.deep_view();
        let ghost content = label@;
        times.push(label);
        assert(times.deep_view() =~= before.push(content));
        k += 1;
    }
    let res = history_panel_with(history, &times);
    assert(label_latest(times.deep_view(), all));
    res
}

} // verus!
