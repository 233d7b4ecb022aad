//! The daily record: building it, deciding when to remind, counting worked
//! time, and the text of the reminder notification.

use vstd::prelude::*;
use crate::clock::{
    Date, Time, TimeView, MAX_DELTA_MINUTES, chrono_format_date, chrono_format_time, elapsed,
    hm_text, hms_text, instant, shifted, ymd_text,
};
use crate::config::{Config, SearchConfig, TimeAccountingConfig};
use crate::schedule::{
    closest_in, estimated_end, latest_in, latest_in_window, log_event_times, log_events,
    matching_rule_applicable, no_rule_message, select_wake_event, time_opt, try_estimate_end_time,
};
use crate::text::{escaped, escape_applescript, push_signed_decimal, signed_decimal, string_of};

verus! {

broadcast use vstd::string::group_string_axioms;

/// What is known of one day: when the display first came on, the estimated
/// end of the workday, the reminder state and, once known, when the display
/// last went off and how long was worked.
#[derive(Clone, Debug, PartialEq, Eq)]
pub struct DailyRecord {
    pub date: Date,
    pub wake_time: Time,
    pub estimated_end_time: Time,
    pub source: String,
    pub reminder_minutes: i64,
    pub reminder_sent: bool,
    pub reminder_sent_at: Option<String>,
    pub display_off_time: Option<Time>,
    pub work_minutes: Option<i64>,
}

/// Whether `previous` is a record with the same wake and end times.
pub open spec fn same_estimate(previous: Option<DailyRecord>, wake: TimeView, end: TimeView) -> bool {
    previous matches Some(p) && p.wake_time@ == wake && p.estimated_end_time@ == end
}

/// Builds the record of `date`.  The reminder state of `previous` is kept only
/// when its wake and end times are the same as the new ones; otherwise the
/// reminder is pending again.
pub fn build_record(
    date: Date,
    wake_time: Time,
    end_time: Time,
    reminder_minutes: i64,
    previous: Option<DailyRecord>,
) -> (r: DailyRecord)
    ensures
        r.date == date,
        r.wake_time == wake_time,
        r.estimated_end_time == end_time,
        r.source@ == "pmset: Display is turned on"@,
        r.reminder_minutes == reminder_minutes,
        r.reminder_sent == (same_estimate(previous, wake_time@, end_time@)
            && previous->0.reminder_sent),
        r.reminder_sent_at == if same_estimate(previous, wake_time@, end_time@) {
            previous->0.reminder_sent_at
        } else {
            None
        },
        r.display_off_time is None,
        r.work_minutes is None,
{
    let (sent, sent_at) = match previous {
        Some(p) => {
            proof {
                Time::lemma_view_injective(p.wake_time, wake_time);
                Time::lemma_view_injective(p.estimated_end_time, end_time);
            }
            if p.wake_time == wake_time && p.estimated_end_time == end_time {
                (p.reminder_sent, p.reminder_sent_at)
            } else {
                (false, None)
            }
        },
        None => (false, None),
    };
    DailyRecord {
        date,
        wake_time,
        estimated_end_time: end_time,
        source: String::from_str("pmset: Display is turned on"),
        reminder_minutes,
        reminder_sent: sent,
        reminder_sent_at: sent_at,
        display_off_time: None,
        work_minutes: None,
    }
}

/// When the reminder of `record` falls due: `reminder_minutes` before the
/// estimated end, wrapping around midnight.
pub open spec fn reminder_time(record: DailyRecord) -> TimeView {
    shifted(record.estimated_end_time@, -(record.reminder_minutes * 60))
}

/// Whether a reminder that can be computed lies within time-delta bounds.
pub open spec fn reminder_in_bounds(record: DailyRecord) -> bool {
    -MAX_DELTA_MINUTES <= record.reminder_minutes <= MAX_DELTA_MINUTES
}

/// Whether the reminder is due at `now`: not sent yet, and `now` lies from the
/// reminder time up to (not including) the estimated end.
pub open spec fn reminder_due(record: DailyRecord, now: TimeView) -> bool {
    &&& !record.reminder_sent
    &&& instant(reminder_time(record)) <= instant(now)
    &&& instant(now) < instant(record.estimated_end_time@)
}

fn compute_reminder_time(record: &DailyRecord) -> (r: Time)
    requires
        reminder_in_bounds(*record),
    ensures
        r@ == reminder_time(*record),
{
    let r = record.estimated_end_time.add_minutes_wrapping(-record.reminder_minutes);
    assert(-record.reminder_minutes * 60 == -(record.reminder_minutes * 60));
    r
}

/// Whether the reminder of `record` is due at `now`.
pub fn should_remind(record: &DailyRecord, now: Time) -> (r: bool)
    requires
        !record.reminder_sent ==> reminder_in_bounds(*record),
    ensures
        r == reminder_due(*record, now@),
{
    if record.reminder_sent {
        return false;
    }
    let reminder = compute_reminder_time(record);
    !now.is_before(reminder) && now.is_before(record.estimated_end_time)
}

/// What checking the reminder of a day found.
#[derive(Clone, Copy, Debug, PartialEq, Eq, Structural)]
pub enum ReminderOutcome {
    /// The reminder is due: it is to be sent now.
    Sent,
    /// The reminder was sent before.
    AlreadySent,
    /// The reminder falls due later, at `reminder_time`.
    NotDue { reminder_time: Time },
    /// The estimated end time has passed.
    EndTimePassed,
}

/// Decides what to do about the reminder of `record` at `now`: nothing if it
/// was sent or the end time has passed, wait if it is not due yet, else send.
pub fn reminder_outcome(record: &DailyRecord, now: Time) -> (r: ReminderOutcome)
    requires
        !record.reminder_sent && instant(now@) < instant(record.estimated_end_time@)
            ==> reminder_in_bounds(*record),
    ensures
        record.reminder_sent ==> r == ReminderOutcome::AlreadySent,
        !record.reminder_sent && instant(now@) >= instant(record.estimated_end_time@) ==> r
            == ReminderOutcome::EndTimePassed,
        !record.reminder_sent && instant(now@) < instant(record.estimated_end_time@) && instant(now@)
            < instant(reminder_time(*record)) ==> (r matches ReminderOutcome::NotDue {
            reminder_time: t,
        } && t@ == reminder_time(*record)),
        (r == ReminderOutcome::Sent) == sends_reminder(*record, now@),
{
    if record.reminder_sent {
        return ReminderOutcome::AlreadySent;
    }
    if !now.is_before(record.estimated_end_time) {
        return ReminderOutcome::EndTimePassed;
    }
    let reminder = compute_reminder_time(record);
    if now.is_before(reminder) {
        return ReminderOutcome::NotDue { reminder_time: reminder };
    }
    ReminderOutcome::Sent
}

/// The record after its reminder was sent at `sent_at`.
pub fn mark_reminder_sent(record: DailyRecord, sent_at: String) -> (r: DailyRecord)
    ensures
        r.reminder_sent,
        r.reminder_sent_at == Some(sent_at),
        r.date == record.date,
        r.wake_time == record.wake_time,
        r.estimated_end_time == record.estimated_end_time,
        r.source == record.source,
        r.reminder_minutes == record.reminder_minutes,
        r.display_off_time == record.display_off_time,
        r.work_minutes == record.work_minutes,
{
    DailyRecord { reminder_sent: true, reminder_sent_at: Some(sent_at), ..record }
}

/// The later of two times of day.
pub open spec fn later_of(a: TimeView, b: TimeView) -> TimeView {
    if instant(a) >= instant(b) {
        a
    } else {
        b
    }
}

/// The earlier of two times of day.
pub open spec fn earlier_of(a: TimeView, b: TimeView) -> TimeView {
    if instant(a) <= instant(b) {
        a
    } else {
        b
    }
}

/// The seconds that the span from `wake` to `display_off` shares with the
/// break.
pub open spec fn break_overlap(wake: TimeView, display_off: TimeView, accounting: TimeAccountingConfig) -> int {
    let lo = later_of(wake, accounting.break_start@);
    let hi = earlier_of(display_off, accounting.break_end@);
    if instant(hi) > instant(lo) {
        elapsed(hi, lo)
    } else {
        0
    }
}

/// Whole minutes worked between `wake` and `display_off`, leaving out the
/// part of the break that falls between them; none when the display went off
/// no later than it came on.
pub open spec fn worked_minutes(wake: TimeView, display_off: TimeView, accounting: TimeAccountingConfig) -> int {
    if instant(display_off) > instant(wake) {
        (elapsed(display_off, wake) - break_overlap(wake, display_off, accounting)) / 60
    } else {
        0
    }
}

/// The whole minutes worked between `wake` and `display_off`, less the
/// overlapping break.
pub fn work_minutes(wake: Time, display_off: Time, accounting: &TimeAccountingConfig) -> (r: i64)
    ensures
        r == worked_minutes(wake@, display_off@, *accounting),
        0 <= r,
        instant(display_off@) > instant(wake@) ==> r <= elapsed(display_off@, wake@) / 60,
{
    if !wake.is_before(display_off) {
        return 0;
    }
    let span = display_off.seconds_since(wake);
    let lo = if wake.is_before(accounting.break_start) {
        accounting.break_start
    } else {
        wake
    };
    let hi = display_off.earliest(accounting.break_end);
    let overlap: i64 = if lo.is_before(hi) {
        hi.seconds_since(lo)
    } else {
        0
    };
    (span - overlap) / 60
}

/// The record with its display-off time set, and the minutes worked counted
/// when that time is known.
pub fn finalize_record(
    record: DailyRecord,
    display_off: Option<Time>,
    accounting: &TimeAccountingConfig,
) -> (r: DailyRecord)
    ensures
        r.display_off_time == display_off,
        r.work_minutes == match display_off {
            Some(off) => Some(worked_minutes(record.wake_time@, off@, *accounting) as i64),
            None => None::<i64>,
        },
        r.date == record.date,
        r.wake_time == record.wake_time,
        r.estimated_end_time == record.estimated_end_time,
        r.source == record.source,
        r.reminder_minutes == record.reminder_minutes,
        r.reminder_sent == record.reminder_sent,
        r.reminder_sent_at == record.reminder_sent_at,
{
    let minutes = match display_off {
        Some(off) => Some(work_minutes(record.wake_time, off, accounting)),
        None => None,
    };
    DailyRecord { display_off_time: display_off, work_minutes: minutes, ..record }
}

/// The display-off time of `date`: the latest "Display is turned off" event of
/// that day within the reasonable end window.
pub fn select_display_off_event(log: &str, date: Date, accounting: &TimeAccountingConfig) -> (r:
    Option<Time>)
    ensures
        time_opt(r) == latest_in(
            log_event_times(log@, date@, "Display is turned off"@),
            accounting.reasonable_end_start@,
            accounting.reasonable_end_end@,
        ),
{
    let times = log_events(log, date, "Display is turned off");
    latest_in_window(&times, accounting.reasonable_end_start, accounting.reasonable_end_end)
}

/// The text of the reminder for `record`.
pub open spec fn reminder_message(record: DailyRecord) -> Seq<char> {
    "预计 "@ + hm_text(record.estimated_end_time@.0) + " 下班，还有 "@ + signed_decimal(
        record.reminder_minutes as int,
    ) + " 分钟。今日亮屏打卡约 "@ + hm_text(record.wake_time@.0) + "。"@
}

/// The reminder text: the estimated end time, the minutes left and the wake
/// time.
pub fn notification_message(record: &DailyRecord) -> (r: String)
    ensures
        r@ == reminder_message(*record),
{
    let mut minutes: Vec<char> = Vec::new();
    push_signed_decimal(&mut minutes, record.reminder_minutes);
    let mut message = String::from_str("预计 ");
    message.append(chrono_format_time(record.estimated_end_time, "%H:%M").as_str());
    message.append(" 下班，还有 ");
    message.append(string_of(&minutes).as_str());
    message.append(" 分钟。今日亮屏打卡约 ");
    message.append(chrono_format_time(record.wake_time, "%H:%M").as_str());
    message.append("。");
    message
}

/// The AppleScript that shows `message` as a notification titled `title`.
pub open spec fn notification_source(message: Seq<char>, title: Seq<char>) -> Seq<char> {
    "display notification \""@ + escaped(message) + "\" with title \""@ + title + "\""@
}

/// The AppleScript that shows `message`, escaped, as a notification titled
/// `title`.
pub fn notification_script(message: &str, title: &str) -> (r: String)
    ensures
        r@ == notification_source(message@, title@),
{
    let mut script = String::from_str("display notification \"");
    script.append(escape_applescript(message).as_str());
    script.append("\" with title \"");
    script.append(title);
    script.append("\"");
    script
}

/// The file name of the record of `date`: `YYYY-MM-DD.json`.
pub fn record_file_name(date: Date) -> (r: String)
    ensures
        r@ == ymd_text(date@) + ".json"@,
{
    let mut name = chrono_format_date(date, "%Y-%m-%d");
    name.append(".json");
    name
}


/// Whether the record of a past day still waits for its display-off time,
/// and so is to be finished from the log.
pub fn awaits_display_off(record: &DailyRecord) -> (r: bool)
    ensures
        r == (record.display_off_time is None),
{
    record.display_off_time.is_none()
}

/// Whether recording keeps the record found for the day instead of making a
/// new one: it does unless forced.
pub fn keeps_existing_record(force: bool, previous: &Option<DailyRecord>) -> (r: bool)
    ensures
        r == (!force && previous is Some),
{
    !force && previous.is_some()
}

/// The message when the log holds no wake event in the search window.
pub open spec fn no_wake_message(search: SearchConfig, date: (int, int, int)) -> Seq<char> {
    "no display-on event found between "@ + hms_text(search.start_time@) + " and "@ + hms_text(
        search.end_time@,
    ) + " on "@ + ymd_text(date)
}

/// The wake time that the log gives for `date` under `search`.
pub open spec fn log_wake(log: Seq<char>, date: (int, int, int), search: SearchConfig) -> Option<
    TimeView,
> {
    closest_in(
        log_event_times(log, date, "Display is turned on"@),
        search.start_time@,
        search.end_time@,
        search.target_time@,
    )
}

/// Makes the record of `date` from the power log: the wake event closest to
/// the target time within the search window, the end time the schedule gives
/// for it, and the reminder state of `previous` where it still applies.
/// `None` where the schedule rule that matches the wake time cannot be applied.
pub fn record_from_log(log: &str, date: Date, config: &Config, previous: Option<DailyRecord>) -> (r:
    Option<Result<DailyRecord, String>>)
    ensures
        match log_wake(log@, date@, config.search) {
            None => r matches Some(Err(e)) && e@ == no_wake_message(config.search, date@),
            Some(wake) => if !matching_rule_applicable(config.schedule, wake) {
                r is None
            } else {
                match estimated_end(config.schedule, wake) {
                    None => r matches Some(Err(e)) && e@ == no_rule_message(wake),
                    Some(end) => r matches Some(Ok(record)) && {
                        &&& record.date == date
                        &&& record.wake_time@ == wake
                        &&& record.estimated_end_time@ == end
                        &&& record.source@ == "pmset: Display is turned on"@
                        &&& record.reminder_minutes == config.schedule.reminder_minutes
                        &&& record.reminder_sent == (same_estimate(previous, wake, end)
                            && previous->0.reminder_sent)
                        &&& record.reminder_sent_at == if same_estimate(previous, wake, end) {
                            previous->0.reminder_sent_at
                        } else {
                            None
                        }
                        &&& record.display_off_time is None
                        &&& record.work_minutes is None
                    },
                }
            },
        },
{
    let wake = match select_wake_event(log, date, &config.search) {
        Some(w) => w,
        None => {
            let mut message = String::from_str("no display-on event found between ");
            message.append(chrono_format_time(config.search.start_time, "%H:%M:%S").as_str());
            message.append(" and ");
            message.append(chrono_format_time(config.search.end_time, "%H:%M:%S").as_str());
            message.append(" on ");
            message.append(chrono_format_date(date, "%Y-%m-%d").as_str());
            return Some(Err(message));
        },
    };
    match try_estimate_end_time(wake, &config.schedule) {
        None => None,
        Some(Err(e)) => Some(Err(e)),
        Some(Ok(end)) => Some(
            Ok(build_record(date, wake, end, config.schedule.reminder_minutes, previous)),
        ),
    }
}

/// A rebuilt record keeps the reminder state of the previous one only when
/// there was one with the same wake time and the same end time; when either
/// time moved, or there was none, its reminder is pending again.
pub proof fn law_reminder_kept_only_when_unchanged(
    previous: Option<DailyRecord>,
    wake: TimeView,
    end: TimeView,
)
    ensures
        previous is None ==> !same_estimate(previous, wake, end),
        previous matches Some(p) && (p.wake_time@ != wake || p.estimated_end_time@ != end)
            ==> !same_estimate(previous, wake, end),
        previous matches Some(p) && p.estimated_end_time@ == end && p.wake_time@ == wake
            ==> same_estimate(previous, wake, end),
{
}

/// Whether `reminder_outcome` asks for the reminder to be sent.
pub open spec fn sends_reminder(record: DailyRecord, now: TimeView) -> bool {
    &&& !record.reminder_sent
    &&& instant(now) < instant(record.estimated_end_time@)
    &&& instant(reminder_time(record)) <= instant(now)
}

/// Checking the reminder sends it exactly when `should_remind` says it is due.
pub proof fn law_sent_exactly_when_due(record: DailyRecord, now: TimeView)
    ensures
        sends_reminder(record, now) == reminder_due(record, now),
{
}


/// Once a reminder is marked sent it is never due again.
pub proof fn law_sent_reminder_never_due(record: DailyRecord, now: TimeView)
    requires
        record.reminder_sent,
    ensures
        !reminder_due(record, now),
        !sends_reminder(record, now),
{
}

} // verus!
