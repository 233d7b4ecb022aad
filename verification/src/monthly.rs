//! Monthly summaries: which records belong to a month, the worked and target
//! minutes, unusual days, and the text of the summary notification.

use vstd::prelude::*;
use crate::clock::{
    Date, MIN_YEAR, chrono_format_date, chrono_parse_date, naive_date_parse, valid_ymd, ym_text,
};
use crate::config::TimeAccountingConfig;
use crate::record::DailyRecord;
use crate::text::{decimal, push_decimal, push_signed_decimal, push_two_digits, signed_decimal,
    string_of, zero_padded, push_str};

verus! {

broadcast use vstd::string::group_string_axioms;

/// A day whose worked time is unusual, or whose display-off time is unknown.
#[derive(Clone, Debug, PartialEq, Eq)]
pub struct DailyAnomaly {
    pub date: Date,
    pub kind: String,
    pub work_minutes: Option<i64>,
    pub difference_minutes: Option<i64>,
}

/// The plain values of a `DailyAnomaly`.
pub struct AnomalyFacts {
    pub date: Date,
    pub kind: Seq<char>,
    pub work_minutes: Option<i64>,
    pub difference_minutes: Option<i64>,
}

impl View for DailyAnomaly {
    type V = AnomalyFacts;

    open spec fn view(&self) -> AnomalyFacts {
        AnomalyFacts {
            date: self.date,
            kind: self.kind@,
            work_minutes: self.work_minutes,
            difference_minutes: self.difference_minutes,
        }
    }
}

/// The summary of one month of records.
#[derive(Clone, Debug, PartialEq, Eq)]
pub struct MonthlyReport {
    pub month: String,
    pub recorded_days: usize,
    pub completed_days: usize,
    pub total_minutes: i64,
    pub target_minutes: i64,
    pub balance_minutes: i64,
    pub anomalies: Vec<DailyAnomaly>,
    pub notified_at: Option<String>,
}

/// Whether `date` lies in the month of `month_start`.
pub open spec fn in_month(date: (int, int, int), month_start: (int, int, int)) -> bool {
    date.0 == month_start.0 && date.1 == month_start.1
}

/// The records of `records` dated in the month of `month_start`, in order.
pub open spec fn month_records(records: Seq<DailyRecord>, month_start: (int, int, int)) -> Seq<
    DailyRecord,
>
    decreases records.len(),
{
    if records.len() == 0 {
        Seq::empty()
    } else {
        let before = month_records(records.drop_last(), month_start);
        if in_month(records.last().date@, month_start) {
            before.push(records.last())
        } else {
            before
        }
    }
}

/// How many of `records` know their worked minutes.
pub open spec fn completed_count(records: Seq<DailyRecord>) -> nat
    decreases records.len(),
{
    if records.len() == 0 {
        0
    } else {
        completed_count(records.drop_last()) + if records.last().work_minutes is Some {
            1nat
        } else {
            0nat
        }
    }
}

/// The sum of the known worked minutes of `records`.
pub open spec fn total_work(records: Seq<DailyRecord>) -> int
    decreases records.len(),
{
    if records.len() == 0 {
        0
    } else {
        total_work(records.drop_last()) + match records.last().work_minutes {
            Some(m) => m as int,
            None => 0,
        }
    }
}

/// What is unusual about `record`, if anything: no display-off time, or worked
/// minutes that differ from the daily target by at least the threshold.
pub open spec fn anomaly_of(record: DailyRecord, accounting: TimeAccountingConfig) -> Option<
    AnomalyFacts,
> {
    match record.work_minutes {
        None => Some(
            AnomalyFacts {
                date: record.date,
                kind: "missing_display_off"@,
                work_minutes: None,
                difference_minutes: None,
            },
        ),
        Some(m) => {
            let d = m - accounting.daily_target_minutes;
            let size = if d < 0 {
                -d
            } else {
                d
            };
            if size < accounting.anomaly_threshold_minutes {
                None
            } else {
                Some(
                    AnomalyFacts {
                        date: record.date,
                        kind: if d < 0 {
                            "short_day"@
                        } else {
                            "long_day"@
                        },
                        work_minutes: Some(m),
                        difference_minutes: Some(d as i64),
                    },
                )
            }
        },
    }
}

/// The anomalies of `records`, in order.
pub open spec fn anomalies_of(records: Seq<DailyRecord>, accounting: TimeAccountingConfig) -> Seq<
    AnomalyFacts,
>
    decreases records.len(),
{
    if records.len() == 0 {
        Seq::empty()
    } else {
        let before = anomalies_of(records.drop_last(), accounting);
        match anomaly_of(records.last(), accounting) {
            Some(a) => before.push(a),
            None => before,
        }
    }
}

/// The plain values of the anomalies held in `anomalies`.
pub open spec fn anomaly_facts(anomalies: Seq<DailyAnomaly>) -> Seq<AnomalyFacts> {
    anomalies.map_values(|a: DailyAnomaly| a@)
}

/// Whether `v` fits in an `i64`.
pub open spec fn fits_i64(v: int) -> bool {
    i64::MIN <= v <= i64::MAX
}

/// Whether every sum and difference that summarizing the month computes fits in
/// an `i64` (beyond that, the arithmetic overflows).
pub open spec fn summary_in_range(
    records: Seq<DailyRecord>,
    month_start: (int, int, int),
    accounting: TimeAccountingConfig,
) -> bool {
    let all = month_records(records, month_start);
    &&& forall|k: int|
        #![trigger month_records(records.take(k), month_start)]
        0 <= k <= records.len() ==> {
            let part = month_records(records.take(k), month_start);
            &&& fits_i64(total_work(part))
            &&& fits_i64(part.len() * accounting.daily_target_minutes)
        }
    &&& fits_i64(total_work(all) - all.len() * accounting.daily_target_minutes)
    &&& forall|i: int|
        0 <= i < records.len() && in_month(records[i].date@, month_start) ==> match #[trigger] records[i].work_minutes {
            Some(m) => i64::MIN < m - accounting.daily_target_minutes <= i64::MAX,
            None => true,
        }
}

fn is_in_month(date: Date, month_start: Date) -> (r: bool)
    ensures
        r == in_month(date@, month_start@),
{
    date.year() == month_start.year() && date.month() == month_start.month()
}

fn anomaly_for(record: &DailyRecord, accounting: &TimeAccountingConfig) -> (r: Option<DailyAnomaly>)
    requires
        record.work_minutes matches Some(m) ==> i64::MIN < m - accounting.daily_target_minutes
            <= i64::MAX,
    ensures
        match r {
            Some(a) => anomaly_of(*record, *accounting) == Some(a@),
            None => anomaly_of(*record, *accounting) is None,
        },
{
    let minutes = match record.work_minutes {
        None => {
            return Some(
                DailyAnomaly {
                    date: record.date,
                    kind: String::from_str("missing_display_off"),
                    work_minutes: None,
                    difference_minutes: None,
                },
            );
        },
        Some(m) => m,
    };
    let difference = minutes - accounting.daily_target_minutes;
    let size = if difference < 0 {
        -difference
    } else {
        difference
    };
    if size < accounting.anomaly_threshold_minutes {
        return None;
    }
    Some(
        DailyAnomaly {
            date: record.date,
            kind: if difference < 0 {
                String::from_str("short_day")
            } else {
                String::from_str("long_day")
            },
            work_minutes: Some(minutes),
            difference_minutes: Some(difference),
        },
    )
}

/// Summarizes the records dated in the month of `month_start`: how many days
/// were recorded and completed, the minutes worked against the daily target
/// for each recorded day, the balance, and the unusual days in order.
pub fn summarize_month(
    month_start: Date,
    records: &[DailyRecord],
    accounting: &TimeAccountingConfig,
) -> (r: MonthlyReport)
    requires
        summary_in_range(records@, month_start@, *accounting),
    ensures
        r.month@ == ym_text(month_start@),
        r.recorded_days == month_records(records@, month_start@).len(),
        r.completed_days == completed_count(month_records(records@, month_start@)),
        r.total_minutes == total_work(month_records(records@, month_start@)),
        r.target_minutes == month_records(records@, month_start@).len()
            * accounting.daily_target_minutes,
        r.balance_minutes == r.total_minutes - r.target_minutes,
        anomaly_facts(r.anomalies@) == anomalies_of(
            month_records(records@, month_start@),
            *accounting,
        ),
        r.anomalies.len() <= r.recorded_days,
        forall|i: int|
            0 <= i < r.anomalies.len() ==> in_month(#[trigger] r.anomalies[i].date@, month_start@),
        r.notified_at is None,
{
    let month = chrono_format_date(month_start, "%Y-%m");
    let mut recorded: usize = 0;
    let mut completed: usize = 0;
    let mut total: i64 = 0;
    let mut target: i64 = 0;
    let mut anomalies: Vec<DailyAnomaly> = Vec::new();
    let ghost rs = records@;
    for i in 0..records.len()
        invariant
            rs == records@,
            summary_in_range(rs, month_start@, *accounting),
            recorded <= i,
            completed <= recorded,
            recorded == month_records(rs.take(i as int), month_start@).len(),
            completed == completed_count(month_records(rs.take(i as int), month_start@)),
            total == total_work(month_records(rs.take(i as int), month_start@)),
            target == month_records(rs.take(i as int), month_start@).len()
                * accounting.daily_target_minutes,
            anomaly_facts(anomalies@) == anomalies_of(
                month_records(rs.take(i as int), month_start@),
                *accounting,
            ),
    {
        let record = &records[i];
        let ghost part = month_records(rs.take(i as int), month_start@);
        let ghost next = month_records(rs.take(i + 1), month_start@);
        proof {
            assert(rs.take(i + 1).drop_last() == rs.take(i as int));
            assert(rs.take(i + 1).last() == *record);
            assert(fits_i64(total_work(next)));
            assert(fits_i64(next.len() * accounting.daily_target_minutes));
        }
        if is_in_month(record.date, month_start) {
            proof {
                assert(next == part.push(*record));
                assert(next.drop_last() == part);
                assert((part.len() + 1) * accounting.daily_target_minutes == part.len()
                    * accounting.daily_target_minutes + accounting.daily_target_minutes)
                    by (nonlinear_arith);
            }
            recorded = recorded + 1;
            target = target + accounting.daily_target_minutes;
            match record.work_minutes {
                Some(m) => {
                    completed = completed + 1;
                    total = total + m;
                },
                None => {},
            }
            let ghost before = anomalies@;
            match anomaly_for(record, accounting) {
                Some(a) => {
                    anomalies.push(a);
                    proof {
                        assert(anomaly_facts(anomalies@) =~= anomaly_facts(before).push(a@));
                    }
                },
                None => {},
            }
        }
    }
    proof {
        assert(rs.take(records.len() as int) == rs);
        law_month_anomalies_in_month(rs, month_start@, *accounting);
        assert forall|i: int| 0 <= i < anomalies.len() implies in_month(
            #[trigger] anomalies[i].date@,
            month_start@,
        ) by {
            assert(anomaly_facts(anomalies@)[i] == anomalies@[i]@);
            assert(in_month(
                anomalies_of(month_records(rs, month_start@), *accounting)[i].date@,
                month_start@,
            ));
        }
    }
    MonthlyReport {
        month,
        recorded_days: recorded,
        completed_days: completed,
        total_minutes: total,
        target_minutes: target,
        balance_minutes: total - target,
        anomalies,
        notified_at: None,
    }
}


/// The message `parse_month` fails with for `value`.
pub open spec fn invalid_month_message(value: Seq<char>) -> Seq<char> {
    "invalid month `"@ + value + "`; expected YYYY-MM"@
}

/// Reads a month written `YYYY-MM` as the first day of that month, by
/// chrono's date parser on the text with `-01` appended.
pub fn parse_month(value: &str) -> (r: Result<Date, String>)
    ensures
        match naive_date_parse(value@ + "-01"@, "%Y-%m-%d"@) {
            Some(d) => r matches Ok(x) && x@ == d,
            None => r matches Err(e) && e@ == invalid_month_message(value@),
        },
{
    let mut text = String::from_str(value);
    text.append("-01");
    match chrono_parse_date(text.as_str(), "%Y-%m-%d") {
        Some(d) => Ok(d),
        None => {
            let mut message = String::from_str("invalid month `");
            message.append(value);
            message.append("`; expected YYYY-MM");
            Err(message)
        },
    }
}

/// The first day of the month before the month of `date`.
pub open spec fn month_before(date: (int, int, int)) -> (int, int, int) {
    if date.1 == 1 {
        (date.0 - 1, 12, 1)
    } else {
        (date.0, date.1 - 1, 1)
    }
}

/// Whether `date` lies in the earliest month a date can hold, which has no
/// month before it.
pub open spec fn in_first_month(date: (int, int, int)) -> bool {
    date.0 == MIN_YEAR && date.1 == 1
}

/// The first day of the previous month.
pub fn previous_month(date: Date) -> (r: Date)
    requires
        !in_first_month(date@),
    ensures
        r@ == month_before(date@),
{
    let year = date.year();
    let month = date.month();
    if month == 1 {
        Date::from_ymd_opt(year - 1, 12, 1).unwrap()
    } else {
        Date::from_ymd_opt(year, month - 1, 1).unwrap()
    }
}

/// `m / 60` rounded toward zero, as Rust's integer division does.
pub open spec fn hours_toward_zero(m: int) -> int {
    if m >= 0 {
        m / 60
    } else {
        -((-m) / 60)
    }
}

/// The magnitude of `m`.
pub open spec fn magnitude(m: int) -> nat {
    if m >= 0 {
        m as nat
    } else {
        (-m) as nat
    }
}

/// `minutes` written as hours and minutes, the hours signed as integer
/// division leaves them: `-90` is `-1h 30m`, `-30` is `0h 30m`.
pub open spec fn minutes_text(minutes: int) -> Seq<char> {
    signed_decimal(hours_toward_zero(minutes)) + "h "@ + zero_padded(magnitude(minutes) % 60, 2)
        + "m"@
}

/// `minutes` written with an explicit sign, then hours and minutes.
pub open spec fn signed_minutes_text(minutes: int) -> Seq<char> {
    (if minutes >= 0 {
        "+"@
    } else {
        "-"@
    }) + decimal(magnitude(minutes) / 60) + "h "@ + zero_padded(magnitude(minutes) % 60, 2)
        + "m"@
}

/// Writes `minutes` as `{hours}h {minutes:02}m`.
pub fn format_minutes(minutes: i64) -> (r: String)
    requires
        minutes != i64::MIN,
    ensures
        r@ == minutes_text(minutes as int),
{
    let size: u64 = if minutes >= 0 {
        minutes as u64
    } else {
        (-minutes) as u64
    };
    let hours: i64 = if minutes >= 0 {
        minutes / 60
    } else {
        -((-minutes) / 60)
    };
    let mut out: Vec<char> = Vec::new();
    push_signed_decimal(&mut out, hours);
    push_str(&mut out, "h ");
    push_two_digits(&mut out, size % 60);
    push_str(&mut out, "m");
    string_of(&out)
}

/// Writes `minutes` as `+{hours}h {minutes:02}m` or `-{hours}h {minutes:02}m`.
pub fn format_signed_minutes(minutes: i64) -> (r: String)
    requires
        minutes != i64::MIN,
    ensures
        r@ == signed_minutes_text(minutes as int),
{
    let size: u64 = if minutes >= 0 {
        minutes as u64
    } else {
        (-minutes) as u64
    };
    let mut out: Vec<char> = Vec::new();
    if minutes >= 0 {
        push_str(&mut out, "+");
    } else {
        push_str(&mut out, "-");
    }
    push_decimal(&mut out, size / 60);
    push_str(&mut out, "h ");
    push_two_digits(&mut out, size % 60);
    push_str(&mut out, "m");
    string_of(&out)
}

/// The text of the monthly summary notification.
pub open spec fn summary_message(report: MonthlyReport) -> Seq<char> {
    report.month@ + ": "@ + decimal(report.recorded_days as nat) + " recorded days, "@
        + minutes_text(report.total_minutes as int) + ", balance "@ + signed_minutes_text(
        report.balance_minutes as int,
    ) + ", "@ + decimal(report.anomalies.len() as nat) + " anomalies."@
}

/// The monthly summary text: recorded days, worked time, balance and the
/// number of unusual days.
pub fn monthly_notification_message(report: &MonthlyReport) -> (r: String)
    requires
        report.total_minutes != i64::MIN,
        report.balance_minutes != i64::MIN,
    ensures
        r@ == summary_message(*report),
{
    let mut days: Vec<char> = Vec::new();
    push_decimal(&mut days, report.recorded_days as u64);
    let mut count: Vec<char> = Vec::new();
    push_decimal(&mut count, report.anomalies.len() as u64);
    let mut message = report.month.clone();
    message.append(": ");
    message.append(string_of(&days).as_str());
    message.append(" recorded days, ");
    message.append(format_minutes(report.total_minutes).as_str());
    message.append(", balance ");
    message.append(format_signed_minutes(report.balance_minutes).as_str());
    message.append(", ");
    message.append(string_of(&count).as_str());
    message.append(" anomalies.");
    message
}

/// The file name of the report of the month of `month_start`: `YYYY-MM.json`.
pub fn monthly_report_file_name(month_start: Date) -> (r: String)
    ensures
        r@ == ym_text(month_start@) + ".json"@,
{
    let mut name = chrono_format_date(month_start, "%Y-%m");
    name.append(".json");
    name
}

/// `report` with the notification time of the report saved before, if any.
pub open spec fn carried_notification(report: MonthlyReport, saved: Option<MonthlyReport>) -> MonthlyReport {
    MonthlyReport {
        notified_at: match saved {
            Some(s) => s.notified_at,
            None => None,
        },
        ..report
    }
}

/// `report` marked as notified at `at`.
pub open spec fn notified(report: MonthlyReport, at: String) -> MonthlyReport {
    MonthlyReport { notified_at: Some(at), ..report }
}

/// Whether the summary of `report` is still to be sent: some day was recorded
/// and no notification was sent before.
pub open spec fn summary_due(report: MonthlyReport) -> bool {
    report.recorded_days != 0 && report.notified_at is None
}

/// The report with the notification time of the report saved before, if any.
pub fn with_saved_notification(report: MonthlyReport, saved: Option<MonthlyReport>) -> (r:
    MonthlyReport)
    ensures
        r == carried_notification(report, saved),
{
    let notified_at = match saved {
        Some(s) => s.notified_at,
        None => None,
    };
    MonthlyReport { notified_at, ..report }
}

/// The month to summarize on `today`: the previous month when today is the
/// summary day, otherwise none.
pub fn monthly_summary_month(today: Date, summary_day: u32) -> (r: Option<Date>)
    requires
        today@.2 == summary_day ==> !in_first_month(today@),
    ensures
        today@.2 != summary_day ==> r is None,
        today@.2 == summary_day ==> (r matches Some(m) && m@ == month_before(today@)),
{
    if today.day() != summary_day {
        None
    } else {
        Some(previous_month(today))
    }
}

/// Whether the summary of `report` is still to be sent: some day was recorded
/// and no notification was sent before.
pub fn needs_monthly_notification(report: &MonthlyReport) -> (r: bool)
    ensures
        r == summary_due(*report),
{
    report.recorded_days != 0 && report.notified_at.is_none()
}

/// The report after its summary was sent at `at`.
pub fn mark_monthly_notified(report: MonthlyReport, at: String) -> (r: MonthlyReport)
    ensures
        r == notified(report, at),
{
    MonthlyReport { notified_at: Some(at), ..report }
}


/// Whether summarizing the month stays within `i64` arithmetic (see
/// `summary_in_range`).
pub fn summary_fits(month_start: Date, records: &[DailyRecord], accounting: &TimeAccountingConfig) -> (r: bool)
    ensures
        r == summary_in_range(records@, month_start@, *accounting),
{
    let t: i128 = accounting.daily_target_minutes as i128;
    let mut count: usize = 0;
    let mut total: i128 = 0;
    let mut target: i128 = 0;
    let ghost rs = records@;
    let ghost month = month_start@;
    proof {
        assert(month_records(rs.take(0), month) =~= Seq::<DailyRecord>::empty());
    }
    for i in 0..records.len()
        invariant
            rs == records@,
            month == month_start@,
            t == accounting.daily_target_minutes,
            count <= i,
            count == month_records(rs.take(i as int), month).len(),
            total == total_work(month_records(rs.take(i as int), month)),
            target == month_records(rs.take(i as int), month).len() * t,
            fits_i64(total as int),
            fits_i64(target as int),
            forall|k: int|
                #![trigger month_records(rs.take(k), month)]
                0 <= k <= i ==> {
                    &&& fits_i64(total_work(month_records(rs.take(k), month)))
                    &&& fits_i64(month_records(rs.take(k), month).len() * t)
                },
            forall|j: int|
                0 <= j < i && in_month(rs[j].date@, month) ==> match #[trigger] rs[j].work_minutes {
                    Some(m) => i64::MIN < m - t <= i64::MAX,
                    None => true,
                },
    {
        let record = &records[i];
        let ghost part = month_records(rs.take(i as int), month);
        let ghost next = month_records(rs.take(i + 1), month);
        proof {
            assert(rs.take(i + 1).drop_last() == rs.take(i as int));
            assert(rs.take(i + 1).last() == *record);
            assert(rs[i as int] == *record);
        }
        if is_in_month(record.date, month_start) {
            proof {
                assert(next == part.push(*record));
                assert(next.drop_last() == part);
                assert((part.len() + 1) * t == part.len() * t + t) by (nonlinear_arith);
            }
            count = count + 1;
            target = target + t;
            match record.work_minutes {
                Some(m) => {
                    let d: i128 = m as i128 - t;
                    if d <= i64::MIN as i128 || d > i64::MAX as i128 {
                        proof {
                            assert(!summary_in_range(rs, month, *accounting));
                        }
                        return false;
                    }
                    total = total + m as i128;
                },
                None => {},
            }
            if total < i64::MIN as i128 || total > i64::MAX as i128 || target < i64::MIN as i128
                || target > i64::MAX as i128 {
                proof {
                    assert(0 <= i + 1 <= rs.len());
                    assert(!fits_i64(total_work(next)) || !fits_i64(next.len() * t));
                    assert(!summary_in_range(rs, month, *accounting));
                }
                return false;
            }
        }
    }
    proof {
        assert(rs.take(records.len() as int) == rs);
    }
    let balance = total - target;
    balance >= i64::MIN as i128 && balance <= i64::MAX as i128
}

/// A record is unusual exactly when its display-off time is unknown or its
/// worked minutes differ from the daily target by at least the threshold.
pub proof fn law_anomaly_when_unusual(record: DailyRecord, accounting: TimeAccountingConfig)
    ensures
        anomaly_of(record, accounting) is Some <==> match record.work_minutes {
            None => true,
            Some(m) => magnitude(m - accounting.daily_target_minutes)
                >= accounting.anomaly_threshold_minutes,
        },
        anomaly_of(record, accounting) matches Some(a) ==> a.date == record.date,
{
}

/// No more days are completed than recorded.
pub proof fn law_completed_within_recorded(records: Seq<DailyRecord>)
    ensures
        completed_count(records) <= records.len(),
    decreases records.len(),
{
    if records.len() > 0 {
        law_completed_within_recorded(records.drop_last());
    }
}

/// Every record counted for a month is dated in that month, and every record
/// dated in that month is counted.
pub proof fn law_month_records_are_the_month(records: Seq<DailyRecord>, month_start: (int, int, int))
    ensures
        forall|i: int|
            0 <= i < month_records(records, month_start).len() ==> in_month(
                #[trigger] month_records(records, month_start)[i].date@,
                month_start,
            ),
        month_records(records, month_start).len() == records.filter(
            |r: DailyRecord| in_month(r.date@, month_start),
        ).len(),
    decreases records.len(),
{
    if records.len() > 0 {
        law_month_records_are_the_month(records.drop_last(), month_start);
        let f = |r: DailyRecord| in_month(r.date@, month_start);
        assert(records.drop_last().push(records.last()) == records);
        records.drop_last().lemma_filter_push(records.last(), f);
    }
}

/// The anomalies of records that all lie in one month lie in that month, and
/// there are no more of them than records.
proof fn lemma_anomalies_within(
    records: Seq<DailyRecord>,
    month_start: (int, int, int),
    accounting: TimeAccountingConfig,
)
    requires
        forall|j: int| 0 <= j < records.len() ==> in_month(#[trigger] records[j].date@, month_start),
    ensures
        anomalies_of(records, accounting).len() <= records.len(),
        forall|i: int|
            0 <= i < anomalies_of(records, accounting).len() ==> in_month(
                #[trigger] anomalies_of(records, accounting)[i].date@,
                month_start,
            ),
    decreases records.len(),
{
    if records.len() > 0 {
        let rest = records.drop_last();
        assert forall|j: int| 0 <= j < rest.len() implies in_month(#[trigger] rest[j].date@, month_start) by {
            assert(rest[j] == records[j]);
        }
        lemma_anomalies_within(rest, month_start, accounting);
        assert(in_month(records[records.len() - 1].date@, month_start));
    }
}

/// Every unusual day of a month's summary is dated in that month, and a month
/// has no more unusual days than recorded days.
pub proof fn law_month_anomalies_in_month(
    records: Seq<DailyRecord>,
    month_start: (int, int, int),
    accounting: TimeAccountingConfig,
)
    ensures
        anomalies_of(month_records(records, month_start), accounting).len() <= month_records(
            records,
            month_start,
        ).len(),
        forall|i: int|
            0 <= i < anomalies_of(month_records(records, month_start), accounting).len()
                ==> in_month(
                #[trigger] anomalies_of(month_records(records, month_start), accounting)[i].date@,
                month_start,
            ),
{
    law_month_records_are_the_month(records, month_start);
    lemma_anomalies_within(month_records(records, month_start), month_start, accounting);
}

/// A record of another month, put anywhere among the records, leaves the
/// records of the month unchanged.
pub proof fn law_other_month_record_ignored(
    records: Seq<DailyRecord>,
    index: int,
    extra: DailyRecord,
    month_start: (int, int, int),
)
    requires
        0 <= index <= records.len(),
        !in_month(extra.date@, month_start),
    ensures
        month_records(records.insert(index, extra), month_start) == month_records(
            records,
            month_start,
        ),
    decreases records.len(),
{
    let grown = records.insert(index, extra);
    if index == records.len() {
        assert(grown.drop_last() =~= records);
        assert(grown.last() == extra);
    } else {
        let rest = records.drop_last();
        law_other_month_record_ignored(rest, index, extra, month_start);
        assert(grown.drop_last() =~= rest.insert(index, extra));
        assert(grown.last() == records.last());
    }
}

/// Whether `mixed` is `first` and `second` interleaved: both in their own
/// order, merged in some way.
pub open spec fn is_interleaving(
    mixed: Seq<DailyRecord>,
    first: Seq<DailyRecord>,
    second: Seq<DailyRecord>,
) -> bool
    decreases mixed.len(),
{
    if mixed.len() == 0 {
        first.len() == 0 && second.len() == 0
    } else {
        ||| (first.len() > 0 && mixed.last() == first.last() && is_interleaving(
            mixed.drop_last(),
            first.drop_last(),
            second,
        ))
        ||| (second.len() > 0 && mixed.last() == second.last() && is_interleaving(
            mixed.drop_last(),
            first,
            second.drop_last(),
        ))
    }
}

/// Records of other months, interleaved in any way with the records, and the
/// day of the month chosen to name it change nothing: the summary is made of
/// the same records of the same month.
pub proof fn law_other_month_records_ignored(
    mixed: Seq<DailyRecord>,
    records: Seq<DailyRecord>,
    extra: Seq<DailyRecord>,
    month_start: (int, int, int),
    day: (int, int, int),
)
    requires
        is_interleaving(mixed, records, extra),
        forall|j: int| 0 <= j < extra.len() ==> !in_month(#[trigger] extra[j].date@, month_start),
        day.0 == month_start.0,
        day.1 == month_start.1,
    ensures
        month_records(mixed, day) == month_records(records, month_start),
        ym_text(day) == ym_text(month_start),
    decreases mixed.len(),
{
    if mixed.len() > 0 {
        if records.len() > 0 && mixed.last() == records.last() && is_interleaving(
            mixed.drop_last(),
            records.drop_last(),
            extra,
        ) {
            law_other_month_records_ignored(
                mixed.drop_last(),
                records.drop_last(),
                extra,
                month_start,
                day,
            );
        } else {
            let rest = extra.drop_last();
            assert forall|j: int| 0 <= j < rest.len() implies !in_month(
                #[trigger] rest[j].date@,
                month_start,
            ) by {
                assert(rest[j] == extra[j]);
            }
            assert(!in_month(extra[extra.len() - 1].date@, month_start));
            law_other_month_records_ignored(mixed.drop_last(), records, rest, month_start, day);
        }
    } else {
        assert(records.len() == 0);
    }
}

/// Two dates of the same month pick the same records and name the same month:
/// the day of the month does not matter.
pub proof fn law_same_month_same_records(
    records: Seq<DailyRecord>,
    first: (int, int, int),
    second: (int, int, int),
)
    requires
        first.0 == second.0,
        first.1 == second.1,
    ensures
        month_records(records, first) == month_records(records, second),
        ym_text(first) == ym_text(second),
    decreases records.len(),
{
    if records.len() > 0 {
        law_same_month_same_records(records.drop_last(), first, second);
    }
}

/// A new report takes over the notification time of the one saved before and
/// otherwise keeps its own values.
pub proof fn law_report_keeps_saved_notification(report: MonthlyReport, saved: MonthlyReport)
    ensures
        carried_notification(report, Some(saved)).notified_at == saved.notified_at,
        carried_notification(report, Some(saved)).month == report.month,
        carried_notification(report, Some(saved)).recorded_days == report.recorded_days,
        carried_notification(report, Some(saved)).total_minutes == report.total_minutes,
        carried_notification(report, Some(saved)).balance_minutes == report.balance_minutes,
        carried_notification(report, Some(saved)).anomalies == report.anomalies,
{
}

/// The monthly summary is sent once: once a month's report is saved as
/// notified, any report made again for that month is not due.
pub proof fn law_summary_sent_once(sent: MonthlyReport, at: String, again: MonthlyReport)
    ensures
        !summary_due(carried_notification(again, Some(notified(sent, at)))),
{
}

/// The month before a date is the first day of the calendar month just
/// before the date's month: it depends on the year and month alone, its month
/// is followed by the date's month (December by the January of the next
/// year), and it is a date that can be held when the date is not in the
/// earliest month.
pub proof fn law_month_before_is_the_previous_month(date: (int, int, int), other_day: int)
    ensures
        month_before(date) == month_before((date.0, date.1, other_day)),
        month_before(date).2 == 1,
        1 <= date.1 <= 12 ==> 1 <= month_before(date).1 <= 12,
        1 <= date.1 <= 12 ==> if month_before(date).1 == 12 {
            date.1 == 1 && date.0 == month_before(date).0 + 1
        } else {
            date.1 == month_before(date).1 + 1 && date.0 == month_before(date).0
        },
        valid_ymd(date.0, date.1, date.2) && !in_first_month(date) ==> valid_ymd(
            month_before(date).0,
            month_before(date).1,
            month_before(date).2,
        ),
{
}

/// The summary message begins with the month and the number of recorded
/// days, days without a display-off time included, and ends with the number
/// of unusual days.
pub proof fn law_summary_message_counts_recorded_days(report: MonthlyReport)
    ensures
        summary_message(report).take(
            (report.month@ + ": "@ + decimal(report.recorded_days as nat) + " recorded days, "@).len() as int,
        ) == report.month@ + ": "@ + decimal(report.recorded_days as nat) + " recorded days, "@,
        summary_message(report).skip(
            summary_message(report).len() - (", "@ + decimal(report.anomalies.len() as nat)
                + " anomalies."@).len(),
        ) == ", "@ + decimal(report.anomalies.len() as nat) + " anomalies."@,
{
    let head = report.month@ + ": "@ + decimal(report.recorded_days as nat) + " recorded days, "@;
    let tail = ", "@ + decimal(report.anomalies.len() as nat) + " anomalies."@;
    let middle = minutes_text(report.total_minutes as int) + ", balance "@ + signed_minutes_text(
        report.balance_minutes as int,
    );
    assert(summary_message(report) =~= head + middle + tail);
    assert((head + middle + tail).take(head.len() as int) =~= head);
    assert((head + middle + tail).skip((head + middle + tail).len() - tail.len()) =~= tail);
}

/// What `std::path::Path::parent` gives for `path`, as text.
pub uninterp spec fn path_parent(path: Seq<char>) -> Option<Seq<char>>;

/// What `std::path::Path::join` gives for `base` and `tail`, as text.
pub uninterp spec fn path_join(base: Seq<char>, tail: Seq<char>) -> Seq<char>;

/// Calls `std::path::Path::parent`.  Claimed: the result is the named parent
/// of exactly this path; as the documentation says, an empty path has none.
#[verifier::external_body]
fn std_path_parent(path: &str) -> (r: Option<String>)
    ensures
        match r {
            Some(p) => path_parent(path@) == Some(p@),
            None => path_parent(path@) is None,
        },
        path@.len() == 0 ==> r is None,
{
    match std::path::Path::new(path).parent() {
        Some(p) => Some(p.to_string_lossy().into_owned()),
        None => None,
    }
}

/// Calls `std::path::Path::join`.  Claimed: the result is the named join of
/// exactly these two paths.
#[verifier::external_body]
fn std_path_join(base: &str, tail: &str) -> (r: String)
    ensures
        r@ == path_join(base@, tail@),
{
    std::path::Path::new(base).join(tail).to_string_lossy().into_owned()
}

/// The directory of the monthly reports: `monthly` beside the records
/// directory `records_dir`.
pub fn monthly_dir(records_dir: &str) -> (r: Result<String, String>)
    ensures
        match path_parent(records_dir@) {
            Some(p) => r matches Ok(d) && d@ == path_join(p, "monthly"@),
            None => r matches Err(e) && e@ == "records directory has no parent"@,
        },
{
    match std_path_parent(records_dir) {
        Some(root) => Ok(std_path_join(root.as_str(), "monthly")),
        None => Err(String::from_str("records directory has no parent")),
    }
}

} // verus!
