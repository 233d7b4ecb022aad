use screen_wake_clock::{
    default_config, format_minutes, mark_monthly_notified, format_signed_minutes, monthly_dir,
    monthly_notification_message, monthly_report_file_name, monthly_summary_month,
    needs_monthly_notification, parse_month, parse_time, previous_month, summarize_month,
    summary_fits, with_saved_notification, DailyRecord, Date, TimeAccountingConfig,
};

fn date(y: i32, m: u32, d: u32) -> Date {
    Date::from_ymd_opt(y, m, d).unwrap()
}

fn day_record(d: Date, work: Option<i64>) -> DailyRecord {
    DailyRecord {
        date: d,
        wake_time: parse_time("09:00").unwrap(),
        estimated_end_time: parse_time("18:00").unwrap(),
        source: "pmset: Display is turned on".into(),
        reminder_minutes: 10,
        reminder_sent: false,
        reminder_sent_at: None,
        display_off_time: None,
        work_minutes: work,
    }
}

fn accounting() -> TimeAccountingConfig {
    default_config().time_accounting
}

#[test]
fn summarizes_only_the_days_of_the_month() {
    let records = vec![
        day_record(date(2026, 7, 31), Some(600)),
        day_record(date(2026, 8, 3), Some(480)),
        day_record(date(2026, 8, 4), Some(400)),
        day_record(date(2026, 8, 5), None),
        day_record(date(2026, 8, 6), Some(545)),
        day_record(date(2025, 8, 7), Some(480)),
    ];
    let month = date(2026, 8, 1);
    assert!(summary_fits(month, &records, &accounting()));
    let report = summarize_month(month, &records, &accounting());
    assert_eq!(report.month, "2026-08");
    assert_eq!(report.recorded_days, 4);
    assert_eq!(report.completed_days, 3);
    assert_eq!(report.total_minutes, 1425);
    assert_eq!(report.target_minutes, 1920);
    assert_eq!(report.balance_minutes, -495);
    assert_eq!(report.notified_at, None);
    let kinds: Vec<(Date, String, Option<i64>, Option<i64>)> = report
        .anomalies
        .iter()
        .map(|a| (a.date, a.kind.clone(), a.work_minutes, a.difference_minutes))
        .collect();
    assert_eq!(
        kinds,
        vec![
            (date(2026, 8, 4), "short_day".to_string(), Some(400), Some(-80)),
            (date(2026, 8, 5), "missing_display_off".to_string(), None, None),
            (date(2026, 8, 6), "long_day".to_string(), Some(545), Some(65)),
        ]
    );
}

#[test]
fn a_difference_just_below_the_threshold_is_usual() {
    let records = vec![day_record(date(2026, 8, 3), Some(539)), day_record(date(2026, 8, 4), Some(540))];
    let report = summarize_month(date(2026, 8, 1), &records, &accounting());
    assert_eq!(report.anomalies.len(), 1);
    assert_eq!(report.anomalies[0].date, date(2026, 8, 4));
}

#[test]
fn an_empty_month_has_no_balance() {
    let report = summarize_month(date(2026, 2, 1), &[], &accounting());
    assert_eq!(report.recorded_days, 0);
    assert_eq!(report.balance_minutes, 0);
    assert!(!needs_monthly_notification(&report));
}

#[test]
fn overflowing_sums_are_detected() {
    let records = vec![day_record(date(2026, 8, 3), Some(i64::MAX)), day_record(date(2026, 8, 4), Some(i64::MAX))];
    assert!(!summary_fits(date(2026, 8, 1), &records, &accounting()));
}

#[test]
fn formats_minutes_like_integer_division() {
    assert_eq!(format_minutes(125), "2h 05m");
    assert_eq!(format_minutes(-90), "-1h 30m");
    assert_eq!(format_minutes(-30), "0h 30m");
    assert_eq!(format_minutes(0), "0h 00m");
    assert_eq!(format_signed_minutes(125), "+2h 05m");
    assert_eq!(format_signed_minutes(-30), "-0h 30m");
    assert_eq!(format_signed_minutes(0), "+0h 00m");
}

#[test]
fn parses_months_and_steps_back() {
    assert_eq!(parse_month("2026-07"), Ok(date(2026, 7, 1)));
    assert_eq!(
        parse_month("July"),
        Err("invalid month `July`; expected YYYY-MM".to_string())
    );
    assert_eq!(previous_month(date(2026, 8, 20)), date(2026, 7, 1));
    assert_eq!(previous_month(date(2026, 1, 15)), date(2025, 12, 1));
    assert_eq!(previous_month(date(2024, 3, 31)), date(2024, 2, 1));
}

#[test]
fn the_summary_day_picks_the_previous_month() {
    assert_eq!(monthly_summary_month(date(2026, 9, 15), 15), Some(date(2026, 8, 1)));
    assert_eq!(monthly_summary_month(date(2026, 9, 14), 15), None);
}

#[test]
fn monthly_message_and_file_name() {
    let records = vec![day_record(date(2026, 8, 3), Some(400)), day_record(date(2026, 8, 4), Some(480))];
    let report = summarize_month(date(2026, 8, 1), &records, &accounting());
    assert_eq!(
        monthly_notification_message(&report),
        "2026-08: 2 recorded days, 14h 40m, balance -1h 20m, 1 anomalies."
    );
    assert_eq!(monthly_report_file_name(date(2026, 8, 1)), "2026-08.json");
    assert!(needs_monthly_notification(&report));
}

#[test]
fn a_saved_notification_time_is_carried_over() {
    let records = vec![day_record(date(2026, 8, 3), Some(480))];
    let report = summarize_month(date(2026, 8, 1), &records, &accounting());
    let mut saved = report.clone();
    saved.notified_at = Some("2026-09-15T09:00:00+08:00".into());
    let merged = with_saved_notification(report.clone(), Some(saved));
    assert_eq!(merged.notified_at, Some("2026-09-15T09:00:00+08:00".to_string()));
    assert!(!needs_monthly_notification(&merged));
    assert_eq!(with_saved_notification(report, None).notified_at, None);
}

#[test]
fn monthly_reports_sit_beside_the_records() {
    assert_eq!(
        monthly_dir("/home/u/.local/share/wake-clock/records"),
        Ok("/home/u/.local/share/wake-clock/monthly".to_string())
    );
    assert_eq!(monthly_dir(""), Err("records directory has no parent".to_string()));
    assert_eq!(monthly_dir("/"), Err("records directory has no parent".to_string()));
}

#[test]
fn a_month_is_summarized_once() {
    let records = vec![day_record(date(2026, 8, 3), Some(480))];
    let report = summarize_month(date(2026, 8, 1), &records, &accounting());
    assert!(needs_monthly_notification(&report));
    let sent = mark_monthly_notified(report.clone(), "2026-09-15T09:00:00+08:00".to_string());
    assert_eq!(sent.notified_at, Some("2026-09-15T09:00:00+08:00".to_string()));
    assert_eq!(sent.recorded_days, report.recorded_days);
    let again = summarize_month(date(2026, 8, 1), &records, &accounting());
    let again = with_saved_notification(again, Some(sent));
    assert!(!needs_monthly_notification(&again));
}

#[test]
fn other_months_and_the_day_of_the_month_do_not_matter() {
    let august = vec![
        day_record(date(2026, 8, 3), Some(480)),
        day_record(date(2026, 8, 4), None),
    ];
    let mixed = vec![
        day_record(date(2026, 7, 31), Some(100)),
        day_record(date(2026, 8, 3), Some(480)),
        day_record(date(2025, 8, 3), Some(200)),
        day_record(date(2026, 8, 4), None),
        day_record(date(2026, 9, 1), None),
    ];
    let plain = summarize_month(date(2026, 8, 1), &august, &accounting());
    assert_eq!(summarize_month(date(2026, 8, 17), &mixed, &accounting()), plain);
    assert_eq!(plain.recorded_days, 2);
    assert_eq!(plain.anomalies.len(), 1);
    assert_eq!(plain.anomalies[0].date, date(2026, 8, 4));
}
