use screen_wake_clock::{
    awaits_display_off, build_record, default_config, error_string, escape_applescript, finalize_record,
    keeps_existing_record, latest_record_names, mark_reminder_sent, notification_message,
    notification_script, parse_time, record_file_name, record_from_log, reminder_outcome,
    select_display_off_event, should_remind, work_minutes, DailyRecord, Date, ReminderOutcome,
    Time,
};

fn time(text: &str) -> Time {
    parse_time(text).unwrap()
}

fn day() -> Date {
    Date::from_ymd_opt(2026, 8, 20).unwrap()
}

fn record(wake: &str, end: &str, minutes: i64) -> DailyRecord {
    DailyRecord {
        date: day(),
        wake_time: time(wake),
        estimated_end_time: time(end),
        source: "test".into(),
        reminder_minutes: minutes,
        reminder_sent: false,
        reminder_sent_at: None,
        display_off_time: None,
        work_minutes: None,
    }
}

#[test]
fn rebuilding_an_unchanged_record_keeps_the_reminder_state() {
    let mut previous = record("09:11:27", "18:11:27", 10);
    previous.reminder_sent = true;
    previous.reminder_sent_at = Some("2026-08-20T18:01:27+08:00".into());
    let same = build_record(day(), time("09:11:27"), time("18:11:27"), 15, Some(previous.clone()));
    assert!(same.reminder_sent);
    assert_eq!(same.reminder_sent_at, Some("2026-08-20T18:01:27+08:00".to_string()));
    assert_eq!(same.reminder_minutes, 15);
    assert_eq!(same.source, "pmset: Display is turned on");

    let moved = build_record(day(), time("09:20:00"), time("18:20:00"), 10, Some(previous));
    assert!(!moved.reminder_sent);
    assert_eq!(moved.reminder_sent_at, None);

    let fresh = build_record(day(), time("09:20:00"), time("18:20:00"), 10, None);
    assert!(!fresh.reminder_sent);
    assert_eq!(fresh.display_off_time, None);
    assert_eq!(fresh.work_minutes, None);
}

#[test]
fn reminder_outcomes_follow_the_clock() {
    let pending = record("09:00", "18:00", 30);
    assert_eq!(
        reminder_outcome(&pending, time("17:00")),
        ReminderOutcome::NotDue { reminder_time: time("17:30") }
    );
    assert_eq!(reminder_outcome(&pending, time("17:30")), ReminderOutcome::Sent);
    assert_eq!(reminder_outcome(&pending, time("18:00")), ReminderOutcome::EndTimePassed);
    let mut sent = pending.clone();
    sent.reminder_sent = true;
    assert_eq!(reminder_outcome(&sent, time("17:45")), ReminderOutcome::AlreadySent);
    assert!(!should_remind(&sent, time("17:45")));
}

#[test]
fn the_reminder_is_sent_exactly_when_it_is_due() {
    let pending = record("09:00", "18:00", 30);
    for text in ["00:00", "17:29:59", "17:30", "17:59:59", "18:00", "23:59"] {
        let now = time(text);
        assert_eq!(
            reminder_outcome(&pending, now) == ReminderOutcome::Sent,
            should_remind(&pending, now),
            "at {text}"
        );
    }
}

#[test]
fn reminder_time_wraps_before_midnight() {
    let early = record("00:05", "00:20", 30);
    assert!(!should_remind(&early, time("00:10")));
    assert_eq!(
        reminder_outcome(&early, time("00:10")),
        ReminderOutcome::NotDue { reminder_time: time("23:50") }
    );
}

#[test]
fn marking_the_reminder_sent_keeps_the_rest() {
    let pending = record("09:00", "18:00", 30);
    let sent = mark_reminder_sent(pending.clone(), "at six".to_string());
    assert!(sent.reminder_sent);
    assert_eq!(sent.reminder_sent_at, Some("at six".to_string()));
    assert_eq!(sent.wake_time, pending.wake_time);
    assert_eq!(sent.estimated_end_time, pending.estimated_end_time);
}

#[test]
fn a_nine_to_six_day_is_eight_hours_after_the_break() {
    let accounting = default_config().time_accounting;
    assert_eq!(work_minutes(time("09:00"), time("18:00"), &accounting), 480);
    assert_eq!(work_minutes(time("09:11:27"), time("18:21:30"), &accounting), 490);
    assert_eq!(work_minutes(time("12:30"), time("15:00"), &accounting), 120);
    assert_eq!(work_minutes(time("14:00"), time("16:00"), &accounting), 120);
    assert_eq!(work_minutes(time("18:00"), time("09:00"), &accounting), 0);
}

#[test]
fn finalizing_sets_display_off_and_worked_minutes() {
    let accounting = default_config().time_accounting;
    let base = record("09:00", "18:00", 10);
    let done = finalize_record(base.clone(), Some(time("18:30")), &accounting);
    assert_eq!(done.display_off_time, Some(time("18:30")));
    assert_eq!(done.work_minutes, Some(510));
    let missing = finalize_record(base, None, &accounting);
    assert_eq!(missing.display_off_time, None);
    assert_eq!(missing.work_minutes, None);
}

#[test]
fn display_off_is_the_last_event_in_the_end_window() {
    let log = "2026-08-20 12:00:00 +0800 Display is turned off\n\
               2026-08-20 18:21:30 +0800 Display is turned off\n\
               2026-08-20 19:02:00 +0800 Display is turned off\n\
               2026-08-20 23:30:00 +0800 Display is turned off\n\
               2026-08-21 20:00:00 +0800 Display is turned off\n";
    let accounting = default_config().time_accounting;
    assert_eq!(select_display_off_event(log, day(), &accounting), Some(time("19:02")));
    assert_eq!(select_display_off_event("", day(), &accounting), None);
}

#[test]
fn notification_text_names_end_minutes_and_wake() {
    let r = record("09:11:27", "18:11:27", 10);
    assert_eq!(
        notification_message(&r),
        "预计 18:11 下班，还有 10 分钟。今日亮屏打卡约 09:11。"
    );
    assert_eq!(
        notification_script("say \"hi\" \\ bye", "Wake Clock"),
        "display notification \"say \\\"hi\\\" \\\\ bye\" with title \"Wake Clock\""
    );
}

#[test]
fn escaping_doubles_backslashes_and_escapes_quotes() {
    assert_eq!(escape_applescript(r#"a\b"c"#), r#"a\\b\"c"#);
    assert_eq!(escape_applescript("plain"), "plain");
    assert_eq!(escape_applescript(""), "");
}

#[test]
fn record_files_are_named_by_date() {
    assert_eq!(record_file_name(day()), "2026-08-20.json");
    assert_eq!(record_file_name(Date::from_ymd_opt(987, 1, 2).unwrap()), "0987-01-02.json");
}

#[test]
fn recording_from_the_log_uses_search_and_schedule() {
    let config = default_config();
    let log = "2026-08-20 00:23:30 +0800 Notification Display is turned on\n\
               2026-08-20 13:20:00 +0800 Notification Display is turned on\n";
    let made = record_from_log(log, day(), &config, None).unwrap().unwrap();
    assert_eq!(made.wake_time, time("13:20"));
    assert_eq!(made.estimated_end_time, time("18:20"));
    assert_eq!(made.reminder_minutes, 10);
    assert_eq!(
        record_from_log("", day(), &config, None),
        Some(Err(
            "no display-on event found between 05:00:00 and 14:00:00 on 2026-08-20".to_string()
        ))
    );
}

#[test]
fn an_existing_record_is_kept_unless_forced() {
    let existing = Some(record("09:00", "18:00", 10));
    assert!(keeps_existing_record(false, &existing));
    assert!(!keeps_existing_record(true, &existing));
    assert!(!keeps_existing_record(false, &None));
}

#[test]
fn history_reads_the_newest_json_records_first() {
    let names: Vec<Vec<u8>> = [
        "2026-08-18.json",
        "notes.txt",
        "2026-08-20.json",
        ".json",
        "2026-08-19.json",
        "2026-07-31.json",
    ]
    .iter()
    .map(|n| n.as_bytes().to_vec())
    .collect();
    let chosen = latest_record_names(names.clone(), 3);
    let expected: Vec<Vec<u8>> = ["2026-08-20.json", "2026-08-19.json", "2026-08-18.json"]
        .iter()
        .map(|n| n.as_bytes().to_vec())
        .collect();
    assert_eq!(chosen, expected);
    assert_eq!(latest_record_names(names.clone(), 100).len(), 4);
    assert!(latest_record_names(names, 0).is_empty());
}

#[test]
fn error_string_is_the_display_text() {
    assert_eq!(error_string("boom"), "boom");
    assert_eq!(error_string(42), "42");
}

#[test]
fn recording_reports_a_wake_no_rule_covers_and_an_unusable_rule() {
    let mut config = default_config();
    config.search.end_time = time("16:00");
    let log = "2026-08-20 15:00:00 +0800 Display is turned on\n";
    assert_eq!(
        record_from_log(log, day(), &config, None),
        Some(Err("no schedule rule matches wake time 15:00:00".to_string()))
    );
    let mut broken = default_config();
    broken.schedule.rules[0].duration_minutes = None;
    let early = "2026-08-20 09:00:00 +0800 Display is turned on\n";
    assert_eq!(record_from_log(early, day(), &broken, None), None);
}

#[test]
fn a_leap_second_counts_in_worked_time_and_reminders() {
    let accounting = default_config().time_accounting;
    assert_eq!(work_minutes(time("09:00"), time("17:59:59"), &accounting), 479);
    assert_eq!(work_minutes(time("09:00"), time("17:59:60"), &accounting), 480);
    let pending = record("09:00", "17:59:60", 1);
    assert_eq!(
        reminder_outcome(&pending, time("17:58:59")),
        ReminderOutcome::NotDue { reminder_time: time("17:59:00") }
    );
    assert_eq!(reminder_outcome(&pending, time("17:59:59")), ReminderOutcome::Sent);
    assert!(should_remind(&pending, time("17:59:59")));
    assert_eq!(reminder_outcome(&pending, time("17:59:60")), ReminderOutcome::EndTimePassed);
}

#[test]
fn only_a_day_without_display_off_waits_to_be_finished() {
    let accounting = default_config().time_accounting;
    let open = record("09:00", "18:00", 10);
    assert!(awaits_display_off(&open));
    let done = finalize_record(open, Some(time("18:30")), &accounting);
    assert!(!awaits_display_off(&done));
}
