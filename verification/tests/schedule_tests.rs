use screen_wake_clock::{
    default_config, estimate_end_time, parse_time, select_wake_event, should_remind,
    try_estimate_end_time, validate_config, Config, DailyRecord, Date, RuleConfig, RuleKind,
    Time,
};

fn config() -> Config {
    default_config()
}

fn time(text: &str) -> Time {
    parse_time(text).unwrap()
}

#[test]
fn selects_event_closest_to_nine_and_ignores_midnight_wakes() {
    let log = r#"
2026-08-20 00:23:30 +0800 Notification Display is turned on
2026-08-20 08:30:00 +0800 Notification Display is turned on
2026-08-20 09:11:27 +0800 Notification Display is turned on
2026-08-20 10:45:00 +0800 Notification Display is turned on
"#;
    let date = Date::from_ymd_opt(2026, 8, 20).unwrap();
    assert_eq!(
        select_wake_event(log, date, &config().search),
        Some(parse_time("09:11:27").unwrap())
    );
}

#[test]
fn applies_default_schedule_rules() {
    let schedule = config().schedule;
    let cases = [
        ("09:11:00", "18:11:00"),
        ("10:30:00", "18:00:00"),
        ("12:45:00", "18:00:00"),
        ("13:00:00", "18:00:00"),
        ("13:20:00", "18:20:00"),
        ("13:50:00", "18:50:00"),
        ("14:00:00", "19:00:00"),
    ];
    for (wake, expected) in cases {
        assert_eq!(
            estimate_end_time(parse_time(wake).unwrap(), &schedule).unwrap(),
            parse_time(expected).unwrap(),
            "wake time {wake}"
        );
    }
}

#[test]
fn reminder_is_only_due_inside_the_reminder_window() {
    let record = DailyRecord {
        date: Date::from_ymd_opt(2026, 8, 20).unwrap(),
        wake_time: parse_time("09:00").unwrap(),
        estimated_end_time: parse_time("18:00").unwrap(),
        source: "test".into(),
        reminder_minutes: 30,
        reminder_sent: false,
        reminder_sent_at: None,
        display_off_time: None,
        work_minutes: None,
    };
    assert!(!should_remind(&record, parse_time("17:29").unwrap()));
    assert!(should_remind(&record, parse_time("17:30").unwrap()));
    assert!(!should_remind(&record, parse_time("18:00").unwrap()));
}

#[test]
fn parses_both_time_forms() {
    assert_eq!(time("09:11:27").seconds_from_midnight(), 9 * 3600 + 11 * 60 + 27);
    assert_eq!(time("09:11").seconds_from_midnight(), 9 * 3600 + 11 * 60);
    assert_eq!(time("00:00").seconds_from_midnight(), 0);
    assert_eq!(time("23:59:59").seconds_from_midnight(), 86399);
}

#[test]
fn rejects_malformed_times_with_the_value_in_the_message() {
    assert_eq!(
        parse_time("25:00"),
        Err("invalid time `25:00`; expected HH:MM or HH:MM:SS".to_string())
    );
    assert_eq!(
        parse_time("noon"),
        Err("invalid time `noon`; expected HH:MM or HH:MM:SS".to_string())
    );
}

#[test]
fn default_config_is_valid() {
    assert_eq!(validate_config(&config()), Ok(()));
}

#[test]
fn validation_reports_each_problem() {
    let mut reversed = config();
    reversed.search.start_time = time("15:00");
    assert_eq!(
        validate_config(&reversed),
        Err("search.start_time must not be after search.end_time".to_string())
    );

    let mut empty = config();
    empty.schedule.rules.clear();
    assert_eq!(
        validate_config(&empty),
        Err("schedule.rules must contain at least one rule".to_string())
    );

    let mut negative = config();
    negative.schedule.reminder_minutes = -1;
    assert_eq!(
        validate_config(&negative),
        Err("schedule.reminder_minutes must be non-negative".to_string())
    );

    let mut unordered = config();
    unordered.schedule.rules.swap(0, 1);
    assert_eq!(
        validate_config(&unordered),
        Err("schedule.rules must be ordered by increasing `until` values".to_string())
    );

    let mut short = config();
    short.schedule.rules.pop();
    assert_eq!(
        validate_config(&short),
        Err("the final schedule rule must cover search.end_time".to_string())
    );

    let mut no_duration = config();
    no_duration.schedule.rules[0].duration_minutes = Some(-5);
    assert_eq!(
        validate_config(&no_duration),
        Err("add_duration rule requires non-negative duration_minutes".to_string())
    );

    let mut no_end = config();
    no_end.schedule.rules[1].end_time = None;
    assert_eq!(
        validate_config(&no_end),
        Err("fixed rule requires end_time".to_string())
    );

    let mut no_anchor = config();
    no_anchor.schedule.rules[2].anchor_end = None;
    assert_eq!(
        validate_config(&no_anchor),
        Err("carry_delay rule requires anchor_start and anchor_end".to_string())
    );
}

#[test]
fn no_rule_matches_a_late_wake() {
    assert_eq!(
        estimate_end_time(time("15:00"), &config().schedule),
        Err("no schedule rule matches wake time 15:00:00".to_string())
    );
}

#[test]
fn end_time_wraps_around_midnight_and_is_capped() {
    let mut schedule = config().schedule;
    schedule.rules = vec![RuleConfig {
        until: time("23:59"),
        kind: RuleKind::AddDuration,
        duration_minutes: Some(120),
        end_time: None,
        anchor_start: None,
        anchor_end: None,
    }];
    schedule.max_end_time = time("23:59:59");
    assert_eq!(estimate_end_time(time("23:00"), &schedule), Ok(time("01:00")));
    assert_eq!(estimate_end_time(time("20:00"), &schedule), Ok(time("22:00")));
    schedule.max_end_time = time("21:00");
    assert_eq!(estimate_end_time(time("20:00"), &schedule), Ok(time("21:00")));
}

#[test]
fn carry_delay_can_move_the_end_earlier() {
    let mut schedule = config().schedule;
    schedule.rules = vec![RuleConfig {
        until: time("23:00"),
        kind: RuleKind::CarryDelay,
        duration_minutes: None,
        end_time: None,
        anchor_start: Some(time("13:00")),
        anchor_end: Some(time("18:00")),
    }];
    assert_eq!(estimate_end_time(time("12:30"), &schedule), Ok(time("17:30")));
}

#[test]
fn an_unusable_rule_is_reported_instead_of_applied() {
    let mut schedule = config().schedule;
    schedule.rules[0].duration_minutes = Some(i64::MAX);
    assert_eq!(try_estimate_end_time(time("09:00"), &schedule), None);
    assert_eq!(
        try_estimate_end_time(time("10:30"), &schedule),
        Some(Ok(time("18:00")))
    );
    schedule.rules[1].end_time = None;
    assert_eq!(try_estimate_end_time(time("10:30"), &schedule), None);
}

#[test]
fn wake_event_needs_the_day_the_marker_and_the_window() {
    let log = "2026-08-19 09:00:00 +0800 Notification Display is turned on\n\
               2026-08-20 09:05:00 +0800 Notification Display is turned off\n\
               2026-08-20 04:59:59 +0800 Notification Display is turned on\n\
               2026-08-20 14:00:01 +0800 Notification Display is turned on\n";
    let date = Date::from_ymd_opt(2026, 8, 20).unwrap();
    assert_eq!(select_wake_event(log, date, &config().search), None);
    assert_eq!(select_wake_event("", date, &config().search), None);
}

#[test]
fn equally_close_wake_events_keep_the_first() {
    let log = "2026-08-20 09:30:00 +0800 Display is turned on\r\n\
               2026-08-20 08:30:00 +0800 Display is turned on\r\n\
               2026-08-20 14:00:00 +0800 Display is turned on";
    let date = Date::from_ymd_opt(2026, 8, 20).unwrap();
    assert_eq!(select_wake_event(log, date, &config().search), Some(time("09:30")));
}

#[test]
fn reads_the_second_word_across_any_whitespace() {
    let log = "2026-08-20\t\t08:45:10   Display is turned on";
    let date = Date::from_ymd_opt(2026, 8, 20).unwrap();
    assert_eq!(select_wake_event(log, date, &config().search), Some(time("08:45:10")));
}

#[test]
fn a_leap_second_is_read_and_ordered_after_its_second() {
    let leap = time("23:59:60");
    assert!(leap.is_leap_second());
    assert_eq!(leap.seconds_from_midnight(), 86399);
    assert!(time("23:59:59").is_before(leap));
    assert!(!leap.is_before(time("23:59:59")));
    assert_eq!(Time::from_parts(86399, true), Some(leap));
    assert_eq!(Time::from_parts(86398, true), None);
    assert_eq!(Time::from_parts(86399, false), Some(time("23:59:59")));
    assert!(!time("23:59:59").is_leap_second());
}

#[test]
fn a_leap_second_wake_keeps_its_place_in_the_schedule() {
    let schedule = config().schedule;
    assert_eq!(estimate_end_time(time("13:19:60"), &schedule), Ok(time("18:20:00")));
    assert_eq!(estimate_end_time(time("09:59:60"), &schedule), Ok(time("18:59:59")));
    assert_eq!(
        estimate_end_time(time("23:59:60"), &schedule),
        Err("no schedule rule matches wake time 23:59:60".to_string())
    );
}

#[test]
fn a_leap_second_wake_is_one_second_from_the_target() {
    let log = "2026-08-20 09:01:00 +0800 Display is turned on\n\
               2026-08-20 08:59:60 +0800 Display is turned on\n";
    let date = Date::from_ymd_opt(2026, 8, 20).unwrap();
    assert_eq!(select_wake_event(log, date, &config().search), Some(time("08:59:60")));
}

#[test]
fn several_irrelevant_lines_leave_the_wake_time_unchanged() {
    let date = Date::from_ymd_opt(2026, 8, 20).unwrap();
    let before = "2026-08-20 08:40:00 +0800 Display is turned on\n";
    let after = "2026-08-20 09:30:00 +0800 Display is turned on\n";
    let extra = "2026-08-19 09:00:00 +0800 Display is turned on\n\
                 2026-08-20 09:00:00 +0800 Display is turned off\n\
                 2026-08-20 nine +0800 Display is turned on\n\
                 2026-08-20 00:10:00 +0800 Display is turned on\n\
                 kernel: nothing to see\n";
    let plain = format!("{before}{after}");
    let mixed = format!("{before}{extra}{after}");
    let expected = Some(time("08:40"));
    assert_eq!(select_wake_event(&plain, date, &config().search), expected);
    assert_eq!(select_wake_event(&mixed, date, &config().search), expected);
    let front = format!("{extra}{plain}");
    assert_eq!(select_wake_event(&front, date, &config().search), expected);
}
