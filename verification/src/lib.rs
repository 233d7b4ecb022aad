//! Estimates when a workday ends from display wake events and keeps a small
//! work-hours journal.  Everything that decides or computes is verified here;
//! reading logs, files and the clock is left to the caller.

pub mod clock;
pub mod config;
pub mod history;
pub mod monthly;
pub mod record;
pub mod schedule;
pub mod text;

pub use clock::{parse_time, Date, Time, MAX_DELTA_MINUTES, MIN_YEAR};
pub use config::{
    default_config, rule_is_applicable, validate_config, Config, RuleConfig, RuleKind,
    ScheduleConfig, SearchConfig, TimeAccountingConfig,
};
pub use history::latest_record_names;
pub use monthly::{
    format_minutes, format_signed_minutes, monthly_dir, monthly_notification_message,
    mark_monthly_notified, monthly_report_file_name, monthly_summary_month,
    needs_monthly_notification, parse_month,
    previous_month, summarize_month, summary_fits, with_saved_notification, DailyAnomaly,
    MonthlyReport,
};
pub use record::{
    awaits_display_off, build_record, finalize_record, keeps_existing_record, mark_reminder_sent,
    notification_message, notification_script, record_file_name, record_from_log,
    reminder_outcome, select_display_off_event, should_remind, work_minutes, DailyRecord,
    ReminderOutcome,
};
pub use schedule::{
    closest_in_window, estimate_end_time, latest_in_window, log_events, select_wake_event,
    try_estimate_end_time,
};
pub use text::{error_string, escape_applescript};
