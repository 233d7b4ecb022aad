//! The configuration: search window, schedule rules and time accounting, and
//! the checks a configuration must pass before it is used.

use vstd::prelude::*;
use crate::clock::{Time, MAX_DELTA_MINUTES, instant};

verus! {

/// How a schedule rule turns a wake time into an end time.
#[derive(Clone, Copy, Debug, PartialEq, Eq, Structural)]
pub enum RuleKind {
    /// Add `duration_minutes` to the wake time.
    AddDuration,
    /// Use the fixed `end_time`.
    Fixed,
    /// Add the delay of the wake time after `anchor_start` to `anchor_end`.
    CarryDelay,
}

/// One schedule rule; it applies to wake times up to and including `until`.
#[derive(Clone, Copy, Debug, PartialEq, Eq)]
pub struct RuleConfig {
    pub until: Time,
    pub kind: RuleKind,
    pub duration_minutes: Option<i64>,
    pub end_time: Option<Time>,
    pub anchor_start: Option<Time>,
    pub anchor_end: Option<Time>,
}

/// Where wake events are looked for, and the time they are compared with.
#[derive(Clone, Copy, Debug, PartialEq, Eq)]
pub struct SearchConfig {
    pub target_time: Time,
    pub start_time: Time,
    pub end_time: Time,
}

/// The rules that estimate an end time, the latest end time allowed and how
/// long before the end time to remind.
#[derive(Clone, Debug, PartialEq, Eq)]
pub struct ScheduleConfig {
    pub max_end_time: Time,
    pub reminder_minutes: i64,
    pub rules: Vec<RuleConfig>,
}

/// How worked time is counted and judged.
#[derive(Clone, Copy, Debug, PartialEq, Eq)]
pub struct TimeAccountingConfig {
    pub reasonable_end_start: Time,
    pub reasonable_end_end: Time,
    pub break_start: Time,
    pub break_end: Time,
    pub daily_target_minutes: i64,
    pub anomaly_threshold_minutes: i64,
    pub monthly_summary_day: u32,
}

/// The whole configuration.
#[derive(Clone, Debug, PartialEq, Eq)]
pub struct Config {
    pub search: SearchConfig,
    pub schedule: ScheduleConfig,
    pub time_accounting: TimeAccountingConfig,
}

/// Whether the rules are ordered by strictly increasing `until`.
pub open spec fn rules_increasing(rules: Seq<RuleConfig>) -> bool {
    forall|a: int, b: int|
        #![trigger rules[a], rules[b]]
        0 <= a < b < rules.len() ==> instant(rules[a].until@) < instant(rules[b].until@)
}

/// What is wrong with a rule that lacks the values its kind needs, if anything.
pub open spec fn rule_problem(rule: RuleConfig) -> Option<Seq<char>> {
    match rule.kind {
        RuleKind::AddDuration => match rule.duration_minutes {
            Some(d) if d >= 0 => None,
            _ => Some("add_duration rule requires non-negative duration_minutes"@),
        },
        RuleKind::Fixed => if rule.end_time is Some {
            None
        } else {
            Some("fixed rule requires end_time"@)
        },
        RuleKind::CarryDelay => if rule.anchor_start is Some && rule.anchor_end is Some {
            None
        } else {
            Some("carry_delay rule requires anchor_start and anchor_end"@)
        },
    }
}

/// The problem of the first rule from index `i` on that has one.
pub open spec fn first_rule_problem(rules: Seq<RuleConfig>, i: int) -> Option<Seq<char>>
    decreases rules.len() - i,
{
    if i < 0 || i >= rules.len() {
        None
    } else {
        match rule_problem(rules[i]) {
            Some(m) => Some(m),
            None => first_rule_problem(rules, i + 1),
        }
    }
}

/// The first problem that `validate_config` reports for `config`, if any.
pub open spec fn config_problem(config: Config) -> Option<Seq<char>> {
    let rules = config.schedule.rules@;
    if instant(config.search.start_time@) > instant(config.search.end_time@) {
        Some("search.start_time must not be after search.end_time"@)
    } else if rules.len() == 0 {
        Some("schedule.rules must contain at least one rule"@)
    } else if config.schedule.reminder_minutes < 0 {
        Some("schedule.reminder_minutes must be non-negative"@)
    } else if !rules_increasing(rules) {
        Some("schedule.rules must be ordered by increasing `until` values"@)
    } else if instant(rules.last().until@) < instant(config.search.end_time@) {
        Some("the final schedule rule must cover search.end_time"@)
    } else {
        first_rule_problem(rules, 0)
    }
}

fn check_rule(rule: &RuleConfig) -> (r: Option<String>)
    ensures
        match r {
            Some(m) => rule_problem(*rule) == Some(m@),
            None => rule_problem(*rule) is None,
        },
{
    match rule.kind {
        RuleKind::AddDuration => match rule.duration_minutes {
            Some(d) => if d >= 0 {
                None
            } else {
                Some(String::from_str("add_duration rule requires non-negative duration_minutes"))
            },
            None => Some(String::from_str("add_duration rule requires non-negative duration_minutes")),
        },
        RuleKind::Fixed => if rule.end_time.is_some() {
            None
        } else {
            Some(String::from_str("fixed rule requires end_time"))
        },
        RuleKind::CarryDelay => if rule.anchor_start.is_some() && rule.anchor_end.is_some() {
            None
        } else {
            Some(String::from_str("carry_delay rule requires anchor_start and anchor_end"))
        },
    }
}

/// Checks that the configuration can be used: a search window that is not
/// reversed, at least one rule, a non-negative reminder, rules ordered by
/// increasing `until` with the last covering the end of the search window, and
/// every rule carrying the values its kind needs.
pub fn validate_config(config: &Config) -> (r: Result<(), String>)
    ensures
        match r {
            Ok(()) => config_problem(*config) is None,
            Err(e) => config_problem(*config) == Some(e@),
        },
{
    let rules = &config.schedule.rules;
    if config.search.end_time.is_before(config.search.start_time) {
        return Err(String::from_str("search.start_time must not be after search.end_time"));
    }
    if rules.len() == 0 {
        return Err(String::from_str("schedule.rules must contain at least one rule"));
    }
    if config.schedule.reminder_minutes < 0 {
        return Err(String::from_str("schedule.reminder_minutes must be non-negative"));
    }
    let mut i: usize = 0;
    while i + 1 < rules.len()
        invariant
            rules@ == config.schedule.rules@,
            rules.len() >= 1,
            i < rules.len(),
            instant(config.search.start_time@) <= instant(config.search.end_time@),
            config.schedule.reminder_minutes >= 0,
            forall|a: int, b: int|
                #![trigger rules@[a], rules@[b]]
                0 <= a < b <= i ==> instant(rules@[a].until@) < instant(rules@[b].until@),
        decreases rules.len() - i,
    {
        if !rules[i].until.is_before(rules[i + 1].until) {
            proof {
                assert(!(instant(rules@[i as int].until@) < instant(rules@[i + 1].until@)));
                assert(!rules_increasing(config.schedule.rules@));
            }
            return Err(
                String::from_str("schedule.rules must be ordered by increasing `until` values"),
            );
        }
        i += 1;
    }
    proof {
        assert(rules_increasing(rules@));
    }
    if rules[rules.len() - 1].until.is_before(config.search.end_time) {
        return Err(String::from_str("the final schedule rule must cover search.end_time"));
    }
    let mut k: usize = 0;
    while k < rules.len()
        invariant
            rules@ == config.schedule.rules@,
            k <= rules.len(),
            first_rule_problem(rules@, 0) == first_rule_problem(rules@, k as int),
            rules_increasing(rules@),
            instant(config.search.start_time@) <= instant(config.search.end_time@),
            config.schedule.reminder_minutes >= 0,
            rules.len() >= 1,
            instant(rules@.last().until@) >= instant(config.search.end_time@),
        decreases rules.len() - k,
    {
        match check_rule(&rules[k]) {
            Some(message) => {
                proof {
                    assert(first_rule_problem(rules@, k as int) == Some(message@));
                    assert(rules_increasing(config.schedule.rules@));
                }
                return Err(message);
            },
            None => {},
        }
        k += 1;
    }
    Ok(())
}

/// Whether `rule` has the values its kind needs, and a duration that a time
/// delta can hold.
pub open spec fn rule_applicable(rule: RuleConfig) -> bool {
    match rule.kind {
        RuleKind::AddDuration => match rule.duration_minutes {
            Some(d) => -MAX_DELTA_MINUTES <= d <= MAX_DELTA_MINUTES,
            None => false,
        },
        RuleKind::Fixed => rule.end_time is Some,
        RuleKind::CarryDelay => rule.anchor_start is Some && rule.anchor_end is Some,
    }
}

/// Whether `rule` can be applied to a wake time (see `rule_applicable`).
pub fn rule_is_applicable(rule: &RuleConfig) -> (r: bool)
    ensures
        r == rule_applicable(*rule),
{
    match rule.kind {
        RuleKind::AddDuration => match rule.duration_minutes {
            Some(d) => -MAX_DELTA_MINUTES <= d && d <= MAX_DELTA_MINUTES,
            None => false,
        },
        RuleKind::Fixed => rule.end_time.is_some(),
        RuleKind::CarryDelay => rule.anchor_start.is_some() && rule.anchor_end.is_some(),
    }
}


/// Whether `config` holds the default settings: wake events searched between
/// 05:00 and 14:00 around 09:00; nine hours after a wake before 10:00, 18:00
/// for a wake up to 13:00, 18:00 plus the delay after 13:00 for a wake up to
/// 14:00, never later than 19:00, with a reminder 10 minutes before; display-off
/// events between 15:00 and 23:00, a 12:00 to 13:00 break, 480 minutes a day,
/// 60 minutes of tolerance and a summary on the 15th.
pub open spec fn is_default_config(config: Config) -> bool {
    let rules = config.schedule.rules@;
    &&& config.search.target_time@ == (9 * 3600int, false)
    &&& config.search.start_time@ == (5 * 3600int, false)
    &&& config.search.end_time@ == (14 * 3600int, false)
    &&& config.schedule.max_end_time@ == (19 * 3600int, false)
    &&& config.schedule.reminder_minutes == 10
    &&& rules.len() == 3
    &&& rules[0].until@ == (10 * 3600int, false) && rules[0].kind == RuleKind::AddDuration
        && rules[0].duration_minutes == Some(540i64) && rules[0].end_time is None
        && rules[0].anchor_start is None && rules[0].anchor_end is None
    &&& rules[1].until@ == (13 * 3600int, false) && rules[1].kind == RuleKind::Fixed
        && rules[1].duration_minutes is None && (rules[1].end_time matches Some(t) && t@ == (18 * 3600int, false)) && rules[1].anchor_start is None && rules[1].anchor_end is None
    &&& rules[2].until@ == (14 * 3600int, false) && rules[2].kind == RuleKind::CarryDelay
        && rules[2].duration_minutes is None && rules[2].end_time is None && (
    rules[2].anchor_start matches Some(t) && t@ == (13 * 3600int, false)) && (rules[2].anchor_end matches Some(
        t,
    ) && t@ == (18 * 3600int, false))
    &&& config.time_accounting.reasonable_end_start@ == (15 * 3600int, false)
    &&& config.time_accounting.reasonable_end_end@ == (23 * 3600int, false)
    &&& config.time_accounting.break_start@ == (12 * 3600int, false)
    &&& config.time_accounting.break_end@ == (13 * 3600int, false)
    &&& config.time_accounting.daily_target_minutes == 480
    &&& config.time_accounting.anomaly_threshold_minutes == 60
    &&& config.time_accounting.monthly_summary_day == 15
}

fn at(hour: u32, minute: u32) -> (r: Time)
    requires
        hour < 24,
        minute < 60,
    ensures
        r@ == (hour * 3600 + minute * 60, false),
{
    Time::from_hms(hour, minute, 0).unwrap()
}

/// The default configuration (see `is_default_config`).
pub fn default_config() -> (r: Config)
    ensures
        is_default_config(r),
{
    let mut rules: Vec<RuleConfig> = Vec::new();
    rules.push(
        RuleConfig {
            until: at(10, 0),
            kind: RuleKind::AddDuration,
            duration_minutes: Some(540),
            end_time: None,
            anchor_start: None,
            anchor_end: None,
        },
    );
    rules.push(
        RuleConfig {
            until: at(13, 0),
            kind: RuleKind::Fixed,
            duration_minutes: None,
            end_time: Some(at(18, 0)),
            anchor_start: None,
            anchor_end: None,
        },
    );
    rules.push(
        RuleConfig {
            until: at(14, 0),
            kind: RuleKind::CarryDelay,
            duration_minutes: None,
            end_time: None,
            anchor_start: Some(at(13, 0)),
            anchor_end: Some(at(18, 0)),
        },
    );
    Config {
        search: SearchConfig { target_time: at(9, 0), start_time: at(5, 0), end_time: at(14, 0) },
        schedule: ScheduleConfig { max_end_time: at(19, 0), reminder_minutes: 10, rules },
        time_accounting: TimeAccountingConfig {
            reasonable_end_start: at(15, 0),
            reasonable_end_end: at(23, 0),
            break_start: at(12, 0),
            break_end: at(13, 0),
            daily_target_minutes: 480,
            anomaly_threshold_minutes: 60,
            monthly_summary_day: 15,
        },
    }
}

proof fn lemma_first_rule_problem_none(rules: Seq<RuleConfig>, i: int)
    requires
        0 <= i <= rules.len(),
    ensures
        first_rule_problem(rules, i) is None <==> forall|k: int|
            i <= k < rules.len() ==> rule_problem(#[trigger] rules[k]) is None,
    decreases rules.len() - i,
{
    if i < rules.len() {
        lemma_first_rule_problem_none(rules, i + 1);
    }
}

/// A configuration passes validation exactly when its search window is not
/// reversed, it has at least one rule, its reminder is not negative, its rules
/// are ordered by strictly increasing `until` with the last one reaching the
/// end of the search window, and every rule carries what its kind needs: a
/// non-negative duration for `add_duration`, an end time for `fixed`, both
/// anchors for `carry_delay`.
pub proof fn law_valid_config_is_complete(config: Config)
    ensures
        config_problem(config) is None <==> {
            let rules = config.schedule.rules@;
            &&& instant(config.search.start_time@) <= instant(config.search.end_time@)
            &&& rules.len() >= 1
            &&& config.schedule.reminder_minutes >= 0
            &&& forall|a: int|
                0 <= a < rules.len() - 1 ==> instant(#[trigger] rules[a].until@) < instant(
                    rules[a + 1].until@,
                )
            &&& instant(config.search.end_time@) <= instant(rules[rules.len() - 1].until@)
            &&& forall|k: int|
                0 <= k < rules.len() ==> {
                    &&& (#[trigger] rules[k]).kind == RuleKind::AddDuration ==> (
                    rules[k].duration_minutes matches Some(d) && d >= 0)
                    &&& rules[k].kind == RuleKind::Fixed ==> rules[k].end_time is Some
                    &&& rules[k].kind == RuleKind::CarryDelay ==> rules[k].anchor_start is Some
                        && rules[k].anchor_end is Some
                }
        },
{
    let rules = config.schedule.rules@;
    lemma_first_rule_problem_none(rules, 0);
    let adjacent = forall|a: int|
        0 <= a < rules.len() - 1 ==> instant(#[trigger] rules[a].until@) < instant(
            rules[a + 1].until@,
        );
    if adjacent {
        assert forall|a: int, b: int| 0 <= a < b < rules.len() implies #[trigger] instant(
            rules[a].until@,
        ) < instant(#[trigger] rules[b].until@) by {
            lemma_increasing_from_adjacent(rules, a, b);
        }
        assert(rules_increasing(rules));
    }
    if rules_increasing(rules) {
        assert forall|a: int| 0 <= a < rules.len() - 1 implies instant(
            #[trigger] rules[a].until@,
        ) < instant(rules[a + 1].until@) by {
            assert(instant(rules[a].until@) < instant(rules[a + 1].until@));
        }
    }
    assert forall|k: int| 0 <= k < rules.len() implies (rule_problem(#[trigger] rules[k]) is None
        <==> {
        &&& rules[k].kind == RuleKind::AddDuration ==> (rules[k].duration_minutes matches Some(d)
            && d >= 0)
        &&& rules[k].kind == RuleKind::Fixed ==> rules[k].end_time is Some
        &&& rules[k].kind == RuleKind::CarryDelay ==> rules[k].anchor_start is Some
            && rules[k].anchor_end is Some
    }) by {}
}

proof fn lemma_increasing_from_adjacent(rules: Seq<RuleConfig>, a: int, b: int)
    requires
        0 <= a < b < rules.len(),
        forall|c: int|
            0 <= c < rules.len() - 1 ==> instant(#[trigger] rules[c].until@) < instant(
                rules[c + 1].until@,
            ),
    ensures
        instant(rules[a].until@) < instant(rules[b].until@),
    decreases b - a,
{
    assert(instant(rules[b - 1].until@) < instant(rules[b].until@));
    if a < b - 1 {
        lemma_increasing_from_adjacent(rules, a, b - 1);
    }
}

/// The default configuration passes `validate_config`.
pub proof fn law_default_config_is_valid(config: Config)
    requires
        is_default_config(config),
    ensures
        config_problem(config) is None,
{
    let rules = config.schedule.rules@;
    assert(rules_increasing(rules));
    assert(first_rule_problem(rules, 3) is None);
    assert(first_rule_problem(rules, 2) is None);
    assert(first_rule_problem(rules, 1) is None);
    assert(first_rule_problem(rules, 0) is None);
}

} // verus!
