//! Choosing the wake and display-off events of a day from the power log, and
//! estimating the end of the workday from the wake time.

use vstd::prelude::*;
use crate::clock::{
    Date, Time, TimeView, chrono_format_date, chrono_format_time, elapsed, hms_text, instant,
    parse_time_chars, parsed_time, shifted, valid_time, ymd_text,
};
use crate::config::{Config, RuleConfig, RuleKind, ScheduleConfig, SearchConfig, is_default_config, rule_applicable};
use crate::text::{
    at_line_start, joined_lines, lemma_split_joined_lines, lemma_split_lines_at_break,
    single_lines, chars_of, contains, has_infix, has_prefix, lines_of, second_word, split_lines, starts_with,
    views_of, words,
};

verus! {

/// The view of an optional time.
pub open spec fn time_opt(t: Option<Time>) -> Option<TimeView> {
    match t {
        Some(t) => Some(t@),
        None => None,
    }
}

/// The views of the times in `ts`.
pub open spec fn times_of(ts: Seq<Time>) -> Seq<TimeView> {
    ts.map_values(|t: Time| t@)
}

/// The time of the event on `line`: the line must begin with the date `prefix`
/// and mention `marker`, and its second word must read as a time.
pub open spec fn event_time(line: Seq<char>, prefix: Seq<char>, marker: Seq<char>) -> Option<
    TimeView,
> {
    if starts_with(line, prefix) && contains(line, marker) && words(line).len() >= 2 {
        parsed_time(words(line)[1])
    } else {
        None
    }
}

/// The times of the events on `lines`, in the order of the lines.
pub open spec fn event_times(lines: Seq<Seq<char>>, prefix: Seq<char>, marker: Seq<char>) -> Seq<
    TimeView,
>
    decreases lines.len(),
{
    if lines.len() == 0 {
        Seq::empty()
    } else {
        let before = event_times(lines.drop_last(), prefix, marker);
        match event_time(lines.last(), prefix, marker) {
            Some(t) => before.push(t),
            None => before,
        }
    }
}

/// The times of the events of `date` that mention `marker` in the log text.
pub open spec fn log_event_times(log: Seq<char>, date: (int, int, int), marker: Seq<char>) -> Seq<
    TimeView,
> {
    event_times(split_lines(log), ymd_text(date), marker)
}

/// The times, in log order, of the lines of `log` that begin with `date`
/// (as `YYYY-MM-DD`) and mention `marker`.
pub fn log_events(log: &str, date: Date, marker: &str) -> (r: Vec<Time>)
    ensures
        times_of(r@) == log_event_times(log@, date@, marker@),
{
    let text = chars_of(log);
    let lines = lines_of(&text);
    let prefix = chars_of(chrono_format_date(date, "%Y-%m-%d").as_str());
    let pattern = chars_of(marker);
    let ghost all = views_of(lines@);
    let mut found: Vec<Time> = Vec::new();
    for i in 0..lines.len()
        invariant
            all == views_of(lines@),
            all == split_lines(log@),
            prefix@ == ymd_text(date@),
            pattern@ == marker@,
            times_of(found@) == event_times(all.take(i as int), prefix@, pattern@),
    {
        let line = &lines[i];
        proof {
            assert(all.take(i + 1).drop_last() == all.take(i as int));
            assert(all.take(i + 1).last() == line@);
        }
        let ghost before = found@;
        if has_prefix(line, &prefix) && has_infix(line, &pattern) {
            match second_word(line) {
                Some(word) => match parse_time_chars(&word) {
                    Some(t) => {
                        found.push(t);
                        proof {
                            assert(times_of(found@) =~= times_of(before).push(t@));
                        }
                    },
                    None => {},
                },
                None => {},
            }
        }
    }
    proof {
        assert(all.take(lines.len() as int) == all);
    }
    found
}

/// Distance in whole seconds between two times of day, as chrono counts the
/// seconds from `b` to `a`.
pub open spec fn distance(a: TimeView, b: TimeView) -> int {
    let d = elapsed(a, b);
    if d >= 0 {
        d
    } else {
        -d
    }
}

/// Whether `t` lies within `[start, end]`.
pub open spec fn in_window(t: TimeView, start: TimeView, end: TimeView) -> bool {
    instant(start) <= instant(t) && instant(t) <= instant(end)
}

/// Among the times of `ts` within `[start, end]`, the one closest to `target`;
/// of several equally close, the earliest in `ts`.
pub open spec fn closest_in(ts: Seq<TimeView>, start: TimeView, end: TimeView, target: TimeView) -> Option<
    TimeView,
>
    decreases ts.len(),
{
    if ts.len() == 0 {
        None
    } else {
        let best = closest_in(ts.drop_last(), start, end, target);
        let t = ts.last();
        if !in_window(t, start, end) {
            best
        } else {
            match best {
                None => Some(t),
                Some(b) => if distance(t, target) < distance(b, target) {
                    Some(t)
                } else {
                    Some(b)
                },
            }
        }
    }
}

/// Among the times of `ts` within `[start, end]`, the latest.
pub open spec fn latest_in(ts: Seq<TimeView>, start: TimeView, end: TimeView) -> Option<TimeView>
    decreases ts.len(),
{
    if ts.len() == 0 {
        None
    } else {
        let best = latest_in(ts.drop_last(), start, end);
        let t = ts.last();
        if !in_window(t, start, end) {
            best
        } else {
            match best {
                Some(b) if instant(b) >= instant(t) => Some(b),
                _ => Some(t),
            }
        }
    }
}

fn distance_exec(a: Time, b: Time) -> (r: i64)
    ensures
        r == distance(a@, b@),
{
    let d = a.seconds_since(b);
    if d >= 0 {
        d
    } else {
        -d
    }
}

/// Of `times`, the one within the search window closest to the target time
/// (the earliest of equally close ones), if any lies within the window.
pub fn closest_in_window(times: &Vec<Time>, search: &SearchConfig) -> (r: Option<Time>)
    ensures
        time_opt(r) == closest_in(
            times_of(times@),
            search.start_time@,
            search.end_time@,
            search.target_time@,
        ),
{
    let ghost ts = times_of(times@);
    let mut best: Option<Time> = None;
    for i in 0..times.len()
        invariant
            ts == times_of(times@),
            time_opt(best) == closest_in(
                ts.take(i as int),
                search.start_time@,
                search.end_time@,
                search.target_time@,
            ),
    {
        let t = times[i];
        proof {
            assert(ts.take(i + 1).drop_last() == ts.take(i as int));
            assert(ts.take(i + 1).last() == t@);
        }
        if !t.is_before(search.start_time) && !search.end_time.is_before(t) {
            match best {
                None => {
                    best = Some(t);
                },
                Some(b) => {
                    if distance_exec(t, search.target_time) < distance_exec(b, search.target_time) {
                        best = Some(t);
                    }
                },
            }
        }
    }
    proof {
        assert(ts.take(times.len() as int) == ts);
    }
    best
}

/// Of `times`, the latest within `[start, end]`, if any lies there.
pub fn latest_in_window(times: &Vec<Time>, start: Time, end: Time) -> (r: Option<Time>)
    ensures
        time_opt(r) == latest_in(times_of(times@), start@, end@),
{
    let ghost ts = times_of(times@);
    let mut best: Option<Time> = None;
    for i in 0..times.len()
        invariant
            ts == times_of(times@),
            time_opt(best) == latest_in(ts.take(i as int), start@, end@),
    {
        let t = times[i];
        proof {
            assert(ts.take(i + 1).drop_last() == ts.take(i as int));
            assert(ts.take(i + 1).last() == t@);
        }
        if !t.is_before(start) && !end.is_before(t) {
            match best {
                Some(b) => {
                    if b.is_before(t) {
                        best = Some(t);
                    }
                },
                None => {
                    best = Some(t);
                },
            }
        }
    }
    proof {
        assert(ts.take(times.len() as int) == ts);
    }
    best
}

/// The wake time of `date`: of the log's "Display is turned on" events of that
/// day within the search window, the one closest to the target time.
pub fn select_wake_event(log: &str, date: Date, search: &SearchConfig) -> (r: Option<Time>)
    ensures
        time_opt(r) == closest_in(
            log_event_times(log@, date@, "Display is turned on"@),
            search.start_time@,
            search.end_time@,
            search.target_time@,
        ),
{
    let times = log_events(log, date, "Display is turned on");
    closest_in_window(&times, search)
}


/// The index of the first rule from index `i` on whose `until` is not before
/// `wake`.
pub open spec fn first_matching_rule(rules: Seq<RuleConfig>, wake: TimeView, i: int) -> Option<int>
    decreases rules.len() - i,
{
    if i < 0 || i >= rules.len() {
        None
    } else if instant(wake) <= instant(rules[i].until@) {
        Some(i)
    } else {
        first_matching_rule(rules, wake, i + 1)
    }
}

/// The end time that `rule` gives for `wake`, before the cap.
pub open spec fn rule_end(rule: RuleConfig, wake: TimeView) -> TimeView {
    match rule.kind {
        RuleKind::AddDuration => shifted(wake, rule.duration_minutes->0 * 60),
        RuleKind::Fixed => rule.end_time->0@,
        RuleKind::CarryDelay => shifted(
            rule.anchor_end->0@,
            elapsed(wake, rule.anchor_start->0@),
        ),
    }
}

/// The capped end time of the first rule that matches `wake`, if one does.
pub open spec fn estimated_end(schedule: ScheduleConfig, wake: TimeView) -> Option<TimeView> {
    match first_matching_rule(schedule.rules@, wake, 0) {
        Some(i) => {
            let end = rule_end(schedule.rules@[i], wake);
            Some(
                if instant(schedule.max_end_time@) < instant(end) {
                    schedule.max_end_time@
                } else {
                    end
                },
            )
        },
        None => None,
    }
}

/// Whether the rule that matches `wake`, if any, can be applied.
pub open spec fn matching_rule_applicable(schedule: ScheduleConfig, wake: TimeView) -> bool {
    match first_matching_rule(schedule.rules@, wake, 0) {
        Some(i) => rule_applicable(schedule.rules@[i]),
        None => true,
    }
}

/// The message `estimate_end_time` fails with when no rule matches `wake`.
pub open spec fn no_rule_message(wake: TimeView) -> Seq<char> {
    "no schedule rule matches wake time "@ + hms_text(wake)
}

/// Estimates the end of the workday: the first rule whose `until` is not
/// before the wake time gives an end time, which is then capped at
/// `max_end_time`.  Adding durations wraps around midnight.
pub fn estimate_end_time(wake: Time, schedule: &ScheduleConfig) -> (r: Result<Time, String>)
    requires
        matching_rule_applicable(*schedule, wake@),
    ensures
        match estimated_end(*schedule, wake@) {
            Some(end) => r matches Ok(t) && t@ == end,
            None => r matches Err(e) && e@ == no_rule_message(wake@),
        },
{
    let rules = &schedule.rules;
    let mut i: usize = 0;
    while i < rules.len()
        invariant
            rules@ == schedule.rules@,
            i <= rules.len(),
            first_matching_rule(rules@, wake@, 0) == first_matching_rule(rules@, wake@, i as int),
            matching_rule_applicable(*schedule, wake@),
        decreases rules.len() - i,
    {
        let rule = &rules[i];
        if !rule.until.is_before(wake) {
            let calculated = match rule.kind {
                RuleKind::AddDuration => {
                    let minutes = rule.duration_minutes.unwrap();
                    wake.add_minutes_wrapping(minutes)
                },
                RuleKind::Fixed => rule.end_time.unwrap(),
                RuleKind::CarryDelay => {
                    let start = rule.anchor_start.unwrap();
                    let end = rule.anchor_end.unwrap();
                    end.add_seconds_wrapping(wake.seconds_since(start))
                },
            };
            return Ok(calculated.earliest(schedule.max_end_time));
        }
        i += 1;
    }
    let mut message = String::from_str("no schedule rule matches wake time ");
    let text = chrono_format_time(wake, "%H:%M:%S");
    message.append(text.as_str());
    Err(message)
}

/// `estimate_end_time`, or `None` where the rule matching `wake` lacks the
/// values its kind needs or holds a duration too large for a time delta.
pub fn try_estimate_end_time(wake: Time, schedule: &ScheduleConfig) -> (r: Option<
    Result<Time, String>,
>)
    ensures
        r is None <==> !matching_rule_applicable(*schedule, wake@),
        r matches Some(res) ==> match estimated_end(*schedule, wake@) {
            Some(end) => res matches Ok(t) && t@ == end,
            None => res matches Err(e) && e@ == no_rule_message(wake@),
        },
{
    let rules = &schedule.rules;
    let mut i: usize = 0;
    while i < rules.len()
        invariant
            rules@ == schedule.rules@,
            i <= rules.len(),
            first_matching_rule(rules@, wake@, 0) == first_matching_rule(rules@, wake@, i as int),
        decreases rules.len() - i,
    {
        if !rules[i].until.is_before(wake) {
            if !crate::config::rule_is_applicable(&rules[i]) {
                return None;
            }
            return Some(estimate_end_time(wake, schedule));
        }
        i += 1;
    }
    Some(estimate_end_time(wake, schedule))
}


/// The chosen event lies in the window and no event in the window is closer
/// to the target; there is none exactly when no event lies in the window.
pub proof fn law_closest_is_nearest(
    ts: Seq<TimeView>,
    start: TimeView,
    end: TimeView,
    target: TimeView,
)
    ensures
        closest_in(ts, start, end, target) is None <==> (forall|i: int|
            0 <= i < ts.len() ==> !in_window(#[trigger] ts[i], start, end)),
        closest_in(ts, start, end, target) matches Some(b) ==> {
            &&& in_window(b, start, end)
            &&& exists|i: int| 0 <= i < ts.len() && ts[i] == b
            &&& forall|j: int|
                0 <= j < ts.len() && in_window(#[trigger] ts[j], start, end) ==> distance(
                    b,
                    target,
                ) <= distance(ts[j], target)
        },
    decreases ts.len(),
{
    if ts.len() > 0 {
        let init = ts.drop_last();
        law_closest_is_nearest(init, start, end, target);
        assert(forall|i: int| 0 <= i < init.len() ==> init[i] == ts[i]);
        match closest_in(ts, start, end, target) {
            Some(b) => {
                if b == ts.last() {
                    assert(ts[ts.len() - 1] == b);
                } else {
                    let i = choose|i: int| 0 <= i < init.len() && init[i] == b;
                    assert(ts[i] == b);
                }
            },
            None => {},
        }
    }
}

/// The distance between two times is the plain number of seconds between
/// them, the same seen from either side: zero from a time to itself, the
/// difference of the seconds since midnight for ordinary times, and one second
/// between a leap second and either of its neighbours.
pub proof fn law_distance_is_seconds_apart(a: TimeView, b: TimeView)
    ensures
        distance(a, b) == distance(b, a),
        distance(a, a) == 0,
        distance(a, b) >= 0,
        !a.1 && !b.1 ==> distance(a, b) == if a.0 >= b.0 {
            a.0 - b.0
        } else {
            b.0 - a.0
        },
        a.1 && !b.1 && (b.0 == a.0 || b.0 == a.0 + 1) ==> distance(a, b) == 1,
{
}

/// The wake time chosen among ordinary times is, of the times in the window,
/// one with the fewest seconds to the target, whichever side of the target
/// each lies on.
pub proof fn law_closest_has_fewest_seconds(
    ts: Seq<TimeView>,
    start: TimeView,
    end: TimeView,
    target: TimeView,
)
    requires
        !target.1,
        forall|i: int| 0 <= i < ts.len() ==> !(#[trigger] ts[i]).1,
    ensures
        closest_in(ts, start, end, target) matches Some(b) ==> forall|j: int|
            0 <= j < ts.len() && in_window(#[trigger] ts[j], start, end) ==> (if b.0 >= target.0 {
                b.0 - target.0
            } else {
                target.0 - b.0
            }) <= (if ts[j].0 >= target.0 {
                ts[j].0 - target.0
            } else {
                target.0 - ts[j].0
            }),
{
    law_closest_is_nearest(ts, start, end, target);
    match closest_in(ts, start, end, target) {
        Some(b) => {
            let i = choose|i: int| 0 <= i < ts.len() && ts[i] == b;
            assert(!ts[i].1);
            assert forall|j: int| 0 <= j < ts.len() && in_window(#[trigger] ts[j], start, end) implies (if b.0
                >= target.0 {
                b.0 - target.0
            } else {
                target.0 - b.0
            }) <= (if ts[j].0 >= target.0 {
                ts[j].0 - target.0
            } else {
                target.0 - ts[j].0
            }) by {
                law_distance_is_seconds_apart(b, target);
                law_distance_is_seconds_apart(ts[j], target);
            }
        },
        None => {},
    }
}

/// The latest event in the window lies in the window and no event in the
/// window is later; there is none exactly when no event lies in the window.
pub proof fn law_latest_is_last(ts: Seq<TimeView>, start: TimeView, end: TimeView)
    ensures
        latest_in(ts, start, end) is None <==> (forall|i: int|
            0 <= i < ts.len() ==> !in_window(#[trigger] ts[i], start, end)),
        latest_in(ts, start, end) matches Some(b) ==> {
            &&& in_window(b, start, end)
            &&& exists|i: int| 0 <= i < ts.len() && ts[i] == b
            &&& forall|j: int|
                0 <= j < ts.len() && in_window(#[trigger] ts[j], start, end) ==> instant(ts[j])
                    <= instant(b)
        },
    decreases ts.len(),
{
    if ts.len() > 0 {
        let init = ts.drop_last();
        law_latest_is_last(init, start, end);
        assert(forall|i: int| 0 <= i < init.len() ==> init[i] == ts[i]);
        match latest_in(ts, start, end) {
            Some(b) => {
                if b == ts.last() {
                    assert(ts[ts.len() - 1] == b);
                } else {
                    let i = choose|i: int| 0 <= i < init.len() && init[i] == b;
                    assert(ts[i] == b);
                }
            },
            None => {},
        }
    }
}

proof fn lemma_event_times_concat(
    a: Seq<Seq<char>>,
    b: Seq<Seq<char>>,
    prefix: Seq<char>,
    marker: Seq<char>,
)
    ensures
        event_times(a + b, prefix, marker) == event_times(a, prefix, marker) + event_times(
            b,
            prefix,
            marker,
        ),
    decreases b.len(),
{
    if b.len() == 0 {
        assert(a + b =~= a);
        assert(event_times(a, prefix, marker) + event_times(b, prefix, marker) =~= event_times(
            a,
            prefix,
            marker,
        ));
    } else {
        lemma_event_times_concat(a, b.drop_last(), prefix, marker);
        assert((a + b).drop_last() =~= a + b.drop_last());
        assert((a + b).last() == b.last());
        assert(event_times(a + b, prefix, marker) =~= event_times(a, prefix, marker) + event_times(
            b,
            prefix,
            marker,
        ));
    }
}

proof fn lemma_closest_skips(
    a: Seq<TimeView>,
    t: TimeView,
    b: Seq<TimeView>,
    start: TimeView,
    end: TimeView,
    target: TimeView,
)
    requires
        !in_window(t, start, end),
    ensures
        closest_in(a + seq![t] + b, start, end, target) == closest_in(a + b, start, end, target),
    decreases b.len(),
{
    if b.len() == 0 {
        assert(a + seq![t] + b =~= a.push(t));
        assert(a.push(t).drop_last() =~= a);
        assert(a + b =~= a);
    } else {
        lemma_closest_skips(a, t, b.drop_last(), start, end, target);
        assert((a + seq![t] + b).drop_last() =~= a + seq![t] + b.drop_last());
        assert((a + seq![t] + b).last() == b.last());
        assert((a + b).drop_last() =~= a + b.drop_last());
        assert((a + b).last() == b.last());
    }
}

/// A line that is not a display event of the day within the window leaves the
/// chosen event unchanged, wherever it stands among the lines.
pub proof fn law_irrelevant_line_ignored(
    lines: Seq<Seq<char>>,
    i: int,
    line: Seq<char>,
    prefix: Seq<char>,
    marker: Seq<char>,
    start: TimeView,
    end: TimeView,
    target: TimeView,
)
    requires
        0 <= i <= lines.len(),
        event_time(line, prefix, marker) matches Some(t) ==> !in_window(t, start, end),
    ensures
        closest_in(event_times(lines.insert(i, line), prefix, marker), start, end, target)
            == closest_in(event_times(lines, prefix, marker), start, end, target),
{
    let front = lines.take(i);
    let back = lines.skip(i);
    assert(lines.insert(i, line) =~= front + seq![line] + back);
    assert(lines =~= front + back);
    lemma_event_times_concat(front + seq![line], back, prefix, marker);
    lemma_event_times_concat(front, seq![line], prefix, marker);
    lemma_event_times_concat(front, back, prefix, marker);
    let one = seq![line];
    assert(one.drop_last() =~= Seq::<Seq<char>>::empty());
    assert(one.last() == line);
    assert(event_times(Seq::<Seq<char>>::empty(), prefix, marker) =~= Seq::<TimeView>::empty());
    let ef = event_times(front, prefix, marker);
    let eb = event_times(back, prefix, marker);
    match event_time(line, prefix, marker) {
        Some(t) => {
            assert(event_times(one, prefix, marker) =~= seq![t]);
            assert(ef + seq![t] + eb =~= ef + event_times(one, prefix, marker) + eb);
            lemma_closest_skips(ef, t, eb, start, end, target);
        },
        None => {
            assert(event_times(one, prefix, marker) =~= Seq::<TimeView>::empty());
            assert(ef + event_times(one, prefix, marker) =~= ef);
        },
    }
}

proof fn lemma_events_out_of_window(
    lines: Seq<Seq<char>>,
    prefix: Seq<char>,
    marker: Seq<char>,
    start: TimeView,
    end: TimeView,
)
    requires
        forall|k: int|
            0 <= k < lines.len() ==> (#[trigger] event_time(lines[k], prefix, marker) matches Some(
                t,
            ) ==> !in_window(t, start, end)),
    ensures
        forall|i: int|
            0 <= i < event_times(lines, prefix, marker).len() ==> !in_window(
                #[trigger] event_times(lines, prefix, marker)[i],
                start,
                end,
            ),
    decreases lines.len(),
{
    if lines.len() > 0 {
        let init = lines.drop_last();
        assert forall|k: int| 0 <= k < init.len() implies (#[trigger] event_time(
            init[k],
            prefix,
            marker,
        ) matches Some(t) ==> !in_window(t, start, end)) by {
            assert(init[k] == lines[k]);
        }
        lemma_events_out_of_window(init, prefix, marker, start, end);
        assert(event_time(lines[lines.len() - 1], prefix, marker) == event_time(
            lines.last(),
            prefix,
            marker,
        ));
        let before = event_times(init, prefix, marker);
        let all = event_times(lines, prefix, marker);
        assert forall|i: int| 0 <= i < all.len() implies !in_window(#[trigger] all[i], start, end) by {
            if i < before.len() {
                assert(all[i] == before[i]);
            }
        }
    }
}

proof fn lemma_closest_skips_many(
    a: Seq<TimeView>,
    m: Seq<TimeView>,
    b: Seq<TimeView>,
    start: TimeView,
    end: TimeView,
    target: TimeView,
)
    requires
        forall|i: int| 0 <= i < m.len() ==> !in_window(#[trigger] m[i], start, end),
    ensures
        closest_in(a + m + b, start, end, target) == closest_in(a + b, start, end, target),
    decreases m.len(),
{
    if m.len() == 0 {
        assert(a + m + b =~= a + b);
    } else {
        let init = m.drop_last();
        let t = m.last();
        assert(!in_window(m[m.len() - 1], start, end));
        assert(a + m + b =~= (a + init) + seq![t] + b);
        lemma_closest_skips(a + init, t, b, start, end, target);
        assert forall|i: int| 0 <= i < init.len() implies !in_window(#[trigger] init[i], start, end) by {
            assert(init[i] == m[i]);
        }
        lemma_closest_skips_many(a, init, b, start, end, target);
    }
}

/// Whole lines put into the log at a line break leave the chosen wake time
/// unchanged when none of them is a display-on event of the day within the
/// search window: lines of other days, lines without the marker, lines whose
/// second word is no time, and events outside the window are all ignored.
/// Applied again, this covers lines put in at several places.
pub proof fn law_irrelevant_lines_ignored(
    before: Seq<char>,
    extra: Seq<Seq<char>>,
    after: Seq<char>,
    date: (int, int, int),
    search: SearchConfig,
)
    requires
        at_line_start(before),
        single_lines(extra),
        forall|k: int|
            0 <= k < extra.len() ==> (#[trigger] event_time(
                extra[k],
                ymd_text(date),
                "Display is turned on"@,
            ) matches Some(t) ==> !in_window(t, search.start_time@, search.end_time@)),
    ensures
        closest_in(
            log_event_times(before + joined_lines(extra) + after, date, "Display is turned on"@),
            search.start_time@,
            search.end_time@,
            search.target_time@,
        ) == closest_in(
            log_event_times(before + after, date, "Display is turned on"@),
            search.start_time@,
            search.end_time@,
            search.target_time@,
        ),
{
    let prefix = ymd_text(date);
    let marker = "Display is turned on"@;
    let joined = joined_lines(extra);
    lemma_split_joined_lines(extra);
    assert(before + joined + after =~= before + (joined + after));
    lemma_split_lines_at_break(before, joined + after);
    lemma_split_lines_at_break(joined, after);
    lemma_split_lines_at_break(before, after);
    assert(extra.push(Seq::<char>::empty()).drop_last() =~= extra);
    let lb = split_lines(before).drop_last();
    let ls = split_lines(after);
    lemma_event_times_concat(lb, extra + ls, prefix, marker);
    lemma_event_times_concat(extra, ls, prefix, marker);
    lemma_event_times_concat(lb, ls, prefix, marker);
    let eb = event_times(lb, prefix, marker);
    let ex = event_times(extra, prefix, marker);
    let es = event_times(ls, prefix, marker);
    assert(eb + (ex + es) =~= eb + ex + es);
    lemma_events_out_of_window(extra, prefix, marker, search.start_time@, search.end_time@);
    lemma_closest_skips_many(eb, ex, es, search.start_time@, search.end_time@, search.target_time@);
}

/// An estimated end time is never later than `max_end_time`.
pub proof fn law_end_is_capped(schedule: ScheduleConfig, wake: TimeView)
    ensures
        estimated_end(schedule, wake) matches Some(end) ==> instant(end) <= instant(
            schedule.max_end_time@,
        ),
{
}

/// The default schedule: a wake up to 10:00 ends nine hours later, one up to
/// 13:00 at 18:00, one up to 14:00 at 18:00 plus the delay after 13:00; no rule
/// matches a later wake.
pub open spec fn default_end(wake: TimeView) -> Option<TimeView> {
    if instant(wake) <= instant((10 * 3600int, false)) {
        Some((wake.0 + 9 * 3600, false))
    } else if instant(wake) <= instant((13 * 3600int, false)) {
        Some((18 * 3600int, false))
    } else if instant(wake) <= instant((14 * 3600int, false)) {
        Some((18 * 3600 + elapsed(wake, (13 * 3600int, false)), false))
    } else {
        None
    }
}

/// Under the default configuration the schedule gives the end times of
/// `default_end`, and every matching rule can be applied.
pub proof fn law_default_schedule(config: Config, wake: TimeView)
    requires
        is_default_config(config),
        valid_time(wake),
    ensures
        estimated_end(config.schedule, wake) == default_end(wake),
        matching_rule_applicable(config.schedule, wake),
{
    let rules = config.schedule.rules@;
    assert(first_matching_rule(rules, wake, 3) is None);
    if instant(wake) <= instant((10 * 3600int, false)) {
        assert(first_matching_rule(rules, wake, 0) == Some(0int));
        vstd::arithmetic::div_mod::lemma_small_mod((wake.0 + 540 * 60) as nat, 86400);
    } else if instant(wake) <= instant((13 * 3600int, false)) {
        assert(first_matching_rule(rules, wake, 1) == Some(1int));
        assert(first_matching_rule(rules, wake, 0) == Some(1int));
    } else if instant(wake) <= instant((14 * 3600int, false)) {
        assert(first_matching_rule(rules, wake, 2) == Some(2int));
        assert(first_matching_rule(rules, wake, 1) == Some(2int));
        assert(first_matching_rule(rules, wake, 0) == Some(2int));
        vstd::arithmetic::div_mod::lemma_small_mod(
            (18 * 3600 + elapsed(wake, (13 * 3600int, false))) as nat,
            86400,
        );
    } else {
        assert(first_matching_rule(rules, wake, 2) is None);
        assert(first_matching_rule(rules, wake, 1) is None);
        assert(first_matching_rule(rules, wake, 0) is None);
    }
}

/// Rules are tried from the top: the rule used is the first whose `until` is
/// not before the wake time, and none is used when every `until` is before it.
pub proof fn law_first_matching_rule(rules: Seq<RuleConfig>, wake: TimeView, from: int)
    requires
        0 <= from <= rules.len(),
    ensures
        first_matching_rule(rules, wake, from) matches Some(i) ==> {
            &&& from <= i < rules.len()
            &&& instant(wake) <= instant(rules[i].until@)
            &&& forall|j: int|
                from <= j < i ==> instant(wake) > instant(#[trigger] rules[j].until@)
        },
        first_matching_rule(rules, wake, from) is None <==> forall|j: int|
            from <= j < rules.len() ==> instant(wake) > instant(#[trigger] rules[j].until@),
    decreases rules.len() - from,
{
    if from < rules.len() {
        law_first_matching_rule(rules, wake, from + 1);
    }
}

} // verus!
