//! Policy evaluation: from usage totals, the current instant and the
//! focused application to one enforcement decision.
//!
//! A weekly free-time window exempts everything, sleep windows included.
//! Outside free time, a minute of day inside any sleep window shuts the
//! device down, and this takes priority over stopping an over-limit
//! application.  Otherwise the focused application is stopped when some
//! limit covering it is exceeded for the day or forbids the current
//! minute of day.  In every other case nothing is done.

use vstd::prelude::*;

use crate::datetime::{minute_of_day, week_minutes, DateTime};
use crate::textscan::str_eq;
use crate::usage::AppUsageInfo;

verus! {

/// One configured limit: the packages it covers, their shared daily cap
/// in minutes, and minute-of-day ranges in which they are forbidden.
#[derive(Debug)]
pub struct AppUsageLimit {
    pub packages: Vec<String>,
    pub max_duration_per_day: u32,
    pub forbidden_time_ranges: Vec<(u32, u32)>,
}

/// The full policy: a weekly free-time window in minutes from Monday
/// 00:00, the per-application limits, and daily sleep windows in minutes
/// from midnight.
#[derive(Debug)]
pub struct Config {
    pub free_time_range: (u32, u32),
    pub limits: Vec<AppUsageLimit>,
    pub sleep_time_range: Vec<(u32, u32)>,
}

/// The application currently holding input focus.
#[derive(Clone, Debug)]
pub struct FocusedActivity {
    pub activity: String,
    pub package: String,
}

/// The outcome of one evaluation cycle.
#[derive(Clone, Debug)]
pub enum EnforcementDecision {
    NoAction,
    ShutdownDevice,
    ForceStopApp(String),
}

/// The mathematical shape of a decision, with text as a character
/// sequence.
pub enum DecisionModel {
    NoAction,
    ShutdownDevice,
    ForceStopApp(Seq<char>),
}

impl View for EnforcementDecision {
    type V = DecisionModel;

    open spec fn view(&self) -> DecisionModel {
        match self {
            EnforcementDecision::NoAction => DecisionModel::NoAction,
            EnforcementDecision::ShutdownDevice => DecisionModel::ShutdownDevice,
            EnforcementDecision::ForceStopApp(p) => DecisionModel::ForceStopApp(p@),
        }
    }
}

/// `x` lies in the inclusive minute range `r`.
pub open spec fn in_minute_range(x: int, r: (u32, u32)) -> bool {
    r.0 <= x && x <= r.1
}

/// `x` lies in some range of `ranges`.
pub open spec fn in_any_range(ranges: Seq<(u32, u32)>, x: int) -> bool {
    exists|i: int| 0 <= i < ranges.len() && in_minute_range(x, ranges[i])
}

/// The current week minute falls in the free-time window.
pub open spec fn is_free_time(config: Config, now: DateTime) -> bool {
    in_minute_range(week_minutes(now), config.free_time_range)
}

/// The current minute of day falls in some sleep window.
pub open spec fn is_sleep_time(config: Config, now: DateTime) -> bool {
    in_any_range(config.sleep_time_range@, minute_of_day(now))
}

/// Minutes recorded for `pkg`: the first entry for it, if any.
pub open spec fn usage_lookup(totals: Seq<AppUsageInfo>, pkg: Seq<char>) -> Option<int>
    decreases totals.len(),
{
    if totals.len() == 0 {
        None
    } else if totals[0].package@ == pkg {
        Some(totals[0].duration as int)
    } else {
        usage_lookup(totals.skip(1), pkg)
    }
}

/// The limit covers the package.
pub open spec fn limit_applies(l: AppUsageLimit, pkg: Seq<char>) -> bool {
    exists|i: int| 0 <= i < l.packages@.len() && l.packages@[i]@ == pkg
}

/// The package's recorded daily minutes strictly exceed the limit's cap.
pub open spec fn over_cap(l: AppUsageLimit, totals: Seq<AppUsageInfo>, pkg: Seq<char>) -> bool {
    usage_lookup(totals, pkg) matches Some(d) && d > l.max_duration_per_day as int
}

/// One limit forbids the package right now: it covers the package and the
/// package is over its cap or the current minute lies in a forbidden
/// range of that limit.
pub open spec fn limit_forbids(
    l: AppUsageLimit,
    totals: Seq<AppUsageInfo>,
    pkg: Seq<char>,
    now: DateTime,
) -> bool {
    limit_applies(l, pkg) && (over_cap(l, totals, pkg) || in_any_range(
        l.forbidden_time_ranges@,
        minute_of_day(now),
    ))
}

/// Some configured limit forbids the package right now.
pub open spec fn is_forbidden(
    config: Config,
    totals: Seq<AppUsageInfo>,
    pkg: Seq<char>,
    now: DateTime,
) -> bool {
    exists|i: int|
        0 <= i < config.limits@.len() && limit_forbids(config.limits@[i], totals, pkg, now)
}

/// The decision for one cycle: free time exempts everything; otherwise
/// sleep wins over stopping an application; otherwise a forbidden focused
/// application is stopped; otherwise nothing is done.
pub open spec fn spec_decision(
    totals: Seq<AppUsageInfo>,
    now: DateTime,
    focused: Option<FocusedActivity>,
    config: Config,
) -> DecisionModel {
    if is_free_time(config, now) {
        DecisionModel::NoAction
    } else if is_sleep_time(config, now) {
        DecisionModel::ShutdownDevice
    } else if focused matches Some(f) && is_forbidden(config, totals, f.package@, now) {
        DecisionModel::ForceStopApp(focused->Some_0.package@)
    } else {
        DecisionModel::NoAction
    }
}

/// Free time exempts everything: inside the free-time window the decision
/// is to do nothing, whatever the sleep windows, limits, usage or focus
/// say.
pub proof fn lemma_free_time_overrides_sleep(
    totals: Seq<AppUsageInfo>,
    now: DateTime,
    focused: Option<FocusedActivity>,
    config: Config,
)
    requires
        is_free_time(config, now),
    ensures
        spec_decision(totals, now, focused, config) == DecisionModel::NoAction,
{
}

/// Sleep wins over application enforcement: outside free time, a minute
/// of day inside a sleep window always shuts the device down, even when
/// a focused application is over its cap or in a forbidden range.
pub proof fn lemma_sleep_overrides_app_limit(
    totals: Seq<AppUsageInfo>,
    now: DateTime,
    focused: Option<FocusedActivity>,
    config: Config,
)
    requires
        !is_free_time(config, now),
        is_sleep_time(config, now),
    ensures
        spec_decision(totals, now, focused, config) == DecisionModel::ShutdownDevice,
{
}

/// Whether `x` lies in any of `ranges`.
fn in_ranges_exec(ranges: &Vec<(u32, u32)>, x: u32) -> (r: bool)
    ensures
        r == in_any_range(ranges@, x as int),
{
    let mut i: usize = 0;
    while i < ranges.len()
        invariant
            i <= ranges@.len(),
            forall|j: int| 0 <= j < i ==> !in_minute_range(x as int, ranges@[j]),
        decreases ranges@.len() - i,
    {
        let range = ranges[i];
        if range.0 <= x && x <= range.1 {
            return true;
        }
        i = i + 1;
    }
    false
}

/// Whether `packages` names `pkg`.
fn contains_package(packages: &Vec<String>, pkg: &str) -> (r: bool)
    ensures
        r == exists|i: int| 0 <= i < packages@.len() && packages@[i]@ == pkg@,
{
    let mut i: usize = 0;
    while i < packages.len()
        invariant
            i <= packages@.len(),
            forall|j: int| 0 <= j < i ==> packages@[j]@ != pkg@,
        decreases packages@.len() - i,
    {
        if str_eq(packages[i].as_str(), pkg) {
            return true;
        }
        i = i + 1;
    }
    false
}

/// Recorded minutes for `pkg`: the first entry for it, if any.
fn usage_minutes(totals: &Vec<AppUsageInfo>, pkg: &str) -> (r: Option<i64>)
    ensures
        match r {
            Some(d) => usage_lookup(totals@, pkg@) == Some(d as int),
            None => usage_lookup(totals@, pkg@) is None,
        },
{
    let mut i: usize = 0;
    proof {
        assert(totals@.skip(0) =~= totals@);
    }
    while i < totals.len()
        invariant
            i <= totals@.len(),
            usage_lookup(totals@, pkg@) == usage_lookup(totals@.skip(i as int), pkg@),
        decreases totals@.len() - i,
    {
        proof {
            assert(totals@.skip(i as int)[0] == totals@[i as int]);
            assert(totals@.skip(i as int).skip(1) =~= totals@.skip(i + 1));
        }
        if str_eq(totals[i].package.as_str(), pkg) {
            return Some(totals[i].duration);
        }
        i = i + 1;
    }
    None
}

/// Evaluate the policy for one cycle.
///
/// Returns the decision `spec_decision` describes: `NoAction` inside the
/// free-time window; otherwise `ShutdownDevice` when the minute of day
/// lies in a sleep window; otherwise `ForceStopApp` of the focused
/// package when a limit covering it is exceeded or forbids this minute;
/// otherwise `NoAction`.
pub fn evaluate(
    totals: &Vec<AppUsageInfo>,
    now: &DateTime,
    focused: &Option<FocusedActivity>,
    config: &Config,
) -> (r: EnforcementDecision)
    requires
        now.wf(),
    ensures
        r@ == spec_decision(totals@, *now, *focused, *config),
{
    let wm = now.week_minutes_exec();
    if config.free_time_range.0 <= wm && wm <= config.free_time_range.1 {
        return EnforcementDecision::NoAction;
    }
    let md = now.minute_of_day_exec();
    if in_ranges_exec(&config.sleep_time_range, md) {
        return EnforcementDecision::ShutdownDevice;
    }
    let f = match focused {
        None => {
            return EnforcementDecision::NoAction;
        },
        Some(f) => f,
    };
    let usage = usage_minutes(totals, f.package.as_str());
    let mut forbidden = false;
    let mut i: usize = 0;
    while i < config.limits.len()
        invariant
            i <= config.limits@.len(),
            forbidden == exists|j: int|
                0 <= j < i && limit_forbids(config.limits@[j], totals@, f.package@, *now),
            match usage {
                Some(d) => usage_lookup(totals@, f.package@) == Some(d as int),
                None => usage_lookup(totals@, f.package@) is None,
            },
            now.wf(),
            md == minute_of_day(*now),
        decreases config.limits@.len() - i,
    {
        let l = &config.limits[i];
        let applies = contains_package(&l.packages, f.package.as_str());
        let mut this_bad = false;
        if applies {
            match usage {
                Some(d) => {
                    if d > l.max_duration_per_day as i64 {
                        this_bad = true;
                    }
                },
                None => {},
            }
            if !this_bad {
                this_bad = in_ranges_exec(&l.forbidden_time_ranges, md);
            }
        }
        proof {
            assert(this_bad == limit_forbids(config.limits@[i as int], totals@, f.package@, *now));
            if forbidden || this_bad {
                let j = if this_bad {
                    i as int
                } else {
                    choose|j: int|
                        0 <= j < i && limit_forbids(config.limits@[j], totals@, f.package@, *now)
                };
                assert(limit_forbids(config.limits@[j], totals@, f.package@, *now));
            }
        }
        forbidden = forbidden || this_bad;
        i = i + 1;
    }
    if forbidden {
        EnforcementDecision::ForceStopApp(f.package.clone())
    } else {
        EnforcementDecision::NoAction
    }
}

} // verus!
