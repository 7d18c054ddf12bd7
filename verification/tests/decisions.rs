use limit_app::datetime::DateTime;
use limit_app::policy::{
    evaluate, AppUsageLimit, Config, EnforcementDecision, FocusedActivity,
};
use limit_app::usage::AppUsageInfo;

fn dt(year: u32, month: u32, day: u32, hour: u32, minute: u32, second: u32) -> DateTime {
    DateTime { year, month, day, hour, minute, second }
}

fn usage(pkg: &str, minutes: i64) -> AppUsageInfo {
    AppUsageInfo { package: String::from(pkg), duration: minutes }
}

fn focused(pkg: &str) -> Option<FocusedActivity> {
    Some(FocusedActivity { activity: String::from("Main"), package: String::from(pkg) })
}

fn limit(pkgs: &[&str], cap: u32, forbidden: &[(u32, u32)]) -> AppUsageLimit {
    AppUsageLimit {
        packages: pkgs.iter().map(|p| String::from(*p)).collect(),
        max_duration_per_day: cap,
        forbidden_time_ranges: forbidden.to_vec(),
    }
}

// 2024-11-23 is a Saturday; at 10:00 the week minute is 5 * 1440 + 600.
const SAT_10: (u32, u32, u32, u32, u32, u32) = (2024, 11, 23, 10, 0, 0);

fn sat10() -> DateTime {
    let (y, mo, d, h, mi, s) = SAT_10;
    dt(y, mo, d, h, mi, s)
}

#[test]
fn week_minutes_formula() {
    assert_eq!(sat10().week_minutes_exec(), 5 * 1440 + 600);
    assert_eq!(dt(2024, 11, 25, 0, 1, 30).week_minutes_exec(), 1);
}

#[test]
fn no_action_with_empty_config() {
    let config = Config { free_time_range: (0, 0), limits: vec![], sleep_time_range: vec![] };
    let totals = vec![usage("pkgA", 3)];
    let d = evaluate(&totals, &sat10(), &focused("pkgA"), &config);
    assert!(matches!(d, EnforcementDecision::NoAction));
}

#[test]
fn free_time_overrides_sleep() {
    // Free time covers the whole week; sleep covers the whole day.
    let config = Config {
        free_time_range: (0, 7 * 24 * 60),
        limits: vec![],
        sleep_time_range: vec![(0, 24 * 60)],
    };
    let d = evaluate(&vec![], &sat10(), &None, &config);
    assert!(matches!(d, EnforcementDecision::NoAction));
}

#[test]
fn sleep_overrides_force_stop() {
    // The focused app is over its cap and inside a forbidden range, but
    // the minute also lies in a sleep range: the device sleeps.
    let config = Config {
        free_time_range: (0, 0),
        limits: vec![limit(&["pkgA"], 30, &[(9 * 60, 11 * 60)])],
        sleep_time_range: vec![(9 * 60, 11 * 60)],
    };
    let totals = vec![usage("pkgA", 31)];
    let d = evaluate(&totals, &sat10(), &focused("pkgA"), &config);
    assert!(matches!(d, EnforcementDecision::ShutdownDevice));
}

#[test]
fn sleep_applies_without_focus() {
    let config = Config {
        free_time_range: (0, 0),
        limits: vec![],
        sleep_time_range: vec![(9 * 60, 11 * 60)],
    };
    let d = evaluate(&vec![], &sat10(), &None, &config);
    assert!(matches!(d, EnforcementDecision::ShutdownDevice));
}

#[test]
fn over_cap_stops_focused_app() {
    let config = Config {
        free_time_range: (0, 0),
        limits: vec![limit(&["pkgA"], 30, &[])],
        sleep_time_range: vec![],
    };
    let totals = vec![usage("pkgA", 31)];
    let d = evaluate(&totals, &sat10(), &focused("pkgA"), &config);
    match d {
        EnforcementDecision::ForceStopApp(p) => assert_eq!(p, "pkgA"),
        _ => panic!("expected ForceStopApp"),
    }
}

#[test]
fn exactly_at_cap_is_allowed() {
    let config = Config {
        free_time_range: (0, 0),
        limits: vec![limit(&["pkgA"], 30, &[])],
        sleep_time_range: vec![],
    };
    let totals = vec![usage("pkgA", 30)];
    let d = evaluate(&totals, &sat10(), &focused("pkgA"), &config);
    assert!(matches!(d, EnforcementDecision::NoAction));
}

#[test]
fn forbidden_range_stops_app_regardless_of_usage() {
    let config = Config {
        free_time_range: (0, 0),
        limits: vec![limit(&["pkgA"], 1000, &[(10 * 60, 10 * 60)])],
        sleep_time_range: vec![],
    };
    let totals = vec![];
    let d = evaluate(&totals, &sat10(), &focused("pkgA"), &config);
    assert!(matches!(d, EnforcementDecision::ForceStopApp(_)));
}

#[test]
fn limits_for_other_packages_do_not_apply() {
    let config = Config {
        free_time_range: (0, 0),
        limits: vec![limit(&["pkgB"], 0, &[(0, 24 * 60)])],
        sleep_time_range: vec![],
    };
    let totals = vec![usage("pkgA", 500), usage("pkgB", 500)];
    let d = evaluate(&totals, &sat10(), &focused("pkgA"), &config);
    assert!(matches!(d, EnforcementDecision::NoAction));
}

#[test]
fn any_matching_limit_suffices() {
    let config = Config {
        free_time_range: (0, 0),
        limits: vec![
            limit(&["pkgB"], 10, &[]),
            limit(&["pkgA", "pkgC"], 20, &[]),
        ],
        sleep_time_range: vec![],
    };
    let totals = vec![usage("pkgA", 21)];
    let d = evaluate(&totals, &sat10(), &focused("pkgA"), &config);
    assert!(matches!(d, EnforcementDecision::ForceStopApp(_)));
}

#[test]
fn free_time_boundaries_inclusive() {
    let wm = 5 * 1440 + 600;
    let config = Config { free_time_range: (wm, wm), limits: vec![], sleep_time_range: vec![(0, 24 * 60)] };
    let d = evaluate(&vec![], &sat10(), &None, &config);
    assert!(matches!(d, EnforcementDecision::NoAction));
}
