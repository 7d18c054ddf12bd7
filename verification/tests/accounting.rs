use limit_app::datetime::DateTime;
use limit_app::extract::{parse, UsageStatsEvent};
use limit_app::usage::get_app_usage_info;

fn dt(year: u32, month: u32, day: u32, hour: u32, minute: u32, second: u32) -> DateTime {
    DateTime { year, month, day, hour, minute, second }
}

fn ev(kind: &str, pkg: &str, time: DateTime) -> UsageStatsEvent {
    UsageStatsEvent { time, event_type: String::from(kind), package: String::from(pkg) }
}

#[test]
fn single_session_three_minutes() {
    let events = vec![
        ev("ACTIVITY_RESUMED", "pkgA", dt(2024, 11, 23, 10, 0, 0)),
        ev("ACTIVITY_PAUSED", "pkgA", dt(2024, 11, 23, 10, 3, 0)),
    ];
    let totals = get_app_usage_info(&events, &dt(2024, 11, 23, 12, 0, 0));
    assert_eq!(totals.len(), 1);
    assert_eq!(totals[0].package, "pkgA");
    assert_eq!(totals[0].duration, 3);
}

#[test]
fn seconds_truncate_not_round() {
    let events = vec![
        ev("ACTIVITY_RESUMED", "pkgA", dt(2024, 11, 23, 10, 0, 0)),
        ev("ACTIVITY_PAUSED", "pkgA", dt(2024, 11, 23, 10, 1, 59)),
    ];
    let totals = get_app_usage_info(&events, &dt(2024, 11, 23, 12, 0, 0));
    assert_eq!(totals[0].duration, 1);
}

#[test]
fn session_before_3am_clipped_to_zero() {
    let events = vec![
        ev("ACTIVITY_RESUMED", "pkgA", dt(2024, 11, 23, 2, 0, 0)),
        ev("ACTIVITY_PAUSED", "pkgA", dt(2024, 11, 23, 2, 30, 0)),
    ];
    let totals = get_app_usage_info(&events, &dt(2024, 11, 23, 9, 0, 0));
    assert_eq!(totals.len(), 1);
    assert_eq!(totals[0].duration, 0);
}

#[test]
fn session_crossing_3am_counts_after_3am_only() {
    let events = vec![
        ev("ACTIVITY_RESUMED", "pkgA", dt(2024, 11, 23, 2, 30, 0)),
        ev("ACTIVITY_PAUSED", "pkgA", dt(2024, 11, 23, 3, 30, 0)),
    ];
    let totals = get_app_usage_info(&events, &dt(2024, 11, 23, 9, 0, 0));
    assert_eq!(totals.len(), 1);
    assert_eq!(totals[0].duration, 30);
}

#[test]
fn no_clipping_while_now_before_3am() {
    let events = vec![
        ev("ACTIVITY_RESUMED", "pkgA", dt(2024, 11, 23, 1, 0, 0)),
        ev("ACTIVITY_PAUSED", "pkgA", dt(2024, 11, 23, 2, 0, 0)),
    ];
    let totals = get_app_usage_info(&events, &dt(2024, 11, 23, 2, 45, 0));
    assert_eq!(totals[0].duration, 60);
}

#[test]
fn double_resume_keeps_later_timestamp() {
    let events = vec![
        ev("ACTIVITY_RESUMED", "pkgA", dt(2024, 11, 23, 10, 0, 0)),
        ev("ACTIVITY_RESUMED", "pkgA", dt(2024, 11, 23, 10, 10, 0)),
        ev("ACTIVITY_PAUSED", "pkgA", dt(2024, 11, 23, 10, 20, 0)),
    ];
    let totals = get_app_usage_info(&events, &dt(2024, 11, 23, 12, 0, 0));
    assert_eq!(totals.len(), 1);
    assert_eq!(totals[0].duration, 10);
}

#[test]
fn dangling_pause_ignored() {
    let events = vec![ev("ACTIVITY_PAUSED", "pkgA", dt(2024, 11, 23, 10, 0, 0))];
    let totals = get_app_usage_info(&events, &dt(2024, 11, 23, 12, 0, 0));
    assert_eq!(totals.len(), 0);
}

#[test]
fn unmatched_resume_contributes_nothing() {
    let events = vec![
        ev("ACTIVITY_RESUMED", "pkgA", dt(2024, 11, 23, 10, 0, 0)),
        ev("ACTIVITY_RESUMED", "pkgB", dt(2024, 11, 23, 10, 5, 0)),
        ev("ACTIVITY_PAUSED", "pkgB", dt(2024, 11, 23, 10, 15, 0)),
    ];
    let totals = get_app_usage_info(&events, &dt(2024, 11, 23, 12, 0, 0));
    assert_eq!(totals.len(), 1);
    assert_eq!(totals[0].package, "pkgB");
    assert_eq!(totals[0].duration, 10);
}

#[test]
fn other_event_kinds_ignored() {
    let events = vec![
        ev("ACTIVITY_RESUMED", "pkgA", dt(2024, 11, 23, 10, 0, 0)),
        ev("CONFIGURATION_CHANGE", "pkgA", dt(2024, 11, 23, 10, 1, 0)),
        ev("ACTIVITY_STOPPED", "pkgA", dt(2024, 11, 23, 10, 2, 0)),
        ev("ACTIVITY_PAUSED", "pkgA", dt(2024, 11, 23, 10, 5, 0)),
    ];
    let totals = get_app_usage_info(&events, &dt(2024, 11, 23, 12, 0, 0));
    assert_eq!(totals.len(), 1);
    assert_eq!(totals[0].duration, 5);
}

#[test]
fn sessions_accumulate_per_package() {
    let events = vec![
        ev("ACTIVITY_RESUMED", "pkgA", dt(2024, 11, 23, 10, 0, 0)),
        ev("ACTIVITY_PAUSED", "pkgA", dt(2024, 11, 23, 10, 10, 0)),
        ev("ACTIVITY_RESUMED", "pkgB", dt(2024, 11, 23, 10, 10, 0)),
        ev("ACTIVITY_PAUSED", "pkgB", dt(2024, 11, 23, 10, 15, 0)),
        ev("ACTIVITY_RESUMED", "pkgA", dt(2024, 11, 23, 11, 0, 0)),
        ev("ACTIVITY_PAUSED", "pkgA", dt(2024, 11, 23, 11, 7, 0)),
    ];
    let totals = get_app_usage_info(&events, &dt(2024, 11, 23, 12, 0, 0));
    assert_eq!(totals.len(), 2);
    assert_eq!(totals[0].package, "pkgA");
    assert_eq!(totals[0].duration, 17);
    assert_eq!(totals[1].package, "pkgB");
    assert_eq!(totals[1].duration, 5);
}

#[test]
fn rerun_on_same_input_is_identical() {
    let mut text = String::new();
    text.push_str("  Last 24 hour events (timeRange=\"x\" )\n");
    text.push_str("    time=\"2024-11-23 10:00:00\" type=ACTIVITY_RESUMED package=pkgA flags=0x0\n");
    text.push_str("    time=\"2024-11-23 10:03:00\" type=ACTIVITY_PAUSED package=pkgA flags=0x0\n");
    text.push_str("  timeRange=\"y\"\n");
    let now = dt(2024, 11, 23, 12, 0, 0);
    let first = get_app_usage_info(&parse(&text), &now);
    let second = get_app_usage_info(&parse(&text), &now);
    assert_eq!(first.len(), second.len());
    for (a, b) in first.iter().zip(second.iter()) {
        assert_eq!(a.package, b.package);
        assert_eq!(a.duration, b.duration);
    }
}
