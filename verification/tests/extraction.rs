use limit_app::extract::parse;

fn report(body: &str) -> String {
    let mut text = String::new();
    text.push_str("user=0\n");
    text.push_str("  Last 24 hour events (timeRange=\"2024/11/23 01:59 - 2024/11/24 01:59\" )\n");
    text.push_str(body);
    text.push_str("  timeRange=\"2024/11/22 01:59 - 2024/11/23 01:59\"\n");
    text.push_str("    time=\"2024-11-22 09:00:00\" type=ACTIVITY_RESUMED package=com.late flags=0x0\n");
    text
}

#[test]
fn parse_extracts_fields() {
    let text = report(
        "    time=\"2024-11-23 10:44:56\" type=ACTIVITY_RESUMED package=com.android.settings flags=0x0\n",
    );
    let events = parse(&text);
    assert_eq!(events.len(), 1);
    assert_eq!(events[0].event_type, "ACTIVITY_RESUMED");
    assert_eq!(events[0].package, "com.android.settings");
    assert_eq!(events[0].time.year, 2024);
    assert_eq!(events[0].time.month, 11);
    assert_eq!(events[0].time.day, 23);
    assert_eq!(events[0].time.hour, 10);
    assert_eq!(events[0].time.minute, 44);
    assert_eq!(events[0].time.second, 56);
}

#[test]
fn parse_keeps_line_order() {
    let mut body = String::new();
    body.push_str("    time=\"2024-11-23 10:00:00\" type=ACTIVITY_RESUMED package=a.one flags=0x0\n");
    body.push_str("    time=\"2024-11-23 10:01:00\" type=ACTIVITY_PAUSED package=a.one flags=0x0\n");
    body.push_str("    time=\"2024-11-23 10:02:00\" type=ACTIVITY_RESUMED package=b.two flags=0x0\n");
    let text = report(&body);
    let events = parse(&text);
    assert_eq!(events.len(), 3);
    assert_eq!(events[0].package, "a.one");
    assert_eq!(events[1].event_type, "ACTIVITY_PAUSED");
    assert_eq!(events[2].package, "b.two");
}

#[test]
fn parse_skips_line_missing_field() {
    let mut body = String::new();
    body.push_str("    time=\"2024-11-23 10:00:00\" type=ACTIVITY_RESUMED package=a.one flags=0x0\n");
    body.push_str("    time=\"2024-11-23 10:01:00\" type=STANDBY_BUCKET_CHANGED standbyBucket=50\n");
    body.push_str("    no fields at all on this line\n");
    body.push_str("    time=\"2024-11-23 10:02:00\" type=ACTIVITY_PAUSED package=a.one flags=0x0\n");
    let text = report(&body);
    let events = parse(&text);
    assert_eq!(events.len(), 2);
    assert_eq!(events[0].event_type, "ACTIVITY_RESUMED");
    assert_eq!(events[1].event_type, "ACTIVITY_PAUSED");
}

#[test]
fn parse_skips_bad_timestamp() {
    let mut body = String::new();
    body.push_str("    time=\"2024-13-45 10:00:00\" type=ACTIVITY_RESUMED package=a.one flags=0x0\n");
    body.push_str("    time=\"2024-02-30 10:00:00\" type=ACTIVITY_RESUMED package=a.one flags=0x0\n");
    body.push_str("    time=\"not a time\" type=ACTIVITY_RESUMED package=a.one flags=0x0\n");
    body.push_str("    time=\"2024-02-29 10:00:00\" type=ACTIVITY_RESUMED package=a.leap flags=0x0\n");
    let text = report(&body);
    let events = parse(&text);
    assert_eq!(events.len(), 1);
    assert_eq!(events[0].package, "a.leap");
}

#[test]
fn parse_window_excludes_outside_lines() {
    let mut text = String::new();
    text.push_str("    time=\"2024-11-23 08:00:00\" type=ACTIVITY_RESUMED package=before.marker flags=0x0\n");
    text.push_str("  Last 24 hour events (timeRange=\"x\" )\n");
    text.push_str("    time=\"2024-11-23 09:00:00\" type=ACTIVITY_RESUMED package=in.window flags=0x0\n");
    text.push_str("  timeRange=\"y\"\n");
    text.push_str("    time=\"2024-11-23 10:00:00\" type=ACTIVITY_RESUMED package=after.range flags=0x0\n");
    let events = parse(&text);
    assert_eq!(events.len(), 1);
    assert_eq!(events[0].package, "in.window");
}

#[test]
fn parse_missing_marker_gives_empty() {
    let text = "    time=\"2024-11-23 09:00:00\" type=ACTIVITY_RESUMED package=a.one flags=0x0\n";
    let events = parse(text);
    assert_eq!(events.len(), 0);
}

#[test]
fn parse_marker_line_itself_excluded() {
    let text = "  Last 24 hour events time=\"2024-11-23 09:00:00\" type=X package=p \n";
    let events = parse(text);
    assert_eq!(events.len(), 0);
}
