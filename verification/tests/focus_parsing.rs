use limit_app::focus::find_focused_activity;

#[test]
fn focused_app_from_surface_lines() {
    let mut output = String::new();
    output.push_str(" mSurface=Surface(name=ScreenDecorOverlayBottom)/@0x8f5a317\n");
    output.push_str(" mSurface=Surface(name=ScreenDecorOverlay)/@0x745d0ed\n");
    output.push_str(" mSurface=Surface(name=NavigationBar0)/@0x1d076e\n");
    output.push_str(" mSurface=Surface(name=StatusBar)/@0xc6d3221\n");
    output.push_str(" mSurface=Surface(name=com.android.chrome/com.google.android.apps.chrome.Main)/@0x4647b7f\n");
    let f = find_focused_activity(&output).expect("expected a focused activity");
    assert_eq!(f.package, "com.android.chrome");
    assert_eq!(f.activity, "com.google.android.apps.chrome.Main");
}

#[test]
fn no_marker_line_gives_none() {
    let output = "nothing interesting here\n";
    assert!(find_focused_activity(output).is_none());
}

#[test]
fn no_slash_in_any_name_gives_none() {
    let mut output = String::new();
    output.push_str(" mSurface=Surface(name=StatusBar)\n");
    output.push_str(" mSurface=Surface(name=NavigationBar0)\n");
    assert!(find_focused_activity(&output).is_none());
}

#[test]
fn names_are_trimmed() {
    let output = " mSurface=Surface(name= my.pkg / my.Activity )\n";
    let f = find_focused_activity(output).expect("expected a focused activity");
    assert_eq!(f.package, "my.pkg");
    assert_eq!(f.activity, "my.Activity");
}

#[test]
fn activity_stops_at_second_slash() {
    let output = " mSurface=Surface(name=my.pkg/my.Activity/extra)\n";
    let f = find_focused_activity(output).expect("expected a focused activity");
    assert_eq!(f.package, "my.pkg");
    assert_eq!(f.activity, "my.Activity");
}
