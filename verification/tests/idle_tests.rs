use apex_oled::idle::{idle_request, idle_secs, on_global, pick_socket, screensaver_secs, Bind};

#[test]
fn binds_the_first_seat_and_the_notifier() {
    assert!(matches!(on_global("wl_seat", false, 9), Bind::Seat));
    assert!(matches!(on_global("wl_seat", true, 9), Bind::Skip));
    assert!(matches!(on_global("ext_idle_notifier_v1", false, 1), Bind::Notifier(1)));
    assert!(matches!(on_global("ext_idle_notifier_v1", true, 7), Bind::Notifier(2)));
    assert!(matches!(on_global("wl_output", false, 4), Bind::Skip));
}

#[test]
fn asks_for_input_idle_from_version_two() {
    assert_eq!(idle_request(1, 300), (false, 300_000));
    assert_eq!(idle_request(2, 5), (true, 5000));
    assert_eq!(idle_request(2, 5_000_000), (true, (5_000_000_000u64 % (1 << 32)) as u32));
}

#[test]
fn picks_the_first_wayland_socket_by_name() {
    let names: Vec<String> =
        ["wayland-1.lock", "wayland-1", "pulse", "wayland-0.lock", "wayland-0", "wayland-0"]
            .iter()
            .map(|s| s.to_string())
            .collect();
    assert_eq!(pick_socket(&names), Some(4));
    assert_eq!(pick_socket(&vec!["pulse".to_string(), "wayland-0.lock".to_string()]), None);
    assert_eq!(pick_socket(&vec![]), None);
    assert_eq!(pick_socket(&vec!["wayland-10".to_string(), "wayland-1".to_string()]), Some(1));
}

#[test]
fn idle_seconds_from_the_environment_or_the_shell() {
    assert_eq!(idle_secs(Some(" 120 "), None), Some(120));
    assert_eq!(idle_secs(Some("0"), Some("{}")), None);
    assert_eq!(idle_secs(Some("soon"), None), None);
    assert_eq!(idle_secs(None, Some(r#"{"idle": {"screensaver": 600}}"#)), Some(600));
    assert_eq!(idle_secs(None, Some(r#"{"idle": {"screensaver": 0}}"#)), Some(300));
    assert_eq!(idle_secs(None, Some("not json")), Some(300));
    assert_eq!(idle_secs(None, None), Some(300));
}

#[test]
fn screensaver_delay_falls_back_to_five_minutes() {
    assert_eq!(screensaver_secs(Some(600)), 600);
    assert_eq!(screensaver_secs(Some(0)), 300);
    assert_eq!(screensaver_secs(None), 300);
}
