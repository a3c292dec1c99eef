use apex_oled::weather::{fetch_due, is_daytime, next_due, refresh_delay, POLL_SECS};

#[test]
fn fetches_every_half_hour_and_retries_after_five_minutes() {
    assert_eq!(refresh_delay(true), 1800);
    assert_eq!(refresh_delay(false), 300);
    assert_eq!(next_due(1_000, true), Some(2_800));
    assert_eq!(next_due(1_000, false), Some(1_300));
    // a due time past the last second the clock can count is never reached
    assert_eq!(next_due(u64::MAX - 5, false), None);
    assert!(!fetch_due(u64::MAX, None));
    assert_eq!(POLL_SECS, 60);
}

#[test]
fn a_fetch_is_due_once_its_time_has_come() {
    // the first fetch happens at once
    assert!(fetch_due(500, Some(500)));
    let due = next_due(500, true);
    assert!(!fetch_due(500 + 1799, due));
    assert!(fetch_due(500 + 1800, due));
    let due = next_due(500, false);
    assert!(!fetch_due(799, due));
    assert!(fetch_due(800, due));
}

#[test]
fn only_a_zero_reading_means_night() {
    assert!(!is_daytime(Some(0)));
    assert!(is_daytime(Some(1)));
    assert!(is_daytime(None));
}
