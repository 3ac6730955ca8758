use anon_tags::{in_window_at, window_start};

#[test]
fn window_start_truncates_to_the_hour() {
    assert_eq!(window_start(1_700_000_000), 1_699_999_200);
    assert_eq!(window_start(1_699_999_200), 1_699_999_200);
    assert_eq!(window_start(1_700_002_799), 1_699_999_200);
    assert_eq!(window_start(1_700_002_800), 1_700_002_800);
}

#[test]
fn window_start_rounds_toward_the_past_before_the_epoch() {
    assert_eq!(window_start(0), 0);
    assert_eq!(window_start(-1), -3600);
    assert_eq!(window_start(-3600), -3600);
    assert_eq!(window_start(-3601), -7200);
}

#[test]
fn in_window_at_covers_exactly_one_hour() {
    let w = window_start(1_700_000_000);
    assert!(in_window_at(w, w));
    assert!(in_window_at(w + 3599, w));
    assert!(!in_window_at(w + 3600, w));
    assert!(!in_window_at(w - 1, w));
    assert!(in_window_at(1_700_000_000, w));
}
