use bevy_r_place::time::{epoch_time_seconds, seconds_or_zero};

#[test]
fn test_seconds_or_zero_keeps_reading() {
    assert_eq!(seconds_or_zero(Some(1_700_000_000)), 1_700_000_000);
}

#[test]
fn test_seconds_or_zero_before_epoch() {
    assert_eq!(seconds_or_zero(None), 0);
}

#[test]
fn test_epoch_time_seconds_is_after_2020() {
    assert!(epoch_time_seconds() > 1_577_836_800);
}
