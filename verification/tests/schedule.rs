use std::time::{SystemTime, UNIX_EPOCH};
use study_tracker::schedule::{
    days_remaining_at, format_time_remaining, format_time_remaining_at, get_current_timestamp,
    get_days_remaining, is_priority, is_within_priority_window, is_within_priority_window_at,
    push_decimal, timestamp_from_reading, MS_PER_DAY, MS_PER_HOUR, MS_PER_MINUTE,
    PRIORITY_WINDOW_DAYS,
};

const NOW: i64 = 1_700_000_000_000;

fn clock() -> i64 {
    SystemTime::now().duration_since(UNIX_EPOCH).unwrap().as_millis() as i64
}

#[test]
fn constants_have_their_lengths() {
    assert_eq!(MS_PER_MINUTE, 60 * 1000);
    assert_eq!(MS_PER_HOUR, 60 * 60 * 1000);
    assert_eq!(MS_PER_DAY, 24 * 60 * 60 * 1000);
    assert_eq!(PRIORITY_WINDOW_DAYS, 7);
}

#[test]
fn three_days_and_two_hours_ahead_is_four_days() {
    let scheduled = NOW + 3 * MS_PER_DAY + 2 * MS_PER_HOUR;
    assert_eq!(days_remaining_at(scheduled, NOW), 4);
    assert_eq!(format_time_remaining_at(scheduled, NOW), "3d 2h 0m");
}

#[test]
fn countdown_floors_days_hours_and_minutes() {
    let scheduled = NOW + 3 * MS_PER_DAY + 2 * MS_PER_HOUR + 17 * MS_PER_MINUTE + 59_999;
    assert_eq!(format_time_remaining_at(scheduled, NOW), "3d 2h 17m");
    assert_eq!(format_time_remaining_at(NOW + 1, NOW), "0d 0h 0m");
    assert_eq!(format_time_remaining_at(NOW + MS_PER_DAY - 1, NOW), "0d 23h 59m");
    assert_eq!(format_time_remaining_at(NOW + MS_PER_DAY, NOW), "1d 0h 0m");
    assert_eq!(format_time_remaining_at(NOW + 400 * MS_PER_DAY + MS_PER_HOUR, NOW), "400d 1h 0m");
}

#[test]
fn half_an_hour_ahead_counts_as_one_day() {
    let scheduled = NOW + 30 * MS_PER_MINUTE;
    assert_eq!(days_remaining_at(scheduled, NOW), 1);
    assert_eq!(format_time_remaining_at(scheduled, NOW), "0d 0h 30m");
    assert!(is_within_priority_window_at(scheduled, NOW));
}

#[test]
fn a_test_right_now_has_no_day_left() {
    assert_eq!(days_remaining_at(NOW, NOW), 0);
    assert_eq!(format_time_remaining_at(NOW, NOW), "Test has passed");
    assert!(!is_within_priority_window_at(NOW, NOW));
}

#[test]
fn days_round_up_on_both_sides_of_the_present() {
    assert_eq!(days_remaining_at(NOW + 1, NOW), 1);
    assert_eq!(days_remaining_at(NOW + MS_PER_DAY, NOW), 1);
    assert_eq!(days_remaining_at(NOW + MS_PER_DAY + 1, NOW), 2);
    assert_eq!(days_remaining_at(NOW - 1, NOW), 0);
    assert_eq!(days_remaining_at(NOW - MS_PER_DAY + 1, NOW), 0);
    assert_eq!(days_remaining_at(NOW - MS_PER_DAY, NOW), -1);
    assert_eq!(days_remaining_at(NOW - MS_PER_DAY - 1, NOW), -1);
    assert_eq!(days_remaining_at(NOW - 2 * MS_PER_DAY + 1, NOW), -1);
    assert_eq!(days_remaining_at(NOW - 2 * MS_PER_DAY, NOW), -2);
}

#[test]
fn a_past_test_has_passed_and_is_no_priority() {
    for behind in [1, 1000, MS_PER_HOUR, MS_PER_DAY, 30 * MS_PER_DAY] {
        let scheduled = NOW - behind;
        assert_eq!(format_time_remaining_at(scheduled, NOW), "Test has passed");
        assert!(days_remaining_at(scheduled, NOW) <= 0);
        assert!(!is_within_priority_window_at(scheduled, NOW));
    }
}

#[test]
fn the_window_ends_after_seven_days() {
    assert!(is_within_priority_window_at(NOW + 1, NOW));
    assert!(is_within_priority_window_at(NOW + 7 * MS_PER_DAY, NOW));
    assert!(!is_within_priority_window_at(NOW + 7 * MS_PER_DAY + 1, NOW));
    assert!(!is_within_priority_window_at(NOW + 8 * MS_PER_DAY, NOW));
    assert_eq!(days_remaining_at(NOW + 7 * MS_PER_DAY, NOW), 7);
    assert_eq!(days_remaining_at(NOW + 7 * MS_PER_DAY + 1, NOW), 8);
}

#[test]
fn is_priority_holds_from_one_to_seven() {
    assert!(!is_priority(i32::MIN));
    assert!(!is_priority(-1));
    assert!(!is_priority(0));
    for days in 1..=7 {
        assert!(is_priority(days));
    }
    assert!(!is_priority(8));
    assert!(!is_priority(i32::MAX));
}

#[test]
fn day_counts_out_of_range_are_held_at_the_ends() {
    assert_eq!(days_remaining_at(i64::MAX, i64::MIN), i32::MAX);
    assert_eq!(days_remaining_at(i64::MIN, i64::MAX), i32::MIN);
    assert_eq!(days_remaining_at(i64::MAX, 0), i32::MAX);
    assert_eq!(days_remaining_at(i64::MIN, 0), i32::MIN);
    let last = i32::MAX as i64 * MS_PER_DAY;
    assert_eq!(days_remaining_at(last, 0), i32::MAX);
    assert_eq!(days_remaining_at(last - MS_PER_DAY, 0), i32::MAX - 1);
    assert_eq!(days_remaining_at(-last - MS_PER_DAY, 0), i32::MIN);
    assert_eq!(days_remaining_at(-last, 0), i32::MIN + 1);
    assert!(!is_within_priority_window_at(i64::MAX, i64::MIN));
}

#[test]
fn the_longest_countdown_is_written_in_full() {
    let diff: u128 = u64::MAX as u128;
    let expected = format!(
        "{}d {}h {}m",
        diff / 86_400_000,
        (diff % 86_400_000) / 3_600_000,
        (diff % 3_600_000) / 60_000
    );
    assert_eq!(format_time_remaining_at(i64::MAX, i64::MIN), expected);
    assert_eq!(format_time_remaining_at(i64::MIN, i64::MAX), "Test has passed");
}

#[test]
fn push_decimal_appends_the_digits() {
    for n in [0u128, 7, 9, 10, 11, 99, 100, 101, 1_234_567_890, u64::MAX as u128, u128::MAX] {
        let mut out = String::from("n=");
        push_decimal(&mut out, n);
        assert_eq!(out, format!("n={}", n));
    }
}

#[test]
fn clock_readings_become_timestamps() {
    assert_eq!(timestamp_from_reading(Ok(0)), 0);
    assert_eq!(timestamp_from_reading(Err(0)), 0);
    assert_eq!(timestamp_from_reading(Ok(1_700_000_000_000)), 1_700_000_000_000);
    assert_eq!(timestamp_from_reading(Err(5)), -5);
    assert_eq!(timestamp_from_reading(Ok(i64::MAX as u128)), i64::MAX);
    assert_eq!(timestamp_from_reading(Ok(i64::MAX as u128 + 1)), i64::MAX);
    assert_eq!(timestamp_from_reading(Ok(u128::MAX)), i64::MAX);
    assert_eq!(timestamp_from_reading(Err(i64::MAX as u128)), -i64::MAX);
    assert_eq!(timestamp_from_reading(Err(i64::MAX as u128 + 1)), i64::MIN);
    assert_eq!(timestamp_from_reading(Err(u128::MAX)), i64::MIN);
}

#[test]
fn the_current_timestamp_follows_the_system_clock() {
    let before = clock();
    let now = get_current_timestamp();
    let after = clock();
    assert!(before <= now && now <= after);
    assert!(now > 1_600_000_000_000);
}

#[test]
fn days_remaining_are_counted_from_the_present() {
    let now = clock();
    assert_eq!(get_days_remaining(now + 3 * MS_PER_DAY + 2 * MS_PER_HOUR), 4);
    assert_eq!(get_days_remaining(now + 30 * MS_PER_MINUTE), 1);
    assert_eq!(get_days_remaining(now - MS_PER_HOUR), 0);
    assert_eq!(get_days_remaining(now - 3 * MS_PER_DAY - MS_PER_HOUR), -3);
}

#[test]
fn the_countdown_is_taken_from_the_present() {
    let now = clock();
    let scheduled = now + 3 * MS_PER_DAY + 2 * MS_PER_HOUR + 30_000;
    assert_eq!(format_time_remaining(scheduled), "3d 2h 0m");
    assert_eq!(format_time_remaining(now - 1), "Test has passed");
}

#[test]
fn the_window_is_taken_from_the_present() {
    let now = clock();
    assert!(is_within_priority_window(now + MS_PER_HOUR));
    assert!(is_within_priority_window(now + 6 * MS_PER_DAY));
    assert!(!is_within_priority_window(now + 8 * MS_PER_DAY));
    assert!(!is_within_priority_window(now - MS_PER_HOUR));
}
