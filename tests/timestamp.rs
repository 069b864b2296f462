use frenyum_storage::timestamp::Timestamp;
use std::time::{SystemTime, UNIX_EPOCH};

#[test]
fn test_now_returns_current_time() {
    let now = Timestamp::now();
    let system_now = SystemTime::now().duration_since(UNIX_EPOCH).unwrap().as_secs();
    assert_eq!(now.0, system_now);
}

#[test]
fn test_reset_sets_timestamp_to_zero() {
    let mut timestamp = Timestamp::now();
    timestamp.reset();
    assert_eq!(timestamp.0, 0);
}

#[test]
fn test_display_formats_timestap_correctly() {
    let timestamp = Timestamp(123456789);
    assert_eq!(timestamp.to_string(), "1973-11-29 21:33:09");
}

#[test]
fn test_subtracting_timestamps_returns_correct_difference() {
    let timestamp1 = Timestamp(1000);
    let timestamp2 = Timestamp(500);
    let result = timestamp1 - timestamp2;
    assert_eq!(result.0, 500);
}

#[test]
fn test_adding_duration_to_timestamp_returns_correct_result() {
    let timestamp = Timestamp(1000);
    let result = timestamp + 500;
    assert_eq!(result.0, 1500);
}

#[test]
fn test_timestamp_ord_trait_implementation() {
    let timestamp1 = Timestamp(1000);
    let timestamp2 = Timestamp(2000);
    assert!(timestamp1 < timestamp2);
}

#[test]
fn epoch_and_last_calendar_second_format() {
    assert_eq!(Timestamp(0).to_string(), "1970-01-01 00:00:00");
    assert_eq!(Timestamp(253402300799).to_string(), "9999-12-31 23:59:59");
}

#[test]
fn elapsed_at_counts_either_way() {
    assert_eq!(Timestamp(1000).elapsed_at(&Timestamp(1500)), 500);
    assert_eq!(Timestamp(1500).elapsed_at(&Timestamp(1000)), 500);
    assert_eq!(Timestamp(7).elapsed_at(&Timestamp(7)), 0);
}

#[test]
fn elapsed_since_epoch_is_large() {
    assert!(Timestamp(0).elapsed() > 1_600_000_000);
}

#[test]
fn clock_reading_becomes_timestamp() {
    assert_eq!(Timestamp::from_clock_reading(Some(42)), Timestamp(42));
    assert_eq!(Timestamp::from_clock_reading(None), Timestamp(0));
}

#[test]
fn last_calendar_second_formats() {
    assert_eq!(Timestamp(8210266876799).to_string(), "+262142-12-31 23:59:59");
}

#[test]
fn decimal_parse_follows_u64() {
    for text in ["0", "123456789", "+17", "18446744073709551615", "007"] {
        assert_eq!(text.parse::<Timestamp>().ok().map(|t| t.0), text.parse::<u64>().ok());
    }
    for text in ["", "+", "-1", "12a", " 1", "18446744073709551616", "99999999999999999999"] {
        assert!(text.parse::<Timestamp>().is_err());
        assert!(text.parse::<u64>().is_err());
    }
    assert_eq!(Timestamp::from_decimal("+007"), Some(Timestamp(7)));
}

#[test]
fn assign_operators_saturate() {
    let mut t = Timestamp(10);
    t += 5;
    assert_eq!(t.0, 15);
    t -= 20;
    assert_eq!(t.0, 0);
    let mut m = Timestamp::max_value();
    m += 1;
    assert_eq!(m.0, u64::MAX);
}
