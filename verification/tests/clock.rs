use bettertui_engine::clock::{capped_nanos, millis_of_nanos, now_millis, now_nanos};

#[test]
fn clock_capped_nanos() {
    assert_eq!(capped_nanos(0), 0);
    assert_eq!(capped_nanos(1_234), 1_234);
    assert_eq!(capped_nanos(u64::MAX as u128), u64::MAX);
    assert_eq!(capped_nanos(u64::MAX as u128 + 1), u64::MAX);
    assert_eq!(capped_nanos(u128::MAX), u64::MAX);
}

#[test]
fn clock_millis_of_nanos() {
    assert_eq!(millis_of_nanos(0), 0);
    assert_eq!(millis_of_nanos(999_999), 0);
    assert_eq!(millis_of_nanos(1_000_000), 1);
    assert_eq!(millis_of_nanos(1_700_000_000_123_456_789), 1_700_000_000_123);
    let big: u128 = (1u128 << 64) * 1_000_000 + 5_000_000;
    assert_eq!(millis_of_nanos(big), 5);
}

#[test]
fn clock_readings_agree() {
    let ms = now_millis();
    let ns = now_nanos();
    assert!(ms > 0);
    assert!(ns / 1_000_000 >= ms);
}
