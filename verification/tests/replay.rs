use pipes_rs::replay::{self, ReplayClock};

fn scale(offset: i64, speed: u64) -> u64 {
    (offset as f64 / f64::from_bits(speed)).max(0.0) as u64
}

#[test]
fn unpaced_clock_is_always_due_at_the_start() {
    let clock = ReplayClock::new(1_000, (0.0f64).to_bits(), 50);
    assert_eq!(clock.due_at(9_000, scale), 50);
    let backwards_zero = ReplayClock::new(1_000, (-0.0f64).to_bits(), 50);
    assert_eq!(backwards_zero.due_at(9_000, scale), 50);
}

#[test]
fn offsets_are_scaled_by_the_speed() {
    let clock = ReplayClock::new(1_000, (2.0f64).to_bits(), 50);
    assert_eq!(clock.due_at(1_000, scale), 50);
    assert_eq!(clock.due_at(5_000, scale), 2_050);
    assert_eq!(clock.due_at(0, scale), 50);
}

#[test]
fn offsets_do_not_overflow() {
    let clock = ReplayClock::new(i64::MIN, (1.0f64).to_bits(), 0);
    let mut seen = Vec::new();
    let due = clock.due_at(i64::MAX, |offset, _| {
        assert_eq!(offset, i64::MAX);
        7
    });
    seen.push(due);
    assert_eq!(seen, vec![7]);
}

#[test]
fn waiting_ends_when_a_measurement_is_due() {
    let clock = ReplayClock::new(0, (1.0f64).to_bits(), 100);
    assert_eq!(clock.wait_until(30, 110, scale), Some(20));
    assert_eq!(clock.wait_until(30, 130, scale), Some(0));
    assert_eq!(clock.wait_until(30, 131, scale), None);
}

#[test]
fn speeds_do_not_run_backwards() {
    assert!(replay::is_speed((0.0f64).to_bits()));
    assert!(replay::is_speed((-0.0f64).to_bits()));
    assert!(replay::is_speed((1.5f64).to_bits()));
    assert!(!replay::is_speed((-1.0f64).to_bits()));
    assert!(!replay::is_speed(f64::NAN.to_bits()));
}
