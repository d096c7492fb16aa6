use bench_suite::rounds::{floor_elapsed, next_rounds, MAX_ROUNDS, MIN_ELAPSED_NANOS};

#[test]
fn next_rounds_doubles_a_short_measurement() {
    assert_eq!(next_rounds(1, 0), Some(2));
    assert_eq!(next_rounds(1, 5_000_000), Some(2));
    assert_eq!(next_rounds(32768, 9_999_999), Some(65536));
}

#[test]
fn next_rounds_keeps_a_long_measurement() {
    assert_eq!(next_rounds(1, 10_000_000), None);
    assert_eq!(next_rounds(4, 2_000_000_000), None);
}

#[test]
fn next_rounds_stops_at_the_cap() {
    assert_eq!(next_rounds(65536, 0), None);
    assert_eq!(next_rounds(65536, 9_999_999), None);
}

#[test]
fn measuring_a_clock_that_never_moves_ends_at_the_cap() {
    let mut rounds = 1u32;
    let mut measurements = 1;
    while let Some(next) = next_rounds(rounds, 0) {
        rounds = next;
        measurements += 1;
    }
    assert_eq!(rounds, MAX_ROUNDS);
    assert_eq!(measurements, 17);
}

#[test]
fn floor_elapsed_replaces_zero_only() {
    assert_eq!(floor_elapsed(0), 10_000_000);
    assert_eq!(floor_elapsed(0), MIN_ELAPSED_NANOS);
    assert_eq!(floor_elapsed(1), 1);
    assert_eq!(floor_elapsed(123_456_789), 123_456_789);
}
