use nalgang::window::{timestamp_round_down, DAY_SECONDS};

#[test]
fn window_start_of_epoch() {
    // The window containing the unix epoch starts 3 hours before it:
    // 21:00 UTC of the previous day, i.e. 06:00 in the UTC+9 zone.
    assert_eq!(timestamp_round_down(0), -10800);
}

#[test]
fn window_boundary_belongs_to_new_window() {
    // 75600 = 21:00 UTC of 1970-01-01 is a boundary: it belongs to the
    // window starting there, while one second earlier does not.
    assert_eq!(timestamp_round_down(75600), 75600);
    assert_eq!(timestamp_round_down(75599), -10800);
}

#[test]
fn window_start_concrete_modern_instant() {
    assert_eq!(timestamp_round_down(1_600_000_000), 1_599_944_400);
}

#[test]
fn window_start_negative_instant_floors() {
    // Instants before the epoch round down, never up.
    assert_eq!(timestamp_round_down(-10801), -97200);
    assert_eq!(timestamp_round_down(-10800), -10800);
}

#[test]
fn window_start_idempotent() {
    for t in [-1_000_000_007, -10801, 0, 75599, 75600, 1_600_000_000] {
        let w = timestamp_round_down(t);
        assert_eq!(timestamp_round_down(w), w);
    }
}

#[test]
fn window_start_shifts_by_exactly_one_day() {
    for t in [-10801, 0, 75600, 1_600_000_000] {
        assert_eq!(
            timestamp_round_down(t + DAY_SECONDS),
            timestamp_round_down(t) + DAY_SECONDS
        );
    }
}

#[test]
fn window_start_monotonic_on_samples() {
    let samples = [-100_000, -10801, -10800, 0, 75599, 75600, 1_600_000_000];
    let mut prev = timestamp_round_down(samples[0]);
    for &t in samples.iter().skip(1) {
        let w = timestamp_round_down(t);
        assert!(prev <= w);
        prev = w;
    }
}
