//! The sliding-window speedometers.

use core::cell::Cell;

use xget::progress::speedometer::{Clock, Gauge, Speedometer};

/// One bucket, in milliseconds, and how many there are.
const BUCKET: u64 = 100;
const BUCKETS: u64 = 30;

/// One bucket in nanoseconds, for the gauge.
const BUCKET_NANOS: u64 = 100_000_000;

fn millis(ms: u64) -> u64 {
    ms * 1_000_000
}

/// A hand-driven clock: tests set "now" to a fixed offset from a fixed origin, so the window and its decay
/// are exercised without sleeping.
struct FakeClock {
    origin: u64,
    offset: Cell<u64>,
}

impl FakeClock {
    fn new() -> Self {
        Self {
            origin: 1_234_567,
            offset: Cell::new(0),
        }
    }

    /// Move the clock to `elapsed` since the speedometer started. Absolute, not relative, so a test reads as
    /// "at t = elapsed, ...".
    fn set(&self, elapsed: u64) {
        self.offset.set(elapsed);
    }
}

impl Clock for &FakeClock {
    fn now(&self) -> u64 {
        self.origin + self.offset.get()
    }
}

#[test]
fn speedometer_tests_a_sub_second_burst_reads_its_true_rate() {
    let clock = FakeClock::new();
    let mut speed = Speedometer::with_clock(&clock);
    clock.set(300);
    speed.add(3000);
    assert_eq!(speed.rate(), 10_000);
}

#[test]
fn speedometer_tests_a_steady_feed_reads_its_steady_rate() {
    let clock = FakeClock::new();
    let mut speed = Speedometer::with_clock(&clock);
    clock.set(0);
    speed.add(1000);
    clock.set(1000);
    speed.add(1000);
    assert_eq!(speed.rate(), 2000);
}

#[test]
fn speedometer_tests_bytes_older_than_the_window_age_out() {
    let clock = FakeClock::new();
    let mut speed = Speedometer::with_clock(&clock);
    clock.set(0);
    speed.add(1_000_000);
    // The window is BUCKETS * BUCKET = 3s; read well past it.
    clock.set(BUCKET * 40);
    assert_eq!(speed.rate(), 0);
}

#[test]
fn speedometer_tests_the_first_instant_does_not_spike() {
    let clock = FakeClock::new();
    let mut speed = Speedometer::with_clock(&clock);
    clock.set(1);
    speed.add(1000);
    assert_eq!(speed.rate(), 10_000);
}

#[test]
fn speedometer_tests_the_window_tracks_the_recent_rate() {
    let clock = FakeClock::new();
    let mut speed = Speedometer::with_clock(&clock);
    clock.set(0);
    speed.add(5_000_000); // long ago, will age out
    clock.set(BUCKET * 40);
    speed.add(6000); // 6000 bytes in this bucket, window now past the first
    // Only the recent 6000 remain, over a full 3s window: 2000 B/s.
    assert_eq!(speed.rate(), 2000);
}

#[test]
fn a_stall_decays_to_zero() {
    let clock = FakeClock::new();
    let mut speed = Speedometer::with_clock(&clock);
    // A brisk feed: 1 MiB in the first bucket.
    clock.set(0);
    speed.add(1_000_000);
    clock.set(100);
    assert!(speed.rate() > 0, "the feed should read a live rate");

    // Now the bytes stop. Read partway through the window: the rate has begun to decay but is not yet zero,
    // because live buckets remain inside the window.
    clock.set(BUCKET * 15);
    let midway = speed.rate();
    assert!(
        midway > 0,
        "mid-window the rate has decayed but is not yet zero"
    );

    // Read one full window past the last byte with no further adds: every live bucket has aged out and the
    // reported speed is zero.
    clock.set(BUCKET * 40);
    assert_eq!(
        speed.rate(),
        0,
        "after one idle window the stall decays to zero"
    );
}

#[test]
fn a_gap_then_burst_reads_only_the_burst() {
    let clock = FakeClock::new();
    let mut speed = Speedometer::with_clock(&clock);
    clock.set(0);
    speed.add(9_000_000); // pre-gap traffic

    // Idle far longer than the 3s window, then resume with a fresh burst.
    clock.set(BUCKET * 100);
    speed.add(6000);
    // The pre-gap bytes are long gone; only the 6000 remain, over a full window: 2000 B/s.
    assert_eq!(speed.rate(), 2000);
}

#[test]
fn two_samples_in_one_tick_sum_without_dividing_by_zero() {
    let clock = FakeClock::new();
    let mut speed = Speedometer::with_clock(&clock);
    clock.set(0);
    speed.add(400);
    speed.add(600); // same tick, same bucket
    // 1000 bytes over the floored one-bucket span (0.1s): 10_000 B/s.
    assert_eq!(speed.rate(), 10_000);
}

#[test]
fn a_read_before_any_bytes_is_zero() {
    let clock = FakeClock::new();
    let mut speed = Speedometer::with_clock(&clock);
    assert_eq!(speed.rate(), 0);
    clock.set(250);
    assert_eq!(speed.rate(), 0);
}

#[test]
fn an_exact_window_multiple_jump_does_not_double_count() {
    let clock = FakeClock::new();
    let mut speed = Speedometer::with_clock(&clock);
    clock.set(0);
    speed.add(7000); // bucket 0
    // Jump exactly BUCKETS buckets forward: index BUCKETS wraps to slot 0, the same slot the old bytes sit in.
    clock.set(BUCKET * BUCKETS);
    speed.add(3000);
    // Only the 3000 remain, over a full window: 1000 B/s.
    assert_eq!(speed.rate(), 1000);
}

#[test]
fn a_stalled_reading_never_speeds_up() {
    let clock = FakeClock::new();
    let mut speed = Speedometer::with_clock(&clock);
    clock.set(50);
    speed.add(70_000);
    clock.set(900);
    speed.add(30_000);
    let mut last = u64::MAX;
    for step in 0..50 {
        clock.set(900 + step * 97);
        let rate = speed.rate();
        assert!(rate <= last);
        last = rate;
    }
    assert_eq!(last, 0);
}

#[test]
fn a_count_past_the_largest_number_saturates() {
    let clock = FakeClock::new();
    let mut speed = Speedometer::with_clock(&clock);
    clock.set(3000);
    speed.add(u64::MAX);
    speed.add(u64::MAX);
    assert_eq!(speed.rate(), u64::MAX / 3000);
}

#[test]
fn speedometer_a_sub_second_burst_reads_its_true_rate() {
    let mut speed = Gauge::new();
    speed.record(millis(300), 3000);
    assert_eq!(speed.rate(), 10_000);
}

#[test]
fn speedometer_a_steady_feed_reads_its_steady_rate() {
    let mut speed = Gauge::new();
    speed.record(millis(0), 1000);
    speed.record(millis(1000), 1000);
    assert_eq!(speed.rate(), 2000);
}

#[test]
fn speedometer_bytes_older_than_the_window_age_out() {
    let mut speed = Gauge::new();
    speed.record(millis(0), 1_000_000);
    // The window is BUCKETS * BUCKET = 3s; record a zero-byte tick well past it.
    speed.record(BUCKET_NANOS * 40, 0);
    assert_eq!(speed.rate(), 0);
}

#[test]
fn speedometer_the_first_instant_does_not_spike() {
    let mut speed = Gauge::new();
    speed.record(millis(1), 1000);
    assert_eq!(speed.rate(), 10_000);
}

#[test]
fn speedometer_the_window_tracks_the_recent_rate() {
    let mut speed = Gauge::new();
    speed.record(millis(0), 5_000_000); // long ago, will age out
    speed.record(BUCKET_NANOS * 40, 6000); // 6000 bytes in this bucket, window now past the first
    // Only the recent 6000 remain, over a full 3s window: 2000 B/s.
    assert_eq!(speed.rate(), 2000);
}

#[test]
fn a_reading_is_counted_from_the_start() {
    let clock = FakeClock::new();
    let mut speed = Speedometer::starting(&clock, 5000);
    speed.add_by(5300, 3000);
    assert_eq!(speed.rate_by(5300), 10_000);
    assert_eq!(speed.rate_by(6000), 3000);
    // A clock that ran backwards reads as no time at all.
    let mut speed = Speedometer::starting(&clock, 5000);
    speed.add_by(4000, 100);
    assert_eq!(speed.rate_by(4000), 1000);
}
