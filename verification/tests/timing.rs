use std::time::Duration;
use tiefring::timing::Averager;
use tiefring::timing::FPSCounter;
use tiefring::timing::Stepper;

#[test]
fn stepper_advance_but_not_enough_returns_false() {
    let mut stepper = Stepper::new(Duration::from_secs(1).as_nanos());

    assert!(!stepper.advance(Duration::from_millis(500).as_nanos()));
}

#[test]
fn stepper_advance_just_enough_returns_true() {
    let mut stepper = Stepper::new(Duration::from_secs(1).as_nanos());

    assert!(stepper.advance(Duration::from_millis(1000).as_nanos()));
}

#[test]
fn stepper_advance_loops_back_after_step() {
    let mut stepper = Stepper::new(Duration::from_secs(1).as_nanos());

    assert!(stepper.advance(Duration::from_millis(1000).as_nanos()));
    assert!(!stepper.advance(Duration::from_millis(999).as_nanos()));
    assert!(stepper.advance(Duration::from_millis(1).as_nanos()));
}

#[test]
fn stepper_keeps_the_remainder_of_several_steps() {
    let mut stepper = Stepper::new(10);
    assert!(stepper.advance(35));
    assert_eq!(stepper.dt, 5);
    assert!(!stepper.advance(4));
    assert_eq!(stepper.dt, 9);
    assert!(stepper.advance(1));
    assert_eq!(stepper.dt, 0);
    assert_eq!(stepper.step, 10);
}

#[test]
fn fps_counter_forgets_ticks_older_than_a_second() {
    let mut counter = FPSCounter::new();
    assert_eq!(counter.tick_at(0), 1);
    assert_eq!(counter.tick_at(500_000_000), 2);
    assert_eq!(counter.tick_at(1_000_000_000), 3);
    assert_eq!(counter.tick_at(1_000_000_001), 3);
    assert_eq!(counter.tick_at(2_600_000_000), 1);
    assert_eq!(counter.ticks.len(), 1);
}

#[test]
fn fps_counter_tick_counts_itself() {
    let mut counter = FPSCounter::new();
    assert!(counter.tick() >= 1);
}

#[test]
fn averager_averages_recent_samples() {
    let mut averager = Averager::new(1_000);
    assert_eq!(averager.average(), 0);
    averager.feed_at(0, 10);
    averager.feed_at(100, 20);
    averager.feed_at(200, 31);
    assert_eq!(averager.ticks(), 3);
    assert_eq!(averager.average(), 20);
    averager.feed_at(1_150, 41);
    assert_eq!(averager.ticks(), 2);
    assert_eq!(averager.average(), 36);
}

#[test]
fn averager_feed_records_the_sample() {
    let mut averager = Averager::new(Duration::from_secs(1).as_nanos());
    averager.feed(7);
    assert_eq!(averager.ticks(), 1);
    assert_eq!(averager.average(), 7);
}

#[test]
fn averager_counts_the_feeds_within_its_window() {
    let mut averager = Averager::new(1_000);
    averager.feed_at(0, 5);
    averager.feed_at(400, 5);
    averager.feed_at(1_000, 5);
    assert_eq!(averager.ticks(), 3);
    averager.feed_at(1_001, 5);
    assert_eq!(averager.ticks(), 3);
    averager.feed_at(5_000, 5);
    assert_eq!(averager.ticks(), 1);
}
