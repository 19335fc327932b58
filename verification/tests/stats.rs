use plasma::stats::ExecutionTimer;
use plasma::stats::TimeSampler;
use plasma::stats::timed_ns;

#[test]
fn rolling_window_avg() {
    // Fed in chronological order, the retained window is [100, 90, 80, 70]
    // newest first; the mean delta between consecutive samples is 10.
    let mut sampler = TimeSampler::new(1000);
    sampler.record(70);
    sampler.record(80);
    sampler.record(90);
    sampler.record(100);
    assert_eq!(sampler.latest(), 100);
    assert_eq!(sampler.avg_time_ns(), 10);
}

#[test]
fn avg_per_second_from_two_samples() {
    // Two samples 20 ms apart: 20_000_000 ns -> 20 ms -> 50 per second.
    let mut sampler = TimeSampler::new(1000);
    sampler.record(10_000_000);
    sampler.record(30_000_000);
    assert_eq!(sampler.avg_time_ns(), 20_000_000);
    assert_eq!(sampler.avg_per_second(), 50);
}

#[test]
fn avg_per_second_of_empty_window_is_zero() {
    let sampler = TimeSampler::new(4);
    assert_eq!(sampler.avg_time_ns(), 0);
    assert_eq!(sampler.avg_per_second(), 0);
}

#[test]
fn sampler_window_is_capped() {
    // With a cap of 2 only [100, 20] is retained: the mean delta is 80, not
    // the 45 an uncapped window [100, 20, 10] would give.
    let mut sampler = TimeSampler::new(2);
    sampler.record(10);
    sampler.record(20);
    sampler.record(100);
    assert_eq!(sampler.latest(), 100);
    assert_eq!(sampler.avg_time_ns(), 80);
}

#[test]
fn sampler_reset_clears() {
    let mut sampler = TimeSampler::new(8);
    sampler.record(5);
    sampler.record(7);
    sampler.reset();
    assert_eq!(sampler.latest(), 0);
    assert_eq!(sampler.avg_time_ns(), 0);
}

#[test]
fn latest_of_empty_sampler_is_zero() {
    let sampler = TimeSampler::new(8);
    assert_eq!(sampler.latest(), 0);
}

#[test]
fn sampler_sample_reads_the_clock() {
    let mut sampler = TimeSampler::new(8);
    sampler.sample();
    // Whatever the clock said, one sample is now retained.
    assert!(sampler.latest() > 0);
}

#[test]
fn timer_aggregates() {
    let mut timer = ExecutionTimer::new();
    timer.record(5);
    timer.record(9);
    timer.record(1);
    assert_eq!(timer.avg(), 5);
    assert_eq!(timer.min(), 1);
    assert_eq!(timer.max(), 9);
    // `latest` reads the front of the list, which is the first recorded
    // sample.
    assert_eq!(timer.latest(), 5);
}

#[test]
fn timer_empty_state_contract() {
    // The choice for the empty timer: `avg` and `latest` answer 0, while
    // `min` and `max` demand at least one sample, so callers guard them;
    // `reset` returns the timer to exactly this state.
    let mut timer = ExecutionTimer::new();
    assert_eq!(timer.avg(), 0);
    assert_eq!(timer.latest(), 0);
    timer.record(1_000_000);
    timer.record(3_000_000);
    assert_eq!(timer.min(), 1_000_000);
    timer.reset();
    assert_eq!(timer.avg(), 0);
    assert_eq!(timer.latest(), 0);
    timer.record(42);
    assert_eq!(timer.min(), 42);
    assert_eq!(timer.max(), 42);
    assert_eq!(timer.avg(), 42);
}

#[test]
fn timer_measure_appends_and_runs_the_work() {
    let mut timer = ExecutionTimer::new();
    let mut ran = false;
    timer.measure(|| {
        ran = true;
    });
    assert!(ran);
    // One sample was appended, whatever the clock said.
    assert_eq!(timer.min(), timer.max());
}

#[test]
fn timed_ns_runs_the_work() {
    let mut value = 0;
    timed_ns(|| {
        value = 42;
    });
    assert_eq!(value, 42);
}
