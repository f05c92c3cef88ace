use red_robin::statistics::Statistics;
use std::time::Duration;

fn nanos(duration: Duration) -> u64 {
    duration.as_nanos() as u64
}

fn millis(value: u64) -> u64 {
    nanos(Duration::from_millis(value))
}

#[test]
fn new_statistics_have_zero_attempts() {
    let statistics = Statistics::new();

    assert_eq!(statistics.attempts, 0);
    assert_eq!(statistics.successes, 0);
    assert_eq!(statistics.failures, 0);
    assert!(statistics.latencies_ns.is_empty());
}

#[test]
fn successful_attempt_is_recorded() {
    let mut statistics = Statistics::new();

    statistics.record_success(nanos(Duration::from_millis(50)));

    assert_eq!(statistics.attempts, 1);
    assert_eq!(statistics.successes, 1);
    assert_eq!(statistics.failures, 0);
    assert_eq!(statistics.latencies_ns.len(), 1);
}

#[test]
fn failed_attempt_is_recorded() {
    let mut statistics = Statistics::new();

    statistics.record_failure();

    assert_eq!(statistics.attempts, 1);
    assert_eq!(statistics.successes, 0);
    assert_eq!(statistics.failures, 1);
}

#[test]
fn minimum_latency_is_calculated() {
    let mut statistics = Statistics::new();

    statistics.record_success(millis(50));
    statistics.record_success(millis(20));
    statistics.record_success(millis(80));

    assert_eq!(statistics.min_latency_ns().unwrap(), millis(20));
}

#[test]
fn maximum_latency_is_calculated() {
    let mut statistics = Statistics::new();

    statistics.record_success(millis(50));
    statistics.record_success(millis(20));
    statistics.record_success(millis(80));

    assert_eq!(statistics.max_latency_ns().unwrap(), millis(80));
}

#[test]
fn average_latency_is_calculated() {
    let mut statistics = Statistics::new();

    statistics.record_success(millis(20));
    statistics.record_success(millis(40));
    statistics.record_success(millis(60));

    let total = statistics.total_latency_ns();
    assert_eq!(total / statistics.latencies_ns.len() as u128, millis(40) as u128);
}

#[test]
fn median_latency_works_with_odd_number_of_values() {
    let mut statistics = Statistics::new();

    statistics.record_success(millis(10));
    statistics.record_success(millis(50));
    statistics.record_success(millis(30));

    assert_eq!(
        statistics.median_latencies_ns().unwrap(),
        (millis(30), millis(30))
    );
}

#[test]
fn median_latency_works_with_even_number_of_values() {
    let mut statistics = Statistics::new();

    statistics.record_success(millis(10));
    statistics.record_success(millis(30));
    statistics.record_success(millis(50));
    statistics.record_success(millis(70));

    let (lower, upper) = statistics.median_latencies_ns().unwrap();
    assert_eq!((lower + upper) / 2, millis(40));
}

#[test]
fn jitter_is_calculated() {
    let mut statistics = Statistics::new();

    statistics.record_success(millis(10));
    statistics.record_success(millis(20));
    statistics.record_success(millis(40));

    let total = statistics.jitter_total_ns().unwrap();
    let pairs = (statistics.latencies_ns.len() - 1) as u128;
    assert_eq!(total / pairs, millis(15) as u128);
}

#[test]
fn jitter_requires_two_samples() {
    let mut statistics = Statistics::new();

    statistics.record_success(millis(10));

    assert!(statistics.jitter_total_ns().is_none());
}

#[test]
fn empty_statistics_have_no_latency_figures() {
    let statistics = Statistics::new();
    assert_eq!(statistics.min_latency_ns(), None);
    assert_eq!(statistics.max_latency_ns(), None);
    assert_eq!(statistics.median_latencies_ns(), None);
    assert_eq!(statistics.jitter_total_ns(), None);
    assert_eq!(statistics.total_latency_ns(), 0);
}

#[test]
fn counts_stay_consistent() {
    let mut statistics = Statistics::new();
    statistics.record_success(5);
    statistics.record_failure();
    statistics.record_success(7);
    statistics.record_failure();
    statistics.record_failure();
    assert_eq!(statistics.attempts, statistics.successes + statistics.failures);
    assert_eq!(statistics.latencies_ns.len() as u32, statistics.successes);
    assert_eq!(statistics.latencies_ns, vec![5, 7]);
}

#[test]
fn median_lies_between_extremes() {
    let mut statistics = Statistics::new();
    for latency in [9u64, 3, 27, 3, 81, 1] {
        statistics.record_success(latency);
    }
    let (lower, upper) = statistics.median_latencies_ns().unwrap();
    assert_eq!((lower, upper), (3, 9));
    assert!(statistics.min_latency_ns().unwrap() <= lower);
    assert!(lower <= upper);
    assert!(upper <= statistics.max_latency_ns().unwrap());
}

#[test]
fn totals_do_not_overflow() {
    let mut statistics = Statistics::new();
    statistics.record_success(u64::MAX);
    statistics.record_success(0);
    statistics.record_success(u64::MAX);
    assert_eq!(statistics.total_latency_ns(), 2 * u64::MAX as u128);
    assert_eq!(statistics.jitter_total_ns(), Some(2 * u64::MAX as u128));
}
