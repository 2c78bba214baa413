use contact_handler::stats::BenchmarkResults;
use contact_handler::{planned_total, requests_per_worker};

#[test]
fn counters_are_exact_sums() {
    let mut r = BenchmarkResults::new();
    let latencies: [u64; 6] = [500, 120, 7_000, 120, 999, 1];
    let bytes: [u64; 6] = [10, 0, 4_096, 55, 1, 123_456];
    for i in 0..6 {
        r.record_success(latencies[i], bytes[i]);
    }
    for _ in 0..4 {
        r.record_failure();
    }
    assert_eq!(r.total_requests, 10);
    assert_eq!(r.successful_requests, 6);
    assert_eq!(r.failed_requests, 4);
    assert_eq!(r.total_requests, r.successful_requests + r.failed_requests);
    assert_eq!(r.total_latency_us, 500 + 120 + 7_000 + 120 + 999 + 1);
    assert_eq!(r.total_bytes, 10 + 0 + 4_096 + 55 + 1 + 123_456);
}

#[test]
fn many_interleaved_recordings_lose_nothing() {
    let mut r = BenchmarkResults::new();
    let mut expected_latency: u64 = 0;
    let mut expected_bytes: u64 = 0;
    for k in 0..1000u64 {
        if k % 3 == 0 {
            r.record_failure();
        } else {
            let lat = (k * 37) % 1013;
            let by = (k * 91) % 4099;
            expected_latency += lat;
            expected_bytes += by;
            r.record_success(lat, by);
        }
    }
    assert_eq!(r.total_requests, 1000);
    assert_eq!(r.total_requests, r.successful_requests + r.failed_requests);
    assert_eq!(r.total_latency_us, expected_latency);
    assert_eq!(r.total_bytes, expected_bytes);
}

#[test]
fn extrema_are_true_extrema() {
    let mut r = BenchmarkResults::new();
    let latencies: [u64; 7] = [900, 32, 5_000_000, 32, 77, 4_242, 900];
    for &l in latencies.iter() {
        r.record_success(l, 0);
    }
    assert_eq!(r.min_latency_us, 32);
    assert_eq!(r.max_latency_us, 5_000_000);
}

#[test]
fn extrema_match_on_generated_sequences() {
    // A small linear congruential generator stands in for random latencies.
    let mut state: u64 = 0x2545_f491_4f6c_dd1d;
    for round in 0..10 {
        let mut r = BenchmarkResults::new();
        let mut expected_min = u64::MAX;
        let mut expected_max = 0u64;
        for _ in 0..(50 + round * 37) {
            state = state.wrapping_mul(6364136223846793005).wrapping_add(1442695040888963407);
            let latency = state >> 33;
            expected_min = expected_min.min(latency);
            expected_max = expected_max.max(latency);
            r.record_success(latency, 1);
        }
        assert_eq!(r.min_latency_us, expected_min);
        assert_eq!(r.max_latency_us, expected_max);
    }
}

#[test]
fn min_starts_at_largest_value_and_first_success_replaces_it() {
    let r = BenchmarkResults::new();
    assert_eq!(r.min_latency_us, u64::MAX);
    assert_eq!(r.max_latency_us, 0);
    let mut r = BenchmarkResults::new();
    r.record_success(123, 5);
    assert_eq!(r.min_latency_us, 123);
    assert_eq!(r.max_latency_us, 123);
}

#[test]
fn average_sits_between_extrema() {
    let mut r = BenchmarkResults::new();
    for &l in [100u64, 200, 900].iter() {
        r.record_success(l, 0);
    }
    let avg = r.average_latency_us();
    assert_eq!(avg, 400);
    assert!(r.min_latency_us <= avg && avg <= r.max_latency_us);
    let empty = BenchmarkResults::new();
    assert_eq!(empty.average_latency_us(), 0);
}

#[test]
fn partitioning_is_exact_for_even_loads() {
    assert_eq!(requests_per_worker(100, 10), 10);
    assert_eq!(planned_total(100, 10), 100);
}

#[test]
fn partitioning_drops_the_remainder() {
    assert_eq!(requests_per_worker(101, 10), 10);
    assert_eq!(planned_total(101, 10), 100);
    assert_eq!(planned_total(7, 10), 0);
    assert_eq!(planned_total(99, 7), 98);
}
