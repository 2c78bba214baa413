use contact_handler::numfmt::{
    format_bytes, format_latency, format_ms_two_decimals, u64_to_string,
};

#[test]
fn bytes_below_one_thousand_stay_plain() {
    assert_eq!(format_bytes(0), "0 B");
    assert_eq!(format_bytes(1), "1 B");
    assert_eq!(format_bytes(999), "999 B");
}

#[test]
fn bytes_scale_at_exact_thresholds() {
    assert_eq!(format_bytes(1000), "1.00 KB");
    assert_eq!(format_bytes(1500), "1.50 KB");
    assert_eq!(format_bytes(999_999), "1000.00 KB");
    assert_eq!(format_bytes(1_000_000), "1.00 MB");
    assert_eq!(format_bytes(2_500_000), "2.50 MB");
    assert_eq!(format_bytes(1_000_000_000), "1.00 GB");
    assert_eq!(format_bytes(1_234_000_000), "1.23 GB");
}

#[test]
fn latency_below_one_millisecond_stays_in_microseconds() {
    assert_eq!(format_latency(0), "0\u{3bc}s");
    assert_eq!(format_latency(999), "999\u{3bc}s");
}

#[test]
fn latency_scales_at_exact_thresholds() {
    assert_eq!(format_latency(1000), "1.00ms");
    assert_eq!(format_latency(1500), "1.50ms");
    assert_eq!(format_latency(999_999), "1000.00ms");
    assert_eq!(format_latency(1_000_000), "1.00s");
    assert_eq!(format_latency(1_500_000), "1.50s");
}

#[test]
fn scaled_values_round_half_up() {
    assert_eq!(format_latency(1994), "1.99ms");
    assert_eq!(format_latency(1995), "2.00ms");
    assert_eq!(format_latency(1999), "2.00ms");
}

#[test]
fn milliseconds_table_rendering() {
    assert_eq!(format_ms_two_decimals(1266), "1.27");
    assert_eq!(format_ms_two_decimals(0), "0.00");
    assert_eq!(format_ms_two_decimals(100_000), "100.00");
}

#[test]
fn decimal_rendering_of_integers() {
    assert_eq!(u64_to_string(0), "0");
    assert_eq!(u64_to_string(7), "7");
    assert_eq!(u64_to_string(1_234_567_890), "1234567890");
    assert_eq!(u64_to_string(u64::MAX), "18446744073709551615");
}
