use contact_handler::http::{
    build_get_request, build_probe_request, is_success_response, parse_status_code,
};
use contact_handler::metrics::{
    page_load_rating, response_rating, PageLoadRating, PerformanceMetrics,
    ResponseRating,
};
use contact_handler::text::chars_of;
use contact_handler::trace::{
    avg_rtt_us, build_network_diagnostics, hop_status, is_ipv4_token,
    is_ipv6_token, parse_hop_line, parse_timing_token, HopStatus, TraceHop,
};

#[test]
fn only_literal_200_counts_as_success() {
    assert!(is_success_response("HTTP/1.1 200 OK\r\n\r\nbody"));
    assert!(is_success_response("HTTP/1.0 200 OK\r\n"));
    assert!(!is_success_response("HTTP/1.1 201 Created\r\n\r\n"));
    assert!(!is_success_response("HTTP/1.1 204 No Content\r\n"));
    assert!(!is_success_response("HTTP/1.1 404 Not Found\r\n"));
    assert!(!is_success_response("HTTP/2 200\r\n"));
    assert!(!is_success_response(""));
}

#[test]
fn status_codes_are_read_from_the_first_line() {
    assert_eq!(parse_status_code("HTTP/1.1 200 OK\r\nHost: x\r\n"), 200);
    assert_eq!(parse_status_code("HTTP/1.1 404 Not Found\r\n"), 404);
    assert_eq!(parse_status_code("HTTP/1.1 99999 Nonsense\r\n"), 0);
    assert_eq!(parse_status_code("garbage"), 0);
    assert_eq!(parse_status_code(""), 0);
    assert_eq!(parse_status_code("HTTP/1.1\r\n500"), 0);
}

#[test]
fn request_lines_are_built_verbatim() {
    assert_eq!(
        build_get_request("example.com:80", "/health"),
        "GET /health HTTP/1.1\r\nHost: example.com:80\r\nConnection: close\r\n\r\n"
    );
    assert_eq!(
        build_probe_request("example.com", "/"),
        "GET / HTTP/1.1\r\nHost: example.com\r\nConnection: close\r\nUser-Agent: SCC-PerfClient/1.0\r\n\r\n"
    );
}

#[test]
fn hop_line_with_ip_and_three_timings() {
    let hop = parse_hop_line("1 10.0.0.1 1.2 ms 1.5 ms 1.1 ms", 1, None).unwrap();
    assert_eq!(hop.hop_number, 1);
    assert_eq!(hop.ip_address.as_deref(), Some("10.0.0.1"));
    assert_eq!(hop.rtt_us, vec![1200, 1500, 1100]);
    assert!(!hop.is_target);
    assert!(hop.hostname.is_none());
}

#[test]
fn hop_line_matching_the_resolved_target() {
    let hop = parse_hop_line(
        "7 93.184.216.34 10.0 ms 11.5 ms 9.8 ms",
        7,
        Some("93.184.216.34"),
    )
    .unwrap();
    assert!(hop.is_target);
    let other = parse_hop_line(
        "7 93.184.216.34 10.0 ms",
        7,
        Some("93.184.216.35"),
    )
    .unwrap();
    assert!(!other.is_target);
}

#[test]
fn hop_line_with_timings_but_no_address() {
    let hop = parse_hop_line("3 * 12.0 ms * *", 3, None).unwrap();
    assert!(hop.ip_address.is_none());
    assert_eq!(hop.rtt_us, vec![12_000]);
}

#[test]
fn hop_line_with_nothing_usable_is_dropped() {
    assert!(parse_hop_line("4 * * *", 4, None).is_none());
    assert!(parse_hop_line("", 1, None).is_none());
    assert!(parse_hop_line("   ", 1, None).is_none());
}

#[test]
fn timing_tokens() {
    assert_eq!(parse_timing_token(&chars_of("10")), Some(10_000));
    assert_eq!(parse_timing_token(&chars_of("1.2")), Some(1_200));
    assert_eq!(parse_timing_token(&chars_of("1.234")), Some(1_234));
    assert_eq!(parse_timing_token(&chars_of("1.2345")), Some(1_234));
    assert_eq!(parse_timing_token(&chars_of("0.5ms")), Some(500));
    assert_eq!(parse_timing_token(&chars_of("120ms")), Some(120_000));
    assert_eq!(parse_timing_token(&chars_of("ms")), None);
    assert_eq!(parse_timing_token(&chars_of("")), None);
    assert_eq!(parse_timing_token(&chars_of(".")), None);
    assert_eq!(parse_timing_token(&chars_of("1.2.3")), None);
    assert_eq!(parse_timing_token(&chars_of("-1.5")), None);
    assert_eq!(parse_timing_token(&chars_of(".5")), Some(500));
}

#[test]
fn address_tokens() {
    assert!(is_ipv4_token(&chars_of("10.0.0.1")));
    assert!(is_ipv4_token(&chars_of("255.255.255.255")));
    assert!(is_ipv4_token(&chars_of("0.0.0.0")));
    assert!(!is_ipv4_token(&chars_of("256.1.1.1")));
    assert!(!is_ipv4_token(&chars_of("01.2.3.4")));
    assert!(!is_ipv4_token(&chars_of("1.2.3")));
    assert!(!is_ipv4_token(&chars_of("1.2.3.4.5")));
    assert!(!is_ipv4_token(&chars_of("a.b.c.d")));
    assert!(!is_ipv4_token(&chars_of("")));
}

#[test]
fn ipv6_address_tokens() {
    assert!(is_ipv6_token(&chars_of("2001:db8:0:1:1:1:1:1")));
    assert!(is_ipv6_token(&chars_of("2001:db8::1")));
    assert!(is_ipv6_token(&chars_of("::1")));
    assert!(is_ipv6_token(&chars_of("::")));
    assert!(is_ipv6_token(&chars_of("fe80::")));
    assert!(is_ipv6_token(&chars_of("1:2:3:4:5:6:7::")));
    assert!(is_ipv6_token(&chars_of("FE80::A:b")));
    assert!(!is_ipv6_token(&chars_of("1:2:3:4:5:6:7:8:9")));
    assert!(!is_ipv6_token(&chars_of("1:2:3:4:5:6:7")));
    assert!(!is_ipv6_token(&chars_of("1::2::3")));
    assert!(!is_ipv6_token(&chars_of(":::")));
    assert!(!is_ipv6_token(&chars_of(":1:2:3:4:5:6:7")));
    assert!(!is_ipv6_token(&chars_of("1:2:3:4:5:6:7:8::")));
    assert!(!is_ipv6_token(&chars_of("12345::1")));
    assert!(!is_ipv6_token(&chars_of("g::1")));
    assert!(!is_ipv6_token(&chars_of("10.0.0.1")));
}

#[test]
fn hop_line_with_an_ipv6_address() {
    let hop = parse_hop_line("2 2001:db8::1 3.5 ms 4.0 ms", 2, None).unwrap();
    assert_eq!(hop.ip_address.as_deref(), Some("2001:db8::1"));
    assert_eq!(hop.rtt_us, vec![3_500, 4_000]);
    let target = parse_hop_line("9 2001:db8::1 3.5 ms", 9, Some("2001:db8::1")).unwrap();
    assert!(target.is_target);
}

#[test]
fn whole_trace_output_is_read_hop_by_hop() {
    let output = "traceroute to example.com (93.184.216.34), 30 hops max\n\
                  1  192.168.1.1  1.0 ms  1.2 ms  0.9 ms\n\
                  2  *  25.0 ms  *  *\n\
                  3  * * *\n\
                  4  93.184.216.34  30.0 ms  29.5 ms  31.0 ms\n";
    let diag =
        build_network_diagnostics("example.com", Some("93.184.216.34".to_string()), output);
    assert_eq!(diag.target, "example.com");
    assert_eq!(diag.total_hops, 3);
    assert_eq!(diag.hops.len(), 3);
    assert_eq!(diag.hops[0].hop_number, 1);
    assert_eq!(diag.hops[0].ip_address.as_deref(), Some("192.168.1.1"));
    assert_eq!(diag.hops[1].hop_number, 2);
    assert!(diag.hops[1].ip_address.is_none());
    assert_eq!(diag.hops[2].hop_number, 4);
    assert!(diag.hops[2].is_target);
    assert_eq!(diag.unresponsive_hops, 1);
    assert_eq!(diag.packet_loss_tenths(), 333);
}

#[test]
fn packet_loss_on_zero_hops_is_zero() {
    let diag = build_network_diagnostics("nowhere.invalid", None, "");
    assert_eq!(diag.total_hops, 0);
    assert_eq!(diag.packet_loss_tenths(), 0);
    let diag = build_network_diagnostics("nowhere.invalid", None, "header only\n");
    assert_eq!(diag.total_hops, 0);
    assert_eq!(diag.packet_loss_tenths(), 0);
}

#[test]
fn parsing_stops_after_thirty_hops() {
    let mut output = String::from("header\n");
    for k in 1..=40 {
        output.push_str(&format!("{} 10.0.0.{} 1.0 ms\n", k, k));
    }
    let diag = build_network_diagnostics("example.com", None, &output);
    assert_eq!(diag.total_hops, 30);
    assert_eq!(diag.hops[29].hop_number, 30);
}

fn hop(ip: Option<&str>, rtts: Vec<u64>, is_target: bool) -> TraceHop {
    TraceHop {
        hop_number: 1,
        ip_address: ip.map(|s| s.to_string()),
        hostname: None,
        rtt_us: rtts,
        is_target,
    }
}

#[test]
fn hop_statuses() {
    assert_eq!(
        hop_status(&hop(Some("1.2.3.4"), vec![5_000], true)),
        HopStatus::Target
    );
    assert_eq!(hop_status(&hop(None, vec![5_000], false)), HopStatus::NoResponse);
    assert_eq!(
        hop_status(&hop(Some("1.2.3.4"), vec![5_000, 100_001], false)),
        HopStatus::Slow
    );
    assert_eq!(
        hop_status(&hop(Some("1.2.3.4"), vec![5_000, 100_000], false)),
        HopStatus::Responding
    );
}

#[test]
fn average_round_trip() {
    assert_eq!(avg_rtt_us(&hop(None, vec![], false)), None);
    assert_eq!(avg_rtt_us(&hop(None, vec![1_200, 1_500, 1_100], false)), Some(1_266));
}

#[test]
fn metrics_total_is_the_sum_of_phases() {
    let m = PerformanceMetrics::new(1_000, 2_000, 30_000, 4_000, 5_555, 200);
    assert_eq!(m.total_us, 37_000);
    assert_eq!(m.tls_handshake_us, 0);
    assert_eq!(m.response_size, 5_555);
    assert_eq!(m.status_code, 200);
}

#[test]
fn response_rating_bands() {
    assert_eq!(response_rating(99_999), ResponseRating::Excellent);
    assert_eq!(response_rating(100_000), ResponseRating::VeryGood);
    assert_eq!(response_rating(299_999), ResponseRating::VeryGood);
    assert_eq!(response_rating(300_000), ResponseRating::Good);
    assert_eq!(response_rating(500_000), ResponseRating::Fair);
    assert_eq!(response_rating(1_000_000), ResponseRating::Slow);
}

#[test]
fn page_load_rating_bands() {
    assert_eq!(page_load_rating(99), PageLoadRating::Excellent);
    assert_eq!(page_load_rating(100), PageLoadRating::VeryGood);
    assert_eq!(page_load_rating(500), PageLoadRating::Good);
    assert_eq!(page_load_rating(1000), PageLoadRating::Acceptable);
    assert_eq!(page_load_rating(2500), PageLoadRating::NeedsImprovement);
}

#[test]
fn route_table_rows_are_fixed_width() {
    let h = hop(Some("10.0.0.1"), vec![1_200, 1_500, 1_100], false);
    assert_eq!(
        contact_handler::render::hop_table_row(&h),
        "║    1 │      10.0.0.1      │       1.27        │           ● OK           ║"
    );
    let t = TraceHop {
        hop_number: 12,
        ip_address: Some("93.184.216.34".to_string()),
        hostname: None,
        rtt_us: vec![200_000],
        is_target: true,
    };
    assert_eq!(
        contact_handler::render::hop_table_row(&t),
        "║   12 │   93.184.216.34    │      200.00       │         ◉ TARGET         ║"
    );
    let none = hop(None, vec![], false);
    assert_eq!(
        contact_handler::render::hop_table_row(&none),
        "║    1 │       * * *        │      timeout      │      ○ No response       ║"
    );
}

#[test]
fn route_marker_line_distinguishes_hop_kinds() {
    let hops = vec![
        hop(Some("10.0.0.1"), vec![1_000], false),
        hop(None, vec![2_000], false),
        hop(Some("10.0.0.3"), vec![3_000], true),
    ];
    let line = contact_handler::render::route_markers(&hops);
    // three markers, joined by runs of 70/3 - 1 = 22 dashes
    assert_eq!(line, format!("●{d}○{d}◉", d = "─".repeat(22)));
    assert_eq!(contact_handler::render::route_markers(&vec![]), "");
}
