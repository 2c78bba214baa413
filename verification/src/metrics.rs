//! One measurement's result: the phase-by-phase timings of a single HTTP
//! request, and the qualitative ratings derived from timings.

use vstd::prelude::*;

verus! {

/// Timings of one request, in microseconds, phase by phase. The TLS phase
/// is always zero: only plain connections are measured.
pub struct PerformanceMetrics {
    pub dns_lookup_us: u64,
    pub tcp_connect_us: u64,
    pub tls_handshake_us: u64,
    pub ttfb_us: u64,
    pub download_us: u64,
    pub total_us: u64,
    pub response_size: usize,
    pub status_code: u16,
}

impl PerformanceMetrics {
    /// The total is the exact sum of the four measured phases.
    pub open spec fn wf(self) -> bool {
        &&& self.total_us == self.dns_lookup_us + self.tcp_connect_us
            + self.ttfb_us + self.download_us
        &&& self.tls_handshake_us == 0
    }

    /// Assembles one measurement: the total is the sum of the phases, and
    /// the TLS phase is zero.
    pub fn new(
        dns_lookup_us: u64,
        tcp_connect_us: u64,
        ttfb_us: u64,
        download_us: u64,
        response_size: usize,
        status_code: u16,
    ) -> (r: PerformanceMetrics)
        requires
            dns_lookup_us + tcp_connect_us + ttfb_us + download_us <= u64::MAX,
        ensures
            r.wf(),
            r.dns_lookup_us == dns_lookup_us,
            r.tcp_connect_us == tcp_connect_us,
            r.ttfb_us == ttfb_us,
            r.download_us == download_us,
            r.response_size == response_size,
            r.status_code == status_code,
    {
        PerformanceMetrics {
            dns_lookup_us,
            tcp_connect_us,
            tls_handshake_us: 0,
            ttfb_us,
            download_us,
            total_us: dns_lookup_us + tcp_connect_us + ttfb_us + download_us,
            response_size,
            status_code,
        }
    }
}

/// The rating bands of a single measured request, by its total time.
#[derive(Clone, Copy, Debug, PartialEq, Eq, Structural)]
pub enum ResponseRating {
    Excellent,
    VeryGood,
    Good,
    Fair,
    Slow,
}

pub open spec fn response_rating_of(total_us: u64) -> ResponseRating {
    if total_us < 100000 {
        ResponseRating::Excellent
    } else if total_us < 300000 {
        ResponseRating::VeryGood
    } else if total_us < 500000 {
        ResponseRating::Good
    } else if total_us < 1000000 {
        ResponseRating::Fair
    } else {
        ResponseRating::Slow
    }
}

/// Rates one measurement: the bands switch at 100, 300, 500 and 1000
/// milliseconds of total time.
pub fn response_rating(total_us: u64) -> (r: ResponseRating)
    ensures
        r == response_rating_of(total_us),
{
    if total_us < 100_000 {
        ResponseRating::Excellent
    } else if total_us < 300_000 {
        ResponseRating::VeryGood
    } else if total_us < 500_000 {
        ResponseRating::Good
    } else if total_us < 1_000_000 {
        ResponseRating::Fair
    } else {
        ResponseRating::Slow
    }
}

/// The rating bands of a full page load, by its duration in milliseconds.
#[derive(Clone, Copy, Debug, PartialEq, Eq, Structural)]
pub enum PageLoadRating {
    Excellent,
    VeryGood,
    Good,
    Acceptable,
    NeedsImprovement,
}

pub open spec fn page_load_rating_of(ms: u64) -> PageLoadRating {
    if ms < 100 {
        PageLoadRating::Excellent
    } else if ms < 500 {
        PageLoadRating::VeryGood
    } else if ms < 1000 {
        PageLoadRating::Good
    } else if ms < 2500 {
        PageLoadRating::Acceptable
    } else {
        PageLoadRating::NeedsImprovement
    }
}

/// Rates a full page load: the bands switch at 100, 500, 1000 and 2500
/// milliseconds.
pub fn page_load_rating(ms: u64) -> (r: PageLoadRating)
    ensures
        r == page_load_rating_of(ms),
{
    if ms < 100 {
        PageLoadRating::Excellent
    } else if ms < 500 {
        PageLoadRating::VeryGood
    } else if ms < 1000 {
        PageLoadRating::Good
    } else if ms < 2500 {
        PageLoadRating::Acceptable
    } else {
        PageLoadRating::NeedsImprovement
    }
}

} // verus!
