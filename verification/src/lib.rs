//! Verified core of a small business-site toolkit: a load generator's
//! statistics aggregator and request partitioning, HTTP response
//! classification, traceroute output parsing and route reporting, and the
//! site's CSV, HTML and identifier helpers.

pub mod http;
pub mod metrics;
pub mod numfmt;
pub mod render;
pub mod site;
pub mod stats;
pub mod text;
pub mod trace;
pub mod whitepaper;

use vstd::prelude::*;

verus! {

/// Run parameters of one benchmark, created once from the command line and
/// read-only thereafter.
pub struct BenchmarkConfig {
    pub host: String,
    pub requests: u32,
    pub concurrency: u32,
    pub warmup: bool,
    pub verbose: bool,
}

/// The default run: one hundred requests, ten workers, warmup on.
pub const DEFAULT_REQUESTS: u32 = 100;

pub const DEFAULT_CONCURRENCY: u32 = 10;

/// The benchmark's default target.
pub const DEFAULT_HOST: &'static str = "127.0.0.1:9000";

/// The diagnostics client's default target.
pub const DEFAULT_DIAG_TARGET: &'static str = "southcitycomputer.com";

/// Integer division partitioning a request budget across workers: each of
/// the `concurrency` workers issues exactly `requests / concurrency`
/// requests.
pub fn requests_per_worker(requests: u32, concurrency: u32) -> (r: u32)
    requires
        concurrency > 0,
    ensures
        r == requests as int / concurrency as int,
{
    requests / concurrency
}

/// How many requests a run of `concurrency` workers issues in all: the
/// per-worker share times the worker count. It never exceeds the asked
/// total, and falls short of it by less than one worker's share — the
/// division's remainder is dropped, not redistributed.
pub fn planned_total(requests: u32, concurrency: u32) -> (r: u32)
    requires
        concurrency > 0,
    ensures
        r == concurrency as int * (requests as int / concurrency as int),
        r <= requests,
        requests - r < concurrency,
{
    proof {
        vstd::arithmetic::div_mod::lemma_fundamental_div_mod(
            requests as int,
            concurrency as int,
        );
        vstd::arithmetic::div_mod::lemma_mod_bound(
            requests as int,
            concurrency as int,
        );
    }
    concurrency * (requests / concurrency)
}

} // verus!
