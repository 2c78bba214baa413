//! Aggregate statistics of a benchmark run.
//!
//! `BenchmarkResults` counts total, successful and failed requests, the
//! bytes transferred and the cumulative latency of the successes, and keeps
//! the running minimum and maximum latency. The minimum starts at the
//! largest representable value so that the first recorded latency always
//! replaces it; the maximum starts at zero.
//!
//! A ghost history of the recorded successes ties every counter to the
//! exact values that were passed in: no update is lost, and the extrema are
//! the true extrema of all recorded latencies.

use vstd::prelude::*;

verus! {

/// Sum of a sequence of recorded values, as an unbounded integer.
pub open spec fn sum_of(s: Seq<u64>) -> int
    decreases s.len(),
{
    if s.len() == 0 {
        0
    } else {
        sum_of(s.drop_last()) + s.last()
    }
}

/// Running minimum of a sequence, starting from the largest `u64`.
pub open spec fn min_of(s: Seq<u64>) -> int
    decreases s.len(),
{
    if s.len() == 0 {
        u64::MAX as int
    } else if s.last() < min_of(s.drop_last()) {
        s.last() as int
    } else {
        min_of(s.drop_last())
    }
}

/// Running maximum of a sequence, starting from zero.
pub open spec fn max_of(s: Seq<u64>) -> int
    decreases s.len(),
{
    if s.len() == 0 {
        0
    } else if s.last() > max_of(s.drop_last()) {
        s.last() as int
    } else {
        max_of(s.drop_last())
    }
}

/// One successful request: its latency in microseconds and the bytes read.
pub struct Success {
    pub latency_us: u64,
    pub bytes: u64,
}

pub struct BenchmarkResults {
    pub total_requests: u64,
    pub successful_requests: u64,
    pub failed_requests: u64,
    pub total_bytes: u64,
    pub min_latency_us: u64,
    pub max_latency_us: u64,
    pub total_latency_us: u64,
    /// Ghost history of every success recorded so far.
    pub history: Ghost<Seq<Success>>,
}

impl BenchmarkResults {
    /// The latencies of the recorded successes, in recording order.
    pub open spec fn latencies(self) -> Seq<u64> {
        self.history@.map_values(|s: Success| s.latency_us)
    }

    /// The byte counts of the recorded successes, in recording order.
    pub open spec fn byte_counts(self) -> Seq<u64> {
        self.history@.map_values(|s: Success| s.bytes)
    }

    /// Every counter is the exact aggregate of the recorded history.
    pub open spec fn wf(self) -> bool {
        &&& self.successful_requests == self.history@.len()
        &&& self.total_requests == self.history@.len() + self.failed_requests
        &&& self.total_bytes == sum_of(self.byte_counts())
        &&& self.total_latency_us == sum_of(self.latencies())
        &&& self.min_latency_us == min_of(self.latencies())
        &&& self.max_latency_us == max_of(self.latencies())
    }

    /// An empty aggregate: all counters zero, the minimum primed with the
    /// largest representable latency.
    pub fn new() -> (r: BenchmarkResults)
        ensures
            r.wf(),
            r.history@ == Seq::<Success>::empty(),
            r.failed_requests == 0,
            r.total_requests == 0,
            r.min_latency_us == u64::MAX,
            r.max_latency_us == 0,
    {
        let r = BenchmarkResults {
            total_requests: 0,
            successful_requests: 0,
            failed_requests: 0,
            total_bytes: 0,
            min_latency_us: u64::MAX,
            max_latency_us: 0,
            total_latency_us: 0,
            history: Ghost(Seq::empty()),
        };
        proof {
            assert(r.latencies() =~= Seq::<u64>::empty());
            assert(r.byte_counts() =~= Seq::<u64>::empty());
        }
        r
    }

    /// Records one successful request: total and success counters grow by
    /// one, the byte and latency sums by the recorded values, and the
    /// extrema are replaced when the new latency improves on them.
    pub fn record_success(&mut self, latency_us: u64, bytes: u64)
        requires
            old(self).wf(),
            old(self).total_requests < u64::MAX,
            old(self).total_bytes + bytes <= u64::MAX,
            old(self).total_latency_us + latency_us <= u64::MAX,
        ensures
            final(self).wf(),
            final(self).history@ == old(self).history@.push(
                (Success { latency_us, bytes }),
            ),
            final(self).failed_requests == old(self).failed_requests,
            final(self).total_requests == old(self).total_requests + 1,
    {
        proof {
            assert(self.successful_requests < u64::MAX);
        }
        self.total_requests = self.total_requests + 1;
        self.successful_requests = self.successful_requests + 1;
        self.total_bytes = self.total_bytes + bytes;
        self.total_latency_us = self.total_latency_us + latency_us;
        if latency_us < self.min_latency_us {
            self.min_latency_us = latency_us;
        }
        if latency_us > self.max_latency_us {
            self.max_latency_us = latency_us;
        }
        self.history = Ghost(self.history@.push(Success { latency_us, bytes }));
        proof {
            assert(self.latencies() =~= old(self).latencies().push(latency_us));
            assert(self.byte_counts() =~= old(self).byte_counts().push(bytes));
            assert(self.latencies().drop_last() =~= old(self).latencies());
            assert(self.byte_counts().drop_last() =~= old(self).byte_counts());
        }
    }

    /// The mean latency of the successes, zero when none was recorded, as
    /// the report shows it.
    pub fn average_latency_us(&self) -> (r: u64)
        ensures
            r == (if self.successful_requests == 0 {
                0int
            } else {
                self.total_latency_us as int / self.successful_requests as int
            }),
    {
        if self.successful_requests == 0 {
            0
        } else {
            self.total_latency_us / self.successful_requests
        }
    }

    /// Records one failed request: only the total and failure counters grow.
    pub fn record_failure(&mut self)
        requires
            old(self).wf(),
            old(self).total_requests < u64::MAX,
        ensures
            final(self).wf(),
            final(self).history@ == old(self).history@,
            final(self).failed_requests == old(self).failed_requests + 1,
            final(self).total_requests == old(self).total_requests + 1,
    {
        self.total_requests = self.total_requests + 1;
        self.failed_requests = self.failed_requests + 1;
    }
}

/// After any sequence of recordings, the counters are exact: the total is
/// the successes plus the failures, and the byte and latency totals are the
/// exact sums of the recorded values — no update is lost.
pub proof fn lemma_counters_are_exact(r: BenchmarkResults)
    requires
        r.wf(),
    ensures
        r.total_requests == r.successful_requests + r.failed_requests,
        r.successful_requests == r.history@.len(),
        r.total_bytes == sum_of(r.byte_counts()),
        r.total_latency_us == sum_of(r.latencies()),
{
}

proof fn lemma_min_max_bounds(s: Seq<u64>)
    ensures
        forall|i: int| 0 <= i < s.len() ==> min_of(s) <= #[trigger] s[i],
        forall|i: int| 0 <= i < s.len() ==> #[trigger] s[i] <= max_of(s),
        s.len() > 0 ==> exists|i: int| 0 <= i < s.len() && s[i] == min_of(s),
        s.len() > 0 ==> exists|i: int| 0 <= i < s.len() && s[i] == max_of(s),
    decreases s.len(),
{
    if s.len() > 0 {
        lemma_min_max_bounds(s.drop_last());
        assert(forall|i: int|
            0 <= i < s.len() - 1 ==> s.drop_last()[i] == #[trigger] s[i]);
        if s.len() == 1 {
            assert(s[0] == s.last());
        } else {
            let j = choose|j: int|
                0 <= j < s.len() - 1 && s.drop_last()[j] == min_of(s.drop_last());
            let k = choose|k: int|
                0 <= k < s.len() - 1 && s.drop_last()[k] == max_of(s.drop_last());
            if !(s.last() < min_of(s.drop_last())) {
                assert(s[j] == min_of(s));
            }
            if !(s.last() > max_of(s.drop_last())) {
                assert(s[k] == max_of(s));
            }
        }
    }
}

/// After at least one success, the running minimum and maximum are the true
/// extrema of all recorded latencies: every recorded latency lies between
/// them, and each of them was itself recorded.
pub proof fn lemma_extrema_are_exact(r: BenchmarkResults)
    requires
        r.wf(),
        r.successful_requests > 0,
    ensures
        forall|i: int|
            0 <= i < r.latencies().len()
                ==> r.min_latency_us <= #[trigger] r.latencies()[i],
        forall|i: int|
            0 <= i < r.latencies().len()
                ==> #[trigger] r.latencies()[i] <= r.max_latency_us,
        exists|i: int|
            0 <= i < r.latencies().len() && r.latencies()[i] == r.min_latency_us,
        exists|i: int|
            0 <= i < r.latencies().len() && r.latencies()[i] == r.max_latency_us,
{
    lemma_min_max_bounds(r.latencies());
}

proof fn lemma_sum_bounds(s: Seq<u64>)
    ensures
        s.len() * min_of(s) <= sum_of(s) || s.len() == 0,
        sum_of(s) <= s.len() * max_of(s),
        sum_of(s) >= 0,
    decreases s.len(),
{
    if s.len() > 0 {
        lemma_sum_bounds(s.drop_last());
        lemma_min_max_bounds(s.drop_last());
        lemma_min_max_bounds(s);
        let n = s.len() - 1;
        assert(forall|i: int| 0 <= i < n ==> min_of(s) <= #[trigger] s[i]);
        vstd::arithmetic::mul::lemma_mul_inequality(min_of(s), min_of(s.drop_last()), n as int);
        vstd::arithmetic::mul::lemma_mul_inequality(max_of(s.drop_last()), max_of(s), n as int);
        assert((n + 1) * min_of(s) == n * min_of(s) + min_of(s))
            by (nonlinear_arith);
        assert((n + 1) * max_of(s) == n * max_of(s) + max_of(s))
            by (nonlinear_arith);
        if s.len() == 1 {
            assert(sum_of(s) == s.last());
        }
    }
}

/// Whenever at least one success was recorded, the mean latency (integer
/// division of the latency sum by the success count) lies between the
/// running minimum and maximum.
pub proof fn lemma_min_avg_max(r: BenchmarkResults)
    requires
        r.wf(),
        r.successful_requests > 0,
    ensures
        r.min_latency_us <= r.total_latency_us as int / r.successful_requests as int,
        r.total_latency_us as int / r.successful_requests as int <= r.max_latency_us,
{
    let lats = r.latencies();
    let n = lats.len() as int;
    let sum = sum_of(lats);
    let lo = min_of(lats);
    let hi = max_of(lats);
    lemma_sum_bounds(lats);
    assert(lo * n == n * lo) by (nonlinear_arith);
    assert(hi * n == n * hi) by (nonlinear_arith);
    vstd::arithmetic::div_mod::lemma_div_is_ordered(lo * n, sum, n);
    vstd::arithmetic::div_mod::lemma_div_is_ordered(sum, hi * n, n);
    vstd::arithmetic::div_mod::lemma_div_by_multiple(lo, n);
    vstd::arithmetic::div_mod::lemma_div_by_multiple(hi, n);
    assert(lo <= sum / n);
    assert(sum / n <= hi);
}

} // verus!
