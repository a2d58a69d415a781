//! Staleness-aware cache freshness policy: exponential backoff between forced
//! recomputes, with an outlier-triggered reset of the backoff when observed
//! latencies shift regime.

use crate::moments::{lemma_cauchy_schwarz, lemma_moment_bounds, OnlineMoments};
use crate::rational::frac_le;
use vstd::prelude::*;

verus! {

/// Largest backoff threshold: at most one forced recompute per 100 fetches.
pub const BACKOFF_CEILING: i32 = 100;

/// Largest latency, in microseconds, that the policy absorbs exactly.
pub const LATENCY_MAX_US: u64 = 0xFF_FFFF_FFFF;

/// Largest number of latencies held between resets.  Together with
/// `LATENCY_MAX_US` this keeps every product in the exact two-sigma test
/// within 128-bit arithmetic; reaching the cap discards the history, as a
/// regime change does.
pub const LATENCY_HISTORY_CAP: u64 = 0x40_0000;

/// Per-cache-key state: a fetch counter, a backoff threshold that doubles up
/// to `BACKOFF_CEILING`, and an estimator over the latencies observed since
/// the last regime change.
pub struct CacheFreshnessPolicy {
    pub fetches: i32,
    pub backoff: i32,
    pub times: OnlineMoments,
}

/// The new latency `x` lies within two standard deviations of the mean of the
/// absorbed latencies.  Over the reals, `|x − mean| <= 2·stdev` with
/// `mean = S/W` and `variance = (W·Q − S²)/(W·(W−1))`; squaring and clearing
/// the (positive) denominators gives this equivalent exact integer form.
pub open spec fn latency_within_band(m: OnlineMoments, x: int) -> bool {
    let w = m.weight as int;
    let s = m.sum as int;
    let q = m.sum_sq as int;
    (w * x - s) * (w * x - s) * (w - 1) <= 4 * w * (w * q - s * s)
}

/// Whether one call of `should_rerun` forces a recompute.
pub open spec fn spec_rerun_result(p: CacheFreshnessPolicy) -> bool {
    p.fetches + 1 > p.backoff
}

/// The policy state after one call of `should_rerun`.
pub open spec fn spec_rerun_next(p: CacheFreshnessPolicy) -> CacheFreshnessPolicy {
    if p.fetches + 1 > p.backoff {
        CacheFreshnessPolicy {
            fetches: 0,
            backoff: if 2 * p.backoff >= BACKOFF_CEILING {
                BACKOFF_CEILING
            } else {
                (2 * p.backoff) as i32
            },
            times: p.times,
        }
    } else {
        CacheFreshnessPolicy { fetches: (p.fetches + 1) as i32, backoff: p.backoff, times: p.times }
    }
}

/// The policy state after `n` calls of `should_rerun`.
pub open spec fn spec_rerun_iterate(p: CacheFreshnessPolicy, n: nat) -> CacheFreshnessPolicy
    decreases n,
{
    if n == 0 {
        p
    } else {
        spec_rerun_next(spec_rerun_iterate(p, (n - 1) as nat))
    }
}

/// Whether `absorb_latency(x)` discards the accumulated state: either `x` is
/// an outlier against at least two prior latencies, or the bounded history is
/// full.
pub open spec fn spec_absorb_resets(p: CacheFreshnessPolicy, x: int) -> bool {
    ||| (p.times.weight > 1 && !latency_within_band(p.times, x))
    ||| p.times.weight >= LATENCY_HISTORY_CAP
}

/// The full transition relation of absorbing one latency: policy `p` absorbs
/// `x` microseconds and becomes `p2`.
pub open spec fn spec_absorb_rel(p: CacheFreshnessPolicy, x: int, p2: CacheFreshnessPolicy) -> bool {
    &&& (spec_absorb_resets(p, x) ==> {
        &&& p2.fetches == 0
        &&& p2.backoff == 1
        &&& p2.times.obs@ == seq![(x, 1int)]
    })
    &&& (!spec_absorb_resets(p, x) ==> {
        &&& p2.fetches == p.fetches
        &&& p2.backoff == p.backoff
        &&& p2.times.obs@ == p.times.obs@.push((x, 1))
    })
}

impl CacheFreshnessPolicy {
    pub open spec fn wf(self) -> bool {
        &&& 0 <= self.fetches <= self.backoff
        &&& 1 <= self.backoff <= BACKOFF_CEILING
        &&& self.times.wf()
        &&& self.times.weight <= LATENCY_HISTORY_CAP
        &&& forall|i: int|
            0 <= i < self.times.obs@.len() ==> {
                &&& 0 <= (#[trigger] self.times.obs@[i]).0 <= LATENCY_MAX_US
                &&& self.times.obs@[i].1 == 1
            }
    }

    /// A fresh policy: no fetches, backoff threshold one, no latencies.
    pub fn new() -> (r: CacheFreshnessPolicy)
        ensures
            r.wf(),
            r.fetches == 0,
            r.backoff == 1,
            r.times.obs@ == Seq::<(int, int)>::empty(),
    {
        CacheFreshnessPolicy { fetches: 0, backoff: 1, times: OnlineMoments::new() }
    }

    /// One fetch: serve the cached value during the quiet period (`false`),
    /// else reset the counter, double the backoff up to the ceiling, and
    /// force a recompute (`true`).
    pub fn should_rerun(&mut self) -> (r: bool)
        requires
            old(self).wf(),
        ensures
            final(self).wf(),
            r == spec_rerun_result(*old(self)),
            *final(self) == spec_rerun_next(*old(self)),
    {
        self.fetches = self.fetches + 1;
        if self.fetches <= self.backoff {
            false
        } else {
            self.fetches = 0;
            self.backoff = if self.backoff * 2 >= BACKOFF_CEILING {
                BACKOFF_CEILING
            } else {
                self.backoff * 2
            };
            true
        }
    }

    /// Absorb one observed latency.  With at least two latencies on record,
    /// a value outside mean ± 2 standard deviations is a regime change: the
    /// counters and the estimator are discarded before the value is absorbed.
    /// A full history is discarded the same way.
    pub fn absorb_latency(&mut self, time_us: u64)
        requires
            old(self).wf(),
            time_us <= LATENCY_MAX_US,
        ensures
            final(self).wf(),
            spec_absorb_rel(*old(self), time_us as int, *final(self)),
    {
        let full = self.times.weight >= LATENCY_HISTORY_CAP;
        let outlier = if self.times.weight > 1 {
            !latency_band_check(&self.times, time_us)
        } else {
            false
        };
        if outlier || full {
            self.fetches = 0;
            self.backoff = 1;
            self.times = OnlineMoments::new();
        }
        proof {
            lemma_moment_bounds(self.times.obs@, LATENCY_MAX_US as int, 1);
            assert(self.times.sum <= (LATENCY_HISTORY_CAP as int) * (LATENCY_MAX_US as int)
                && self.times.sum_sq <= (LATENCY_HISTORY_CAP as int) * (LATENCY_MAX_US as int)
                * (LATENCY_MAX_US as int)) by (nonlinear_arith)
                requires
                    self.times.sum <= self.times.weight * LATENCY_MAX_US,
                    self.times.sum_sq <= self.times.weight * LATENCY_MAX_US * LATENCY_MAX_US,
                    self.times.weight <= LATENCY_HISTORY_CAP,
                    self.times.sum >= 0,
                    self.times.sum_sq >= 0,
            ;
            assert((time_us as int) * (time_us as int) <= (LATENCY_MAX_US as int) * (
            LATENCY_MAX_US as int)) by (nonlinear_arith)
                requires
                    0 <= time_us <= LATENCY_MAX_US,
            ;
        }
        self.times.push(time_us);
        proof {
            let t = self.times.obs@;
            if outlier || full {
                assert(t =~= seq![(time_us as int, 1int)]);
            }
        }
    }
}

/// Exact two-sigma band test over the held moments, deciding
/// `latency_within_band` without floating point: the squared deviation of the
/// candidate from the mean is compared, as an exact rational, against four
/// times the sample variance.
fn latency_band_check(m: &OnlineMoments, x: u64) -> (r: bool)
    requires
        m.wf(),
        2 <= m.weight <= LATENCY_HISTORY_CAP,
        x <= LATENCY_MAX_US,
        forall|i: int|
            0 <= i < m.obs@.len() ==> {
                &&& 0 <= (#[trigger] m.obs@[i]).0 <= LATENCY_MAX_US
                &&& m.obs@[i].1 == 1
            },
    ensures
        r == latency_within_band(*m, x as int),
{
    proof {
        lemma_moment_bounds(m.obs@, LATENCY_MAX_US as int, 1);
        lemma_cauchy_schwarz(m.obs@);
        assert(m.sum <= (LATENCY_HISTORY_CAP as int) * (LATENCY_MAX_US as int)
            && m.sum_sq <= (LATENCY_HISTORY_CAP as int) * (LATENCY_MAX_US as int) * (
        LATENCY_MAX_US as int) && (m.weight as int) * (x as int) <= (LATENCY_HISTORY_CAP as int)
            * (LATENCY_MAX_US as int)) by (nonlinear_arith)
            requires
                m.sum <= m.weight * LATENCY_MAX_US,
                m.sum_sq <= m.weight * LATENCY_MAX_US * LATENCY_MAX_US,
                2 <= m.weight <= LATENCY_HISTORY_CAP,
                0 <= x <= LATENCY_MAX_US,
                m.sum >= 0,
                m.sum_sq >= 0,
        ;
    }
    let w: u128 = m.weight as u128;
    let wx: u128 = w * (x as u128);
    let delta: u128 = if wx >= m.sum {
        wx - m.sum
    } else {
        m.sum - wx
    };
    proof {
        let cap_prod = (LATENCY_HISTORY_CAP as int) * (LATENCY_MAX_US as int);
        assert(cap_prod * cap_prod < u128::MAX);
        assert(delta * delta <= cap_prod * cap_prod) by (nonlinear_arith)
            requires
                0 <= delta <= cap_prod,
        ;
        assert(m.sum * m.sum <= cap_prod * cap_prod) by (nonlinear_arith)
            requires
                0 <= m.sum <= cap_prod,
        ;
        assert((m.weight as int) * (m.sum_sq as int) <= cap_prod * cap_prod) by (nonlinear_arith)
            requires
                cap_prod == (LATENCY_HISTORY_CAP as int) * (LATENCY_MAX_US as int),
                0 <= m.sum_sq <= (LATENCY_HISTORY_CAP as int) * (LATENCY_MAX_US as int) * (
                LATENCY_MAX_US as int),
                0 <= m.weight <= LATENCY_HISTORY_CAP,
                1 <= LATENCY_MAX_US,
        ;
    }
    let dd: u128 = delta * delta;
    let wq: u128 = w * m.sum_sq;
    let ss: u128 = m.sum * m.sum;
    let cnum: u128 = wq - ss;
    let bden: u128 = 4 * w;
    let dden: u128 = w - 1;
    let r = frac_le(dd, bden, cnum, dden);
    proof {
        let wi = m.weight as int;
        let xi = x as int;
        let si = m.sum as int;
        let qi = m.sum_sq as int;
        assert((delta as int) * (delta as int) == (wi * xi - si) * (wi * xi - si))
            by (nonlinear_arith)
            requires
                (delta == wi * xi - si) || (delta == si - wi * xi),
        ;
        assert(((dd as int) * (dden as int) <= (cnum as int) * (bden as int)) <==> ((wi * xi - si)
            * (wi * xi - si) * (wi - 1) <= 4 * wi * (wi * qi - si * si))) by (nonlinear_arith)
            requires
                dd == (wi * xi - si) * (wi * xi - si),
                dden == wi - 1,
                cnum == wi * qi - si * si,
                bden == 4 * wi,
        ;
    }
    r
}

/// From a freshly reset policy (fetch counter zero, backoff `b`), repeated
/// calls of `should_rerun` with no intervening latency are quiet for exactly
/// `b` calls; the `(b+1)`-th call forces a recompute, zeroes the counter and
/// doubles the backoff, saturating at the ceiling.
pub proof fn lemma_backoff_schedule(p: CacheFreshnessPolicy)
    requires
        p.wf(),
        p.fetches == 0,
    ensures
        forall|i: int|
            0 <= i < p.backoff ==> !spec_rerun_result(#[trigger] spec_rerun_iterate(p, i as nat)),
        spec_rerun_result(spec_rerun_iterate(p, p.backoff as nat)),
        spec_rerun_next(spec_rerun_iterate(p, p.backoff as nat)).fetches == 0,
        spec_rerun_next(spec_rerun_iterate(p, p.backoff as nat)).backoff == (
        if 2 * p.backoff >= BACKOFF_CEILING {
            BACKOFF_CEILING as int
        } else {
            2 * p.backoff
        }),
{
    assert forall|i: int| 0 <= i <= p.backoff implies {
        &&& (#[trigger] spec_rerun_iterate(p, i as nat)).fetches == i
        &&& spec_rerun_iterate(p, i as nat).backoff == p.backoff
    } by {
        lemma_quiet_prefix(p, i);
    }
}

/// While the fetch counter has not yet caught up with the backoff threshold,
/// each call only increments the counter.
proof fn lemma_quiet_prefix(p: CacheFreshnessPolicy, i: int)
    requires
        p.wf(),
        p.fetches == 0,
        0 <= i <= p.backoff,
    ensures
        spec_rerun_iterate(p, i as nat).fetches == i,
        spec_rerun_iterate(p, i as nat).backoff == p.backoff,
        spec_rerun_iterate(p, i as nat).times == p.times,
    decreases i,
{
    if i > 0 {
        lemma_quiet_prefix(p, i - 1);
    }
}

} // verus!
