//! Per-operator-instance convergence controller: accumulates tuple batches
//! and their elapsed times, and decides after each closed batch whether the
//! timing series has converged enough to stop sampling.

use crate::moments::{
    lemma_cauchy_schwarz, lemma_moment_bounds, sum_w, sum_wx, sum_wx2, OnlineMoments,
};
use crate::rational::{frac_le, Ratio};
use vstd::prelude::*;

verus! {

/// Largest elapsed time of a single batch, in microseconds, that the
/// controller records exactly.
pub const BATCH_TIME_MAX_US: u64 = 100_000_000;

/// Largest tuple count of a single batch; the in-progress counter saturates
/// here.
pub const BATCH_SIZE_CAP: u64 = 1_000_000_000;

/// Largest number of completed batches held; when full, the oldest batch is
/// dropped as a new one closes.  Together with the two caps above this keeps
/// every product of the exact convergence test within 128-bit arithmetic.
pub const MAX_BATCHES: usize = 300;

/// Largest numerator and denominator of the standard-deviation multiplier.
pub const STDEV_SCALE_MAX: u64 = 1000;

/// The tri-state outcome of reporting a tuple batch.
#[derive(Clone, Copy, Debug, PartialEq, Eq, Structural)]
pub enum ProgressSignal {
    /// The timing series has converged: stop sampling further batches.
    Stop,
    /// The current batch closed; keep sampling into a new batch.
    NewBatch,
    /// The current batch is still open.
    SameBatch,
}

impl ProgressSignal {
    /// The integer code of the signal in the host calling convention.
    pub fn code(&self) -> (r: i32)
        ensures
            self is Stop ==> r == 1,
            self is NewBatch ==> r == 2,
            self is SameBatch ==> r == 3,
    {
        match self {
            ProgressSignal::Stop => 1,
            ProgressSignal::NewBatch => 2,
            ProgressSignal::SameBatch => 3,
        }
    }
}

/// The (time, size) observations of batches `lo..hi`, sized for a weighted
/// moment estimator: each batch's elapsed time weighted by its tuple count.
pub open spec fn window_obs(t: Seq<u64>, s: Seq<u64>, lo: int, hi: int) -> Seq<(int, int)> {
    Seq::new((hi - lo) as nat, |j: int| (t[lo + j] as int, s[lo + j] as int))
}

/// The convergence test over the completed-batch series.  With fewer than
/// five batches it never passes.  Otherwise, over the trailing window of
/// `floor(n/5) + 1` batches immediately preceding the most recent one, build
/// the size-weighted moments `(W, S, Q)`; the series has converged iff the
/// window carries weight at least two and the most recent batch's time lies
/// within `k` standard deviations of the window's weighted mean, i.e. (with
/// `k = a/b`, mean `S/W`, variance `(W·Q − S²)/(W·(W−1))`, both exact
/// rationals) iff `(W·x − S)²·(W−1)·b² <= a²·W·(W·Q − S²)`.
pub open spec fn spec_try_stop(t: Seq<u64>, s: Seq<u64>, k: Ratio) -> bool {
    let n = t.len() as int;
    if n < 5 {
        false
    } else {
        let lo = n - 2 - n / 5;
        let obs = window_obs(t, s, lo, n - 1);
        let w = sum_w(obs);
        let sw = sum_wx(obs);
        let q = sum_wx2(obs);
        let x = t[n - 1] as int;
        let a = k.num as int;
        let b = k.den as int;
        w >= 2 && (w * x - sw) * (w * x - sw) * (w - 1) * (b * b) <= (a * a) * w * (w * q - sw
            * sw)
    }
}

/// The in-progress tuple counter after absorbing `n_tuples`, saturating at
/// `BATCH_SIZE_CAP`.
pub open spec fn spec_saturated_tuples(cur: u64, n_tuples: u64) -> u64 {
    if cur + n_tuples > BATCH_SIZE_CAP {
        BATCH_SIZE_CAP
    } else {
        (cur + n_tuples) as u64
    }
}

/// Per-operator-instance controller state: fixed descriptors and hypothesis
/// parameters, the parallel series of completed batch times and sizes, and
/// the tuple counter of the batch in progress.
pub struct BatchConvergenceController {
    pub plan_type: i32,
    pub optimizer_startup_cost: u64,
    pub optimizer_total_cost: u64,
    pub optimizer_plan_rows: u64,
    pub optimizer_plan_width: u64,
    pub hyp_row_fraction: Ratio,
    pub hyp_time_us: u64,
    pub hyp_stdev: Ratio,
    pub time_us: Vec<u64>,
    pub batch_sizes: Vec<u64>,
    pub current_n_tuples: u64,
}

/// Whether the in-progress batch closes on this report: the saturated tuple
/// counter reaches the row-fraction threshold of the estimated plan rows,
/// and the accumulated elapsed time reaches the time threshold.
pub open spec fn spec_batch_closes(
    c: BatchConvergenceController,
    n_tuples: u64,
    accumulated_us: u64,
) -> bool {
    &&& spec_saturated_tuples(c.current_n_tuples, n_tuples) * c.hyp_row_fraction.den
        >= c.hyp_row_fraction.num * c.optimizer_plan_rows
    &&& accumulated_us >= c.hyp_time_us
}

/// The completed-batch time series after a close: the new time is appended;
/// a full history first drops its oldest entry.
pub open spec fn spec_next_series(held: Seq<u64>, new_entry: u64) -> Seq<u64> {
    if held.len() < MAX_BATCHES {
        held.push(new_entry)
    } else {
        held.subrange(1, held.len() as int).push(new_entry)
    }
}

/// The full transition relation of one progress report: controller `c`
/// absorbs `(n_tuples, accumulated_us)` and becomes `c2` with signal `r`.
pub open spec fn spec_report_rel(
    c: BatchConvergenceController,
    n_tuples: u64,
    accumulated_us: u64,
    c2: BatchConvergenceController,
    r: ProgressSignal,
) -> bool {
    &&& (!spec_batch_closes(c, n_tuples, accumulated_us) ==> {
        &&& r is SameBatch
        &&& c2 == (BatchConvergenceController {
            current_n_tuples: spec_saturated_tuples(c.current_n_tuples, n_tuples),
            ..c
        })
    })
    &&& (spec_batch_closes(c, n_tuples, accumulated_us) ==> {
        &&& c2.time_us@ == spec_next_series(c.time_us@, accumulated_us)
        &&& c2.batch_sizes@ == spec_next_series(
            c.batch_sizes@,
            spec_saturated_tuples(c.current_n_tuples, n_tuples),
        )
        &&& c2.current_n_tuples == 0
        &&& c2 == (BatchConvergenceController {
            time_us: c2.time_us,
            batch_sizes: c2.batch_sizes,
            current_n_tuples: 0,
            ..c
        })
        &&& r == (if spec_try_stop(c2.time_us@, c2.batch_sizes@, c.hyp_stdev) {
            ProgressSignal::Stop
        } else {
            ProgressSignal::NewBatch
        })
    })
}

impl BatchConvergenceController {
    pub open spec fn wf(self) -> bool {
        &&& self.time_us@.len() == self.batch_sizes@.len()
        &&& self.time_us@.len() <= MAX_BATCHES
        &&& forall|i: int|
            0 <= i < self.time_us@.len() ==> #[trigger] self.time_us@[i] <= BATCH_TIME_MAX_US
        &&& forall|i: int|
            0 <= i < self.batch_sizes@.len() ==> #[trigger] self.batch_sizes@[i]
                <= BATCH_SIZE_CAP
        &&& self.current_n_tuples <= BATCH_SIZE_CAP
        &&& self.hyp_row_fraction.wf()
        &&& self.hyp_stdev.wf()
        &&& self.hyp_stdev.num <= STDEV_SCALE_MAX
        &&& self.hyp_stdev.den <= STDEV_SCALE_MAX
    }

    /// A fresh controller with the operator's descriptors and hypothesis
    /// parameters, and no completed batches.
    pub fn new(
        plan_type: i32,
        optimizer_startup_cost: u64,
        optimizer_total_cost: u64,
        optimizer_plan_rows: u64,
        optimizer_plan_width: u64,
        hyp_row_fraction: Ratio,
        hyp_time_us: u64,
        hyp_stdev: Ratio,
    ) -> (r: BatchConvergenceController)
        requires
            hyp_row_fraction.wf(),
            hyp_stdev.wf(),
            hyp_stdev.num <= STDEV_SCALE_MAX,
            hyp_stdev.den <= STDEV_SCALE_MAX,
        ensures
            r.wf(),
            r.plan_type == plan_type,
            r.optimizer_startup_cost == optimizer_startup_cost,
            r.optimizer_total_cost == optimizer_total_cost,
            r.optimizer_plan_rows == optimizer_plan_rows,
            r.optimizer_plan_width == optimizer_plan_width,
            r.hyp_row_fraction == hyp_row_fraction,
            r.hyp_time_us == hyp_time_us,
            r.hyp_stdev == hyp_stdev,
            r.time_us@ == Seq::<u64>::empty(),
            r.batch_sizes@ == Seq::<u64>::empty(),
            r.current_n_tuples == 0,
    {
        BatchConvergenceController {
            plan_type,
            optimizer_startup_cost,
            optimizer_total_cost,
            optimizer_plan_rows,
            optimizer_plan_width,
            hyp_row_fraction,
            hyp_time_us,
            hyp_stdev,
            time_us: Vec::new(),
            batch_sizes: Vec::new(),
            current_n_tuples: 0,
        }
    }

    /// The convergence test over the currently held batches (see
    /// `spec_try_stop`).
    pub fn try_stop(&self) -> (r: bool)
        requires
            self.wf(),
        ensures
            r == spec_try_stop(self.time_us@, self.batch_sizes@, self.hyp_stdev),
    {
        let n = self.time_us.len();
        if n < 5 {
            return false;
        }
        let win = n / 5;
        proof {
            vstd::arithmetic::div_mod::lemma_fundamental_div_mod(n as int, 5);
        }
        let lo = n - 2 - win;
        let ghost tv = self.time_us@;
        let ghost sv = self.batch_sizes@;
        let mut wold = OnlineMoments::new();
        let mut i = lo;
        proof {
            assert(wold.obs@ =~= window_obs(tv, sv, lo as int, lo as int));
        }
        while i < n - 1
            invariant
                self.wf(),
                n == self.time_us@.len(),
                tv == self.time_us@,
                sv == self.batch_sizes@,
                5 <= n <= MAX_BATCHES,
                lo == n - 2 - n as int / 5,
                0 <= lo <= i <= n - 1,
                i - lo <= 61,
                n as int / 5 <= 60,
                wold.wf(),
                wold.obs@ == window_obs(tv, sv, lo as int, i as int),
                forall|j: int|
                    0 <= j < wold.obs@.len() ==> {
                        &&& 0 <= (#[trigger] wold.obs@[j]).0 <= BATCH_TIME_MAX_US
                        &&& 0 <= wold.obs@[j].1 <= BATCH_SIZE_CAP
                    },
            decreases n - i,
        {
            let t = self.time_us[i];
            let s = self.batch_sizes[i];
            proof {
                lemma_moment_bounds(
                    wold.obs@,
                    BATCH_TIME_MAX_US as int,
                    BATCH_SIZE_CAP as int,
                );
                assert(wold.weight <= 61 * (BATCH_SIZE_CAP as int)) by (nonlinear_arith)
                    requires
                        wold.weight <= wold.obs@.len() * (BATCH_SIZE_CAP as int),
                        0 <= wold.obs@.len() <= 61,
                ;
                assert(wold.sum <= 61 * (BATCH_SIZE_CAP as int) * (BATCH_TIME_MAX_US as int)
                    && wold.sum_sq <= 61 * (BATCH_SIZE_CAP as int) * (BATCH_TIME_MAX_US as int)
                    * (BATCH_TIME_MAX_US as int)) by (nonlinear_arith)
                    requires
                        wold.sum <= wold.weight * (BATCH_TIME_MAX_US as int),
                        wold.sum_sq <= wold.weight * (BATCH_TIME_MAX_US as int) * (
                        BATCH_TIME_MAX_US as int),
                        0 <= wold.weight <= 61 * (BATCH_SIZE_CAP as int),
                        wold.sum >= 0,
                        wold.sum_sq >= 0,
                ;
                assert((s as int) * (t as int) <= (BATCH_SIZE_CAP as int) * (
                BATCH_TIME_MAX_US as int) && (s as int) * (t as int) * (t as int) <= (
                BATCH_SIZE_CAP as int) * (BATCH_TIME_MAX_US as int) * (BATCH_TIME_MAX_US as int))
                    by (nonlinear_arith)
                    requires
                        0 <= s <= BATCH_SIZE_CAP,
                        0 <= t <= BATCH_TIME_MAX_US,
                ;
            }
            wold.push_weighted(t, s);
            proof {
                assert(wold.obs@ =~= window_obs(tv, sv, lo as int, i + 1));
            }
            i = i + 1;
        }
        proof {
            lemma_moment_bounds(wold.obs@, BATCH_TIME_MAX_US as int, BATCH_SIZE_CAP as int);
            lemma_cauchy_schwarz(wold.obs@);
            assert(wold.weight <= 61 * (BATCH_SIZE_CAP as int)) by (nonlinear_arith)
                requires
                    wold.weight <= wold.obs@.len() * (BATCH_SIZE_CAP as int),
                    0 <= wold.obs@.len() <= 61,
            ;
            assert(wold.sum <= 61 * (BATCH_SIZE_CAP as int) * (BATCH_TIME_MAX_US as int)
                && wold.sum_sq <= 61 * (BATCH_SIZE_CAP as int) * (BATCH_TIME_MAX_US as int) * (
            BATCH_TIME_MAX_US as int)) by (nonlinear_arith)
                requires
                    wold.sum <= wold.weight * (BATCH_TIME_MAX_US as int),
                    wold.sum_sq <= wold.weight * (BATCH_TIME_MAX_US as int) * (
                    BATCH_TIME_MAX_US as int),
                    0 <= wold.weight <= 61 * (BATCH_SIZE_CAP as int),
                    wold.sum >= 0,
                    wold.sum_sq >= 0,
            ;
        }
        if wold.weight < 2 {
            return false;
        }
        let x = self.time_us[n - 1];
        let a = self.hyp_stdev.num;
        let b = self.hyp_stdev.den;
        let ghost wi = wold.weight as int;
        let ghost si = wold.sum as int;
        let ghost qi = wold.sum_sq as int;
        let ghost xi = x as int;
        let ghost wbound: int = 61 * (BATCH_SIZE_CAP as int);
        let ghost sbound: int = wbound * (BATCH_TIME_MAX_US as int);
        let w128: u128 = wold.weight as u128;
        proof {
            assert(wi * xi <= sbound) by (nonlinear_arith)
                requires
                    0 <= wi <= wbound,
                    0 <= xi <= BATCH_TIME_MAX_US,
                    sbound == wbound * (BATCH_TIME_MAX_US as int),
            ;
            assert(sbound * sbound < u128::MAX);
        }
        let wx: u128 = w128 * (x as u128);
        let delta: u128 = if wx >= wold.sum {
            wx - wold.sum
        } else {
            wold.sum - wx
        };
        proof {
            assert(delta * delta <= sbound * sbound) by (nonlinear_arith)
                requires
                    0 <= delta <= sbound,
            ;
            assert(wi * qi <= sbound * sbound) by (nonlinear_arith)
                requires
                    0 <= wi <= wbound,
                    0 <= qi <= wbound * (BATCH_TIME_MAX_US as int) * (BATCH_TIME_MAX_US as int),
                    sbound == wbound * (BATCH_TIME_MAX_US as int),
            ;
            assert(si * si <= wi * qi);
            assert((delta as int) * (delta as int) == (wi * xi - si) * (wi * xi - si))
                by (nonlinear_arith)
                requires
                    (delta == wi * xi - si) || (delta == si - wi * xi),
            ;
        }
        let dd: u128 = delta * delta;
        let wq: u128 = w128 * wold.sum_sq;
        let ss: u128 = wold.sum * wold.sum;
        let cnum: u128 = wq - ss;
        if a == 0 {
            proof {
                assert((delta == 0) <==> ((wi * xi - si) * (wi * xi - si) * (wi - 1) * ((
                b as int) * (b as int)) <= ((a as int) * (a as int)) * wi * (wi * qi - si
                    * si))) by (nonlinear_arith)
                    requires
                        a == 0,
                        dd == (wi * xi - si) * (wi * xi - si),
                        dd == delta * delta,
                        delta >= 0,
                        wi >= 2,
                        b >= 1,
                ;
            }
            return delta == 0;
        }
        proof {
            assert((a as int) * (a as int) * wi >= 1 && (wi - 1) * ((b as int) * (b as int)) >= 1
                && (a as int) * (a as int) <= u128::MAX && (b as int) * (b as int) <= u128::MAX
                && (a as int) * (a as int) * wi <= u128::MAX && (wi - 1) * ((b as int) * (
            b as int)) <= u128::MAX) by (nonlinear_arith)
                requires
                    1 <= a <= STDEV_SCALE_MAX,
                    1 <= b <= STDEV_SCALE_MAX,
                    2 <= wi <= 61 * (BATCH_SIZE_CAP as int),
            ;
        }
        let bnum: u128 = (a as u128) * (a as u128) * w128;
        let dden: u128 = (w128 - 1) * ((b as u128) * (b as u128));
        let r = frac_le(dd, bnum, cnum, dden);
        proof {
            assert(((dd as int) * (dden as int) <= (cnum as int) * (bnum as int)) <==> ((wi * xi
                - si) * (wi * xi - si) * (wi - 1) * ((b as int) * (b as int)) <= ((a as int) * (
            a as int)) * wi * (wi * qi - si * si))) by (nonlinear_arith)
                requires
                    dd == (wi * xi - si) * (wi * xi - si),
                    dden == (wi - 1) * ((b as int) * (b as int)),
                    cnum == wi * qi - si * si,
                    bnum == (a as int) * (a as int) * wi,
            ;
        }
        r
    }

    /// Report a chunk of `n_tuples` tuples with `accumulated_us` elapsed
    /// since the in-progress batch began.  The tuple counter grows
    /// (saturating at `BATCH_SIZE_CAP`); if the batch does not close, the
    /// signal is `SameBatch` and nothing else changes.  On a close, the
    /// (time, size) pair is recorded — a full history drops its oldest
    /// batch — the counter restarts, and the signal is `Stop` exactly when
    /// the convergence test passes on the new series, else `NewBatch`.
    pub fn report_progress(&mut self, n_tuples: u64, accumulated_us: u64) -> (r: ProgressSignal)
        requires
            old(self).wf(),
            accumulated_us <= BATCH_TIME_MAX_US,
        ensures
            final(self).wf(),
            spec_report_rel(*old(self), n_tuples, accumulated_us, *final(self), r),
    {
        let new_cur: u64 = if n_tuples >= BATCH_SIZE_CAP || self.current_n_tuples > BATCH_SIZE_CAP
            - n_tuples {
            BATCH_SIZE_CAP
        } else {
            self.current_n_tuples + n_tuples
        };
        self.current_n_tuples = new_cur;
        proof {
            assert((u64::MAX as int) * (u64::MAX as int) < u128::MAX) by (nonlinear_arith);
            assert((new_cur as int) * (self.hyp_row_fraction.den as int) <= (u64::MAX as int) * (
            u64::MAX as int) && (self.hyp_row_fraction.num as int) * (
            self.optimizer_plan_rows as int) <= (u64::MAX as int) * (u64::MAX as int))
                by (nonlinear_arith)
                requires
                    0 <= new_cur <= u64::MAX,
                    0 <= self.hyp_row_fraction.den <= u64::MAX,
                    0 <= self.hyp_row_fraction.num <= u64::MAX,
                    0 <= self.optimizer_plan_rows <= u64::MAX,
            ;
        }
        let reached_rows = (new_cur as u128) * (self.hyp_row_fraction.den as u128)
            >= (self.hyp_row_fraction.num as u128) * (self.optimizer_plan_rows as u128);
        if !(reached_rows && accumulated_us >= self.hyp_time_us) {
            return ProgressSignal::SameBatch;
        }
        if self.time_us.len() == MAX_BATCHES {
            self.time_us.remove(0);
            self.batch_sizes.remove(0);
            proof {
                assert(self.time_us@ =~= old(self).time_us@.subrange(
                    1,
                    old(self).time_us@.len() as int,
                ));
                assert(self.batch_sizes@ =~= old(self).batch_sizes@.subrange(
                    1,
                    old(self).batch_sizes@.len() as int,
                ));
            }
        }
        self.time_us.push(accumulated_us);
        self.batch_sizes.push(new_cur);
        self.current_n_tuples = 0;
        if self.try_stop() {
            ProgressSignal::Stop
        } else {
            ProgressSignal::NewBatch
        }
    }
}

/// Minimum-sample floor: with fewer than five completed batches the
/// convergence test never signals stop, whatever the batches hold.
pub proof fn lemma_minimum_sample_floor(t: Seq<u64>, s: Seq<u64>, k: Ratio)
    requires
        t.len() < 5,
    ensures
        !spec_try_stop(t, s, k),
{
}

} // verus!
