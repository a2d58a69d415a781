//! Streaming estimator of mean and variance over exact integer arithmetic.
//!
//! Observations are microsecond (or tuple-count) magnitudes, absorbed either
//! one at a time or with an integer multiplicity weight.  Instead of the usual
//! floating-point incremental update, the estimator keeps the exact total
//! weight, weighted sum and weighted sum of squares; mean and sample variance
//! are returned as exact rationals (numerator, denominator).  Over the
//! rationals these are precisely the classical statistics, with no rounding.

use crate::CoreError;
use vstd::prelude::*;

verus! {

/// Total weight of a sequence of (value, weight) observations.
pub open spec fn sum_w(s: Seq<(int, int)>) -> int
    decreases s.len(),
{
    if s.len() == 0 {
        0
    } else {
        sum_w(s.drop_last()) + s.last().1
    }
}

/// Weighted sum of the values of a sequence of (value, weight) observations.
pub open spec fn sum_wx(s: Seq<(int, int)>) -> int
    decreases s.len(),
{
    if s.len() == 0 {
        0
    } else {
        sum_wx(s.drop_last()) + s.last().1 * s.last().0
    }
}

/// Weighted sum of the squared values of a sequence of (value, weight)
/// observations.
pub open spec fn sum_wx2(s: Seq<(int, int)>) -> int
    decreases s.len(),
{
    if s.len() == 0 {
        0
    } else {
        sum_wx2(s.drop_last()) + s.last().1 * s.last().0 * s.last().0
    }
}

/// Every observation holds a machine-representable value and a non-negative
/// machine-representable weight.
pub open spec fn obs_ok(s: Seq<(int, int)>) -> bool {
    forall|i: int|
        0 <= i < s.len() ==> {
            &&& 0 <= (#[trigger] s[i]).0 <= u64::MAX
            &&& 0 <= s[i].1 <= u64::MAX
        }
}

/// Streaming mean/variance estimator.  The ghost sequence `obs` records every
/// absorbed (value, weight) pair; the executable fields are exactly its total
/// weight, weighted sum and weighted sum of squares.
pub struct OnlineMoments {
    pub weight: u64,
    pub sum: u128,
    pub sum_sq: u128,
    pub obs: Ghost<Seq<(int, int)>>,
}

impl OnlineMoments {
    /// The executable accumulators agree exactly with the recorded
    /// observation history.
    pub open spec fn wf(self) -> bool {
        &&& obs_ok(self.obs@)
        &&& self.weight == sum_w(self.obs@)
        &&& self.sum == sum_wx(self.obs@)
        &&& self.sum_sq == sum_wx2(self.obs@)
    }

    /// A fresh estimator with no observations.
    pub fn new() -> (r: OnlineMoments)
        ensures
            r.wf(),
            r.obs@ == Seq::<(int, int)>::empty(),
    {
        OnlineMoments { weight: 0, sum: 0, sum_sq: 0, obs: Ghost(Seq::empty()) }
    }

    /// Absorb one observation `x` with integer multiplicity `w`, standing for
    /// `w` repeated identical observations.
    pub fn push_weighted(&mut self, x: u64, w: u64)
        requires
            old(self).wf(),
            old(self).weight + w <= u64::MAX,
            old(self).sum + w * x <= u128::MAX,
            old(self).sum_sq + w * x * x <= u128::MAX,
        ensures
            final(self).wf(),
            final(self).obs@ == old(self).obs@.push((x as int, w as int)),
            final(self).weight == old(self).weight + w,
            final(self).sum == old(self).sum + w * x,
            final(self).sum_sq == old(self).sum_sq + w * x * x,
    {
        proof {
            assert((w as u128) * (x as u128) == (w as int) * (x as int)) by (nonlinear_arith);
            assert((w as int) * (x as int) * (x as int) >= 0) by (nonlinear_arith);
            assert((w as int) * (x as int) >= 0) by (nonlinear_arith);
        }
        let wx: u128 = (w as u128) * (x as u128);
        proof {
            assert(wx * (x as u128) == (w as int) * (x as int) * (x as int)) by (nonlinear_arith)
                requires
                    wx == (w as int) * (x as int),
            ;
        }
        let wx2: u128 = wx * (x as u128);
        self.weight = self.weight + w;
        self.sum = self.sum + wx;
        self.sum_sq = self.sum_sq + wx2;
        proof {
            let s = self.obs@;
            let t = s.push((x as int, w as int));
            assert(t.drop_last() =~= s);
            self.obs@ = t;
        }
    }

    /// Absorb one unweighted observation (multiplicity one).
    pub fn push(&mut self, x: u64)
        requires
            old(self).wf(),
            old(self).weight + 1 <= u64::MAX,
            old(self).sum + x <= u128::MAX,
            old(self).sum_sq + x * x <= u128::MAX,
        ensures
            final(self).wf(),
            final(self).obs@ == old(self).obs@.push((x as int, 1)),
            final(self).weight == old(self).weight + 1,
            final(self).sum == old(self).sum + x,
            final(self).sum_sq == old(self).sum_sq + x * x,
    {
        proof {
            assert(1 * (x as int) == x as int) by (nonlinear_arith);
            assert(1 * (x as int) * (x as int) == (x as int) * (x as int)) by (nonlinear_arith);
        }
        self.push_weighted(x, 1);
    }

    /// The running mean as an exact rational (numerator, denominator): the
    /// weighted sum over the total weight.  Fails when nothing was absorbed.
    pub fn mean(&self) -> (r: Result<(u128, u64), CoreError>)
        requires
            self.wf(),
        ensures
            r is Ok <==> self.weight > 0,
            self.weight > 0 ==> r == Ok::<(u128, u64), CoreError>((self.sum, self.weight)),
            self.weight == 0 ==> r == Err::<(u128, u64), CoreError>(CoreError::InsufficientData),
    {
        if self.weight == 0 {
            Err(CoreError::InsufficientData)
        } else {
            Ok((self.sum, self.weight))
        }
    }

    /// The sample variance as an exact rational (numerator, denominator):
    /// `(W·Q − S²) / (W·(W − 1))` for total weight `W`, weighted sum `S` and
    /// weighted sum of squares `Q`, which over the rationals equals the sum of
    /// squared deviations from the mean divided by `W − 1`.  Fails when the
    /// total weight is below two.
    pub fn variance(&self) -> (r: Result<(u128, u128), CoreError>)
        requires
            self.wf(),
            self.weight * self.sum_sq <= u128::MAX,
        ensures
            r is Ok <==> self.weight >= 2,
            self.weight >= 2 ==> r == Ok::<(u128, u128), CoreError>(
                (
                    (self.weight * self.sum_sq - self.sum * self.sum) as u128,
                    (self.weight * (self.weight - 1)) as u128,
                ),
            ),
            self.weight < 2 ==> r == Err::<(u128, u128), CoreError>(CoreError::InsufficientData),
    {
        if self.weight < 2 {
            Err(CoreError::InsufficientData)
        } else {
            proof {
                lemma_cauchy_schwarz(self.obs@);
                assert((self.weight as int) * ((self.weight - 1) as int) <= u128::MAX) by (nonlinear_arith)
                    requires
                        self.weight <= u64::MAX,
                ;
            }
            let w: u128 = self.weight as u128;
            let num: u128 = w * self.sum_sq - self.sum * self.sum;
            let den: u128 = w * (w - 1);
            Ok((num, den))
        }
    }
}

/// `w` copies of the unit-weight observation `(x, 1)`.
pub open spec fn unit_repeat(x: int, w: nat) -> Seq<(int, int)> {
    Seq::new(w, |i: int| (x, 1))
}

/// Every observation carries weight one.
pub open spec fn all_unit_weights(s: Seq<(int, int)>) -> bool {
    forall|i: int| 0 <= i < s.len() ==> (#[trigger] s[i]).1 == 1
}

/// The plain sum of the observed values, ignoring weights.
pub open spec fn sum_vals(s: Seq<(int, int)>) -> int
    decreases s.len(),
{
    if s.len() == 0 {
        0
    } else {
        sum_vals(s.drop_last()) + s.last().0
    }
}

/// The sum of the squared deviations of the values scaled by `n` from `t`:
/// `Σ (n·xᵢ − t)²`.  At `n = len` and `t = Σ xᵢ` this is `n²` times the sum
/// of squared deviations from the arithmetic mean.
pub open spec fn sum_sq_dev(s: Seq<(int, int)>, n: int, t: int) -> int
    decreases s.len(),
{
    if s.len() == 0 {
        0
    } else {
        sum_sq_dev(s.drop_last(), n, t) + (n * s.last().0 - t) * (n * s.last().0 - t)
    }
}

/// One weighted absorption equals `w` repeated unweighted absorptions of the
/// same value: both extensions of a history produce identical moments (total
/// weight, weighted sum, weighted sum of squares), hence identical exact
/// mean and variance.
pub proof fn lemma_push_weighted_equals_pushes(s: Seq<(int, int)>, x: int, w: nat)
    ensures
        sum_w(s + unit_repeat(x, w)) == sum_w(s.push((x, w as int))),
        sum_wx(s + unit_repeat(x, w)) == sum_wx(s.push((x, w as int))),
        sum_wx2(s + unit_repeat(x, w)) == sum_wx2(s.push((x, w as int))),
{
    assert(s.push((x, w as int)).drop_last() =~= s);
    lemma_unit_repeat_sums(s, x, w);
    assert((w as int) * x * x == (w as int) * (x * x)) by (nonlinear_arith);
}

/// Appending `w` unit copies of `x` adds `w` to the total weight, `w·x` to
/// the weighted sum and `w·x²` to the weighted sum of squares.
proof fn lemma_unit_repeat_sums(s: Seq<(int, int)>, x: int, w: nat)
    ensures
        sum_w(s + unit_repeat(x, w)) == sum_w(s) + w,
        sum_wx(s + unit_repeat(x, w)) == sum_wx(s) + w * x,
        sum_wx2(s + unit_repeat(x, w)) == sum_wx2(s) + w * (x * x),
    decreases w,
{
    if w == 0 {
        assert(s + unit_repeat(x, 0) =~= s);
    } else {
        lemma_unit_repeat_sums(s, x, (w - 1) as nat);
        assert(s + unit_repeat(x, w) =~= (s + unit_repeat(x, (w - 1) as nat)).push((x, 1)));
        assert(((w - 1) as int) * x + x == (w as int) * x) by (nonlinear_arith);
        assert(((w - 1) as int) * (x * x) + x * x == (w as int) * (x * x)) by (nonlinear_arith);
        assert((s + unit_repeat(x, w)).drop_last() =~= s + unit_repeat(x, (w - 1) as nat));
    }
}

/// For unit-weight histories the exact statistics are the classical ones:
/// the total weight is the number of observations, the mean numerator is the
/// plain sum of the values (so the mean `S/n` is the arithmetic mean), and
/// `n·(n·Q − S²)` equals `Σ (n·xᵢ − S)²`, i.e. the variance
/// `(n·Q − S²)/(n·(n−1))` is exactly the sample variance
/// `Σ (xᵢ − S/n)² / (n−1)` over the rationals.
pub proof fn lemma_unweighted_statistics(s: Seq<(int, int)>)
    requires
        all_unit_weights(s),
    ensures
        sum_w(s) == s.len(),
        sum_wx(s) == sum_vals(s),
        s.len() * (s.len() * sum_wx2(s) - sum_wx(s) * sum_wx(s)) == sum_sq_dev(
            s,
            s.len() as int,
            sum_wx(s),
        ),
{
    lemma_unit_counts(s);
    lemma_ssd_expansion(s, s.len() as int, sum_wx(s));
    let n = s.len() as int;
    let q = sum_wx2(s);
    let sv = sum_wx(s);
    assert(n * n * q - 2 * n * sv * sv + n * (sv * sv) == n * (n * q - sv * sv))
        by (nonlinear_arith);
}

/// For unit weights, the total weight counts the observations and the
/// weighted sums reduce to plain sums.
proof fn lemma_unit_counts(s: Seq<(int, int)>)
    requires
        all_unit_weights(s),
    ensures
        sum_w(s) == s.len(),
        sum_wx(s) == sum_vals(s),
        sum_wx2(s) == sum_sq_vals(s),
    decreases s.len(),
{
    if s.len() > 0 {
        lemma_unit_counts(s.drop_last());
        assert(1 * s.last().0 == s.last().0) by (nonlinear_arith);
        assert(1 * s.last().0 * s.last().0 == s.last().0 * s.last().0) by (nonlinear_arith);
    }
}

/// The plain sum of the squared values, ignoring weights.
pub open spec fn sum_sq_vals(s: Seq<(int, int)>) -> int
    decreases s.len(),
{
    if s.len() == 0 {
        0
    } else {
        sum_sq_vals(s.drop_last()) + s.last().0 * s.last().0
    }
}

/// Binomial expansion of the scaled squared deviations, for unit weights:
/// `Σ (n·xᵢ − t)² == n²·Q − 2·n·t·S + len·t²`.
proof fn lemma_ssd_expansion(s: Seq<(int, int)>, n: int, t: int)
    requires
        all_unit_weights(s),
    ensures
        sum_sq_dev(s, n, t) == n * n * sum_wx2(s) - 2 * n * t * sum_wx(s) + s.len() * (t * t),
    decreases s.len(),
{
    if s.len() > 0 {
        lemma_ssd_expansion(s.drop_last(), n, t);
        let x = s.last().0;
        let d = s.drop_last();
        assert((n * x - t) * (n * x - t) == n * n * (1 * x * x) - 2 * n * t * (1 * x) + t * t)
            by (nonlinear_arith);
        assert(n * n * (sum_wx2(d) + 1 * x * x) == n * n * sum_wx2(d) + n * n * (1 * x * x))
            by (nonlinear_arith);
        assert(2 * n * t * (sum_wx(d) + 1 * x) == 2 * n * t * sum_wx(d) + 2 * n * t * (1 * x))
            by (nonlinear_arith);
        assert((d.len() + 1) * (t * t) == d.len() * (t * t) + t * t) by (nonlinear_arith);
    }
}

/// For non-negative weights, the quadratic `W·t² − 2·S·t + Q` built from the
/// accumulated moments is non-negative at every integer `t`: it equals the
/// weighted sum of the squared distances `(t − xᵢ)²`.
pub proof fn lemma_quadratic_nonneg(s: Seq<(int, int)>, t: int)
    requires
        forall|i: int| 0 <= i < s.len() ==> (#[trigger] s[i]).1 >= 0,
    ensures
        sum_w(s) * t * t - 2 * sum_wx(s) * t + sum_wx2(s) >= 0,
    decreases s.len(),
{
    if s.len() == 0 {
    } else {
        let d = s.drop_last();
        let x = s.last().0;
        let w = s.last().1;
        lemma_quadratic_nonneg(d, t);
        assert((sum_w(d) + w) * t * t - 2 * (sum_wx(d) + w * x) * t + (sum_wx2(d) + w * x * x)
            >= 0) by (nonlinear_arith)
            requires
                sum_w(d) * t * t - 2 * sum_wx(d) * t + sum_wx2(d) >= 0,
                w >= 0,
        ;
    }
}

/// Cauchy–Schwarz for the accumulated moments: `S² ≤ W·Q`, so the variance
/// numerator `W·Q − S²` never goes negative — the exact-arithmetic analogue
/// of clamping a slightly negative squared deviation to zero.
#[verifier::rlimit(50)]
pub proof fn lemma_cauchy_schwarz(s: Seq<(int, int)>)
    requires
        forall|i: int| 0 <= i < s.len() ==> (#[trigger] s[i]).1 >= 0,
    ensures
        sum_wx(s) * sum_wx(s) <= sum_w(s) * sum_wx2(s),
    decreases s.len(),
{
    if s.len() == 0 {
    } else {
        let d = s.drop_last();
        let x = s.last().0;
        let w = s.last().1;
        lemma_cauchy_schwarz(d);
        lemma_quadratic_nonneg(d, x);
        let wd = sum_w(d);
        let sd = sum_wx(d);
        let qd = sum_wx2(d);
        assert(w * (wd * x * x - 2 * sd * x + qd) >= 0) by (nonlinear_arith)
            requires
                wd * x * x - 2 * sd * x + qd >= 0,
                w >= 0,
        ;
        assert((sd + w * x) * (sd + w * x) == sd * sd + 2 * sd * (w * x) + (w * x) * (w * x))
            by (nonlinear_arith);
        assert((wd + w) * (qd + w * x * x) == wd * qd + wd * (w * x * x) + w * qd + w * (w * x
            * x)) by (nonlinear_arith);
        assert((w * x) * (w * x) == w * (w * x * x)) by (nonlinear_arith);
        assert(w * (wd * x * x - 2 * sd * x + qd) == wd * (w * x * x) - 2 * sd * (w * x) + w
            * qd) by (nonlinear_arith);
    }
}

/// Bounds the accumulators from bounds on the observations: with every value
/// in `[0, v]` and every weight in `[0, wm]`, the total weight is at most
/// `len·wm`, the weighted sum at most `W·v` and the weighted sum of squares
/// at most `W·v²`.
pub proof fn lemma_moment_bounds(s: Seq<(int, int)>, v: int, wm: int)
    requires
        v >= 0,
        wm >= 0,
        forall|i: int|
            0 <= i < s.len() ==> {
                &&& 0 <= (#[trigger] s[i]).0 <= v
                &&& 0 <= s[i].1 <= wm
            },
    ensures
        0 <= sum_w(s) <= s.len() * wm,
        0 <= sum_wx(s) <= sum_w(s) * v,
        0 <= sum_wx2(s) <= sum_w(s) * v * v,
    decreases s.len(),
{
    if s.len() == 0 {
    } else {
        let d = s.drop_last();
        let x = s.last().0;
        let w = s.last().1;
        lemma_moment_bounds(d, v, wm);
        assert(sum_w(d) + w <= (d.len() + 1) * wm) by (nonlinear_arith)
            requires
                sum_w(d) <= d.len() * wm,
                w <= wm,
                d.len() >= 0,
        ;
        assert(0 <= sum_wx(d) + w * x <= (sum_w(d) + w) * v) by (nonlinear_arith)
            requires
                0 <= sum_wx(d) <= sum_w(d) * v,
                0 <= w,
                0 <= x <= v,
        ;
        assert(0 <= sum_wx2(d) + w * x * x <= (sum_w(d) + w) * v * v) by (nonlinear_arith)
            requires
                0 <= sum_wx2(d) <= sum_w(d) * v * v,
                0 <= w,
                0 <= x <= v,
                0 <= sum_w(d),
        ;
    }
}

} // verus!
