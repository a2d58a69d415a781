//! Exact comparison of non-negative rationals, and a plain ratio type for
//! fractional tuning parameters.
//!
//! The decision tests of this crate compare a squared deviation against a
//! scaled variance.  Both sides are rationals whose numerators and
//! denominators fit in 128 bits, but whose cross products would not; the
//! comparison therefore walks the continued-fraction expansion of the two
//! fractions — only divisions, never a product — and is exact.

use vstd::prelude::*;

verus! {

/// A non-negative fraction `num / den` used for fractional tuning parameters
/// (the row-count fraction threshold and the standard-deviation multiplier).
#[derive(Clone, Copy, Debug, PartialEq, Eq, Structural)]
pub struct Ratio {
    pub num: u64,
    pub den: u64,
}

impl Ratio {
    /// The denominator is positive.
    pub open spec fn wf(self) -> bool {
        self.den >= 1
    }

    pub fn new(num: u64, den: u64) -> (r: Ratio)
        requires
            den >= 1,
        ensures
            r.wf(),
            r.num == num,
            r.den == den,
    {
        Ratio { num, den }
    }
}

/// Decides `a/b <= c/d` exactly, i.e. whether `a·d <= c·b`, without ever
/// forming a product: the two fractions are compared digit by digit along
/// their continued-fraction expansions, so the result is exact even where
/// `a·d` or `c·b` would overflow every machine integer width.
pub fn frac_le(a: u128, b: u128, c: u128, d: u128) -> (r: bool)
    requires
        b >= 1,
        d >= 1,
    ensures
        r <==> a * d <= c * b,
    decreases b + d,
{
    let qa = a / b;
    let ra = a % b;
    let qc = c / d;
    let rc = c % d;
    proof {
        vstd::arithmetic::div_mod::lemma_fundamental_div_mod(a as int, b as int);
        vstd::arithmetic::div_mod::lemma_fundamental_div_mod(c as int, d as int);
    }
    if qa < qc {
        proof {
            assert(a * d < c * b) by (nonlinear_arith)
                requires
                    a == b * (qa as int) + ra,
                    c == d * (qc as int) + rc,
                    0 <= ra < b,
                    0 <= rc,
                    0 <= qa < qc,
                    b >= 1,
                    d >= 1,
            ;
        }
        true
    } else if qa > qc {
        proof {
            assert(c * b < a * d) by (nonlinear_arith)
                requires
                    a == b * (qa as int) + ra,
                    c == d * (qc as int) + rc,
                    0 <= ra,
                    0 <= rc < d,
                    0 <= qc < qa,
                    b >= 1,
                    d >= 1,
            ;
        }
        false
    } else {
        proof {
            assert((a * d <= c * b) <==> (ra * d <= rc * b)) by (nonlinear_arith)
                requires
                    a == b * (qa as int) + ra,
                    c == d * (qc as int) + rc,
                    qa == qc,
                    0 <= ra,
                    0 <= rc,
                    b >= 1,
                    d >= 1,
            ;
        }
        if ra == 0 {
            proof {
                assert(ra * d == 0 && rc * b >= 0) by (nonlinear_arith)
                    requires
                        ra == 0,
                        rc >= 0,
                        b >= 1,
                ;
            }
            true
        } else if rc == 0 {
            proof {
                assert(ra * d > 0 && rc * b == 0) by (nonlinear_arith)
                    requires
                        ra >= 1,
                        d >= 1,
                        rc == 0,
                ;
            }
            false
        } else {
            // a/b and c/d share an integer part; the tie is decided by the
            // fractional parts ra/b and rc/d, i.e. by d/rc against b/ra.
            let rec = frac_le(d, rc, b, ra);
            proof {
                assert(rec <==> d * ra <= b * rc);
                assert((d * ra <= b * rc) <==> (ra * d <= rc * b)) by (nonlinear_arith);
                assert(rec <==> a * d <= c * b);
            }
            rec
        }
    }
}

} // verus!
