//! Position fixes: a timestamp and three spatial coordinates, in fixed
//! point, produced on demand by the position source and consumed by the
//! persistence encoder.

use vstd::prelude::*;
use crate::config::{FIXED_POINT_ONE, FIX_LIMIT, PipelineConfig};
use crate::source::sample_uniform;
use vstd::arithmetic::div_mod::lemma_fundamental_div_mod;
use vstd::arithmetic::mul::lemma_mul_inequality;

verus! {

/// One position fix, all fields fixed-point (`FIXED_POINT_ONE` is `1.0`):
/// seconds, metres and micro-degree-scaled coordinates all fit well inside
/// the representable field range.
#[derive(Clone, Copy, Debug, PartialEq, Eq, Structural)]
pub struct PositionFix {
    /// Seconds since the epoch of the position source, fixed point.
    pub time: i64,
    /// Longitude, fixed point.
    pub longitude: i64,
    /// Latitude, fixed point.
    pub latitude: i64,
    /// Altitude, fixed point.
    pub altitude: i64,
}

impl PositionFix {
    /// Every field lies in the encodable fixed-point range.
    pub open spec fn wf(self) -> bool {
        &&& -FIX_LIMIT <= self.time <= FIX_LIMIT
        &&& -FIX_LIMIT <= self.longitude <= FIX_LIMIT
        &&& -FIX_LIMIT <= self.latitude <= FIX_LIMIT
        &&& -FIX_LIMIT <= self.altitude <= FIX_LIMIT
    }
}

impl Default for PositionFix {
    /// The sentinel fix: every field `-1.0` in fixed point, meant to be
    /// overwritten by real data before use.
    fn default() -> (r: PositionFix)
        ensures
            r.time == -FIXED_POINT_ONE,
            r.longitude == -FIXED_POINT_ONE,
            r.latitude == -FIXED_POINT_ONE,
            r.altitude == -FIXED_POINT_ONE,
            r.wf(),
    {
        PositionFix {
            time: -FIXED_POINT_ONE,
            longitude: -FIXED_POINT_ONE,
            latitude: -FIXED_POINT_ONE,
            altitude: -FIXED_POINT_ONE,
        }
    }
}

/// Pulls one fix from the position source. Every field is a fresh draw in
/// its own plausible range; nothing more is promised of the values, but the
/// fix is always well formed.
pub fn next_fix() -> (r: PositionFix)
    ensures
        r.wf(),
{
    PositionFix {
        time: sample_uniform(0, 1_000_000_000_000),
        longitude: sample_uniform(-180_000_000, 180_000_001),
        latitude: sample_uniform(-90_000_000, 90_000_001),
        altitude: sample_uniform(-1_000_000, 10_000_001),
    }
}

/// Runs one bounded acquisition burst: fixes are pulled one per pacing
/// interval until the burst duration has elapsed on the burst's own clock,
/// so a burst of duration `d` paced every `p` milliseconds collects exactly
/// `d / p + 1` fixes, in acquisition order.
pub fn collect_burst(cfg: &PipelineConfig) -> (r: Vec<PositionFix>)
    requires
        cfg.wf(),
    ensures
        r@.len() == cfg.burst_duration_ms as int / cfg.burst_pacing_ms as int + 1,
        forall|i: int| 0 <= i < r@.len() ==> #[trigger] r@[i].wf(),
{
    let d: u64 = cfg.burst_duration_ms;
    let p: u64 = cfg.burst_pacing_ms;
    let mut fixes: Vec<PositionFix> = Vec::new();
    let mut elapsed: u64 = 0;
    proof {
        assert(fixes@.len() * (p as int) == 0) by (nonlinear_arith)
            requires fixes@.len() == 0;
    }
    loop
        invariant_except_break
            elapsed <= d,
        invariant
            1 <= p <= 1_000_000_000,
            d <= 1_000_000_000,
            elapsed as int == fixes@.len() * (p as int),
            fixes@.len() >= 1 ==> (fixes@.len() - 1) * (p as int) <= d,
            forall|i: int| 0 <= i < fixes@.len() ==> #[trigger] fixes@[i].wf(),
        ensures
            elapsed > d,
            elapsed as int == fixes@.len() * (p as int),
            (fixes@.len() - 1) * (p as int) <= d,
            forall|i: int| 0 <= i < fixes@.len() ==> #[trigger] fixes@[i].wf(),
        decreases d + p - elapsed,
    {
        let f = next_fix();
        fixes.push(f);
        proof {
            assert((fixes@.len()) * (p as int) == (fixes@.len() - 1) * (p as int) + p) by
                (nonlinear_arith)
                requires fixes@.len() >= 1;
        }
        elapsed = elapsed + p;
        if elapsed > d {
            break;
        }
    }
    proof {
        let n = fixes@.len() as int;
        let pp = p as int;
        let dd = d as int;
        lemma_fundamental_div_mod(dd, pp);
        let q = dd / pp;
        assert(0 <= dd % pp < pp);
        assert(pp * q == q * pp) by {
            vstd::arithmetic::mul::lemma_mul_is_commutative(pp, q);
        }
        if n - 1 > q {
            lemma_mul_inequality(q + 1, n - 1, pp);
            assert((q + 1) * pp == q * pp + pp) by (nonlinear_arith);
        }
        if n - 1 < q {
            lemma_mul_inequality(n, q, pp);
        }
        assert(n - 1 == q);
    }
    fixes
}

} // verus!
