//! The acquisition sources. The signal and position hardware are simulated
//! by uniform random draws, as the embedded target's drivers are; the one
//! trusted item below is the only place the pipeline touches the random
//! number generator.

use vstd::prelude::*;
use crate::config::{PipelineConfig, FIXED_POINT_ONE, RAW_LIMIT};

verus! {

/// Relies on rand's `Rng::gen_range` (rand 0.8): `gen_range(lo..hi)` returns
/// a uniformly distributed value of the half-open range and panics only when
/// the range is empty, which `lo < hi` rules out. Nothing about which value
/// comes back is assumed beyond its bounds.
#[verifier::external_body]
pub(crate) fn sample_uniform(lo: i64, hi: i64) -> (r: i64)
    requires
        lo < hi,
    ensures
        lo <= r < hi,
{
    rand::Rng::gen_range(&mut rand::thread_rng(), lo..hi)
}

/// Pulls one window's worth of raw amplitude samples from the signal
/// source: `window_size` draws from `[0, 10.0)` in fixed point, well inside
/// the representable raw-sample range.
pub fn acquire_window(cfg: &PipelineConfig) -> (r: Vec<i64>)
    requires
        cfg.wf(),
    ensures
        r@.len() == cfg.window_size,
        forall|i: int| 0 <= i < r@.len() ==> 0 <= #[trigger] r@[i] < 10 * FIXED_POINT_ONE,
        forall|i: int| 0 <= i < r@.len() ==> -RAW_LIMIT <= #[trigger] r@[i] <= RAW_LIMIT,
{
    let mut out: Vec<i64> = Vec::new();
    let mut i: usize = 0;
    while i < cfg.window_size
        invariant
            0 <= i <= cfg.window_size,
            out@.len() == i,
            forall|t: int| 0 <= t < out@.len() ==> 0 <= #[trigger] out@[t] < 10 * FIXED_POINT_ONE,
        decreases cfg.window_size - i,
    {
        out.push(sample_uniform(0, 10 * FIXED_POINT_ONE));
        i += 1;
    }
    out
}

} // verus!
