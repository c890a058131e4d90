//! RMS energy detector: the root of the mean of the squared samples of a
//! window, in the window's own fixed-point units. The detector emits the
//! scalar only; the controller compares it to the threshold.

use vstd::prelude::*;
use vstd::arithmetic::div_mod::{lemma_div_multiples_vanish, lemma_div_pos_is_pos};
use crate::arith::{mag, amps_in_range};
use crate::config::{PipelineConfig, PipelineError, AMP_LIMIT};

verus! {

/// Sum of the squared samples of a window.
pub open spec fn sum_sq(s: Seq<i64>) -> int
    decreases s.len(),
{
    if s.len() == 0 {
        0
    } else {
        sum_sq(s.drop_last()) + s.last() * s.last()
    }
}

/// `r` is the integer square root of `m`.
pub open spec fn is_isqrt(m: int, r: int) -> bool {
    &&& 0 <= r
    &&& r * r <= m
    &&& m < (r + 1) * (r + 1)
}

/// The integer square root (of a non-negative argument).
pub open spec fn isqrt(m: int) -> int {
    choose|r: int| is_isqrt(m, r)
}

/// The RMS of a non-empty window: the integer square root of the mean of
/// the squared samples.
pub open spec fn rms_spec(s: Seq<i64>) -> int {
    isqrt(sum_sq(s) / s.len() as int)
}

/// An integer square root is unique.
pub proof fn lemma_isqrt_unique(m: int, r1: int, r2: int)
    requires
        is_isqrt(m, r1),
        is_isqrt(m, r2),
    ensures
        r1 == r2,
{
    if r1 < r2 {
        assert((r1 + 1) * (r1 + 1) <= r2 * r2) by (nonlinear_arith)
            requires 0 <= r1, r1 + 1 <= r2;
    }
    if r2 < r1 {
        assert((r2 + 1) * (r2 + 1) <= r1 * r1) by (nonlinear_arith)
            requires 0 <= r2, r2 + 1 <= r1;
    }
}

/// A witness pins down `isqrt`.
pub proof fn lemma_isqrt_is(m: int, r: int)
    requires
        is_isqrt(m, r),
    ensures
        isqrt(m) == r,
{
    assert(is_isqrt(m, isqrt(m))) by {
        assert(exists|x: int| is_isqrt(m, x)) by {
            assert(is_isqrt(m, r));
        }
    }
    lemma_isqrt_unique(m, isqrt(m), r);
}

/// Sum of squares over bounded samples is bounded by the window's length.
proof fn lemma_sum_sq_bound(s: Seq<i64>)
    requires
        amps_in_range(s),
    ensures
        0 <= sum_sq(s) <= s.len() * (AMP_LIMIT as int) * (AMP_LIMIT as int),
    decreases s.len(),
{
    let a = AMP_LIMIT as int;
    if s.len() == 0 {
    } else {
        assert(amps_in_range(s.drop_last())) by {
            assert(forall|i: int|
                0 <= i < s.len() - 1 ==> #[trigger] s.drop_last()[i] == s[i]);
        }
        lemma_sum_sq_bound(s.drop_last());
        let x = s.last() as int;
        assert(mag(x) <= a);
        assert(0 <= x * x <= a * a) by (nonlinear_arith)
            requires -a <= x <= a, 0 <= a;
        assert(s.len() * a * a == (s.len() - 1) * a * a + a * a) by (nonlinear_arith)
            requires s.len() >= 1;
    }
}

/// Integer square root by bisection: returns the unique `r` with
/// `r * r <= m < (r + 1) * (r + 1)`.
pub fn isqrt_u128(m: u128) -> (r: u64)
    ensures
        is_isqrt(m as int, r as int),
        r as int == isqrt(m as int),
{
    let mut lo: u128 = 0;
    let mut hi: u128 = 0x1_0000_0000_0000_0000;
    proof {
        assert((0x1_0000_0000_0000_0000 as int) * (0x1_0000_0000_0000_0000 as int) > m);
    }
    while lo + 1 < hi
        invariant
            0 <= lo < hi <= 0x1_0000_0000_0000_0000,
            lo as int * lo as int <= m as int,
            (m as int) < hi as int * hi as int,
        decreases hi - lo,
    {
        let mid: u128 = lo + (hi - lo) / 2;
        proof {
            assert(lo < mid < hi);
            assert((mid as int) * (mid as int) < (0x1_0000_0000_0000_0000
                * 0x1_0000_0000_0000_0000)) by (nonlinear_arith)
                requires 0 <= mid < 0x1_0000_0000_0000_0000;
        }
        if mid * mid <= m {
            lo = mid;
        } else {
            hi = mid;
        }
    }
    proof {
        assert(hi == lo + 1);
        assert(is_isqrt(m as int, lo as int));
        lemma_isqrt_is(m as int, lo as int);
    }
    lo as u64
}

/// Computes the RMS energy of a window: `sqrt(sum(a*a) / len)`, in fixed
/// point, rounded down to the integer square root. Succeeds exactly when
/// the window has the configured length; any mismatch is rejected as
/// `InsufficientSamples` and never yields a sentinel energy value.
pub fn amplitude_rms(w: &Vec<i64>, cfg: &PipelineConfig) -> (r: Result<u64, PipelineError>)
    requires
        cfg.wf(),
        amps_in_range(w@),
    ensures
        r is Ok <==> w@.len() == cfg.window_size,
        r matches Ok(v) ==> {
            &&& v as int == rms_spec(w@)
            &&& is_isqrt(sum_sq(w@) / w@.len() as int, v as int)
        },
        r matches Err(e) ==> e == PipelineError::InsufficientSamples,
{
    if w.len() != cfg.window_size {
        return Err(PipelineError::InsufficientSamples);
    }
    let n: usize = w.len();
    let mut acc: u128 = 0;
    let mut i: usize = 0;
    while i < n
        invariant
            0 <= i <= n,
            n == w@.len(),
            amps_in_range(w@),
            acc as int == sum_sq(w@.take(i as int)),
            acc as int <= (i as int) * (AMP_LIMIT as int) * (AMP_LIMIT as int),
        decreases n - i,
    {
        proof {
            assert(w@.take(i + 1).drop_last() =~= w@.take(i as int));
            assert(w@.take(i + 1).last() == w@[i as int]);
            assert(amps_in_range(w@.take(i + 1))) by {
                assert(forall|t: int|
                    0 <= t < i + 1 ==> #[trigger] w@.take(i + 1)[t] == w@[t]);
            }
            lemma_sum_sq_bound(w@.take(i + 1));
            assert((i + 1) * (AMP_LIMIT as int) * (AMP_LIMIT as int) <= (0x10000000000000000
                * (AMP_LIMIT as int) * (AMP_LIMIT as int))) by (nonlinear_arith)
                requires 0 <= i < 0x10000000000000000;
            assert(mag(w@[i as int] as int) <= AMP_LIMIT);
        }
        let x: i64 = w[i];
        let ax: u64 = if x >= 0 {
            x as u64
        } else {
            (-x) as u64
        };
        proof {
            assert((ax as int) * (ax as int) <= ((AMP_LIMIT as int)
                * (AMP_LIMIT as int))) by (nonlinear_arith)
                requires 0 <= ax <= AMP_LIMIT;
        }
        let sq: u128 = (ax as u128) * (ax as u128);
        proof {
            if x >= 0 {
                vstd::arithmetic::mul::lemma_mul_nonnegative(x as int, x as int);
            } else {
                vstd::arithmetic::mul::lemma_mul_cancels_negatives(x as int, x as int);
            }
        }
        acc = acc + sq;
        i += 1;
    }
    proof {
        assert(w@.take(n as int) =~= w@);
    }
    let mean: u128 = acc / (n as u128);
    proof {
        lemma_div_pos_is_pos(acc as int, n as int);
    }
    let root: u64 = isqrt_u128(mean);
    Ok(root)
}

/// RMS correctness: for a window whose samples all have the same square —
/// a constant window of value `c`, or one alternating between `c` and `-c`
/// in any pattern — the RMS is exactly the magnitude of `c`.
pub proof fn lemma_rms_uniform_magnitude(s: Seq<i64>, c: int)
    requires
        s.len() > 0,
        0 <= c,
        forall|i: int| 0 <= i < s.len() ==> #[trigger] s[i] as int == c || s[i] as int == -c,
    ensures
        rms_spec(s) == c,
{
    assert(sum_sq(s) == s.len() * (c * c)) by {
        lemma_sum_sq_uniform(s, c);
    }
    lemma_div_multiples_vanish(c * c, s.len() as int);
    assert(sum_sq(s) / s.len() as int == c * c);
    assert(is_isqrt(c * c, c)) by {
        assert(c * c < (c + 1) * (c + 1)) by (nonlinear_arith)
            requires 0 <= c;
    }
    lemma_isqrt_is(c * c, c);
}

/// Every sample of `s` squares to `c * c`, so the squares sum to `len * c * c`.
proof fn lemma_sum_sq_uniform(s: Seq<i64>, c: int)
    requires
        forall|i: int| 0 <= i < s.len() ==> #[trigger] s[i] as int == c || s[i] as int == -c,
    ensures
        sum_sq(s) == s.len() * (c * c),
    decreases s.len(),
{
    if s.len() == 0 {
    } else {
        assert(forall|i: int|
            0 <= i < s.len() - 1 ==> #[trigger] s.drop_last()[i] == s[i]);
        lemma_sum_sq_uniform(s.drop_last(), c);
        assert(s.last() as int * s.last() as int == c * c) by {
            vstd::arithmetic::mul::lemma_mul_cancels_negatives(c, c);
        }
        assert(s.len() * (c * c) == (s.len() - 1) * (c * c) + c * c) by (nonlinear_arith)
            requires s.len() >= 1;
    }
}

} // verus!
