//! Edge-weighted moving-average filter.
//!
//! Each output sample is a `K`-tap centered moving average of the input.
//! At the edges, where part of the symmetric kernel runs off the window,
//! the missing taps are replaced by extra copies of the center sample, so
//! the output stays a true `K`-weighted combination instead of an average
//! over a shrunken denominator.

use vstd::prelude::*;
use vstd::arithmetic::div_mod::{lemma_fundamental_div_mod, lemma_div_multiples_vanish};
use vstd::arithmetic::mul::{
    lemma_mul_is_distributive_sub, lemma_mul_is_commutative, lemma_mul_inequality,
    lemma_mul_unary_negation, lemma_mul_is_distributive_add_other_way,
};
use crate::arith::{
    mag, div_trunc, div_trunc_i64, amps_in_range, lemma_div_trunc_mag_ordered,
};
use crate::config::{PipelineConfig, AMP_LIMIT, MAX_WINDOW};

verus! {

/// Sum of the samples at indices `lo .. hi` (exclusive upper end).
pub open spec fn sum_range(s: Seq<i64>, lo: int, hi: int) -> int
    decreases hi - lo,
{
    if lo >= hi {
        0
    } else {
        s[lo] + sum_range(s, lo + 1, hi)
    }
}

/// Lowest in-bounds kernel tap around index `i`.
pub open spec fn tap_lo(i: int, k: int) -> int {
    if i >= k / 2 {
        i - k / 2
    } else {
        0
    }
}

/// Highest in-bounds kernel tap around index `i` in a window of length `n`.
pub open spec fn tap_hi(i: int, k: int, n: int) -> int {
    if i + k / 2 < n {
        i + k / 2
    } else {
        n - 1
    }
}

/// Number of in-bounds neighbor taps around index `i` (the center sample
/// itself is not counted).
pub open spec fn present(i: int, k: int, n: int) -> int {
    tap_hi(i, k, n) - tap_lo(i, k)
}

/// Sum of the in-bounds neighbor taps around `i`, the center excluded.
pub open spec fn partial_sum(s: Seq<i64>, i: int, k: int) -> int {
    sum_range(s, tap_lo(i, k), tap_hi(i, k, s.len() as int) + 1) - s[i]
}

/// The `K`-weighted combination at index `i`: the present neighbors, plus
/// the center sample weighted by the kernel taps that are missing.
pub open spec fn weighted_sum(s: Seq<i64>, i: int, k: int) -> int {
    partial_sum(s, i, k) + s[i] * (k - present(i, k, s.len() as int))
}

/// One filtered sample: the weighted combination divided (truncating) by `K`.
pub open spec fn filtered_at(s: Seq<i64>, i: int, k: int) -> int {
    div_trunc(weighted_sum(s, i, k), k)
}

/// The whole filtered window.
pub open spec fn filter_spec(s: Seq<i64>, k: int) -> Seq<i64> {
    Seq::new(s.len(), |i: int| filtered_at(s, i, k) as i64)
}

/// Extending a range sum by one element on the right.
pub proof fn lemma_sum_range_extend(s: Seq<i64>, lo: int, j: int)
    requires
        lo <= j,
    ensures
        sum_range(s, lo, j + 1) == sum_range(s, lo, j) + s[j],
    decreases j - lo,
{
    if lo < j {
        lemma_sum_range_extend(s, lo + 1, j);
        assert(sum_range(s, lo, j + 1) == s[lo] + sum_range(s, lo + 1, j + 1));
        assert(sum_range(s, lo, j) == s[lo] + sum_range(s, lo + 1, j));
    } else {
        assert(sum_range(s, lo, j + 1) == s[lo] + sum_range(s, lo + 1, j + 1));
        assert(sum_range(s, lo + 1, j + 1) == 0);
        assert(sum_range(s, lo, j) == 0);
    }
}

/// A range sum of bounded samples is bounded by the range's width.
pub proof fn lemma_sum_range_mag(s: Seq<i64>, lo: int, hi: int)
    requires
        0 <= lo,
        hi <= s.len(),
        amps_in_range(s),
    ensures
        mag(sum_range(s, lo, hi)) <= (if hi >= lo { hi - lo } else { 0 }) * AMP_LIMIT,
    decreases hi - lo,
{
    if lo < hi {
        lemma_sum_range_mag(s, lo + 1, hi);
        assert((hi - lo) * AMP_LIMIT == (hi - lo - 1) * AMP_LIMIT + AMP_LIMIT) by {
            lemma_mul_is_distributive_sub(AMP_LIMIT as int, hi - lo, 1);
            lemma_mul_is_commutative(AMP_LIMIT as int, hi - lo);
            lemma_mul_is_commutative(AMP_LIMIT as int, hi - lo - 1);
        }
    }
}

/// The weighted combination of bounded samples carries total weight `K`,
/// so its magnitude is at most `K * AMP_LIMIT`.
pub proof fn lemma_weighted_sum_mag(s: Seq<i64>, i: int, k: int)
    requires
        0 <= i < s.len(),
        k % 2 == 1,
        1 <= k <= s.len(),
        amps_in_range(s),
    ensures
        mag(weighted_sum(s, i, k)) <= k * AMP_LIMIT,
{
    let n = s.len() as int;
    let lo = tap_lo(i, k);
    let hi = tap_hi(i, k, n);
    assert(0 <= lo <= i <= hi < n);
    lemma_sum_range_mag(s, lo, hi + 1);
    let w = k - present(i, k, n);
    assert(1 <= w <= k);
    assert(weighted_sum(s, i, k) == sum_range(s, lo, hi + 1) + s[i] * (w - 1)) by {
        lemma_mul_is_distributive_sub(s[i] as int, w, 1);
    }
    assert(mag(s[i] as int * (w - 1)) <= (w - 1) * AMP_LIMIT) by {
        lemma_mul_inequality(s[i] as int, AMP_LIMIT as int, w - 1);
        lemma_mul_inequality(-(s[i] as int), AMP_LIMIT as int, w - 1);
        lemma_mul_unary_negation(s[i] as int, w - 1);
        lemma_mul_is_commutative(s[i] as int, w - 1);
        lemma_mul_is_commutative(AMP_LIMIT as int, w - 1);
    }
    assert((hi + 1 - lo) * AMP_LIMIT + (w - 1) * AMP_LIMIT == k * AMP_LIMIT) by {
        lemma_mul_is_distributive_add_other_way(AMP_LIMIT as int, hi + 1 - lo, w - 1);
    }
}

/// Applies the edge-weighted `K`-tap moving average. The kernel geometry
/// comes from the validated configuration, so no per-call failure exists:
/// every output sample equals `filtered_at` of the input, and stays within
/// the pipeline's amplitude range.
pub fn filter_window(w: &Vec<i64>, cfg: &PipelineConfig) -> (r: Vec<i64>)
    requires
        cfg.wf(),
        w@.len() == cfg.window_size,
        amps_in_range(w@),
    ensures
        r@.len() == w@.len(),
        r@ == filter_spec(w@, cfg.kernel_size as int),
        forall|i: int|
            0 <= i < r@.len() ==> #[trigger] r@[i] as int == filtered_at(
                w@, i, cfg.kernel_size as int),
        amps_in_range(r@),
{
    let n: usize = w.len();
    let k: usize = cfg.kernel_size;
    let half: usize = k / 2;
    let ghost ki = k as int;
    let mut out: Vec<i64> = Vec::new();
    let mut i: usize = 0;
    while i < n
        invariant
            0 <= i <= n,
            n == w@.len() == cfg.window_size,
            k == cfg.kernel_size,
            half == ki / 2,
            ki == k as int,
            cfg.wf(),
            amps_in_range(w@),
            out@.len() == i,
            forall|t: int|
                0 <= t < i ==> {
                    &&& #[trigger] out@[t] as int == filtered_at(w@, t, ki)
                    &&& mag(out@[t] as int) <= AMP_LIMIT
                },
        decreases n - i,
    {
        let lo: usize = if i >= half {
            i - half
        } else {
            0
        };
        let hi: usize = if i + half < n {
            i + half
        } else {
            n - 1
        };
        proof {
            assert(lo == tap_lo(i as int, ki));
            assert(hi == tap_hi(i as int, ki, n as int));
            assert(lo <= i <= hi < n);
        }
        let mut sum: i64 = 0;
        let mut j: usize = lo;
        while j <= hi
            invariant
                lo <= j <= hi + 1,
                hi < n == w@.len(),
                n <= MAX_WINDOW,
                amps_in_range(w@),
                sum as int == sum_range(w@, lo as int, j as int),
                mag(sum as int) <= (j - lo) * (AMP_LIMIT as int),
            decreases hi + 1 - j,
        {
            proof {
                lemma_sum_range_extend(w@, lo as int, j as int);
                assert(mag(w@[j as int] as int) <= AMP_LIMIT);
                assert((j + 1 - lo) * (AMP_LIMIT as int) == (j - lo) * (AMP_LIMIT as int)
                    + AMP_LIMIT) by {
                    lemma_mul_is_distributive_add_other_way(AMP_LIMIT as int, j - lo, 1);
                    lemma_mul_is_commutative(AMP_LIMIT as int, j + 1 - lo);
                    lemma_mul_is_commutative(AMP_LIMIT as int, j - lo);
                }
                assert((j + 1 - lo) * (AMP_LIMIT as int) <= (MAX_WINDOW as int) * (
                AMP_LIMIT as int)) by {
                    lemma_mul_inequality(j + 1 - lo, MAX_WINDOW as int, AMP_LIMIT as int);
                    lemma_mul_is_commutative(j + 1 - lo, AMP_LIMIT as int);
                    lemma_mul_is_commutative(MAX_WINDOW as int, AMP_LIMIT as int);
                }
            }
            sum = sum + w[j];
            j += 1;
        }
        let missing: i64 = (k - (hi - lo + 1)) as i64;
        proof {
            assert(0 <= missing <= ki);
            assert(mag(w@[i as int] as int * missing as int) <= ki * (AMP_LIMIT as int)) by {
                lemma_mul_inequality(w@[i as int] as int, AMP_LIMIT as int, missing as int);
                lemma_mul_inequality(-(w@[i as int] as int), AMP_LIMIT as int, missing as int);
                lemma_mul_unary_negation(w@[i as int] as int, missing as int);
                lemma_mul_is_commutative(w@[i as int] as int, missing as int);
                lemma_mul_is_commutative(AMP_LIMIT as int, missing as int);
                lemma_mul_inequality(missing as int, ki, AMP_LIMIT as int);
                lemma_mul_is_commutative(ki, AMP_LIMIT as int);
            }
            assert(ki * (AMP_LIMIT as int) <= (MAX_WINDOW as int) * (AMP_LIMIT as int)) by {
                lemma_mul_inequality(ki, MAX_WINDOW as int, AMP_LIMIT as int);
                lemma_mul_is_commutative(ki, AMP_LIMIT as int);
                lemma_mul_is_commutative(MAX_WINDOW as int, AMP_LIMIT as int);
            }
            assert((hi + 1 - lo) * (AMP_LIMIT as int) + ki * (AMP_LIMIT as int) <= 2 * (
            MAX_WINDOW as int) * (AMP_LIMIT as int)) by {
                lemma_mul_inequality(hi + 1 - lo, MAX_WINDOW as int, AMP_LIMIT as int);
                lemma_mul_is_commutative(hi + 1 - lo, AMP_LIMIT as int);
                lemma_mul_is_commutative(MAX_WINDOW as int, AMP_LIMIT as int);
            }
        }
        let center_term: i64 = w[i] * missing;
        let weighted: i64 = sum + center_term;
        proof {
            assert(weighted as int == weighted_sum(w@, i as int, ki)) by {
                lemma_mul_is_distributive_sub(
                    w@[i as int] as int, missing as int + 1, 1);
            }
            lemma_weighted_sum_mag(w@, i as int, ki);
            lemma_div_trunc_mag_ordered(weighted as int, ki * (AMP_LIMIT as int), ki);
            lemma_div_multiples_vanish(AMP_LIMIT as int, ki);
        }
        let q: i64 = div_trunc_i64(weighted, k as i64);
        out.push(q);
        i += 1;
    }
    proof {
        assert(out@ =~= filter_spec(w@, ki));
    }
    out
}

/// Filter weight conservation. At interior indices (where the symmetric
/// kernel fits inside the window) the weighted combination is exactly the
/// sum of the `K` centered taps, so the output is their truncating mean; at
/// every index the weighted-sum identity
/// `weighted_sum == partial_sum + s[i] * (K - present)` holds, and `K` times
/// the output differs from the weighted sum only by the division remainder,
/// which is smaller than `K`.
pub proof fn lemma_filter_weight_conservation(s: Seq<i64>, k: int)
    requires
        k % 2 == 1,
        1 <= k <= s.len(),
    ensures
        forall|i: int|
            k / 2 <= i < s.len() - k / 2 ==> #[trigger] weighted_sum(s, i, k) == sum_range(
                s, i - k / 2, i + k / 2 + 1),
        forall|i: int|
            0 <= i < s.len() ==> #[trigger] weighted_sum(s, i, k) == partial_sum(s, i, k) + s[i]
                * (k - present(i, k, s.len() as int)),
        forall|i: int|
            0 <= i < s.len() ==> mag(
                k * #[trigger] filtered_at(s, i, k) - weighted_sum(s, i, k)) < k,
{
    let n = s.len() as int;
    lemma_fundamental_div_mod(k, 2);
    assert forall|i: int| k / 2 <= i < n - k / 2 implies #[trigger] weighted_sum(s, i, k)
        == sum_range(s, i - k / 2, i + k / 2 + 1) by {
        let h = k / 2;
        assert(tap_lo(i, k) == i - h);
        assert(tap_hi(i, k, n) == i + h);
        assert(present(i, k, n) == 2 * h == k - 1);
        assert(s[i] * (k - (k - 1)) == s[i]) by {
            lemma_mul_is_commutative(s[i] as int, 1);
        }
    }
    assert forall|i: int| 0 <= i < n implies mag(
        k * #[trigger] filtered_at(s, i, k) - weighted_sum(s, i, k)) < k by {
        let ws = weighted_sum(s, i, k);
        let q = filtered_at(s, i, k);
        if ws >= 0 {
            lemma_fundamental_div_mod(ws, k);
            assert(q == ws / k);
        } else {
            lemma_fundamental_div_mod(-ws, k);
            assert(q == -((-ws) / k));
            assert(k * -((-ws) / k) == -(k * ((-ws) / k))) by {
                lemma_mul_unary_negation(k, (-ws) / k);
            }
        }
    }
}

} // verus!
