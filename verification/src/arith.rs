//! Truncating fixed-point division, shared by the normalizer and the filter.

use vstd::prelude::*;
use vstd::arithmetic::div_mod::{
    lemma_div_nonincreasing, lemma_div_pos_is_pos, lemma_div_is_ordered,
};

verus! {

/// Magnitude of an integer.
pub open spec fn mag(a: int) -> int {
    if a >= 0 {
        a
    } else {
        -a
    }
}

/// Whether every sample of a window lies within the pipeline's
/// representable amplitude range.
pub open spec fn amps_in_range(s: Seq<i64>) -> bool {
    forall|i: int|
        0 <= i < s.len() ==> mag(#[trigger] s[i] as int) <= crate::config::AMP_LIMIT
}

/// Division as the hardware performs it on signed integers: the quotient of
/// the magnitudes, carrying the sign of the operands (truncation toward zero).
pub open spec fn div_trunc(a: int, b: int) -> int {
    if (a >= 0) == (b >= 0) {
        mag(a) / mag(b)
    } else {
        -(mag(a) / mag(b))
    }
}

/// The magnitude of a truncating quotient never exceeds the dividend's.
pub proof fn lemma_div_trunc_mag(a: int, b: int)
    requires
        b != 0,
    ensures
        mag(div_trunc(a, b)) <= mag(a),
        0 <= mag(a) / mag(b),
{
    lemma_div_nonincreasing(mag(a), mag(b));
    lemma_div_pos_is_pos(mag(a), mag(b));
}

/// Dividing by a larger positive divisor cannot give a larger quotient:
/// monotonicity of the truncating quotient in its dividend's magnitude.
pub proof fn lemma_div_trunc_mag_ordered(a: int, c: int, b: int)
    requires
        0 < b,
        mag(a) <= c,
    ensures
        mag(div_trunc(a, b)) <= c / b,
{
    lemma_div_is_ordered(mag(a), c, b);
    lemma_div_pos_is_pos(mag(a), b);
}

/// Truncating division of `i64` values, computed on unsigned magnitudes.
pub fn div_trunc_i64(a: i64, b: i64) -> (q: i64)
    requires
        b != 0,
        a > i64::MIN,
        b > i64::MIN,
    ensures
        q == div_trunc(a as int, b as int),
        mag(q as int) <= mag(a as int),
{
    let na: u64 = if a >= 0 {
        a as u64
    } else {
        (-a) as u64
    };
    let nb: u64 = if b >= 0 {
        b as u64
    } else {
        (-b) as u64
    };
    let nq: u64 = na / nb;
    proof {
        lemma_div_nonincreasing(na as int, nb as int);
        lemma_div_pos_is_pos(na as int, nb as int);
    }
    if (a >= 0) == (b >= 0) {
        nq as i64
    } else {
        -(nq as i64)
    }
}

} // verus!
