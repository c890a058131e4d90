//! Window normalization: every sample is rescaled by the window's maximum,
//! so that the peak of a window with a positive maximum becomes exactly one
//! fixed-point unit.

use vstd::prelude::*;
use vstd::arithmetic::div_mod::{
    lemma_div_multiples_vanish, lemma_div_is_ordered, lemma_div_pos_is_pos,
    lemma_fundamental_div_mod,
};
use vstd::arithmetic::mul::lemma_mul_inequality;
use crate::arith::{mag, div_trunc, div_trunc_i64, lemma_div_trunc_mag};
use crate::config::{PipelineError, FIXED_POINT_ONE, RAW_LIMIT, AMP_LIMIT};

verus! {

/// The maximum sample of a non-empty window (zero for an empty one).
pub open spec fn max_amp(s: Seq<i64>) -> int
    decreases s.len(),
{
    if s.len() == 0 {
        0
    } else if s.len() == 1 {
        s[0] as int
    } else {
        let m = max_amp(s.drop_last());
        if s.last() as int > m {
            s.last() as int
        } else {
            m
        }
    }
}

/// The maximum bounds every sample and is attained by one of them.
pub proof fn lemma_max_amp(s: Seq<i64>)
    requires
        s.len() > 0,
    ensures
        forall|i: int| 0 <= i < s.len() ==> #[trigger] s[i] as int <= max_amp(s),
        exists|i: int| 0 <= i < s.len() && #[trigger] s[i] as int == max_amp(s),
    decreases s.len(),
{
    if s.len() == 1 {
        assert(s[0] as int == max_amp(s));
    } else {
        lemma_max_amp(s.drop_last());
        if s.last() as int > max_amp(s.drop_last()) {
            assert(s[s.len() - 1] as int == max_amp(s));
        } else {
            let j = choose|i: int|
                0 <= i < s.drop_last().len() && #[trigger] s.drop_last()[i] as int == max_amp(
                    s.drop_last(),
                );
            assert(s[j] as int == max_amp(s));
        }
        assert forall|i: int| 0 <= i < s.len() implies #[trigger] s[i] as int <= max_amp(s) by {
            if i < s.len() - 1 {
                assert(s.drop_last()[i] == s[i]);
            }
        }
    }
}

/// What one normalized sample is: the sample scaled to fixed point and
/// divided (truncating) by the window's maximum.
pub open spec fn scaled(a: int, m: int) -> int {
    div_trunc(a * FIXED_POINT_ONE, m)
}

/// The whole normalized window.
pub open spec fn norm_spec(s: Seq<i64>) -> Seq<i64> {
    Seq::new(s.len(), |i: int| scaled(s[i] as int, max_amp(s)) as i64)
}

/// Whether a window is acceptable raw input: within the representable
/// sample range of the fixed-point pipeline.
pub open spec fn raw_in_range(s: Seq<i64>) -> bool {
    forall|i: int| 0 <= i < s.len() ==> mag(#[trigger] s[i] as int) <= RAW_LIMIT
}

/// Rescales a window by its own maximum, in fixed point: sample `a` maps to
/// `a * FIXED_POINT_ONE / max`, truncating toward zero. Fails exactly when
/// the window is empty or its maximum is zero (the degenerate inputs on
/// which the rescaling is undefined); nothing is silently clamped.
pub fn normalize(w: &Vec<i64>) -> (r: Result<Vec<i64>, PipelineError>)
    requires
        raw_in_range(w@),
    ensures
        r is Ok <==> (w@.len() > 0 && max_amp(w@) != 0),
        r matches Ok(out) ==> {
            &&& out@.len() == w@.len()
            &&& out@ == norm_spec(w@)
            &&& forall|i: int|
                0 <= i < out@.len() ==> {
                    &&& #[trigger] out@[i] as int == scaled(w@[i] as int, max_amp(w@))
                    &&& mag(out@[i] as int) <= AMP_LIMIT
                }
        },
        r matches Err(e) ==> e == PipelineError::DegenerateInput,
{
    if w.len() == 0 {
        return Err(PipelineError::DegenerateInput);
    }
    let mut max: i64 = w[0];
    let mut i: usize = 1;
    while i < w.len()
        invariant
            1 <= i <= w@.len(),
            max as int == max_amp(w@.take(i as int)),
        decreases w@.len() - i,
    {
        proof {
            assert(w@.take(i + 1).drop_last() =~= w@.take(i as int));
            assert(w@.take(i + 1).last() == w@[i as int]);
        }
        if w[i] > max {
            max = w[i];
        }
        i += 1;
    }
    proof {
        assert(w@.take(w@.len() as int) =~= w@);
    }
    if max == 0 {
        return Err(PipelineError::DegenerateInput);
    }
    let ghost m = max_amp(w@);
    let mut out: Vec<i64> = Vec::new();
    let mut j: usize = 0;
    while j < w.len()
        invariant
            0 <= j <= w@.len(),
            raw_in_range(w@),
            max as int == m,
            m == max_amp(w@),
            m != 0,
            out@.len() == j,
            forall|t: int|
                0 <= t < j ==> {
                    &&& #[trigger] out@[t] as int == scaled(w@[t] as int, m)
                    &&& mag(out@[t] as int) <= AMP_LIMIT
                },
        decreases w@.len() - j,
    {
        let a: i64 = w[j];
        proof {
            assert(mag(a as int) <= RAW_LIMIT);
        }
        let prod: i64 = a * FIXED_POINT_ONE;
        let q: i64 = div_trunc_i64(prod, max);
        proof {
            lemma_div_trunc_mag(prod as int, max as int);
            assert(mag(prod as int) <= AMP_LIMIT);
        }
        out.push(q);
        j += 1;
    }
    proof {
        assert(out@ =~= norm_spec(w@));
    }
    Ok(out)
}

/// Normalization invariant: when a window's maximum is positive, the
/// normalized window peaks at exactly one fixed-point unit, no normalized
/// sample exceeds that unit, and every sample keeps its original ratio to
/// the maximum up to the truncation remainder:
/// `|max * out[i] - FIXED_POINT_ONE * in[i]| < max`.
pub proof fn lemma_normalize_peak(s: Seq<i64>)
    requires
        s.len() > 0,
        max_amp(s) > 0,
    ensures
        exists|i: int|
            0 <= i < s.len() && #[trigger] scaled(s[i] as int, max_amp(s)) == FIXED_POINT_ONE,
        forall|i: int|
            0 <= i < s.len() ==> #[trigger] scaled(s[i] as int, max_amp(s)) <= FIXED_POINT_ONE,
        forall|i: int|
            0 <= i < s.len() ==> {
                let d = max_amp(s) * #[trigger] scaled(s[i] as int, max_amp(s)) - FIXED_POINT_ONE
                    * (s[i] as int);
                -max_amp(s) < d <= 0 || 0 <= d < max_amp(s)
            },
{
    let m = max_amp(s);
    lemma_max_amp(s);
    let p = choose|i: int| 0 <= i < s.len() && #[trigger] s[i] as int == m;
    assert(scaled(m, m) == FIXED_POINT_ONE) by {
        lemma_div_multiples_vanish(FIXED_POINT_ONE as int, m);
        assert(m * FIXED_POINT_ONE == m * (FIXED_POINT_ONE as int));
    }
    assert(scaled(s[p] as int, m) == FIXED_POINT_ONE);
    assert forall|i: int| 0 <= i < s.len() implies #[trigger] scaled(s[i] as int, m)
        <= FIXED_POINT_ONE by {
        let a = s[i] as int;
        if a >= 0 {
            lemma_mul_inequality(a, m, FIXED_POINT_ONE as int);
            lemma_div_is_ordered(a * FIXED_POINT_ONE, m * FIXED_POINT_ONE, m);
            lemma_div_multiples_vanish(FIXED_POINT_ONE as int, m);
            assert(m * FIXED_POINT_ONE == m * (FIXED_POINT_ONE as int));
            assert(scaled(a, m) == (a * FIXED_POINT_ONE) / m);
        } else {
            lemma_div_pos_is_pos(mag(a * FIXED_POINT_ONE), m);
        }
    }
    assert forall|i: int| 0 <= i < s.len() implies {
        let d = m * #[trigger] scaled(s[i] as int, m) - FIXED_POINT_ONE * (s[i] as int);
        -m < d <= 0 || 0 <= d < m
    } by {
        let a = s[i] as int;
        let x = a * FIXED_POINT_ONE;
        if a >= 0 {
            lemma_fundamental_div_mod(x, m);
            assert(scaled(a, m) == x / m);
            assert(m * (x / m) == x - x % m);
            assert(FIXED_POINT_ONE * a == x) by {
                vstd::arithmetic::mul::lemma_mul_is_commutative(a, FIXED_POINT_ONE as int);
            }
        } else {
            lemma_fundamental_div_mod(-x, m);
            assert(scaled(a, m) == -((-x) / m));
            assert(m * ((-x) / m) == -x - (-x) % m);
            assert(m * -((-x) / m) == -(m * ((-x) / m))) by {
                vstd::arithmetic::mul::lemma_mul_unary_negation(m, (-x) / m);
            }
            assert(FIXED_POINT_ONE * a == x) by {
                vstd::arithmetic::mul::lemma_mul_is_commutative(a, FIXED_POINT_ONE as int);
            }
        }
    }
}

} // verus!
