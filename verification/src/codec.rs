//! Record encoding. A storage record is the filtered window's amplitudes,
//! each as a big-endian 32-bit fixed-point value, immediately followed by
//! one big-endian 64-bit quadruple `(time, altitude, longitude, latitude)`
//! per position fix, in acquisition order. Decoding reproduces both parts
//! bit for bit.

use vstd::prelude::*;
use vstd::arithmetic::div_mod::{
    lemma_fundamental_div_mod, lemma_div_denominator, lemma_div_pos_is_pos,
    lemma_multiply_divide_lt, lemma_small_mod,
};
use crate::position::PositionFix;

verus! {

/// The 32-bit two's-complement pattern of a small signed value.
pub open spec fn bits32(a: int) -> int {
    if a >= 0 {
        a
    } else {
        a + 0x1_0000_0000
    }
}

/// The signed value of a 32-bit two's-complement pattern.
pub open spec fn from_bits32(u: int) -> int {
    if u >= 0x8000_0000 {
        u - 0x1_0000_0000
    } else {
        u
    }
}

/// The 64-bit two's-complement pattern of a small signed value.
pub open spec fn bits64(a: int) -> int {
    if a >= 0 {
        a
    } else {
        a + 0x1_0000_0000_0000_0000
    }
}

/// The signed value of a 64-bit two's-complement pattern.
pub open spec fn from_bits64(u: int) -> int {
    if u >= 0x8000_0000_0000_0000 {
        u - 0x1_0000_0000_0000_0000
    } else {
        u
    }
}

/// Big-endian bytes of a 32-bit pattern.
pub open spec fn be4(u: int) -> Seq<u8> {
    seq![
        ((u / 0x100_0000) % 0x100) as u8,
        ((u / 0x1_0000) % 0x100) as u8,
        ((u / 0x100) % 0x100) as u8,
        (u % 0x100) as u8,
    ]
}

/// The 32-bit pattern of four big-endian bytes.
pub open spec fn combine4(s: Seq<u8>) -> int {
    s[0] * 0x100_0000 + s[1] * 0x1_0000 + s[2] * 0x100 + s[3]
}

/// Big-endian bytes of a 64-bit pattern.
pub open spec fn be8(u: int) -> Seq<u8> {
    seq![
        ((u / 0x100_0000_0000_0000) % 0x100) as u8,
        ((u / 0x1_0000_0000_0000) % 0x100) as u8,
        ((u / 0x100_0000_0000) % 0x100) as u8,
        ((u / 0x1_0000_0000) % 0x100) as u8,
        ((u / 0x100_0000) % 0x100) as u8,
        ((u / 0x1_0000) % 0x100) as u8,
        ((u / 0x100) % 0x100) as u8,
        (u % 0x100) as u8,
    ]
}

/// The 64-bit pattern of eight big-endian bytes.
pub open spec fn combine8(s: Seq<u8>) -> int {
    s[0] * 0x100_0000_0000_0000 + s[1] * 0x1_0000_0000_0000 + s[2] * 0x100_0000_0000 + s[3]
        * 0x1_0000_0000 + s[4] * 0x100_0000 + s[5] * 0x1_0000 + s[6] * 0x100 + s[7]
}

/// Big-endian bytes reassemble to the 32-bit pattern they came from.
pub proof fn lemma_be4_combine(u: int)
    requires
        0 <= u < 0x1_0000_0000,
    ensures
        combine4(be4(u)) == u,
{
    lemma_div_pos_is_pos(u, 0x100);
    lemma_div_pos_is_pos(u, 0x1_0000);
    lemma_div_pos_is_pos(u, 0x100_0000);
    lemma_fundamental_div_mod(u, 0x100);
    lemma_div_denominator(u, 0x100, 0x100);
    lemma_fundamental_div_mod(u / 0x100, 0x100);
    lemma_div_denominator(u, 0x1_0000, 0x100);
    lemma_fundamental_div_mod(u / 0x1_0000, 0x100);
    lemma_multiply_divide_lt(u, 0x100_0000, 0x100);
    lemma_small_mod((u / 0x100_0000) as nat, 0x100);
}

/// Big-endian bytes reassemble to the 64-bit pattern they came from.
pub proof fn lemma_be8_combine(u: int)
    requires
        0 <= u < 0x1_0000_0000_0000_0000,
    ensures
        combine8(be8(u)) == u,
{
    lemma_div_pos_is_pos(u, 0x100);
    lemma_div_pos_is_pos(u, 0x1_0000);
    lemma_div_pos_is_pos(u, 0x100_0000);
    lemma_div_pos_is_pos(u, 0x1_0000_0000);
    lemma_div_pos_is_pos(u, 0x100_0000_0000);
    lemma_div_pos_is_pos(u, 0x1_0000_0000_0000);
    lemma_div_pos_is_pos(u, 0x100_0000_0000_0000);
    lemma_fundamental_div_mod(u, 0x100);
    lemma_div_denominator(u, 0x100, 0x100);
    lemma_fundamental_div_mod(u / 0x100, 0x100);
    lemma_div_denominator(u, 0x1_0000, 0x100);
    lemma_fundamental_div_mod(u / 0x1_0000, 0x100);
    lemma_div_denominator(u, 0x100_0000, 0x100);
    lemma_fundamental_div_mod(u / 0x100_0000, 0x100);
    lemma_div_denominator(u, 0x1_0000_0000, 0x100);
    lemma_fundamental_div_mod(u / 0x1_0000_0000, 0x100);
    lemma_div_denominator(u, 0x100_0000_0000, 0x100);
    lemma_fundamental_div_mod(u / 0x100_0000_0000, 0x100);
    lemma_div_denominator(u, 0x1_0000_0000_0000, 0x100);
    lemma_fundamental_div_mod(u / 0x1_0000_0000_0000, 0x100);
    lemma_multiply_divide_lt(u, 0x100_0000_0000_0000, 0x100);
    lemma_small_mod((u / 0x100_0000_0000_0000) as nat, 0x100);
}

/// A small signed value survives the 32-bit two's-complement round trip.
pub proof fn lemma_bits32_round(a: int)
    requires
        -0x8000_0000 <= a < 0x8000_0000,
    ensures
        0 <= bits32(a) < 0x1_0000_0000,
        from_bits32(bits32(a)) == a,
{
}

/// A small signed value survives the 64-bit two's-complement round trip.
pub proof fn lemma_bits64_round(a: int)
    requires
        -0x8000_0000_0000_0000 <= a < 0x8000_0000_0000_0000,
    ensures
        0 <= bits64(a) < 0x1_0000_0000_0000_0000,
        from_bits64(bits64(a)) == a,
{
}

/// Appends one amplitude as four big-endian bytes.
pub fn encode_amplitude(a: i64, out: &mut Vec<u8>)
    requires
        -0x8000_0000 <= a < 0x8000_0000,
    ensures
        final(out)@ == old(out)@ + be4(bits32(a as int)),
{
    let t: i64 = if a >= 0 {
        a
    } else {
        a + 0x1_0000_0000
    };
    proof {
        assert(t == bits32(a as int));
        assert(0 <= t < 0x1_0000_0000);
    }
    out.push(((t / 0x100_0000) % 0x100) as u8);
    out.push(((t / 0x1_0000) % 0x100) as u8);
    out.push(((t / 0x100) % 0x100) as u8);
    out.push((t % 0x100) as u8);
    proof {
        assert(out@ =~= old(out)@ + be4(bits32(a as int)));
    }
}

/// Appends one fix field as eight big-endian bytes.
pub fn encode_fix_field(f: i64, out: &mut Vec<u8>)
    requires
        f > i64::MIN,
    ensures
        final(out)@ == old(out)@ + be8(bits64(f as int)),
{
    let t: u64 = if f >= 0 {
        f as u64
    } else {
        (0xFFFF_FFFF_FFFF_FFFFu64 - ((-f) as u64)) + 1
    };
    proof {
        assert(t == bits64(f as int));
    }
    out.push(((t / 0x100_0000_0000_0000) % 0x100) as u8);
    out.push(((t / 0x1_0000_0000_0000) % 0x100) as u8);
    out.push(((t / 0x100_0000_0000) % 0x100) as u8);
    out.push(((t / 0x1_0000_0000) % 0x100) as u8);
    out.push(((t / 0x100_0000) % 0x100) as u8);
    out.push(((t / 0x1_0000) % 0x100) as u8);
    out.push(((t / 0x100) % 0x100) as u8);
    out.push((t % 0x100) as u8);
    proof {
        assert(out@ =~= old(out)@ + be8(bits64(f as int)));
    }
}

/// The 32 bytes of one encoded fix: time, altitude, longitude, latitude,
/// each as a big-endian 64-bit value, in that field order.
pub open spec fn fix_bytes(f: PositionFix) -> Seq<u8> {
    be8(bits64(f.time as int)) + be8(bits64(f.altitude as int)) + be8(bits64(f.longitude as int))
        + be8(bits64(f.latitude as int))
}

/// The amplitude section of a record: four bytes per sample, window order.
pub open spec fn amps_bytes(s: Seq<i64>) -> Seq<u8>
    decreases s.len(),
{
    if s.len() == 0 {
        Seq::empty()
    } else {
        amps_bytes(s.drop_last()) + be4(bits32(s.last() as int))
    }
}

/// The fix section of a record: 32 bytes per fix, acquisition order.
pub open spec fn fixes_bytes(s: Seq<PositionFix>) -> Seq<u8>
    decreases s.len(),
{
    if s.len() == 0 {
        Seq::empty()
    } else {
        fixes_bytes(s.drop_last()) + fix_bytes(s.last())
    }
}

/// A whole record: the amplitude section then the fix section.
pub open spec fn record_bytes(w: Seq<i64>, fixes: Seq<PositionFix>) -> Seq<u8> {
    amps_bytes(w) + fixes_bytes(fixes)
}

/// The amplitude section is four bytes per sample, and the bytes of sample
/// `i` stand at offset `4 * i`.
pub proof fn lemma_amps_bytes_index(s: Seq<i64>)
    ensures
        amps_bytes(s).len() == 4 * s.len(),
        forall|i: int|
            0 <= i < s.len() ==> #[trigger] amps_bytes(s).subrange(4 * i, 4 * i + 4) == be4(
                bits32(s[i] as int)),
    decreases s.len(),
{
    if s.len() > 0 {
        lemma_amps_bytes_index(s.drop_last());
        let e = amps_bytes(s);
        let ep = amps_bytes(s.drop_last());
        assert forall|i: int| 0 <= i < s.len() implies #[trigger] e.subrange(4 * i, 4 * i + 4)
            == be4(bits32(s[i] as int)) by {
            if i < s.len() - 1 {
                assert(e.subrange(4 * i, 4 * i + 4) =~= ep.subrange(4 * i, 4 * i + 4));
                assert(s.drop_last()[i] == s[i]);
            } else {
                assert(e.subrange(4 * i, 4 * i + 4) =~= be4(bits32(s.last() as int)));
            }
        }
    }
}

/// The fix section is 32 bytes per fix, and the bytes of fix `j` stand at
/// offset `32 * j`.
pub proof fn lemma_fixes_bytes_index(s: Seq<PositionFix>)
    ensures
        fixes_bytes(s).len() == 32 * s.len(),
        forall|j: int|
            0 <= j < s.len() ==> #[trigger] fixes_bytes(s).subrange(32 * j, 32 * j + 32)
                == fix_bytes(s[j]),
    decreases s.len(),
{
    if s.len() > 0 {
        lemma_fixes_bytes_index(s.drop_last());
        let e = fixes_bytes(s);
        let ep = fixes_bytes(s.drop_last());
        assert forall|j: int| 0 <= j < s.len() implies #[trigger] e.subrange(32 * j, 32 * j + 32)
            == fix_bytes(s[j]) by {
            if j < s.len() - 1 {
                assert(e.subrange(32 * j, 32 * j + 32) =~= ep.subrange(32 * j, 32 * j + 32));
                assert(s.drop_last()[j] == s[j]);
            } else {
                assert(e.subrange(32 * j, 32 * j + 32) =~= fix_bytes(s.last()));
            }
        }
    }
}

/// Encodes a whole record: the window's amplitudes, four big-endian bytes
/// each, then the fixes, 32 big-endian bytes each, in order.
pub fn encode_record(w: &Vec<i64>, fixes: &Vec<PositionFix>) -> (r: Vec<u8>)
    requires
        forall|i: int| 0 <= i < w@.len() ==> -0x8000_0000 <= #[trigger] w@[i] < 0x8000_0000,
        forall|j: int| 0 <= j < fixes@.len() ==> (#[trigger] fixes@[j]).wf(),
    ensures
        r@ == record_bytes(w@, fixes@),
        r@.len() == 4 * w@.len() + 32 * fixes@.len(),
{
    let mut out: Vec<u8> = Vec::new();
    let mut i: usize = 0;
    while i < w.len()
        invariant
            0 <= i <= w@.len(),
            forall|t: int| 0 <= t < w@.len() ==> -0x8000_0000 <= #[trigger] w@[t] < 0x8000_0000,
            out@ == amps_bytes(w@.take(i as int)),
        decreases w@.len() - i,
    {
        proof {
            assert(w@.take(i + 1).drop_last() =~= w@.take(i as int));
            assert(w@.take(i + 1).last() == w@[i as int]);
        }
        encode_amplitude(w[i], &mut out);
        i += 1;
    }
    proof {
        assert(w@.take(w@.len() as int) =~= w@);
        lemma_amps_bytes_index(w@);
    }
    let mut j: usize = 0;
    while j < fixes.len()
        invariant
            0 <= j <= fixes@.len(),
            forall|t: int| 0 <= t < fixes@.len() ==> (#[trigger] fixes@[t]).wf(),
            out@ == amps_bytes(w@) + fixes_bytes(fixes@.take(j as int)),
        decreases fixes@.len() - j,
    {
        proof {
            assert(fixes@.take(j + 1).drop_last() =~= fixes@.take(j as int));
            assert(fixes@.take(j + 1).last() == fixes@[j as int]);
        }
        let f = fixes[j];
        encode_fix_field(f.time, &mut out);
        encode_fix_field(f.altitude, &mut out);
        encode_fix_field(f.longitude, &mut out);
        encode_fix_field(f.latitude, &mut out);
        proof {
            assert(out@ =~= amps_bytes(w@) + fixes_bytes(fixes@.take(j + 1)));
        }
        j += 1;
    }
    proof {
        assert(fixes@.take(fixes@.len() as int) =~= fixes@);
        lemma_fixes_bytes_index(fixes@);
    }
    out
}

/// Decodes the four big-endian bytes at `off` back to a signed amplitude.
pub fn decode_amplitude(b: &Vec<u8>, off: usize) -> (r: i64)
    requires
        off + 4 <= b@.len(),
    ensures
        r as int == from_bits32(combine4(b@.subrange(off as int, off as int + 4))),
{
    // binding the length puts `b@.len() <= usize::MAX` in scope for the
    // offset arithmetic below
    let len_bound: usize = b.len();
    proof {
        assert(off + 4 <= len_bound);
    }
    let t: i64 = (b[off] as i64) * 0x100_0000 + (b[off + 1] as i64) * 0x1_0000 + (b[off + 2]
        as i64) * 0x100 + (b[off + 3] as i64);
    proof {
        assert(t == combine4(b@.subrange(off as int, off as int + 4)));
    }
    if t >= 0x8000_0000 {
        t - 0x1_0000_0000
    } else {
        t
    }
}

/// Decodes the eight big-endian bytes at `off` back to a signed fix field.
pub fn decode_fix_field(b: &Vec<u8>, off: usize) -> (r: i64)
    requires
        off + 8 <= b@.len(),
    ensures
        r as int == from_bits64(combine8(b@.subrange(off as int, off as int + 8))),
{
    // binding the length puts `b@.len() <= usize::MAX` in scope for the
    // offset arithmetic below
    let len_bound: usize = b.len();
    proof {
        assert(off + 8 <= len_bound);
    }
    let t: u64 = (b[off] as u64) * 0x100_0000_0000_0000 + (b[off + 1] as u64) * 0x1_0000_0000_0000
        + (b[off + 2] as u64) * 0x100_0000_0000 + (b[off + 3] as u64) * 0x1_0000_0000 + (b[off + 4]
        as u64) * 0x100_0000 + (b[off + 5] as u64) * 0x1_0000 + (b[off + 6] as u64) * 0x100 + (b[off
        + 7] as u64);
    proof {
        assert(t == combine8(b@.subrange(off as int, off as int + 8)));
    }
    if t >= 0x8000_0000_0000_0000 {
        -((0xFFFF_FFFF_FFFF_FFFFu64 - t) as i64) - 1
    } else {
        t as i64
    }
}

/// Decodes the leading amplitude section of a record: `n` samples of four
/// big-endian bytes each.
pub fn decode_window(b: &Vec<u8>, n: usize) -> (r: Vec<i64>)
    requires
        4 * n <= b@.len(),
    ensures
        r@.len() == n,
        forall|i: int|
            0 <= i < n ==> #[trigger] r@[i] as int == from_bits32(
                combine4(b@.subrange(4 * i, 4 * i + 4))),
{
    // binding the length puts `b@.len() <= usize::MAX` in scope for the
    // offset arithmetic below
    let len_bound: usize = b.len();
    proof {
        assert(4 * n <= len_bound);
    }
    let mut out: Vec<i64> = Vec::new();
    let mut i: usize = 0;
    while i < n
        invariant
            0 <= i <= n,
            4 * n <= b@.len(),
            b@.len() <= usize::MAX,
            out@.len() == i,
            forall|t: int|
                0 <= t < i ==> #[trigger] out@[t] as int == from_bits32(
                    combine4(b@.subrange(4 * t, 4 * t + 4))),
        decreases n - i,
    {
        let a = decode_amplitude(b, 4 * i);
        out.push(a);
        i += 1;
    }
    out
}

/// Decodes the fix section of a record: `count` quadruples of 64-bit fields
/// starting at `start`, each in the order time, altitude, longitude,
/// latitude.
pub fn decode_fixes(b: &Vec<u8>, start: usize, count: usize) -> (r: Vec<PositionFix>)
    requires
        start + 32 * count <= b@.len(),
    ensures
        r@.len() == count,
        forall|j: int|
            0 <= j < count ==> {
                let off = start + 32 * j;
                &&& #[trigger] r@[j].time as int == from_bits64(
                    combine8(b@.subrange(off, off + 8)))
                &&& r@[j].altitude as int == from_bits64(
                    combine8(b@.subrange(off + 8, off + 16)))
                &&& r@[j].longitude as int == from_bits64(
                    combine8(b@.subrange(off + 16, off + 24)))
                &&& r@[j].latitude as int == from_bits64(
                    combine8(b@.subrange(off + 24, off + 32)))
            },
{
    // binding the length puts `b@.len() <= usize::MAX` in scope for the
    // offset arithmetic below
    let len_bound: usize = b.len();
    proof {
        assert(start + 32 * count <= len_bound);
    }
    let mut out: Vec<PositionFix> = Vec::new();
    let mut j: usize = 0;
    while j < count
        invariant
            0 <= j <= count,
            start + 32 * count <= b@.len(),
            b@.len() <= usize::MAX,
            out@.len() == j,
            forall|t: int|
                0 <= t < j ==> {
                    let off = start + 32 * t;
                    &&& #[trigger] out@[t].time as int == from_bits64(
                        combine8(b@.subrange(off, off + 8)))
                    &&& out@[t].altitude as int == from_bits64(
                        combine8(b@.subrange(off + 8, off + 16)))
                    &&& out@[t].longitude as int == from_bits64(
                        combine8(b@.subrange(off + 16, off + 24)))
                    &&& out@[t].latitude as int == from_bits64(
                        combine8(b@.subrange(off + 24, off + 32)))
                },
        decreases count - j,
    {
        let off = start + 32 * j;
        let f = PositionFix {
            time: decode_fix_field(b, off),
            altitude: decode_fix_field(b, off + 8),
            longitude: decode_fix_field(b, off + 16),
            latitude: decode_fix_field(b, off + 24),
        };
        out.push(f);
        proof {
            let oj = j as int;
            assert(out@[oj] == f);
            assert(f.time as int == from_bits64(
                combine8(b@.subrange(start + 32 * oj, start + 32 * oj + 8))));
            assert(f.altitude as int == from_bits64(
                combine8(b@.subrange(start + 32 * oj + 8, start + 32 * oj + 16))));
            assert(f.longitude as int == from_bits64(
                combine8(b@.subrange(start + 32 * oj + 16, start + 32 * oj + 24))));
            assert(f.latitude as int == from_bits64(
                combine8(b@.subrange(start + 32 * oj + 24, start + 32 * oj + 32))));
        }
        j += 1;
    }
    out
}

/// Round-trip encoding: decoding a record's first `w.len()` big-endian
/// 32-bit values reproduces the filtered amplitudes bit for bit, and
/// decoding the following 64-bit quadruples reproduces the position fixes,
/// field by field, in acquisition order.
#[verifier::rlimit(100)]
pub proof fn lemma_record_round_trip(w: Seq<i64>, fixes: Seq<PositionFix>)
    requires
        forall|i: int| 0 <= i < w.len() ==> -0x8000_0000 <= #[trigger] w[i] < 0x8000_0000,
        forall|j: int| 0 <= j < fixes.len() ==> (#[trigger] fixes[j]).wf(),
    ensures
        record_bytes(w, fixes).len() == 4 * w.len() + 32 * fixes.len(),
        forall|i: int|
            0 <= i < w.len() ==> from_bits32(
                combine4(#[trigger] record_bytes(w, fixes).subrange(4 * i, 4 * i + 4))) == w[i],
        forall|j: int|
            0 <= j < fixes.len() ==> {
                let off = 4 * w.len() + 32 * j;
                let b = record_bytes(w, fixes);
                &&& from_bits64(combine8(b.subrange(off, off + 8))) == (#[trigger] fixes[j]).time
                &&& from_bits64(combine8(b.subrange(off + 8, off + 16))) == fixes[j].altitude
                &&& from_bits64(combine8(b.subrange(off + 16, off + 24))) == fixes[j].longitude
                &&& from_bits64(combine8(b.subrange(off + 24, off + 32))) == fixes[j].latitude
            },
{
    let ea = amps_bytes(w);
    let ef = fixes_bytes(fixes);
    let b = record_bytes(w, fixes);
    lemma_amps_bytes_index(w);
    lemma_fixes_bytes_index(fixes);
    assert forall|i: int| 0 <= i < w.len() implies from_bits32(
        combine4(#[trigger] b.subrange(4 * i, 4 * i + 4))) == w[i] by {
        assert(b.subrange(4 * i, 4 * i + 4) =~= ea.subrange(4 * i, 4 * i + 4));
        lemma_bits32_round(w[i] as int);
        lemma_be4_combine(bits32(w[i] as int));
    }
    assert forall|j: int| 0 <= j < fixes.len() implies {
        let off = 4 * w.len() + 32 * j;
        &&& from_bits64(combine8(b.subrange(off, off + 8))) == (#[trigger] fixes[j]).time
        &&& from_bits64(combine8(b.subrange(off + 8, off + 16))) == fixes[j].altitude
        &&& from_bits64(combine8(b.subrange(off + 16, off + 24))) == fixes[j].longitude
        &&& from_bits64(combine8(b.subrange(off + 24, off + 32))) == fixes[j].latitude
    } by {
        let off = 4 * w.len() + 32 * j;
        let fb = fix_bytes(fixes[j]);
        assert(ef.subrange(32 * j, 32 * j + 32) == fb);
        assert(b.subrange(off, off + 8) =~= fb.subrange(0, 8));
        assert(b.subrange(off + 8, off + 16) =~= fb.subrange(8, 16));
        assert(b.subrange(off + 16, off + 24) =~= fb.subrange(16, 24));
        assert(b.subrange(off + 24, off + 32) =~= fb.subrange(24, 32));
        assert(fb.subrange(0, 8) =~= be8(bits64(fixes[j].time as int)));
        assert(fb.subrange(8, 16) =~= be8(bits64(fixes[j].altitude as int)));
        assert(fb.subrange(16, 24) =~= be8(bits64(fixes[j].longitude as int)));
        assert(fb.subrange(24, 32) =~= be8(bits64(fixes[j].latitude as int)));
        lemma_bits64_round(fixes[j].time as int);
        lemma_bits64_round(fixes[j].altitude as int);
        lemma_bits64_round(fixes[j].longitude as int);
        lemma_bits64_round(fixes[j].latitude as int);
        lemma_be8_combine(bits64(fixes[j].time as int));
        lemma_be8_combine(bits64(fixes[j].altitude as int));
        lemma_be8_combine(bits64(fixes[j].longitude as int));
        lemma_be8_combine(bits64(fixes[j].latitude as int));
    }
}

} // verus!
