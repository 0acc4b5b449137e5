//! Fixed-point scales and the numeric kernels behind the filter bank.
//!
//! Every quantity of the resampler is an integer in one of these scales:
//! resampling rates carry `RATE_ONE` fractional steps per input sample,
//! cutoff frequencies are fractions of the input rate in units of `FC_ONE`,
//! filter taps are in units of `TAP_ONE`, and the sine kernel produces values
//! in units of `SIN_ONE`.  Each executable kernel returns exactly the value
//! of its spec-level mirror, so the filter bank a resampler is built with is
//! pinned down value by value.

use vstd::prelude::*;
use vstd::arithmetic::div_mod::{
    lemma_div_by_multiple, lemma_div_is_ordered, lemma_div_multiples_vanish,
    lemma_div_pos_is_pos, lemma_fundamental_div_mod, lemma_fundamental_div_mod_converse,
    lemma_mod_pos_bound,
};
use vstd::arithmetic::mul::{lemma_mul_inequality, lemma_mul_is_commutative, lemma_mul_upper_bound};

verus! {

/// One whole input sample of resampling-rate phase (a rate is a Q20 value).
pub const RATE_ONE: u64 = 1048576;

/// Largest accepted rate: 4096 output samples per input sample, in Q20.
pub const RATE_MAX: u64 = 4294967296;

/// One unit of normalized frequency (a cutoff is a Q16 value).
pub const FC_ONE: u64 = 65536;

/// Half the input rate in `FC_ONE` units; cutoffs must stay strictly below.
pub const FC_HALF: u64 = 32768;

/// Unity for filter taps (taps are Q15 values).
pub const TAP_ONE: i64 = 32768;

/// Largest tap magnitude the bank stores.
pub const TAP_MAX: i64 = 32767;

/// Unity for the sine kernel (sines are Q14 values).
pub const SIN_ONE: i64 = 16384;

/// Largest accepted filter semi-length.
pub const M_MAX: u64 = 1024;

/// Largest accepted number of sub-filters in the bank.
pub const NPFB_MAX: u64 = 1024;

/// Truncating division (rounds toward zero), the rounding executable
/// integer division uses; spec-level `/` on `int` is Euclidean instead.
pub open spec fn spec_tdiv(a: int, d: int) -> int
    recommends
        d > 0,
{
    if a >= 0 {
        a / d
    } else {
        -((-a) / d)
    }
}

/// Saturation of a wide accumulator into the `i32` sample range.
pub open spec fn spec_sat32(q: int) -> int {
    if q > 2147483647 {
        2147483647
    } else if q < -2147483648 {
        -2147483648
    } else {
        q
    }
}

/// Clamp of a designed tap into the stored tap range.
pub open spec fn spec_clamp_tap(v: int) -> int {
    if v > 32767 {
        32767
    } else if v < -32767 {
        -32767
    } else {
        v
    }
}

/// Rising quarter wave of the sine kernel: a cubic approximation on
/// `z` in `[0, SIN_ONE]`, exact at both endpoints, clamped to `SIN_ONE`.
pub open spec fn spec_sin_quarter(z: int) -> int {
    let z2 = z * z / 16384;
    let z3 = z2 * z / 16384;
    let s = (3 * z - z3) / 2;
    if s > 16384 {
        16384
    } else {
        s
    }
}

/// Fixed-point sine of an angle in Q16 turns (65536 per full circle),
/// in Q14 units, built from the quarter wave by symmetry.
pub open spec fn spec_sin_turns(t: int) -> int
    recommends
        t >= 0,
{
    let t16 = t % 65536;
    let quad = t16 / 16384;
    let z = t16 % 16384;
    let zz = if quad == 1 || quad == 3 {
        16384 - z
    } else {
        z
    };
    let mag = spec_sin_quarter(zz);
    if quad >= 2 {
        -mag
    } else {
        mag
    }
}

/// Fixed-point cosine of an angle in Q16 turns, in Q14 units.
pub open spec fn spec_cos_turns(t: int) -> int
    recommends
        t >= 0,
{
    spec_sin_turns(t + 16384)
}

/// Hamming window over positions `0..=last`, in Q15 units.
pub open spec fn spec_window(t: int, last: int) -> int
    recommends
        0 <= t <= last,
        1 <= last,
{
    let angle = t * 65536 / last;
    let c = spec_cos_turns(angle);
    17695 - spec_tdiv(15072 * c, 16384)
}

/// Unwindowed prototype tap at signed offset `dt` (in `1/npfb` input
/// samples) from the filter center, in Q15 units: a low-pass sinc of
/// cutoff `fc` (Q16), evaluated in fixed point.  The sinc is even, so
/// only the magnitude of `dt` enters.  The quotient's numerator scale
/// `8388608` is `TAP_ONE * 256`; its denominator scale `13172736` is
/// `SIN_ONE` times the circle constant in Q8.
pub open spec fn spec_tap_base(fc: int, npfb: int, dt: int) -> int
    recommends
        1 <= fc < 32768,
        1 <= npfb,
{
    if dt == 0 {
        2 * fc * 32768 / 65536
    } else {
        let adt = if dt < 0 {
            -dt
        } else {
            dt
        };
        let angle = fc * adt / npfb;
        let s = spec_sin_turns(angle);
        spec_tdiv(s * npfb * 8388608, 13172736 * adt)
    }
}

/// Windowed, clamped prototype tap at position `t` of the `2*m*npfb`-long
/// prototype filter, in Q15 units.
pub open spec fn spec_tap(fc: int, m: int, npfb: int, t: int) -> int
    recommends
        1 <= fc < 32768,
        1 <= m,
        1 <= npfb,
        0 <= t < 2 * m * npfb,
{
    let dt = t - m * npfb;
    let base = spec_tap_base(fc, npfb, dt);
    let w = spec_window(t, 2 * m * npfb - 1);
    spec_clamp_tap(spec_tdiv(base * w, 32768))
}

/// Tap `i` of the flattened filter bank.  Sub-filter `b` holds positions
/// `b * 2 * m .. (b + 1) * 2 * m`, and its tap `j` is prototype position
/// `j * npfb + b`: the polyphase decomposition of the prototype.
pub open spec fn spec_bank_tap(fc: int, m: int, npfb: int, i: int) -> int
    recommends
        1 <= fc < 32768,
        1 <= m,
        1 <= npfb,
        0 <= i < npfb * 2 * m,
{
    let wlen = 2 * m;
    let b = i / wlen;
    let j = i % wlen;
    spec_tap(fc, m, npfb, j * npfb + b)
}

/// Default cutoff for a given rate (Q20): half the output rate, capped at
/// 0.49 of the input rate, and kept strictly positive, in Q16 units.
pub open spec fn spec_default_fc(rate: int) -> int {
    let half = rate / 32;
    let capped = if half > 32112 {
        32112
    } else {
        half
    };
    if capped < 1 {
        1
    } else {
        capped
    }
}

/// Quotients respect strict upper bounds: a nonnegative dividend below
/// `n * d` divides by `d` to below `n`.
pub proof fn lemma_div_below(x: int, n: int, d: int)
    requires
        0 <= x,
        0 < d,
        x < n * d,
    ensures
        x / d < n,
{
    lemma_fundamental_div_mod(x, d);
    lemma_mod_pos_bound(x, d);
    if x / d >= n {
        lemma_mul_inequality(n, x / d, d);
        lemma_mul_is_commutative(x / d, d);
        assert(false);
    }
}

/// A quotient is characterized by the ceiling inequalities: if `q * d`
/// reaches `a` but not `a + d`, then `q` is the rounded-up quotient
/// `(a + d - 1) / d`.
pub proof fn lemma_ceil_div_unique(a: int, d: int, q: int)
    requires
        0 < d,
        0 <= a,
        0 <= q,
        a <= q * d,
        q * d < a + d,
    ensures
        q == (a + d - 1) / d,
{
    let r: int = a + d - 1 - q * d;
    lemma_fundamental_div_mod_converse(a + d - 1, d, q, r);
}

/// Dividends bounded by `b * d` in magnitude divide (truncating) to
/// quotients bounded by `b`.
pub proof fn lemma_tdiv_bound(a: int, d: int, b: int)
    requires
        0 < d,
        0 <= b,
        -(b * d) <= a <= b * d,
    ensures
        -b <= spec_tdiv(a, d) <= b,
{
    if a >= 0 {
        lemma_div_pos_is_pos(a, d);
        lemma_div_is_ordered(a, b * d, d);
        lemma_div_by_multiple(b, d);
    } else {
        lemma_div_pos_is_pos(-a, d);
        lemma_div_is_ordered(-a, b * d, d);
        lemma_div_by_multiple(b, d);
    }
}

pub(crate) fn tdiv64(a: i64, d: i64) -> (r: i64)
    requires
        d > 0,
        a > i64::MIN,
    ensures
        r as int == spec_tdiv(a as int, d as int),
        a >= 0 ==> 0 <= r <= a,
        a < 0 ==> a <= r <= 0,
{
    if a >= 0 {
        let q: u64 = (a as u64) / (d as u64);
        proof {
            let ai: int = a as int;
            let di: int = d as int;
            lemma_fundamental_div_mod(ai, di);
            lemma_mod_pos_bound(ai, di);
            lemma_div_pos_is_pos(ai, di);
            lemma_mul_inequality(1, di, ai / di);
        }
        q as i64
    } else {
        let p: u64 = ((-a) as u64) / (d as u64);
        proof {
            let ai: int = (-a) as int;
            let di: int = d as int;
            lemma_fundamental_div_mod(ai, di);
            lemma_mod_pos_bound(ai, di);
            lemma_div_pos_is_pos(ai, di);
            lemma_mul_inequality(1, di, ai / di);
        }
        -(p as i64)
    }
}

pub(crate) fn sat32(q: i64) -> (r: i32)
    ensures
        r as int == spec_sat32(q as int),
{
    if q > 2147483647 {
        2147483647
    } else if q < -2147483648 {
        -2147483648i32
    } else {
        q as i32
    }
}

fn clamp_tap(v: i64) -> (r: i64)
    ensures
        r as int == spec_clamp_tap(v as int),
        -32767 <= r <= 32767,
{
    if v > 32767 {
        32767
    } else if v < -32767 {
        -32767
    } else {
        v
    }
}

fn sin_turns(t: u64) -> (r: i64)
    ensures
        r as int == spec_sin_turns(t as int),
        -16384 <= r <= 16384,
{
    let t16: u64 = t % 65536;
    let quad: u64 = t16 / 16384;
    let z: u64 = t16 % 16384;
    let zz: u64 = if quad == 1 || quad == 3 {
        16384 - z
    } else {
        z
    };
    assert(zz * zz <= 16384 * 16384) by (nonlinear_arith)
        requires
            zz <= 16384;
    let z2: u64 = zz * zz / 16384;
    proof {
        lemma_div_is_ordered((zz * zz) as int, 16384int * 16384, 16384);
    }
    assert(z2 * zz <= 16384 * zz) by (nonlinear_arith)
        requires
            z2 <= 16384;
    let z3: u64 = z2 * zz / 16384;
    proof {
        lemma_div_is_ordered((z2 * zz) as int, (16384 * zz) as int, 16384);
        lemma_div_multiples_vanish(zz as int, 16384);
    }
    assert(z3 <= zz);
    let s: u64 = (3 * zz - z3) / 2;
    let mag: u64 = if s > 16384 {
        16384
    } else {
        s
    };
    assert(mag as int == spec_sin_quarter(zz as int));
    if quad >= 2 {
        -(mag as i64)
    } else {
        mag as i64
    }
}

fn cos_turns(t: u64) -> (r: i64)
    requires
        t + 16384 <= u64::MAX,
    ensures
        r as int == spec_cos_turns(t as int),
        -16384 <= r <= 16384,
{
    sin_turns(t + 16384)
}

fn window_at(t: u64, last: u64) -> (r: i64)
    requires
        1 <= last,
        t <= last,
        last <= 4194304,
    ensures
        r as int == spec_window(t as int, last as int),
        1 <= r <= 32767,
{
    proof {
        lemma_mul_inequality(t as int, last as int, 65536);
        lemma_div_is_ordered((t * 65536) as int, (last as int) * 65536, last as int);
        lemma_div_multiples_vanish(65536, last as int);
        lemma_div_pos_is_pos((t * 65536) as int, last as int);
    }
    let angle: u64 = t * 65536 / last;
    let c: i64 = cos_turns(angle);
    let scaled: i64 = tdiv64(15072 * c, 16384);
    proof {
        lemma_tdiv_bound((15072 * c) as int, 16384, 15072);
    }
    17695 - scaled
}

fn tap_base(fc: u64, npfb: u64, t: u64, center: u64) -> (r: i64)
    requires
        1 <= fc < 32768,
        1 <= npfb <= NPFB_MAX,
        1 <= center <= 1048576,
        t <= 2 * center,
    ensures
        r as int == spec_tap_base(fc as int, npfb as int, t as int - center as int),
        -140737488355328 <= r <= 140737488355328,
{
    if t == center {
        let v: u64 = 2 * fc * 32768 / 65536;
        proof {
            lemma_div_is_ordered((2 * fc * 32768) as int, 2int * 32767 * 32768, 65536);
            lemma_div_pos_is_pos((2 * fc * 32768) as int, 65536);
        }
        v as i64
    } else {
        let adt: u64 = if t > center {
            t - center
        } else {
            center - t
        };
        assert(1 <= adt && adt <= 1048576);
        proof {
            lemma_mul_upper_bound(fc as int, 32768, adt as int, 1048576);
        }
        let angle: u64 = fc * adt / npfb;
        let s: i64 = sin_turns(angle);
        assert(-16777216 <= s * (npfb as i64) && s * (npfb as i64) <= 16777216)
            by (nonlinear_arith)
            requires
                -16384 <= s <= 16384,
                1 <= npfb <= 1024;
        let num: i64 = s * (npfb as i64) * 8388608;
        let den: i64 = 13172736 * (adt as i64);
        tdiv64(num, den)
    }
}

/// Tap `t` of the prototype filter for cutoff `fc` (Q16), semi-length `m`
/// and bank size `npfb`, exactly as `spec_tap` states it.
fn tap_at(fc: u64, m: u64, npfb: u64, t: u64) -> (r: i64)
    requires
        1 <= fc < 32768,
        1 <= m <= M_MAX,
        1 <= npfb <= NPFB_MAX,
        t < 2 * m * npfb,
    ensures
        r as int == spec_tap(fc as int, m as int, npfb as int, t as int),
        -32767 <= r <= 32767,
{
    proof {
        lemma_mul_upper_bound(m as int, 1024, npfb as int, 1024);
        assert(1 <= (m as int) * (npfb as int) && 2 * (m as int) * (npfb as int) == 2 * (
        (m as int) * (npfb as int))) by (nonlinear_arith)
            requires
                1 <= m,
                1 <= npfb;
    }
    let center: u64 = m * npfb;
    assert(2 * m * npfb == 2 * center && t <= 2 * center);
    let base: i64 = tap_base(fc, npfb, t, center);
    let w: i64 = window_at(t, 2 * m * npfb - 1);
    assert(-140737488355328 * 32767 <= base * w && base * w <= 140737488355328 * 32767)
        by (nonlinear_arith)
        requires
            -140737488355328 <= base <= 140737488355328,
            1 <= w <= 32767;
    clamp_tap(tdiv64(base * w, 32768))
}

/// Tap `i` of the flattened filter bank, exactly as `spec_bank_tap`
/// states it.
pub fn bank_tap_at(fc: u64, m: u64, npfb: u64, i: u64) -> (r: i64)
    requires
        1 <= fc < 32768,
        1 <= m <= M_MAX,
        1 <= npfb <= NPFB_MAX,
        i < npfb * 2 * m,
    ensures
        r as int == spec_bank_tap(fc as int, m as int, npfb as int, i as int),
        -32767 <= r <= 32767,
{
    let wlen: u64 = 2 * m;
    assert((npfb as int) * (wlen as int) == npfb * 2 * m) by (nonlinear_arith)
        requires
            wlen == 2 * m;
    let b: u64 = i / wlen;
    let j: u64 = i % wlen;
    proof {
        lemma_div_below(i as int, npfb as int, wlen as int);
        lemma_div_pos_is_pos(i as int, wlen as int);
    }
    assert(j * npfb + b < 2 * m * npfb && j * npfb + b <= 4194304) by (nonlinear_arith)
        requires
            j < wlen,
            wlen == 2 * m,
            b < npfb,
            1 <= m <= 1024,
            1 <= npfb <= 1024;
    let tpos: u64 = j * npfb + b;
    tap_at(fc, m, npfb, tpos)
}

/// Default cutoff for a rate, exactly as `spec_default_fc` states it.
pub fn default_fc(rate: u64) -> (r: u64)
    ensures
        r as int == spec_default_fc(rate as int),
        1 <= r <= 32112,
{
    let half: u64 = rate / 32;
    let capped: u64 = if half > 32112 {
        32112
    } else {
        half
    };
    if capped < 1 {
        1
    } else {
        capped
    }
}

} // verus!
