//! The arbitrary-rate polyphase resampler.
//!
//! A [`Resamp`] owns a bank of `npfb` FIR sub-filters of `2 * m` taps each,
//! all drawn from one windowed-sinc prototype, a history window of the last
//! `2 * m` input samples, and a fractional phase accumulator.  Feeding it one
//! input sample advances the accumulator by one whole `RATE_ONE` step of
//! input time and emits one output sample for every `RATE_ONE / rate` of
//! that step the accumulator crosses, each output convolving the history
//! with the sub-filter nearest its fractional position.
//!
//! The whole behaviour is pinned to a small mathematical model: a
//! [`ResampView`] is the abstract state, [`step_view`] and [`step_outs`] say
//! how one input sample transforms it and what it emits, and [`block_view`]
//! and [`block_outs`] iterate them over an input sequence.  Every method's
//! contract speaks only in terms of this model.

use vstd::prelude::*;
use vstd::pervasive::VecAdditionalExecFns;
use vstd::arithmetic::div_mod::lemma_div_pos_is_pos;
use vstd::arithmetic::mul::{lemma_mul_is_commutative, lemma_mul_strict_inequality};
use crate::error::ErrorKind;
use crate::fixed::{
    bank_tap_at, default_fc, lemma_ceil_div_unique, lemma_div_below, spec_bank_tap,
    spec_default_fc, spec_sat32, spec_tdiv, FC_HALF, M_MAX, NPFB_MAX, RATE_MAX, RATE_ONE,
};

verus! {

/// A complex sample: a pair of fixed-point real values.  A real stream
/// uses the real part and keeps the imaginary part at zero.
#[derive(Clone, Copy, Debug, PartialEq, Eq, Structural)]
pub struct Cplx {
    pub re: i32,
    pub im: i32,
}

impl View for Cplx {
    type V = (int, int);

    open spec fn view(&self) -> (int, int) {
        (self.re as int, self.im as int)
    }
}

/// The pair view of a whole sample sequence.
pub open spec fn cseq(s: Seq<Cplx>) -> Seq<(int, int)> {
    Seq::new(s.len(), |i: int| s[i]@)
}

/// The abstract state of a resampler: its rate (Q20), bank geometry, the
/// flattened bank taps (Q15), the history window (newest sample first) and
/// the phase accumulator, a deficit in `[0, RATE_ONE)` measuring how far
/// the next output lies beyond the input consumed so far.
#[verifier::ext_equal]
pub struct ResampView {
    pub rate: int,
    pub npfb: int,
    pub wlen: int,
    pub taps: Seq<int>,
    pub hist: Seq<(int, int)>,
    pub phase: int,
}

/// Well-formedness of an abstract resampler state.
pub open spec fn wf_view(v: ResampView) -> bool {
    &&& 1 <= v.rate <= RATE_MAX
    &&& 1 <= v.npfb <= NPFB_MAX
    &&& 2 <= v.wlen <= 2 * M_MAX
    &&& v.taps.len() == v.npfb * v.wlen
    &&& forall|i: int| 0 <= i < v.taps.len() ==> -32767 <= #[trigger] v.taps[i] <= 32767
    &&& v.hist.len() == v.wlen
    &&& 0 <= v.phase < RATE_ONE
}

/// Most output samples a single input sample can ever yield: the rate,
/// rounded up to whole output slots.
pub open spec fn out_cap(v: ResampView) -> int {
    (v.rate + RATE_ONE - 1) / (RATE_ONE as int)
}

/// How many output samples the next input sample yields: one for each
/// whole `RATE_ONE` step the replenished accumulator spans.
pub open spec fn emit_count(v: ResampView) -> int {
    if v.phase < v.rate {
        (v.rate - v.phase + RATE_ONE - 1) / (RATE_ONE as int)
    } else {
        0
    }
}

/// The history window after an input sample arrives: the new sample in
/// front, the oldest dropped off the back.
pub open spec fn pushed_hist(v: ResampView, x: (int, int)) -> Seq<(int, int)> {
    seq![x] + v.hist.drop_last()
}

/// Which sub-filter serves the output at accumulator position `ph`: the
/// bank index nearest the output's fractional position between inputs.
pub open spec fn branch_of(v: ResampView, ph: int) -> int {
    v.npfb * ph / v.rate
}

/// Real part of the convolution of sub-filter taps `taps[off..off + k]`
/// with the first `k` history samples.
pub open spec fn dot_re(taps: Seq<int>, off: int, hist: Seq<(int, int)>, k: int) -> int
    decreases k,
{
    if k <= 0 {
        0
    } else {
        dot_re(taps, off, hist, k - 1) + taps[off + k - 1] * hist[k - 1].0
    }
}

/// Imaginary part of the convolution of sub-filter taps
/// `taps[off..off + k]` with the first `k` history samples.
pub open spec fn dot_im(taps: Seq<int>, off: int, hist: Seq<(int, int)>, k: int) -> int
    decreases k,
{
    if k <= 0 {
        0
    } else {
        dot_im(taps, off, hist, k - 1) + taps[off + k - 1] * hist[k - 1].1
    }
}

/// The `j`-th output sample an input yields: the history window `h`
/// convolved with the sub-filter at the output's accumulator position,
/// rescaled from the Q15 tap scale and saturated into sample range.
pub open spec fn out_sample(v: ResampView, h: Seq<(int, int)>, j: int) -> (int, int) {
    let b = branch_of(v, v.phase + j * (RATE_ONE as int));
    (
        spec_sat32(spec_tdiv(dot_re(v.taps, b * v.wlen, h, v.wlen), 32768)),
        spec_sat32(spec_tdiv(dot_im(v.taps, b * v.wlen, h, v.wlen), 32768)),
    )
}

/// All output samples one input sample `x` yields in state `v`, in order.
pub open spec fn step_outs(v: ResampView, x: (int, int)) -> Seq<(int, int)> {
    Seq::new(emit_count(v) as nat, |j: int| out_sample(v, pushed_hist(v, x), j))
}

/// The state after one input sample `x`: history shifted, accumulator
/// advanced by the emitted whole steps less the rate it accrued.
pub open spec fn step_view(v: ResampView, x: (int, int)) -> ResampView {
    ResampView {
        hist: pushed_hist(v, x),
        phase: v.phase + emit_count(v) * (RATE_ONE as int) - v.rate,
        ..v
    }
}

/// All output samples an input sequence yields, in order.
pub open spec fn block_outs(v: ResampView, xs: Seq<(int, int)>) -> Seq<(int, int)>
    decreases xs.len(),
{
    if xs.len() == 0 {
        Seq::empty()
    } else {
        step_outs(v, xs[0]) + block_outs(step_view(v, xs[0]), xs.skip(1))
    }
}

/// The state after an input sequence.
pub open spec fn block_view(v: ResampView, xs: Seq<(int, int)>) -> ResampView
    decreases xs.len(),
{
    if xs.len() == 0 {
        v
    } else {
        block_view(step_view(v, xs[0]), xs.skip(1))
    }
}

/// Most output samples `n` input samples can ever yield: `n` times the
/// rate, rounded up to whole output slots.
pub open spec fn block_cap(v: ResampView, n: int) -> int {
    (n * v.rate + RATE_ONE - 1) / (RATE_ONE as int)
}

/// The bounds construction demands of its parameters: a positive rate,
/// semi-length and bank size within machine limits, a cutoff strictly
/// between zero and half the input rate, and a positive attenuation.
pub open spec fn valid_params(rate: u64, m: u64, fc: u64, sa: u64, npfb: u64) -> bool {
    &&& 1 <= rate <= RATE_MAX
    &&& 1 <= m <= M_MAX
    &&& 1 <= fc < FC_HALF
    &&& 1 <= sa
    &&& 1 <= npfb <= NPFB_MAX
}

/// The state a fresh resampler starts in: the polyphase bank of the
/// designed prototype, an all-zero history, and an empty accumulator.
pub open spec fn fresh_view(rate: int, m: int, fc: int, npfb: int) -> ResampView {
    ResampView {
        rate: rate,
        npfb: npfb,
        wlen: 2 * m,
        taps: Seq::new((npfb * 2 * m) as nat, |i: int| spec_bank_tap(fc, m, npfb, i)),
        hist: Seq::new((2 * m) as nat, |i: int| (0int, 0int)),
        phase: 0,
    }
}

/// An arbitrary-rate polyphase resampler over fixed-point samples.
#[derive(Debug)]
pub struct Resamp {
    rate: u64,
    npfb: usize,
    wlen: usize,
    taps: Vec<i64>,
    buf: Vec<Cplx>,
    phase: u64,
}

impl View for Resamp {
    type V = ResampView;

    closed spec fn view(&self) -> ResampView {
        ResampView {
            rate: self.rate as int,
            npfb: self.npfb as int,
            wlen: self.wlen as int,
            taps: Seq::new(self.taps@.len(), |i: int| self.taps@[i] as int),
            hist: Seq::new(self.buf@.len(), |i: int| self.buf@[i]@),
            phase: self.phase as int,
        }
    }
}

impl Resamp {
    /// Well-formedness: the concrete state projects to a well-formed
    /// abstract state.
    pub open spec fn wf(&self) -> bool {
        wf_view(self@)
    }

    /// Creates a resampler from an explicit filter prototype: rate in
    /// `RATE_ONE` units, semi-length `m`, cutoff `fc` in `FC_ONE` units,
    /// stop-band attenuation `sa` in whole dB, and bank size `npfb`.
    ///
    /// Succeeds exactly on parameters within bounds, and then yields the
    /// fresh state of `fresh_view`; any out-of-bound parameter is refused
    /// with a `Config` error.  The window kernel is the Hamming window, so
    /// `sa` is validated for range but does not reshape the prototype.
    pub fn create(rate: u64, m: u64, fc: u64, sa: u64, npfb: u64) -> (r: Result<Resamp, ErrorKind>)
        ensures
            r is Ok <==> valid_params(rate, m, fc, sa, npfb),
            r matches Ok(q) ==> q.wf() && q@ == fresh_view(
                rate as int,
                m as int,
                fc as int,
                npfb as int,
            ),
            r matches Err(e) ==> e == ErrorKind::Config,
    {
        if rate < 1 || rate > RATE_MAX || m < 1 || m > M_MAX || fc < 1 || fc >= FC_HALF || sa < 1
            || npfb < 1 || npfb > NPFB_MAX {
            return Err(ErrorKind::Config);
        }
        let wlen: u64 = 2 * m;
        assert((npfb as int) * (wlen as int) == npfb * 2 * m && npfb * 2 * m <= 2097152)
            by (nonlinear_arith)
            requires
                wlen == 2 * m,
                1 <= m <= 1024,
                1 <= npfb <= 1024;
        let total: u64 = npfb * wlen;
        let mut taps: Vec<i64> = Vec::new();
        let mut i: u64 = 0;
        while i < total
            invariant
                i <= total,
                total == npfb * 2 * m,
                1 <= rate <= RATE_MAX,
                1 <= m <= M_MAX,
                1 <= fc < FC_HALF,
                1 <= npfb <= NPFB_MAX,
                taps@.len() == i,
                forall|k: int|
                    0 <= k < i ==> #[trigger] taps@[k] as int == spec_bank_tap(
                        fc as int,
                        m as int,
                        npfb as int,
                        k,
                    ),
                forall|k: int| 0 <= k < i ==> -32767 <= #[trigger] taps@[k] <= 32767,
            decreases total - i,
        {
            let tv: i64 = bank_tap_at(fc, m, npfb, i);
            taps.push(tv);
            i = i + 1;
        }
        let mut buf: Vec<Cplx> = Vec::new();
        let mut j: u64 = 0;
        while j < wlen
            invariant
                j <= wlen,
                buf@.len() == j,
                forall|k: int| 0 <= k < j ==> #[trigger] buf@[k] == (Cplx { re: 0, im: 0 }),
            decreases wlen - j,
        {
            buf.push(Cplx { re: 0, im: 0 });
            j = j + 1;
        }
        let q = Resamp {
            rate,
            npfb: npfb as usize,
            wlen: wlen as usize,
            taps,
            buf,
            phase: 0,
        };
        proof {
            let fv = fresh_view(rate as int, m as int, fc as int, npfb as int);
            assert(q@.taps =~= fv.taps);
            assert(q@.hist =~= fv.hist);
            assert(q@ =~= fv);
        }
        Ok(q)
    }

    /// Creates a resampler with the default prototype: semi-length 7, a
    /// cutoff of half the output rate capped at 0.49 of the input rate,
    /// 60 dB attenuation, and a bank of 64 sub-filters.
    ///
    /// Succeeds exactly on rates within bounds; others are refused with a
    /// `Config` error.
    pub fn create_default(rate: u64) -> (r: Result<Resamp, ErrorKind>)
        ensures
            r is Ok <==> 1 <= rate <= RATE_MAX,
            r matches Ok(q) ==> q.wf() && q@ == fresh_view(
                rate as int,
                7,
                spec_default_fc(rate as int),
                64,
            ),
            r matches Err(e) ==> e == ErrorKind::Config,
    {
        if rate < 1 || rate > RATE_MAX {
            return Err(ErrorKind::Config);
        }
        let fc: u64 = default_fc(rate);
        Resamp::create(rate, 7, fc, 60, 64)
    }

    /// The configured resampling rate, in `RATE_ONE` units per input
    /// sample; phase state never changes it.
    pub fn rate(&self) -> (r: u64)
        ensures
            r as int == self@.rate,
    {
        self.rate
    }

    /// An independent deep copy: same bank, same history, same phase, and
    /// therefore the same output as the original for the same future input.
    pub fn copy(&self) -> (r: Resamp)
        requires
            self.wf(),
        ensures
            r.wf(),
            r@ == self@,
    {
        let mut taps: Vec<i64> = Vec::new();
        let mut i: usize = 0;
        while i < self.taps.len()
            invariant
                i <= self.taps@.len(),
                taps@.len() == i,
                forall|k: int| 0 <= k < i ==> #[trigger] taps@[k] == self.taps@[k],
            decreases self.taps@.len() - i,
        {
            taps.push(self.taps[i]);
            i = i + 1;
        }
        let mut buf: Vec<Cplx> = Vec::new();
        let mut j: usize = 0;
        while j < self.buf.len()
            invariant
                j <= self.buf@.len(),
                buf@.len() == j,
                forall|k: int| 0 <= k < j ==> #[trigger] buf@[k] == self.buf@[k],
            decreases self.buf@.len() - j,
        {
            buf.push(self.buf[j]);
            j = j + 1;
        }
        let r = Resamp {
            rate: self.rate,
            npfb: self.npfb,
            wlen: self.wlen,
            taps,
            buf,
            phase: self.phase,
        };
        proof {
            assert(r@.taps =~= self@.taps);
            assert(r@.hist =~= self@.hist);
            assert(r@ =~= self@);
        }
        r
    }

    /// Shifts `x` into the history window and writes the output samples it
    /// triggers at `y[off..]`, leaving the rest of `y` untouched.
    fn emit_one(&mut self, x: Cplx, y: &mut Vec<Cplx>, off: usize) -> (n: usize)
        requires
            old(self).wf(),
            off + step_outs(old(self)@, x@).len() <= old(y)@.len(),
        ensures
            final(self).wf(),
            final(self)@ == step_view(old(self)@, x@),
            n as int == step_outs(old(self)@, x@).len(),
            final(y)@.len() == old(y)@.len(),
            forall|k: int|
                off <= k < off + n ==> (#[trigger] final(y)@[k])@ == step_outs(old(self)@, x@)[k
                    - off],
            forall|k: int|
                0 <= k < old(y)@.len() && !(off <= k < off + n) ==> #[trigger] final(y)@[k] == old(
                    y,
                )@[k],
    {
        let ghost v0: ResampView = self@;
        let ghost y0: Seq<Cplx> = y@;
        let ghost b0: Seq<Cplx> = self.buf@;
        proof {
            crate::laws::lemma_emit_count(v0);
        }
        self.buf.insert(0, x);
        self.buf.pop();
        let ghost vs: ResampView = self@;
        proof {
            b0.insert_ensures(0, x);
            assert forall|i: int| 0 <= i < vs.hist.len() implies vs.hist[i] == pushed_hist(
                v0,
                x@,
            )[i] by {
                if i == 0 {
                    assert(b0.insert(0, x)[0] == x);
                } else {
                    assert(b0.insert(0, x)[(i - 1) + 1] == b0[i - 1]);
                }
            }
            assert(vs.hist =~= pushed_hist(v0, x@));
            assert(vs =~= (ResampView { hist: pushed_hist(v0, x@), ..v0 }));
        }
        let ylen: usize = y.len();
        let rate_c: u64 = self.rate;
        let wlen_c: usize = self.wlen;
        let mut ph: u64 = self.phase;
        let mut n: usize = 0;
        while ph < rate_c
            invariant
                self@ == vs,
                vs == (ResampView { hist: pushed_hist(v0, x@), ..v0 }),
                wf_view(v0),
                wf_view(vs),
                rate_c == v0.rate,
                wlen_c == v0.wlen,
                n as int <= emit_count(v0),
                emit_count(v0) <= out_cap(v0),
                ph as int == v0.phase + n as int * (RATE_ONE as int),
                ph < v0.rate + RATE_ONE,
                ylen == y@.len(),
                off + step_outs(v0, x@).len() <= ylen,
                step_outs(v0, x@).len() == emit_count(v0),
                forall|k: int|
                    off <= k < off + n ==> (#[trigger] y@[k])@ == step_outs(v0, x@)[k - off],
                forall|k: int|
                    0 <= k < ylen && !(off <= k < off + n) ==> #[trigger] y@[k] == y0[k],
            decreases v0.rate + RATE_ONE - ph,
        {
            proof {
                crate::laws::lemma_emit_count(v0);
                assert((n as int) < emit_count(v0));
            }
            assert((self.npfb as u64) * ph <= 1024 * 4294967296) by (nonlinear_arith)
                requires
                    self.npfb <= 1024,
                    ph <= 4294967296;
            let b: usize = (((self.npfb as u64) * ph) / rate_c) as usize;
            proof {
                let np: int = v0.npfb;
                let phi: int = ph as int;
                let ra: int = v0.rate;
                lemma_mul_strict_inequality(phi, ra, np);
                lemma_mul_is_commutative(phi, np);
                lemma_mul_is_commutative(ra, np);
                lemma_div_below(np * phi, np, ra);
                lemma_div_pos_is_pos(np * phi, ra);
            }
            assert((b as int) * vs.wlen + vs.wlen <= vs.npfb * vs.wlen && (b as int) * vs.wlen
                <= 2097152) by (nonlinear_arith)
                requires
                    0 <= (b as int) < vs.npfb,
                    2 <= vs.wlen <= 2048,
                    vs.npfb <= 1024;
            let base: usize = b * wlen_c;
            let tlen: usize = self.taps.len();
            let mut are: i64 = 0;
            let mut aim: i64 = 0;
            let mut j: usize = 0;
            while j < wlen_c
                invariant
                    self@ == vs,
                    wf_view(vs),
                    j <= wlen_c,
                    wlen_c == vs.wlen,
                    base as int == (b as int) * vs.wlen,
                    tlen == self.taps@.len(),
                    base + wlen_c <= tlen,
                    are as int == dot_re(vs.taps, base as int, vs.hist, j as int),
                    aim as int == dot_im(vs.taps, base as int, vs.hist, j as int),
                    -((j as int) * 70368744177664) <= are as int <= (j as int) * 70368744177664,
                    -((j as int) * 70368744177664) <= aim as int <= (j as int) * 70368744177664,
                decreases wlen_c - j,
            {
                let t: i64 = self.taps[base + j];
                let c: Cplx = self.buf[j];
                proof {
                    assert(vs.taps[base + j] == t as int);
                    assert(-32767 <= t <= 32767);
                    assert(vs.hist[j as int] == (c.re as int, c.im as int));
                    assert(-70368744177664 <= (t as int) * (c.re as int) <= 70368744177664)
                        by (nonlinear_arith)
                        requires
                            -32767 <= t as int <= 32767,
                            -2147483648 <= c.re as int <= 2147483647;
                    assert(-70368744177664 <= (t as int) * (c.im as int) <= 70368744177664)
                        by (nonlinear_arith)
                        requires
                            -32767 <= t as int <= 32767,
                            -2147483648 <= c.im as int <= 2147483647;
                }
                are = are + t * (c.re as i64);
                aim = aim + t * (c.im as i64);
                j = j + 1;
            }
            let ore: i32 = crate::fixed::sat32(crate::fixed::tdiv64(are, 32768));
            let oim: i32 = crate::fixed::sat32(crate::fixed::tdiv64(aim, 32768));
            let out = Cplx { re: ore, im: oim };
            proof {
                assert(v0.phase + (n as int) * (RATE_ONE as int) == ph as int);
                assert(branch_of(v0, ph as int) == b as int);
                assert(out@ == out_sample(v0, vs.hist, n as int));
                assert(step_outs(v0, x@)[n as int] == out_sample(v0, pushed_hist(v0, x@), n as int));
            }
            y.set(off + n, out);
            ph = ph + RATE_ONE;
            n = n + 1;
        }
        proof {
            crate::laws::lemma_emit_count(v0);
            if v0.phase < v0.rate {
                lemma_ceil_div_unique(v0.rate - v0.phase, RATE_ONE as int, n as int);
            }
            assert(n as int == emit_count(v0));
        }
        self.phase = ph - rate_c;
        proof {
            assert(self@ =~= step_view(v0, x@));
            crate::laws::lemma_step_properties(v0, x@);
        }
        n
    }

    /// Feeds one input sample and writes the output samples it yields into
    /// the front of `y`, returning how many were written — at most
    /// `out_cap`, the rate rounded up.
    ///
    /// Succeeds exactly when `y` has at least `out_cap` slots; a smaller
    /// buffer is refused with a `Range` error before anything changes.
    /// On success the written prefix is exactly the model's single-step
    /// output, the rest of `y` is untouched, and the state advances to the
    /// model's single-step successor.
    pub fn execute(&mut self, x: Cplx, y: &mut Vec<Cplx>) -> (r: Result<usize, ErrorKind>)
        requires
            old(self).wf(),
        ensures
            final(self).wf(),
            r is Ok <==> old(y)@.len() >= out_cap(old(self)@),
            r matches Ok(n) ==> ({
                &&& n as int == step_outs(old(self)@, x@).len()
                &&& n as int <= out_cap(old(self)@)
                &&& final(y)@.len() == old(y)@.len()
                &&& cseq(final(y)@).subrange(0, n as int) == step_outs(old(self)@, x@)
                &&& final(y)@.skip(n as int) == old(y)@.skip(n as int)
                &&& final(self)@ == step_view(old(self)@, x@)
            }),
            r matches Err(e) ==> ({
                &&& e == ErrorKind::Range
                &&& final(self)@ == old(self)@
                &&& final(y)@ == old(y)@
            }),
    {
        let cap: u64 = (self.rate + RATE_ONE - 1) / RATE_ONE;
        if (y.len() as u64) < cap {
            return Err(ErrorKind::Range);
        }
        proof {
            crate::laws::lemma_emit_count(self@);
            crate::laws::lemma_step_properties(self@, x@);
        }
        let n = self.emit_one(x, y, 0);
        proof {
            assert(cseq(y@).subrange(0, n as int) =~= step_outs(old(self)@, x@));
            assert(y@.skip(n as int) =~= old(y)@.skip(n as int));
        }
        Ok(n)
    }

    /// Feeds a block of input samples and writes all output samples they
    /// yield into the front of `y`, returning how many were written — at
    /// most `block_cap`, the rate times the input count rounded up.
    ///
    /// Succeeds exactly when `y` has at least `block_cap` slots; a smaller
    /// buffer is refused with a `Range` error before anything changes.
    /// On success the written prefix is exactly the model's output for the
    /// whole input sequence — bit for bit what feeding the samples one at
    /// a time would produce — the rest of `y` is untouched, and the state
    /// advances to the model's successor for the whole sequence.
    pub fn execute_block(&mut self, x: &Vec<Cplx>, y: &mut Vec<Cplx>) -> (r: Result<
        usize,
        ErrorKind,
    >)
        requires
            old(self).wf(),
        ensures
            final(self).wf(),
            r is Ok <==> old(y)@.len() >= block_cap(old(self)@, x@.len() as int),
            r matches Ok(n) ==> ({
                &&& n as int == block_outs(old(self)@, cseq(x@)).len()
                &&& n as int <= block_cap(old(self)@, x@.len() as int)
                &&& final(y)@.len() == old(y)@.len()
                &&& cseq(final(y)@).subrange(0, n as int) == block_outs(old(self)@, cseq(x@))
                &&& final(y)@.skip(n as int) == old(y)@.skip(n as int)
                &&& final(self)@ == block_view(old(self)@, cseq(x@))
            }),
            r matches Err(e) ==> ({
                &&& e == ErrorKind::Range
                &&& final(self)@ == old(self)@
                &&& final(y)@ == old(y)@
            }),
    {
        let nx: usize = x.len();
        let ylen: usize = y.len();
        assert((nx as int) * (self@.rate) <= 79228162514264337593543950336) by (nonlinear_arith)
            requires
                0 <= nx as int <= 18446744073709551615,
                0 <= self@.rate <= 4294967296;
        let need: u128 = ((nx as u128) * (self.rate as u128) + ((RATE_ONE - 1) as u128)) / (
        RATE_ONE as u128);
        if (ylen as u128) < need {
            return Err(ErrorKind::Range);
        }
        let ghost v0: ResampView = self@;
        let ghost y0: Seq<Cplx> = y@;
        let ghost xs: Seq<(int, int)> = cseq(x@);
        proof {
            assert(xs.take(0) =~= Seq::<(int, int)>::empty());
        }
        let mut i: usize = 0;
        let mut total: usize = 0;
        while i < nx
            invariant
                i <= nx,
                nx == x@.len(),
                xs == cseq(x@),
                wf_view(v0),
                self@ == block_view(v0, xs.take(i as int)),
                wf_view(self@),
                self@.rate == v0.rate,
                total as int == block_outs(v0, xs.take(i as int)).len(),
                total as int <= block_cap(v0, nx as int),
                ylen as int >= block_cap(v0, nx as int),
                ylen == y@.len(),
                y0.len() == ylen,
                forall|k: int|
                    0 <= k < total ==> (#[trigger] y@[k])@ == block_outs(v0, xs.take(i as int))[k],
                forall|k: int| total <= k < ylen ==> #[trigger] y@[k] == y0[k],
            decreases nx - i,
        {
            let ghost vi: ResampView = self@;
            let ghost yprev: Seq<Cplx> = y@;
            let ghost prev: Seq<(int, int)> = block_outs(v0, xs.take(i as int));
            proof {
                crate::laws::lemma_block_capacity(v0, xs, i as int);
                crate::laws::lemma_step_properties(vi, xs[i as int]);
                assert(xs[i as int] == (x@[i as int])@);
            }
            let xi: Cplx = x[i];
            let k = self.emit_one(xi, y, total);
            proof {
                crate::laws::lemma_take_snoc(xs, i as int);
                crate::laws::lemma_block_extends(v0, xs.take(i as int), xs[i as int]);
                let cur: Seq<(int, int)> = block_outs(v0, xs.take(i as int + 1));
                assert(cur == prev + step_outs(vi, xi@));
                assert forall|kk: int| 0 <= kk < total + k implies (#[trigger] y@[kk])@ == cur[kk] by {
                    if kk < total {
                        assert(y@[kk] == yprev[kk]);
                        assert((yprev[kk])@ == prev[kk]);
                        assert(cur[kk] == prev[kk]);
                    } else {
                        assert((y@[kk])@ == step_outs(vi, xi@)[kk - total]);
                        assert(cur[kk] == step_outs(vi, xi@)[kk - total]);
                    }
                }
                assert forall|kk: int| total + k <= kk < ylen implies #[trigger] y@[kk] == y0[kk] by {
                    assert(y@[kk] == yprev[kk]);
                    assert(yprev[kk] == y0[kk]);
                }
            }
            total = total + k;
            i = i + 1;
        }
        proof {
            assert(xs.take(nx as int) =~= xs);
            assert(cseq(y@).subrange(0, total as int) =~= block_outs(v0, xs));
            assert(y@.skip(total as int) =~= y0.skip(total as int));
        }
        Ok(total)
    }
}

} // verus!
