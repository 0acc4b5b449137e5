//! Laws the resampler obeys, stated and proved over its abstract model.
//!
//! The model functions `step_view` / `step_outs` (one input sample) and
//! `block_view` / `block_outs` (an input sequence) from [`crate::resamp`]
//! carry the whole behaviour; the executable methods' contracts are stated
//! in terms of them.  The lemmas here pin down how the two levels relate:
//! block execution is iterated single-sample execution, the total output
//! count is the rate times the input count rounded up, and equal states
//! stay in lockstep under equal input.

use vstd::prelude::*;
use vstd::arithmetic::div_mod::{
    lemma_div_by_multiple, lemma_div_by_self, lemma_div_is_ordered, lemma_div_pos_is_pos,
    lemma_fundamental_div_mod, lemma_mod_pos_bound,
};
use vstd::arithmetic::mul::{lemma_mul_inequality, lemma_mul_is_commutative};
use crate::fixed::{lemma_ceil_div_unique, RATE_ONE};
use crate::resamp::{
    block_cap, block_outs, block_view, emit_count, out_cap, pushed_hist, step_outs, step_view,
    wf_view, ResampView,
};

verus! {

/// The output count one input sample triggers is never negative, never
/// exceeds the per-call bound `out_cap`, and when outputs are due it is
/// the accumulator's shortfall rounded up to whole `RATE_ONE` steps.
pub proof fn lemma_emit_count(v: ResampView)
    requires
        wf_view(v),
    ensures
        0 <= emit_count(v) <= out_cap(v),
        1 <= out_cap(v),
        v.phase < v.rate ==> v.rate - v.phase <= emit_count(v) * (RATE_ONE as int) < v.rate
            - v.phase + RATE_ONE,
        v.phase >= v.rate ==> emit_count(v) == 0,
        emit_count(v) * (RATE_ONE as int) <= v.rate - v.phase + RATE_ONE - 1,
{
    let d: int = RATE_ONE as int;
    lemma_div_pos_is_pos(v.rate + d - 1, d);
    lemma_div_is_ordered(d, v.rate + d - 1, d);
    lemma_div_by_self(d);
    if v.phase < v.rate {
        let a: int = v.rate - v.phase;
        let q: int = (a + d - 1) / d;
        lemma_fundamental_div_mod(a + d - 1, d);
        lemma_mod_pos_bound(a + d - 1, d);
        lemma_div_pos_is_pos(a + d - 1, d);
        lemma_mul_is_commutative(q, d);
        lemma_div_is_ordered(a + d - 1, v.rate + d - 1, d);
    }
}

/// One input sample leaves the rate, the bank and the window length
/// untouched, keeps the state well formed, emits exactly `emit_count`
/// output samples, and advances the accumulator by the emitted whole
/// steps less the rate it accrued.
pub proof fn lemma_step_properties(v: ResampView, x: (int, int))
    requires
        wf_view(v),
    ensures
        step_view(v, x).rate == v.rate,
        step_view(v, x).npfb == v.npfb,
        step_view(v, x).wlen == v.wlen,
        step_view(v, x).taps == v.taps,
        step_view(v, x).hist.len() == v.hist.len(),
        wf_view(step_view(v, x)),
        step_outs(v, x).len() == emit_count(v),
        step_view(v, x).phase == v.phase + emit_count(v) * (RATE_ONE as int) - v.rate,
{
    lemma_emit_count(v);
    assert(pushed_hist(v, x).len() == v.hist.len());
}

/// Taking one more element of a sequence appends exactly that element.
pub proof fn lemma_take_snoc(xs: Seq<(int, int)>, i: int)
    requires
        0 <= i < xs.len(),
    ensures
        xs.take(i + 1) == xs.take(i).push(xs[i]),
{
    assert(xs.take(i + 1) =~= xs.take(i).push(xs[i]));
}

/// Block execution is iterated single-sample execution: extending the
/// input sequence by one sample appends exactly that sample's single-step
/// outputs, and lands in that sample's single-step successor state.  So a
/// sequence of single-sample calls and one block call over the same input
/// produce identical output, sample for sample.
pub proof fn lemma_block_extends(v: ResampView, xs: Seq<(int, int)>, x: (int, int))
    ensures
        block_view(v, xs.push(x)) == step_view(block_view(v, xs), x),
        block_outs(v, xs.push(x)) == block_outs(v, xs) + step_outs(block_view(v, xs), x),
    decreases xs.len(),
{
    if xs.len() == 0 {
        let e = Seq::<(int, int)>::empty();
        assert(xs =~= e);
        assert(xs.push(x)[0] == x);
        assert(xs.push(x).skip(1) =~= e);
        assert(block_view(v, e) == v);
        assert(block_outs(v, e) =~= e);
        assert(block_outs(v, xs.push(x)) == step_outs(v, x) + block_outs(step_view(v, x), e));
        assert(block_view(v, xs.push(x)) == block_view(step_view(v, x), e));
        assert(step_outs(v, x) + e =~= step_outs(v, x));
        assert(e + step_outs(v, x) =~= step_outs(v, x));
    } else {
        let v1 = step_view(v, xs[0]);
        assert(xs.push(x)[0] == xs[0]);
        assert(xs.push(x).skip(1) =~= xs.skip(1).push(x));
        lemma_block_extends(v1, xs.skip(1), x);
        assert(block_view(v, xs) == block_view(v1, xs.skip(1)));
        assert(block_outs(v, xs) == step_outs(v, xs[0]) + block_outs(v1, xs.skip(1)));
        assert(block_view(v, xs.push(x)) == block_view(v1, xs.skip(1).push(x)));
        assert(block_outs(v, xs.push(x)) == step_outs(v, xs[0]) + block_outs(
            v1,
            xs.skip(1).push(x),
        ));
        let a = step_outs(v, xs[0]);
        let b = block_outs(v1, xs.skip(1));
        let c = step_outs(block_view(v, xs), x);
        assert(a + (b + c) =~= (a + b) + c);
    }
}

/// Over any input sequence the resampler stays well formed, its rate and
/// bank never change, and the emitted output count balances the books:
/// `total * RATE_ONE` equals the rate accrued over the inputs, corrected
/// by the change of the phase accumulator.
pub proof fn lemma_block_properties(v: ResampView, xs: Seq<(int, int)>)
    requires
        wf_view(v),
    ensures
        wf_view(block_view(v, xs)),
        block_view(v, xs).rate == v.rate,
        block_view(v, xs).npfb == v.npfb,
        block_view(v, xs).wlen == v.wlen,
        block_view(v, xs).taps == v.taps,
        block_outs(v, xs).len() * (RATE_ONE as int) == block_view(v, xs).phase - v.phase
            + xs.len() * v.rate,
    decreases xs.len(),
{
    if xs.len() == 0 {
    } else {
        let v1 = step_view(v, xs[0]);
        lemma_step_properties(v, xs[0]);
        lemma_block_properties(v1, xs.skip(1));
        let c0: int = step_outs(v, xs[0]).len() as int;
        let cr: int = block_outs(v1, xs.skip(1)).len() as int;
        assert((c0 + cr) * (RATE_ONE as int) == c0 * (RATE_ONE as int) + cr * (RATE_ONE as int))
            by (nonlinear_arith);
        assert(xs.skip(1).len() * v.rate + v.rate == xs.len() * v.rate) by (nonlinear_arith)
            requires
                xs.skip(1).len() == xs.len() - 1,
        ;
    }
}

/// Before feeding input `i` of a block, the outputs already emitted plus
/// everything that input can emit still fit the block-wide output bound.
pub proof fn lemma_block_capacity(v: ResampView, xs: Seq<(int, int)>, i: int)
    requires
        wf_view(v),
        0 <= i < xs.len(),
    ensures
        block_outs(v, xs.take(i)).len() + emit_count(block_view(v, xs.take(i))) <= block_cap(
            v,
            xs.len() as int,
        ),
{
    let d: int = RATE_ONE as int;
    let vi = block_view(v, xs.take(i));
    lemma_block_properties(v, xs.take(i));
    lemma_emit_count(vi);
    let total: int = block_outs(v, xs.take(i)).len() as int;
    let c: int = emit_count(vi);
    assert(xs.take(i).len() == i);
    assert((i + 1) * v.rate == i * v.rate + v.rate) by (nonlinear_arith);
    lemma_mul_inequality(i + 1, xs.len() as int, v.rate);
    assert((total + c) * d == total * d + c * d) by (nonlinear_arith);
    assert((total + c) * d <= xs.len() * v.rate + d - 1);
    lemma_div_is_ordered((total + c) * d, xs.len() * v.rate + d - 1, d);
    lemma_div_by_multiple(total + c, d);
}

/// From a fresh accumulator, the total output count over `n` input
/// samples is exactly `n` times the rate, rounded up to whole output
/// samples; so it never exceeds that ceiling and never falls short of the
/// corresponding floor.
pub proof fn lemma_fresh_output_count(v: ResampView, xs: Seq<(int, int)>)
    requires
        wf_view(v),
        v.phase == 0,
    ensures
        block_outs(v, xs).len() == block_cap(v, xs.len() as int),
        xs.len() * v.rate <= block_outs(v, xs).len() * (RATE_ONE as int) < xs.len() * v.rate
            + RATE_ONE,
        xs.len() * v.rate / (RATE_ONE as int) <= block_outs(v, xs).len() <= block_cap(
            v,
            xs.len() as int,
        ),
{
    let d: int = RATE_ONE as int;
    let total: int = block_outs(v, xs).len() as int;
    lemma_block_properties(v, xs);
    assert(0 <= xs.len() * v.rate) by (nonlinear_arith)
        requires
            0 <= xs.len(),
            0 <= v.rate,
    ;
    lemma_ceil_div_unique(xs.len() * v.rate, d, total);
    lemma_div_is_ordered(xs.len() * v.rate, total * d, d);
    lemma_div_by_multiple(total, d);
}

/// A deep copy and its original stay in lockstep: equal abstract states
/// fed equal input sequences emit equal output streams and land in equal
/// states, so divergent output needs divergent input.
pub proof fn lemma_copies_agree(a: ResampView, b: ResampView, xs: Seq<(int, int)>)
    requires
        a == b,
    ensures
        block_outs(a, xs) == block_outs(b, xs),
        block_view(a, xs) == block_view(b, xs),
{
}

} // verus!
