//! An arbitrary-rate polyphase resampler over fixed-point samples.
//!
//! A [`resamp::Resamp`] accepts a stream of input samples at one rate and
//! produces a stream of output samples at a second, generally non-integer,
//! rate.  A bank of FIR sub-filters, derived at construction from a single
//! windowed-sinc low-pass prototype, interpolates between input samples; a
//! fractional phase accumulator decides how many output samples each input
//! sample yields and which sub-filter produces each of them.
//!
//! All arithmetic is fixed point: rates carry [`fixed::RATE_ONE`] fractional
//! steps per input sample, cutoff frequencies are in units of
//! [`fixed::FC_ONE`], filter taps in units of [`fixed::TAP_ONE`], and samples
//! are plain `i32` values (a complex sample is a pair of them).

pub mod error;
pub mod fixed;
pub mod laws;
pub mod resamp;

use vstd::prelude::*;

verus! {

/// Passes a value through unchanged.
pub fn ident<T>(x: T) -> (r: T)
    ensures
        r == x,
{
    x
}

} // verus!
