use vstd::prelude::*;

verus! {

/// The kinds of failure a resampler operation can report.
///
/// Construction rejects out-of-bound parameters with `Config`; execution
/// rejects an undersized output buffer with `Range`.  The remaining kinds
/// round out the taxonomy of a signal-processing component (invalid object,
/// uninitialized state, and so on); the operations of this crate are total
/// on validly constructed values and never produce them.
#[derive(Clone, Copy, Debug, PartialEq, Eq, Structural)]
pub enum ErrorKind {
    /// Internal logic error.
    Internal,
    /// Invalid object.
    Object,
    /// Invalid parameter or configuration, such as a zero resampling rate
    /// or a cutoff frequency at or above the folding frequency.
    Config,
    /// Input value out of range.
    Input,
    /// Invalid vector length or dimension, such as an output buffer with
    /// fewer slots than the guaranteed maximum number of output samples.
    Range,
    /// Invalid mode.
    InvalidMode,
    /// Unsupported mode.
    UnsupportedMode,
    /// Object has not been created or properly initialized.
    NoInit,
    /// Not enough memory allocated for the operation.
    Memory,
    /// File input/output failure.
    Io,
}

} // verus!
