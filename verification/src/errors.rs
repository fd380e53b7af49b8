//! The failure kinds the encode entry point can report.

use vstd::prelude::*;

verus! {

/// Why an encode call was rejected before any byte was written.
#[derive(Clone, Copy, Debug, PartialEq, Eq, Structural)]
pub enum EncodeError {
    /// The output buffer is smaller than half the input length, the
    /// documented 2:1 minimum compaction ratio.
    OutputBufferTooSmall,
}

impl EncodeError {
    /// A human-readable account of the failure.
    pub fn message(&self) -> (m: &'static str)
        ensures
            m@ == "Output buffer is too small. Must be at least 1/2 of input size."@,
    {
        match self {
            EncodeError::OutputBufferTooSmall => {
                "Output buffer is too small. Must be at least 1/2 of input size."
            },
        }
    }
}

} // verus!
