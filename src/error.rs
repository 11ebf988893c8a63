use vstd::prelude::*;

verus! {

/// Why a generation call failed.
#[derive(Debug, Clone, Copy, PartialEq, Eq, Structural)]
pub enum RandomError {
    /// The operating system's entropy source could not supply seed material.
    EntropyUnavailable,
    /// No character class was selected.
    EmptyCharset,
    /// A string of length zero was requested.
    InvalidLength,
    /// A sampling bound of zero, or a selection count outside `1..=n`.
    InvalidBound,
    /// Every draw of the rejection sampler fell in the biased region. The
    /// sampler redraws a bounded number of times (`MAX_DRAWS`) instead of
    /// without end, so that it provably terminates; at the bounds used here
    /// this outcome is never expected in practice.
    RetriesExhausted,
}

} // verus!
