//! Errors of the cue stack's operations.
use vstd::prelude::*;

verus! {

/// Why an operation on the cue stack could not be carried out; each variant
/// holds the bit pattern of the cue number concerned.
#[derive(Debug, Clone, Copy, PartialEq, Eq, Structural)]
pub enum Error {
    /// no cue (or, for a stop or fade, no primed sink) has this number
    CueNotFound(u32),
    /// the audio cue with this number has no primed sink to play
    CueNotPrimed(u32),
}

} // verus!
