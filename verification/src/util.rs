//! Small helpers for the defaults of cue fields.
use vstd::prelude::*;

verus! {

/// How many times an audio cue plays when its description does not say.
pub fn default_play() -> (r: u32)
    ensures
        r == 1,
{
    1
}

/// Whether a count is zero (a zero `play` count is left out of a written cue).
pub fn is_zero_u32(val: &u32) -> (r: bool)
    ensures
        r == (*val == 0),
{
    *val == 0
}

} // verus!
