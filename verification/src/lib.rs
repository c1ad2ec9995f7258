//! A theatre-style cue stack: numbered cues that play, stop or fade audio,
//! triggered one after another.
//!
//! Cue numbers are IEEE-754 single-precision values; the library carries them
//! as their 32-bit patterns and compares them the way `f32 ==` does.
//! Audio output (opening files, decoding, driving a sound device, volume
//! ramps) is done by the caller, who owns the sink values of type `S` that
//! the stack keeps track of and performs the [`defs::SinkAction`] that a
//! triggered cue asks for.
pub mod cue_number;
pub mod util;
pub mod error;
pub mod cue_types;
pub mod defs;
