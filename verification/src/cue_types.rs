//! The kinds of cue and their parameters.
use vstd::prelude::*;
use std::time::Duration;
use crate::cue_number::lemma_position_of;
use crate::cue_number::position_of;
use crate::cue_number::same_number;
use crate::defs::CueStack;
use crate::defs::sink_numbers;
use crate::error::Error;

verus! {

/// Different types of cues with type-specific parameters.
#[derive(Clone, Debug)]
pub enum CueType {
    /// play an audio file
    Audio(AudioCue),
    /// stop playback of a cue
    Stop(StopCue),
    /// fade volume of a cue
    Fade(FadeCue),
}

/// An audio file to play.
#[derive(Clone, Debug)]
pub struct AudioCue {
    /// path to the audio file
    pub path: String,
    /// start time within the audio file
    pub start_time: Option<Duration>,
    /// end time within the audio file
    pub end_time: Option<Duration>,
    /// amount of times to play the audio file (overridden by `loops` if `loops` is true)
    pub play: u32,
    /// whether to loop the audio file indefinitely (overrides `play` if true)
    pub loops: bool,
    /// tracks whether the cue has been primed for playback
    pub primed: bool,
    /// bit pattern of the `f32` volume trim in decibels
    pub trim: u32,
}

impl AudioCue {
    /// A new audio cue, not yet primed.
    pub fn new(
        path: String,
        start_time: Option<Duration>,
        end_time: Option<Duration>,
        play: u32,
        loops: bool,
        trim: u32,
    ) -> (r: Self)
        ensures
            r.path == path,
            r.start_time == start_time,
            r.end_time == end_time,
            r.play == play,
            r.loops == loops,
            !r.primed,
            r.trim == trim,
    {
        AudioCue { path, start_time, end_time, play, loops, primed: false, trim }
    }
}

/// A primed sink (a value of the caller's sink type `S`, ready to play) and
/// the number of the cue it was primed for.
#[derive(Debug)]
pub struct AudioSink<S> {
    pub sink: S,
    /// bit pattern of the cue number
    pub cue_number: u32,
}

/// What a triggered cue asks to be done to one of the stack's primed sinks;
/// `sink` is its position in `CueStack::audio_sinks`.
#[derive(Clone, Copy, Debug)]
pub enum SinkAction {
    /// start playback of the sink
    Play { sink: usize },
    /// stop playback of the sink
    Stop { sink: usize },
    /// fade the sink's volume as `fade` says, and stop it afterwards when
    /// `fade.and_stop` is set
    Fade { sink: usize, fade: FadeCue },
}

/// Stops the playback of another cue.
#[derive(Clone, Copy, Debug)]
pub struct StopCue {
    /// bit pattern of the number of the cue to stop
    pub target_cue: u32,
}

/// What a stop cue does to the sinks `sinks`: stop the first sink primed for
/// its target, or fail when there is none.
pub open spec fn stop_outcome<S>(stop: StopCue, sinks: Seq<AudioSink<S>>) -> Result<SinkAction, Error> {
    match position_of(sink_numbers(sinks), stop.target_cue) {
        Some(i) => Ok(SinkAction::Stop { sink: i as usize }),
        None => Err(Error::CueNotFound(stop.target_cue)),
    }
}

impl StopCue {
    /// The action that stopping the target cue takes on `stack`.
    pub fn go<S>(&self, stack: &CueStack<S>) -> (r: Result<SinkAction, Error>)
        ensures
            r == stop_outcome(*self, stack.audio_sinks@),
    {
        match stack.sink_index_by_cue_number(self.target_cue) {
            Some(i) => Ok(SinkAction::Stop { sink: i }),
            None => Err(Error::CueNotFound(self.target_cue)),
        }
    }
}

/// The shape of a volume fade.
#[derive(Clone, Copy, Debug, PartialEq, Eq, Structural)]
pub enum FadeShape {
    Linear,
    Exponential,
}

impl Default for FadeShape {
    fn default() -> (r: Self)
        ensures
            r == FadeShape::Linear,
    {
        FadeShape::Linear
    }
}

/// Fade cue parameters.
#[derive(Clone, Copy, Debug)]
pub struct FadeCue {
    /// bit pattern of the number of the cue to fade (ie. which audio cue)
    pub target_cue: u32,
    /// duration of the fade
    pub duration: Duration,
    /// bit pattern of the `f32` target volume in decibels
    pub target_db: u32,
    /// shape of the fade
    pub shape: FadeShape,
    /// whether to stop the cue after fading
    pub and_stop: bool,
}

/// What a fade cue does to the sinks `sinks`: fade the first sink primed for
/// its target, or fail when there is none.
pub open spec fn fade_outcome<S>(fade: FadeCue, sinks: Seq<AudioSink<S>>) -> Result<SinkAction, Error> {
    match position_of(sink_numbers(sinks), fade.target_cue) {
        Some(i) => Ok(SinkAction::Fade { sink: i as usize, fade }),
        None => Err(Error::CueNotFound(fade.target_cue)),
    }
}

impl FadeCue {
    /// The action that fading the target cue takes on `stack`.
    pub fn go<S>(&self, stack: &CueStack<S>) -> (r: Result<SinkAction, Error>)
        ensures
            r == fade_outcome(*self, stack.audio_sinks@),
    {
        match stack.sink_index_by_cue_number(self.target_cue) {
            Some(i) => Ok(SinkAction::Fade { sink: i, fade: *self }),
            None => Err(Error::CueNotFound(self.target_cue)),
        }
    }
}

/// Some sink in `sinks` was primed for a number equal to `n`.
pub open spec fn some_sink_numbered<S>(sinks: Seq<AudioSink<S>>, n: u32) -> bool {
    exists|i: int| 0 <= i < sinks.len() && same_number(#[trigger] sinks[i].cue_number, n)
}

/// `k` is the first sink in `sinks` primed for a number equal to `n`.
pub open spec fn is_first_sink_numbered<S>(sinks: Seq<AudioSink<S>>, n: u32, k: int) -> bool {
    &&& 0 <= k < sinks.len()
    &&& same_number(sinks[k].cue_number, n)
    &&& forall|m: int| 0 <= m < k ==> !same_number(#[trigger] sinks[m].cue_number, n)
}

/// The first sink primed for `n` is found exactly when some sink is.
pub proof fn lemma_first_sink_numbered<S>(sinks: Seq<AudioSink<S>>, n: u32)
    ensures
        some_sink_numbered(sinks, n) <==> position_of(sink_numbers(sinks), n) is Some,
        position_of(sink_numbers(sinks), n) matches Some(k) ==> is_first_sink_numbered(sinks, n, k),
{
    let nums = sink_numbers(sinks);
    lemma_position_of(nums, n);
    if some_sink_numbered(sinks, n) {
        let i = choose|i: int| 0 <= i < sinks.len() && same_number(#[trigger] sinks[i].cue_number, n);
        assert(nums[i] == sinks[i].cue_number);
    }
    if let Some(k) = position_of(nums, n) {
        assert(nums[k] == sinks[k].cue_number);
        assert forall|m: int| 0 <= m < k implies !same_number(#[trigger] sinks[m].cue_number, n) by {
            assert(nums[m] == sinks[m].cue_number);
        }
    }
}

/// A stop cue stops a sink exactly when some sink is primed for its target:
/// the first such sink; when none is, it fails with `CueNotFound` of its
/// target.
pub proof fn lemma_stop_stops_target<S>(stop: StopCue, sinks: Seq<AudioSink<S>>)
    requires
        sinks.len() <= usize::MAX,
    ensures
        some_sink_numbered(sinks, stop.target_cue) <==> stop_outcome(stop, sinks) is Ok,
        stop_outcome(stop, sinks) matches Ok(a) ==> (a matches SinkAction::Stop { sink }
            && is_first_sink_numbered(sinks, stop.target_cue, sink as int)),
        stop_outcome(stop, sinks) matches Err(e) ==> e == Error::CueNotFound(stop.target_cue),
{
    lemma_first_sink_numbered(sinks, stop.target_cue);
}

/// A fade cue fades a sink exactly when some sink is primed for its target:
/// the first such sink, with every parameter of the fade (target, duration,
/// level, shape, and whether to stop afterwards) those of the cue; when none
/// is, it fails with `CueNotFound` of its target.
pub proof fn lemma_fade_fades_target<S>(fade: FadeCue, sinks: Seq<AudioSink<S>>)
    requires
        sinks.len() <= usize::MAX,
    ensures
        some_sink_numbered(sinks, fade.target_cue) <==> fade_outcome(fade, sinks) is Ok,
        fade_outcome(fade, sinks) matches Ok(a) ==> (a matches SinkAction::Fade { sink, fade: f }
            && is_first_sink_numbered(sinks, fade.target_cue, sink as int)
            && f.target_cue == fade.target_cue
            && f.duration == fade.duration
            && f.target_db == fade.target_db
            && f.shape == fade.shape
            && f.and_stop == fade.and_stop),
        fade_outcome(fade, sinks) matches Err(e) ==> e == Error::CueNotFound(fade.target_cue),
{
    lemma_first_sink_numbered(sinks, fade.target_cue);
}

} // verus!
