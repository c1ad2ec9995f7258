//! Cues, the cue stack, and the operations that prime, trigger and advance it.
use vstd::prelude::*;
use std::time::Duration;
use crate::cue_number::lemma_position_is;
use crate::cue_number::lemma_position_none;
use crate::cue_number::lemma_position_of;
use crate::cue_number::is_nan;
use crate::cue_number::first_match;
use crate::cue_number::numbers_equal;
use crate::cue_number::position_of;
use crate::cue_number::same_number;
use crate::cue_types::AudioCue;
use crate::cue_types::AudioSink;
use crate::cue_types::CueType;
use crate::cue_types::SinkAction;
use crate::cue_types::fade_outcome;
use crate::cue_types::stop_outcome;
use crate::cue_types::some_sink_numbered;
use crate::cue_types::is_first_sink_numbered;
use crate::cue_types::lemma_first_sink_numbered;
use crate::cue_types::lemma_stop_stops_target;
use crate::cue_types::lemma_fade_fades_target;
use crate::error::Error;

verus! {

/// Continue mode determines when the next cue is triggered.
#[derive(Clone, Copy, Debug, PartialEq, Eq, Structural)]
pub enum ContinueModes {
    /// next cue is triggered manually
    DoNotContinue,
    /// as the cue ends, the next cue is triggered automatically
    AutoFollow,
    /// once this cue starts, the next cue is triggered automatically
    AutoContinue,
}

impl Default for ContinueModes {
    fn default() -> (r: Self)
        ensures
            r == ContinueModes::DoNotContinue,
    {
        ContinueModes::DoNotContinue
    }
}

/// A cue represents a single logical operation of the audio system,
/// for example a fade, a track, stopping playback.
#[derive(Debug)]
pub struct Cue {
    /// bit pattern of the `f32` cue number, which can be non-integer
    pub number: u32,
    /// cue name
    pub name: String,
    /// wait `pre_wait` after the cue is called to actually start the operation
    pub pre_wait: Duration,
    /// wait `post_wait` after the operation is complete before triggering the
    /// next cue if applicable
    pub post_wait: Duration,
    /// continue mode for this cue
    pub continue_mode: ContinueModes,
    /// operation-specific parameters, eg. fade duration, audio file path
    pub cue_type: CueType,
}

/// A list of cues, the number of the cue that was triggered last, and the
/// sinks primed for its audio cues. `S` is the type of the caller's sinks.
#[derive(Debug)]
pub struct CueStack<S> {
    /// list of cues in this stack
    pub cues: Vec<Cue>,
    /// name of this cue stack
    pub name: String,
    /// continue mode for this cue stack
    pub continue_mode: ContinueModes,
    /// bit pattern of the number of the cue that is currently active (ie. the
    /// last one that was triggered); none before any cue was triggered
    pub current_cue_number: Option<u32>,
    /// list of primed audio sinks for this cue stack
    pub audio_sinks: Vec<AudioSink<S>>,
}

/// Whether a `go` ran past the last cue.
#[derive(Clone, Copy, Debug, PartialEq, Eq, Structural)]
pub enum State {
    Unfinished,
    Finished,
}

/// The numbers of the cues, in their order.
pub open spec fn cue_numbers(cues: Seq<Cue>) -> Seq<u32> {
    cues.map_values(|c: Cue| c.number)
}

/// The cue numbers that the sinks were primed for, in their order.
pub open spec fn sink_numbers<S>(sinks: Seq<AudioSink<S>>) -> Seq<u32> {
    sinks.map_values(|s: AudioSink<S>| s.cue_number)
}

impl Clone for Cue {
    fn clone(&self) -> (r: Self)
        ensures
            r.number == self.number,
            r.pre_wait == self.pre_wait,
            r.post_wait == self.post_wait,
            r.continue_mode == self.continue_mode,
            r.name == self.name,
    {
        Cue {
            number: self.number,
            name: self.name.clone(),
            pre_wait: self.pre_wait,
            post_wait: self.post_wait,
            continue_mode: self.continue_mode,
            cue_type: self.cue_type.clone(),
        }
    }
}

impl<S> CueStack<S> {
    /// Position of the first cue whose number equals `number`.
    pub fn cue_index_by_number(&self, number: u32) -> (r: Option<usize>)
        ensures
            match r {
                Some(i) => position_of(cue_numbers(self.cues@), number) == Some(i as int),
                None => position_of(cue_numbers(self.cues@), number) is None,
            },
    {
        let ghost nums = cue_numbers(self.cues@);
        let mut i: usize = 0;
        while i < self.cues.len()
            invariant
                i <= self.cues@.len(),
                nums == cue_numbers(self.cues@),
                forall|k: int| 0 <= k < i ==> !same_number(#[trigger] nums[k], number),
            decreases self.cues@.len() - i,
        {
            if numbers_equal(self.cues[i].number, number) {
                proof {
                    lemma_position_is(nums, number, i as int);
                }
                return Some(i);
            }
            i = i + 1;
        }
        proof {
            lemma_position_none(nums, number);
        }
        None
    }

    /// Position of the first sink primed for a cue whose number equals
    /// `cue_number`.
    pub fn sink_index_by_cue_number(&self, cue_number: u32) -> (r: Option<usize>)
        ensures
            match r {
                Some(i) => position_of(sink_numbers(self.audio_sinks@), cue_number) == Some(i as int),
                None => position_of(sink_numbers(self.audio_sinks@), cue_number) is None,
            },
    {
        let ghost nums = sink_numbers(self.audio_sinks@);
        let mut i: usize = 0;
        while i < self.audio_sinks.len()
            invariant
                i <= self.audio_sinks@.len(),
                nums == sink_numbers(self.audio_sinks@),
                forall|k: int| 0 <= k < i ==> !same_number(#[trigger] nums[k], cue_number),
            decreases self.audio_sinks@.len() - i,
        {
            if numbers_equal(self.audio_sinks[i].cue_number, cue_number) {
                proof {
                    lemma_position_is(nums, cue_number, i as int);
                }
                return Some(i);
            }
            i = i + 1;
        }
        proof {
            lemma_position_none(nums, cue_number);
        }
        None
    }

    /// The first cue whose number equals `number`.
    pub fn get_cue_by_number(&self, number: u32) -> (r: Option<&Cue>)
        ensures
            r == match position_of(cue_numbers(self.cues@), number) {
                Some(i) => Some(&self.cues@[i]),
                None => None,
            },
    {
        match self.cue_index_by_number(number) {
            Some(i) => Some(&self.cues[i]),
            None => None,
        }
    }
}

/// The cue `c` with its primed flag set to `primed`, if it is an audio cue;
/// any other cue unchanged.
pub open spec fn with_primed(c: Cue, primed: bool) -> Cue {
    match c.cue_type {
        CueType::Audio(a) => Cue { cue_type: CueType::Audio(AudioCue { primed: primed, ..a }), ..c },
        _ => c,
    }
}

/// The sinks from position `lo` on that have not finished playing, in their
/// order.
pub open spec fn kept_from<S>(sinks: Seq<AudioSink<S>>, finished: Seq<bool>, lo: int) -> Seq<AudioSink<S>>
    decreases sinks.len() - lo,
{
    if lo < 0 || lo >= sinks.len() {
        Seq::empty()
    } else if finished[lo] {
        kept_from(sinks, finished, lo + 1)
    } else {
        seq![sinks[lo]] + kept_from(sinks, finished, lo + 1)
    }
}

/// The cue numbers of the sinks from position `lo` on that have finished
/// playing, in their order.
pub open spec fn ended_from<S>(sinks: Seq<AudioSink<S>>, finished: Seq<bool>, lo: int) -> Seq<u32>
    decreases sinks.len() - lo,
{
    if lo < 0 || lo >= sinks.len() {
        Seq::empty()
    } else if finished[lo] {
        seq![sinks[lo].cue_number] + ended_from(sinks, finished, lo + 1)
    } else {
        ended_from(sinks, finished, lo + 1)
    }
}

/// Cue `j` is the first cue numbered as one of the finished sinks at or
/// after position `lo`.
pub open spec fn released_from<S>(cues: Seq<Cue>, sinks: Seq<AudioSink<S>>, finished: Seq<bool>, lo: int, j: int) -> bool {
    exists|i: int| #![trigger sinks[i]]
        lo <= i < sinks.len() && finished[i] && position_of(cue_numbers(cues), sinks[i].cue_number) == Some(j)
}

/// The cues after the sinks at or after position `lo` that have finished are
/// let go: each first cue numbered as one of them is no longer primed.
pub open spec fn cues_after_release<S>(cues: Seq<Cue>, sinks: Seq<AudioSink<S>>, finished: Seq<bool>, lo: int) -> Seq<Cue> {
    Seq::new(
        cues.len(),
        |j: int|
            if released_from(cues, sinks, finished, lo, j) {
                with_primed(cues[j], false)
            } else {
                cues[j]
            },
    )
}

/// What triggering cue `number` of type `cue_type` does to the sinks `sinks`:
/// an audio cue plays the first sink primed for its number, a stop or fade
/// cue acts on the first sink primed for its target.
pub open spec fn dispatch<S>(cue_type: CueType, number: u32, sinks: Seq<AudioSink<S>>) -> Result<SinkAction, Error> {
    match cue_type {
        CueType::Audio(_) => match position_of(sink_numbers(sinks), number) {
            Some(i) => Ok(SinkAction::Play { sink: i as usize }),
            None => Err(Error::CueNotPrimed(number)),
        },
        CueType::Stop(stop) => stop_outcome(stop, sinks),
        CueType::Fade(fade) => fade_outcome(fade, sinks),
    }
}

/// The position of the cue that follows the current one: the one after the
/// first cue numbered `current`, or the first cue when no cue was triggered
/// yet or none has that number.
pub open spec fn next_cue_index(numbers: Seq<u32>, current: Option<u32>) -> int {
    match current {
        Some(c) => match position_of(numbers, c) {
            Some(i) => i + 1,
            None => 0,
        },
        None => 0,
    }
}

/// What a `go` asks for: the stack is finished, or cue `index`, numbered
/// `cue_number`, is to be triggered (by its number).
#[derive(Clone, Copy, Debug, PartialEq, Eq, Structural)]
pub enum GoPlan {
    Finished,
    Trigger { cue_number: u32, index: usize },
}

/// A cue to trigger after waiting `wait`.
#[derive(Clone, Copy, Debug)]
pub struct NextCue {
    /// bit pattern of the number of the cue to trigger
    pub cue_number: u32,
    /// its position in the stack
    pub index: usize,
    /// how long to wait before triggering it
    pub wait: Duration,
}

/// What follows a cue that a `go` triggered: the `go` is done with this
/// result, or the next cue is to be triggered as well.
#[derive(Clone, Copy, Debug)]
pub enum GoStep {
    Done(Result<State, Error>),
    Next(NextCue),
}

/// The action a triggered cue asks of a sink, to be taken once `pre_wait`
/// has passed.
#[derive(Clone, Copy, Debug)]
pub struct CueAction {
    /// the cue's pre-wait
    pub pre_wait: Duration,
    pub action: SinkAction,
}

/// What triggering cue `cue` by `number` asks for: the cue's sink action,
/// delayed by its pre-wait, or why there is none.
pub open spec fn cue_outcome<S>(cue: Cue, number: u32, sinks: Seq<AudioSink<S>>) -> Result<CueAction, Error> {
    match dispatch(cue.cue_type, number, sinks) {
        Ok(action) => Ok(CueAction { pre_wait: cue.pre_wait, action: action }),
        Err(e) => Err(e),
    }
}

/// The cue `cue` hands on to the next one in continue mode `mode`: it is in
/// that mode itself, or the whole stack is.
pub open spec fn hands_on(cue: Cue, stack_mode: ContinueModes, mode: ContinueModes) -> bool {
    cue.continue_mode == mode || stack_mode == mode
}

/// The cue that cue `k` hands on to in continue mode `mode`: the cue after
/// it, once cue `k`'s post-wait has passed, when it or the stack is in that
/// mode and it is not the last cue.
pub open spec fn handed_on_from(cues: Seq<Cue>, stack_mode: ContinueModes, k: int, mode: ContinueModes) -> Option<NextCue> {
    if 0 <= k && k + 1 < cues.len() && hands_on(cues[k], stack_mode, mode) {
        Some(NextCue { cue_number: cues[k + 1].number, index: (k + 1) as usize, wait: cues[k].post_wait })
    } else {
        None
    }
}

/// The cue that the first cue numbered `number` hands on to in continue mode
/// `mode`.
pub open spec fn handed_on_to(cues: Seq<Cue>, stack_mode: ContinueModes, number: u32, mode: ContinueModes) -> Option<NextCue> {
    match position_of(cue_numbers(cues), number) {
        Some(k) => handed_on_from(cues, stack_mode, k, mode),
        None => None,
    }
}

/// Setting the primed flag leaves the number alone.
proof fn lemma_release_keeps_numbers<S>(cues: Seq<Cue>, sinks: Seq<AudioSink<S>>, finished: Seq<bool>, lo: int)
    ensures
        cue_numbers(cues_after_release(cues, sinks, finished, lo)) == cue_numbers(cues),
{
    assert(cue_numbers(cues_after_release(cues, sinks, finished, lo)) =~= cue_numbers(cues));
}

fn set_primed(cue: &mut Cue, primed: bool)
    ensures
        *final(cue) == with_primed(*old(cue), primed),
{
    match &mut cue.cue_type {
        CueType::Audio(a) => {
            a.primed = primed;
        },
        _ => {},
    }
}

impl<S> CueStack<S> {
    /// The first cue whose number equals `number`, to be changed in place.
    pub fn get_cue_by_number_mut(&mut self, number: u32) -> (r: Option<&mut Cue>)
        ensures
            final(self).name == old(self).name,
            final(self).continue_mode == old(self).continue_mode,
            final(self).current_cue_number == old(self).current_cue_number,
            final(self).audio_sinks == old(self).audio_sinks,
            match position_of(cue_numbers(old(self).cues@), number) {
                Some(i) => r is Some && *r->0 == old(self).cues@[i]
                    && final(self).cues@ == old(self).cues@.update(i, *final(r->0)),
                None => r is None && final(self).cues@ == old(self).cues@,
            },
    {
        match self.cue_index_by_number(number) {
            Some(i) => Some(&mut self.cues[i]),
            None => None,
        }
    }

    /// The first sink primed for a cue whose number equals `cue_number`, to be
    /// changed in place.
    pub fn get_sink_by_cue_number(&mut self, cue_number: u32) -> (r: Option<&mut AudioSink<S>>)
        ensures
            final(self).name == old(self).name,
            final(self).continue_mode == old(self).continue_mode,
            final(self).current_cue_number == old(self).current_cue_number,
            final(self).cues == old(self).cues,
            match position_of(sink_numbers(old(self).audio_sinks@), cue_number) {
                Some(i) => r is Some && *r->0 == old(self).audio_sinks@[i]
                    && final(self).audio_sinks@ == old(self).audio_sinks@.update(i, *final(r->0)),
                None => r is None && final(self).audio_sinks@ == old(self).audio_sinks@,
            },
    {
        match self.sink_index_by_cue_number(cue_number) {
            Some(i) => Some(&mut self.audio_sinks[i]),
            None => None,
        }
    }

    /// The audio cue that priming cue `cue_number` needs a sink for: none when
    /// the first cue with that number is not an audio cue, an error when no
    /// cue has it.
    pub fn cue_to_prime(&self, cue_number: u32) -> (r: Result<Option<&AudioCue>, Error>)
        ensures
            match position_of(cue_numbers(self.cues@), cue_number) {
                Some(i) => match self.cues@[i].cue_type {
                    CueType::Audio(a) => r == Ok::<Option<&AudioCue>, Error>(Some(&a)),
                    _ => r == Ok::<Option<&AudioCue>, Error>(None),
                },
                None => r == Err::<Option<&AudioCue>, Error>(Error::CueNotFound(cue_number)),
            },
    {
        match self.cue_index_by_number(cue_number) {
            Some(i) => match &self.cues[i].cue_type {
                CueType::Audio(a) => Ok(Some(a)),
                _ => Ok(None),
            },
            None => Err(Error::CueNotFound(cue_number)),
        }
    }

    /// Primes cue `cue_number` with `sink`: when the first cue with that number
    /// is an audio cue it is marked primed and the sink is kept for it;
    /// any other cue needs no sink, and `sink` is dropped.
    pub fn prime_cue(&mut self, cue_number: u32, sink: S) -> (r: Result<(), Error>)
        ensures
            final(self).name == old(self).name,
            final(self).continue_mode == old(self).continue_mode,
            final(self).current_cue_number == old(self).current_cue_number,
            cue_numbers(final(self).cues@) == cue_numbers(old(self).cues@),
            match position_of(cue_numbers(old(self).cues@), cue_number) {
                Some(i) => {
                    &&& r == Ok::<(), Error>(())
                    &&& if old(self).cues@[i].cue_type is Audio {
                        &&& final(self).cues@ == old(self).cues@.update(i, with_primed(old(self).cues@[i], true))
                        &&& final(self).audio_sinks@ == old(self).audio_sinks@.push(
                            AudioSink { sink: sink, cue_number: cue_number },
                        )
                    } else {
                        &&& final(self).cues@ == old(self).cues@
                        &&& final(self).audio_sinks@ == old(self).audio_sinks@
                    }
                },
                None => {
                    &&& r == Err::<(), Error>(Error::CueNotFound(cue_number))
                    &&& final(self).cues@ == old(self).cues@
                    &&& final(self).audio_sinks@ == old(self).audio_sinks@
                },
            },
    {
        match self.cue_index_by_number(cue_number) {
            Some(i) => {
                if let CueType::Audio(_) = &self.cues[i].cue_type {
                    set_primed(&mut self.cues[i], true);
                    self.audio_sinks.push(AudioSink { sink, cue_number });
                }
                proof {
                    assert(cue_numbers(self.cues@) =~= cue_numbers(old(self).cues@));
                }
                Ok(())
            },
            None => Err(Error::CueNotFound(cue_number)),
        }
    }

    /// Lets go of the sinks that have finished playing: `finished[i]` tells
    /// whether sink `i` has. Each such sink is removed, and the first cue
    /// numbered as it is marked as no longer primed. The result holds the
    /// cue numbers of the removed sinks, in their order.
    pub fn prune_sinks(&mut self, finished: &Vec<bool>) -> (ended: Vec<u32>)
        requires
            finished@.len() == old(self).audio_sinks@.len(),
        ensures
            ended@ == ended_from(old(self).audio_sinks@, finished@, 0),
            final(self).name == old(self).name,
            final(self).continue_mode == old(self).continue_mode,
            final(self).current_cue_number == old(self).current_cue_number,
            final(self).audio_sinks@ == kept_from(old(self).audio_sinks@, finished@, 0),
            final(self).cues@ == cues_after_release(old(self).cues@, old(self).audio_sinks@, finished@, 0),
            cue_numbers(final(self).cues@) == cue_numbers(old(self).cues@),
    {
        let ghost old_cues = self.cues@;
        let ghost old_sinks = self.audio_sinks@;
        let ghost fin = finished@;
        let mut ended: Vec<u32> = Vec::new();
        let mut m: usize = 0;
        while m < self.audio_sinks.len()
            invariant
                self.audio_sinks@ == old_sinks,
                fin == finished@,
                fin.len() == old_sinks.len(),
                m <= old_sinks.len(),
                ended@ + ended_from(old_sinks, fin, m as int) == ended_from(old_sinks, fin, 0),
            decreases old_sinks.len() - m,
        {
            if finished[m] {
                ended.push(self.audio_sinks[m].cue_number);
            }
            m = m + 1;
        }
        proof {
            assert(ended_from(old_sinks, fin, m as int) =~= Seq::<u32>::empty());
            assert(ended@ =~= ended@ + Seq::<u32>::empty());
        }
        let mut i: usize = self.audio_sinks.len();
        proof {
            assert(old_sinks.subrange(0, i as int) + kept_from(old_sinks, fin, i as int) =~= old_sinks);
            assert(cues_after_release(old_cues, old_sinks, fin, i as int) =~= old_cues);
        }
        while i > 0
            invariant
                i <= old_sinks.len(),
                fin == finished@,
                fin.len() == old_sinks.len(),
                self.name == old(self).name,
                self.continue_mode == old(self).continue_mode,
                self.current_cue_number == old(self).current_cue_number,
                self.audio_sinks@ == old_sinks.subrange(0, i as int) + kept_from(old_sinks, fin, i as int),
                self.cues@ == cues_after_release(old_cues, old_sinks, fin, i as int),
            decreases i,
        {
            let ghost hi = i as int;
            i = i - 1;
            let ghost lo = i as int;
            assert(self.audio_sinks@[lo] == old_sinks[lo]);
            if finished[i] {
                let number = self.audio_sinks[i].cue_number;
                proof {
                    lemma_release_keeps_numbers(old_cues, old_sinks, fin, hi);
                }
                let found = self.cue_index_by_number(number);
                match found {
                    Some(j) => {
                        set_primed(&mut self.cues[j], false);
                    },
                    None => {},
                }
                self.audio_sinks.remove(i);
                proof {
                    assert(self.audio_sinks@ =~= old_sinks.subrange(0, lo) + kept_from(old_sinks, fin, lo));
                    let pos = position_of(cue_numbers(old_cues), old_sinks[lo].cue_number);
                    assert forall|j: int| 0 <= j < old_cues.len() implies
                        released_from(old_cues, old_sinks, fin, lo, j)
                            == (released_from(old_cues, old_sinks, fin, hi, j) || pos == Some(j)) by {
                        if released_from(old_cues, old_sinks, fin, lo, j) {
                            let k = choose|k: int| #![trigger old_sinks[k]]
                                lo <= k < old_sinks.len() && fin[k]
                                    && position_of(cue_numbers(old_cues), old_sinks[k].cue_number) == Some(j);
                            if k != lo {
                                assert(released_from(old_cues, old_sinks, fin, hi, j));
                            }
                        }
                        if pos == Some(j) {
                            assert(released_from(old_cues, old_sinks, fin, lo, j));
                        }
                    }
                    lemma_position_of(cue_numbers(old_cues), old_sinks[lo].cue_number);
                    assert(self.cues@ =~= cues_after_release(old_cues, old_sinks, fin, lo));
                }
            } else {
                proof {
                    assert(self.audio_sinks@ =~= old_sinks.subrange(0, lo) + kept_from(old_sinks, fin, lo));
                    assert forall|j: int| 0 <= j < old_cues.len() implies
                        released_from(old_cues, old_sinks, fin, lo, j)
                            == released_from(old_cues, old_sinks, fin, hi, j) by {
                        if released_from(old_cues, old_sinks, fin, lo, j) {
                            let k = choose|k: int| #![trigger old_sinks[k]]
                                lo <= k < old_sinks.len() && fin[k]
                                    && position_of(cue_numbers(old_cues), old_sinks[k].cue_number) == Some(j);
                            assert(k != lo);
                        }
                    }
                    assert(self.cues@ =~= cues_after_release(old_cues, old_sinks, fin, lo));
                }
            }
        }
        proof {
            assert(self.audio_sinks@ =~= kept_from(old_sinks, fin, 0));
            lemma_release_keeps_numbers(old_cues, old_sinks, fin, 0);
        }
        ended
    }

    /// Triggers cue `cue_number`. The stack first lets go of the finished
    /// sinks (`finished` as for `prune_sinks`). When no cue has that number
    /// the outer result is that error. Otherwise the cue becomes the current
    /// one, and the inner result is the action its sink is to take after the
    /// cue's pre-wait, or why there is none; once the caller has taken the
    /// action it lets go of the sinks that have finished by then.
    pub fn trigger_cue(&mut self, cue_number: u32, finished: &Vec<bool>) -> (r: Result<
        Result<CueAction, Error>,
        Error,
    >)
        requires
            finished@.len() == old(self).audio_sinks@.len(),
        ensures
            final(self).name == old(self).name,
            final(self).continue_mode == old(self).continue_mode,
            final(self).audio_sinks@ == kept_from(old(self).audio_sinks@, finished@, 0),
            final(self).cues@ == cues_after_release(old(self).cues@, old(self).audio_sinks@, finished@, 0),
            cue_numbers(final(self).cues@) == cue_numbers(old(self).cues@),
            match position_of(cue_numbers(old(self).cues@), cue_number) {
                Some(i) => {
                    &&& final(self).current_cue_number == Some(cue_number)
                    &&& r == Ok::<Result<CueAction, Error>, Error>(
                        cue_outcome(final(self).cues@[i], cue_number, final(self).audio_sinks@),
                    )
                },
                None => {
                    &&& final(self).current_cue_number == old(self).current_cue_number
                    &&& r == Err::<Result<CueAction, Error>, Error>(Error::CueNotFound(cue_number))
                },
            },
    {
        let _ended = self.prune_sinks(finished);
        let i = match self.cue_index_by_number(cue_number) {
            Some(i) => i,
            None => {
                return Err(Error::CueNotFound(cue_number));
            },
        };
        self.current_cue_number = Some(cue_number);
        let cue = &self.cues[i];
        let action = match &cue.cue_type {
            CueType::Audio(_) => match self.sink_index_by_cue_number(cue_number) {
                Some(k) => Ok(SinkAction::Play { sink: k }),
                None => Err(Error::CueNotPrimed(cue_number)),
            },
            CueType::Stop(stop_cue) => stop_cue.go(self),
            CueType::Fade(fade_cue) => fade_cue.go(self),
        };
        match action {
            Ok(action) => Ok(Ok(CueAction { pre_wait: cue.pre_wait, action })),
            Err(e) => Ok(Err(e)),
        }
    }

    /// What the next `go` asks for: the cue after the current one (the first
    /// cue when none was triggered yet, or no cue has the current number) is
    /// to be triggered; past the last cue the stack is finished.
    pub fn go(&self) -> (r: GoPlan)
        ensures
            next_cue_index(cue_numbers(self.cues@), self.current_cue_number) >= self.cues@.len()
                ==> r == GoPlan::Finished,
            next_cue_index(cue_numbers(self.cues@), self.current_cue_number) < self.cues@.len()
                ==> r == (GoPlan::Trigger {
                    cue_number: self.cues@[next_cue_index(cue_numbers(self.cues@), self.current_cue_number)].number,
                    index: next_cue_index(cue_numbers(self.cues@), self.current_cue_number) as usize,
                }),
    {
        let len = self.cues.len();
        let next = match self.current_cue_number {
            Some(current) => match self.cue_index_by_number(current) {
                Some(i) => {
                    proof {
                        lemma_position_of(cue_numbers(self.cues@), current);
                    }
                    assert(i < len);
                    i + 1
                },
                None => 0,
            },
            None => 0,
        };
        if next >= len {
            return GoPlan::Finished;
        }
        GoPlan::Trigger { cue_number: self.cues[next].number, index: next }
    }

    /// The cue that cue `k` hands on to in continue mode `mode`, if any.
    fn hand_on_from(&self, k: usize, mode: ContinueModes) -> (r: Option<NextCue>)
        ensures
            r == handed_on_from(self.cues@, self.continue_mode, k as int, mode),
    {
        let len = self.cues.len();
        if k < len && k + 1 < len {
            let cue = &self.cues[k];
            if cue.continue_mode == mode || self.continue_mode == mode {
                return Some(NextCue { cue_number: self.cues[k + 1].number, index: k + 1, wait: cue.post_wait });
            }
        }
        None
    }

    /// What follows once cue `planned`, which a `go` planned (or which a cue
    /// handed on to), was triggered, given how that trigger went
    /// (`outcome`): a failure ends the `go` with it; otherwise, when the
    /// planned cue continues automatically (it or the stack is in
    /// `AutoContinue`) and is not the last, the cue after it is triggered
    /// after the planned cue's post-wait; else the `go` is done and the stack
    /// not finished.
    pub fn after_trigger(&self, planned: usize, outcome: Result<(), Error>) -> (r: GoStep)
        ensures
            match outcome {
                Err(e) => r == GoStep::Done(Err(e)),
                Ok(()) => match handed_on_from(self.cues@, self.continue_mode, planned as int, ContinueModes::AutoContinue) {
                    Some(next) => r == GoStep::Next(next),
                    None => r == GoStep::Done(Ok(State::Unfinished)),
                },
            },
    {
        match outcome {
            Err(e) => GoStep::Done(Err(e)),
            Ok(()) => match self.hand_on_from(planned, ContinueModes::AutoContinue) {
                Some(next) => GoStep::Next(next),
                None => GoStep::Done(Ok(State::Unfinished)),
            },
        }
    }

    /// The cue to trigger because cue `ended` ended (its sink played out):
    /// when the first cue with that number follows on automatically (it or the
    /// stack is in `AutoFollow`) and is not the last, the cue after it, after
    /// its post-wait.
    pub fn follow_on(&self, ended: u32) -> (r: Option<NextCue>)
        ensures
            r == handed_on_to(self.cues@, self.continue_mode, ended, ContinueModes::AutoFollow),
    {
        match self.cue_index_by_number(ended) {
            Some(k) => self.hand_on_from(k, ContinueModes::AutoFollow),
            None => None,
        }
    }
}

/// No sink has finished playing.
pub open spec fn none_finished(n: nat) -> Seq<bool> {
    Seq::new(n, |k: int| false)
}

/// With no finished sink from position `lo` on, those sinks are all kept.
proof fn lemma_kept_all<S>(sinks: Seq<AudioSink<S>>, lo: int)
    requires
        0 <= lo <= sinks.len(),
    ensures
        kept_from(sinks, none_finished(sinks.len()), lo) == sinks.subrange(lo, sinks.len() as int),
    decreases sinks.len() - lo,
{
    if lo < sinks.len() {
        lemma_kept_all(sinks, lo + 1);
        assert(seq![sinks[lo]] + sinks.subrange(lo + 1, sinks.len() as int) =~= sinks.subrange(
            lo,
            sinks.len() as int,
        ));
    } else {
        assert(sinks.subrange(lo, sinks.len() as int) =~= Seq::<AudioSink<S>>::empty());
    }
}

/// Letting go of the finished sinks when none has finished changes nothing.
pub proof fn lemma_prune_nothing_finished<S>(cues: Seq<Cue>, sinks: Seq<AudioSink<S>>)
    ensures
        kept_from(sinks, none_finished(sinks.len()), 0) == sinks,
        cues_after_release(cues, sinks, none_finished(sinks.len()), 0) == cues,
{
    lemma_kept_all(sinks, 0);
    assert(sinks.subrange(0, sinks.len() as int) =~= sinks);
    assert(cues_after_release(cues, sinks, none_finished(sinks.len()), 0) =~= cues);
}

/// A primed audio cue plays: once `prime_cue` has kept a sink for audio cue
/// `number`, triggering that number while no sink has finished asks to play
/// a sink primed for a number equal to it.
pub proof fn lemma_primed_cue_plays<S>(cues: Seq<Cue>, sinks: Seq<AudioSink<S>>, sink: S, number: u32, i: int)
    requires
        position_of(cue_numbers(cues), number) == Some(i),
        cues[i].cue_type is Audio,
        sinks.len() < usize::MAX,
    ensures
        ({
            let primed_cues = cues.update(i, with_primed(cues[i], true));
            let primed_sinks = sinks.push(AudioSink { sink: sink, cue_number: number });
            let fin = none_finished(primed_sinks.len());
            let after_cues = cues_after_release(primed_cues, primed_sinks, fin, 0);
            let after_sinks = kept_from(primed_sinks, fin, 0);
            &&& position_of(cue_numbers(primed_cues), number) == Some(i)
            &&& after_sinks == primed_sinks
            &&& after_cues == primed_cues
            &&& dispatch(after_cues[i].cue_type, number, after_sinks) matches Ok(SinkAction::Play { sink: k })
                && 0 <= k < after_sinks.len() && same_number(after_sinks[k as int].cue_number, number)
        }),
{
    let primed_cues = cues.update(i, with_primed(cues[i], true));
    let primed_sinks = sinks.push(AudioSink { sink: sink, cue_number: number });
    lemma_position_of(cue_numbers(cues), number);
    assert(cue_numbers(primed_cues) =~= cue_numbers(cues));
    lemma_prune_nothing_finished(primed_cues, primed_sinks);
    let nums = sink_numbers(primed_sinks);
    assert(nums[sinks.len() as int] == number);
    assert(same_number(number, number));
    lemma_position_of(nums, number);
    assert(primed_cues[i].cue_type is Audio);
    let k = position_of(nums, number)->0;
    assert(nums[k] == primed_sinks[k].cue_number);
}

/// `go` follows the order of the stack: after cue `j` was triggered by its
/// number, the next `go` triggers cue `j + 1`, or finishes after the last
/// cue; this holds when no earlier cue has an equal number and the number is
/// not a NaN.
pub proof fn lemma_go_follows_trigger(cues: Seq<Cue>, j: int)
    requires
        0 <= j < cues.len(),
        !is_nan(cues[j].number),
        forall|k: int| 0 <= k < j ==> !same_number(#[trigger] cues[k].number, cues[j].number),
    ensures
        next_cue_index(cue_numbers(cues), Some(cues[j].number)) == j + 1,
{
    let nums = cue_numbers(cues);
    assert forall|k: int| 0 <= k < j implies !same_number(#[trigger] nums[k], cues[j].number) by {
        assert(nums[k] == cues[k].number);
    }
    assert(first_match(nums, cues[j].number, j));
    crate::cue_number::lemma_position_is(nums, cues[j].number, j);
}

/// A stack whose current number names no cue starts over at the first cue
/// (as a fresh stack, with no current number, does by definition).
pub proof fn lemma_go_starts_at_first_cue(cues: Seq<Cue>, current: u32)
    requires
        forall|k: int| 0 <= k < cues.len() ==> !same_number(#[trigger] cues[k].number, current),
    ensures
        next_cue_index(cue_numbers(cues), Some(current)) == 0,
{
    let nums = cue_numbers(cues);
    assert forall|k: int| 0 <= k < nums.len() implies !same_number(#[trigger] nums[k], current) by {
        assert(nums[k] == cues[k].number);
    }
    lemma_position_none(nums, current);
}

/// The sink position that a sink action names.
pub open spec fn action_sink(action: SinkAction) -> usize {
    match action {
        SinkAction::Play { sink } => sink,
        SinkAction::Stop { sink } => sink,
        SinkAction::Fade { sink, .. } => sink,
    }
}

/// Every action that a triggered cue asks for names one of the stack's
/// sinks, primed for a number equal to the cue's own number (for an audio
/// cue) or to its target (for a stop or fade cue).
pub proof fn lemma_action_names_primed_sink<S>(cue_type: CueType, number: u32, sinks: Seq<AudioSink<S>>)
    requires
        sinks.len() <= usize::MAX,
    ensures
        dispatch(cue_type, number, sinks) matches Ok(action) ==> {
            let k = action_sink(action) as int;
            &&& 0 <= k < sinks.len()
            &&& same_number(
                sinks[k].cue_number,
                match cue_type {
                    CueType::Audio(_) => number,
                    CueType::Stop(stop) => stop.target_cue,
                    CueType::Fade(fade) => fade.target_cue,
                },
            )
        },
{
    let nums = sink_numbers(sinks);
    let target = match cue_type {
        CueType::Audio(_) => number,
        CueType::Stop(stop) => stop.target_cue,
        CueType::Fade(fade) => fade.target_cue,
    };
    lemma_position_of(nums, target);
    if let Some(k) = position_of(nums, target) {
        assert(nums[k] == sinks[k].cue_number);
    }
}

/// The cue `cues[k]` is the first one with its number, and that number is
/// not a NaN, so triggering it by number finds it.
pub open spec fn first_of_its_number(cues: Seq<Cue>, k: int) -> bool {
    &&& 0 <= k < cues.len()
    &&& !is_nan(cues[k].number)
    &&& forall|m: int| 0 <= m < k ==> !same_number(#[trigger] cues[m].number, cues[k].number)
}

/// Found by its number, as `follow_on` finds an ended cue, a cue that is the
/// first with its number hands on to the cue after it, once its own
/// post-wait has passed, when it or the stack is in the mode and it is not the
/// last cue; otherwise to none.
pub proof fn lemma_hand_on_to_next(cues: Seq<Cue>, stack_mode: ContinueModes, k: int, mode: ContinueModes)
    requires
        first_of_its_number(cues, k),
    ensures
        handed_on_to(cues, stack_mode, cues[k].number, mode) == if hands_on(cues[k], stack_mode, mode) && k + 1
            < cues.len() {
            Some(NextCue { cue_number: cues[k + 1].number, index: (k + 1) as usize, wait: cues[k].post_wait })
        } else {
            None
        },
{
    let nums = cue_numbers(cues);
    assert forall|m: int| 0 <= m < k implies !same_number(#[trigger] nums[m], cues[k].number) by {
        assert(nums[m] == cues[m].number);
    }
    assert(first_match(nums, cues[k].number, k));
    crate::cue_number::lemma_position_is(nums, cues[k].number, k);
}

/// The current cue number after `steps` calls of `go` from current number
/// `current`, each triggering the cue it plans (which makes that cue's number
/// current); a `go` past the last cue changes nothing.
pub open spec fn current_after_gos(cues: Seq<Cue>, current: Option<u32>, steps: nat) -> Option<u32>
    decreases steps,
{
    if steps == 0 {
        current
    } else {
        let before = current_after_gos(cues, current, (steps - 1) as nat);
        let k = next_cue_index(cue_numbers(cues), before);
        if k < cues.len() {
            Some(cues[k].number)
        } else {
            before
        }
    }
}

/// Repeated `go` calls run through the stack in order: from a stack with no
/// current cue (or one whose current number names no cue), the `j`-th `go`
/// triggers cue `j - 1`, and after as many calls as there are cues the next
/// `go` finds the stack finished. This holds when the cue numbers are pairwise
/// unequal and none is a NaN, and no cue or stack continues automatically.
pub proof fn lemma_go_runs_through_stack(cues: Seq<Cue>, stack_mode: ContinueModes, start: Option<u32>, j: nat)
    requires
        forall|a: int| 0 <= a < cues.len() ==> !is_nan(#[trigger] cues[a].number),
        forall|a: int, b: int| 0 <= a < b < cues.len() ==> !same_number(#[trigger] cues[a].number, #[trigger] cues[b].number),
        start matches Some(c) ==> forall|a: int| 0 <= a < cues.len() ==> !same_number(#[trigger] cues[a].number, c),
        stack_mode != ContinueModes::AutoContinue,
        forall|a: int| 0 <= a < cues.len() ==> #[trigger] cues[a].continue_mode != ContinueModes::AutoContinue,
        j <= cues.len(),
    ensures
        j == 0 ==> current_after_gos(cues, start, j) == start,
        j > 0 ==> current_after_gos(cues, start, j) == Some(cues[j - 1].number),
        next_cue_index(cue_numbers(cues), current_after_gos(cues, start, j)) == j,
    decreases j,
{
    if j == 0 {
        if let Some(c) = start {
            lemma_go_starts_at_first_cue(cues, c);
        }
    } else {
        lemma_go_runs_through_stack(cues, stack_mode, start, (j - 1) as nat);
        let k = j - 1;
        assert forall|m: int| 0 <= m < k implies !same_number(#[trigger] cues[m].number, cues[k].number) by {
            assert(!same_number(cues[m].number, cues[k].number));
        }
        lemma_go_follows_trigger(cues, k);
    }
}

/// Every sink was primed for an audio cue: the first cue with the sink's
/// number is an audio cue.
pub open spec fn sinks_belong<S>(cues: Seq<Cue>, sinks: Seq<AudioSink<S>>) -> bool {
    forall|i: int| #![trigger sinks[i]]
        0 <= i < sinks.len() ==> match position_of(cue_numbers(cues), sinks[i].cue_number) {
            Some(j) => cues[j].cue_type is Audio,
            None => false,
        }
}

/// Every primed audio cue has a sink primed for a number equal to its own.
pub open spec fn primed_have_sinks<S>(cues: Seq<Cue>, sinks: Seq<AudioSink<S>>) -> bool {
    forall|j: int| #![trigger cues[j]]
        0 <= j < cues.len() && (cues[j].cue_type matches CueType::Audio(a) && a.primed) ==> exists|i: int|
            #![trigger sinks[i]]
            0 <= i < sinks.len() && same_number(sinks[i].cue_number, cues[j].number)
}

/// The sinks kept from position `lo` on are exactly the unfinished ones
/// among them.
proof fn lemma_kept_from_members<S>(sinks: Seq<AudioSink<S>>, finished: Seq<bool>, lo: int)
    requires
        0 <= lo,
        finished.len() == sinks.len(),
    ensures
        forall|k: int| 0 <= k < kept_from(sinks, finished, lo).len() ==> exists|m: int|
            lo <= m < sinks.len() && !finished[m] && #[trigger] kept_from(sinks, finished, lo)[k] == sinks[m],
        forall|m: int| lo <= m < sinks.len() && !finished[m] ==> kept_from(sinks, finished, lo).contains(
            #[trigger] sinks[m],
        ),
    decreases sinks.len() - lo,
{
    if lo < sinks.len() {
        lemma_kept_from_members(sinks, finished, lo + 1);
        let rest = kept_from(sinks, finished, lo + 1);
        let kept = kept_from(sinks, finished, lo);
        if finished[lo] {
            assert(kept == rest);
        } else {
            assert(kept == seq![sinks[lo]] + rest);
            assert forall|k: int| 0 <= k < kept.len() implies exists|m: int|
                lo <= m < sinks.len() && !finished[m] && #[trigger] kept[k] == sinks[m] by {
                if k == 0 {
                    assert(kept[0] == sinks[lo]);
                } else {
                    assert(kept[k] == rest[k - 1]);
                }
            }
            assert forall|m: int| lo <= m < sinks.len() && !finished[m] implies kept.contains(
                #[trigger] sinks[m],
            ) by {
                if m == lo {
                    assert(kept[0] == sinks[lo]);
                } else {
                    let k = choose|k: int| 0 <= k < rest.len() && rest[k] == sinks[m];
                    assert(kept[k + 1] == rest[k]);
                }
            }
        }
    }
}

/// Priming keeps every sink belonging to an audio cue, and every primed cue
/// with a sink.
pub proof fn lemma_prime_keeps_invariants<S>(cues: Seq<Cue>, sinks: Seq<AudioSink<S>>, sink: S, number: u32, i: int)
    requires
        sinks_belong(cues, sinks),
        primed_have_sinks(cues, sinks),
        position_of(cue_numbers(cues), number) == Some(i),
        cues[i].cue_type is Audio,
    ensures
        sinks_belong(
            cues.update(i, with_primed(cues[i], true)),
            sinks.push(AudioSink { sink: sink, cue_number: number }),
        ),
        primed_have_sinks(
            cues.update(i, with_primed(cues[i], true)),
            sinks.push(AudioSink { sink: sink, cue_number: number }),
        ),
{
    let new_cues = cues.update(i, with_primed(cues[i], true));
    let new_sinks = sinks.push(AudioSink { sink: sink, cue_number: number });
    lemma_position_of(cue_numbers(cues), number);
    assert(cue_numbers(new_cues) =~= cue_numbers(cues));
    assert forall|k: int| 0 <= k < new_sinks.len() implies match position_of(
        cue_numbers(new_cues),
        #[trigger] new_sinks[k].cue_number,
    ) {
        Some(j) => new_cues[j].cue_type is Audio,
        None => false,
    } by {
        if k < sinks.len() {
            assert(new_sinks[k] == sinks[k]);
        }
    }
    assert forall|j: int| 0 <= j < new_cues.len() && (#[trigger] new_cues[j].cue_type matches CueType::Audio(a) && a.primed)
        implies exists|k: int| #![trigger new_sinks[k]]
            0 <= k < new_sinks.len() && same_number(new_sinks[k].cue_number, new_cues[j].number) by {
        if j == i {
            assert(cue_numbers(cues)[i] == cues[i].number);
            assert(same_number(new_sinks[sinks.len() as int].cue_number, new_cues[j].number));
        } else {
            assert(new_cues[j] == cues[j]);
            assert(cues[j].cue_type matches CueType::Audio(a) && a.primed);
            let k = choose|k: int| #![trigger sinks[k]]
                0 <= k < sinks.len() && same_number(sinks[k].cue_number, cues[j].number);
            assert(new_sinks[k] == sinks[k]);
        }
    }
}

/// Letting go of finished sinks (alone, or as `trigger_cue` does first)
/// keeps every remaining sink belonging to an audio cue; and, when no two
/// cues have equal numbers, keeps every primed cue with a sink.
pub proof fn lemma_prune_keeps_invariants<S>(cues: Seq<Cue>, sinks: Seq<AudioSink<S>>, finished: Seq<bool>)
    requires
        finished.len() == sinks.len(),
        sinks_belong(cues, sinks),
    ensures
        sinks_belong(cues_after_release(cues, sinks, finished, 0), kept_from(sinks, finished, 0)),
        primed_have_sinks(cues, sinks)
            && (forall|a: int, b: int| 0 <= a < b < cues.len() ==> !same_number(#[trigger] cues[a].number, #[trigger] cues[b].number))
            ==> primed_have_sinks(cues_after_release(cues, sinks, finished, 0), kept_from(sinks, finished, 0)),
{
    let new_cues = cues_after_release(cues, sinks, finished, 0);
    let kept = kept_from(sinks, finished, 0);
    lemma_release_keeps_numbers(cues, sinks, finished, 0);
    lemma_kept_from_members(sinks, finished, 0);
    assert forall|k: int| 0 <= k < kept.len() implies match position_of(
        cue_numbers(new_cues),
        #[trigger] kept[k].cue_number,
    ) {
        Some(j) => new_cues[j].cue_type is Audio,
        None => false,
    } by {
        let m = choose|m: int| 0 <= m < sinks.len() && !finished[m] && #[trigger] kept[k] == sinks[m];
        assert(sinks[m] == kept[k]);
        lemma_position_of(cue_numbers(cues), sinks[m].cue_number);
    }
    if primed_have_sinks(cues, sinks)
        && (forall|a: int, b: int| 0 <= a < b < cues.len() ==> !same_number(#[trigger] cues[a].number, #[trigger] cues[b].number)) {
        assert forall|j: int| 0 <= j < new_cues.len() && (#[trigger] new_cues[j].cue_type matches CueType::Audio(a) && a.primed)
            implies exists|k: int| #![trigger kept[k]]
                0 <= k < kept.len() && same_number(kept[k].cue_number, new_cues[j].number) by {
            assert(!released_from(cues, sinks, finished, 0, j));
            assert(new_cues[j] == cues[j]);
            assert(cues[j].cue_type matches CueType::Audio(a) && a.primed);
            let i = choose|i: int| #![trigger sinks[i]]
                0 <= i < sinks.len() && same_number(sinks[i].cue_number, cues[j].number);
            if finished[i] {
                let nums = cue_numbers(cues);
                lemma_position_of(nums, sinks[i].cue_number);
                assert(nums[j] == cues[j].number);
                match position_of(nums, sinks[i].cue_number) {
                    Some(p) => {
                        assert(nums[p] == cues[p].number);
                        if p < j {
                            crate::cue_number::lemma_same_number_equivalence(cues[p].number, sinks[i].cue_number, cues[j].number);
                            assert(!same_number(cues[p].number, cues[j].number));
                        } else if p > j {
                            crate::cue_number::lemma_same_number_equivalence(cues[j].number, sinks[i].cue_number, cues[p].number);
                            crate::cue_number::lemma_same_number_equivalence(sinks[i].cue_number, cues[j].number, cues[j].number);
                            assert(!same_number(cues[j].number, cues[p].number));
                        }
                        assert(released_from(cues, sinks, finished, 0, j));
                    },
                    None => {
                        crate::cue_number::lemma_same_number_equivalence(sinks[i].cue_number, cues[j].number, cues[j].number);
                        assert(same_number(nums[j], sinks[i].cue_number));
                    },
                }
            } else {
                assert(kept.contains(sinks[i]));
                let k = choose|k: int| 0 <= k < kept.len() && kept[k] == sinks[i];
                assert(same_number(kept[k].cue_number, new_cues[j].number));
            }
        }
    }
}

/// What triggering a cue asks for, by kind of cue: an audio cue plays the
/// first sink primed for the triggered number, and without one fails with
/// `CueNotPrimed` of that number; a stop cue stops, and a fade cue fades with
/// its own parameters, the first sink primed for its target, and without one
/// fail with `CueNotFound` of the target. Whatever the kind, the action is to
/// be taken after the cue's pre-wait (never its post-wait).
pub proof fn lemma_trigger_outcome<S>(cue: Cue, number: u32, sinks: Seq<AudioSink<S>>)
    requires
        sinks.len() <= usize::MAX,
    ensures
        cue_outcome(cue, number, sinks) matches Ok(a) ==> a.pre_wait == cue.pre_wait,
        match cue.cue_type {
            CueType::Audio(_) => {
                &&& some_sink_numbered(sinks, number) <==> cue_outcome(cue, number, sinks) is Ok
                &&& cue_outcome(cue, number, sinks) matches Ok(a) ==> (a.action matches SinkAction::Play { sink }
                    && is_first_sink_numbered(sinks, number, sink as int))
                &&& cue_outcome(cue, number, sinks) matches Err(e) ==> e == Error::CueNotPrimed(number)
            },
            CueType::Stop(stop) => {
                &&& some_sink_numbered(sinks, stop.target_cue) <==> cue_outcome(cue, number, sinks) is Ok
                &&& cue_outcome(cue, number, sinks) matches Ok(a) ==> (a.action matches SinkAction::Stop { sink }
                    && is_first_sink_numbered(sinks, stop.target_cue, sink as int))
                &&& cue_outcome(cue, number, sinks) matches Err(e) ==> e == Error::CueNotFound(stop.target_cue)
            },
            CueType::Fade(fade) => {
                &&& some_sink_numbered(sinks, fade.target_cue) <==> cue_outcome(cue, number, sinks) is Ok
                &&& cue_outcome(cue, number, sinks) matches Ok(a) ==> (a.action matches SinkAction::Fade { sink, fade: f }
                    && is_first_sink_numbered(sinks, fade.target_cue, sink as int)
                    && f.target_cue == fade.target_cue
                    && f.duration == fade.duration
                    && f.target_db == fade.target_db
                    && f.shape == fade.shape
                    && f.and_stop == fade.and_stop)
                &&& cue_outcome(cue, number, sinks) matches Err(e) ==> e == Error::CueNotFound(fade.target_cue)
            },
        },
{
    match cue.cue_type {
        CueType::Audio(_) => {
            lemma_first_sink_numbered(sinks, number);
        },
        CueType::Stop(stop) => {
            lemma_stop_stops_target(stop, sinks);
        },
        CueType::Fade(fade) => {
            lemma_fade_fades_target(fade, sinks);
        },
    }
}

/// Cue `k` hands on in continue mode `mode` exactly when its own continue
/// mode is `mode` or the stack's is, and it is not the last cue; it hands on
/// to the cue right after it, to be triggered once cue `k`'s post-wait has
/// passed. So `AutoContinue` is not `AutoFollow`: a cue (or stack) in one
/// hands on in that mode only.
pub proof fn lemma_hand_on_rule(cues: Seq<Cue>, stack_mode: ContinueModes, k: int, mode: ContinueModes)
    requires
        cues.len() <= usize::MAX,
    ensures
        handed_on_from(cues, stack_mode, k, mode) is Some <==> (0 <= k && k + 1 < cues.len() && (
        cues[k].continue_mode == mode || stack_mode == mode)),
        handed_on_from(cues, stack_mode, k, mode) matches Some(next) ==> {
            &&& next.index == k + 1
            &&& next.cue_number == cues[k + 1].number
            &&& next.wait == cues[k].post_wait
        },
{
}

/// An ended cue, found by its number as the first cue with that number,
/// follows on exactly when that cue's own continue mode is `AutoFollow` or
/// the stack's is, and it is not the last cue; it follows on to the cue
/// right after it, once its post-wait has passed.
pub proof fn lemma_follow_on_rule(cues: Seq<Cue>, stack_mode: ContinueModes, ended: u32)
    requires
        cues.len() <= usize::MAX,
    ensures
        handed_on_to(cues, stack_mode, ended, ContinueModes::AutoFollow) is Some <==> exists|k: int|
            #![trigger cues[k]]
            first_match(cue_numbers(cues), ended, k) && k + 1 < cues.len() && (cues[k].continue_mode
                == ContinueModes::AutoFollow || stack_mode == ContinueModes::AutoFollow),
        forall|k: int|
            #![trigger cues[k]]
            first_match(cue_numbers(cues), ended, k) ==> match handed_on_to(
                cues,
                stack_mode,
                ended,
                ContinueModes::AutoFollow,
            ) {
                Some(next) => next.index == k + 1 && next.cue_number == cues[k + 1].number && next.wait
                    == cues[k].post_wait,
                None => !(k + 1 < cues.len() && (cues[k].continue_mode == ContinueModes::AutoFollow
                    || stack_mode == ContinueModes::AutoFollow)),
            },
{
    let nums = cue_numbers(cues);
    lemma_position_of(nums, ended);
    assert forall|k: int| #![trigger cues[k]] first_match(nums, ended, k) implies position_of(nums, ended) == Some(k) by {
        lemma_position_is(nums, ended, k);
    }
    if let Some(k) = position_of(nums, ended) {
        lemma_hand_on_rule(cues, stack_mode, k, ContinueModes::AutoFollow);
        assert(first_match(nums, ended, k));
    }
}

/// Marking a cue primed or not changes only the primed flag of an audio
/// cue: number, name, waits, continue mode and kind stay, and every other
/// field of an audio cue stays too.
pub proof fn lemma_with_primed(c: Cue, primed: bool)
    ensures
        with_primed(c, primed).number == c.number,
        with_primed(c, primed).name == c.name,
        with_primed(c, primed).pre_wait == c.pre_wait,
        with_primed(c, primed).post_wait == c.post_wait,
        with_primed(c, primed).continue_mode == c.continue_mode,
        match c.cue_type {
            CueType::Audio(a) => with_primed(c, primed).cue_type matches CueType::Audio(b) && b.primed == primed
                && b.path == a.path && b.start_time == a.start_time && b.end_time == a.end_time && b.play
                == a.play && b.loops == a.loops && b.trim == a.trim,
            _ => with_primed(c, primed).cue_type == c.cue_type,
        },
{
}

/// Letting go of finished sinks keeps exactly the sinks that have not
/// finished, in their order, and marks as no longer primed exactly the cues
/// that are the first with the number of some finished sink; every other cue
/// stays as it was.
pub proof fn lemma_prune_rule<S>(cues: Seq<Cue>, sinks: Seq<AudioSink<S>>, finished: Seq<bool>)
    requires
        finished.len() == sinks.len(),
    ensures
        forall|k: int| 0 <= k < kept_from(sinks, finished, 0).len() ==> exists|m: int|
            0 <= m < sinks.len() && !finished[m] && #[trigger] kept_from(sinks, finished, 0)[k] == sinks[m],
        forall|m: int| 0 <= m < sinks.len() && !finished[m] ==> kept_from(sinks, finished, 0).contains(
            #[trigger] sinks[m],
        ),
        kept_from(sinks, finished, 0).len() + ended_from(sinks, finished, 0).len() == sinks.len(),
        cues_after_release(cues, sinks, finished, 0).len() == cues.len(),
        forall|j: int| #![trigger cues[j]]
            0 <= j < cues.len() ==> cues_after_release(cues, sinks, finished, 0)[j] == if exists|i: int|
                #![trigger sinks[i]]
                0 <= i < sinks.len() && finished[i] && position_of(cue_numbers(cues), sinks[i].cue_number)
                    == Some(j) {
                with_primed(cues[j], false)
            } else {
                cues[j]
            },
{
    lemma_kept_from_members(sinks, finished, 0);
    lemma_prune_counts(sinks, finished, 0);
}

/// Kept and ended sinks together are all the sinks from position `lo` on.
proof fn lemma_prune_counts<S>(sinks: Seq<AudioSink<S>>, finished: Seq<bool>, lo: int)
    requires
        0 <= lo <= sinks.len(),
    ensures
        kept_from(sinks, finished, lo).len() + ended_from(sinks, finished, lo).len() == sinks.len() - lo,
    decreases sinks.len() - lo,
{
    if lo < sinks.len() {
        lemma_prune_counts(sinks, finished, lo + 1);
    }
}

/// Some sink from position `lo` on has finished and was primed for number
/// `n`.
pub open spec fn finished_sink_numbered<S>(sinks: Seq<AudioSink<S>>, finished: Seq<bool>, lo: int, n: u32) -> bool {
    exists|m: int| lo <= m < sinks.len() && finished[m] && #[trigger] sinks[m].cue_number == n
}

/// The cue numbers `prune_sinks` reports are those of the finished sinks:
/// each is the number of a finished sink, and each finished sink's number is
/// reported.
pub proof fn lemma_ended_numbers<S>(sinks: Seq<AudioSink<S>>, finished: Seq<bool>, lo: int)
    requires
        0 <= lo,
        finished.len() == sinks.len(),
    ensures
        forall|k: int|
            0 <= k < ended_from(sinks, finished, lo).len() ==> finished_sink_numbered(
                sinks,
                finished,
                lo,
                #[trigger] ended_from(sinks, finished, lo)[k],
            ),
        forall|m: int| lo <= m < sinks.len() && finished[m] ==> ended_from(sinks, finished, lo).contains(
            #[trigger] sinks[m].cue_number,
        ),
    decreases sinks.len() - lo,
{
    if lo < sinks.len() {
        lemma_ended_numbers(sinks, finished, lo + 1);
        let rest = ended_from(sinks, finished, lo + 1);
        let ended = ended_from(sinks, finished, lo);
        assert forall|k: int| 0 <= k < rest.len() implies finished_sink_numbered(sinks, finished, lo, #[trigger] rest[k]) by {
            assert(finished_sink_numbered(sinks, finished, lo + 1, rest[k]));
            let m = choose|m: int| lo + 1 <= m < sinks.len() && finished[m] && #[trigger] sinks[m].cue_number == rest[k];
            assert(lo <= m < sinks.len() && finished[m] && sinks[m].cue_number == rest[k]);
        }
        if !finished[lo] {
            assert(ended == rest);
        } else {
            assert(ended == seq![sinks[lo].cue_number] + rest);
            assert forall|k: int| 0 <= k < ended.len() implies finished_sink_numbered(sinks, finished, lo, #[trigger] ended[k]) by {
                if k == 0 {
                    assert(ended[0] == sinks[lo].cue_number);
                    assert(lo <= lo < sinks.len() && finished[lo] && sinks[lo].cue_number == ended[k]);
                } else {
                    assert(ended[k] == rest[k - 1]);
                }
            }
            assert forall|m: int| lo <= m < sinks.len() && finished[m] implies ended.contains(
                #[trigger] sinks[m].cue_number,
            ) by {
                if m == lo {
                    assert(ended[0] == sinks[lo].cue_number);
                } else {
                    let k = choose|k: int| 0 <= k < rest.len() && rest[k] == sinks[m].cue_number;
                    assert(ended[k + 1] == rest[k]);
                }
            }
        }
    }
}

/// A stack with no current cue plans its first cue.
pub proof fn lemma_fresh_stack_starts_at_first_cue(numbers: Seq<u32>)
    ensures
        next_cue_index(numbers, None) == 0,
{
}

} // verus!
