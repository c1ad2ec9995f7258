use cue_stack::cue_number::numbers_equal;
use cue_stack::cue_types::AudioCue;
use cue_stack::cue_types::AudioSink;
use cue_stack::cue_types::CueType;
use cue_stack::cue_types::FadeCue;
use cue_stack::cue_types::FadeShape;
use cue_stack::cue_types::SinkAction;
use cue_stack::cue_types::StopCue;
use cue_stack::defs::ContinueModes;
use cue_stack::defs::Cue;
use cue_stack::defs::CueAction;
use cue_stack::defs::CueStack;
use cue_stack::defs::GoPlan;
use cue_stack::defs::GoStep;
use cue_stack::defs::State;
use cue_stack::error::Error;
use cue_stack::util::default_play;
use cue_stack::util::is_zero_u32;
use std::time::Duration;

fn bits(x: f32) -> u32 {
    x.to_bits()
}

fn audio(number: f32, path: &str) -> Cue {
    Cue {
        number: bits(number),
        name: format!("audio {}", number),
        pre_wait: Duration::from_secs(0),
        post_wait: Duration::from_secs(0),
        continue_mode: ContinueModes::DoNotContinue,
        cue_type: CueType::Audio(AudioCue::new(path.to_string(), None, None, 1, false, bits(-3.0))),
    }
}

fn stop(number: f32, target: f32) -> Cue {
    Cue {
        number: bits(number),
        name: format!("stop {}", target),
        pre_wait: Duration::from_secs(0),
        post_wait: Duration::from_secs(0),
        continue_mode: ContinueModes::DoNotContinue,
        cue_type: CueType::Stop(StopCue { target_cue: bits(target) }),
    }
}

fn fade(number: f32, target: f32, and_stop: bool) -> Cue {
    Cue {
        number: bits(number),
        name: format!("fade {}", target),
        pre_wait: Duration::from_secs(0),
        post_wait: Duration::from_secs(0),
        continue_mode: ContinueModes::DoNotContinue,
        cue_type: CueType::Fade(FadeCue {
            target_cue: bits(target),
            duration: Duration::from_millis(1500),
            target_db: bits(-60.0),
            shape: FadeShape::Exponential,
            and_stop,
        }),
    }
}

fn stack(cues: Vec<Cue>) -> CueStack<&'static str> {
    CueStack {
        cues,
        name: "show".to_string(),
        continue_mode: ContinueModes::DoNotContinue,
        current_cue_number: None,
        audio_sinks: Vec::new(),
    }
}

fn is_primed(stack: &CueStack<&'static str>, number: f32) -> bool {
    match stack.get_cue_by_number(bits(number)) {
        Some(Cue { cue_type: CueType::Audio(a), .. }) => a.primed,
        _ => false,
    }
}

fn no_finished(stack: &CueStack<&'static str>) -> Vec<bool> {
    vec![false; stack.audio_sinks.len()]
}

#[test]
fn numbers_compare_as_floats() {
    assert!(numbers_equal(bits(1.5), bits(1.5)));
    assert!(!numbers_equal(bits(1.5), bits(2.5)));
    assert!(numbers_equal(bits(0.0), bits(-0.0)));
    assert!(!numbers_equal(bits(f32::NAN), bits(f32::NAN)));
    assert!(!numbers_equal(bits(f32::NAN), bits(1.0)));
    assert!(numbers_equal(bits(f32::INFINITY), bits(f32::INFINITY)));
    assert!(!numbers_equal(bits(f32::INFINITY), bits(f32::NEG_INFINITY)));
    assert!(!numbers_equal(0x7fc0_0001, 0x7fc0_0001));
    assert!(!numbers_equal(0xffc0_0000, 0xffc0_0000));
}

#[test]
fn defaults() {
    assert_eq!(default_play(), 1);
    assert!(is_zero_u32(&0));
    assert!(!is_zero_u32(&7));
    assert_eq!(ContinueModes::default(), ContinueModes::DoNotContinue);
    assert_eq!(FadeShape::default(), FadeShape::Linear);
}

#[test]
fn new_audio_cue_is_unprimed() {
    let a = AudioCue::new("a.mp3".to_string(), Some(Duration::from_secs(2)), None, 3, true, bits(1.5));
    assert_eq!(a.path, "a.mp3");
    assert_eq!(a.start_time, Some(Duration::from_secs(2)));
    assert_eq!(a.end_time, None);
    assert_eq!(a.play, 3);
    assert!(a.loops);
    assert!(!a.primed);
    assert_eq!(a.trim, bits(1.5));
}

#[test]
fn lookup_finds_first_equal_number() {
    let mut s = stack(vec![audio(1.0, "a"), audio(2.5, "b"), audio(2.5, "c"), audio(-0.0, "z")]);
    assert_eq!(s.cue_index_by_number(bits(2.5)), Some(1));
    match &s.get_cue_by_number(bits(2.5)).unwrap().cue_type {
        CueType::Audio(a) => assert_eq!(a.path, "b"),
        _ => panic!("expected an audio cue"),
    }
    assert_eq!(s.cue_index_by_number(bits(0.0)), Some(3));
    assert!(s.get_cue_by_number(bits(3.0)).is_none());
    assert!(s.get_cue_by_number(bits(f32::NAN)).is_none());
    let c = s.get_cue_by_number_mut(bits(1.0)).unwrap();
    c.name = "renamed".to_string();
    assert_eq!(s.cues[0].name, "renamed");
    assert!(s.get_cue_by_number_mut(bits(9.0)).is_none());
}

#[test]
fn prime_audio_cue_keeps_sink() {
    let mut s = stack(vec![audio(1.0, "a"), stop(2.0, 1.0)]);
    assert!(matches!(s.cue_to_prime(bits(1.0)), Ok(Some(a)) if a.path == "a"));
    assert_eq!(s.prime_cue(bits(1.0), "sink-a"), Ok(()));
    assert!(is_primed(&s, 1.0));
    assert_eq!(s.audio_sinks.len(), 1);
    assert_eq!(s.audio_sinks[0].sink, "sink-a");
    assert_eq!(s.audio_sinks[0].cue_number, bits(1.0));
    assert_eq!(s.sink_index_by_cue_number(bits(1.0)), Some(0));
    let sink = s.get_sink_by_cue_number(bits(1.0)).unwrap();
    sink.sink = "replaced";
    assert_eq!(s.audio_sinks[0].sink, "replaced");
}

#[test]
fn prime_other_cue_or_missing_cue() {
    let mut s = stack(vec![audio(1.0, "a"), stop(2.0, 1.0)]);
    assert!(matches!(s.cue_to_prime(bits(2.0)), Ok(None)));
    assert_eq!(s.prime_cue(bits(2.0), "unused"), Ok(()));
    assert!(s.audio_sinks.is_empty());
    assert!(matches!(s.cue_to_prime(bits(7.0)), Err(Error::CueNotFound(n)) if n == bits(7.0)));
    assert_eq!(s.prime_cue(bits(7.0), "unused"), Err(Error::CueNotFound(bits(7.0))));
    assert!(s.audio_sinks.is_empty());
    assert!(!is_primed(&s, 1.0));
}

#[test]
fn prune_removes_finished_sinks_and_unprimes() {
    let mut s = stack(vec![audio(1.0, "a"), audio(2.0, "b"), audio(3.0, "c")]);
    s.prime_cue(bits(1.0), "s1").unwrap();
    s.prime_cue(bits(2.0), "s2").unwrap();
    s.prime_cue(bits(3.0), "s3").unwrap();
    let ended = s.prune_sinks(&vec![true, false, true]);
    assert_eq!(ended, vec![bits(1.0), bits(3.0)]);
    assert_eq!(s.audio_sinks.len(), 1);
    assert_eq!(s.audio_sinks[0].sink, "s2");
    assert!(!is_primed(&s, 1.0));
    assert!(is_primed(&s, 2.0));
    assert!(!is_primed(&s, 3.0));
    let numbers: Vec<u32> = s.cues.iter().map(|c| c.number).collect();
    assert_eq!(numbers, vec![bits(1.0), bits(2.0), bits(3.0)]);
}

#[test]
fn prune_nothing_finished_changes_nothing() {
    let mut s = stack(vec![audio(1.0, "a"), audio(2.0, "b")]);
    s.prime_cue(bits(1.0), "s1").unwrap();
    s.prime_cue(bits(2.0), "s2").unwrap();
    let fin = no_finished(&s);
    assert!(s.prune_sinks(&fin).is_empty());
    assert_eq!(s.audio_sinks.len(), 2);
    assert!(is_primed(&s, 1.0) && is_primed(&s, 2.0));
}

#[test]
fn trigger_primed_audio_cue_plays() {
    let mut s = stack(vec![audio(1.0, "a"), audio(2.0, "b")]);
    s.prime_cue(bits(2.0), "s2").unwrap();
    let fin = no_finished(&s);
    s.cues[1].pre_wait = Duration::from_millis(250);
    let r = s.trigger_cue(bits(2.0), &fin);
    match r {
        Ok(Ok(a)) => {
            assert!(matches!(a.action, SinkAction::Play { sink: 0 }));
            assert_eq!(a.pre_wait, Duration::from_millis(250));
        }
        _ => panic!("expected a play action"),
    }
    assert_eq!(s.current_cue_number, Some(bits(2.0)));
}

#[test]
fn trigger_unprimed_audio_cue() {
    let mut s = stack(vec![audio(1.0, "a")]);
    let r = s.trigger_cue(bits(1.0), &vec![]);
    assert!(matches!(r, Ok(Err(Error::CueNotPrimed(n))) if n == bits(1.0)));
    assert_eq!(s.current_cue_number, Some(bits(1.0)));
}

#[test]
fn trigger_missing_cue() {
    let mut s = stack(vec![audio(1.0, "a")]);
    s.current_cue_number = Some(bits(1.0));
    s.prime_cue(bits(1.0), "s1").unwrap();
    let r = s.trigger_cue(bits(4.0), &vec![true]);
    assert!(matches!(r, Err(Error::CueNotFound(n)) if n == bits(4.0)));
    assert_eq!(s.current_cue_number, Some(bits(1.0)));
    assert!(s.audio_sinks.is_empty());
    assert!(!is_primed(&s, 1.0));
}

#[test]
fn trigger_stop_cue() {
    let mut s = stack(vec![audio(1.0, "a"), audio(2.0, "b"), stop(3.0, 2.0), stop(4.0, 9.0)]);
    s.prime_cue(bits(1.0), "s1").unwrap();
    s.prime_cue(bits(2.0), "s2").unwrap();
    let r = s.trigger_cue(bits(3.0), &vec![true, false]);
    assert!(matches!(r, Ok(Ok(a)) if matches!(a.action, SinkAction::Stop { sink: 0 })));
    assert_eq!(s.audio_sinks[0].sink, "s2");
    let r = s.trigger_cue(bits(4.0), &vec![false]);
    assert!(matches!(r, Ok(Err(Error::CueNotFound(n))) if n == bits(9.0)));
    assert_eq!(s.current_cue_number, Some(bits(4.0)));
}

#[test]
fn trigger_fade_cue() {
    let mut s = stack(vec![audio(1.0, "a"), fade(2.0, 1.0, true), fade(3.0, 8.0, false)]);
    s.prime_cue(bits(1.0), "s1").unwrap();
    match s.trigger_cue(bits(2.0), &vec![false]) {
        Ok(Ok(CueAction { pre_wait, action: SinkAction::Fade { sink, fade } })) => {
            assert_eq!(pre_wait, Duration::from_secs(0));
            assert_eq!(sink, 0);
            assert_eq!(fade.target_cue, bits(1.0));
            assert_eq!(fade.duration, Duration::from_millis(1500));
            assert_eq!(fade.target_db, bits(-60.0));
            assert_eq!(fade.shape, FadeShape::Exponential);
            assert!(fade.and_stop);
        }
        _ => panic!("expected a fade of sink 0"),
    }
    let r = s.trigger_cue(bits(3.0), &vec![false]);
    assert!(matches!(r, Ok(Err(Error::CueNotFound(n))) if n == bits(8.0)));
}

#[test]
fn stop_and_fade_go_directly() {
    let mut s = stack(vec![audio(1.0, "a")]);
    let st = StopCue { target_cue: bits(1.0) };
    assert!(matches!(st.go(&s), Err(Error::CueNotFound(n)) if n == bits(1.0)));
    s.prime_cue(bits(1.0), "s1").unwrap();
    assert!(matches!(st.go(&s), Ok(SinkAction::Stop { sink: 0 })));
    let f = FadeCue {
        target_cue: bits(1.0),
        duration: Duration::from_secs(1),
        target_db: bits(0.0),
        shape: FadeShape::Linear,
        and_stop: false,
    };
    assert!(matches!(f.go(&s), Ok(SinkAction::Fade { sink: 0, .. })));
}

#[test]
fn go_walks_the_stack_in_order() {
    let mut s = stack(vec![audio(1.0, "a"), audio(1.5, "b"), audio(2.0, "c")]);
    assert_eq!(s.go(), GoPlan::Trigger { cue_number: bits(1.0), index: 0 });
    s.trigger_cue(bits(1.0), &vec![]).unwrap().unwrap_err();
    assert!(matches!(s.after_trigger(0, Ok(())), GoStep::Done(Ok(State::Unfinished))));
    assert_eq!(s.go(), GoPlan::Trigger { cue_number: bits(1.5), index: 1 });
    s.trigger_cue(bits(1.5), &vec![]).unwrap().unwrap_err();
    assert_eq!(s.go(), GoPlan::Trigger { cue_number: bits(2.0), index: 2 });
    s.trigger_cue(bits(2.0), &vec![]).unwrap().unwrap_err();
    assert_eq!(s.go(), GoPlan::Finished);
}

#[test]
fn fresh_stack_starts_at_cue_numbered_zero() {
    let mut s = stack(vec![audio(0.0, "zero"), audio(1.0, "one")]);
    assert_eq!(s.go(), GoPlan::Trigger { cue_number: bits(0.0), index: 0 });
    s.current_cue_number = Some(bits(0.0));
    assert_eq!(s.go(), GoPlan::Trigger { cue_number: bits(1.0), index: 1 });
}

#[test]
fn go_on_empty_stack_finishes() {
    let s = stack(vec![]);
    assert_eq!(s.go(), GoPlan::Finished);
}

#[test]
fn auto_continue_hands_on_to_next_cue() {
    let mut cues = vec![audio(1.0, "a"), audio(2.0, "b"), audio(3.0, "c")];
    cues[0].continue_mode = ContinueModes::AutoContinue;
    cues[0].post_wait = Duration::from_millis(500);
    let mut s = stack(cues);
    match s.after_trigger(0, Ok(())) {
        GoStep::Next(next) => {
            assert_eq!(next.cue_number, bits(2.0));
            assert_eq!(next.index, 1);
            assert_eq!(next.wait, Duration::from_millis(500));
        }
        _ => panic!("expected the next cue"),
    }
    assert!(matches!(
        s.after_trigger(0, Err(Error::CueNotPrimed(bits(1.0)))),
        GoStep::Done(Err(Error::CueNotPrimed(n))) if n == bits(1.0)
    ));
    assert!(matches!(s.after_trigger(1, Ok(())), GoStep::Done(Ok(State::Unfinished))));
    s.continue_mode = ContinueModes::AutoContinue;
    assert!(matches!(s.after_trigger(1, Ok(())), GoStep::Next(n) if n.cue_number == bits(3.0) && n.index == 2));
    assert!(matches!(s.after_trigger(2, Ok(())), GoStep::Done(Ok(State::Unfinished))));
    assert!(matches!(s.after_trigger(7, Ok(())), GoStep::Done(Ok(State::Unfinished))));
}

#[test]
fn stack_auto_continue_runs_to_the_end() {
    let mut s = stack(vec![audio(1.0, "a"), audio(2.0, "b"), audio(3.0, "c")]);
    s.continue_mode = ContinueModes::AutoContinue;
    for n in [1.0, 2.0, 3.0] {
        s.prime_cue(bits(n), "sink").unwrap();
    }
    let mut triggered = Vec::new();
    let mut planned = match s.go() {
        GoPlan::Trigger { cue_number, index } => (cue_number, index),
        GoPlan::Finished => panic!("expected a cue"),
    };
    loop {
        triggered.push(planned.0);
        let fin = no_finished(&s);
        let outcome = s.trigger_cue(planned.0, &fin).unwrap().map(|_| ());
        assert_eq!(outcome, Ok(()));
        match s.after_trigger(planned.1, outcome) {
            GoStep::Next(next) => planned = (next.cue_number, next.index),
            GoStep::Done(r) => {
                assert_eq!(r, Ok(State::Unfinished));
                break;
            }
        }
    }
    assert_eq!(triggered, vec![bits(1.0), bits(2.0), bits(3.0)]);
    assert_eq!(s.go(), GoPlan::Finished);
}

#[test]
fn continuation_follows_the_planned_cue_with_repeated_numbers() {
    // cues 0 and 2 share a number; only cue 0 continues automatically
    let mut cues = vec![audio(1.0, "a"), audio(2.0, "b"), audio(1.0, "c"), audio(4.0, "d")];
    cues[0].continue_mode = ContinueModes::AutoContinue;
    let mut s = stack(cues);
    s.current_cue_number = Some(bits(2.0));
    assert_eq!(s.go(), GoPlan::Trigger { cue_number: bits(1.0), index: 2 });
    assert!(matches!(s.after_trigger(2, Ok(())), GoStep::Done(Ok(State::Unfinished))));
    // now only the later cue continues: the go planned for it goes on to cue 3
    s.cues[0].continue_mode = ContinueModes::DoNotContinue;
    s.cues[2].continue_mode = ContinueModes::AutoContinue;
    assert!(matches!(s.after_trigger(2, Ok(())), GoStep::Next(n) if n.index == 3 && n.cue_number == bits(4.0)));
    // an ended sink is found by number, so its first cue decides whether it follows on
    s.cues[2].continue_mode = ContinueModes::AutoFollow;
    assert!(s.follow_on(bits(1.0)).is_none());
    s.cues[0].continue_mode = ContinueModes::AutoFollow;
    assert!(matches!(s.follow_on(bits(1.0)), Some(n) if n.index == 1));
}

#[test]
fn auto_follow_hands_on_when_cue_ends() {
    let mut cues = vec![audio(1.0, "a"), audio(2.0, "b"), audio(3.0, "c")];
    cues[1].continue_mode = ContinueModes::AutoFollow;
    cues[1].post_wait = Duration::from_secs(2);
    let mut s = stack(cues);
    assert!(s.follow_on(bits(1.0)).is_none());
    let next = s.follow_on(bits(2.0)).unwrap();
    assert_eq!(next.cue_number, bits(3.0));
    assert_eq!(next.index, 2);
    assert_eq!(next.wait, Duration::from_secs(2));
    assert!(s.follow_on(bits(3.0)).is_none());
    assert!(s.follow_on(bits(9.0)).is_none());
    s.continue_mode = ContinueModes::AutoFollow;
    assert!(matches!(s.follow_on(bits(1.0)), Some(n) if n.cue_number == bits(2.0)));
    // a cue that continues does not also follow on
    s.continue_mode = ContinueModes::DoNotContinue;
    s.cues[0].continue_mode = ContinueModes::AutoContinue;
    assert!(s.follow_on(bits(1.0)).is_none());
}

#[test]
fn go_with_duplicate_numbers_stays() {
    let mut s = stack(vec![audio(1.0, "a"), audio(1.0, "b"), audio(2.0, "c")]);
    s.current_cue_number = Some(bits(1.0));
    assert_eq!(s.go(), GoPlan::Trigger { cue_number: bits(1.0), index: 1 });
}

#[test]
fn state_and_error_compare() {
    assert_eq!(State::Finished, State::Finished);
    assert_ne!(State::Finished, State::Unfinished);
    assert_ne!(Error::CueNotFound(1), Error::CueNotPrimed(1));
    let sink = AudioSink { sink: 5u8, cue_number: bits(1.0) };
    assert_eq!(sink.sink, 5);
}
