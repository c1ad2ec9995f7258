# cue_stack

A cue stack for playing back a show: numbered cues that play an audio file,
stop another cue, or fade its volume, triggered by number or one after another
with `go`.

- `src/` is the library, verified with Verus. `cue_number` compares cue numbers
  (bit patterns of `f32` values) as `f32 ==` does; `defs` holds the stack and
  its operations (lookup, priming, letting go of finished sinks, triggering
  with the cue's pre-wait, planning the next `go`, and the cue that an
  auto-continue or auto-follow cue hands on to after its post-wait); `cue_types` holds the cue kinds and the actions a
  triggered cue asks of a sink.
- `app/` is the player program: it reads `cue_stack.yaml`, drives audio
  output with rodio (decoding, playing, stopping, volume fades), and runs the
  prompt loop, asking the library what each command does.
- `tests/` exercises the library on concrete stacks.
