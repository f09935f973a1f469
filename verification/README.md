# engine

The audio engine of a guitar rig, as a library whose logic is proved with
Verus: how a chain's inputs and outputs resolve into isolated runtimes and
segments, which blocks a rebuild may keep, how block toggles fade, how the
loopers record, undo and play, how a rig keeps its inputs from sharing a
capture tap, and how an offline render walks its blocks.

## Layout

- `src/`: the verified library. Its functions carry contracts, save the
  metronome's lock-free accessors, whose atomics any thread may store into
  at any time; the properties that span functions stand as `law_*` proof
  functions.
  - `chain`, `endpoints`, `segments`, `runtime_assembly`, `port_groups`:
    from a chain and its I/O bindings to effective inputs and outputs,
    segments, runtime groups and rebuild decisions.
  - `block_nodes`, `block_toggle`, `offline`: building and reusing block
    nodes, toggles and fades, offline rendering.
  - `looper`, `looper_op`, `looper_bank`, `looper_status`, `loop_edit`: the
    loopers and loop editing.
  - `rig`, `rig_projection`: activating rig inputs without tap conflicts,
    presets and scenes, and projecting a rig onto its chains.
  - `audio_frame`, `callback_plan`, `route_cushion`, `elastic`,
    `beat_position`, `metronome_state`, `queue`: frames, the plan of one
    input callback, output-route sizing, the metronome and the lock-free
    queues between the control and audio threads.
- `tests/`: tests of the library.
- `app/`: the sample arithmetic (floating point) around the library: mixing,
  limiting, loop rendering and meters.

The only outside crate is `crossbeam-queue`, the lock-free queue between
the control thread and the audio thread.
