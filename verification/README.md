# daw

The core of a digital audio workstation engine, written in Verus: the parts
whose behaviour can be stated over integers, sequences and maps carry
contracts that Verus proves.

## Layout

- `src/` — the verified library.
  - `midi.rs` — MIDI tracks (stable sort by tick, duration) and the
    block-by-block sequencer that turns due events into note commands.
  - `graph.rs` — the shape of the audio graph on a `petgraph` directed graph:
    nodes, connections that never close a cycle, and the processing schedule.
  - `synth.rs` — voice allocation of the polyphonic synthesizer (release,
    stealing, retiring silent voices).
  - `automation.rs` — automation breakpoints kept in order, and the lookup of
    the breakpoints that govern a sample.
  - `delay.rs` — the circular buffer behind delay lines, comb and all-pass
    filters.
  - `triple_buffer.rs` — the slot protocol of the triple buffer and the bit
    layout of its shared ready word.
  - `engine.rs` — how the engine's transport and track levels respond to
    commands.
  - `render.rs` — the software render target, rectangle fills, level-meter
    bars and peak-hold counters.
  - `project.rs` — the integer rules of a project file.
  - `collab.rs` — the collaborative project on an `automerge` document:
    creating, saving, loading and merging it, track keys, muting, and the
    decoding of track entries.
  - `nodes.rs` — configuration and marker types shared with the application.
- `tests/` — tests run against the compiled library.
- `app/` — the program around the library: floating-point DSP, audio
  rendering, lock-free queues and threads, GPU set-up, serialisation, and the
  floating-point track levels of the collaboration document.
