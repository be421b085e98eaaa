# Tang

The core of a terminal host for audio plugins, written in Rust and verified with
[Verus](https://github.com/verus-lang/verus). Tang loads LV2, CLAP and VST3 plugins, arranges them
in keyboards, splits and effect chains, modulates their parameters, records and loops patterns, and
saves it all as a session.

## Layout

- `src/` is the library. Every function has a contract, and Verus proves it.
  - `notes`, `scale`, `chord`, `held_notes`, `midi`: note names, scales, chords, MIDI messages.
  - `piano`, `piano_filter`: the computer keyboard as a piano.
  - `remap`, `pattern`, `modulation`, `lane`, `graph`: what happens to notes on the audio thread,
    and the commands that change the audio graph.
  - `session`, `reload`, `config`, `paths`, `cli`, `startup`, `play`: session files, settings,
    paths on each operating system, and how a session starts.
  - `plugin`, `autodetect`, `builtin`, `formats`, `audio`: where plugins come from, and the
    bookkeeping of each format.
  - `tui`: the session editor as a state machine. `tui/opening.rs` and `tui/mirror.rs` hold the
    proofs that what the editor shows and what the audio graph holds are in step when a session is
    opened, and stay so.
- `tests/` runs the library on concrete values.
- `app/` is the program around it: terminal, audio device, files, plugin hosts, and the arithmetic
  on samples.

## How to read it

Scalars (parameter values, tempo, volume) are a type parameter `F`, and loaded plugins are a type
parameter `P`; the program takes `f32` and a boxed plugin for them. A structure that holds vectors
or strings has a view, a mathematical value that contracts speak of. Operations that change state
have a spec function that gives the state afterwards, and say that the new view is its value.

Properties of the library as a whole stand as public proof functions beside what they speak of:
that a saved session reads back, that a note-off reaches the plugin that got the note-on, that no
plugin is lost when the graph changes, and others.
