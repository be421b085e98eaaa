//! The audio graph, driven with simple plugins.

use tang::graph::{AudioGraph, GraphCommand, KeyboardLane, Outcome, Timing};
use tang::lane::{new_buffers, LaneDefaults, RenderPath, SplitLane};
use tang::modulation::{LfoWaveform, ModSource, ModTarget, ModTargetKind};
use tang::pattern::{Pattern, PatternEvent};
use tang::remap::{NoteRemapper, RemapRequest};

const FRAMES: usize = 64;

/// A plugin to test with.
#[derive(Debug, Clone, PartialEq)]
enum Mock {
    Const { value: f32, outputs: usize, has_note: bool },
    Pass,
    Scale(f32),
    Offset(f32),
    Mono,
    Param(f32),
}

impl Mock {
    fn constant(value: f32) -> Mock {
        Mock::Const { value, outputs: 2, has_note: false }
    }

    fn with_outputs(value: f32, outputs: usize) -> Mock {
        Mock::Const { value, outputs, has_note: false }
    }

    fn outputs(&self) -> usize {
        match self {
            Mock::Const { outputs, .. } => *outputs,
            Mock::Mono => 1,
            _ => 2,
        }
    }

    fn name(&self) -> &'static str {
        match self {
            Mock::Const { .. } => "ConstInstrument",
            Mock::Pass => "Passthrough",
            Mock::Scale(_) => "Scale",
            Mock::Offset(_) => "Offset",
            Mock::Mono => "MonoEffect",
            Mock::Param(_) => "ParamTracker",
        }
    }

    fn play(&mut self, events: &[(u64, [u8; 3])], input: &[Vec<f32>], output: &mut [Vec<f32>]) {
        match self {
            Mock::Const { value, has_note, .. } => {
                for &(_, bytes) in events {
                    match bytes[0] & 0xF0 {
                        0x90 if bytes[2] > 0 => *has_note = true,
                        0x80 | 0x90 => *has_note = false,
                        _ => {}
                    }
                }
                for ch in output.iter_mut() {
                    ch.fill(if *has_note { *value } else { 0.0 });
                }
            }
            Mock::Param(value) => {
                for ch in output.iter_mut() {
                    ch.fill(*value);
                }
            }
            Mock::Pass | Mock::Mono => {
                for (o, i) in output.iter_mut().zip(input) {
                    o.copy_from_slice(i);
                }
            }
            Mock::Scale(gain) => {
                for (o, i) in output.iter_mut().zip(input) {
                    for (a, b) in o.iter_mut().zip(i) {
                        *a = b * *gain;
                    }
                }
            }
            Mock::Offset(by) => {
                for (o, i) in output.iter_mut().zip(input) {
                    for (a, b) in o.iter_mut().zip(i) {
                        *a = b + *by;
                    }
                }
            }
        }
    }
}

type Graph = AudioGraph<Mock, f32>;

fn defaults() -> LaneDefaults<f32> {
    LaneDefaults { zero: 0.0, unity: 1.0, sample_rate: 48000.0, length_beats: 4.0, bpm: 120.0 }
}

fn timing() -> Timing {
    Timing { pattern_samples: 96000, beat_samples: 24000 }
}

fn send(graph: &mut Graph, command: GraphCommand<Mock, f32>) -> Outcome<Mock, f32> {
    graph.apply_command(command, timing())
}

fn bare_graph() -> Graph {
    AudioGraph::new(2, defaults())
}

fn make_graph() -> Graph {
    let mut graph = bare_graph();
    send(&mut graph, GraphCommand::AddKeyboard);
    send(&mut graph, GraphCommand::AddSplit { kb: 0, range: None });
    graph
}

fn swap_instrument_at(graph: &mut Graph, split: usize, plugin: Mock) -> Outcome<Mock, f32> {
    let outputs = plugin.outputs();
    send(
        graph,
        GraphCommand::SwapInstrument {
            kb: 0,
            split,
            instrument: plugin,
            sample_rate: 48000.0,
            inst_buf: new_buffers(outputs),
            remapper: None,
        },
    )
}

fn swap_instrument(graph: &mut Graph, plugin: Mock) -> Outcome<Mock, f32> {
    swap_instrument_at(graph, 0, plugin)
}

fn insert_effect(graph: &mut Graph, index: usize, effect: Mock, mix: f32) -> Outcome<Mock, f32> {
    let outputs = effect.outputs();
    send(graph, GraphCommand::InsertEffect { kb: 0, split: 0, index, effect, outputs, mix })
}

fn make_output() -> Vec<Vec<f32>> {
    vec![vec![0.0; FRAMES]; 2]
}

fn note_on(note: u8) -> (u64, [u8; 3]) {
    (0, [0x90, note, 100])
}

fn note_off(note: u8) -> (u64, [u8; 3]) {
    (0, [0x80, note, 0])
}

/// Plays one buffer of a split.
fn play_split(lane: &mut SplitLane<Mock, f32>, midi: &[(u64, [u8; 3])], channels: usize) -> Vec<Vec<f32>> {
    assert!(lane.receive(midi));
    lane.deliver(FRAMES as u64, 96000);
    lane.gate_modulators();
    for m in &mut lane.inst_modulators {
        if let ModSource::Lfo { waveform, rate, phase } = &mut m.source {
            assert_eq!(*waveform, LfoWaveform::Sine);
            *phase = (*phase + *rate * FRAMES as f32 / 48000.0) % 1.0;
            m.last_output = (*phase * std::f32::consts::TAU).sin();
        }
        for t in &m.targets {
            let by = m.last_output * t.depth * (t.param_max - t.param_min);
            if let (ModTargetKind::PluginParam { param_index: 0 }, Some(i)) = (t.kind, &mut lane.instrument) {
                if let Mock::Param(value) = &mut i.plugin {
                    *value = (t.base_value + by).clamp(t.param_min, t.param_max);
                }
            }
        }
    }
    let path = lane.render_path(channels, (lane.volume - 1.0).abs() < f32::EPSILON);
    let mut out = vec![vec![0.0; FRAMES]; channels];
    if path == RenderPath::Silence {
        return out;
    }
    let events = lane.effective_events.clone();
    let plugin = &mut lane.instrument.as_mut().unwrap().plugin;
    if path == RenderPath::Direct {
        plugin.play(&events, &[], &mut out);
        return out;
    }
    for buf in &mut lane.inst_buf {
        buf.clear();
        buf.resize(FRAMES, 0.0);
    }
    plugin.play(&events, &[], &mut lane.inst_buf);
    for (ch, o) in out.iter_mut().enumerate() {
        if ch < lane.inst_buf.len() {
            for (a, b) in o.iter_mut().zip(&lane.inst_buf[ch]) {
                *a = b * lane.volume;
            }
        }
    }
    if path == RenderPath::Copy {
        return out;
    }
    let mut bufs = [out, vec![vec![0.0; FRAMES]; channels]];
    for index in 0..lane.effects.len() {
        let (from, to) = if lane.reads_first_buffer(index) { (0, 1) } else { (1, 0) };
        let dry = bufs[from].clone();
        lane.effects[index].play(&[], &dry, &mut bufs[to]);
        let mix = lane.mix_values[index];
        for (o, d) in bufs[to].iter_mut().zip(&dry) {
            for (a, b) in o.iter_mut().zip(d) {
                *a = b * (1.0 - mix) + *a * mix;
            }
        }
    }
    let result = if lane.reads_first_buffer(lane.effects.len()) { 0 } else { 1 };
    bufs[result].clone()
}

/// Plays one buffer of the graph.
fn process(graph: &mut Graph, midi: &[(u64, [u8; 3])], out: &mut [Vec<f32>]) {
    let channels = graph.num_channels();
    for o in out.iter_mut() {
        o.fill(0.0);
    }
    for keyboard in &mut graph.keyboards {
        for lane in &mut keyboard.splits {
            let part = play_split(lane, midi, channels);
            for (o, p) in out.iter_mut().zip(&part) {
                for (a, b) in o.iter_mut().zip(p) {
                    *a += b;
                }
            }
        }
    }
}

fn lfo() -> ModSource<f32> {
    ModSource::Lfo { waveform: LfoWaveform::Sine, rate: 1.0, phase: 0.0 }
}

fn to_param(param_index: u32) -> ModTarget<f32> {
    ModTarget {
        kind: ModTargetKind::PluginParam { param_index },
        depth: 0.5,
        base_value: 0.5,
        param_min: 0.0,
        param_max: 1.0,
    }
}

#[test]
fn silence_when_no_instrument() {
    let mut graph = make_graph();
    let mut out = make_output();
    out[0].fill(999.0);
    out[1].fill(999.0);
    process(&mut graph, &[], &mut out);
    assert!(out[0].iter().all(|&s| s == 0.0));
    assert!(out[1].iter().all(|&s| s == 0.0));
}

#[test]
fn instrument_direct_output() {
    let mut graph = make_graph();
    swap_instrument(&mut graph, Mock::constant(0.75));
    let mut out = make_output();
    process(&mut graph, &[note_on(60)], &mut out);
    assert!(out[0].iter().all(|&s| s == 0.75));
    assert!(out[1].iter().all(|&s| s == 0.75));
}

#[test]
fn instrument_silence_without_note() {
    let mut graph = make_graph();
    swap_instrument(&mut graph, Mock::constant(0.75));
    let mut out = make_output();
    process(&mut graph, &[], &mut out);
    assert!(out[0].iter().all(|&s| s == 0.0));
}

#[test]
fn note_off_silences_instrument() {
    let mut graph = make_graph();
    swap_instrument(&mut graph, Mock::constant(0.75));
    let mut out = make_output();
    process(&mut graph, &[note_on(60)], &mut out);
    assert!(out[0].iter().all(|&s| s == 0.75));
    let mut out = make_output();
    process(&mut graph, &[note_off(60)], &mut out);
    assert!(out[0].iter().all(|&s| s == 0.0));
}

#[test]
fn single_passthrough_effect() {
    let mut graph = make_graph();
    swap_instrument(&mut graph, Mock::constant(0.5));
    insert_effect(&mut graph, 0, Mock::Pass, 1.0);
    let mut out = make_output();
    process(&mut graph, &[note_on(60)], &mut out);
    assert!(out[0].iter().all(|&s| s == 0.5));
    assert!(out[1].iter().all(|&s| s == 0.5));
}

#[test]
fn dry_wet_mix() {
    let mut graph = make_graph();
    swap_instrument(&mut graph, Mock::constant(1.0));
    insert_effect(&mut graph, 0, Mock::Scale(0.0), 0.5);
    let mut out = make_output();
    process(&mut graph, &[note_on(60)], &mut out);
    assert!(out[0].iter().all(|&s| (s - 0.5).abs() < 1e-6));
    assert!(out[1].iter().all(|&s| (s - 0.5).abs() < 1e-6));
}

#[test]
fn multiple_effects_chain() {
    let mut graph = make_graph();
    swap_instrument(&mut graph, Mock::constant(1.0));
    insert_effect(&mut graph, 0, Mock::Scale(0.5), 1.0);
    insert_effect(&mut graph, 1, Mock::Scale(0.5), 1.0);
    let mut out = make_output();
    process(&mut graph, &[note_on(60)], &mut out);
    assert!(out[0].iter().all(|&s| (s - 0.25).abs() < 1e-6));
}

#[test]
fn multi_output_instrument_truncation() {
    let mut graph = make_graph();
    swap_instrument(&mut graph, Mock::with_outputs(0.8, 4));
    insert_effect(&mut graph, 0, Mock::Pass, 1.0);
    let mut out = make_output();
    process(&mut graph, &[note_on(60)], &mut out);
    assert!(out[0].iter().all(|&s| s == 0.8));
    assert!(out[1].iter().all(|&s| s == 0.8));
}

#[test]
fn multi_output_instrument_no_effects() {
    let mut graph = make_graph();
    swap_instrument(&mut graph, Mock::with_outputs(0.6, 16));
    let mut out = make_output();
    process(&mut graph, &[note_on(60)], &mut out);
    assert!(out[0].iter().all(|&s| s == 0.6));
    assert!(out[1].iter().all(|&s| s == 0.6));
}

#[test]
fn swap_instrument_returns_old() {
    let mut graph = make_graph();
    let first = swap_instrument(&mut graph, Mock::constant(1.0));
    assert!(first.returned.is_empty());
    let mut out = make_output();
    process(&mut graph, &[], &mut out);
    let second = swap_instrument(&mut graph, Mock::constant(0.5));
    assert_eq!(second.returned.len(), 1);
    assert_eq!(second.returned[0].name(), "ConstInstrument");
    assert_eq!(second.returned[0], Mock::constant(1.0));
}

#[test]
fn remove_effect() {
    let mut graph = make_graph();
    swap_instrument(&mut graph, Mock::constant(1.0));
    insert_effect(&mut graph, 0, Mock::Scale(0.5), 1.0);
    let mut out = make_output();
    process(&mut graph, &[note_on(60)], &mut out);
    assert!(out[0].iter().all(|&s| (s - 0.5).abs() < 1e-6));
    let outcome = send(&mut graph, GraphCommand::RemoveEffect { kb: 0, split: 0, index: 0 });
    assert_eq!(outcome.returned, vec![Mock::Scale(0.5)]);
    let mut out = make_output();
    process(&mut graph, &[note_on(60)], &mut out);
    assert!(out[0].iter().all(|&s| s == 1.0));
}

#[test]
fn reorder_effects() {
    let mut graph = make_graph();
    swap_instrument(&mut graph, Mock::constant(1.0));
    insert_effect(&mut graph, 0, Mock::Scale(2.0), 1.0);
    insert_effect(&mut graph, 1, Mock::Offset(0.5), 1.0);
    let mut out = make_output();
    process(&mut graph, &[note_on(60)], &mut out);
    assert!(out[0].iter().all(|&s| (s - 2.5).abs() < 1e-6));
    send(&mut graph, GraphCommand::ReorderEffect { kb: 0, split: 0, from: 0, to: 1 });
    let mut out = make_output();
    process(&mut graph, &[note_on(60)], &mut out);
    assert!(out[0].iter().all(|&s| (s - 3.0).abs() < 1e-6));
}

#[test]
fn reject_effect_with_wrong_channel_count() {
    let mut graph = make_graph();
    swap_instrument(&mut graph, Mock::constant(1.0));
    let outcome = insert_effect(&mut graph, 0, Mock::Mono, 1.0);
    let mut out = make_output();
    process(&mut graph, &[note_on(60)], &mut out);
    assert!(out[0].iter().all(|&s| s == 1.0));
    assert_eq!(outcome.returned.len(), 1);
    assert_eq!(outcome.returned[0].name(), "MonoEffect");
}

#[test]
fn remapper_integration_with_graph() {
    let requests = vec![RemapRequest {
        source: "G#4".to_string(),
        target: "G4".to_string(),
        exceeds: false,
        bend: 12288,
    }];
    let remapper = NoteRemapper::from_config(&requests, &vec![vec![true]]).unwrap();
    let mut graph = make_graph();
    send(
        &mut graph,
        GraphCommand::SwapInstrument {
            kb: 0,
            split: 0,
            instrument: Mock::constant(0.75),
            sample_rate: 48000.0,
            inst_buf: new_buffers(2),
            remapper: Some(remapper),
        },
    );
    let mut out = make_output();
    process(&mut graph, &[note_on(68)], &mut out);
    assert!(out[0].iter().all(|&s| s == 0.75));
    let heard = &graph.keyboards[0].splits[0].effective_events;
    assert_eq!(heard[0], (0, [0x91, 67, 100]));
}

#[test]
fn two_splits_sum_output() {
    let mut graph = make_graph();
    send(&mut graph, GraphCommand::AddSplit { kb: 0, range: None });
    swap_instrument_at(&mut graph, 0, Mock::constant(0.3));
    swap_instrument_at(&mut graph, 1, Mock::constant(0.5));
    let mut out = make_output();
    process(&mut graph, &[note_on(60)], &mut out);
    assert!(out[0].iter().all(|&s| (s - 0.8).abs() < 1e-6));
    assert!(out[1].iter().all(|&s| (s - 0.8).abs() < 1e-6));
}

#[test]
fn range_filtering() {
    let mut graph = bare_graph();
    let mut split_low = SplitLane::new(2, defaults());
    split_low.range = Some((12, 59));
    let mut split_high = SplitLane::new(2, defaults());
    split_high.range = Some((60, 96));
    graph.keyboards.push(KeyboardLane { splits: vec![split_low, split_high] });
    swap_instrument_at(&mut graph, 0, Mock::constant(0.3));
    swap_instrument_at(&mut graph, 1, Mock::constant(0.7));
    let mut out = make_output();
    process(&mut graph, &[note_on(36)], &mut out);
    assert!(out[0].iter().all(|&s| (s - 0.3).abs() < 1e-6));
    let mut out = make_output();
    process(&mut graph, &[note_off(36), note_on(72)], &mut out);
    assert!(out[0].iter().all(|&s| (s - 0.7).abs() < 1e-6));
}

#[test]
fn cc_passthrough_to_all_splits() {
    let mut graph = bare_graph();
    let mut split_low = SplitLane::new(2, defaults());
    split_low.range = Some((0, 59));
    let mut split_high = SplitLane::new(2, defaults());
    split_high.range = Some((60, 127));
    graph.keyboards.push(KeyboardLane { splits: vec![split_low, split_high] });
    for split in 0..2 {
        swap_instrument_at(&mut graph, split, Mock::constant(0.5));
    }
    let cc_event: (u64, [u8; 3]) = (0, [0xB0, 64, 127]);
    let mut out = make_output();
    process(&mut graph, &[cc_event], &mut out);
    assert!(out[0].iter().all(|&s| s == 0.0));
    for split in &graph.keyboards[0].splits {
        assert_eq!(split.effective_events, vec![cc_event]);
    }
}

#[test]
fn volume_scaling() {
    let mut graph = make_graph();
    swap_instrument(&mut graph, Mock::constant(1.0));
    send(&mut graph, GraphCommand::SetVolume { kb: 0, split: 0, value: 0.5 });
    let mut out = make_output();
    process(&mut graph, &[note_on(60)], &mut out);
    assert!(out[0].iter().all(|&s| (s - 0.5).abs() < 1e-6));
}

#[test]
fn empty_graph_silence() {
    let mut graph = bare_graph();
    let mut out = make_output();
    out[0].fill(999.0);
    process(&mut graph, &[note_on(60)], &mut out);
    assert!(out[0].iter().all(|&s| s == 0.0));
}

#[test]
fn modulator_applies_set_parameter() {
    let mut graph = make_graph();
    swap_instrument(&mut graph, Mock::Param(0.5));
    send(
        &mut graph,
        GraphCommand::InsertModulator { kb: 0, split: 0, parent_slot: 0, index: 0, source: lfo() },
    );
    send(
        &mut graph,
        GraphCommand::AddModTarget { kb: 0, split: 0, parent_slot: 0, mod_index: 0, target: to_param(0) },
    );
    let mut out = make_output();
    process(&mut graph, &[], &mut out);
    let first_sample = out[0][0];
    assert!(
        first_sample >= 0.0 && first_sample <= 1.0,
        "modulated value out of range: {first_sample}"
    );
    for _ in 0..1000 {
        process(&mut graph, &[], &mut out);
    }
    let sample = out[0][0];
    assert!(
        sample >= 0.0 && sample <= 1.0,
        "modulated value out of range after many buffers: {sample}"
    );
}

#[test]
fn modulator_base_value_updated_by_set_parameter() {
    let mut graph = make_graph();
    swap_instrument(&mut graph, Mock::Param(0.5));
    send(
        &mut graph,
        GraphCommand::InsertModulator { kb: 0, split: 0, parent_slot: 0, index: 0, source: lfo() },
    );
    send(
        &mut graph,
        GraphCommand::AddModTarget { kb: 0, split: 0, parent_slot: 0, mod_index: 0, target: to_param(0) },
    );
    let mut out = make_output();
    process(&mut graph, &[], &mut out);
    let outcome = send(
        &mut graph,
        GraphCommand::SetParameter { kb: 0, split: 0, slot: 0, param_index: 0, value: 0.8 },
    );
    let write = outcome.parameter.unwrap();
    assert_eq!((write.kb, write.split, write.slot, write.param_index), (0, 0, 0, 0));
    assert_eq!(graph.keyboards[0].splits[0].inst_modulators[0].targets[0].base_value, 0.8);
    process(&mut graph, &[], &mut out);
    let sample = out[0][0];
    assert!(
        (sample - 0.8).abs() < 0.3,
        "expected close to 0.8 after base change, got {sample}"
    );
}

#[test]
fn remove_effect_removes_its_modulators() {
    let mut graph = make_graph();
    swap_instrument(&mut graph, Mock::constant(1.0));
    insert_effect(&mut graph, 0, Mock::Pass, 1.0);
    insert_effect(&mut graph, 1, Mock::Pass, 1.0);
    send(
        &mut graph,
        GraphCommand::InsertModulator { kb: 0, split: 0, parent_slot: 2, index: 0, source: lfo() },
    );
    let mut out = make_output();
    process(&mut graph, &[note_on(60)], &mut out);
    send(&mut graph, GraphCommand::RemoveEffect { kb: 0, split: 0, index: 0 });
    assert_eq!(graph.keyboards[0].splits[0].effect_modulators.len(), 1);
    assert_eq!(graph.keyboards[0].splits[0].effect_modulators[0].len(), 1);
    let mut out = make_output();
    process(&mut graph, &[note_on(60)], &mut out);
    assert!(out[0].iter().all(|&s| s.is_finite()));
}

#[test]
fn commands_for_missing_splits_change_nothing() {
    let mut graph = make_graph();
    let outcome = swap_instrument_at(&mut graph, 7, Mock::constant(1.0));
    assert!(graph.keyboards[0].splits[0].instrument.is_none());
    assert!(outcome.parameter.is_none());
    send(&mut graph, GraphCommand::RemoveSplit { kb: 3, split: 0 });
    assert_eq!(graph.keyboards.len(), 1);
    assert_eq!(graph.keyboards[0].splits.len(), 1);
}

#[test]
fn removing_a_keyboard_gives_its_plugins_back() {
    let mut graph = make_graph();
    swap_instrument(&mut graph, Mock::constant(1.0));
    insert_effect(&mut graph, 0, Mock::Scale(2.0), 1.0);
    let outcome = send(&mut graph, GraphCommand::RemoveKeyboard { kb: 0 });
    assert_eq!(outcome.returned, vec![Mock::constant(1.0), Mock::Scale(2.0)]);
    assert!(graph.keyboards.is_empty());
}

#[test]
fn swapping_instruments_twice_puts_them_back() {
    let mut graph = make_graph();
    send(&mut graph, GraphCommand::AddSplit { kb: 0, range: Some((60, 72)) });
    swap_instrument_at(&mut graph, 0, Mock::constant(0.1));
    swap_instrument_at(&mut graph, 1, Mock::constant(0.2));
    let swap = || GraphCommand::SwapInstruments { kb: 0, split_a: 0, split_b: 1 };
    send(&mut graph, swap());
    assert_eq!(graph.keyboards[0].splits[0].instrument.as_ref().unwrap().plugin, Mock::constant(0.2));
    send(&mut graph, swap());
    assert_eq!(graph.keyboards[0].splits[0].instrument.as_ref().unwrap().plugin, Mock::constant(0.1));
    assert_eq!(graph.keyboards[0].splits[1].range, Some((60, 72)));
}

#[test]
fn moving_an_effect_there_and_back_restores_the_chain() {
    let mut graph = make_graph();
    for i in 0..4 {
        insert_effect(&mut graph, i, Mock::Scale(i as f32), 1.0);
    }
    let before = graph.keyboards[0].splits[0].effects.clone();
    send(&mut graph, GraphCommand::ReorderEffect { kb: 0, split: 0, from: 0, to: 3 });
    assert_eq!(
        graph.keyboards[0].splits[0].effects,
        vec![Mock::Scale(1.0), Mock::Scale(2.0), Mock::Scale(3.0), Mock::Scale(0.0)]
    );
    send(&mut graph, GraphCommand::ReorderEffect { kb: 0, split: 0, from: 3, to: 0 });
    assert_eq!(graph.keyboards[0].splits[0].effects, before);
}

#[test]
fn transposed_notes_that_leave_the_range_are_dropped() {
    let mut graph = make_graph();
    send(&mut graph, GraphCommand::SetTranspose { kb: 0, split: 0, semitones: 12 });
    let mut out = make_output();
    process(&mut graph, &[note_on(60), note_on(120), (1, [0xB0, 1, 2])], &mut out);
    let heard = &graph.keyboards[0].splits[0].effective_events;
    assert_eq!(*heard, vec![(0, [0x90, 72, 100]), (1, [0xB0, 1, 2])]);
}

#[test]
fn recording_gives_the_pattern_back() {
    let mut graph = make_graph();
    graph.listen();
    let started = send(&mut graph, GraphCommand::SetPatternRecording { kb: 0, split: 0, recording: true });
    assert!(started.notification.is_none());
    let player = &mut graph.keyboards[0].splits[0].pattern;
    assert!(player.counting_in);
    // The count-in lasts four beats of 24000 samples.
    let none = player.process(&[], 96000, 96000);
    assert!(none.is_none());
    assert!(player.recording && !player.counting_in);
    player.process(&[(0, [0x90, 64, 90]), (10, [0x80, 64, 0])], 100, 96000);
    let stopped = send(&mut graph, GraphCommand::SetPatternRecording { kb: 0, split: 0, recording: false });
    let note = stopped.notification.unwrap();
    assert_eq!(note.base_note, Some(64));
    assert_eq!(note.events, vec![(0, 0x90, 64, 90), (10, 0x80, 64, 0)]);
    assert!(note.enabled);
}

#[test]
fn a_pattern_plays_in_the_key_that_is_held() {
    let mut graph = make_graph();
    let events = vec![
        PatternEvent { frame: 0, status: 0x90, note: 60, velocity: 90 },
        PatternEvent { frame: 40, status: 0x80, note: 60, velocity: 0 },
    ];
    send(
        &mut graph,
        GraphCommand::SetPattern {
            kb: 0,
            split: 0,
            pattern: Pattern { events, length_samples: 96000 },
            base_note: Some(60),
        },
    );
    send(&mut graph, GraphCommand::SetPatternEnabled { kb: 0, split: 0, enabled: true });
    let mut out = make_output();
    process(&mut graph, &[note_on(67)], &mut out);
    let heard = graph.keyboards[0].splits[0].effective_events.clone();
    assert!(heard.contains(&(0, [0x90, 67, 90])));
    assert!(heard.iter().any(|e| e.1[0] & 0xF0 == 0x80 && e.1[1] == 67));
    // Letting the key go silences what still sounds, and nothing new starts.
    process(&mut graph, &[note_off(67)], &mut out);
    process(&mut graph, &[], &mut out);
    assert!(graph.keyboards[0].splits[0].effective_events.is_empty());
}

#[test]
fn the_way_of_the_audio_follows_the_chain() {
    let mut graph = make_graph();
    assert_eq!(graph.keyboards[0].splits[0].render_path(2, true), RenderPath::Silence);
    swap_instrument(&mut graph, Mock::with_outputs(1.0, 2));
    assert_eq!(graph.keyboards[0].splits[0].render_path(2, true), RenderPath::Direct);
    assert_eq!(graph.keyboards[0].splits[0].render_path(2, false), RenderPath::Copy);
    assert_eq!(graph.keyboards[0].splits[0].render_path(1, true), RenderPath::Copy);
    insert_effect(&mut graph, 0, Mock::Pass, 1.0);
    assert_eq!(graph.keyboards[0].splits[0].render_path(2, true), RenderPath::Chain);
}
