//! Starting a session.

use tang::graph::{AudioGraph, GraphCommand, Timing};
use tang::lane::LaneDefaults;
use tang::modulation::{LfoWaveform, ModSource, ModTargetKind};
use tang::play::{load_effect, load_instrument, load_session, Opened, OpenedInstrument, OpenedSplit};
use tang::plugin::{find_preset, ParameterInfo, Preset};
use tang::session::{
    EffectConfig, KeyboardConfig, ModTargetConfig, ModulatorConfig, PatternConfig, PluginConfig, SessionConfig,
    SplitConfig,
};
use tang::startup::{
    apply_overrides, default_session, find_param, find_target, load_modulators, load_pattern, SlotPlace,
};
use tang::tui::editor::Numbers;
use tang::tui::load::{start_session, to_keyboard_nodes, LoadedModSource};

fn numbers() -> Numbers<i32> {
    Numbers {
        zero: 0,
        unity: 1000,
        new_depth: 500,
        rate_min: 10,
        rate_max: 50000,
        time_min: 1,
        time_max: 10000,
        beats_min: 1000,
        beats_max: 32000,
        new_beats: 4000,
        bpm_min: 20000,
        bpm_max: 300000,
        attack: 10,
        decay: 300,
        sustain: 700,
        release: 500,
    }
}

fn param(index: u32, name: &str, default: i32) -> ParameterInfo<i32> {
    ParameterInfo { index, name: name.to_string(), min: 0, max: 1000, default }
}

fn params() -> Vec<ParameterInfo<i32>> {
    vec![param(0, "cutoff", 100), param(1, "tone", 200)]
}

fn target() -> ModTargetConfig<i32> {
    ModTargetConfig {
        param: None,
        mod_rate: None,
        mod_depth: None,
        mod_attack: None,
        mod_decay: None,
        mod_sustain: None,
        mod_release: None,
        depth: 250,
    }
}

fn modulator(mod_type: &str, waveform: &str, targets: Vec<ModTargetConfig<i32>>) -> ModulatorConfig<i32> {
    ModulatorConfig {
        mod_type: mod_type.to_string(),
        waveform: waveform.to_string(),
        rate: 2000,
        attack: 1,
        decay: 2,
        sustain: 3,
        release: 4,
        targets,
    }
}

#[test]
fn overrides_reach_the_named_parameters() {
    let overrides =
        vec![("tone".to_string(), 7), ("nothing".to_string(), 8), ("tone".to_string(), 9)];
    let (commands, values) = apply_overrides::<&str, i32>(&params(), &overrides, 1, 2, 3);
    assert_eq!(values, vec![100, 9]);
    assert_eq!(commands.len(), 2);
    assert!(matches!(
        commands[1],
        GraphCommand::SetParameter { kb: 1, split: 2, slot: 3, param_index: 1, value: 9 }
    ));
    assert!(find_param(&params(), "cutoff").is_some());
    assert!(find_param(&params(), "Cutoff").is_none());
}

#[test]
fn targets_are_found_by_field() {
    let n = numbers();
    let by_name = ModTargetConfig { param: Some("tone".to_string()), ..target() };
    let found = find_target(&by_name, &params(), &n).unwrap();
    assert_eq!(found.kind, ModTargetKind::PluginParam { param_index: 1 });
    assert_eq!((found.min, found.max, found.base), (0, 1000, 200));
    let missing = ModTargetConfig { param: Some("none".to_string()), mod_rate: Some(1), ..target() };
    assert!(find_target(&missing, &params(), &n).is_none());
    let rate = ModTargetConfig { mod_rate: Some(1), ..target() };
    let found = find_target(&rate, &params(), &n).unwrap();
    assert_eq!(found.kind, ModTargetKind::ModulatorRate { mod_index: 1 });
    assert_eq!(found.label, "Mod 1 rate");
    let depth = ModTargetConfig { mod_depth: Some(vec![2]), ..target() };
    let found = find_target(&depth, &params(), &n).unwrap();
    assert_eq!(found.kind, ModTargetKind::ModulatorDepth { mod_index: 2, target_index: 0 });
    assert_eq!(found.label, "Mod 2 depth 0");
    assert!(find_target(&target(), &params(), &n).is_none());
}

#[test]
fn modulators_are_sent_and_shown() {
    let by_name = ModTargetConfig { param: Some("cutoff".to_string()), ..target() };
    let mods = vec![
        modulator("lfo", "nonsense", vec![by_name, target()]),
        modulator("envelope", "sine", vec![]),
    ];
    let at = SlotPlace { kb: 0, split: 1, slot: 2 };
    let (commands, loaded) = load_modulators::<&str, i32>(&mods, &params(), &numbers(), at);
    assert_eq!(commands.len(), 3);
    assert!(matches!(
        commands[0],
        GraphCommand::InsertModulator {
            kb: 0,
            split: 1,
            parent_slot: 2,
            index: 0,
            source: ModSource::Lfo { waveform: LfoWaveform::Sine, rate: 2000, phase: 0 },
        }
    ));
    assert!(matches!(commands[1], GraphCommand::AddModTarget { mod_index: 0, .. }));
    assert!(matches!(
        commands[2],
        GraphCommand::InsertModulator { index: 1, source: ModSource::Envelope { attack: 1, .. }, .. }
    ));
    assert_eq!(loaded.len(), 2);
    assert_eq!(loaded[0].targets.len(), 1);
    assert_eq!(loaded[0].targets[0].param_name, "cutoff");
    assert!(matches!(loaded[1].source, LoadedModSource::Envelope { sustain: 3, .. }));
}

fn opened(outputs: usize) -> Opened<&'static str, i32> {
    Opened {
        plugin: "synth",
        name: "Synth".to_string(),
        source: "clap:synth".to_string(),
        outputs,
        sample_rate: 48,
        params: params(),
    }
}

fn instrument(outputs: usize, plain: bool) -> OpenedInstrument<&'static str, i32> {
    OpenedInstrument { opened: opened(outputs), remapper: None, plain }
}

#[test]
fn an_instrument_is_put_in_place_and_set_up() {
    let config = PluginConfig {
        plugin: "clap:synth".to_string(),
        preset: None,
        volume: 500,
        pitch_bend_range: 2,
        remap: vec![],
        params: vec![("tone".to_string(), 7)],
        modulators: vec![modulator("lfo", "saw", vec![])],
    };
    let (commands, loaded) = load_instrument(&config, instrument(4, false), &numbers(), 1, 2);
    assert_eq!(commands.len(), 4);
    match &commands[0] {
        GraphCommand::SwapInstrument { kb, split, instrument, inst_buf, remapper, .. } => {
            assert_eq!((*kb, *split, *instrument, inst_buf.len()), (1, 2, "synth", 4));
            assert!(remapper.is_none());
        }
        _ => panic!("no instrument"),
    }
    assert!(matches!(commands[1], GraphCommand::SetVolume { kb: 1, split: 2, value: 500 }));
    assert!(matches!(commands[2], GraphCommand::SetParameter { slot: 0, param_index: 1, .. }));
    assert!(matches!(commands[3], GraphCommand::InsertModulator { parent_slot: 0, .. }));
    assert!(loaded.is_instrument);
    assert_eq!(loaded.param_values, vec![100, 7]);
    let (commands, _) = load_instrument(&config, instrument(4, true), &numbers(), 1, 2);
    assert_eq!(commands.len(), 3);
}

#[test]
fn an_effect_is_put_in_place_and_set_up() {
    let config = EffectConfig {
        plugin: "clap:synth".to_string(),
        preset: None,
        mix: 300,
        params: vec![("cutoff".to_string(), 1)],
        modulators: vec![],
    };
    let (commands, loaded) = load_effect(&config, opened(2), &numbers(), 0, 0, 3);
    assert_eq!(commands.len(), 2);
    assert!(matches!(
        commands[0],
        GraphCommand::InsertEffect { index: 3, effect: "synth", outputs: 2, mix: 300, .. }
    ));
    assert!(matches!(commands[1], GraphCommand::SetParameter { slot: 4, param_index: 0, value: 1, .. }));
    assert!(!loaded.is_instrument);
    assert_eq!(loaded.id, "clap:synth");
}

#[test]
fn a_pattern_is_sent_and_shown() {
    let p = PatternConfig {
        bpm: 120,
        length_beats: 8,
        looping: false,
        base_note: Some(60),
        events: vec![(0, 0x90, 60, 100)],
        enabled: true,
    };
    let (commands, loaded) = load_pattern::<&str, i32>(&p, 0, 1, 999);
    assert_eq!(commands.len(), 5);
    match &commands[0] {
        GraphCommand::SetPattern { pattern, base_note, .. } => {
            assert_eq!(pattern.length_samples, 999);
            assert_eq!(pattern.events.len(), 1);
            assert_eq!(*base_note, Some(60));
        }
        _ => panic!("no pattern"),
    }
    assert!(matches!(commands[1], GraphCommand::SetGlobalBpm { bpm: 120 }));
    assert!(matches!(commands[2], GraphCommand::SetPatternLength { beats: 8, .. }));
    assert!(matches!(commands[3], GraphCommand::SetPatternEnabled { enabled: true, .. }));
    assert!(matches!(commands[4], GraphCommand::SetPatternLooping { looping: false, .. }));
    assert_eq!(loaded.events, p.events);
    let quiet = PatternConfig { looping: true, enabled: false, ..p };
    assert_eq!(load_pattern::<&str, i32>(&quiet, 0, 1, 999).0.len(), 3);
}

fn session() -> SessionConfig<i32> {
    let drives_tone = ModTargetConfig { param: Some("tone".to_string()), ..target() };
    let instrument = PluginConfig {
        plugin: "clap:synth".to_string(),
        preset: None,
        volume: 1000,
        pitch_bend_range: 2,
        remap: vec![],
        params: vec![],
        modulators: vec![],
    };
    let effect = EffectConfig {
        plugin: "clap:synth".to_string(),
        preset: None,
        mix: 300,
        params: vec![("cutoff".to_string(), 1)],
        modulators: vec![modulator("lfo", "sine", vec![drives_tone]), modulator("envelope", "", vec![])],
    };
    let pattern = PatternConfig {
        bpm: 90,
        length_beats: 8,
        looping: true,
        base_note: None,
        events: vec![(0, 0x90, 60, 100), (5, 0x80, 60, 0)],
        enabled: true,
    };
    let played = SplitConfig {
        range: Some((0, 59)),
        transpose: -12,
        instrument: Some(instrument),
        effects: vec![effect],
        pattern: Some(pattern),
    };
    let empty = SplitConfig { range: Some((60, 127)), transpose: 0, instrument: None, effects: vec![], pattern: None };
    SessionConfig {
        keyboards: vec![
            KeyboardConfig { name: None, splits: vec![played, empty] },
            KeyboardConfig { name: Some("Pads".to_string()), splits: vec![] },
        ],
    }
}

fn opened_session(effect_outputs: usize) -> Vec<Vec<OpenedSplit<&'static str, i32>>> {
    let played =
        OpenedSplit { instrument: Some(instrument(4, true)), effects: vec![opened(effect_outputs)], samples: 999 };
    vec![vec![played, OpenedSplit { instrument: None, effects: vec![], samples: 0 }], vec![]]
}

#[test]
fn a_session_is_loaded_split_by_split() {
    let (commands, loaded) = load_session(&session(), opened_session(2), &numbers());
    assert!(matches!(commands[0], GraphCommand::AddKeyboard));
    assert!(matches!(commands[1], GraphCommand::AddSplit { kb: 0, range: Some((0, 59)) }));
    assert!(matches!(commands[2], GraphCommand::SwapInstrument { kb: 0, split: 0, .. }));
    assert!(matches!(commands[3], GraphCommand::InsertEffect { kb: 0, split: 0, index: 0, mix: 300, .. }));
    assert!(matches!(commands[4], GraphCommand::SetParameter { slot: 1, param_index: 0, value: 1, .. }));
    assert!(matches!(commands[5], GraphCommand::InsertModulator { parent_slot: 1, index: 0, .. }));
    assert!(matches!(commands[6], GraphCommand::AddModTarget { parent_slot: 1, mod_index: 0, .. }));
    assert!(matches!(commands[7], GraphCommand::InsertModulator { parent_slot: 1, index: 1, .. }));
    assert!(matches!(commands[8], GraphCommand::SetPattern { kb: 0, split: 0, .. }));
    assert!(matches!(commands[9], GraphCommand::SetGlobalBpm { bpm: 90 }));
    assert!(matches!(commands[10], GraphCommand::SetPatternLength { beats: 8, .. }));
    assert!(matches!(commands[11], GraphCommand::SetPatternEnabled { enabled: true, .. }));
    assert!(matches!(commands[12], GraphCommand::AddSplit { kb: 0, range: Some((60, 127)) }));
    assert!(matches!(commands[13], GraphCommand::AddKeyboard));
    assert_eq!(commands.len(), 14);
    assert_eq!(loaded.len(), 2);
    assert_eq!(loaded[0].name, "Keyboard 1");
    assert_eq!(loaded[1].name, "Pads");
    assert_eq!(loaded[0].splits.len(), 2);
    assert_eq!(loaded[0].splits[0].transpose, -12);
    assert_eq!(loaded[0].splits[0].effects[0].param_values, vec![1, 200]);
    assert!(loaded[0].splits[1].instrument.is_none());
}

#[test]
fn an_opened_session_is_shown_as_it_is_heard() {
    let (loads, loaded) = load_session(&session(), opened_session(2), &numbers());
    let keyboards = to_keyboard_nodes(loaded);
    let starts = start_session::<&str, i32>(&keyboards, &vec![vec![999, 0], vec![]]);
    assert_eq!(starts.len(), 3);
    assert!(matches!(starts[0], GraphCommand::SetTranspose { kb: 0, split: 0, semitones: -12 }));
    assert!(matches!(starts[1], GraphCommand::SetPattern { kb: 0, split: 0, .. }));
    assert!(matches!(starts[2], GraphCommand::SetPatternEnabled { kb: 0, split: 0, enabled: true }));
    let defaults = LaneDefaults { zero: 0, unity: 1000, sample_rate: 48, length_beats: 4, bpm: 120 };
    let mut graph: AudioGraph<&str, i32> = AudioGraph::new(2, defaults);
    for command in loads.into_iter().chain(starts) {
        graph.apply_command(command, Timing { pattern_samples: 999, beat_samples: 100 });
    }
    assert_eq!(graph.keyboards.len(), keyboards.len());
    for (keyboard, lanes) in keyboards.iter().zip(&graph.keyboards) {
        assert_eq!(keyboard.splits.len(), lanes.splits.len());
        for (split, lane) in keyboard.splits.iter().zip(&lanes.splits) {
            assert_eq!((split.range, split.transpose), (lane.range, lane.transpose));
            assert_eq!(split.instrument.is_some(), lane.instrument.is_some());
            assert_eq!(split.effects.len(), lane.effects.len());
        }
    }
    let lane = &graph.keyboards[0].splits[0];
    assert_eq!(lane.inst_buf.len(), 4);
    assert_eq!(lane.pattern.pattern.events.len(), 2);
    assert_eq!(lane.effect_modulators[0].len(), 2);
    assert_eq!(lane.effect_modulators[0][0].targets[0].kind, ModTargetKind::PluginParam { param_index: 1 });
    assert_eq!(
        keyboards[0].splits[0].effects[0].modulators[0].targets[0].kind,
        ModTargetKind::PluginParam { param_index: 1 }
    );
}

#[test]
fn an_effect_with_other_outputs_is_not_heard() {
    let (loads, _) = load_session(&session(), opened_session(1), &numbers());
    let defaults = LaneDefaults { zero: 0, unity: 1000, sample_rate: 48, length_beats: 4, bpm: 120 };
    let mut graph: AudioGraph<&str, i32> = AudioGraph::new(2, defaults);
    for command in loads {
        graph.apply_command(command, Timing { pattern_samples: 999, beat_samples: 100 });
    }
    assert!(graph.keyboards[0].splits[0].effects.is_empty());
}

#[test]
fn the_default_session_plays_a_sine() {
    let config = default_session(1000, 2000);
    assert_eq!(config.keyboards.len(), 1);
    let split = &config.keyboards[0].splits[0];
    assert!(split.range.is_none());
    let inst = split.instrument.as_ref().unwrap();
    assert_eq!(inst.plugin, "builtin:sine");
    assert_eq!((inst.volume, inst.pitch_bend_range), (1000, 2000));
    assert!(split.effects.is_empty());
}

#[test]
fn presets_are_found_by_name() {
    let presets = vec![
        Preset { name: "Init".to_string(), id: "0".to_string() },
        Preset { name: "Lead".to_string(), id: "1".to_string() },
    ];
    assert_eq!(find_preset(&presets, "Lead"), Some(1));
    assert_eq!(find_preset(&presets, "Nothing"), None);
}
