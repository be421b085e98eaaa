//! Reading and writing sessions.

use tang::notes::parse_range;

#[test]
fn parse_range_valid() {
    assert_eq!(parse_range("C0-B3").unwrap(), (12, 59));
}

#[test]
fn parse_range_single_octave() {
    assert_eq!(parse_range("C4-B4").unwrap(), (60, 71));
}

#[test]
fn parse_range_same_note() {
    assert_eq!(parse_range("C4-C4").unwrap(), (60, 60));
}

#[test]
fn parse_range_with_accidentals() {
    assert_eq!(parse_range("C#2-Bb5").unwrap(), (37, 82));
}

#[test]
fn parse_range_invalid_low_gt_high() {
    assert!(parse_range("C4-C3").is_err());
}

#[test]
fn parse_range_invalid_format() {
    assert!(parse_range("C4").is_err());
    assert!(parse_range("C4-B3-C5").is_err());
}

use tang::modulation::ModTargetKind;
use tang::paths::System;
use tang::session::{
    parse_pattern_raw, reversed, resolve_plugin_path, save_mod_target_to_out, session_from_legacy, session_from_new,
    session_out, EffectConfig, KeyboardRaw, LegacySessionRaw, ModTargetConfig, ModulatorConfig, ModulatorOut,
    NewSessionRaw, PatternError, PatternEventRaw, PatternOut, PatternRaw, PluginConfig, SaveEffect, SaveInstrument,
    SaveKeyboard, SaveModSource, SaveModTarget, SaveModulator, SavePattern, SaveSplit, SessionConfig, SessionError,
    SessionOut, SplitRaw,
};

fn plugin(id: &str) -> PluginConfig<f64> {
    PluginConfig {
        plugin: id.to_string(),
        preset: None,
        volume: 1.0,
        pitch_bend_range: 2.0,
        remap: vec![],
        params: vec![],
        modulators: vec![],
    }
}

fn effect(id: &str, mix: f64) -> EffectConfig<f64> {
    EffectConfig { plugin: id.to_string(), preset: None, mix, params: vec![], modulators: vec![] }
}

fn split(range: Option<&str>) -> SplitRaw<f64> {
    SplitRaw {
        range: range.map(|r| r.to_string()),
        transpose: 0,
        instrument: Some(plugin("builtin:sine")),
        effects: vec![],
        pattern: None,
    }
}

fn read_modulator(m: ModulatorOut<f64>) -> ModulatorConfig<f64> {
    ModulatorConfig {
        mod_type: m.mod_type,
        waveform: m.waveform.unwrap_or_else(|| "sine".to_string()),
        rate: m.rate.unwrap_or(1.0),
        attack: m.attack.unwrap_or(0.01),
        decay: m.decay.unwrap_or(0.3),
        sustain: m.sustain.unwrap_or(0.7),
        release: m.release.unwrap_or(0.5),
        targets: m
            .targets
            .into_iter()
            .map(|t| ModTargetConfig {
                param: t.param,
                mod_rate: t.mod_rate,
                mod_depth: t.mod_depth,
                mod_attack: t.mod_attack,
                mod_decay: t.mod_decay,
                mod_sustain: t.mod_sustain,
                mod_release: t.mod_release,
                depth: t.depth,
            })
            .collect(),
    }
}

fn read_pattern(p: PatternOut<f64>) -> PatternRaw<f64> {
    PatternRaw {
        bpm: p.bpm,
        length_beats: p.length_beats,
        looping: p.looping,
        base_note: p.base_note,
        events: p
            .events
            .into_iter()
            .map(|e| PatternEventRaw { frame: e.frame, status: e.status, note: e.note, velocity: e.velocity })
            .collect(),
        enabled: p.enabled,
    }
}

/// Reads back what would be written.
fn reload(out: SessionOut<f64>) -> SessionConfig<f64> {
    let raw = NewSessionRaw {
        keyboards: out
            .keyboards
            .into_iter()
            .map(|k| KeyboardRaw {
                name: k.name,
                splits: k
                    .splits
                    .into_iter()
                    .map(|s| SplitRaw {
                        range: s.range,
                        transpose: s.transpose,
                        instrument: s.instrument.map(|i| PluginConfig {
                            plugin: i.plugin,
                            preset: None,
                            volume: i.volume,
                            pitch_bend_range: 2.0,
                            remap: vec![],
                            params: i.params,
                            modulators: i.modulators.into_iter().map(read_modulator).collect(),
                        }),
                        effects: s
                            .effects
                            .into_iter()
                            .map(|e| EffectConfig {
                                plugin: e.plugin,
                                preset: None,
                                mix: e.mix,
                                params: e.params,
                                modulators: e.modulators.into_iter().map(read_modulator).collect(),
                            })
                            .collect(),
                        pattern: s.pattern.map(read_pattern),
                    })
                    .collect(),
            })
            .collect(),
    };
    session_from_new(raw).unwrap().unwrap()
}

#[test]
fn load_legacy_format() {
    let config = session_from_legacy(LegacySessionRaw {
        instrument: plugin("builtin:sine"),
        effects: vec![effect("builtin:sine", 0.5)],
    });
    assert_eq!(config.keyboards.len(), 1);
    assert_eq!(config.keyboards[0].splits.len(), 1);
    assert!(config.keyboards[0].splits[0].range.is_none());
    assert_eq!(config.keyboards[0].splits[0].instrument.as_ref().unwrap().plugin, "builtin:sine");
    assert_eq!(config.keyboards[0].splits[0].effects.len(), 1);
}

#[test]
fn load_new_format() {
    let raw = NewSessionRaw {
        keyboards: vec![KeyboardRaw {
            name: Some("Main".to_string()),
            splits: vec![split(Some("C0-B3")), split(Some("C4-C8"))],
        }],
    };
    let config = session_from_new(raw).unwrap().unwrap();
    assert_eq!(config.keyboards.len(), 1);
    assert_eq!(config.keyboards[0].name, Some("Main".to_string()));
    assert_eq!(config.keyboards[0].splits.len(), 2);
    assert_eq!(config.keyboards[0].splits[0].range, Some((12, 59)));
    assert_eq!(config.keyboards[0].splits[1].range, Some((60, 108)));
}

#[test]
fn save_and_reload() {
    let keyboards = vec![SaveKeyboard {
        name: "Main".into(),
        splits: vec![
            SaveSplit {
                range: Some((12, 59)),
                transpose: 0,
                instrument: Some(SaveInstrument {
                    plugin: "builtin:sine".into(),
                    volume: 0.8,
                    params: vec![("cutoff".into(), 0.75)],
                    modulators: vec![],
                }),
                effects: vec![SaveEffect {
                    plugin: "builtin:sine".into(),
                    mix: 0.5,
                    params: vec![],
                    modulators: vec![],
                }],
                pattern: None,
            },
            SaveSplit {
                range: None,
                transpose: 0,
                instrument: Some(SaveInstrument {
                    plugin: "builtin:sine".into(),
                    volume: 1.0,
                    params: vec![],
                    modulators: vec![],
                }),
                effects: vec![],
                pattern: None,
            },
        ],
    }];
    let config = reload(session_out(&keyboards));
    assert_eq!(config.keyboards.len(), 1);
    assert_eq!(config.keyboards[0].name, Some("Main".to_string()));
    assert_eq!(config.keyboards[0].splits.len(), 2);
    assert_eq!(config.keyboards[0].splits[0].range, Some((12, 59)));
    let inst = config.keyboards[0].splits[0].instrument.as_ref().unwrap();
    assert_eq!(inst.plugin, "builtin:sine");
    assert!((inst.volume - 0.8).abs() < 0.01);
    assert_eq!(config.keyboards[0].splits[0].effects.len(), 1);
    assert!((config.keyboards[0].splits[0].effects[0].mix - 0.5).abs() < 0.01);
    assert!(config.keyboards[0].splits[1].range.is_none());
}

#[test]
fn save_and_reload_with_modulators() {
    let keyboards = vec![SaveKeyboard {
        name: "Main".into(),
        splits: vec![SaveSplit {
            range: None,
            transpose: 0,
            instrument: Some(SaveInstrument {
                plugin: "builtin:sine".into(),
                volume: 1.0,
                params: vec![],
                modulators: vec![SaveModulator {
                    source: SaveModSource::Lfo { waveform: "sine".into(), rate: 2.5 },
                    targets: vec![SaveModTarget {
                        kind: ModTargetKind::PluginParam { param_index: 0 },
                        label: "cutoff".into(),
                        depth: 0.75,
                    }],
                }],
            }),
            effects: vec![],
            pattern: None,
        }],
    }];
    let config = reload(session_out(&keyboards));
    assert_eq!(config.keyboards.len(), 1);
    let inst = config.keyboards[0].splits[0].instrument.as_ref().unwrap();
    assert_eq!(inst.modulators.len(), 1);
    let m = &inst.modulators[0];
    assert_eq!(m.waveform, "sine");
    assert!((m.rate - 2.5).abs() < 0.01);
    assert_eq!(m.targets.len(), 1);
    assert_eq!(m.targets[0].param.as_deref(), Some("cutoff"));
    assert!((m.targets[0].depth - 0.75).abs() < 0.01);
}

#[test]
fn load_session_with_modulators() {
    let mut s = split(None);
    s.instrument.as_mut().unwrap().modulators.push(ModulatorConfig {
        mod_type: "lfo".to_string(),
        waveform: "triangle".to_string(),
        rate: 0.5,
        attack: 0.01,
        decay: 0.3,
        sustain: 0.7,
        release: 0.5,
        targets: vec![ModTargetConfig {
            param: Some("frequency".to_string()),
            mod_rate: None,
            mod_depth: None,
            mod_attack: None,
            mod_decay: None,
            mod_sustain: None,
            mod_release: None,
            depth: 0.3,
        }],
    });
    let raw = NewSessionRaw { keyboards: vec![KeyboardRaw { name: Some("Test".to_string()), splits: vec![s] }] };
    let config = session_from_new(raw).unwrap().unwrap();
    let inst = config.keyboards[0].splits[0].instrument.as_ref().unwrap();
    assert_eq!(inst.modulators.len(), 1);
    let m = &inst.modulators[0];
    assert_eq!(m.waveform, "triangle");
    assert!((m.rate - 0.5).abs() < 0.01);
    assert_eq!(m.targets.len(), 1);
    assert_eq!(m.targets[0].param.as_deref(), Some("frequency"));
    assert!((m.targets[0].depth - 0.3).abs() < 0.01);
}

#[test]
fn sessions_without_keyboards_are_of_the_other_format() {
    let raw: NewSessionRaw<f64> = NewSessionRaw { keyboards: vec![] };
    assert!(session_from_new(raw).is_none());
}

#[test]
fn a_bad_range_spoils_the_session() {
    let raw = NewSessionRaw { keyboards: vec![KeyboardRaw { name: None, splits: vec![split(Some("C4-C3"))] }] };
    assert!(matches!(session_from_new(raw), Some(Err(SessionError::Range(_)))));
}

fn pattern_raw(status: &str, note: &str, base: Option<&str>) -> PatternRaw<f64> {
    PatternRaw {
        bpm: 120.0,
        length_beats: 4.0,
        looping: true,
        base_note: base.map(|b| b.to_string()),
        events: vec![PatternEventRaw {
            frame: 7,
            status: status.to_string(),
            note: note.to_string(),
            velocity: 90,
        }],
        enabled: true,
    }
}

#[test]
fn patterns_are_read() {
    let p = parse_pattern_raw(&pattern_raw("on", "C4", Some("C3"))).unwrap();
    assert_eq!(p.base_note, Some(48));
    assert_eq!(p.events, vec![(7, 0x90, 60, 90)]);
    let p = parse_pattern_raw(&pattern_raw("off", "C4", None)).unwrap();
    assert_eq!(p.events, vec![(7, 0x80, 60, 90)]);
}

#[test]
fn bad_patterns_are_told_apart() {
    assert!(matches!(parse_pattern_raw(&pattern_raw("hold", "C4", None)), Err(PatternError::Status(_))));
    assert!(matches!(parse_pattern_raw(&pattern_raw("on", "X4", None)), Err(PatternError::Note(_))));
    assert!(matches!(parse_pattern_raw(&pattern_raw("on", "C4", Some("?"))), Err(PatternError::Note(_))));
}

#[test]
fn patterns_survive_saving() {
    let events = vec![(0u64, 0x90u8, 60u8, 100u8), (50, 0x80, 60, 0)];
    let keyboards = vec![SaveKeyboard {
        name: "K".into(),
        splits: vec![SaveSplit {
            range: Some((60, 72)),
            transpose: -3,
            instrument: None,
            effects: vec![],
            pattern: Some(SavePattern {
                bpm: 90.0,
                length_beats: 8.0,
                looping: false,
                base_note: Some(60),
                events: events.clone(),
                enabled: true,
            }),
        }],
    }];
    let config = reload(session_out(&keyboards));
    let s = &config.keyboards[0].splits[0];
    assert_eq!(s.range, Some((60, 72)));
    assert_eq!(s.transpose, -3);
    let p = s.pattern.as_ref().unwrap();
    assert_eq!((p.bpm, p.length_beats, p.looping, p.enabled), (90.0, 8.0, false, true));
    assert_eq!(p.base_note, Some(60));
    assert_eq!(p.events, events);
}

#[test]
fn targets_are_written_by_kind() {
    let t = |kind: ModTargetKind| {
        save_mod_target_to_out(&SaveModTarget { kind, label: "cutoff".to_string(), depth: 0.5 })
    };
    assert_eq!(t(ModTargetKind::PluginParam { param_index: 3 }).param.as_deref(), Some("cutoff"));
    assert_eq!(t(ModTargetKind::ModulatorRate { mod_index: 2 }).mod_rate, Some(2));
    assert_eq!(t(ModTargetKind::ModulatorDepth { mod_index: 2, target_index: 1 }).mod_depth, Some(vec![2, 1]));
    assert_eq!(t(ModTargetKind::ModulatorAttack { mod_index: 2 }).mod_attack, Some(2));
    assert_eq!(t(ModTargetKind::ModulatorDecay { mod_index: 2 }).mod_decay, Some(2));
    assert_eq!(t(ModTargetKind::ModulatorSustain { mod_index: 2 }).mod_sustain, Some(2));
    let r = t(ModTargetKind::ModulatorRelease { mod_index: 2 });
    assert_eq!(r.mod_release, Some(2));
    assert!(r.param.is_none() && r.mod_rate.is_none());
}

#[test]
fn plugin_paths_are_relative_to_the_session() {
    for system in [System::Linux, System::Mac] {
        assert_eq!(resolve_plugin_path(system, "lv2:http://x", "/s"), "lv2:http://x");
        assert_eq!(resolve_plugin_path(system, "/abs/p.clap", "/s"), "/abs/p.clap");
        assert_eq!(resolve_plugin_path(system, "fx/p.clap", "/s"), "/s/fx/p.clap");
        assert_eq!(resolve_plugin_path(system, r"\\server\share\x", "/s"), r"/s/\\server\share\x");
    }
    let windows = System::Windows;
    assert_eq!(resolve_plugin_path(windows, r"C:\p.clap", r"D:\s"), r"C:\p.clap");
    assert_eq!(resolve_plugin_path(windows, r"\\server\share\x", r"C:\s"), r"\\server\share\x");
    assert_eq!(resolve_plugin_path(windows, r"fx\p.clap", r"C:\s"), r"C:\s\fx\p.clap");
    assert_eq!(resolve_plugin_path(windows, "fx/p.clap", r"C:\s"), r"C:\s\fx/p.clap");
    assert_eq!(resolve_plugin_path(windows, r"\p.clap", r"C:\s"), r"C:\p.clap");
    assert_eq!(resolve_plugin_path(windows, "/p.clap", r"\\server\share\s"), r"\\server\share/p.clap");
    assert_eq!(reversed(vec![1, 2, 3]), vec![3, 2, 1]);
}
