//! The editor: keys, popups, mouse and what is shown.

use tang::graph::GraphCommand;
use tang::modulation::{LfoWaveform, ModTargetKind};
use tang::pattern::PatternNotification;
use tang::tui::editor::{Editor, Effect, Motion, Numbers, SelectorMode};
use tang::tui::keys::{Key, Modifiers};
use tang::tui::load::{
    find_first_bpm, start_split, to_keyboard_nodes, to_plugin_slot, LoadedKeyboard, LoadedModSource, LoadedModulator,
    LoadedPattern, LoadedPlugin, LoadedSplit,
};
use tang::tui::model::{
    mod_source_slot_to_graph, KeyboardNode, ModSourceSlot, ModTargetSlot, ModulatorSlot, ParamSlot, PluginSlot,
    SplitNode, TreeAddress,
};
use tang::tui::mouse::{bar_value_at, Areas, MouseEffect, WidgetHit};
use tang::tui::popups::{FieldAction, KeyRoute};
use tang::tui::rows::{name_cell, truncate, RowKind};
use tang::tui::tree::{action_at, actions_for, action_bar_hit, format_from_id, Area, EntryColor};
use tang::plugin::ParameterInfo;

type Sent = Vec<Effect<&'static str, i32>>;

fn numbers() -> Numbers<i32> {
    Numbers {
        zero: 0,
        unity: 1000,
        new_depth: 500,
        rate_min: 10,
        rate_max: 50000,
        time_min: 1,
        time_max: 10000,
        beats_min: 1000,
        beats_max: 32000,
        new_beats: 4000,
        bpm_min: 20000,
        bpm_max: 300000,
        attack: 10,
        decay: 300,
        sustain: 700,
        release: 500,
    }
}

fn param(name: &str, index: u32) -> ParamSlot<i32> {
    ParamSlot { name: name.to_string(), index, min: 0, max: 100, default: 50, value: 50 }
}

fn slot(name: &str, is_instrument: bool) -> PluginSlot<i32> {
    PluginSlot {
        name: name.to_string(),
        format: "CLAP".to_string(),
        id: format!("clap:{name}"),
        is_instrument,
        params: vec![param("Cutoff", 10), param("Resonance", 11), param("Cut Width", 12)],
        modulators: vec![],
    }
}

fn split(range: Option<(u8, u8)>, name: &str, effects: &[&str]) -> SplitNode<i32> {
    SplitNode {
        range,
        transpose: 0,
        instrument: Some(slot(name, true)),
        effects: effects.iter().map(|e| slot(e, false)).collect(),
        pattern: None,
    }
}

/// Lines: 0 keyboard, 1 split, 2 Synth, 3 Echo, 4 Reverb, 5 split, 6 Bass.
fn editor() -> Editor<i32> {
    let keyboards = vec![KeyboardNode {
        name: "Main".to_string(),
        splits: vec![split(None, "Synth", &["Echo", "Reverb"]), split(Some((60, 72)), "Bass", &[])],
    }];
    Editor::new(keyboards, 120000, numbers())
}

fn plain() -> Modifiers {
    Modifiers { control: false, shift: false }
}

fn press(e: &mut Editor<i32>, c: char) -> Sent {
    e.handle_key(Key::Char(c), plain())
}

fn shift(e: &mut Editor<i32>, key: Key) -> Sent {
    e.handle_key(key, Modifiers { control: false, shift: true })
}

fn names(e: &Editor<i32>) -> Vec<String> {
    e.keyboards[0].splits[0].effects.iter().map(|p| p.name.clone()).collect()
}

#[test]
fn the_tree_lists_everything_in_order() {
    let e = editor();
    let addresses: Vec<_> = e.tree.iter().map(|t| t.address).collect();
    assert_eq!(
        addresses,
        vec![
            TreeAddress::Keyboard(0),
            TreeAddress::Split { kb: 0, split: 0 },
            TreeAddress::Instrument { kb: 0, split: 0 },
            TreeAddress::Effect { kb: 0, split: 0, index: 0 },
            TreeAddress::Effect { kb: 0, split: 0, index: 1 },
            TreeAddress::Split { kb: 0, split: 1 },
            TreeAddress::Instrument { kb: 0, split: 1 },
        ]
    );
    assert_eq!(e.tree[0].before, "⌨ Main");
    assert!(e.tree[1].before.contains("Full range"));
    assert!(e.tree[5].before.contains("C4-C5"));
    assert!(e.tree[2].before.contains("Synth  [CLAP]"));
    assert_eq!(e.tree[3].color, EntryColor::Yellow);
    assert_eq!(e.tree[2].indent, 2);
}

#[test]
fn numbers_and_tab_choose_a_tab() {
    let mut e = editor();
    press(&mut e, '3');
    assert_eq!(e.active_tab, 2);
    e.handle_key::<&str>(Key::Tab, plain());
    e.handle_key::<&str>(Key::Tab, plain());
    assert_eq!(e.active_tab, 0);
    e.handle_key::<&str>(Key::BackTab, plain());
    assert_eq!(e.active_tab, 3);
    e.handle_key::<&str>(Key::PageDown, plain());
    assert_eq!(e.help_offset, 20);
    e.handle_key::<&str>(Key::Up, plain());
    assert_eq!(e.help_offset, 19);
    e.help_offset = usize::MAX - 1;
    assert!(e.check_key(Key::Down));
    assert!(!e.check_key(Key::PageDown));
    assert!(e.check_key(Key::Tab));
    e.handle_key::<&str>(Key::Tab, plain());
    assert_eq!(e.active_tab, 0);
    assert!(e.check_key(Key::PageDown));
}

#[test]
fn control_keys_quit_and_save() {
    let mut e = editor();
    let control = Modifiers { control: true, shift: false };
    let sent: Sent = e.handle_key(Key::Char('s'), control);
    assert!(matches!(sent[..], [Effect::Save]));
    assert!(!e.quit);
    e.handle_key::<&str>(Key::Char('q'), control);
    assert!(e.quit);
}

#[test]
fn effects_move_along_the_chain() {
    let mut e = editor();
    e.chain_selected = 3;
    let sent = shift(&mut e, Key::Down);
    assert_eq!(names(&e), vec!["Reverb", "Echo"]);
    assert!(matches!(
        sent[0],
        Effect::Send(GraphCommand::ReorderEffect { kb: 0, split: 0, from: 0, to: 1 })
    ));
    assert!(matches!(sent[1], Effect::Rebuilt));
    assert!(matches!(sent[2], Effect::SelectNext));
    assert!(e.dirty);
    e.chain_selected = 4;
    shift(&mut e, Key::Up);
    assert_eq!(names(&e), vec!["Echo", "Reverb"]);
    e.chain_selected = 3;
    assert!(shift(&mut e, Key::Up).is_empty());
}

#[test]
fn instruments_change_places_with_their_neighbours() {
    let mut e = editor();
    e.chain_selected = 2;
    let sent = shift(&mut e, Key::Down);
    assert_eq!(e.keyboards[0].splits[1].instrument.as_ref().unwrap().name, "Synth");
    assert!(matches!(sent[2], Effect::Follow(TreeAddress::Instrument { kb: 0, split: 1 })));
}

#[test]
fn nodes_are_deleted() {
    let mut e = editor();
    e.chain_selected = 3;
    let sent = press(&mut e, 'd');
    assert_eq!(names(&e), vec!["Reverb"]);
    assert!(matches!(sent[0], Effect::Send(GraphCommand::RemoveEffect { index: 0, .. })));
    e.chain_selected = 2;
    press(&mut e, 'd');
    assert!(e.keyboards[0].splits[0].instrument.is_none());
    e.chain_selected = 1;
    press(&mut e, 'd');
    assert_eq!(e.keyboards[0].splits.len(), 1);
    // The last split stays.
    e.chain_selected = 1;
    assert!(press(&mut e, 'd').is_empty());
    assert_eq!(e.keyboards[0].splits.len(), 1);
}

#[test]
fn modulators_are_added_and_removed() {
    let mut e = editor();
    e.chain_selected = 2;
    let sent = press(&mut e, 'm');
    assert!(matches!(
        sent[0],
        Effect::Send(GraphCommand::InsertModulator { parent_slot: 0, index: 0, .. })
    ));
    press(&mut e, 'm');
    let mods = &mut e.keyboards[0].splits[0].instrument.as_mut().unwrap().modulators;
    assert_eq!(mods.len(), 2);
    mods[0].targets.push(ModTargetSlot {
        param_name: "Mod 1 rate".to_string(),
        kind: ModTargetKind::ModulatorRate { mod_index: 1 },
        depth: 500,
        param_min: 10,
        param_max: 50000,
    });
    e.rebuild_tree();
    assert_eq!(e.tree[4].address, TreeAddress::Modulator { kb: 0, split: 0, parent_slot: 0, index: 1 });
    e.chain_selected = 4;
    press(&mut e, 'd');
    let mods = &e.keyboards[0].splits[0].instrument.as_ref().unwrap().modulators;
    assert_eq!(mods.len(), 1);
    assert!(mods[0].targets.is_empty());
}

#[test]
fn targets_are_offered_and_chosen() {
    let mut e = editor();
    e.chain_selected = 2;
    press(&mut e, 'm');
    press(&mut e, 'm');
    e.chain_selected = 3;
    let sent = press(&mut e, 't');
    assert!(matches!(sent[..], [Effect::OpenPopup]));
    assert_eq!(e.route(), KeyRoute::Targets);
    let entries = e.open_target_selector();
    let labels: Vec<_> = entries.iter().map(|t| t.label.as_str()).collect();
    assert_eq!(labels[..3], ["Cutoff", "Resonance", "Cut Width"]);
    assert!(entries.iter().any(|t| t.kind == ModTargetKind::ModulatorRate { mod_index: 1 }));
    assert!(!entries.iter().any(|t| t.kind == ModTargetKind::ModulatorRate { mod_index: 0 }));
    assert_eq!(e.handle_target_selector_key(Key::Enter), FieldAction::Confirm);
    let sent: Sent = e.confirm_target_selector(Some(&entries[1]));
    assert!(matches!(sent[0], Effect::Send(GraphCommand::AddModTarget { mod_index: 0, .. })));
    let m = &e.keyboards[0].splits[0].instrument.as_ref().unwrap().modulators[0];
    assert_eq!(m.targets[0].param_name, "Resonance");
    assert_eq!(m.targets[0].depth, 500);
    assert_eq!(e.route(), KeyRoute::Editor);
}

#[test]
fn splits_are_added_by_range() {
    let mut e = editor();
    e.chain_selected = 0;
    press(&mut e, 'a');
    assert_eq!(e.range_edit, Some(0));
    assert_eq!(e.route(), KeyRoute::Range);
    let sent: Sent = e.confirm_range("nonsense");
    assert!(sent.is_empty());
    assert_eq!(e.range_edit, Some(0));
    let sent: Sent = e.confirm_range(" C2-B2 ");
    assert!(matches!(
        sent[0],
        Effect::Send(GraphCommand::AddSplit { kb: 0, range: Some((36, 47)) })
    ));
    assert_eq!(e.keyboards[0].splits.len(), 3);
    assert_eq!(e.range_edit, None);
    e.range_edit = Some(0);
    e.confirm_range::<&str>("");
    assert_eq!(e.keyboards[0].splits[3].range, None);
}

#[test]
fn plugins_are_chosen() {
    let mut e = editor();
    e.chain_selected = 1;
    press(&mut e, 'a');
    assert_eq!(e.selector, Some(SelectorMode::Instrument));
    let sent: Sent = e.confirm_selector(slot("Organ", true), "organ", 3, 48000);
    match &sent[0] {
        Effect::Send(GraphCommand::SwapInstrument { kb, split, instrument, inst_buf, .. }) => {
            assert_eq!((*kb, *split, *instrument, inst_buf.len()), (0, 0, "organ", 3));
        }
        _ => panic!("no instrument"),
    }
    assert_eq!(e.keyboards[0].splits[0].instrument.as_ref().unwrap().name, "Organ");
    e.chain_selected = 2;
    press(&mut e, 'a');
    assert_eq!(e.selector, Some(SelectorMode::Effect));
    let sent: Sent = e.confirm_selector(slot("Delay", false), "delay", 2, 48000);
    assert!(matches!(
        sent[0],
        Effect::Send(GraphCommand::InsertEffect { index: 0, effect: "delay", outputs: 2, mix: 1000, .. })
    ));
    assert_eq!(names(&e), vec!["Delay", "Echo", "Reverb"]);
    assert_eq!(e.selector, None);
    // Behind Echo, and behind the last.
    e.chain_selected = 4;
    press(&mut e, 'a');
    e.confirm_selector::<&str>(slot("Drive", false), "drive", 2, 48000);
    assert_eq!(names(&e), vec!["Delay", "Echo", "Drive", "Reverb"]);
    e.chain_selected = 6;
    press(&mut e, 'a');
    let sent: Sent = e.confirm_selector(slot("Limit", false), "limit", 2, 48000);
    assert!(matches!(sent[0], Effect::Send(GraphCommand::InsertEffect { index: 4, .. })));
    assert_eq!(names(&e), vec!["Delay", "Echo", "Drive", "Reverb", "Limit"]);
}

#[test]
fn keys_reach_the_split_from_anything_in_it() {
    let mut e = editor();
    e.chain_selected = 3;
    press(&mut e, 'i');
    assert_eq!(e.selector, Some(SelectorMode::Instrument));
    let sent: Sent = e.confirm_selector(slot("Organ", true), "organ", 2, 48000);
    assert!(matches!(sent[0], Effect::Send(GraphCommand::SwapInstrument { kb: 0, split: 0, .. })));
    press(&mut e, 's');
    assert_eq!(e.range_edit, Some(0));
    e.range_edit = None;
    e.chain_selected = 0;
    assert!(press(&mut e, 'i').is_empty());
    assert_eq!(e.selector, None);
    press(&mut e, 's');
    assert_eq!(e.range_edit, Some(0));
}

#[test]
fn patterns_are_cleared() {
    let mut e = editor();
    e.chain_selected = 1;
    let control = Modifiers { control: true, shift: false };
    assert!(e.handle_key::<&str>(Key::Char('r'), control).is_empty());
    press(&mut e, 'r');
    assert!(e.keyboards[0].splits[0].pattern.is_some());
    let sent: Sent = e.handle_key(Key::Char('r'), control);
    assert!(matches!(sent[0], Effect::Send(GraphCommand::ClearPattern { kb: 0, split: 0 })));
    assert!(e.keyboards[0].splits[0].pattern.is_none());
}

#[test]
fn the_tempo_is_typed() {
    let mut e = editor();
    press(&mut e, 'b');
    assert_eq!(e.route(), KeyRoute::Bpm);
    assert_eq!(e.bpm_edit.as_ref().unwrap().value, 120000);
    assert_eq!(e.handle_bpm_edit_key(Key::Char('1')), FieldAction::Insert('1'));
    let sent: Sent = e.confirm_bpm(Some(90000));
    assert!(matches!(sent[0], Effect::Send(GraphCommand::SetGlobalBpm { bpm: 90000 })));
    assert_eq!(e.global_bpm, 90000);
    press(&mut e, 'b');
    assert_eq!(e.handle_bpm_edit_key(Key::Esc), FieldAction::Close);
    assert!(e.bpm_edit.is_none());
}

#[test]
fn recording_starts_and_a_recording_is_taken_over() {
    let mut e = editor();
    e.chain_selected = 1;
    let sent = press(&mut e, 'r');
    assert_eq!(sent.len(), 4);
    assert!(matches!(
        sent[2],
        Effect::Send(GraphCommand::SetPatternRecording { kb: 0, split: 0, recording: true })
    ));
    assert!(e.keyboards[0].splits[0].pattern.as_ref().unwrap().recording);
    let note = PatternNotification {
        kb: 0,
        split: 0,
        base_note: Some(60),
        length_beats: 8000,
        looping: true,
        enabled: true,
        events: vec![(0, 0x90, 60, 100), (9, 0x80, 60, 0)],
    };
    e.pattern_recorded::<&str>(note);
    let p = e.keyboards[0].splits[0].pattern.as_ref().unwrap();
    assert!(!p.recording && p.enabled);
    assert_eq!(p.length_beats, 8000);
    assert_eq!(e.tree[2].address, TreeAddress::Pattern { kb: 0, split: 0 });
    // Stopping by hand.
    e.chain_selected = 2;
    press(&mut e, 'r');
    let sent = press(&mut e, 'r');
    assert!(matches!(
        sent[0],
        Effect::Send(GraphCommand::SetPatternRecording { recording: false, .. })
    ));
}

#[test]
fn the_filter_narrows_the_parameters() {
    let mut e = editor();
    e.chain_selected = 2;
    e.handle_key::<&str>(Key::Enter, plain());
    assert!(e.focus_params);
    press(&mut e, '/');
    assert_eq!(e.route(), KeyRoute::Filter);
    assert_eq!(e.filter_typed("CUT".to_string()), Some(2));
    assert_eq!(e.param_filtered, vec![0, 2]);
    e.param_selected = 1;
    assert_eq!(e.real_param_index(), Some(2));
    assert_eq!(e.param_here().unwrap().name, "Cut Width");
    let rows = e.param_rows();
    assert_eq!(rows.len(), 2);
    let (action, sent): (FieldAction, Sent) = e.handle_param_filter_key(Key::Esc);
    assert_eq!(action, FieldAction::Close);
    assert!(!sent.is_empty());
    assert!(e.param_filter.is_empty());
    assert_eq!(e.real_param_index(), Some(1));
}

#[test]
fn parameters_are_adjusted_and_set() {
    let mut e = editor();
    e.chain_selected = 2;
    e.focus_params = true;
    e.param_selected = 1;
    assert_eq!(e.adjustable(), Some((50, 0, 100)));
    let sent: Sent = e.handle_key(Key::Right, plain());
    assert!(matches!(sent[..], [Effect::Adjust { up: true }]));
    let sent: Sent = e.adjust_param(true, false, 55);
    assert!(matches!(
        sent[..],
        [Effect::Send(GraphCommand::SetParameter { kb: 0, split: 0, slot: 0, param_index: 11, value: 55 })]
    ));
    assert_eq!(e.keyboards[0].splits[0].instrument.as_ref().unwrap().params[1].value, 55);
    e.handle_key::<&str>(Key::Enter, plain());
    assert_eq!(e.value_edit.as_ref().unwrap().name, "Resonance");
    let sent: Sent = e.confirm_value(Some((77, 0)));
    assert_eq!(sent.len(), 1);
    assert_eq!(e.keyboards[0].splits[0].instrument.as_ref().unwrap().params[1].value, 77);
    assert!(e.value_edit.is_none());
}

#[test]
fn splits_are_transposed_within_bounds() {
    let mut e = editor();
    e.chain_selected = 1;
    e.focus_params = true;
    let sent: Sent = e.adjust_param(true, false, 0);
    assert!(matches!(sent[0], Effect::Send(GraphCommand::SetTranspose { semitones: 1, .. })));
    e.adjust_param::<&str>(true, true, 0);
    assert_eq!(e.keyboards[0].splits[0].transpose, 13);
    for _ in 0..20 {
        e.adjust_param::<&str>(true, true, 0);
    }
    assert_eq!(e.keyboards[0].splits[0].transpose, 48);
    e.set_param_value::<&str>(0, -100);
    assert_eq!(e.keyboards[0].splits[0].transpose, -48);
    assert!(e.tree[1].before.ends_with("  -48"));
}

#[test]
fn modulators_are_edited_row_by_row() {
    let mut e = editor();
    e.chain_selected = 2;
    press(&mut e, 'm');
    e.chain_selected = 3;
    e.focus_params = true;
    e.param_selected = 1;
    assert!(e.selected_param_is_enum());
    let sent: Sent = e.adjust_param(false, false, 0);
    assert!(matches!(
        sent[0],
        Effect::Send(GraphCommand::SetModulatorWaveform { waveform: LfoWaveform::Square, .. })
    ));
    e.param_selected = 2;
    assert_eq!(e.selected_param_range(), Some((10, 50000)));
    let sent: Sent = e.adjust_param(true, false, 2000);
    assert!(matches!(sent[0], Effect::Send(GraphCommand::SetModulatorRate { rate: 2000, .. })));
    e.param_selected = 0;
    let sent: Sent = e.adjust_param(true, false, 0);
    assert!(matches!(sent[0], Effect::Send(GraphCommand::SetModulatorSource { .. })));
    let m = &e.keyboards[0].splits[0].instrument.as_ref().unwrap().modulators[0];
    assert!(matches!(m.source, ModSourceSlot::Envelope { attack: 10, decay: 300, sustain: 700, release: 500 }));
    let rows = e.param_rows();
    assert!(matches!(rows[0].kind, RowKind::Choice("Envelope")));
    assert_eq!(rows[1].name, "Attack (s)");
}

#[test]
fn the_cursor_moves_outside() {
    let mut e = editor();
    let sent: Sent = e.handle_key(Key::Down, plain());
    assert!(matches!(sent[..], [Effect::MoveChain(Motion::Down)]));
    e.focus_params = true;
    let sent: Sent = e.handle_key(Key::PageUp, plain());
    assert!(matches!(sent[..], [Effect::MoveParams(Motion::PageUp)]));
    e.handle_key::<&str>(Key::Esc, plain());
    assert!(!e.focus_params);
}

#[test]
fn actions_depend_on_the_node() {
    let keyboard = actions_for(Some(TreeAddress::Keyboard(0)));
    let effect = actions_for(Some(TreeAddress::Effect { kb: 0, split: 0, index: 0 }));
    assert!(keyboard.iter().any(|a| a.key == 'a'));
    assert!(effect.iter().any(|a| a.key == 'm'));
    assert!(!keyboard.iter().any(|a| a.key == 'm'));
    let first = effect[0].key;
    let addr = Some(TreeAddress::Effect { kb: 0, split: 0, index: 0 });
    assert_eq!(action_at(addr, 1), Some(first));
    let area = Area { x: 10, y: 5, width: 60, height: 1 };
    assert_eq!(action_bar_hit(11, 5, area, addr), Some(first));
    assert_eq!(action_bar_hit(11, 6, area, addr), None);
}

#[test]
fn formats_are_read_off_the_id() {
    assert_eq!(format_from_id("lv2:http://x"), "LV2");
    assert_eq!(format_from_id("clap:x"), "CLAP");
    assert_eq!(format_from_id("builtin:osc"), "Built-in");
    assert_eq!(format_from_id("/v/x.vst3"), "VST3");
    assert_eq!(format_from_id("what"), "?");
}

#[test]
fn mouse_clicks_and_drags() {
    let mut e = editor();
    let area = |x: u16, y: u16, width: u16, height: u16| Area { x, y, width, height };
    let areas = Areas {
        action_bar: area(0, 20, 80, 1),
        chain_inner: area(0, 1, 30, 18),
        param_inner: area(30, 1, 50, 18),
    };
    let none = || WidgetHit { tab: None, param_scrollbar: false, help_offset: None };
    assert!(matches!(e.mouse_down(5, 3, areas, none()), MouseEffect::ClickChain));
    e.chain_selected = 2;
    e.chain_clicked();
    assert!(!e.focus_params);
    assert!(matches!(e.mouse_down(40, 3, areas, none()), MouseEffect::ClickParam));
    e.param_selected = 0;
    let effect = e.param_clicked(65, areas.param_inner);
    assert!(e.focus_params);
    assert!(matches!(effect, MouseEffect::SetPart { min: 0, max: 100, .. }));
    assert!(e.param_dragging);
    e.mouse_up();
    assert!(!e.param_dragging);
    e.mouse_down(2, 0, areas, WidgetHit { tab: Some(3), param_scrollbar: false, help_offset: None });
    assert_eq!(e.active_tab, 3);
}

#[test]
fn the_bar_of_a_parameter_maps_columns_to_parts() {
    let wide = Area { x: 0, y: 0, width: 137, height: 1 };
    assert_eq!(bar_value_at(27, wide), Some((0, 100)));
    let (at, of) = bar_value_at(77, wide).unwrap();
    assert_eq!((at, of), (50, 100));
    assert_eq!(bar_value_at(5, wide), None);
    let narrow = Area { x: 0, y: 0, width: 20, height: 1 };
    assert_eq!(bar_value_at(10, narrow), None);
}

#[test]
fn names_are_cut_to_fit() {
    assert_eq!(truncate("short", 10), "short");
    assert_eq!(truncate("a longer name", 10), "a longer …");
    assert_eq!(name_cell("x"), format!("{:<24} ", "x"));
    assert_eq!(name_cell(&"y".repeat(40)), format!("{}… ", "y".repeat(23)));
}

fn loaded_plugin(name: &str, values: Vec<i32>) -> LoadedPlugin<i32> {
    LoadedPlugin {
        name: name.to_string(),
        id: format!("clap:{name}"),
        is_instrument: true,
        params: vec![
            ParameterInfo { index: 0, name: "A".to_string(), min: 0, max: 9, default: 1 },
            ParameterInfo { index: 1, name: "B".to_string(), min: 0, max: 9, default: 2 },
        ],
        param_values: values,
        modulators: vec![LoadedModulator {
            source: LoadedModSource::Lfo { waveform: LfoWaveform::Saw, rate: 3 },
            targets: vec![],
        }],
    }
}

#[test]
fn a_loaded_session_is_shown_and_saved() {
    let loaded = vec![LoadedKeyboard {
        name: "K".to_string(),
        splits: vec![LoadedSplit {
            range: Some((60, 72)),
            transpose: 5,
            instrument: Some(loaded_plugin("Synth", vec![1, 7])),
            effects: vec![],
            pattern: Some(LoadedPattern {
                bpm: 99,
                length_beats: 4,
                looping: false,
                base_note: Some(60),
                events: vec![(0, 0x90, 60, 100)],
                enabled: true,
            }),
        }],
    }];
    let nodes = to_keyboard_nodes(loaded);
    assert_eq!(find_first_bpm(&nodes), Some(99));
    let commands = start_split::<&str, i32>(&nodes[0].splits[0], 0, 0, 44);
    assert!(matches!(commands[0], GraphCommand::SetTranspose { semitones: 5, .. }));
    assert!(matches!(commands[1], GraphCommand::SetPattern { .. }));
    let mut e = Editor::new(nodes, 99, numbers());
    let saved = e.save_keyboards(|value: i32, default: i32| value != default);
    assert_eq!(saved[0].splits[0].range, Some((60, 72)));
    assert_eq!(saved[0].splits[0].transpose, 5);
    let inst = saved[0].splits[0].instrument.as_ref().unwrap();
    assert_eq!(inst.plugin, "clap:Synth");
    assert_eq!(inst.params, vec![("B".to_string(), 7)]);
    assert_eq!(inst.modulators.len(), 1);
    assert_eq!(saved[0].splits[0].pattern.as_ref().unwrap().events.len(), 1);
    e.dirty = true;
    e.saved();
    assert!(!e.dirty);
}

#[test]
fn slots_keep_what_was_loaded() {
    let s = to_plugin_slot(loaded_plugin("Synth", vec![1]));
    assert_eq!(s.format, "CLAP");
    assert_eq!(s.params[0].value, 1);
    // A parameter without a value is not shown.
    assert_eq!(s.params.len(), 1);
    assert!(matches!(s.modulators[0].source, ModSourceSlot::Lfo { waveform: LfoWaveform::Saw, rate: 3 }));
    let m: ModulatorSlot<i32> = ModulatorSlot { source: s.modulators[0].source, targets: vec![] };
    let source = mod_source_slot_to_graph(&m.source, 0);
    assert!(matches!(source, tang::modulation::ModSource::Lfo { rate: 3, phase: 0, .. }));
}
