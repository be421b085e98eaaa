//! The editor and the audio graph, side by side.

use tang::graph::{AudioGraph, GraphCommand, Timing};
use tang::lane::{new_buffers, LaneDefaults};
use tang::tui::editor::{Editor, Effect, Numbers, SelectorMode};
use tang::tui::keys::{Key, Modifiers};
use tang::tui::model::{KeyboardNode, ParamSlot, PluginSlot, SplitNode, TreeAddress};

type Sent = Vec<Effect<&'static str, i32>>;

fn slot(name: &str, is_instrument: bool) -> PluginSlot<i32> {
    PluginSlot {
        name: name.to_string(),
        format: "CLAP".to_string(),
        id: format!("clap:{name}"),
        is_instrument,
        params: vec![ParamSlot { name: "Cutoff".to_string(), index: 4, min: 0, max: 100, default: 50, value: 50 }],
        modulators: vec![],
    }
}

/// An editor and a graph, which perform what the other asks for.
struct Pair {
    editor: Editor<i32>,
    graph: AudioGraph<&'static str, i32>,
}

impl Pair {
    fn new() -> Pair {
        let split = SplitNode {
            range: None,
            transpose: 0,
            instrument: Some(slot("Synth", true)),
            effects: vec![slot("Echo", false), slot("Reverb", false)],
            pattern: None,
        };
        let keyboards = vec![KeyboardNode { name: "Main".to_string(), splits: vec![split] }];
        let numbers = Numbers {
            zero: 0,
            unity: 1000,
            new_depth: 500,
            rate_min: 10,
            rate_max: 50000,
            time_min: 1,
            time_max: 10000,
            beats_min: 1000,
            beats_max: 32000,
            new_beats: 4000,
            bpm_min: 20000,
            bpm_max: 300000,
            attack: 10,
            decay: 300,
            sustain: 700,
            release: 500,
        };
        let defaults = LaneDefaults { zero: 0, unity: 1000, sample_rate: 48000, length_beats: 4000, bpm: 120000 };
        let mut pair =
            Pair { editor: Editor::new(keyboards, 120000, numbers), graph: AudioGraph::new(2, defaults) };
        pair.perform(vec![
            Effect::Send(GraphCommand::AddKeyboard),
            Effect::Send(GraphCommand::AddSplit { kb: 0, range: None }),
            Effect::Send(GraphCommand::SwapInstrument {
                kb: 0,
                split: 0,
                instrument: "Synth",
                sample_rate: 48000,
                inst_buf: new_buffers(2),
                remapper: None,
            }),
            Effect::Send(GraphCommand::InsertEffect { kb: 0, split: 0, index: 0, effect: "Echo", outputs: 2, mix: 1000 }),
            Effect::Send(GraphCommand::InsertEffect { kb: 0, split: 0, index: 1, effect: "Reverb", outputs: 2, mix: 1000 }),
        ]);
        pair
    }

    fn perform(&mut self, effects: Sent) {
        for effect in effects {
            if let Effect::Send(command) = effect {
                self.graph.apply_command(command, Timing { pattern_samples: 96000, beat_samples: 24000 });
            }
        }
        self.check();
    }

    fn check(&self) {
        assert_eq!(self.editor.keyboards.len(), self.graph.keyboards.len());
        for (keyboard, lanes) in self.editor.keyboards.iter().zip(&self.graph.keyboards) {
            if keyboard.splits.len() != lanes.splits.len() {
                // Only while the pair is being set up.
                assert!(lanes.splits.len() < keyboard.splits.len());
                continue;
            }
            for (split, lane) in keyboard.splits.iter().zip(&lanes.splits) {
                assert_eq!((split.range, split.transpose), (lane.range, lane.transpose));
                assert_eq!(split.instrument.is_some(), lane.instrument.is_some());
                assert_eq!(split.effects.len(), lane.effects.len());
                for (effect, modulators) in split.effects.iter().zip(&lane.effect_modulators) {
                    let shown: Vec<Vec<_>> =
                        effect.modulators.iter().map(|m| m.targets.iter().map(|t| t.kind).collect()).collect();
                    let heard: Vec<Vec<_>> =
                        modulators.iter().map(|m| m.targets.iter().map(|t| t.kind).collect()).collect();
                    assert_eq!(shown, heard);
                }
            }
        }
    }

    fn select(&mut self, address: TreeAddress) {
        self.editor.chain_selected = self.editor.tree.iter().position(|e| e.address == address).unwrap();
    }

    fn press(&mut self, key: Key, shift: bool) {
        let effects = self.editor.handle_key(key, Modifiers { control: false, shift });
        self.perform(effects);
    }

    fn drive_first_target(&mut self, place: TreeAddress, entry: usize) {
        self.select(place);
        self.press(Key::Char('t'), false);
        let entries = self.editor.open_target_selector();
        let effects = self.editor.confirm_target_selector(Some(&entries[entry]));
        self.perform(effects);
    }
}

#[test]
fn editing_keeps_the_graph_in_step() {
    let mut pair = Pair::new();
    let echo = TreeAddress::Effect { kb: 0, split: 0, index: 0 };
    pair.select(echo);
    pair.press(Key::Char('m'), false);
    pair.select(echo);
    pair.press(Key::Char('m'), false);
    let modulators = &pair.graph.keyboards[0].splits[0].effect_modulators;
    assert_eq!((modulators[0].len(), modulators[1].len()), (2, 0));

    let second = TreeAddress::Modulator { kb: 0, split: 0, parent_slot: 1, index: 1 };
    pair.drive_first_target(second, 0);
    pair.drive_first_target(second, 1);
    assert_eq!(pair.graph.keyboards[0].splits[0].effect_modulators[0][1].targets.len(), 2);

    // The modulators go with their effect.
    pair.select(echo);
    pair.press(Key::Down, true);
    assert_eq!(pair.graph.keyboards[0].splits[0].effects, vec!["Reverb", "Echo"]);
    assert_eq!(pair.graph.keyboards[0].splits[0].effect_modulators[1].len(), 2);

    // Without the first modulator, what the second drove of it is gone.
    pair.select(TreeAddress::Modulator { kb: 0, split: 0, parent_slot: 2, index: 0 });
    pair.press(Key::Char('d'), false);
    assert_eq!(pair.graph.keyboards[0].splits[0].effect_modulators[1][0].targets.len(), 1);

    pair.select(TreeAddress::Split { kb: 0, split: 0 });
    let effects = pair.editor.adjust_param(true, true, 0);
    pair.perform(effects);
    assert_eq!(pair.graph.keyboards[0].splits[0].transpose, 12);

    pair.select(TreeAddress::Keyboard(0));
    pair.press(Key::Char('a'), false);
    let effects = pair.editor.confirm_range("C2-B2");
    pair.perform(effects);
    assert_eq!(pair.graph.keyboards[0].splits[1].range, Some((36, 47)));

    pair.select(TreeAddress::Split { kb: 0, split: 1 });
    pair.editor.selector = Some(SelectorMode::Instrument);
    let effects = pair.editor.confirm_selector(slot("Bass", true), "Bass", 2, 48000);
    pair.perform(effects);
    pair.editor.selector = Some(SelectorMode::Effect);
    let effects = pair.editor.confirm_selector(slot("Delay", false), "Delay", 2, 48000);
    pair.perform(effects);
    assert_eq!(pair.graph.keyboards[0].splits[1].effects, vec!["Delay"]);

    pair.select(TreeAddress::Effect { kb: 0, split: 0, index: 0 });
    pair.press(Key::Char('d'), false);
    assert_eq!(pair.graph.keyboards[0].splits[0].effects, vec!["Echo"]);
    pair.select(TreeAddress::Split { kb: 0, split: 0 });
    pair.press(Key::Char('d'), false);
    assert_eq!(pair.graph.keyboards[0].splits.len(), 1);
}

#[test]
fn every_line_of_the_tree_leads_somewhere() {
    let mut pair = Pair::new();
    pair.select(TreeAddress::Instrument { kb: 0, split: 0 });
    pair.press(Key::Char('m'), false);
    let places: Vec<TreeAddress> = pair.editor.tree.iter().map(|e| e.address).collect();
    assert!(places.contains(&TreeAddress::Modulator { kb: 0, split: 0, parent_slot: 0, index: 0 }));
    for place in places {
        match place {
            TreeAddress::Keyboard(kb) => assert!(kb < pair.editor.keyboards.len()),
            TreeAddress::Split { kb, split } | TreeAddress::Pattern { kb, split } => {
                assert!(split < pair.editor.keyboards[kb].splits.len());
            }
            TreeAddress::Instrument { .. } | TreeAddress::Effect { .. } => {
                assert!(pair.editor.plugin_at(place).is_some());
            }
            TreeAddress::Modulator { kb, split, parent_slot, index } => {
                let split = &pair.editor.keyboards[kb].splits[split];
                let plugin = match parent_slot {
                    0 => split.instrument.as_ref().unwrap(),
                    slot => &split.effects[slot - 1],
                };
                assert!(index < plugin.modulators.len());
            }
        }
    }
}
