//! A session that is opened starts with the editor and the audio graph in step.
use vstd::prelude::*;

use crate::graph::{GraphCommand, GraphView, Timing};
use crate::lane::{empty_buffers, remapper_view, Instrument, LaneView};
use crate::model::{insert_position, views};
use crate::modulation::{param_base_updated, ModTarget, ModTargetKind, ModulatorView};
use crate::pattern::{PatternView, PlayerView};
use crate::play::{
    effect_start, effects_start, instrument_start, keyboards_load, keyboards_loaded, opened_for, opened_for_split,
    opened_for_splits, plugin_loaded, setup_commands, shows_modulators, split_load, split_loaded, splits_load,
    splits_loaded, Opened, OpenedInstrument, OpenedSplit,
};
use crate::plugin::ParameterInfo;
use crate::session::{
    EffectConfig, KeyboardConfig, ModTargetConfig, ModulatorConfig, PatternConfig, PluginConfig, SessionConfig,
    SplitConfig,
};
use crate::startup::{
    configured_source, destination, modulator_commands, override_commands, param_named, pattern_start,
    started_source, target_commands, target_infos, LoadedTargetView, SlotPlace,
};
use crate::tui::editor::Numbers;
use crate::tui::load::{
    keyboards_start, loaded_keyboard, loaded_modulator, loaded_plugin, loaded_split, split_start, splits_start,
    start_view, start_views, timed, LoadedKeyboard, LoadedModulator, LoadedSplit, StartCommand,
};
use crate::tui::mirror::{
    heard_kinds, heard_wiring, in_step, lemma_param_base, shown_kinds, shown_wiring, split_in_step, splits_in_step,
};
use crate::tui::model::{KeyboardView, SplitView};

verus! {

// ---------------------------------------------------------------------------
// What a lane has in common with a split of the editor
// ---------------------------------------------------------------------------

/// What a lane has in common with a split of the editor: range, transposition, whether there is an
/// instrument, and what the modulators of each effect drive.
#[verifier::ext_equal]
pub struct Shape {
    pub range: Option<(u8, u8)>,
    pub transpose: i8,
    pub played: bool,
    pub wiring: Seq<Seq<Seq<ModTargetKind>>>,
}

/// What the modulators of each effect drive.
pub open spec fn wiring_of<F>(effects: Seq<Seq<ModulatorView<F>>>) -> Seq<Seq<Seq<ModTargetKind>>> {
    effects.map_values(|mods: Seq<ModulatorView<F>>| heard_wiring(mods))
}

/// The shape of a lane.
pub open spec fn shape<P, F>(l: LaneView<P, F>) -> Shape {
    Shape {
        range: l.range,
        transpose: l.transpose,
        played: l.instrument is Some,
        wiring: wiring_of(l.effect_modulators),
    }
}

/// The shapes of the lanes of a keyboard.
pub open spec fn lane_shapes<P, F>(lanes: Seq<LaneView<P, F>>) -> Seq<Shape> {
    lanes.map_values(|l: LaneView<P, F>| shape(l))
}

/// The shapes of all lanes.
pub open spec fn shapes<P, F>(g: GraphView<P, F>) -> Seq<Seq<Shape>> {
    g.keyboards.map_values(|lanes: Seq<LaneView<P, F>>| lane_shapes(lanes))
}

// ---------------------------------------------------------------------------
// Commands, one by one
// ---------------------------------------------------------------------------

/// The audio graph after a command that starts a session.
pub open spec fn started<P, F>(g: GraphView<P, F>, c: StartCommand<P, F>, timing: Timing) -> GraphView<P, F> {
    match c {
        StartCommand::Plain(command) => g.applied(command, timing),
        StartCommand::Load { kb, split, events, samples, base_note } => g.on_player(
            kb,
            split,
            |p: PlayerView<F>| p.loaded(PatternView { events, length_samples: samples }, base_note),
        ),
        StartCommand::Install { kb, split, instrument, sample_rate, buffers, remapper } => g.on_lane(
            kb,
            split,
            |l: LaneView<P, F>|
                l.instrument_swapped(Instrument { plugin: instrument, sample_rate }, buffers, remapper_view(remapper)),
        ),
    }
}

/// The audio graph after commands that start a session.
pub open spec fn all_started<P, F>(g: GraphView<P, F>, cs: Seq<StartCommand<P, F>>, timing: Timing) -> GraphView<P, F>
    decreases cs.len(),
{
    if cs.len() == 0 {
        g
    } else {
        started(all_started(g, cs.drop_last(), timing), cs.last(), timing)
    }
}

/// The audio graph after commands.
pub open spec fn all_applied<P, F>(g: GraphView<P, F>, cs: Seq<GraphCommand<P, F>>, timing: Timing) -> GraphView<P, F>
    decreases cs.len(),
{
    if cs.len() == 0 {
        g
    } else {
        all_applied(g, cs.drop_last(), timing).applied(cs.last(), timing)
    }
}

proof fn lemma_applied<P, F>(g: GraphView<P, F>, c: GraphCommand<P, F>, timing: Timing)
    ensures
        g.applied(c, timing) == started(g, start_view(c), timing),
{
}

proof fn lemma_all_applied<P, F>(g: GraphView<P, F>, cs: Seq<GraphCommand<P, F>>, timing: Timing)
    ensures
        all_applied(g, cs, timing) == all_started(g, start_views(cs), timing),
    decreases cs.len(),
{
    if cs.len() > 0 {
        lemma_all_applied(g, cs.drop_last(), timing);
        assert(start_views(cs).drop_last() =~= start_views(cs.drop_last()));
        lemma_applied(all_applied(g, cs.drop_last(), timing), cs.last(), timing);
    }
}

proof fn lemma_all_started<P, F>(g: GraphView<P, F>, a: Seq<StartCommand<P, F>>, b: Seq<StartCommand<P, F>>, timing: Timing)
    ensures
        all_started(g, a + b, timing) == all_started(all_started(g, a, timing), b, timing),
    decreases b.len(),
{
    if b.len() == 0 {
        assert(a + b =~= a);
    } else {
        assert((a + b).drop_last() =~= a + b.drop_last());
        lemma_all_started(g, a, b.drop_last(), timing);
    }
}

/// Whether a command is one that sets up this split, or the tempo.
pub open spec fn aims<P, F>(c: StartCommand<P, F>, at: (usize, usize)) -> bool {
    match c {
        StartCommand::Install { kb, split, .. } => (kb, split) == at,
        StartCommand::Load { kb, split, .. } => (kb, split) == at,
        StartCommand::Plain(command) => match command {
            GraphCommand::InsertEffect { kb, split, .. } => (kb, split) == at,
            GraphCommand::SetParameter { kb, split, .. } => (kb, split) == at,
            GraphCommand::SetVolume { kb, split, .. } => (kb, split) == at,
            GraphCommand::InsertModulator { kb, split, .. } => (kb, split) == at,
            GraphCommand::AddModTarget { kb, split, .. } => (kb, split) == at,
            GraphCommand::SetPatternEnabled { kb, split, .. } => (kb, split) == at,
            GraphCommand::SetPatternLength { kb, split, .. } => (kb, split) == at,
            GraphCommand::SetPatternLooping { kb, split, .. } => (kb, split) == at,
            GraphCommand::SetTranspose { kb, split, .. } => (kb, split) == at,
            GraphCommand::SetGlobalBpm { .. } => true,
            _ => false,
        },
    }
}

/// The shape of a lane after a command that sets it up.
pub open spec fn reshaped<P, F>(s: Shape, c: StartCommand<P, F>, channels: usize) -> Shape {
    match c {
        StartCommand::Install { .. } => Shape { played: true, ..s },
        StartCommand::Plain(GraphCommand::InsertEffect { index, outputs, .. }) => if outputs == channels {
            let at = insert_position(index as int, s.wiring.len() as int);
            Shape { wiring: s.wiring.insert(at, Seq::empty()), ..s }
        } else {
            s
        },
        StartCommand::Plain(GraphCommand::InsertModulator { parent_slot, index, .. }) => {
            if 0 < parent_slot <= s.wiring.len() {
                let mods = s.wiring[parent_slot - 1];
                let at = insert_position(index as int, mods.len() as int);
                Shape { wiring: s.wiring.update(parent_slot - 1, mods.insert(at, Seq::empty())), ..s }
            } else {
                s
            }
        },
        StartCommand::Plain(GraphCommand::AddModTarget { parent_slot, mod_index, target, .. }) => {
            if 0 < parent_slot <= s.wiring.len() && mod_index < s.wiring[parent_slot - 1].len() {
                let mods = s.wiring[parent_slot - 1];
                let more = mods[mod_index as int].push(target.kind);
                Shape { wiring: s.wiring.update(parent_slot - 1, mods.update(mod_index as int, more)), ..s }
            } else {
                s
            }
        },
        StartCommand::Plain(GraphCommand::SetTranspose { semitones, .. }) => Shape { transpose: semitones, ..s },
        _ => s,
    }
}

/// The shapes with one lane's replaced.
pub open spec fn with_shape(all: Seq<Seq<Shape>>, at: (usize, usize), s: Shape) -> Seq<Seq<Shape>> {
    all.update(at.0 as int, all[at.0 as int].update(at.1 as int, s))
}

proof fn lemma_with_lane<P, F>(g: GraphView<P, F>, kb: usize, split: usize, l: LaneView<P, F>)
    requires
        g.has_split(kb, split),
    ensures
        shapes(g.with_lane(kb, split, l)) == with_shape(shapes(g), (kb, split), shape(l)),
{
    let lanes = g.keyboards[kb as int];
    assert(lane_shapes(lanes.update(split as int, l)) =~= lane_shapes(lanes).update(split as int, shape(l)));
    assert(shapes(g.with_lane(kb, split, l)) =~= with_shape(shapes(g), (kb, split), shape(l)));
}

proof fn lemma_same_shape<P, F>(g: GraphView<P, F>, at: (usize, usize))
    requires
        g.has_split(at.0, at.1),
    ensures
        with_shape(shapes(g), at, shape(g.lane(at.0, at.1))) == shapes(g),
{
    let s = shape(g.lane(at.0, at.1));
    assert(shapes(g)[at.0 as int][at.1 as int] == s);
    assert(shapes(g)[at.0 as int].update(at.1 as int, s) =~= shapes(g)[at.0 as int]);
    assert(with_shape(shapes(g), at, s) =~= shapes(g));
}

/// Replacing the modulators of an effect replaces their wiring.
proof fn lemma_wiring_updated<F>(effects: Seq<Seq<ModulatorView<F>>>, index: int, mods: Seq<ModulatorView<F>>)
    requires
        0 <= index < effects.len(),
    ensures
        wiring_of(effects.update(index, mods)) == wiring_of(effects).update(index, heard_wiring(mods)),
{
    assert(wiring_of(effects.update(index, mods)) =~= wiring_of(effects).update(index, heard_wiring(mods)));
}

/// What a command does to a lane, it does to the lane's shape.
proof fn lemma_lane_reshaped<P, F>(g: GraphView<P, F>, c: StartCommand<P, F>, at: (usize, usize), timing: Timing)
    requires
        g.wf(),
        g.has_split(at.0, at.1),
        aims(c, at),
    ensures
        shapes(started(g, c, timing)) == with_shape(
            shapes(g),
            at,
            reshaped(shape(g.lane(at.0, at.1)), c, g.num_channels),
        ),
        started(g, c, timing).num_channels == g.num_channels,
        started(g, c, timing).wf(),
{
    let (kb, split) = at;
    let l = g.lane(kb, split);
    lemma_same_shape(g, at);
    match c {
        StartCommand::Install { instrument, sample_rate, buffers, remapper, .. } => {
            let l2 = l.instrument_swapped(Instrument { plugin: instrument, sample_rate }, buffers, remapper_view(remapper));
            lemma_with_lane(g, kb, split, l2);
        },
        StartCommand::Load { events, samples, base_note, .. } => {
            let player = l.pattern.loaded(PatternView { events, length_samples: samples }, base_note);
            lemma_with_lane(g, kb, split, LaneView { pattern: player, ..l });
        },
        StartCommand::Plain(command) => {
            g.applying_keeps_wf(command, timing);
            lemma_plain_reshaped(g, command, at, timing);
        },
    }
}

#[verifier::rlimit(30)]
proof fn lemma_plain_reshaped<P, F>(g: GraphView<P, F>, c: GraphCommand<P, F>, at: (usize, usize), timing: Timing)
    requires
        g.wf(),
        g.has_split(at.0, at.1),
        aims(StartCommand::Plain(c), at),
    ensures
        shapes(g.applied(c, timing)) == with_shape(
            shapes(g),
            at,
            reshaped(shape(g.lane(at.0, at.1)), StartCommand::Plain(c), g.num_channels),
        ),
        g.applied(c, timing).num_channels == g.num_channels,
{
    let (kb, split) = at;
    let l = g.lane(kb, split);
    let s = shape(l);
    lemma_same_shape(g, at);
    match c {
        GraphCommand::InsertEffect { index, effect, outputs, mix, .. } => {
            if outputs == g.num_channels {
                let l2 = l.effect_inserted(index, effect, mix);
                lemma_with_lane(g, kb, split, l2);
                let p = insert_position(index as int, l.effects.len() as int);
                assert(heard_wiring(Seq::<ModulatorView<F>>::empty()) =~= Seq::empty());
                assert(wiring_of(l2.effect_modulators) =~= s.wiring.insert(p, Seq::empty()));
            }
        },
        GraphCommand::SetParameter { slot, param_index, value, .. } => {
            let l2 = l.parameter_set(slot, param_index, value);
            lemma_with_lane(g, kb, split, l2);
            if let Some(mods) = l.modulators(slot) {
                if slot > 0 {
                    lemma_param_base(mods, param_index, value);
                    lemma_wiring_updated(
                        l.effect_modulators,
                        slot - 1,
                        param_base_updated(mods, param_index, value),
                    );
                    assert(s.wiring.update(slot - 1, heard_wiring(mods)) =~= s.wiring);
                }
            }
        },
        GraphCommand::SetVolume { value, .. } => {
            lemma_with_lane(g, kb, split, LaneView { volume: value, ..l });
        },
        GraphCommand::InsertModulator { parent_slot, index, source, .. } => {
            let l2 = l.modulator_inserted(parent_slot, index, source, g.defaults);
            lemma_with_lane(g, kb, split, l2);
            if 0 < parent_slot <= l.effect_modulators.len() {
                let mods = l.effect_modulators[parent_slot - 1];
                let p = insert_position(index as int, mods.len() as int);
                let m = ModulatorView {
                    source,
                    sample_rate: l.sample_rate(g.defaults.sample_rate),
                    targets: Seq::empty(),
                    last_output: g.defaults.zero,
                };
                lemma_wiring_updated(l.effect_modulators, parent_slot - 1, mods.insert(p, m));
                assert(heard_kinds(m.targets) =~= Seq::empty());
                assert(heard_wiring(mods.insert(p, m)) =~= heard_wiring(mods).insert(p, Seq::empty()));
            }
        },
        GraphCommand::AddModTarget { parent_slot, mod_index, target, .. } => {
            if l.has_modulator(parent_slot, mod_index) {
                let m = l.modulator(parent_slot, mod_index);
                let m2 = ModulatorView { targets: m.targets.push(target), ..m };
                lemma_with_lane(g, kb, split, l.with_modulator(parent_slot, mod_index, m2));
                if parent_slot > 0 {
                    let mods = l.effect_modulators[parent_slot - 1];
                    lemma_wiring_updated(l.effect_modulators, parent_slot - 1, mods.update(mod_index as int, m2));
                    assert(heard_kinds(m2.targets) =~= heard_kinds(m.targets).push(target.kind));
                    assert(heard_wiring(mods.update(mod_index as int, m2)) =~= heard_wiring(mods).update(
                        mod_index as int,
                        heard_kinds(m.targets).push(target.kind),
                    ));
                }
            } else {
                lemma_with_lane(g, kb, split, l);
            }
        },
        GraphCommand::SetPatternEnabled { enabled, .. } => {
            lemma_with_lane(g, kb, split, LaneView { pattern: PlayerView { enabled, ..l.pattern }, ..l });
        },
        GraphCommand::SetPatternLength { beats, .. } => {
            lemma_with_lane(g, kb, split, LaneView { pattern: PlayerView { length_beats: beats, ..l.pattern }, ..l });
        },
        GraphCommand::SetPatternLooping { looping, .. } => {
            lemma_with_lane(g, kb, split, LaneView { pattern: PlayerView { looping, ..l.pattern }, ..l });
        },
        GraphCommand::SetTranspose { semitones, .. } => {
            lemma_with_lane(g, kb, split, LaneView { transpose: semitones, ..l });
        },
        GraphCommand::SetGlobalBpm { bpm } => {
            assert forall|k: int| 0 <= k < g.keyboards.len() implies lane_shapes(#[trigger] g.with_bpm(bpm).keyboards[k])
                == lane_shapes(g.keyboards[k]) by {
                assert(lane_shapes(g.with_bpm(bpm).keyboards[k]) =~= lane_shapes(g.keyboards[k]));
            }
            assert(shapes(g.with_bpm(bpm)) =~= shapes(g));
        },
        _ => {},
    }
}

// ---------------------------------------------------------------------------
// Commands in a row
// ---------------------------------------------------------------------------

/// The shape of a lane after commands that set it up.
pub open spec fn all_reshaped<P, F>(s: Shape, cs: Seq<StartCommand<P, F>>, channels: usize) -> Shape
    decreases cs.len(),
{
    if cs.len() == 0 {
        s
    } else {
        reshaped(all_reshaped(s, cs.drop_last(), channels), cs.last(), channels)
    }
}

/// Whether all commands set up this split, or the tempo.
pub open spec fn all_aim<P, F>(cs: Seq<StartCommand<P, F>>, at: (usize, usize)) -> bool {
    forall|i: int| 0 <= i < cs.len() ==> aims(#[trigger] cs[i], at)
}

proof fn lemma_all_reshaped<P, F>(s: Shape, a: Seq<StartCommand<P, F>>, b: Seq<StartCommand<P, F>>, channels: usize)
    ensures
        all_reshaped(s, a + b, channels) == all_reshaped(all_reshaped(s, a, channels), b, channels),
    decreases b.len(),
{
    if b.len() == 0 {
        assert(a + b =~= a);
    } else {
        assert((a + b).drop_last() =~= a + b.drop_last());
        lemma_all_reshaped(s, a, b.drop_last(), channels);
    }
}

proof fn lemma_joined<P, F>(s: Shape, a: Seq<GraphCommand<P, F>>, b: Seq<GraphCommand<P, F>>, channels: usize, at: (usize, usize))
    requires
        all_aim(start_views(a), at),
        all_aim(start_views(b), at),
    ensures
        all_aim(start_views(a + b), at),
        all_reshaped(s, start_views(a + b), channels) == all_reshaped(
            all_reshaped(s, start_views(a), channels),
            start_views(b),
            channels,
        ),
{
    assert(start_views(a + b) =~= start_views(a) + start_views(b));
    lemma_all_reshaped(s, start_views(a), start_views(b), channels);
}

proof fn lemma_pushed<P, F>(s: Shape, a: Seq<GraphCommand<P, F>>, c: GraphCommand<P, F>, channels: usize, at: (usize, usize))
    requires
        all_aim(start_views(a), at),
        aims(start_view(c), at),
    ensures
        all_aim(start_views(a.push(c)), at),
        all_reshaped(s, start_views(a.push(c)), channels) == reshaped(
            all_reshaped(s, start_views(a), channels),
            start_view(c),
            channels,
        ),
{
    assert(start_views(a.push(c)) =~= start_views(a).push(start_view(c)));
    assert(start_views(a).push(start_view(c)).drop_last() =~= start_views(a));
}

/// What commands do to a lane, they do to the lane's shape.
proof fn lemma_lanes_reshaped<P, F>(g: GraphView<P, F>, cs: Seq<StartCommand<P, F>>, at: (usize, usize), timing: Timing)
    requires
        g.wf(),
        g.has_split(at.0, at.1),
        all_aim(cs, at),
    ensures
        shapes(all_started(g, cs, timing)) == with_shape(
            shapes(g),
            at,
            all_reshaped(shapes(g)[at.0 as int][at.1 as int], cs, g.num_channels),
        ),
        all_started(g, cs, timing).num_channels == g.num_channels,
        all_started(g, cs, timing).wf(),
    decreases cs.len(),
{
    let (kb, split) = at;
    let s = shapes(g)[kb as int][split as int];
    assert(s == shape(g.lane(kb, split)));
    if cs.len() == 0 {
        lemma_same_shape(g, at);
    } else {
        let before = all_started(g, cs.drop_last(), timing);
        assert forall|i: int| 0 <= i < cs.drop_last().len() implies aims(#[trigger] cs.drop_last()[i], at) by {
            assert(cs.drop_last()[i] == cs[i]);
        }
        lemma_lanes_reshaped(g, cs.drop_last(), at, timing);
        let s1 = all_reshaped(s, cs.drop_last(), g.num_channels);
        assert(shapes(before).len() == before.keyboards.len());
        assert(shapes(before)[kb as int].len() == before.keyboards[kb as int].len());
        assert(shapes(before)[kb as int][split as int] == s1);
        assert(shape(before.lane(kb, split)) == s1);
        lemma_lane_reshaped(before, cs.last(), at, timing);
        let s2 = reshaped(s1, cs.last(), g.num_channels);
        assert(with_shape(with_shape(shapes(g), at, s1), at, s2) =~= with_shape(shapes(g), at, s2)) by {
            assert(shapes(g)[kb as int].update(split as int, s1).update(split as int, s2)
                =~= shapes(g)[kb as int].update(split as int, s2));
        }
    }
}

// ---------------------------------------------------------------------------
// Plugins
// ---------------------------------------------------------------------------

/// What the first `count` targets of a modulator of a session drive.
pub open spec fn driven<F>(targets: Seq<ModTargetConfig<F>>, params: Seq<ParameterInfo<F>>, n: Numbers<F>, count: int) -> Seq<
    ModTargetKind,
>
    decreases count,
{
    if count <= 0 {
        Seq::empty()
    } else {
        let rest = driven(targets, params, n, count - 1);
        match destination(targets[count - 1], params, n) {
            Some(d) => rest.push(d.kind),
            None => rest,
        }
    }
}

/// What the first `count` modulators of a session drive.
pub open spec fn wired<F>(mods: Seq<ModulatorConfig<F>>, params: Seq<ParameterInfo<F>>, n: Numbers<F>, count: int) -> Seq<
    Seq<ModTargetKind>,
> {
    Seq::new(count as nat, |i: int| driven(mods[i].targets@, params, n, mods[i].targets@.len() as int))
}

/// The shape with the wiring of the plugin at `slot` replaced, if that is an effect.
pub open spec fn with_wiring(s: Shape, slot: usize, mods: Seq<Seq<ModTargetKind>>) -> Shape {
    if slot == 0 {
        s
    } else {
        Shape { wiring: s.wiring.update(slot - 1, mods), ..s }
    }
}

proof fn lemma_overrides<P, F>(
    s: Shape,
    params: Seq<ParameterInfo<F>>,
    overrides: Seq<(String, F)>,
    at: SlotPlace,
    count: int,
    channels: usize,
)
    ensures
        all_aim(start_views(override_commands::<P, F>(params, overrides, at.kb, at.split, at.slot, count)), (at.kb, at.split)),
        all_reshaped(
            s,
            start_views(override_commands::<P, F>(params, overrides, at.kb, at.split, at.slot, count)),
            channels,
        ) == s,
    decreases count,
{
    if count > 0 {
        lemma_overrides::<P, F>(s, params, overrides, at, count - 1, channels);
        let rest = override_commands::<P, F>(params, overrides, at.kb, at.split, at.slot, count - 1);
        let (name, value) = overrides[count - 1];
        if let Some(p) = param_named(params, name@, 0) {
            let c = GraphCommand::<P, F>::SetParameter {
                kb: at.kb,
                split: at.split,
                slot: at.slot,
                param_index: p.index,
                value,
            };
            lemma_pushed(s, rest, c, channels, (at.kb, at.split));
        }
    }
}

proof fn lemma_targets<P, F>(
    s: Shape,
    targets: Seq<ModTargetConfig<F>>,
    params: Seq<ParameterInfo<F>>,
    n: Numbers<F>,
    at: SlotPlace,
    index: usize,
    count: int,
    channels: usize,
)
    requires
        at.slot <= s.wiring.len(),
        at.slot > 0 ==> index < s.wiring[at.slot - 1].len(),
    ensures
        all_aim(start_views(target_commands::<P, F>(targets, params, n, at, index, count)), (at.kb, at.split)),
        all_reshaped(s, start_views(target_commands::<P, F>(targets, params, n, at, index, count)), channels)
            == with_wiring(
            s,
            at.slot,
            s.wiring[at.slot - 1].update(
                index as int,
                s.wiring[at.slot - 1][index as int] + driven(targets, params, n, count),
            ),
        ),
    decreases count,
{
    let mods = s.wiring[at.slot - 1];
    let kinds = driven(targets, params, n, count);
    let after = with_wiring(s, at.slot, mods.update(index as int, mods[index as int] + kinds));
    if count <= 0 {
        if at.slot > 0 {
            assert(mods[index as int] + kinds =~= mods[index as int]);
            assert(mods.update(index as int, mods[index as int]) =~= mods);
            assert(after.wiring =~= s.wiring);
        }
    } else {
        lemma_targets::<P, F>(s, targets, params, n, at, index, count - 1, channels);
        let rest = target_commands::<P, F>(targets, params, n, at, index, count - 1);
        let t = targets[count - 1];
        if let Some(d) = destination(t, params, n) {
            let c = GraphCommand::<P, F>::AddModTarget {
                kb: at.kb,
                split: at.split,
                parent_slot: at.slot,
                mod_index: index,
                target: ModTarget {
                    kind: d.kind,
                    depth: t.depth,
                    base_value: d.base,
                    param_min: d.min,
                    param_max: d.max,
                },
            };
            lemma_pushed(s, rest, c, channels, (at.kb, at.split));
            if at.slot > 0 {
                let old_kinds = driven(targets, params, n, count - 1);
                let more = (mods[index as int] + old_kinds).push(d.kind);
                assert(more =~= mods[index as int] + kinds);
                let before = mods.update(index as int, mods[index as int] + old_kinds);
                assert(before.update(index as int, more) =~= mods.update(index as int, more));
                assert(s.wiring.update(at.slot - 1, before).update(at.slot - 1, mods.update(index as int, more))
                    =~= s.wiring.update(at.slot - 1, mods.update(index as int, more)));
            }
        }
    }
}

proof fn lemma_modulators<P, F>(
    s: Shape,
    mods: Seq<ModulatorConfig<F>>,
    params: Seq<ParameterInfo<F>>,
    n: Numbers<F>,
    at: SlotPlace,
    count: int,
    channels: usize,
)
    requires
        0 <= count <= mods.len() <= usize::MAX,
        at.slot <= s.wiring.len(),
        at.slot > 0 ==> s.wiring[at.slot - 1].len() == 0,
    ensures
        all_aim(start_views(modulator_commands::<P, F>(mods, params, n, at, count)), (at.kb, at.split)),
        all_reshaped(s, start_views(modulator_commands::<P, F>(mods, params, n, at, count)), channels)
            == with_wiring(s, at.slot, wired(mods, params, n, count)),
    decreases count,
{
    if count == 0 {
        if at.slot > 0 {
            assert(wired(mods, params, n, 0) =~= s.wiring[at.slot - 1]);
            assert(s.wiring.update(at.slot - 1, s.wiring[at.slot - 1]) =~= s.wiring);
        }
    } else {
        lemma_modulators::<P, F>(s, mods, params, n, at, count - 1, channels);
        let here = (at.kb, at.split);
        let rest = modulator_commands::<P, F>(mods, params, n, at, count - 1);
        let m = mods[count - 1];
        let index = (count - 1) as usize;
        let c = GraphCommand::<P, F>::InsertModulator {
            kb: at.kb,
            split: at.split,
            parent_slot: at.slot,
            index,
            source: started_source(configured_source(m), n.zero),
        };
        lemma_pushed(s, rest, c, channels, here);
        let before = wired(mods, params, n, count - 1);
        let s1 = with_wiring(s, at.slot, before.push(Seq::empty()));
        if at.slot > 0 {
            assert(before.insert(index as int, Seq::empty()) =~= before.push(Seq::empty()));
            assert(s.wiring.update(at.slot - 1, before).update(at.slot - 1, before.push(Seq::empty()))
                =~= s1.wiring);
        }
        assert(all_reshaped(s, start_views(rest.push(c)), channels) == s1);
        let targets = target_commands::<P, F>(m.targets@, params, n, at, index, m.targets@.len() as int);
        lemma_targets::<P, F>(s1, m.targets@, params, n, at, index, m.targets@.len() as int, channels);
        lemma_joined(s, rest.push(c), targets, channels, here);
        if at.slot > 0 {
            let kinds = driven(m.targets@, params, n, m.targets@.len() as int);
            assert(Seq::<ModTargetKind>::empty() + kinds =~= kinds);
            assert(before.push(Seq::empty()).update(index as int, kinds) =~= wired(mods, params, n, count));
            assert(s1.wiring.update(at.slot - 1, wired(mods, params, n, count))
                =~= s.wiring.update(at.slot - 1, wired(mods, params, n, count)));
        }
    }
}

proof fn lemma_setup<P, F>(
    s: Shape,
    params: Seq<ParameterInfo<F>>,
    overrides: Seq<(String, F)>,
    mods: Seq<ModulatorConfig<F>>,
    n: Numbers<F>,
    at: SlotPlace,
    channels: usize,
)
    requires
        mods.len() <= usize::MAX,
        at.slot <= s.wiring.len(),
        at.slot > 0 ==> s.wiring[at.slot - 1].len() == 0,
    ensures
        all_aim(start_views(setup_commands::<P, F>(params, overrides, mods, n, at)), (at.kb, at.split)),
        all_reshaped(s, start_views(setup_commands::<P, F>(params, overrides, mods, n, at)), channels)
            == with_wiring(s, at.slot, wired(mods, params, n, mods.len() as int)),
{
    lemma_overrides::<P, F>(s, params, overrides, at, overrides.len() as int, channels);
    lemma_modulators::<P, F>(s, mods, params, n, at, mods.len() as int, channels);
    lemma_joined(
        s,
        override_commands::<P, F>(params, overrides, at.kb, at.split, at.slot, overrides.len() as int),
        modulator_commands::<P, F>(mods, params, n, at, mods.len() as int),
        channels,
        (at.kb, at.split),
    );
}

proof fn lemma_instrument<P, F>(
    s: Shape,
    config: PluginConfig<F>,
    i: OpenedInstrument<P, F>,
    n: Numbers<F>,
    kb: usize,
    split: usize,
    channels: usize,
)
    ensures
        all_aim(instrument_start(config, i, n, kb, split), (kb, split)),
        all_reshaped(s, instrument_start(config, i, n, kb, split), channels) == (Shape { played: true, ..s }),
{
    let at = SlotPlace { kb, split, slot: 0 };
    let s1 = Shape { played: true, ..s };
    let install = StartCommand::Install {
        kb,
        split,
        instrument: i.opened.plugin,
        sample_rate: i.opened.sample_rate,
        buffers: empty_buffers::<F>(i.opened.outputs as int),
        remapper: i.remapper,
    };
    let volume: Seq<GraphCommand<P, F>> = if i.plain {
        Seq::empty()
    } else {
        seq![GraphCommand::SetVolume { kb, split, value: config.volume }]
    };
    assert(config.modulators.len() == config.modulators@.len());
    let setup = setup_commands::<P, F>(i.opened.params@, config.params@, config.modulators@, n, at);
    lemma_setup::<P, F>(s1, i.opened.params@, config.params@, config.modulators@, n, at, channels);
    if i.plain {
        assert(start_views(volume) =~= Seq::empty());
    } else {
        assert(start_views(volume) =~= seq![start_view(volume[0])]);
        assert(start_views(volume).drop_last() =~= Seq::empty());
        assert(all_reshaped(s1, Seq::<StartCommand<P, F>>::empty(), channels) == s1);
    }
    assert(all_reshaped(s1, start_views(volume), channels) == s1);
    lemma_joined(s1, volume, setup, channels, (kb, split));
    let first = seq![install];
    assert(first.drop_last() =~= Seq::empty());
    assert(all_reshaped(s, Seq::<StartCommand<P, F>>::empty(), channels) == s);
    assert(all_reshaped(s, first, channels) == s1);
    lemma_all_reshaped(s, first, start_views(volume + setup), channels);
}

/// What the modulators of the first `count` effects of a session drive.
pub open spec fn chain<P, F>(configs: Seq<EffectConfig<F>>, opened: Seq<Opened<P, F>>, n: Numbers<F>, count: int) -> Seq<
    Seq<Seq<ModTargetKind>>,
> {
    Seq::new(
        count as nat,
        |i: int| wired(configs[i].modulators@, opened[i].params@, n, configs[i].modulators@.len() as int),
    )
}

/// Every effect has as many outputs as the audio graph has channels.
pub open spec fn fitting<P, F>(opened: Seq<Opened<P, F>>, channels: usize) -> bool {
    forall|i: int| 0 <= i < opened.len() ==> (#[trigger] opened[i]).outputs == channels
}

proof fn lemma_effect<P, F>(
    s: Shape,
    config: EffectConfig<F>,
    o: Opened<P, F>,
    n: Numbers<F>,
    kb: usize,
    split: usize,
    index: usize,
    channels: usize,
)
    requires
        index == s.wiring.len(),
        index < usize::MAX,
        o.outputs == channels,
    ensures
        all_aim(effect_start(config, o, n, kb, split, index), (kb, split)),
        all_reshaped(s, effect_start(config, o, n, kb, split, index), channels) == (Shape {
            wiring: s.wiring.push(wired(config.modulators@, o.params@, n, config.modulators@.len() as int)),
            ..s
        }),
{
    let slot: usize = (index + 1) as usize;
    let at = SlotPlace { kb, split, slot };
    let insert = seq![
        GraphCommand::InsertEffect { kb, split, index, effect: o.plugin, outputs: o.outputs, mix: config.mix },
    ];
    let s1 = Shape { wiring: s.wiring.push(Seq::empty()), ..s };
    assert(start_views(insert) =~= seq![start_view(insert[0])]);
    assert(start_views(insert).drop_last() =~= Seq::empty());
    assert(all_reshaped(s, Seq::<StartCommand<P, F>>::empty(), channels) == s);
    assert(s.wiring.insert(index as int, Seq::empty()) =~= s1.wiring);
    assert(all_reshaped(s, start_views(insert), channels) == s1);
    assert(config.modulators.len() == config.modulators@.len());
    lemma_setup::<P, F>(s1, o.params@, config.params@, config.modulators@, n, at, channels);
    let setup = setup_commands::<P, F>(o.params@, config.params@, config.modulators@, n, at);
    lemma_joined(s, insert, setup, channels, (kb, split));
    let mods = wired(config.modulators@, o.params@, n, config.modulators@.len() as int);
    assert(s1.wiring.update(index as int, mods) =~= s.wiring.push(mods));
}

proof fn lemma_effects<P, F>(
    s: Shape,
    configs: Seq<EffectConfig<F>>,
    opened: Seq<Opened<P, F>>,
    n: Numbers<F>,
    kb: usize,
    split: usize,
    count: int,
    channels: usize,
)
    requires
        0 <= count <= configs.len() <= usize::MAX,
        opened.len() == configs.len(),
        fitting(opened, channels),
        s.wiring.len() == 0,
    ensures
        all_aim(effects_start(configs, opened, n, kb, split, count), (kb, split)),
        all_reshaped(s, effects_start(configs, opened, n, kb, split, count), channels) == (Shape {
            wiring: chain(configs, opened, n, count),
            ..s
        }),
    decreases count,
{
    if count == 0 {
        assert(chain(configs, opened, n, 0) =~= s.wiring);
    } else {
        lemma_effects(s, configs, opened, n, kb, split, count - 1, channels);
        let s1 = Shape { wiring: chain(configs, opened, n, count - 1), ..s };
        let index = (count - 1) as usize;
        lemma_effect(s1, configs[count - 1], opened[count - 1], n, kb, split, index, channels);
        lemma_all_reshaped(
            s,
            effects_start(configs, opened, n, kb, split, count - 1),
            effect_start(configs[count - 1], opened[count - 1], n, kb, split, index),
            channels,
        );
        assert(chain(configs, opened, n, count) =~= s1.wiring.push(
            wired(
                configs[count - 1].modulators@,
                opened[count - 1].params@,
                n,
                configs[count - 1].modulators@.len() as int,
            ),
        ));
    }
}

proof fn lemma_pattern<P, F>(s: Shape, p: PatternConfig<F>, kb: usize, split: usize, samples: u64, channels: usize)
    ensures
        all_aim(pattern_start::<P, F>(p, kb, split, samples), (kb, split)),
        all_reshaped(s, pattern_start::<P, F>(p, kb, split, samples), channels) == s,
{
    let cs = pattern_start::<P, F>(p, kb, split, samples);
    lemma_shapeless(s, cs, channels);
}

/// Commands that no shape tells of.
proof fn lemma_shapeless<P, F>(s: Shape, cs: Seq<StartCommand<P, F>>, channels: usize)
    requires
        forall|i: int|
            0 <= i < cs.len() ==> match #[trigger] cs[i] {
                StartCommand::Install { .. } => false,
                StartCommand::Load { .. } => true,
                StartCommand::Plain(c) => c is SetGlobalBpm || c is SetPatternLength || c is SetPatternEnabled
                    || c is SetPatternLooping,
            },
    ensures
        all_reshaped(s, cs, channels) == s,
    decreases cs.len(),
{
    if cs.len() > 0 {
        assert forall|i: int| 0 <= i < cs.drop_last().len() implies match #[trigger] cs.drop_last()[i] {
            StartCommand::Install { .. } => false,
            StartCommand::Load { .. } => true,
            StartCommand::Plain(c) => c is SetGlobalBpm || c is SetPatternLength || c is SetPatternEnabled
                || c is SetPatternLooping,
        } by {
            assert(cs.drop_last()[i] == cs[i]);
        }
        lemma_shapeless(s, cs.drop_last(), channels);
        assert(cs.last() == cs[cs.len() - 1]);
    }
}

// ---------------------------------------------------------------------------
// Splits and keyboards
// ---------------------------------------------------------------------------

/// The shape that a split of a session is given when its plugins are loaded.
pub open spec fn split_shape<P, F>(config: SplitConfig<F>, o: OpenedSplit<P, F>, n: Numbers<F>) -> Shape {
    Shape {
        range: config.range,
        transpose: 0,
        played: config.instrument is Some,
        wiring: chain(config.effects@, o.effects@, n, config.effects@.len() as int),
    }
}

/// The shapes of the first `count` splits.
pub open spec fn split_shapes<P, F>(
    configs: Seq<SplitConfig<F>>,
    opened: Seq<OpenedSplit<P, F>>,
    n: Numbers<F>,
    count: int,
) -> Seq<Shape> {
    Seq::new(count as nat, |i: int| split_shape(configs[i], opened[i], n))
}

/// The shapes of the splits of the first `count` keyboards.
pub open spec fn keyboard_shapes<P, F>(
    configs: Seq<KeyboardConfig<F>>,
    opened: Seq<Vec<OpenedSplit<P, F>>>,
    n: Numbers<F>,
    count: int,
) -> Seq<Seq<Shape>> {
    Seq::new(count as nat, |k: int| split_shapes(configs[k].splits@, opened[k]@, n, configs[k].splits@.len() as int))
}

/// Every effect of these splits has as many outputs as the audio graph has channels.
pub open spec fn splits_fitting<P, F>(opened: Seq<OpenedSplit<P, F>>, channels: usize) -> bool {
    forall|i: int| 0 <= i < opened.len() ==> fitting((#[trigger] opened[i]).effects@, channels)
}

/// Every effect of a session has as many outputs as the audio graph has channels; the audio graph
/// drops any other.
pub open spec fn session_fitting<P, F>(opened: Seq<Vec<OpenedSplit<P, F>>>, channels: usize) -> bool {
    forall|k: int| 0 <= k < opened.len() ==> splits_fitting((#[trigger] opened[k])@, channels)
}

/// What loading a split does to its shape, once the split is there.
proof fn lemma_split_filled<P, F>(
    s: Shape,
    config: SplitConfig<F>,
    o: OpenedSplit<P, F>,
    n: Numbers<F>,
    kb: usize,
    split: usize,
    channels: usize,
) -> (rest: Seq<StartCommand<P, F>>)
    requires
        opened_for_split(o, config),
        fitting(o.effects@, channels),
        s == (Shape { range: config.range, transpose: 0, played: false, wiring: Seq::empty() }),
    ensures
        split_load(config, o, n, kb, split) == seq![
            StartCommand::Plain(GraphCommand::AddSplit { kb, range: config.range }),
        ] + rest,
        all_aim(rest, (kb, split)),
        all_reshaped(s, rest, channels) == split_shape(config, o, n),
{
    let instrument: Seq<StartCommand<P, F>> = match config.instrument {
        Some(c) => instrument_start(c, o.instrument->0, n, kb, split),
        None => Seq::empty(),
    };
    let effects = effects_start(config.effects@, o.effects@, n, kb, split, config.effects@.len() as int);
    let pattern: Seq<StartCommand<P, F>> = match config.pattern {
        Some(p) => pattern_start(p, kb, split, o.samples),
        None => Seq::empty(),
    };
    let s1 = Shape { played: config.instrument is Some, ..s };
    if let Some(c) = config.instrument {
        lemma_instrument(s, c, o.instrument->0, n, kb, split, channels);
    }
    assert(config.effects.len() == config.effects@.len());
    lemma_effects(s1, config.effects@, o.effects@, n, kb, split, config.effects@.len() as int, channels);
    let s2 = split_shape(config, o, n);
    if let Some(p) = config.pattern {
        lemma_pattern::<P, F>(s2, p, kb, split, o.samples, channels);
    }
    lemma_all_reshaped(s, instrument, effects, channels);
    lemma_all_reshaped(s, instrument + effects, pattern, channels);
    let rest = instrument + effects + pattern;
    assert(split_load(config, o, n, kb, split) =~= seq![
        StartCommand::Plain(GraphCommand::AddSplit { kb, range: config.range }),
    ] + rest);
    rest
}

proof fn lemma_split<P, F>(
    g: GraphView<P, F>,
    config: SplitConfig<F>,
    o: OpenedSplit<P, F>,
    n: Numbers<F>,
    kb: usize,
    split: usize,
    timing: Timing,
)
    requires
        g.wf(),
        kb < g.keyboards.len(),
        split == g.keyboards[kb as int].len(),
        opened_for_split(o, config),
        fitting(o.effects@, g.num_channels),
    ensures
        shapes(all_started(g, split_load(config, o, n, kb, split), timing)) == shapes(g).update(
            kb as int,
            shapes(g)[kb as int].push(split_shape(config, o, n)),
        ),
        all_started(g, split_load(config, o, n, kb, split), timing).num_channels == g.num_channels,
        all_started(g, split_load(config, o, n, kb, split), timing).wf(),
{
    let command = GraphCommand::<P, F>::AddSplit { kb, range: config.range };
    let first = seq![StartCommand::Plain(command)];
    assert(first.drop_last() =~= Seq::empty());
    assert(all_started(g, Seq::<StartCommand<P, F>>::empty(), timing) == g);
    let g1 = g.applied(command, timing);
    assert(all_started(g, first, timing) == g1);
    g.applying_keeps_wf(command, timing);
    let lanes = g.keyboards[kb as int];
    let l = g.new_lane(kb, split, config.range);
    let s = Shape { range: config.range, transpose: 0, played: false, wiring: Seq::empty() };
    assert(shape(l).wiring =~= s.wiring);
    assert(g1 == g.with_splits(kb, lanes.push(l)));
    assert(lane_shapes(lanes.push(l)) =~= lane_shapes(lanes).push(s));
    assert(shapes(g1) =~= shapes(g).update(kb as int, shapes(g)[kb as int].push(s)));
    let rest = lemma_split_filled(s, config, o, n, kb, split, g.num_channels);
    lemma_all_started(g, first, rest, timing);
    lemma_lanes_reshaped(g1, rest, (kb, split), timing);
    let made = split_shape(config, o, n);
    assert(shapes(g)[kb as int].push(s).update(split as int, made) =~= shapes(g)[kb as int].push(made));
    assert(with_shape(shapes(g1), (kb, split), made) =~= shapes(g).update(
        kb as int,
        shapes(g)[kb as int].push(made),
    ));
}

proof fn lemma_splits_opened<P, F>(
    g: GraphView<P, F>,
    configs: Seq<SplitConfig<F>>,
    opened: Seq<OpenedSplit<P, F>>,
    n: Numbers<F>,
    kb: usize,
    count: int,
    timing: Timing,
)
    requires
        g.wf(),
        kb < g.keyboards.len(),
        g.keyboards[kb as int].len() == 0,
        0 <= count <= configs.len() <= usize::MAX,
        opened_for_splits(opened, configs),
        splits_fitting(opened, g.num_channels),
    ensures
        shapes(all_started(g, splits_load(configs, opened, n, kb, count), timing)) == shapes(g).update(
            kb as int,
            split_shapes(configs, opened, n, count),
        ),
        all_started(g, splits_load(configs, opened, n, kb, count), timing).num_channels == g.num_channels,
        all_started(g, splits_load(configs, opened, n, kb, count), timing).wf(),
    decreases count,
{
    if count == 0 {
        assert(shapes(g)[kb as int] =~= split_shapes(configs, opened, n, 0));
        assert(shapes(g).update(kb as int, shapes(g)[kb as int]) =~= shapes(g));
    } else {
        lemma_splits_opened(g, configs, opened, n, kb, count - 1, timing);
        let before = all_started(g, splits_load(configs, opened, n, kb, count - 1), timing);
        let split = (count - 1) as usize;
        assert(shapes(before).len() == before.keyboards.len());
        assert(shapes(before)[kb as int].len() == before.keyboards[kb as int].len());
        assert(opened_for_split(opened[count - 1], configs[count - 1]));
        lemma_split(before, configs[count - 1], opened[count - 1], n, kb, split, timing);
        lemma_all_started(
            g,
            splits_load(configs, opened, n, kb, count - 1),
            split_load(configs[count - 1], opened[count - 1], n, kb, split),
            timing,
        );
        assert(split_shapes(configs, opened, n, count - 1).push(split_shape(configs[count - 1], opened[count - 1], n))
            =~= split_shapes(configs, opened, n, count));
        assert(shapes(g).update(kb as int, split_shapes(configs, opened, n, count - 1)).update(
            kb as int,
            split_shapes(configs, opened, n, count),
        ) =~= shapes(g).update(kb as int, split_shapes(configs, opened, n, count)));
    }
}

proof fn lemma_keyboards_opened<P, F>(
    g: GraphView<P, F>,
    configs: Seq<KeyboardConfig<F>>,
    opened: Seq<Vec<OpenedSplit<P, F>>>,
    n: Numbers<F>,
    count: int,
    timing: Timing,
)
    requires
        g.keyboards.len() == 0,
        0 <= count <= configs.len() <= usize::MAX,
        opened_for(opened, configs),
        session_fitting(opened, g.num_channels),
    ensures
        shapes(all_started(g, keyboards_load(configs, opened, n, count), timing)) == keyboard_shapes(
            configs,
            opened,
            n,
            count,
        ),
        all_started(g, keyboards_load(configs, opened, n, count), timing).num_channels == g.num_channels,
        all_started(g, keyboards_load(configs, opened, n, count), timing).wf(),
    decreases count,
{
    if count == 0 {
        assert(shapes(g) =~= keyboard_shapes(configs, opened, n, 0));
    } else {
        lemma_keyboards_opened(g, configs, opened, n, count - 1, timing);
        let loaded = keyboards_load(configs, opened, n, count - 1);
        let before = all_started(g, loaded, timing);
        let kb = (count - 1) as usize;
        let config = configs[count - 1].splits@;
        let o = opened[count - 1]@;
        let command = GraphCommand::<P, F>::AddKeyboard;
        let add = seq![StartCommand::Plain(command)];
        assert((loaded + add).drop_last() =~= loaded);
        let g1 = before.applied(command, timing);
        assert(all_started(g, loaded + add, timing) == g1);
        before.applying_keeps_wf(command, timing);
        assert(lane_shapes(Seq::<LaneView<P, F>>::empty()) =~= Seq::empty());
        assert(shapes(g1) =~= shapes(before).push(Seq::empty()));
        assert(shapes(before).len() == before.keyboards.len());
        assert(configs[count - 1].splits.len() == config.len());
        lemma_splits_opened(g1, config, o, n, kb, config.len() as int, timing);
        lemma_all_started(g, loaded + add, splits_load(config, o, n, kb, config.len() as int), timing);
        assert(shapes(g1).update(kb as int, split_shapes(config, o, n, config.len() as int)) =~= keyboard_shapes(
            configs,
            opened,
            n,
            count,
        ));
    }
}

// ---------------------------------------------------------------------------
// Starting
// ---------------------------------------------------------------------------

/// The shapes with the transpositions of the first `count` splits of a keyboard.
pub open spec fn transposed<F>(all: Seq<Shape>, splits: Seq<SplitView<F>>, count: int) -> Seq<Shape> {
    Seq::new(
        all.len(),
        |i: int|
            if i < count && splits[i].transpose != 0 {
                Shape { transpose: splits[i].transpose, ..all[i] }
            } else {
                all[i]
            },
    )
}

/// The shapes with the transpositions of the first `count` keyboards.
pub open spec fn all_transposed<F>(all: Seq<Seq<Shape>>, kbs: Seq<KeyboardView<F>>, count: int) -> Seq<Seq<Shape>> {
    Seq::new(
        all.len(),
        |k: int|
            if k < count {
                transposed(all[k], kbs[k].splits, kbs[k].splits.len() as int)
            } else {
                all[k]
            },
    )
}

proof fn lemma_split_started<P, F>(s: Shape, split: SplitView<F>, at: (usize, usize), samples: u64, channels: usize)
    ensures
        all_aim(split_start::<P, F>(split, at.0, at.1, samples), at),
        all_reshaped(s, split_start::<P, F>(split, at.0, at.1, samples), channels) == if split.transpose != 0 {
            Shape { transpose: split.transpose, ..s }
        } else {
            s
        },
{
    let first: Seq<StartCommand<P, F>> = if split.transpose != 0 {
        seq![StartCommand::Plain(GraphCommand::SetTranspose { kb: at.0, split: at.1, semitones: split.transpose })]
    } else {
        Seq::empty()
    };
    let rest: Seq<StartCommand<P, F>> = split_start::<P, F>(split, at.0, at.1, samples).skip(first.len() as int);
    assert(split_start::<P, F>(split, at.0, at.1, samples) =~= first + rest);
    if split.transpose != 0 {
        assert(first.drop_last() =~= Seq::empty());
        assert(all_reshaped(s, Seq::<StartCommand<P, F>>::empty(), channels) == s);
    }
    let s1 = all_reshaped(s, first, channels);
    lemma_shapeless(s1, rest, channels);
    lemma_all_reshaped(s, first, rest, channels);
}

proof fn lemma_splits_started<P, F>(
    g: GraphView<P, F>,
    splits: Seq<SplitView<F>>,
    kb: usize,
    samples: Seq<u64>,
    count: int,
    timing: Timing,
)
    requires
        g.wf(),
        kb < g.keyboards.len(),
        g.keyboards[kb as int].len() == splits.len(),
        0 <= count <= splits.len() <= usize::MAX,
    ensures
        shapes(all_started(g, splits_start::<P, F>(splits, kb, samples, count), timing)) == shapes(g).update(
            kb as int,
            transposed(shapes(g)[kb as int], splits, count),
        ),
        all_started(g, splits_start::<P, F>(splits, kb, samples, count), timing).num_channels == g.num_channels,
        all_started(g, splits_start::<P, F>(splits, kb, samples, count), timing).wf(),
    decreases count,
{
    let all = shapes(g)[kb as int];
    if count == 0 {
        assert(all =~= transposed(all, splits, 0));
        assert(shapes(g).update(kb as int, all) =~= shapes(g));
    } else {
        lemma_splits_started(g, splits, kb, samples, count - 1, timing);
        let before = all_started(g, splits_start::<P, F>(splits, kb, samples, count - 1), timing);
        let split = (count - 1) as usize;
        let at = (kb, split);
        assert(shapes(before).len() == before.keyboards.len());
        assert(shapes(before)[kb as int].len() == before.keyboards[kb as int].len());
        assert(shapes(before)[kb as int][split as int] == all[split as int]);
        lemma_split_started::<P, F>(all[split as int], splits[count - 1], at, samples[count - 1], g.num_channels);
        let more = split_start::<P, F>(splits[count - 1], kb, split, samples[count - 1]);
        lemma_lanes_reshaped(before, more, at, timing);
        lemma_all_started(g, splits_start::<P, F>(splits, kb, samples, count - 1), more, timing);
        let s = all_reshaped(all[split as int], more, g.num_channels);
        assert(transposed(all, splits, count - 1).update(split as int, s) =~= transposed(all, splits, count));
        assert(with_shape(shapes(before), at, s) =~= shapes(g).update(kb as int, transposed(all, splits, count)));
    }
}

proof fn lemma_keyboards_started<P, F>(
    g: GraphView<P, F>,
    kbs: Seq<KeyboardView<F>>,
    samples: Seq<Vec<u64>>,
    count: int,
    timing: Timing,
)
    requires
        g.wf(),
        g.keyboards.len() == kbs.len(),
        forall|k: int| 0 <= k < kbs.len() ==> g.keyboards[k].len() == (#[trigger] kbs[k]).splits.len(),
        timed(kbs, samples),
        0 <= count <= kbs.len() <= usize::MAX,
    ensures
        shapes(all_started(g, keyboards_start::<P, F>(kbs, samples, count), timing)) == all_transposed(
            shapes(g),
            kbs,
            count,
        ),
        all_started(g, keyboards_start::<P, F>(kbs, samples, count), timing).num_channels == g.num_channels,
        all_started(g, keyboards_start::<P, F>(kbs, samples, count), timing).wf(),
    decreases count,
{
    if count == 0 {
        assert(shapes(g) =~= all_transposed(shapes(g), kbs, 0));
    } else {
        lemma_keyboards_started(g, kbs, samples, count - 1, timing);
        let sent = keyboards_start::<P, F>(kbs, samples, count - 1);
        let before = all_started(g, sent, timing);
        let kb = (count - 1) as usize;
        let splits = kbs[count - 1].splits;
        let lengths = samples[count - 1];
        assert(shapes(before).len() == before.keyboards.len());
        assert(shapes(before)[kb as int] == shapes(g)[kb as int]);
        assert(shapes(before)[kb as int].len() == before.keyboards[kb as int].len());
        assert(shapes(g)[kb as int].len() == g.keyboards[kb as int].len());
        assert(lengths.len() == lengths@.len());
        lemma_splits_started(before, splits, kb, lengths@, splits.len() as int, timing);
        lemma_all_started(g, sent, splits_start::<P, F>(splits, kb, lengths@, splits.len() as int), timing);
        assert(shapes(before).update(kb as int, transposed(shapes(g)[kb as int], splits, splits.len() as int))
            =~= all_transposed(shapes(g), kbs, count));
    }
}

// ---------------------------------------------------------------------------
// The editor
// ---------------------------------------------------------------------------

/// A target that drives no setting of another modulator. The editor takes every loaded target for
/// one of a parameter.
pub open spec fn plain_target<F>(t: ModTargetConfig<F>) -> bool {
    t.param is Some || (t.mod_rate is None && t.mod_depth is None && t.mod_attack is None && t.mod_decay is None
        && t.mod_sustain is None && t.mod_release is None)
}

/// Modulators whose targets drive parameters only.
pub open spec fn plain_modulators<F>(mods: Seq<ModulatorConfig<F>>) -> bool {
    forall|i: int, t: int|
        0 <= i < mods.len() && 0 <= t < mods[i].targets@.len() ==> plain_target(#[trigger] mods[i].targets@[t])
}

/// Effects whose modulators drive parameters only.
pub open spec fn plain_effects<F>(effects: Seq<EffectConfig<F>>) -> bool {
    forall|i: int| 0 <= i < effects.len() ==> plain_modulators((#[trigger] effects[i]).modulators@)
}

/// Splits in which the modulators of the effects drive parameters only.
pub open spec fn plain_splits<F>(splits: Seq<SplitConfig<F>>) -> bool {
    forall|i: int| 0 <= i < splits.len() ==> plain_effects((#[trigger] splits[i]).effects@)
}

/// A session in which the modulators of the effects drive parameters only.
pub open spec fn plain_session<F>(keyboards: Seq<KeyboardConfig<F>>) -> bool {
    forall|k: int| 0 <= k < keyboards.len() ==> plain_splits((#[trigger] keyboards[k]).splits@)
}

/// What targets of which the user interface is told drive.
pub open spec fn told_kinds<F>(infos: Seq<LoadedTargetView<F>>) -> Seq<ModTargetKind> {
    infos.map_values(|t: LoadedTargetView<F>| ModTargetKind::PluginParam { param_index: t.param_index })
}

proof fn lemma_told_kinds<F>(targets: Seq<ModTargetConfig<F>>, params: Seq<ParameterInfo<F>>, n: Numbers<F>, count: int)
    requires
        0 <= count <= targets.len(),
        forall|t: int| 0 <= t < targets.len() ==> plain_target(#[trigger] targets[t]),
    ensures
        told_kinds(target_infos(targets, params, n, count)) == driven(targets, params, n, count),
    decreases count,
{
    if count > 0 {
        lemma_told_kinds(targets, params, n, count - 1);
        assert(plain_target(targets[count - 1]));
    }
    assert(told_kinds(target_infos(targets, params, n, count)) =~= driven(targets, params, n, count));
}

proof fn lemma_shown_wiring<F>(
    loaded: Seq<LoadedModulator<F>>,
    mods: Seq<ModulatorConfig<F>>,
    params: Seq<ParameterInfo<F>>,
    n: Numbers<F>,
)
    requires
        shows_modulators(loaded, mods, params, n),
        plain_modulators(mods),
    ensures
        shown_wiring(loaded.map_values(|m: LoadedModulator<F>| loaded_modulator(m))) == wired(
            mods,
            params,
            n,
            mods.len() as int,
        ),
{
    let shown = loaded.map_values(|m: LoadedModulator<F>| loaded_modulator(m));
    assert forall|i: int| 0 <= i < mods.len() implies shown_kinds((#[trigger] shown[i]).targets) == driven(
        mods[i].targets@,
        params,
        n,
        mods[i].targets@.len() as int,
    ) by {
        let m = loaded[i];
        let targets = mods[i].targets@;
        assert(shown[i] == loaded_modulator(m));
        lemma_told_kinds(targets, params, n, targets.len() as int);
        let infos = target_infos(targets, params, n, targets.len() as int);
        assert(views(m.targets@) == infos);
        assert forall|t: int| 0 <= t < m.targets@.len() implies (#[trigger] m.targets@[t]).param_index
            == infos[t].param_index by {
            assert(infos[t] == m.targets@[t]@);
        }
        assert(shown_kinds(shown[i].targets) =~= told_kinds(infos));
    }
    assert(shown_wiring(shown) =~= wired(mods, params, n, mods.len() as int));
}

proof fn lemma_split_in_step<P, F>(
    loaded: LoadedSplit<F>,
    config: SplitConfig<F>,
    o: OpenedSplit<P, F>,
    n: Numbers<F>,
    l: LaneView<P, F>,
)
    requires
        split_loaded(loaded, config, o, n),
        plain_effects(config.effects@),
        l.wf(),
        shape(l) == (Shape { transpose: config.transpose, ..split_shape(config, o, n) }),
    ensures
        split_in_step(loaded_split(loaded), l),
{
    let s = loaded_split(loaded);
    assert(shape(l).wiring.len() == l.effect_modulators.len());
    assert forall|i: int| 0 <= i < s.effects.len() implies shown_wiring((#[trigger] s.effects[i]).modulators)
        == heard_wiring(l.effect_modulators[i]) by {
        let p = loaded.effects@[i];
        let c = config.effects@[i];
        assert(s.effects[i] == loaded_plugin(p));
        assert(plugin_loaded(p, o.effects@[i], false, c.params@, c.modulators@, n));
        lemma_shown_wiring(p.modulators@, c.modulators@, o.effects@[i].params@, n);
        assert(shape(l).wiring[i] == heard_wiring(l.effect_modulators[i]));
        assert(split_shape(config, o, n).wiring[i] == wired(
            c.modulators@,
            o.effects@[i].params@,
            n,
            c.modulators@.len() as int,
        ));
    }
}

/// Opening a session leaves the editor and the audio graph in step: once an empty audio graph has
/// performed the commands of `load_session` and then those of `start_session`, its keyboards are
/// those that `to_keyboard_nodes` hands to the editor. It is so where each effect has as many
/// outputs as the graph has channels, and no effect's modulator drives another modulator.
pub proof fn opened_session_is_in_step<P, F>(
    config: SessionConfig<F>,
    opened: Seq<Vec<OpenedSplit<P, F>>>,
    n: Numbers<F>,
    loads: Seq<GraphCommand<P, F>>,
    loaded: Seq<LoadedKeyboard<F>>,
    samples: Seq<Vec<u64>>,
    starts: Seq<GraphCommand<P, F>>,
    g: GraphView<P, F>,
    timing: Timing,
)
    requires
        opened_for(opened, config.keyboards@),
        start_views(loads) == keyboards_load(config.keyboards@, opened, n, config.keyboards@.len() as int),
        keyboards_loaded(loaded, config.keyboards@, opened, n),
        timed(loaded.map_values(|k: LoadedKeyboard<F>| loaded_keyboard(k)), samples),
        start_views(starts) == keyboards_start::<P, F>(
            loaded.map_values(|k: LoadedKeyboard<F>| loaded_keyboard(k)),
            samples,
            loaded.len() as int,
        ),
        g.keyboards.len() == 0,
        session_fitting(opened, g.num_channels),
        plain_session(config.keyboards@),
    ensures
        in_step(
            loaded.map_values(|k: LoadedKeyboard<F>| loaded_keyboard(k)),
            all_applied(g, loads + starts, timing),
        ),
        all_applied(g, loads + starts, timing).wf(),
{
    let configs = config.keyboards@;
    let count = configs.len() as int;
    let kbs = loaded.map_values(|k: LoadedKeyboard<F>| loaded_keyboard(k));
    assert(config.keyboards.len() == configs.len());
    lemma_keyboards_opened(g, configs, opened, n, count, timing);
    let g1 = all_started(g, start_views(loads), timing);
    let made = keyboard_shapes(configs, opened, n, count);
    assert(shapes(g1).len() == g1.keyboards.len());
    assert forall|k: int| 0 <= k < kbs.len() implies g1.keyboards[k].len() == (#[trigger] kbs[k]).splits.len() by {
        assert(shapes(g1)[k].len() == g1.keyboards[k].len());
        assert(splits_loaded(loaded[k].splits@, configs[k].splits@, opened[k]@, n));
    }
    lemma_keyboards_started(g1, kbs, samples, count, timing);
    let g2 = all_started(g1, start_views(starts), timing);
    assert(start_views(loads + starts) =~= start_views(loads) + start_views(starts));
    lemma_all_started(g, start_views(loads), start_views(starts), timing);
    lemma_all_applied(g, loads + starts, timing);
    assert(all_applied(g, loads + starts, timing) == g2);
    assert(shapes(g2).len() == g2.keyboards.len());
    assert forall|k: int| 0 <= k < kbs.len() implies splits_in_step((#[trigger] kbs[k]).splits, g2.keyboards[k]) by {
        let splits = configs[k].splits@;
        assert(splits_loaded(loaded[k].splits@, splits, opened[k]@, n));
        assert(shapes(g2)[k] == lane_shapes(g2.keyboards[k]));
        assert(made[k] == split_shapes(splits, opened[k]@, n, splits.len() as int));
        assert(shapes(g2)[k] == transposed(made[k], kbs[k].splits, kbs[k].splits.len() as int));
        assert forall|i: int| 0 <= i < kbs[k].splits.len() implies split_in_step(
            #[trigger] kbs[k].splits[i],
            g2.keyboards[k][i],
        ) by {
            let l = g2.keyboards[k][i];
            assert(lane_shapes(g2.keyboards[k])[i] == shape(l));
            assert(kbs[k].splits[i] == loaded_split(loaded[k].splits@[i]));
            assert(split_loaded(loaded[k].splits@[i], splits[i], opened[k]@[i], n));
            assert(made[k][i] == split_shape(splits[i], opened[k]@[i], n));
            assert(plain_effects(splits[i].effects@));
            lemma_split_in_step(loaded[k].splits@[i], splits[i], opened[k]@[i], n, l);
        }
    }
}

} // verus!
