//! The editor's keyboards and the audio graph's stay in step.
use vstd::prelude::*;

use crate::graph::{
    instruments_swapped, patterns_swapped, renumbered, splits_with_bpm, GraphCommand, GraphView, Timing,
};
use crate::lane::LaneView;
use crate::lane::{envelope_set, field_set, rate_set};
use crate::model::moved;
use crate::modulation::{
    cross_base_updated, kind_after_remove, modulators_after_remove, param_base_updated, targets_after_remove,
    CrossModField, LfoWaveform, ModTarget, ModTargetKind, ModulatorView,
};
use crate::pattern::PlayerView;
use crate::notes::parsed_range;
use crate::text::trimmed;
use crate::tui::adjust::{clamped_transpose, stepped_transpose};
use crate::tui::editor::{Change, EditorView, Effect};
use crate::tui::keys::{neighbour, swapped, Key, Modifiers};
use crate::tui::model::{
    graph_source, modulator_in, plugin_in, slot_targets_after_remove, slots_after_remove, split_at,
    with_modulator, with_plugin, with_split, with_splits, KeyboardView, ModSlotView, ModSourceSlot,
    ModTargetSlot, ParamSlot, PatternStateView, PluginView, SplitView, TreeAddress,
};
use crate::tui::params::ModRow;
use crate::tui::popups::{keyboards_at, TargetEntry};

verus! {

/// What the targets of each modulator of the editor drive.
pub open spec fn shown_wiring<F>(mods: Seq<ModSlotView<F>>) -> Seq<Seq<ModTargetKind>> {
    mods.map_values(|m: ModSlotView<F>| shown_kinds(m.targets))
}

/// What the targets drive.
pub open spec fn shown_kinds<F>(targets: Seq<ModTargetSlot<F>>) -> Seq<ModTargetKind> {
    targets.map_values(|t: ModTargetSlot<F>| t.kind)
}

/// What the targets of each modulator of the audio graph drive.
pub open spec fn heard_wiring<F>(mods: Seq<ModulatorView<F>>) -> Seq<Seq<ModTargetKind>> {
    mods.map_values(|m: ModulatorView<F>| heard_kinds(m.targets))
}

/// What the targets drive.
pub open spec fn heard_kinds<F>(targets: Seq<ModTarget<F>>) -> Seq<ModTargetKind> {
    targets.map_values(|t: ModTarget<F>| t.kind)
}

/// A split has on both sides the same range and transposition, an instrument or none, and as many
/// effects, with as many modulators that drive the same things.
pub open spec fn split_in_step<P, F>(s: SplitView<F>, l: LaneView<P, F>) -> bool {
    &&& s.range == l.range
    &&& s.transpose == l.transpose
    &&& s.instrument is Some == l.instrument is Some
    &&& s.effects.len() == l.effects.len()
    &&& forall|i: int|
        0 <= i < s.effects.len() ==> shown_wiring((#[trigger] s.effects[i]).modulators) == heard_wiring(
            l.effect_modulators[i],
        )
}

/// The splits of a keyboard are in step, one by one.
pub open spec fn splits_in_step<P, F>(splits: Seq<SplitView<F>>, lanes: Seq<LaneView<P, F>>) -> bool {
    &&& splits.len() == lanes.len()
    &&& forall|s: int| 0 <= s < splits.len() ==> split_in_step(#[trigger] splits[s], lanes[s])
}

/// The keyboards that the editor shows are those of the audio graph.
pub open spec fn in_step<P, F>(kbs: Seq<KeyboardView<F>>, g: GraphView<P, F>) -> bool {
    &&& kbs.len() == g.keyboards.len()
    &&& forall|k: int| 0 <= k < kbs.len() ==> splits_in_step((#[trigger] kbs[k]).splits, g.keyboards[k])
}

/// The audio graph after the commands among the first `count` effects.
pub open spec fn performed<P, F>(g: GraphView<P, F>, effects: Seq<Effect<P, F>>, timing: Timing, count: int) -> GraphView<
    P,
    F,
>
    decreases count,
{
    if count <= 0 {
        g
    } else {
        let before = performed(g, effects, timing, count - 1);
        match effects[count - 1] {
            Effect::Send(command) => before.applied(command, timing),
            _ => before,
        }
    }
}

/// The editor's keyboards after a change are those of the audio graph once it has performed what
/// the change asks for.
pub open spec fn stays_in_step<P, F>(change: Change<P, F>, g: GraphView<P, F>, timing: Timing) -> bool {
    in_step(change.0.keyboards, performed(g, change.1, timing, change.1.len() as int))
}

proof fn lemma_lane<P, F>(
    kbs: Seq<KeyboardView<F>>,
    g: GraphView<P, F>,
    kb: usize,
    split: usize,
    s: SplitView<F>,
    l: LaneView<P, F>,
)
    requires
        in_step(kbs, g),
        g.has_split(kb, split),
        split_in_step(s, l),
    ensures
        in_step(with_split(kbs, kb, split, s), g.with_lane(kb, split, l)),
{
    assert(splits_in_step(kbs[kb as int].splits, g.keyboards[kb as int]));
}

/// Changing a lane where the other side does not see it.
proof fn lemma_unseen<P, F>(kbs: Seq<KeyboardView<F>>, g: GraphView<P, F>, kb: usize, split: usize, l: LaneView<P, F>)
    requires
        in_step(kbs, g),
        g.has_split(kb, split),
        split_in_step(kbs[kb as int].splits[split as int], l),
    ensures
        in_step(kbs, g.with_lane(kb, split, l)),
{
    assert(splits_in_step(kbs[kb as int].splits, g.keyboards[kb as int]));
    assert(with_split(kbs, kb, split, kbs[kb as int].splits[split as int]) =~= kbs) by {
        assert(kbs[kb as int].splits.update(split as int, kbs[kb as int].splits[split as int])
            =~= kbs[kb as int].splits);
    }
    lemma_lane(kbs, g, kb, split, kbs[kb as int].splits[split as int], l);
}

proof fn lemma_splits<P, F>(
    kbs: Seq<KeyboardView<F>>,
    g: GraphView<P, F>,
    kb: usize,
    splits: Seq<SplitView<F>>,
    lanes: Seq<LaneView<P, F>>,
)
    requires
        in_step(kbs, g),
        kb < kbs.len(),
        splits_in_step(splits, lanes),
    ensures
        in_step(with_splits(kbs, kb, splits), g.with_splits(kb, lanes)),
{
}

proof fn lemma_here<P, F>(kbs: Seq<KeyboardView<F>>, g: GraphView<P, F>, kb: usize, split: usize)
    requires
        in_step(kbs, g),
    ensures
        split_at(kbs, kb, split) is Some == g.has_split(kb, split),
        g.has_split(kb, split) ==> split_in_step(split_at(kbs, kb, split)->0, g.lane(kb, split)),
{
    if kb < kbs.len() {
        assert(splits_in_step(kbs[kb as int].splits, g.keyboards[kb as int]));
    }
}

proof fn lemma_one<P, F>(g: GraphView<P, F>, command: GraphCommand<P, F>, timing: Timing, more: Seq<Effect<P, F>>)
    requires
        forall|i: int| 0 <= i < more.len() ==> !((#[trigger] more[i]) is Send),
    ensures
        performed(g, seq![Effect::Send(command)] + more, timing, 1 + more.len() as int) == g.applied(command, timing),
    decreases more.len(),
{
    let all = seq![Effect::Send(command)] + more;
    if more.len() == 0 {
        assert(all[0] == Effect::Send(command));
        assert(performed(g, all, timing, 0) == g);
    } else {
        let fewer = more.drop_last();
        let less = seq![Effect::Send(command)] + fewer;
        lemma_one(g, command, timing, fewer);
        lemma_same(g, all, less, timing, 1 + fewer.len() as int);
        assert(all[more.len() as int] == more[more.len() - 1]);
    }
}

/// Only the effects that are counted matter.
proof fn lemma_same<P, F>(g: GraphView<P, F>, a: Seq<Effect<P, F>>, b: Seq<Effect<P, F>>, timing: Timing, count: int)
    requires
        count <= a.len(),
        count <= b.len(),
        forall|i: int| 0 <= i < count ==> a[i] == b[i],
    ensures
        performed(g, a, timing, count) == performed(g, b, timing, count),
    decreases count,
{
    if count > 0 {
        lemma_same(g, a, b, timing, count - 1);
    }
}

// ---------------------------------------------------------------------------
// Commands that the editor's keyboards do not show
// ---------------------------------------------------------------------------

/// Commands that change nothing of what the editor's keyboards and the audio graph's have in
/// common.
pub open spec fn unseen<P, F>(command: GraphCommand<P, F>) -> bool {
    match command {
        GraphCommand::SetParameter { .. } => true,
        GraphCommand::SetMix { .. } => true,
        GraphCommand::SetVolume { .. } => true,
        GraphCommand::SetModulatorRate { .. } => true,
        GraphCommand::SetModulatorWaveform { .. } => true,
        GraphCommand::SetModulatorSource { .. } => true,
        GraphCommand::SetModulatorEnvelopeParam { .. } => true,
        GraphCommand::SetModTargetDepth { .. } => true,
        GraphCommand::SetPatternEnabled { .. } => true,
        GraphCommand::SetPatternRecording { .. } => true,
        GraphCommand::SetPattern { .. } => true,
        GraphCommand::ClearPattern { .. } => true,
        GraphCommand::SwapPatterns { .. } => true,
        GraphCommand::SetGlobalBpm { .. } => true,
        GraphCommand::SetPatternLength { .. } => true,
        GraphCommand::SetPatternLooping { .. } => true,
        _ => false,
    }
}

proof fn lemma_cross_base<F>(mods: Seq<ModulatorView<F>>, index: usize, field: CrossModField, value: F)
    ensures
        heard_wiring(cross_base_updated(mods, index, field, value)) == heard_wiring(mods),
{
    assert forall|i: int| 0 <= i < mods.len() implies heard_kinds(
        (#[trigger] cross_base_updated(mods, index, field, value)[i]).targets,
    ) == heard_kinds(mods[i].targets) by {
        assert(heard_kinds(cross_base_updated(mods, index, field, value)[i].targets) =~= heard_kinds(mods[i].targets));
    }
    assert(heard_wiring(cross_base_updated(mods, index, field, value)) =~= heard_wiring(mods));
}

/// The value that a parameter is modulated around says nothing of what drives it.
pub proof fn lemma_param_base<F>(mods: Seq<ModulatorView<F>>, param_index: u32, value: F)
    ensures
        heard_wiring(param_base_updated(mods, param_index, value)) == heard_wiring(mods),
{
    assert forall|i: int| 0 <= i < mods.len() implies heard_kinds(
        (#[trigger] param_base_updated(mods, param_index, value)[i]).targets,
    ) == heard_kinds(mods[i].targets) by {
        assert(heard_kinds(param_base_updated(mods, param_index, value)[i].targets) =~= heard_kinds(mods[i].targets));
    }
    assert(heard_wiring(param_base_updated(mods, param_index, value)) =~= heard_wiring(mods));
}

/// Replacing a modulator by one that drives the same.
proof fn lemma_alike<F>(mods: Seq<ModulatorView<F>>, index: int, m: ModulatorView<F>)
    requires
        0 <= index < mods.len(),
        heard_kinds(m.targets) == heard_kinds(mods[index].targets),
    ensures
        heard_wiring(mods.update(index, m)) == heard_wiring(mods),
{
    assert(heard_wiring(mods.update(index, m)) =~= heard_wiring(mods));
}

proof fn lemma_field<F>(mods: Seq<ModulatorView<F>>, index: usize, field: CrossModField, value: F)
    ensures
        heard_wiring(field_set(mods, index, field, value)) == heard_wiring(mods),
{
    let m = if index < mods.len() {
        mods.update(index as int, mods[index as int].with_field(field, value))
    } else {
        mods
    };
    if index < mods.len() {
        let one = mods[index as int];
        assert(heard_kinds(one.with_field(field, value).targets) =~= heard_kinds(one.targets));
        lemma_alike(mods, index as int, one.with_field(field, value));
    }
    lemma_cross_base(m, index, field, value);
}

/// Replacing the modulators of a slot by ones that drive the same.
proof fn lemma_slot<P, F>(s: SplitView<F>, l: LaneView<P, F>, slot: usize, mods: Seq<ModulatorView<F>>)
    requires
        split_in_step(s, l),
        l.wf(),
        l.modulators(slot) is Some,
        heard_wiring(mods) == heard_wiring(l.modulators(slot)->0),
    ensures
        split_in_step(s, l.with_modulators(slot, mods)),
{
}

/// A command of that kind for a modulator leaves the split in step.
proof fn lemma_modulator<P, F>(s: SplitView<F>, l: LaneView<P, F>, slot: usize, index: usize, m: ModulatorView<F>)
    requires
        split_in_step(s, l),
        l.wf(),
        l.has_modulator(slot, index),
        heard_kinds(m.targets) == heard_kinds(l.modulator(slot, index).targets),
    ensures
        split_in_step(s, l.with_modulator(slot, index, m)),
{
    let mods = l.modulators(slot)->0;
    lemma_alike(mods, index as int, m);
    lemma_slot(s, l, slot, mods.update(index as int, m));
}

/// Commands that the editor's keyboards do not show leave the two in step.
proof fn lemma_unseen_command<P, F>(
    kbs: Seq<KeyboardView<F>>,
    g: GraphView<P, F>,
    command: GraphCommand<P, F>,
    timing: Timing,
)
    requires
        in_step(kbs, g),
        g.wf(),
        unseen(command),
    ensures
        in_step(kbs, g.applied(command, timing)),
{
    match command {
        GraphCommand::SetParameter { kb, split, slot, param_index, value } => {
            lemma_here(kbs, g, kb, split);
            if g.has_split(kb, split) {
                let l = g.lane(kb, split);
                if let Some(mods) = l.modulators(slot) {
                    lemma_param_base(mods, param_index, value);
                    lemma_slot(split_at(kbs, kb, split)->0, l, slot, param_base_updated(mods, param_index, value));
                }
                lemma_unseen(kbs, g, kb, split, l.parameter_set(slot, param_index, value));
            }
        },
        GraphCommand::SetMix { kb, split, slot, value } => {
            lemma_here(kbs, g, kb, split);
            if g.has_split(kb, split) {
                lemma_unseen(kbs, g, kb, split, g.lane(kb, split).mix_set(slot, value));
            }
        },
        GraphCommand::SetVolume { kb, split, value } => {
            lemma_here(kbs, g, kb, split);
            if g.has_split(kb, split) {
                lemma_unseen(kbs, g, kb, split, LaneView { volume: value, ..g.lane(kb, split) });
            }
        },
        GraphCommand::SetModulatorRate { kb, split, parent_slot, mod_index, rate } => {
            lemma_here(kbs, g, kb, split);
            if g.has_split(kb, split) {
                let l = g.lane(kb, split);
                if let Some(mods) = l.modulators(parent_slot) {
                    lemma_field(mods, mod_index, CrossModField::Rate, rate);
                    lemma_slot(split_at(kbs, kb, split)->0, l, parent_slot, rate_set(mods, mod_index, rate));
                    lemma_unseen(
                        kbs,
                        g,
                        kb,
                        split,
                        l.with_modulators(parent_slot, rate_set(mods, mod_index, rate)),
                    );
                } else {
                    lemma_unseen(kbs, g, kb, split, l);
                }
            }
        },
        GraphCommand::SetModulatorEnvelopeParam {
            kb,
            split,
            parent_slot,
            mod_index,
            attack,
            decay,
            sustain,
            release,
        } => {
            lemma_here(kbs, g, kb, split);
            if g.has_split(kb, split) {
                let l = g.lane(kb, split);
                if let Some(mods) = l.modulators(parent_slot) {
                    let a = field_set(mods, mod_index, CrossModField::Attack, attack);
                    let d = field_set(a, mod_index, CrossModField::Decay, decay);
                    let s = field_set(d, mod_index, CrossModField::Sustain, sustain);
                    lemma_field(mods, mod_index, CrossModField::Attack, attack);
                    lemma_field(a, mod_index, CrossModField::Decay, decay);
                    lemma_field(d, mod_index, CrossModField::Sustain, sustain);
                    lemma_field(s, mod_index, CrossModField::Release, release);
                    let after = envelope_set(mods, mod_index, attack, decay, sustain, release);
                    lemma_slot(split_at(kbs, kb, split)->0, l, parent_slot, after);
                    lemma_unseen(kbs, g, kb, split, l.with_modulators(parent_slot, after));
                } else {
                    lemma_unseen(kbs, g, kb, split, l);
                }
            }
        },
        GraphCommand::SetModulatorWaveform { kb, split, parent_slot, mod_index, waveform } => {
            lemma_here(kbs, g, kb, split);
            if g.has_split(kb, split) {
                let l = g.lane(kb, split);
                if l.has_modulator(parent_slot, mod_index) {
                    let m = l.modulator(parent_slot, mod_index).with_waveform(waveform);
                    lemma_modulator(split_at(kbs, kb, split)->0, l, parent_slot, mod_index, m);
                    lemma_unseen(kbs, g, kb, split, l.with_modulator(parent_slot, mod_index, m));
                } else {
                    lemma_unseen(kbs, g, kb, split, l);
                }
            }
        },
        GraphCommand::SetModulatorSource { kb, split, parent_slot, mod_index, source } => {
            lemma_here(kbs, g, kb, split);
            if g.has_split(kb, split) {
                let l = g.lane(kb, split);
                if l.has_modulator(parent_slot, mod_index) {
                    let m = ModulatorView {
                        source,
                        last_output: g.defaults.zero,
                        ..l.modulator(parent_slot, mod_index)
                    };
                    lemma_modulator(split_at(kbs, kb, split)->0, l, parent_slot, mod_index, m);
                    lemma_unseen(kbs, g, kb, split, l.with_modulator(parent_slot, mod_index, m));
                } else {
                    lemma_unseen(kbs, g, kb, split, l);
                }
            }
        },
        GraphCommand::SetModTargetDepth { kb, split, parent_slot, mod_index, target_index, depth } => {
            lemma_here(kbs, g, kb, split);
            if g.has_split(kb, split) {
                let l = g.lane(kb, split);
                if l.has_modulator(parent_slot, mod_index) {
                    let before = l.modulator(parent_slot, mod_index);
                    let m = before.with_field(CrossModField::Depth(target_index), depth);
                    assert(heard_kinds(m.targets) =~= heard_kinds(before.targets));
                    lemma_modulator(split_at(kbs, kb, split)->0, l, parent_slot, mod_index, m);
                    lemma_unseen(kbs, g, kb, split, l.with_modulator(parent_slot, mod_index, m));
                } else {
                    lemma_unseen(kbs, g, kb, split, l);
                }
            }
        },
        GraphCommand::SetPatternEnabled { kb, split, enabled } => {
            let p = PlayerView { enabled, ..g.lane(kb, split).pattern };
            lemma_player_command(kbs, g, kb, split, p, command, timing);
        },
        GraphCommand::SetPatternRecording { kb, split, recording } => {
            let before = g.lane(kb, split).pattern;
            let p = if recording {
                before.count_in_started(kb, split, timing.beat_samples, g.defaults.zero)
            } else {
                before.stopped(timing.pattern_samples)
            };
            lemma_player_command(kbs, g, kb, split, p, command, timing);
        },
        GraphCommand::SetPattern { kb, split, pattern, base_note } => {
            let p = g.lane(kb, split).pattern.loaded(pattern@, base_note);
            lemma_player_command(kbs, g, kb, split, p, command, timing);
        },
        GraphCommand::ClearPattern { kb, split } => {
            lemma_player_command(kbs, g, kb, split, g.lane(kb, split).pattern.cleared(), command, timing);
        },
        GraphCommand::SetPatternLength { kb, split, beats } => {
            let p = PlayerView { length_beats: beats, ..g.lane(kb, split).pattern };
            lemma_player_command(kbs, g, kb, split, p, command, timing);
        },
        GraphCommand::SetPatternLooping { kb, split, looping } => {
            let p = PlayerView { looping, ..g.lane(kb, split).pattern };
            lemma_player_command(kbs, g, kb, split, p, command, timing);
        },
        GraphCommand::SwapPatterns { kb, split_a, split_b } => {
            if kb < g.keyboards.len() {
                assert(splits_in_step(kbs[kb as int].splits, g.keyboards[kb as int]));
                lemma_splits(
                    kbs,
                    g,
                    kb,
                    kbs[kb as int].splits,
                    patterns_swapped(g.keyboards[kb as int], split_a, split_b),
                );
                assert(with_splits(kbs, kb, kbs[kb as int].splits) =~= kbs);
            }
        },
        GraphCommand::SetGlobalBpm { bpm } => {
            assert forall|k: int| 0 <= k < kbs.len() implies splits_in_step(
                (#[trigger] kbs[k]).splits,
                g.with_bpm(bpm).keyboards[k],
            ) by {
                assert(splits_in_step(kbs[k].splits, g.keyboards[k]));
                assert(g.with_bpm(bpm).keyboards[k] == splits_with_bpm(g.keyboards[k], bpm));
            }
        },
        _ => {},
    }
}

/// A command for a pattern player leaves the two in step.
proof fn lemma_player_command<P, F>(
    kbs: Seq<KeyboardView<F>>,
    g: GraphView<P, F>,
    kb: usize,
    split: usize,
    p: PlayerView<F>,
    command: GraphCommand<P, F>,
    timing: Timing,
)
    requires
        in_step(kbs, g),
        g.has_split(kb, split) ==> g.applied(command, timing) == g.with_lane(
            kb,
            split,
            (LaneView { pattern: p, ..g.lane(kb, split) }),
        ),
        !g.has_split(kb, split) ==> g.applied(command, timing) == g,
    ensures
        in_step(kbs, g.applied(command, timing)),
{
    lemma_here(kbs, g, kb, split);
    if g.has_split(kb, split) {
        lemma_unseen(kbs, g, kb, split, LaneView { pattern: p, ..g.lane(kb, split) });
    }
}

// ---------------------------------------------------------------------------
// Keys
// ---------------------------------------------------------------------------

/// The lists of the keyboards are no longer than lists can be.
pub open spec fn fits<F>(kbs: Seq<KeyboardView<F>>) -> bool {
    &&& forall|k: int| 0 <= k < kbs.len() ==> (#[trigger] kbs[k]).splits.len() <= usize::MAX
    &&& forall|kb: usize, split: usize|
        (#[trigger] split_at(kbs, kb, split)) matches Some(s) ==> s.effects.len() < usize::MAX && (forall|slot: int|
            (#[trigger] s.plugin(slot)) matches Some(p) ==> p.modulators.len() <= usize::MAX)
}

proof fn lemma_edit<P, F>(
    e: EditorView<F>,
    g: GraphView<P, F>,
    kbs: Seq<KeyboardView<F>>,
    command: GraphCommand<P, F>,
    timing: Timing,
)
    requires
        in_step(kbs, g.applied(command, timing)),
    ensures
        stays_in_step(e.edited(kbs, seq![Effect::Send(command)]), g, timing),
{
    let effects = e.edited(kbs, seq![Effect::Send(command)]).1;
    assert(effects =~= seq![Effect::Send(command)] + seq![Effect::Rebuilt]);
    lemma_one(g, command, timing, seq![Effect::Rebuilt]);
}

proof fn lemma_kinds_removed<F>(shown: Seq<ModTargetSlot<F>>, heard: Seq<ModTarget<F>>, removed: usize)
    requires
        shown_kinds(shown) == heard_kinds(heard),
    ensures
        shown_kinds(slot_targets_after_remove(shown, removed)) == heard_kinds(targets_after_remove(heard, removed)),
    decreases shown.len(),
{
    assert(shown.len() == shown_kinds(shown).len() == heard.len());
    if shown.len() > 0 {
        let n = shown.len() - 1;
        assert(shown_kinds(shown.drop_last()) =~= shown_kinds(shown).drop_last());
        assert(heard_kinds(heard.drop_last()) =~= heard_kinds(heard).drop_last());
        lemma_kinds_removed(shown.drop_last(), heard.drop_last(), removed);
        assert(shown[n].kind == shown_kinds(shown)[n]);
        assert(heard[n].kind == heard_kinds(heard)[n]);
        let shown_rest = slot_targets_after_remove(shown.drop_last(), removed);
        let heard_rest = targets_after_remove(heard.drop_last(), removed);
        let st = ModTargetSlot { kind: kind_after_remove(shown[n].kind, removed), ..shown[n] };
        let ht = ModTarget { kind: kind_after_remove(heard[n].kind, removed), ..heard[n] };
        assert(shown_kinds(shown_rest.push(st)) =~= shown_kinds(shown_rest).push(st.kind));
        assert(heard_kinds(heard_rest.push(ht)) =~= heard_kinds(heard_rest).push(ht.kind));
    }
}

proof fn lemma_wiring_removed<F>(shown: Seq<ModSlotView<F>>, heard: Seq<ModulatorView<F>>, index: usize)
    requires
        shown_wiring(shown) == heard_wiring(heard),
        index < shown.len(),
    ensures
        shown_wiring(slots_after_remove(shown, index)) == heard_wiring(modulators_after_remove(heard, index)),
{
    assert(shown.len() == shown_wiring(shown).len() == heard_wiring(heard).len() == heard.len());
    assert forall|i: int| 0 <= i < shown.len() - 1 implies shown_kinds(
        (#[trigger] slots_after_remove(shown, index)[i]).targets,
    ) == heard_kinds(modulators_after_remove(heard, index)[i].targets) by {
        let j: int = if i < index {
            i
        } else {
            i + 1
        };
        assert(shown_wiring(shown)[j] == shown_kinds(shown[j].targets));
        assert(heard_wiring(heard)[j] == heard_kinds(heard[j].targets));
        assert(slots_after_remove(shown, index)[i] == shown[j].after_remove(index));
        assert(modulators_after_remove(heard, index)[i] == heard[j].after_remove(index));
        lemma_kinds_removed(shown[j].targets, heard[j].targets, index);
    }
    assert(shown_wiring(slots_after_remove(shown, index)) =~= heard_wiring(modulators_after_remove(heard, index)));
}

/// Adding a modulator keeps the two in step.
proof fn lemma_modulate_key<P, F>(e: EditorView<F>, g: GraphView<P, F>, timing: Timing)
    requires
        in_step(e.keyboards, g),
        g.wf(),
        fits(e.keyboards),
    ensures
        stays_in_step(e.modulate_key::<P>(), g, timing),
{
    match (e.selected(), e.selected_plugin()) {
        (Some(addr), Some(p)) => {
            let (kb, split) = addr.place()->0;
            let slot = addr.audio_slot();
            lemma_here(e.keyboards, g, kb, split);
            let s = split_at(e.keyboards, kb, split)->0;
            let l = g.lane(kb, split);
            assert(s.plugin(slot) == Some(p));
            let source = ModSourceSlot::Lfo { waveform: LfoWaveform::Sine, rate: e.numbers.unity };
            let added = ModSlotView { source, targets: Seq::empty() };
            let q = PluginView { modulators: p.modulators.push(added), ..p };
            let heard = graph_source(source, e.numbers.zero);
            let index = p.modulators.len() as usize;
            let m = l.modulator_inserted(slot as usize, index, heard, g.defaults);
            let command = GraphCommand::InsertModulator { kb, split, parent_slot: slot as usize, index, source: heard };
            assert(split_in_step(s.with_plugin(slot, q), m)) by {
                if slot > 0 {
                    let mods = l.effect_modulators[slot - 1];
                    assert(shown_wiring(s.effects[slot - 1].modulators) == heard_wiring(mods));
                    assert(mods.len() == heard_wiring(mods).len() == shown_wiring(p.modulators).len());
                    let new = ModulatorView {
                        source: heard,
                        sample_rate: l.sample_rate(g.defaults.sample_rate),
                        targets: Seq::empty(),
                        last_output: g.defaults.zero,
                    };
                    assert(mods.insert(mods.len() as int, new) =~= mods.push(new));
                    assert(shown_kinds(added.targets) =~= heard_kinds(new.targets));
                    assert(shown_wiring(p.modulators.push(added)) =~= shown_wiring(p.modulators).push(
                        shown_kinds(added.targets),
                    ));
                    assert(heard_wiring(mods.push(new)) =~= heard_wiring(mods).push(heard_kinds(new.targets)));
                }
            }
            lemma_lane(e.keyboards, g, kb, split, s.with_plugin(slot, q), m);
            lemma_edit(e, g, with_plugin(e.keyboards, kb, split, slot, q), command, timing);
        },
        _ => {},
    }
}

/// Deleting a node keeps the two in step.
proof fn lemma_delete_key<P, F>(e: EditorView<F>, g: GraphView<P, F>, timing: Timing)
    requires
        in_step(e.keyboards, g),
        g.wf(),
    ensures
        stays_in_step(e.delete_key::<P>(), g, timing),
{
    let kbs = e.keyboards;
    match e.selected() {
        Some(TreeAddress::Effect { kb, split, index }) => {
            lemma_here(kbs, g, kb, split);
            let command = GraphCommand::RemoveEffect { kb, split, index };
            let after = match split_at(kbs, kb, split) {
                Some(s) if index < s.effects.len() => with_split(
                    kbs,
                    kb,
                    split,
                    SplitView { effects: s.effects.remove(index as int), ..s },
                ),
                _ => kbs,
            };
            if g.has_split(kb, split) {
                let s = split_at(kbs, kb, split)->0;
                let l = g.lane(kb, split);
                if index < s.effects.len() {
                    lemma_lane(
                        kbs,
                        g,
                        kb,
                        split,
                        SplitView { effects: s.effects.remove(index as int), ..s },
                        l.effect_removed(index),
                    );
                } else {
                    lemma_unseen(kbs, g, kb, split, l);
                }
            }
            lemma_edit(e, g, after, command, timing);
        },
        Some(TreeAddress::Instrument { kb, split }) => {
            lemma_here(kbs, g, kb, split);
            match split_at(kbs, kb, split) {
                Some(s) if s.instrument is Some => {
                    let t = SplitView { instrument: None, ..s };
                    lemma_lane(kbs, g, kb, split, t, g.lane(kb, split).instrument_removed());
                    let command = GraphCommand::RemoveInstrument { kb, split };
                    lemma_edit(e, g, with_split(kbs, kb, split, t), command, timing);
                },
                _ => {},
            }
        },
        Some(TreeAddress::Split { kb, split }) => {
            lemma_here(kbs, g, kb, split);
            if split_at(kbs, kb, split) is Some && kbs[kb as int].splits.len() > 1 {
                let splits = kbs[kb as int].splits.remove(split as int);
                let lanes = renumbered(g.keyboards[kb as int].remove(split as int));
                assert(splits_in_step(kbs[kb as int].splits, g.keyboards[kb as int]));
                assert(splits_in_step(splits, lanes));
                lemma_splits(kbs, g, kb, splits, lanes);
                let command = GraphCommand::RemoveSplit { kb, split };
                lemma_edit(e, g, with_splits(kbs, kb, splits), command, timing);
            }
        },
        Some(TreeAddress::Pattern { kb, split }) => {
            lemma_here(kbs, g, kb, split);
            if let Some(s) = split_at(kbs, kb, split) {
                let t = SplitView { pattern: None, ..s };
                let l = g.lane(kb, split);
                lemma_lane(kbs, g, kb, split, t, LaneView { pattern: l.pattern.cleared(), ..l });
                let command = GraphCommand::ClearPattern { kb, split };
                lemma_edit(e, g, with_split(kbs, kb, split, t), command, timing);
            }
        },
        Some(TreeAddress::Modulator { kb, split, parent_slot, index }) => {
            lemma_here(kbs, g, kb, split);
            let command = GraphCommand::RemoveModulator { kb, split, parent_slot, index };
            let p = plugin_in(kbs, kb, split, parent_slot as int);
            let after = match p {
                Some(p) if index < p.modulators.len() => with_plugin(
                    kbs,
                    kb,
                    split,
                    parent_slot as int,
                    PluginView { modulators: slots_after_remove(p.modulators, index), ..p },
                ),
                _ => kbs,
            };
            if g.has_split(kb, split) {
                let s = split_at(kbs, kb, split)->0;
                let l = g.lane(kb, split);
                let heard = l.modulator_removed(parent_slot, index);
                if 0 < parent_slot <= s.effects.len() {
                    let mods = l.effect_modulators[parent_slot - 1];
                    let shown = s.effects[parent_slot - 1].modulators;
                    assert(shown_wiring(shown) == heard_wiring(mods));
                    assert(mods.len() == heard_wiring(mods).len() == shown_wiring(shown).len());
                    if index < mods.len() {
                        lemma_wiring_removed(shown, mods, index);
                    }
                }
                match p {
                    Some(p) if index < p.modulators.len() => {
                        let q = PluginView { modulators: slots_after_remove(p.modulators, index), ..p };
                        lemma_lane(kbs, g, kb, split, s.with_plugin(parent_slot as int, q), heard);
                    },
                    _ => {
                        lemma_unseen(kbs, g, kb, split, heard);
                    },
                }
            }
            lemma_edit(e, g, after, command, timing);
        },
        _ => {},
    }
}

/// Moving a node keeps the two in step.
proof fn lemma_shift_key<P, F>(e: EditorView<F>, g: GraphView<P, F>, down: bool, timing: Timing)
    requires
        in_step(e.keyboards, g),
        g.wf(),
        fits(e.keyboards),
    ensures
        stays_in_step(e.shift_key::<P>(down), g, timing),
{
    let kbs = e.keyboards;
    match e.selected() {
        Some(TreeAddress::Effect { kb, split, index }) => {
            lemma_here(kbs, g, kb, split);
            if let Some(s) = split_at(kbs, kb, split) {
                if index < s.effects.len() && (if down {
                    index + 1 < s.effects.len()
                } else {
                    index > 0
                }) {
                    let to = neighbour(index, down);
                    let l = g.lane(kb, split);
                    let t = SplitView { effects: swapped(s.effects, index as int, to as int), ..s };
                    let mods = l.effect_modulators;
                    assert(moved(mods, index as int, to as int) =~= swapped(mods, index as int, to as int));
                    assert(split_in_step(t, l.effect_moved(index, to)));
                    lemma_lane(kbs, g, kb, split, t, l.effect_moved(index, to));
                    let command = GraphCommand::ReorderEffect { kb, split, from: index, to };
                    let last: Effect<P, F> = if down {
                        Effect::SelectNext
                    } else {
                        Effect::SelectPrevious
                    };
                    lemma_edit_and(e, g, e.effects_swapped(kb, split, index, to), command, last, timing);
                }
            }
        },
        Some(TreeAddress::Instrument { kb, split }) => {
            lemma_here(kbs, g, kb, split);
            if e.has_neighbour(kb, split, down) {
                let to = neighbour(split, down);
                let splits = kbs[kb as int].splits;
                let lanes = g.keyboards[kb as int];
                assert(splits_in_step(splits, lanes));
                let (sa, sb) = (splits[split as int], splits[to as int]);
                let after = splits.update(split as int, SplitView { instrument: sb.instrument, ..sa }).update(
                    to as int,
                    SplitView { instrument: sa.instrument, ..sb },
                );
                assert(splits_in_step(after, instruments_swapped(lanes, split, to)));
                lemma_splits(kbs, g, kb, after, instruments_swapped(lanes, split, to));
                let command = GraphCommand::SwapInstruments { kb, split_a: split, split_b: to };
                let last: Effect<P, F> = Effect::Follow(TreeAddress::Instrument { kb, split: to });
                lemma_edit_and(e, g, e.instruments_swapped(kb, split, to), command, last, timing);
            }
        },
        Some(TreeAddress::Pattern { kb, split }) => {
            lemma_here(kbs, g, kb, split);
            if e.has_neighbour(kb, split, down) {
                let to = neighbour(split, down);
                let splits = kbs[kb as int].splits;
                let lanes = g.keyboards[kb as int];
                assert(splits_in_step(splits, lanes));
                let (sa, sb) = (splits[split as int], splits[to as int]);
                let after = splits.update(split as int, SplitView { pattern: sb.pattern, ..sa }).update(
                    to as int,
                    SplitView { pattern: sa.pattern, ..sb },
                );
                assert(splits_in_step(after, patterns_swapped(lanes, split, to)));
                lemma_splits(kbs, g, kb, after, patterns_swapped(lanes, split, to));
                let command = GraphCommand::SwapPatterns { kb, split_a: split, split_b: to };
                let last: Effect<P, F> = Effect::Follow(TreeAddress::Pattern { kb, split: to });
                lemma_edit_and(e, g, e.patterns_swapped(kb, split, to), command, last, timing);
            }
        },
        _ => {},
    }
}

proof fn lemma_edit_and<P, F>(
    e: EditorView<F>,
    g: GraphView<P, F>,
    kbs: Seq<KeyboardView<F>>,
    command: GraphCommand<P, F>,
    last: Effect<P, F>,
    timing: Timing,
)
    requires
        in_step(kbs, g.applied(command, timing)),
        !(last is Send),
    ensures
        ({
            let (after, effects) = e.edited::<P>(kbs, seq![Effect::Send(command)]);
            stays_in_step((after, effects.push(last)), g, timing)
        }),
{
    let (after, effects) = e.edited::<P>(kbs, seq![Effect::Send(command)]);
    let more = seq![Effect::<P, F>::Rebuilt, last];
    assert(effects.push(last) =~= seq![Effect::Send(command)] + more);
    lemma_one(g, command, timing, more);
}

/// Recording keeps the two in step.
proof fn lemma_recording<P, F>(e: EditorView<F>, g: GraphView<P, F>, kb: usize, split: usize, timing: Timing)
    requires
        in_step(e.keyboards, g),
        g.wf(),
    ensures
        stays_in_step(e.recording_toggled::<P>(kb, split), g, timing),
{
    let kbs = e.keyboards;
    lemma_here(kbs, g, kb, split);
    if let Some(s) = split_at(kbs, kb, split) {
        match s.pattern {
            Some(p) if p.recording => {
                let t = SplitView { pattern: Some(PatternStateView { recording: false, ..p }), ..s };
                lemma_shown_alike(kbs, g, kb, split, t);
                let command = GraphCommand::SetPatternRecording { kb, split, recording: false };
                lemma_unseen_command(with_split(kbs, kb, split, t), g, command, timing);
                lemma_edit(e, g, with_split(kbs, kb, split, t), command, timing);
            },
            _ => {
                let p = match s.pattern {
                    Some(p) => p,
                    None => e.new_pattern(),
                };
                let t = SplitView { pattern: Some(PatternStateView { recording: true, ..p }), ..s };
                lemma_shown_alike(kbs, g, kb, split, t);
                let after = with_split(kbs, kb, split, t);
                let tempo = GraphCommand::SetGlobalBpm { bpm: e.global_bpm };
                let length = GraphCommand::SetPatternLength { kb, split, beats: p.length_beats };
                let record = GraphCommand::SetPatternRecording { kb, split, recording: true };
                lemma_unseen_command(after, g, tempo, timing);
                g.applying_keeps_wf(tempo, timing);
                let g1 = g.applied(tempo, timing);
                lemma_unseen_command(after, g1, length, timing);
                g1.applying_keeps_wf(length, timing);
                let g2 = g1.applied(length, timing);
                lemma_unseen_command(after, g2, record, timing);
                let effects = seq![Effect::Send(tempo), Effect::Send(length), Effect::Send(record)].push(
                    Effect::Rebuilt,
                );
                reveal_with_fuel(performed, 5);
                assert(performed(g, effects, timing, 4) == g2.applied(record, timing));
            },
        }
    }
}

/// Changing a split of the editor where the audio graph does not see it.
proof fn lemma_shown_alike<P, F>(kbs: Seq<KeyboardView<F>>, g: GraphView<P, F>, kb: usize, split: usize, t: SplitView<F>)
    requires
        in_step(kbs, g),
        g.has_split(kb, split),
        split_in_step(t, g.lane(kb, split)),
    ensures
        in_step(with_split(kbs, kb, split, t), g),
{
    lemma_lane(kbs, g, kb, split, t, g.lane(kb, split));
    assert(g.with_lane(kb, split, g.lane(kb, split)) =~= g) by {
        let lanes = g.keyboards[kb as int];
        assert(lanes.update(split as int, lanes[split as int]) =~= lanes);
        assert(g.keyboards.update(kb as int, lanes) =~= g.keyboards);
    }
}

/// Whatever key is pressed, the keyboards that the editor shows stay those of the audio graph that
/// performs what the key asks for: as many keyboards and splits, with the same ranges and
/// transpositions, instruments in the same places, and as many effects in the same order, with
/// modulators that drive the same things.
pub proof fn keys_stay_in_step<P, F>(
    e: EditorView<F>,
    g: GraphView<P, F>,
    key: Key,
    mods: Modifiers,
    timing: Timing,
)
    requires
        in_step(e.keyboards, g),
        g.wf(),
        fits(e.keyboards),
    ensures
        stays_in_step(e.keyed::<P>(key, mods), g, timing),
{
    let chain = e.active_tab == 0 && !e.focus_params;
    if key == Key::Char('m') && chain {
        lemma_modulate_key::<P, F>(e, g, timing);
    } else if key == Key::Char('d') && chain {
        lemma_delete_key::<P, F>(e, g, timing);
    } else if key == Key::Char('r') && chain && mods.control {
        lemma_clear_key::<P, F>(e, g, timing);
    } else if key == Key::Char('r') && chain {
        match e.selected() {
            Some(TreeAddress::Pattern { kb, split }) => lemma_recording::<P, F>(e, g, kb, split, timing),
            Some(TreeAddress::Split { kb, split }) => lemma_recording::<P, F>(e, g, kb, split, timing),
            _ => {},
        }
    } else if key == Key::Up && chain && mods.shift {
        lemma_shift_key::<P, F>(e, g, false, timing);
    } else if key == Key::Down && chain && mods.shift {
        lemma_shift_key::<P, F>(e, g, true, timing);
    } else {
        lemma_quiet_key::<P, F>(e, key, mods);
        lemma_quiet(e.keyed::<P>(key, mods), e, g, timing);
    }
}

/// Clearing a pattern keeps the two in step.
proof fn lemma_clear_key<P, F>(e: EditorView<F>, g: GraphView<P, F>, timing: Timing)
    requires
        in_step(e.keyboards, g),
        g.wf(),
    ensures
        stays_in_step(e.clear_key::<P>(), g, timing),
{
    let kbs = e.keyboards;
    match e.selected() {
        Some(TreeAddress::Pattern { kb, split }) | Some(TreeAddress::Split { kb, split }) => {
            lemma_here(kbs, g, kb, split);
            match split_at(kbs, kb, split) {
                Some(s) if s.pattern is Some => {
                    let t = SplitView { pattern: None, ..s };
                    let l = g.lane(kb, split);
                    lemma_lane(kbs, g, kb, split, t, LaneView { pattern: l.pattern.cleared(), ..l });
                    let command = GraphCommand::ClearPattern { kb, split };
                    lemma_edit(e, g, with_split(kbs, kb, split, t), command, timing);
                },
                _ => {},
            }
        },
        _ => {},
    }
}

/// The other keys ask nothing of the audio graph.
proof fn lemma_quiet_key<P, F>(e: EditorView<F>, key: Key, mods: Modifiers)
    requires
        ({
            let chain = e.active_tab == 0 && !e.focus_params;
            &&& chain ==> key != Key::Char('m') && key != Key::Char('d') && key != Key::Char('r')
            &&& chain && mods.shift ==> key != Key::Up && key != Key::Down
        }),
    ensures
        e.keyed::<P>(key, mods).0.keyboards == e.keyboards,
        forall|i: int|
            0 <= i < e.keyed::<P>(key, mods).1.len() ==> !((#[trigger] e.keyed::<P>(key, mods).1[i]) is Send),
{
}

/// A change that asks nothing of the audio graph and leaves the keyboards as they are.
proof fn lemma_quiet<P, F>(change: Change<P, F>, e: EditorView<F>, g: GraphView<P, F>, timing: Timing)
    requires
        in_step(e.keyboards, g),
        change.0.keyboards == e.keyboards,
        forall|i: int| 0 <= i < change.1.len() ==> !((#[trigger] change.1[i]) is Send),
    ensures
        stays_in_step(change, g, timing),
    decreases change.1.len(),
{
    if change.1.len() > 0 {
        let fewer = change.1.drop_last();
        lemma_quiet((change.0, fewer), e, g, timing);
        lemma_same(g, change.1, fewer, timing, fewer.len() as int);
        assert(!(change.1[change.1.len() - 1] is Send));
    }
}

// ---------------------------------------------------------------------------
// Parameters and popups
// ---------------------------------------------------------------------------

proof fn lemma_send<P, F>(
    after: EditorView<F>,
    g: GraphView<P, F>,
    command: GraphCommand<P, F>,
    timing: Timing,
)
    requires
        in_step(after.keyboards, g.applied(command, timing)),
    ensures
        stays_in_step((after, seq![Effect::Send(command)]), g, timing),
{
    assert(seq![Effect::Send(command)] =~= seq![Effect::Send(command)] + Seq::<Effect<P, F>>::empty());
    lemma_one(g, command, timing, Seq::empty());
}

/// A plugin of the editor changes, and its modulators drive what they drove.
proof fn lemma_plugin_alike<P, F>(
    kbs: Seq<KeyboardView<F>>,
    g: GraphView<P, F>,
    kb: usize,
    split: usize,
    slot: int,
    q: PluginView<F>,
)
    requires
        in_step(kbs, g),
        plugin_in(kbs, kb, split, slot) is Some,
        shown_wiring(q.modulators) == shown_wiring(plugin_in(kbs, kb, split, slot)->0.modulators),
    ensures
        in_step(with_plugin(kbs, kb, split, slot, q), g),
{
    lemma_here(kbs, g, kb, split);
    let s = split_at(kbs, kb, split)->0;
    lemma_shown_alike(kbs, g, kb, split, s.with_plugin(slot, q));
}

/// A modulator of the editor changes, and drives what it drove.
proof fn lemma_modulator_alike<P, F>(
    kbs: Seq<KeyboardView<F>>,
    g: GraphView<P, F>,
    kb: usize,
    split: usize,
    slot: int,
    index: usize,
    m: ModSlotView<F>,
)
    requires
        in_step(kbs, g),
        modulator_in(kbs, kb, split, slot, index) is Some,
        shown_kinds(m.targets) == shown_kinds(modulator_in(kbs, kb, split, slot, index)->0.targets),
    ensures
        in_step(with_modulator(kbs, kb, split, slot, index, m), g),
{
    let p = plugin_in(kbs, kb, split, slot)->0;
    let q = PluginView { modulators: p.modulators.update(index as int, m), ..p };
    assert(shown_wiring(q.modulators) =~= shown_wiring(p.modulators));
    lemma_plugin_alike(kbs, g, kb, split, slot, q);
}

proof fn lemma_param_set<P, F>(e: EditorView<F>, g: GraphView<P, F>, value: F, timing: Timing)
    requires
        in_step(e.keyboards, g),
        g.wf(),
    ensures
        stays_in_step(e.param_set::<P>(value), g, timing),
{
    match (e.selected(), e.selected_param()) {
        (Some(addr), Some(param)) => {
            let (kb, split) = addr.place()->0;
            let slot = addr.audio_slot();
            let p = e.selected_plugin()->0;
            let pa = e.real_row()->0;
            let q = PluginView { params: p.params.update(pa as int, ParamSlot { value, ..param }), ..p };
            let command = GraphCommand::SetParameter { kb, split, slot: slot as usize, param_index: param.index, value };
            lemma_plugin_alike(e.keyboards, g, kb, split, slot, q);
            lemma_unseen_command(with_plugin(e.keyboards, kb, split, slot, q), g, command, timing);
            lemma_send(e.param_set::<P>(value).0, g, command, timing);
        },
        _ => {
            lemma_quiet(e.param_set::<P>(value), e, g, timing);
        },
    }
}

proof fn lemma_modulator_set<P, F>(
    e: EditorView<F>,
    g: GraphView<P, F>,
    kb: usize,
    split: usize,
    slot: usize,
    index: usize,
    row: ModRow,
    value: F,
    timing: Timing,
)
    requires
        in_step(e.keyboards, g),
        g.wf(),
        modulator_in(e.keyboards, kb, split, slot as int, index) is Some,
    ensures
        stays_in_step(e.modulator_set::<P>(kb, split, slot, index, row, value), g, timing),
{
    let before = modulator_in(e.keyboards, kb, split, slot as int, index)->0;
    let m = before.with_value(row, value);
    assert(shown_kinds(m.targets) =~= shown_kinds(before.targets));
    lemma_modulator_alike(e.keyboards, g, kb, split, slot as int, index, m);
    let after = with_modulator(e.keyboards, kb, split, slot as int, index, m);
    match (row, m.source) {
        (ModRow::Rate, _) => {
            let command = GraphCommand::SetModulatorRate {
                kb,
                split,
                parent_slot: slot,
                mod_index: index,
                rate: value,
            };
            lemma_unseen_command(after, g, command, timing);
            lemma_edit(e, g, after, command, timing);
        },
        (ModRow::Depth(target_index), _) => {
            let command = GraphCommand::SetModTargetDepth {
                kb,
                split,
                parent_slot: slot,
                mod_index: index,
                target_index,
                depth: value,
            };
            lemma_unseen_command(after, g, command, timing);
            lemma_send(e.retouched(after), g, command, timing);
        },
        (_, ModSourceSlot::Envelope { attack, decay, sustain, release }) => {
            let command = GraphCommand::SetModulatorEnvelopeParam {
                kb,
                split,
                parent_slot: slot,
                mod_index: index,
                attack,
                decay,
                sustain,
                release,
            };
            lemma_unseen_command(after, g, command, timing);
            lemma_send(e.retouched(after), g, command, timing);
        },
        _ => {
            lemma_quiet(e.unchanged::<P>(), e, g, timing);
        },
    }
}

proof fn lemma_modulator_adjusted<P, F>(
    e: EditorView<F>,
    g: GraphView<P, F>,
    kb: usize,
    split: usize,
    slot: usize,
    index: usize,
    up: bool,
    value: F,
    timing: Timing,
)
    requires
        in_step(e.keyboards, g),
        g.wf(),
    ensures
        stays_in_step(e.modulator_adjusted::<P>(kb, split, slot, index, up, value), g, timing),
{
    let change = e.modulator_adjusted::<P>(kb, split, slot, index, up, value);
    match modulator_in(e.keyboards, kb, split, slot as int, index) {
        None => {
            lemma_quiet(change, e, g, timing);
        },
        Some(m) => match (m.row(e.param_selected), m.source) {
            (ModRow::Type, _) => {
                let source = e.other_source(m.source);
                let after = with_modulator(
                    e.keyboards,
                    kb,
                    split,
                    slot as int,
                    index,
                    ModSlotView { source, ..m },
                );
                let command = GraphCommand::SetModulatorSource {
                    kb,
                    split,
                    parent_slot: slot,
                    mod_index: index,
                    source: graph_source(source, e.numbers.zero),
                };
                lemma_modulator_alike(e.keyboards, g, kb, split, slot as int, index, ModSlotView { source, ..m });
                lemma_unseen_command(after, g, command, timing);
                let more = seq![Effect::<P, F>::SelectParam(0), Effect::Rebuilt];
                assert(change.1 =~= seq![Effect::Send(command)] + more);
                lemma_one(g, command, timing, more);
            },
            (ModRow::Waveform, ModSourceSlot::Lfo { waveform, rate }) => {
                let next = LfoWaveform::at(
                    (waveform.index() + (if up {
                        1int
                    } else {
                        3int
                    })) % 4,
                );
                let n = ModSlotView { source: ModSourceSlot::Lfo { waveform: next, rate }, ..m };
                let after = with_modulator(e.keyboards, kb, split, slot as int, index, n);
                let command = GraphCommand::SetModulatorWaveform {
                    kb,
                    split,
                    parent_slot: slot,
                    mod_index: index,
                    waveform: next,
                };
                lemma_modulator_alike(e.keyboards, g, kb, split, slot as int, index, n);
                lemma_unseen_command(after, g, command, timing);
                lemma_edit(e, g, after, command, timing);
            },
            (ModRow::Separator, _) => {
                lemma_quiet(change, e, g, timing);
            },
            (ModRow::Outside, _) => {
                lemma_quiet(change, e, g, timing);
            },
            (row, _) => {
                lemma_modulator_set::<P, F>(e, g, kb, split, slot, index, row, value, timing);
            },
        },
    }
}

proof fn lemma_pattern_adjusted<P, F>(
    e: EditorView<F>,
    g: GraphView<P, F>,
    kb: usize,
    split: usize,
    value: F,
    timing: Timing,
)
    requires
        in_step(e.keyboards, g),
        g.wf(),
    ensures
        stays_in_step(e.pattern_adjusted::<P>(kb, split, value), g, timing),
{
    let kbs = e.keyboards;
    lemma_here(kbs, g, kb, split);
    lemma_quiet(e.unchanged::<P>(), e, g, timing);
    if let Some(s) = split_at(kbs, kb, split) {
        if let Some(p) = s.pattern {
            if e.param_selected == 0 {
                let t = SplitView { pattern: Some(PatternStateView { length_beats: value, ..p }), ..s };
                let command = GraphCommand::SetPatternLength { kb, split, beats: value };
                lemma_shown_alike(kbs, g, kb, split, t);
                lemma_unseen_command(with_split(kbs, kb, split, t), g, command, timing);
                lemma_edit(e, g, with_split(kbs, kb, split, t), command, timing);
            } else if e.param_selected == 1 {
                let t = SplitView { pattern: Some(PatternStateView { enabled: !p.enabled, ..p }), ..s };
                let command = GraphCommand::SetPatternEnabled { kb, split, enabled: !p.enabled };
                lemma_shown_alike(kbs, g, kb, split, t);
                lemma_unseen_command(with_split(kbs, kb, split, t), g, command, timing);
                lemma_edit(e, g, with_split(kbs, kb, split, t), command, timing);
            } else if e.param_selected == 2 {
                let t = SplitView { pattern: Some(PatternStateView { looping: !p.looping, ..p }), ..s };
                let command = GraphCommand::SetPatternLooping { kb, split, looping: !p.looping };
                lemma_shown_alike(kbs, g, kb, split, t);
                lemma_unseen_command(with_split(kbs, kb, split, t), g, command, timing);
                lemma_send(e.retouched(with_split(kbs, kb, split, t)), g, command, timing);
            }
        }
    }
}

proof fn lemma_transposed<P, F>(
    e: EditorView<F>,
    g: GraphView<P, F>,
    kb: usize,
    split: usize,
    semitones: i8,
    timing: Timing,
)
    requires
        in_step(e.keyboards, g),
    ensures
        stays_in_step(e.transposed::<P>(kb, split, semitones), g, timing),
{
    let kbs = e.keyboards;
    lemma_here(kbs, g, kb, split);
    lemma_quiet(e.unchanged::<P>(), e, g, timing);
    if let Some(s) = split_at(kbs, kb, split) {
        let t = SplitView { transpose: semitones, ..s };
        let l = LaneView { transpose: semitones, ..g.lane(kb, split) };
        lemma_lane(kbs, g, kb, split, t, l);
        let command = GraphCommand::SetTranspose { kb, split, semitones };
        lemma_edit(e, g, with_split(kbs, kb, split, t), command, timing);
    }
}

/// Adjusting a parameter keeps the two in step.
pub proof fn adjusting_stays_in_step<P, F>(
    e: EditorView<F>,
    g: GraphView<P, F>,
    up: bool,
    coarse: bool,
    value: F,
    timing: Timing,
)
    requires
        in_step(e.keyboards, g),
        g.wf(),
    ensures
        stays_in_step(e.adjusted::<P>(up, coarse, value), g, timing),
{
    lemma_quiet(e.unchanged::<P>(), e, g, timing);
    match e.selected() {
        None => {},
        Some(TreeAddress::Keyboard(_)) => {},
        Some(TreeAddress::Split { kb, split }) => {
            if let Some(s) = split_at(e.keyboards, kb, split) {
                lemma_transposed::<P, F>(e, g, kb, split, stepped_transpose(s.transpose, up, coarse), timing);
            }
        },
        Some(TreeAddress::Pattern { kb, split }) => {
            lemma_pattern_adjusted::<P, F>(e, g, kb, split, value, timing);
        },
        Some(TreeAddress::Modulator { kb, split, parent_slot, index }) => {
            lemma_modulator_adjusted::<P, F>(e, g, kb, split, parent_slot, index, up, value, timing);
        },
        Some(_) => {
            lemma_param_set::<P, F>(e, g, value, timing);
        },
    }
}

/// Typing the value of a parameter keeps the two in step.
pub proof fn setting_stays_in_step<P, F>(
    e: EditorView<F>,
    g: GraphView<P, F>,
    value: F,
    semitones: i8,
    timing: Timing,
)
    requires
        in_step(e.keyboards, g),
        g.wf(),
    ensures
        stays_in_step(e.assigned::<P>(value, semitones), g, timing),
{
    lemma_quiet(e.unchanged::<P>(), e, g, timing);
    lemma_quiet::<P, F>((e.touched(), Seq::empty()), e, g, timing);
    match e.selected() {
        None => {},
        Some(TreeAddress::Keyboard(_)) => {},
        Some(TreeAddress::Split { kb, split }) => {
            lemma_transposed::<P, F>(e, g, kb, split, clamped_transpose(semitones as int), timing);
        },
        Some(TreeAddress::Pattern { kb, split }) => {
            lemma_pattern_adjusted::<P, F>(e, g, kb, split, value, timing);
        },
        Some(TreeAddress::Modulator { kb, split, parent_slot, index }) => {
            if let Some(m) = e.selected_modulator() {
                lemma_modulator_set::<P, F>(
                    e,
                    g,
                    kb,
                    split,
                    parent_slot,
                    index,
                    m.row(e.param_selected),
                    value,
                    timing,
                );
            }
        },
        Some(_) => {
            lemma_param_set::<P, F>(e, g, value, timing);
        },
    }
}

/// Adding a split keeps the two in step.
pub proof fn splitting_stays_in_step<P, F>(e: EditorView<F>, g: GraphView<P, F>, text: Seq<char>, timing: Timing)
    requires
        in_step(e.keyboards, g),
    ensures
        stays_in_step(e.range_confirmed::<P>(text), g, timing),
{
    lemma_quiet(e.unchanged::<P>(), e, g, timing);
    if let Some(kb) = e.range_edit {
        if kb < e.keyboards.len() {
            let input = trimmed(text);
            if input.len() == 0 {
                lemma_split_added::<P, F>(e, g, kb, None, timing);
            } else if let Ok(range) = parsed_range(input) {
                lemma_split_added::<P, F>(e, g, kb, Some(range), timing);
            }
        }
    }
}

proof fn lemma_split_added<P, F>(
    e: EditorView<F>,
    g: GraphView<P, F>,
    kb: usize,
    range: Option<(u8, u8)>,
    timing: Timing,
)
    requires
        in_step(e.keyboards, g),
        kb < e.keyboards.len(),
    ensures
        stays_in_step(e.split_added::<P>(kb, range), g, timing),
{
    let s = SplitView { range, transpose: 0, instrument: None, effects: Seq::empty(), pattern: None };
    let splits = e.keyboards[kb as int].splits;
    let lanes = g.keyboards[kb as int];
    assert(splits_in_step(splits, lanes));
    let l = g.new_lane(kb, lanes.len() as usize, range);
    assert(split_in_step(s, l));
    assert(splits_in_step(splits.push(s), lanes.push(l)));
    lemma_splits(e.keyboards, g, kb, splits.push(s), lanes.push(l));
    let command = GraphCommand::AddSplit { kb, range };
    lemma_edit(e, g, with_splits(e.keyboards, kb, splits.push(s)), command, timing);
}

/// Typing a tempo keeps the two in step.
pub proof fn tempo_stays_in_step<P, F>(e: EditorView<F>, g: GraphView<P, F>, bpm: Option<F>, timing: Timing)
    requires
        in_step(e.keyboards, g),
        g.wf(),
    ensures
        stays_in_step(e.bpm_confirmed::<P>(bpm), g, timing),
{
    match bpm {
        None => {
            lemma_quiet(e.bpm_confirmed::<P>(bpm), e, g, timing);
        },
        Some(bpm) => {
            let kbs = keyboards_at(e.keyboards, bpm);
            assert forall|k: int| 0 <= k < kbs.len() implies splits_in_step(
                (#[trigger] kbs[k]).splits,
                g.keyboards[k],
            ) by {
                assert(splits_in_step(e.keyboards[k].splits, g.keyboards[k]));
                assert forall|i: int| 0 <= i < kbs[k].splits.len() implies split_in_step(
                    #[trigger] kbs[k].splits[i],
                    g.keyboards[k][i],
                ) by {
                    assert(split_in_step(e.keyboards[k].splits[i], g.keyboards[k][i]));
                }
            }
            let command = GraphCommand::SetGlobalBpm { bpm };
            lemma_unseen_command(kbs, g, command, timing);
            lemma_send(e.bpm_confirmed::<P>(Some(bpm)).0, g, command, timing);
        },
    }
}

/// Choosing a target for a modulator keeps the two in step.
pub proof fn targeting_stays_in_step<P, F>(
    e: EditorView<F>,
    g: GraphView<P, F>,
    chosen: Option<TargetEntry<F>>,
    timing: Timing,
)
    requires
        in_step(e.keyboards, g),
        g.wf(),
    ensures
        stays_in_step(e.target_confirmed::<P>(chosen), g, timing),
{
    let kbs = e.keyboards;
    match (e.targets, chosen) {
        (Some(place), Some(entry)) => {
            let (kb, split, slot, index) = (place.kb, place.split, place.parent_slot, place.mod_index);
            let closed = EditorView { targets: None, ..e };
            let shown = ModTargetSlot {
                param_name: entry.label,
                kind: entry.kind,
                depth: e.numbers.new_depth,
                param_min: entry.param_min,
                param_max: entry.param_max,
            };
            let heard = ModTarget {
                kind: entry.kind,
                depth: e.numbers.new_depth,
                base_value: entry.base_value,
                param_min: entry.param_min,
                param_max: entry.param_max,
            };
            let command = GraphCommand::AddModTarget { kb, split, parent_slot: slot, mod_index: index, target: heard };
            let m = modulator_in(kbs, kb, split, slot as int, index);
            let after = match m {
                Some(m) => with_modulator(
                    kbs,
                    kb,
                    split,
                    slot as int,
                    index,
                    ModSlotView { targets: m.targets.push(shown), ..m },
                ),
                None => kbs,
            };
            lemma_here(kbs, g, kb, split);
            if g.has_split(kb, split) {
                let s = split_at(kbs, kb, split)->0;
                let l = g.lane(kb, split);
                if slot == 0 {
                    let t = split_at(after, kb, split)->0;
                    let h = g.applied(command, timing).lane(kb, split);
                    assert(split_in_step(t, h));
                    lemma_lane(kbs, g, kb, split, t, h);
                    lemma_lane_is(kbs, after, kb, split);
                } else if slot <= s.effects.len() {
                    let p = s.effects[slot - 1];
                    let mods = l.effect_modulators[slot - 1];
                    assert(shown_wiring(p.modulators) == heard_wiring(mods));
                    assert(p.modulators.len() == shown_wiring(p.modulators).len() == heard_wiring(mods).len());
                    if index < mods.len() {
                        let a = p.modulators[index as int];
                        let b = mods[index as int];
                        assert(shown_wiring(p.modulators)[index as int] == shown_kinds(a.targets));
                        assert(heard_wiring(mods)[index as int] == heard_kinds(b.targets));
                        let a2 = ModSlotView { targets: a.targets.push(shown), ..a };
                        let b2 = ModulatorView { targets: b.targets.push(heard), ..b };
                        assert(shown_kinds(a2.targets) =~= shown_kinds(a.targets).push(entry.kind));
                        assert(heard_kinds(b2.targets) =~= heard_kinds(b.targets).push(entry.kind));
                        let i = index as int;
                        assert(shown_wiring(p.modulators.update(i, a2)) =~= shown_wiring(p.modulators).update(
                            i,
                            shown_kinds(a2.targets),
                        ));
                        assert(heard_wiring(mods.update(i, b2)) =~= heard_wiring(mods).update(
                            i,
                            heard_kinds(b2.targets),
                        ));
                        let q = PluginView { modulators: p.modulators.update(index as int, a2), ..p };
                        lemma_lane(
                            kbs,
                            g,
                            kb,
                            split,
                            s.with_plugin(slot as int, q),
                            l.with_modulator(slot, index, b2),
                        );
                    } else {
                        lemma_unseen(kbs, g, kb, split, l);
                    }
                } else {
                    lemma_unseen(kbs, g, kb, split, l);
                }
            }
            lemma_edit(closed, g, after, command, timing);
        },
        _ => {
            lemma_quiet(e.target_confirmed::<P>(chosen), e, g, timing);
        },
    }
}

/// Keyboards that differ in one split only are told apart by that split.
proof fn lemma_lane_is<F>(kbs: Seq<KeyboardView<F>>, after: Seq<KeyboardView<F>>, kb: usize, split: usize)
    requires
        split_at(kbs, kb, split) is Some,
        after == kbs || exists|t: SplitView<F>| after == #[trigger] with_split(kbs, kb, split, t),
    ensures
        after == with_split(kbs, kb, split, split_at(after, kb, split)->0),
{
    let splits = kbs[kb as int].splits;
    if after == kbs {
        assert(splits.update(split as int, splits[split as int]) =~= splits);
        assert(with_split(kbs, kb, split, splits[split as int]) =~= kbs);
    }
}

/// An instrument that takes its place in a split keeps the two in step.
pub proof fn instrument_stays_in_step<P, F>(
    kbs: Seq<KeyboardView<F>>,
    g: GraphView<P, F>,
    kb: usize,
    split: usize,
    shown: PluginView<F>,
    command: GraphCommand<P, F>,
    timing: Timing,
)
    requires
        in_step(kbs, g),
        split_at(kbs, kb, split) is Some,
        command matches GraphCommand::SwapInstrument { kb: k, split: s, .. } && (k, s) == (kb, split),
    ensures
        in_step(
            with_split(
                kbs,
                kb,
                split,
                (SplitView { instrument: Some(shown), ..split_at(kbs, kb, split)->0 }),
            ),
            g.applied(command, timing),
        ),
{
    lemma_here(kbs, g, kb, split);
    let t = SplitView { instrument: Some(shown), ..split_at(kbs, kb, split)->0 };
    let l = g.applied(command, timing).lane(kb, split);
    lemma_lane(kbs, g, kb, split, t, l);
}

/// An effect that is put into a split's chain keeps the two in step, where it has as many outputs as
/// there are channels: any other effect is refused by the audio graph.
pub proof fn effect_stays_in_step<P, F>(
    kbs: Seq<KeyboardView<F>>,
    g: GraphView<P, F>,
    kb: usize,
    split: usize,
    index: usize,
    shown: PluginView<F>,
    effect: P,
    outputs: usize,
    mix: F,
    timing: Timing,
)
    requires
        in_step(kbs, g),
        g.wf(),
        split_at(kbs, kb, split) is Some,
        index <= split_at(kbs, kb, split)->0.effects.len(),
        shown.modulators.len() == 0,
        outputs == g.num_channels,
    ensures
        ({
            let s = split_at(kbs, kb, split)->0;
            in_step(
                with_split(kbs, kb, split, (SplitView { effects: s.effects.insert(index as int, shown), ..s })),
                g.applied((GraphCommand::InsertEffect { kb, split, index, effect, outputs, mix }), timing),
            )
        }),
{
    lemma_here(kbs, g, kb, split);
    let s = split_at(kbs, kb, split)->0;
    let l = g.lane(kb, split);
    let t = SplitView { effects: s.effects.insert(index as int, shown), ..s };
    let h = l.effect_inserted(index, effect, mix);
    assert(shown_wiring(shown.modulators) =~= heard_wiring(Seq::<ModulatorView<F>>::empty()));
    assert(split_in_step(t, h));
    lemma_lane(kbs, g, kb, split, t, h);
}

/// A session starts in step: there is nothing on either side, and a keyboard is added on both.
pub proof fn keyboard_stays_in_step<P, F>(
    kbs: Seq<KeyboardView<F>>,
    g: GraphView<P, F>,
    name: Seq<char>,
    timing: Timing,
)
    requires
        in_step(kbs, g),
    ensures
        in_step(
            kbs.push(KeyboardView { name, splits: Seq::empty() }),
            g.applied(GraphCommand::AddKeyboard, timing),
        ),
{
}

} // verus!
