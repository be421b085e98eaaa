//! Laws of the editor's popups and of deleting in it.
use vstd::prelude::*;

use crate::graph::GraphCommand;
use crate::modulation::{ModTarget, ModTargetKind};
use crate::notes::parsed_range;
use crate::pattern::NotificationView;
use crate::text::trimmed;
use crate::tui::editor::{EditorView, Effect, Numbers};
use crate::tui::model::{
    modulator_in, slot_targets_after_remove, slots_after_remove, ModSlotView, ModSourceSlot, ModTargetSlot,
    PatternStateView, PluginView, SplitView, TreeAddress,
};
use crate::tui::popups::{
    depth_targets, sibling_targets, source_targets, target_entries, KeyRoute, TargetEntry, TargetEntryView,
};

verus! {

// ---------------------------------------------------------------------------
// Deleting
// ---------------------------------------------------------------------------

/// Deleting takes away the selected node and nothing else, and tells the audio graph to do the same:
/// an effect, an instrument, a pattern, or a split, of which one always stays.
pub proof fn deleting_takes_the_selected<P, F>(e: EditorView<F>, kb: usize, split: usize, index: usize)
    requires
        kb < e.keyboards.len(),
        split < e.keyboards[kb as int].splits.len(),
    ensures
        ({
            let splits = e.keyboards[kb as int].splits;
            let s = splits[split as int];
            let (after, effects) = e.delete_key::<P>();
            let left = after.keyboards[kb as int].splits;
            &&& e.selected() == Some(TreeAddress::Effect { kb, split, index }) && index < s.effects.len() ==> {
                &&& left.len() == splits.len()
                &&& left[split as int] == (SplitView { effects: s.effects.remove(index as int), ..s })
                &&& effects[0] == Effect::<P, F>::Send(GraphCommand::RemoveEffect { kb, split, index })
            }
            &&& e.selected() == Some(TreeAddress::Instrument { kb, split }) && s.instrument is Some ==> {
                &&& left.len() == splits.len()
                &&& left[split as int] == (SplitView { instrument: None, ..s })
                &&& effects[0] == Effect::<P, F>::Send(GraphCommand::RemoveInstrument { kb, split })
            }
            &&& e.selected() == Some(TreeAddress::Pattern { kb, split }) ==> {
                &&& left.len() == splits.len()
                &&& left[split as int] == (SplitView { pattern: None, ..s })
                &&& effects[0] == Effect::<P, F>::Send(GraphCommand::ClearPattern { kb, split })
            }
            &&& e.selected() == Some(TreeAddress::Split { kb, split }) && splits.len() > 1 ==> {
                &&& left.len() == splits.len() - 1
                &&& forall|i: int| 0 <= i < split ==> #[trigger] left[i] == splits[i]
                &&& forall|i: int| split <= i < left.len() ==> #[trigger] left[i] == splits[i + 1]
                &&& effects[0] == Effect::<P, F>::Send(GraphCommand::RemoveSplit { kb, split })
            }
            &&& e.selected() == Some(TreeAddress::Split { kb, split }) && splits.len() == 1 ==> after == e
                && effects.len() == 0
            &&& forall|k: int|
                0 <= k < e.keyboards.len() && k != kb && e.selected() is Some && (e.selected()->0.place() matches Some(
                    at,
                ) && at.0 == kb) ==> #[trigger] after.keyboards[k] == e.keyboards[k]
        }),
{
}

proof fn lemma_slot_targets<F>(targets: Seq<ModTargetSlot<F>>, removed: usize, keep: spec_fn(ModTargetSlot<F>) -> bool)
    requires
        forall|t: ModTargetSlot<F>|
            #[trigger] keep(t) <==> (t.kind.cross() is None || (t.kind.cross()->0).0 != removed),
    ensures
        ({
            let after = slot_targets_after_remove(targets, removed);
            let kept = targets.filter(keep);
            &&& after.len() == kept.len()
            &&& forall|k: int|
                0 <= k < kept.len() ==> {
                    let t = #[trigger] after[k];
                    &&& t.param_name == kept[k].param_name
                    &&& t.depth == kept[k].depth
                    &&& t.param_min == kept[k].param_min
                    &&& t.param_max == kept[k].param_max
                    &&& match kept[k].kind.cross() {
                        None => t.kind == kept[k].kind,
                        Some((sibling, field)) => t.kind.cross() == Some(
                            (
                                if sibling > removed {
                                    (sibling - 1) as usize
                                } else {
                                    sibling
                                },
                                field,
                            ),
                        ),
                    }
                }
        }),
    decreases targets.len(),
{
    reveal(Seq::filter);
    if targets.len() > 0 {
        let front = targets.drop_last();
        let last = targets.last();
        lemma_slot_targets(front, removed, keep);
        assert(keep(last) <==> (last.kind.cross() is None || (last.kind.cross()->0).0 != removed));
        let before = slot_targets_after_remove(front, removed);
        let after = slot_targets_after_remove(targets, removed);
        let kept = targets.filter(keep);
        assert forall|k: int| 0 <= k < kept.len() implies {
            let t = #[trigger] after[k];
            &&& t.param_name == kept[k].param_name
            &&& t.depth == kept[k].depth
            &&& t.param_min == kept[k].param_min
            &&& t.param_max == kept[k].param_max
            &&& match kept[k].kind.cross() {
                None => t.kind == kept[k].kind,
                Some((sibling, field)) => t.kind.cross() == Some(
                    (
                        if sibling > removed {
                            (sibling - 1) as usize
                        } else {
                            sibling
                        },
                        field,
                    ),
                ),
            }
        } by {
            if k < before.len() {
                assert(after[k] == before[k]);
                assert(kept[k] == front.filter(keep)[k]);
            }
        }
    }
}

/// Deleting a modulator takes out that one and the targets of the others that drove it; every other
/// target still drives what it drove.
pub proof fn deleting_a_modulator_keeps_the_wiring<F>(mods: Seq<ModSlotView<F>>, index: usize, i: int)
    requires
        index < mods.len(),
        0 <= i < mods.len() - 1,
    ensures
        ({
            let m = mods[if i < index {
                i
            } else {
                i + 1
            }];
            let after = slots_after_remove(mods, index)[i];
            let kept = m.targets.filter(
                |t: ModTargetSlot<F>| t.kind.cross() is None || (t.kind.cross()->0).0 != index,
            );
            &&& slots_after_remove(mods, index).len() == mods.len() - 1
            &&& after.source == m.source
            &&& after.targets.len() == kept.len()
            &&& forall|k: int|
                0 <= k < kept.len() ==> {
                    let t = #[trigger] after.targets[k];
                    &&& t.param_name == kept[k].param_name
                    &&& t.depth == kept[k].depth
                    &&& t.param_min == kept[k].param_min
                    &&& t.param_max == kept[k].param_max
                    &&& match kept[k].kind.cross() {
                        None => t.kind == kept[k].kind,
                        Some((sibling, field)) => t.kind.cross() == Some(
                            (
                                if sibling > index {
                                    (sibling - 1) as usize
                                } else {
                                    sibling
                                },
                                field,
                            ),
                        ),
                    }
                }
        }),
{
    let m = mods[if i < index {
        i
    } else {
        i + 1
    }];
    let keep = |t: ModTargetSlot<F>| t.kind.cross() is None || (t.kind.cross()->0).0 != index;
    lemma_slot_targets(m.targets, index, keep);
}

// ---------------------------------------------------------------------------
// Confirming
// ---------------------------------------------------------------------------

/// Confirming a range adds one empty split with that range behind the others of the keyboard, or
/// with the full range where nothing was typed; a text that is no range changes nothing.
pub proof fn confirmed_ranges_add_a_split<P, F>(e: EditorView<F>, kb: usize, text: Seq<char>)
    requires
        e.range_edit == Some(kb),
        kb < e.keyboards.len(),
    ensures
        ({
            let splits = e.keyboards[kb as int].splits;
            let (after, effects) = e.range_confirmed::<P>(text);
            let left = after.keyboards[kb as int].splits;
            let typed = trimmed(text);
            let good = typed.len() == 0 || parsed_range(typed) is Ok;
            let range = if typed.len() == 0 {
                None
            } else {
                Some(parsed_range(typed)->Ok_0)
            };
            if good {
                &&& after.range_edit is None
                &&& left.len() == splits.len() + 1
                &&& forall|i: int| 0 <= i < splits.len() ==> #[trigger] left[i] == splits[i]
                &&& left[splits.len() as int].range == range
                &&& left[splits.len() as int].transpose == 0
                &&& left[splits.len() as int].instrument is None
                &&& left[splits.len() as int].effects.len() == 0
                &&& left[splits.len() as int].pattern is None
                &&& effects[0] == Effect::<P, F>::Send(GraphCommand::AddSplit { kb, range })
            } else {
                after == e && effects.len() == 0
            }
        }),
{
}

/// Confirming a tempo sets it for every pattern and nothing else of them; without a number only the
/// popup closes.
pub proof fn confirmed_tempo_is_everywhere<P, F>(e: EditorView<F>, bpm: F, k: int, s: int)
    requires
        0 <= k < e.keyboards.len(),
        0 <= s < e.keyboards[k].splits.len(),
    ensures
        ({
            let (after, effects) = e.bpm_confirmed::<P>(Some(bpm));
            let before = e.keyboards[k].splits[s];
            let t = after.keyboards[k].splits[s];
            &&& after.global_bpm == bpm
            &&& after.bpm_edit is None
            &&& after.keyboards.len() == e.keyboards.len()
            &&& after.keyboards[k].name == e.keyboards[k].name
            &&& after.keyboards[k].splits.len() == e.keyboards[k].splits.len()
            &&& t == (SplitView { pattern: t.pattern, ..before })
            &&& before.pattern is None ==> t.pattern is None
            &&& before.pattern is Some ==> t.pattern == Some(PatternStateView { bpm, ..before.pattern->0 })
            &&& effects == seq![Effect::<P, F>::Send(GraphCommand::SetGlobalBpm { bpm })]
        }),
        e.bpm_confirmed::<P>(None).0 == (EditorView { bpm_edit: None, ..e }),
        e.bpm_confirmed::<P>(None).1.len() == 0,
{
}

/// Confirming a target wires it to the modulator for which it was chosen, behind the others, with
/// the depth of new targets; the audio graph is told of the same target.
pub proof fn confirmed_targets_are_wired<P, F>(
    e: EditorView<F>,
    entry: TargetEntry<F>,
    m: ModSlotView<F>,
)
    requires
        e.targets is Some,
        modulator_in(
            e.keyboards,
            e.targets->0.kb,
            e.targets->0.split,
            e.targets->0.parent_slot as int,
            e.targets->0.mod_index,
        ) == Some(m),
    ensures
        ({
            let at = e.targets->0;
            let (after, effects) = e.target_confirmed::<P>(Some(entry));
            let shown = modulator_in(after.keyboards, at.kb, at.split, at.parent_slot as int, at.mod_index);
            &&& after.targets is None
            &&& shown is Some
            &&& shown->0.source == m.source
            &&& shown->0.targets.len() == m.targets.len() + 1
            &&& forall|i: int| 0 <= i < m.targets.len() ==> #[trigger] shown->0.targets[i] == m.targets[i]
            &&& shown->0.targets[m.targets.len() as int].kind == entry.kind
            &&& shown->0.targets[m.targets.len() as int].param_name == entry.label
            &&& shown->0.targets[m.targets.len() as int].depth == e.numbers.new_depth
            &&& shown->0.targets[m.targets.len() as int].param_min == entry.param_min
            &&& shown->0.targets[m.targets.len() as int].param_max == entry.param_max
            &&& effects[0] == Effect::<P, F>::Send(
                GraphCommand::AddModTarget {
                    kb: at.kb,
                    split: at.split,
                    parent_slot: at.parent_slot,
                    mod_index: at.mod_index,
                    target: ModTarget {
                        kind: entry.kind,
                        depth: e.numbers.new_depth,
                        base_value: entry.base_value,
                        param_min: entry.param_min,
                        param_max: entry.param_max,
                    },
                },
            )
        }),
{
}

/// A finished recording is shown in the split it was made in, as it was reported.
pub proof fn recordings_are_shown<P, F>(e: EditorView<F>, n: NotificationView<F>)
    requires
        n.kb < e.keyboards.len(),
        n.split < e.keyboards[n.kb as int].splits.len(),
    ensures
        ({
            let s = e.keyboards[n.kb as int].splits[n.split as int];
            let t = e.recorded::<P>(n).0.keyboards[n.kb as int].splits[n.split as int];
            let p = t.pattern->0;
            &&& t == (SplitView { pattern: t.pattern, ..s })
            &&& t.pattern is Some
            &&& p.events == n.events
            &&& p.base_note == n.base_note
            &&& p.length_beats == n.length_beats
            &&& p.looping == n.looping
            &&& p.enabled == n.enabled
            &&& p.bpm == e.global_bpm
            &&& !p.recording
        }),
{
}

/// Keys go to the popup that is open, to the filter while it is typed, and else to the editor.
pub proof fn keys_go_to_the_open_popup<F>(e: EditorView<F>)
    ensures
        !e.has_popup() && !e.param_filtering <==> e.key_route() == KeyRoute::Editor,
        e.key_route() == KeyRoute::Selector ==> e.selector is Some,
        e.key_route() == KeyRoute::Targets ==> e.targets is Some,
        e.key_route() == KeyRoute::Bpm ==> e.bpm_edit is Some,
        e.key_route() == KeyRoute::Value ==> e.value_edit is Some,
        e.key_route() == KeyRoute::Range ==> e.range_edit is Some,
        e.key_route() == KeyRoute::Filter <==> !e.has_popup() && e.param_filtering,
        !e.dismissed().has_popup(),
{
}

/// A new plugin goes behind the selected one: to the front of the chain at the instrument, behind an
/// effect at that effect, and to the end elsewhere.
pub proof fn new_effects_go_behind_the_selected<F>(e: EditorView<F>, len: int)
    requires
        len >= 0,
    ensures
        match e.selected() {
            Some(TreeAddress::Instrument { .. }) => e.effect_place(len) == 0,
            Some(TreeAddress::Effect { index, .. }) => e.effect_place(len) == if index < len {
                index + 1
            } else {
                len
            },
            _ => e.effect_place(len) == len,
        },
{
}

// ---------------------------------------------------------------------------
// Targets on offer
// ---------------------------------------------------------------------------

proof fn lemma_siblings_offered<F>(mods: Seq<ModSlotView<F>>, own: usize, n: Numbers<F>, count: int, i: int, wanted: TargetEntryView<F>)
    requires
        0 <= i < count <= mods.len(),
        mods.len() <= usize::MAX,
        i != own,
        source_targets(mods[i].source, i as usize, n).contains(wanted)
            || depth_targets(mods[i].targets, i as usize, n).contains(wanted),
    ensures
        sibling_targets(mods, own, n, count).contains(wanted),
    decreases count,
{
    let all = sibling_targets(mods, own, n, count);
    let rest = sibling_targets(mods, own, n, count - 1);
    let a = source_targets(mods[count - 1].source, (count - 1) as usize, n);
    let b = depth_targets(mods[count - 1].targets, (count - 1) as usize, n);
    if i == count - 1 {
        if a.contains(wanted) {
            let k = choose|k: int| 0 <= k < a.len() && a[k] == wanted;
            assert(all[rest.len() + k] == wanted);
        } else {
            let k = choose|k: int| 0 <= k < b.len() && b[k] == wanted;
            assert(all[rest.len() + a.len() + k] == wanted);
        }
    } else {
        lemma_siblings_offered(mods, own, n, count - 1, i, wanted);
        let k = choose|k: int| 0 <= k < rest.len() && rest[k] == wanted;
        assert(all[k] == wanted);
    }
}

/// A modulator can be wired to every parameter of its plugin and to every setting of every other
/// modulator of it, each starting from the value that the setting has.
pub proof fn everything_can_be_modulated<F>(p: PluginView<F>, own: usize, n: Numbers<F>, k: int, i: int, t: int)
    requires
        p.modulators.len() <= usize::MAX,
    ensures
        ({
            let offered = target_entries(p, own, n);
            &&& 0 <= k < p.params.len() ==> {
                let e = offered[k];
                &&& e.kind == (ModTargetKind::PluginParam { param_index: p.params[k].index })
                &&& e.label == p.params[k].name@
                &&& e.param_min == p.params[k].min && e.param_max == p.params[k].max
                &&& e.base_value == p.params[k].default
            }
            &&& 0 <= i < p.modulators.len() && i != own ==> {
                let m = p.modulators[i];
                let has = |kind: ModTargetKind, min: F, max: F, base: F|
                    exists|q: int|
                        0 <= q < offered.len() && (#[trigger] offered[q]).kind == kind && offered[q].param_min == min
                            && offered[q].param_max == max && offered[q].base_value == base;
                &&& m.source is Lfo ==> has(
                    ModTargetKind::ModulatorRate { mod_index: i as usize },
                    n.rate_min,
                    n.rate_max,
                    m.source->rate,
                )
                &&& m.source is Envelope ==> {
                    &&& has(
                        ModTargetKind::ModulatorAttack { mod_index: i as usize },
                        n.time_min,
                        n.time_max,
                        m.source->attack,
                    )
                    &&& has(
                        ModTargetKind::ModulatorDecay { mod_index: i as usize },
                        n.time_min,
                        n.time_max,
                        m.source->decay,
                    )
                    &&& has(
                        ModTargetKind::ModulatorSustain { mod_index: i as usize },
                        n.zero,
                        n.unity,
                        m.source->sustain,
                    )
                    &&& has(
                        ModTargetKind::ModulatorRelease { mod_index: i as usize },
                        n.time_min,
                        n.time_max,
                        m.source->release,
                    )
                }
                &&& 0 <= t < m.targets.len() <= usize::MAX ==> has(
                    ModTargetKind::ModulatorDepth { mod_index: i as usize, target_index: t as usize },
                    n.zero,
                    n.unity,
                    m.targets[t].depth,
                )
            }
        }),
{
    let offered = target_entries(p, own, n);
    if 0 <= i < p.modulators.len() && i != own {
        let m = p.modulators[i];
        let a = source_targets(m.source, i as usize, n);
        let b = depth_targets(m.targets, i as usize, n);
        let siblings = sibling_targets(p.modulators, own, n, p.modulators.len() as int);
        assert forall|w: TargetEntryView<F>| a.contains(w) || b.contains(w) implies #[trigger] offered.contains(w) by {
            lemma_siblings_offered(p.modulators, own, n, p.modulators.len() as int, i, w);
            let q = choose|q: int| 0 <= q < siblings.len() && siblings[q] == w;
            assert(offered[p.params.len() + q] == w);
        }
        match m.source {
            ModSourceSlot::Lfo { .. } => {
                assert(a.contains(a[0]));
                assert(offered.contains(a[0]));
            },
            ModSourceSlot::Envelope { .. } => {
                assert(a.contains(a[0]) && a.contains(a[1]) && a.contains(a[2]) && a.contains(a[3]));
                assert(offered.contains(a[0]) && offered.contains(a[1]) && offered.contains(a[2]) && offered.contains(a[3]));
            },
        }
        if 0 <= t < m.targets.len() <= usize::MAX {
            assert(b.contains(b[t]));
            assert(offered.contains(b[t]));
        }
    }
}

} // verus!
