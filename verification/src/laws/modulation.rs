//! Laws of modulators, their wiring and their envelopes.
use vstd::prelude::*;

use crate::lane::{envelope_set, rate_set};
use crate::laws::midi::kinds_are_status_ranges;
use crate::midi::MidiEvent;
use crate::modulation::{
    cross_applied, cross_routes, gate_after, kind_after_remove, modulators_after_remove, param_base_updated,
    routes_of_targets, targets_after_remove, CrossModField, CrossRoute, EnvState, LfoWaveform, ModSource,
    ModTarget, ModTargetKind, ModulatorView,
};

verus! {

// ---------------------------------------------------------------------------
// Fields
// ---------------------------------------------------------------------------

/// A field that is set holds the value, and every other field of the envelope stays what it was:
/// attack, decay, sustain and release are set one by one, whatever the envelope is doing.
pub proof fn set_envelope_fields_hold<F>(m: ModulatorView<F>, value: F)
    requires
        m.source is Envelope,
    ensures
        ({
            let s = m.with_field(CrossModField::Attack, value).source;
            &&& s is Envelope
            &&& s->attack == value
            &&& s->decay == m.source->decay
            &&& s->sustain == m.source->sustain
            &&& s->release == m.source->release
            &&& s->state == m.source->state
            &&& s->level == m.source->level
            &&& s->notes_held == m.source->notes_held
        }),
        ({
            let s = m.with_field(CrossModField::Decay, value).source;
            &&& s is Envelope
            &&& s->attack == m.source->attack
            &&& s->decay == value
            &&& s->sustain == m.source->sustain
            &&& s->release == m.source->release
            &&& s->state == m.source->state
            &&& s->level == m.source->level
            &&& s->notes_held == m.source->notes_held
        }),
        ({
            let s = m.with_field(CrossModField::Sustain, value).source;
            &&& s is Envelope
            &&& s->attack == m.source->attack
            &&& s->decay == m.source->decay
            &&& s->sustain == value
            &&& s->release == m.source->release
            &&& s->state == m.source->state
            &&& s->level == m.source->level
            &&& s->notes_held == m.source->notes_held
        }),
        ({
            let s = m.with_field(CrossModField::Release, value).source;
            &&& s is Envelope
            &&& s->attack == m.source->attack
            &&& s->decay == m.source->decay
            &&& s->sustain == m.source->sustain
            &&& s->release == value
            &&& s->state == m.source->state
            &&& s->level == m.source->level
            &&& s->notes_held == m.source->notes_held
        }),
        m.with_field(CrossModField::Rate, value) == m,
{
}

/// An LFO takes a rate and keeps its waveform and phase; it has no stages to set.
pub proof fn set_rates_hold<F>(m: ModulatorView<F>, value: F)
    requires
        m.source is Lfo,
    ensures
        ({
            let s = m.with_field(CrossModField::Rate, value).source;
            &&& s is Lfo
            &&& s->rate == value
            &&& s->waveform == m.source->waveform
            &&& s->phase == m.source->phase
        }),
        m.with_field(CrossModField::Attack, value) == m,
        m.with_field(CrossModField::Decay, value) == m,
        m.with_field(CrossModField::Sustain, value) == m,
        m.with_field(CrossModField::Release, value) == m,
{
}

/// Setting a field of the source leaves targets, sample rate and output alone; setting a depth
/// changes the depth of that one target and nothing else.
pub proof fn fields_do_not_touch_targets<F>(m: ModulatorView<F>, field: CrossModField, value: F, k: int)
    requires
        0 <= k < m.targets.len(),
    ensures
        ({
            let n = m.with_field(field, value);
            &&& n.sample_rate == m.sample_rate
            &&& n.last_output == m.last_output
            &&& n.targets.len() == m.targets.len()
            &&& n.targets[k].kind == m.targets[k].kind
            &&& n.targets[k].base_value == m.targets[k].base_value
            &&& n.targets[k].param_min == m.targets[k].param_min
            &&& n.targets[k].param_max == m.targets[k].param_max
            &&& n.targets[k].depth == if field == CrossModField::Depth(k as usize) && k <= usize::MAX {
                value
            } else {
                m.targets[k].depth
            }
            &&& field is Depth ==> n.source == m.source
        }),
{
}

/// Each kind of target names the sibling and the field that it drives; a plugin parameter names
/// none.
pub proof fn kinds_name_what_they_drive(i: usize, ti: usize, pi: u32)
    ensures
        (ModTargetKind::ModulatorRate { mod_index: i }).cross() == Some((i, CrossModField::Rate)),
        (ModTargetKind::ModulatorAttack { mod_index: i }).cross() == Some((i, CrossModField::Attack)),
        (ModTargetKind::ModulatorDecay { mod_index: i }).cross() == Some((i, CrossModField::Decay)),
        (ModTargetKind::ModulatorSustain { mod_index: i }).cross() == Some((i, CrossModField::Sustain)),
        (ModTargetKind::ModulatorRelease { mod_index: i }).cross() == Some((i, CrossModField::Release)),
        (ModTargetKind::ModulatorDepth { mod_index: i, target_index: ti }).cross() == Some(
            (i, CrossModField::Depth(ti)),
        ),
        (ModTargetKind::PluginParam { param_index: pi }).cross() is None,
{
}

/// Two kinds of target that drive the same field of the same sibling are the same.
pub proof fn driven_fields_tell_kinds_apart(a: ModTargetKind, b: ModTargetKind)
    requires
        a.cross() is Some,
        a.cross() == b.cross(),
    ensures
        a == b,
{
}

// ---------------------------------------------------------------------------
// What the user sets
// ---------------------------------------------------------------------------

/// After an envelope was set to four values its attack, decay, sustain and release are those, in
/// that order, and the stage it is in is not disturbed. Every target that drives one of the four
/// starts from the new value of that one, whichever modulator it belongs to; all other sources and
/// targets stay as they were.
pub proof fn set_envelopes_hold<F>(
    mods: Seq<ModulatorView<F>>,
    index: usize,
    attack: F,
    decay: F,
    sustain: F,
    release: F,
)
    requires
        index < mods.len(),
        mods[index as int].source is Envelope,
    ensures
        ({
            let after = envelope_set(mods, index, attack, decay, sustain, release);
            let old_source = mods[index as int].source;
            let source = after[index as int].source;
            &&& after.len() == mods.len()
            &&& source is Envelope
            &&& source->attack == attack
            &&& source->decay == decay
            &&& source->sustain == sustain
            &&& source->release == release
            &&& source->state == old_source->state
            &&& source->level == old_source->level
            &&& source->notes_held == old_source->notes_held
            &&& forall|i: int| 0 <= i < mods.len() && i != index ==> (#[trigger] after[i]).source == mods[i].source
            &&& forall|i: int|
                0 <= i < mods.len() ==> (#[trigger] after[i]).targets.len() == mods[i].targets.len()
                    && after[i].sample_rate == mods[i].sample_rate && after[i].last_output == mods[i].last_output
            &&& forall|i: int, k: int|
                0 <= i < mods.len() && 0 <= k < mods[i].targets.len() ==> {
                    let old_target = mods[i].targets[k];
                    let target = #[trigger] after[i].targets[k];
                    &&& target.kind == old_target.kind
                    &&& target.depth == old_target.depth
                    &&& target.param_min == old_target.param_min
                    &&& target.param_max == old_target.param_max
                    &&& target.base_value == match old_target.kind {
                        ModTargetKind::ModulatorAttack { mod_index } if mod_index == index => attack,
                        ModTargetKind::ModulatorDecay { mod_index } if mod_index == index => decay,
                        ModTargetKind::ModulatorSustain { mod_index } if mod_index == index => sustain,
                        ModTargetKind::ModulatorRelease { mod_index } if mod_index == index => release,
                        _ => old_target.base_value,
                    }
                }
        }),
{
}

/// After the rate of an LFO was set it runs at that rate, in the same shape and from the same
/// phase, and every target that drives the rate starts from it. Nothing else changes.
pub proof fn set_rates_hold_and_rebase<F>(mods: Seq<ModulatorView<F>>, index: usize, rate: F)
    requires
        index < mods.len(),
        mods[index as int].source is Lfo,
    ensures
        ({
            let after = rate_set(mods, index, rate);
            let source = after[index as int].source;
            &&& after.len() == mods.len()
            &&& source is Lfo
            &&& source->rate == rate
            &&& source->waveform == mods[index as int].source->waveform
            &&& source->phase == mods[index as int].source->phase
            &&& forall|i: int| 0 <= i < mods.len() && i != index ==> (#[trigger] after[i]).source == mods[i].source
            &&& forall|i: int|
                0 <= i < mods.len() ==> (#[trigger] after[i]).targets.len() == mods[i].targets.len()
                    && after[i].sample_rate == mods[i].sample_rate && after[i].last_output == mods[i].last_output
            &&& forall|i: int, k: int|
                0 <= i < mods.len() && 0 <= k < mods[i].targets.len() ==> {
                    let old_target = mods[i].targets[k];
                    let target = #[trigger] after[i].targets[k];
                    &&& target.kind == old_target.kind
                    &&& target.depth == old_target.depth
                    &&& target.param_min == old_target.param_min
                    &&& target.param_max == old_target.param_max
                    &&& target.base_value == if old_target.kind == (ModTargetKind::ModulatorRate {
                        mod_index: index,
                    }) {
                        rate
                    } else {
                        old_target.base_value
                    }
                }
        }),
{
}

/// After a plugin parameter was set, every target that drives it swings around the new value;
/// sources and other targets stay.
pub proof fn set_parameters_rebase<F>(mods: Seq<ModulatorView<F>>, param_index: u32, value: F)
    ensures
        ({
            let after = param_base_updated(mods, param_index, value);
            &&& after.len() == mods.len()
            &&& forall|i: int|
                0 <= i < mods.len() ==> (#[trigger] after[i]).source == mods[i].source
                    && after[i].targets.len() == mods[i].targets.len()
                    && after[i].sample_rate == mods[i].sample_rate && after[i].last_output == mods[i].last_output
            &&& forall|i: int, k: int|
                0 <= i < mods.len() && 0 <= k < mods[i].targets.len() ==> {
                    let old_target = mods[i].targets[k];
                    let target = #[trigger] after[i].targets[k];
                    &&& target.kind == old_target.kind
                    &&& target.depth == old_target.depth
                    &&& target.param_min == old_target.param_min
                    &&& target.param_max == old_target.param_max
                    &&& target.base_value == if old_target.kind == (ModTargetKind::PluginParam { param_index }) {
                        value
                    } else {
                        old_target.base_value
                    }
                }
        }),
{
}

/// Another waveform changes the shape of an LFO alone; an envelope has none.
pub proof fn set_waveforms_hold<F>(m: ModulatorView<F>, w: LfoWaveform)
    ensures
        m.source is Lfo ==> {
            let s = m.with_waveform(w).source;
            s is Lfo && s->waveform == w && s->rate == m.source->rate && s->phase == m.source->phase
        },
        m.source is Envelope ==> m.with_waveform(w) == m,
        m.with_waveform(w).targets == m.targets,
        m.with_waveform(w).sample_rate == m.sample_rate,
        m.with_waveform(w).last_output == m.last_output,
{
}

/// Taking a target away leaves the others in order; a target that is not there takes nothing away.
pub proof fn removed_targets_are_gone<F>(m: ModulatorView<F>, index: usize)
    ensures
        m.without_target(index).source == m.source,
        m.without_target(index).sample_rate == m.sample_rate,
        m.without_target(index).last_output == m.last_output,
        index < m.targets.len() ==> {
            let left = m.without_target(index).targets;
            &&& left.len() == m.targets.len() - 1
            &&& forall|k: int| 0 <= k < index ==> #[trigger] left[k] == m.targets[k]
            &&& forall|k: int| index <= k < left.len() ==> #[trigger] left[k] == m.targets[k + 1]
        },
        index >= m.targets.len() ==> m.without_target(index) == m,
{
}

// ---------------------------------------------------------------------------
// Removal
// ---------------------------------------------------------------------------

proof fn lemma_targets_after_remove<F>(
    targets: Seq<ModTarget<F>>,
    removed: usize,
    keep: spec_fn(ModTarget<F>) -> bool,
)
    requires
        forall|t: ModTarget<F>|
            #[trigger] keep(t) <==> (t.kind.cross() is None || (t.kind.cross()->0).0 != removed),
    ensures
        ({
            let after = targets_after_remove(targets, removed);
            let kept = targets.filter(keep);
            &&& after.len() == kept.len()
            &&& forall|k: int|
                0 <= k < kept.len() ==> {
                    let t = #[trigger] after[k];
                    &&& t.depth == kept[k].depth
                    &&& t.base_value == kept[k].base_value
                    &&& t.param_min == kept[k].param_min
                    &&& t.param_max == kept[k].param_max
                    &&& t.kind == kind_after_remove(kept[k].kind, removed)
                }
        }),
    decreases targets.len(),
{
    reveal(Seq::filter);
    if targets.len() > 0 {
        let front = targets.drop_last();
        let last = targets.last();
        lemma_targets_after_remove(front, removed, keep);
        assert(keep(last) <==> (last.kind.cross() is None || (last.kind.cross()->0).0 != removed));
        let before = targets_after_remove(front, removed);
        let after = targets_after_remove(targets, removed);
        let kept = targets.filter(keep);
        assert forall|k: int| 0 <= k < kept.len() implies {
            let t = #[trigger] after[k];
            &&& t.depth == kept[k].depth
            &&& t.base_value == kept[k].base_value
            &&& t.param_min == kept[k].param_min
            &&& t.param_max == kept[k].param_max
            &&& t.kind == kind_after_remove(kept[k].kind, removed)
        } by {
            if k < before.len() {
                assert(after[k] == before[k]);
                assert(kept[k] == front.filter(keep)[k]);
            }
        }
    }
}

/// Removing a modulator takes out that one and the targets that drove it, nothing else. Every
/// other target keeps its field, depth, base value and range; one that drove a later modulator
/// now names the place before.
pub proof fn removal_drops_only_what_drove_the_removed<F>(mods: Seq<ModulatorView<F>>, index: usize, i: int)
    requires
        index < mods.len(),
        0 <= i < mods.len() - 1,
    ensures
        ({
            let m = mods[if i < index {
                i
            } else {
                i + 1
            }];
            let after = modulators_after_remove(mods, index)[i];
            let kept = m.targets.filter(
                |t: ModTarget<F>| t.kind.cross() is None || (t.kind.cross()->0).0 != index,
            );
            &&& modulators_after_remove(mods, index).len() == mods.len() - 1
            &&& after.source == m.source
            &&& after.sample_rate == m.sample_rate
            &&& after.last_output == m.last_output
            &&& after.targets.len() == kept.len()
            &&& forall|k: int|
                0 <= k < kept.len() ==> {
                    let t = #[trigger] after.targets[k];
                    &&& t.depth == kept[k].depth
                    &&& t.base_value == kept[k].base_value
                    &&& t.param_min == kept[k].param_min
                    &&& t.param_max == kept[k].param_max
                    &&& match kept[k].kind.cross() {
                        None => t.kind == kept[k].kind,
                        Some((sibling, field)) => t.kind.cross() == Some(
                            (
                                if sibling > index {
                                    (sibling - 1) as usize
                                } else {
                                    sibling
                                },
                                field,
                            ),
                        ),
                    }
                }
        }),
{
    let m = mods[if i < index {
        i
    } else {
        i + 1
    }];
    let keep = |t: ModTarget<F>| t.kind.cross() is None || (t.kind.cross()->0).0 != index;
    lemma_targets_after_remove(m.targets, index, keep);
}

// ---------------------------------------------------------------------------
// Cross-modulation
// ---------------------------------------------------------------------------

proof fn lemma_targets_make_routes<F>(source: usize, targets: Seq<ModTarget<F>>, count: int, j: int)
    requires
        0 <= j < count <= targets.len(),
        targets.len() <= usize::MAX,
        targets[j].kind.cross() is Some,
        (targets[j].kind.cross()->0).0 != source,
    ensures
        routes_of_targets(source, targets, count).contains(
            CrossRoute {
                source,
                target: j as usize,
                sibling: (targets[j].kind.cross()->0).0,
                field: (targets[j].kind.cross()->0).1,
            },
        ),
    decreases count,
{
    let route = CrossRoute {
        source,
        target: j as usize,
        sibling: (targets[j].kind.cross()->0).0,
        field: (targets[j].kind.cross()->0).1,
    };
    let all = routes_of_targets(source, targets, count);
    let rest = routes_of_targets(source, targets, count - 1);
    if j == count - 1 {
        assert(all[all.len() - 1] == route);
    } else {
        lemma_targets_make_routes(source, targets, count - 1, j);
        let k = choose|k: int| 0 <= k < rest.len() && rest[k] == route;
        assert(all[k] == route);
    }
}

proof fn lemma_modulators_make_routes<F>(mods: Seq<ModulatorView<F>>, count: int, i: int, j: int)
    requires
        0 <= i < count <= mods.len(),
        mods.len() <= usize::MAX,
        0 <= j < mods[i].targets.len() <= usize::MAX,
        mods[i].targets[j].kind.cross() is Some,
        (mods[i].targets[j].kind.cross()->0).0 != i,
    ensures
        cross_routes(mods, count).contains(
            CrossRoute {
                source: i as usize,
                target: j as usize,
                sibling: (mods[i].targets[j].kind.cross()->0).0,
                field: (mods[i].targets[j].kind.cross()->0).1,
            },
        ),
    decreases count,
{
    let route = CrossRoute {
        source: i as usize,
        target: j as usize,
        sibling: (mods[i].targets[j].kind.cross()->0).0,
        field: (mods[i].targets[j].kind.cross()->0).1,
    };
    let a = cross_routes(mods, count - 1);
    let targets = mods[count - 1].targets;
    let b = routes_of_targets((count - 1) as usize, targets, targets.len() as int);
    if i == count - 1 {
        lemma_targets_make_routes(i as usize, targets, targets.len() as int, j);
        let k = choose|k: int| 0 <= k < b.len() && b[k] == route;
        assert((a + b)[a.len() + k] == route);
    } else {
        lemma_modulators_make_routes(mods, count - 1, i, j);
        let k = choose|k: int| 0 <= k < a.len() && a[k] == route;
        assert((a + b)[k] == route);
    }
}

/// Every target that drives a field of another modulator makes a route to that field.
pub proof fn every_cross_target_has_a_route<F>(mods: Seq<ModulatorView<F>>, i: int, j: int)
    requires
        mods.len() <= usize::MAX,
        0 <= i < mods.len(),
        0 <= j < mods[i].targets.len() <= usize::MAX,
        mods[i].targets[j].kind.cross() is Some,
        (mods[i].targets[j].kind.cross()->0).0 != i,
    ensures
        cross_routes(mods, mods.len() as int).contains(
            CrossRoute {
                source: i as usize,
                target: j as usize,
                sibling: (mods[i].targets[j].kind.cross()->0).0,
                field: (mods[i].targets[j].kind.cross()->0).1,
            },
        ),
{
    lemma_modulators_make_routes(mods, mods.len() as int, i, j);
}

proof fn lemma_target_routes_in_order<F>(source: usize, targets: Seq<ModTarget<F>>, count: int)
    requires
        0 <= count <= targets.len(),
        targets.len() <= usize::MAX,
    ensures
        ({
            let routes = routes_of_targets(source, targets, count);
            &&& forall|k: int| 0 <= k < routes.len() ==> (#[trigger] routes[k]).target < count && routes[k].source == source
            &&& forall|a: int, b: int|
                0 <= a < b < routes.len() ==> (#[trigger] routes[a]).target < (#[trigger] routes[b]).target
        }),
    decreases count,
{
    if count > 0 {
        lemma_target_routes_in_order(source, targets, count - 1);
    }
}

proof fn lemma_routes_in_order<F>(mods: Seq<ModulatorView<F>>, count: int)
    requires
        0 <= count <= mods.len(),
        mods.len() <= usize::MAX,
        forall|i: int| 0 <= i < mods.len() ==> (#[trigger] mods[i]).targets.len() <= usize::MAX,
    ensures
        ({
            let routes = cross_routes(mods, count);
            &&& forall|k: int| 0 <= k < routes.len() ==> (#[trigger] routes[k]).source < count
            &&& forall|a: int, b: int|
                0 <= a < b < routes.len() ==> (#[trigger] routes[a]).source < (#[trigger] routes[b]).source || (
                routes[a].source == routes[b].source && routes[a].target < routes[b].target)
        }),
    decreases count,
{
    if count > 0 {
        lemma_routes_in_order(mods, count - 1);
        let targets = mods[count - 1].targets;
        lemma_target_routes_in_order((count - 1) as usize, targets, targets.len() as int);
        let x = cross_routes(mods, count - 1);
        let y = routes_of_targets((count - 1) as usize, targets, targets.len() as int);
        let routes = cross_routes(mods, count);
        assert forall|k: int| 0 <= k < routes.len() implies (#[trigger] routes[k]).source < count by {
            if k >= x.len() {
                assert(routes[k] == y[k - x.len()]);
            }
        }
        assert forall|a: int, b: int| 0 <= a < b < routes.len() implies (#[trigger] routes[a]).source < (
        #[trigger] routes[b]).source || (routes[a].source == routes[b].source && routes[a].target
            < routes[b].target) by {
            if a >= x.len() {
                assert(routes[a] == y[a - x.len()]);
                assert(routes[b] == y[b - x.len()]);
            } else if b >= x.len() {
                assert(routes[a] == x[a]);
                assert(routes[b] == y[b - x.len()]);
            }
        }
    }
}

/// Routes stand in the order of their modulators and, within one, of its targets; so no target has
/// two.
pub proof fn routes_are_in_order<F>(mods: Seq<ModulatorView<F>>, a: int, b: int)
    requires
        mods.len() <= usize::MAX,
        forall|i: int| 0 <= i < mods.len() ==> (#[trigger] mods[i]).targets.len() <= usize::MAX,
        0 <= a < b < cross_routes(mods, mods.len() as int).len(),
    ensures
        ({
            let routes = cross_routes(mods, mods.len() as int);
            routes[a].source < routes[b].source || (routes[a].source == routes[b].source && routes[a].target
                < routes[b].target)
        }),
{
    lemma_routes_in_order(mods, mods.len() as int);
}

proof fn lemma_applying_keeps_shape<F>(
    mods: Seq<ModulatorView<F>>,
    routes: Seq<CrossRoute>,
    values: Seq<F>,
    count: int,
)
    requires
        0 <= count <= routes.len(),
    ensures
        ({
            let after = cross_applied(mods, routes, values, count);
            &&& after.len() == mods.len()
            &&& forall|i: int|
                0 <= i < mods.len() ==> {
                    &&& (#[trigger] after[i]).source is Lfo <==> mods[i].source is Lfo
                    &&& after[i].targets.len() == mods[i].targets.len()
                    &&& after[i].sample_rate == mods[i].sample_rate
                    &&& after[i].last_output == mods[i].last_output
                }
        }),
    decreases count,
{
    if count > 0 {
        lemma_applying_keeps_shape(mods, routes, values, count - 1);
    }
}

/// Cross-modulation writes each value into the field that its route names: the last route to a
/// field decides what the field holds afterwards.
pub proof fn cross_modulation_reaches_its_fields<F>(
    mods: Seq<ModulatorView<F>>,
    routes: Seq<CrossRoute>,
    values: Seq<F>,
    count: int,
    k: int,
)
    requires
        0 <= k < count <= routes.len(),
        routes.len() == values.len(),
        routes[k].sibling < mods.len(),
        forall|j: int|
            k < j < count ==> !((#[trigger] routes[j]).sibling == routes[k].sibling && routes[j].field
                == routes[k].field),
    ensures
        ({
            let m = mods[routes[k].sibling as int];
            let after = cross_applied(mods, routes, values, count)[routes[k].sibling as int];
            match routes[k].field {
                CrossModField::Rate => m.source is Lfo ==> after.source is Lfo && after.source->rate == values[k],
                CrossModField::Attack => m.source is Envelope ==> after.source is Envelope && after.source->attack
                    == values[k],
                CrossModField::Decay => m.source is Envelope ==> after.source is Envelope && after.source->decay
                    == values[k],
                CrossModField::Sustain => m.source is Envelope ==> after.source is Envelope && after.source->sustain
                    == values[k],
                CrossModField::Release => m.source is Envelope ==> after.source is Envelope && after.source->release
                    == values[k],
                CrossModField::Depth(ti) => ti < m.targets.len() ==> after.targets[ti as int].depth == values[k],
            }
        }),
    decreases count,
{
    lemma_applying_keeps_shape(mods, routes, values, count);
    lemma_applying_keeps_shape(mods, routes, values, count - 1);
    if count > k + 1 {
        cross_modulation_reaches_its_fields(mods, routes, values, count - 1, k);
        let last = routes[count - 1];
        assert(!(last.sibling == routes[k].sibling && last.field == routes[k].field));
    }
}

/// A field that no route leads to keeps its value through cross-modulation, and so does everything
/// that is no field: waveforms, phases, stages, levels, wiring and ranges.
pub proof fn unrouted_fields_are_untouched<F>(
    mods: Seq<ModulatorView<F>>,
    routes: Seq<CrossRoute>,
    values: Seq<F>,
    count: int,
    i: usize,
)
    requires
        0 <= count <= routes.len(),
        i < mods.len(),
    ensures
        ({
            let m = mods[i as int];
            let after = cross_applied(mods, routes, values, count)[i as int];
            let routed = |field: CrossModField|
                exists|k: int|
                    0 <= k < count && (#[trigger] routes[k]).sibling == i && routes[k].field == field;
            &&& m.source is Lfo ==> {
                &&& after.source is Lfo
                &&& after.source->waveform == m.source->waveform
                &&& after.source->phase == m.source->phase
                &&& !routed(CrossModField::Rate) ==> after.source->rate == m.source->rate
            }
            &&& m.source is Envelope ==> {
                &&& after.source is Envelope
                &&& after.source->state == m.source->state
                &&& after.source->level == m.source->level
                &&& after.source->notes_held == m.source->notes_held
                &&& !routed(CrossModField::Attack) ==> after.source->attack == m.source->attack
                &&& !routed(CrossModField::Decay) ==> after.source->decay == m.source->decay
                &&& !routed(CrossModField::Sustain) ==> after.source->sustain == m.source->sustain
                &&& !routed(CrossModField::Release) ==> after.source->release == m.source->release
            }
            &&& after.targets.len() == m.targets.len()
            &&& forall|t: int|
                0 <= t < m.targets.len() ==> {
                    let target = #[trigger] after.targets[t];
                    &&& target.kind == m.targets[t].kind
                    &&& target.base_value == m.targets[t].base_value
                    &&& target.param_min == m.targets[t].param_min
                    &&& target.param_max == m.targets[t].param_max
                    &&& t <= usize::MAX && !routed(CrossModField::Depth(t as usize)) ==> target.depth
                        == m.targets[t].depth
                }
        }),
    decreases count,
{
    if count > 0 {
        unrouted_fields_are_untouched(mods, routes, values, count - 1, i);
        lemma_applying_keeps_shape(mods, routes, values, count - 1);
        let last = routes[count - 1];
        let before_routed = |field: CrossModField|
            exists|k: int|
                0 <= k < count - 1 && (#[trigger] routes[k]).sibling == i && routes[k].field == field;
        let routed = |field: CrossModField|
            exists|k: int| 0 <= k < count && (#[trigger] routes[k]).sibling == i && routes[k].field == field;
        assert forall|field: CrossModField| #[trigger] before_routed(field) implies routed(field) by {
            let k = choose|k: int|
                0 <= k < count - 1 && (#[trigger] routes[k]).sibling == i && routes[k].field == field;
            assert(routes[k].sibling == i);
        }
        if last.sibling == i {
            assert(routed(last.field)) by {
                assert(routes[count - 1].sibling == i);
            }
        }
        let m = mods[i as int];
        let before = cross_applied(mods, routes, values, count - 1)[i as int];
        let after = cross_applied(mods, routes, values, count)[i as int];
        assert forall|t: int| 0 <= t < m.targets.len() implies {
            let target = #[trigger] after.targets[t];
            &&& target.kind == m.targets[t].kind
            &&& target.base_value == m.targets[t].base_value
            &&& target.param_min == m.targets[t].param_min
            &&& target.param_max == m.targets[t].param_max
            &&& t <= usize::MAX && !routed(CrossModField::Depth(t as usize)) ==> target.depth
                == m.targets[t].depth
        } by {
            assert(before.targets[t].kind == m.targets[t].kind);
            if t <= usize::MAX {
                assert(before_routed(CrossModField::Depth(t as usize)) ==> routed(
                    CrossModField::Depth(t as usize),
                ));
            }
        }
        assert(before_routed(CrossModField::Rate) ==> routed(CrossModField::Rate));
        assert(before_routed(CrossModField::Attack) ==> routed(CrossModField::Attack));
        assert(before_routed(CrossModField::Decay) ==> routed(CrossModField::Decay));
        assert(before_routed(CrossModField::Sustain) ==> routed(CrossModField::Sustain));
        assert(before_routed(CrossModField::Release) ==> routed(CrossModField::Release));
    }
}

// ---------------------------------------------------------------------------
// Envelopes
// ---------------------------------------------------------------------------

/// An envelope hears notes and nothing else: a note-on starts the attack and counts one note more,
/// a note-off counts one less and starts the release when none is left, and in either case the
/// stage is not disturbed by anything that is no note. An LFO hears nothing.
pub proof fn envelopes_follow_the_notes<F>(m: ModulatorView<F>, event: MidiEvent)
    ensures
        ({
            let after = m.gated(seq![event]);
            let bytes = event.1;
            &&& m.source is Lfo ==> after == m
            &&& m.source is Envelope ==> {
                let s = m.source;
                let t = after.source;
                &&& t is Envelope
                &&& t->attack == s->attack && t->decay == s->decay && t->sustain == s->sustain && t->release
                    == s->release && t->level == s->level
                &&& after.targets == m.targets && after.sample_rate == m.sample_rate && after.last_output
                    == m.last_output
                &&& if 0x90 <= bytes[0] <= 0x9F && bytes[2] > 0 {
                    &&& t->state == EnvState::Attack
                    &&& s->notes_held < u32::MAX ==> t->notes_held == s->notes_held + 1
                    &&& s->notes_held == u32::MAX ==> t->notes_held == u32::MAX
                } else if 0x80 <= bytes[0] <= 0x9F {
                    &&& s->notes_held > 0 ==> t->notes_held == s->notes_held - 1
                    &&& s->notes_held == 0 ==> t->notes_held == 0
                    &&& t->state == if s->notes_held <= 1 {
                        EnvState::Release
                    } else {
                        s->state
                    }
                } else {
                    t->state == s->state && t->notes_held == s->notes_held
                }
            }
        }),
{
    kinds_are_status_ranges(event.1);
    assert(seq![event].drop_last() =~= Seq::<MidiEvent>::empty());
    reveal_with_fuel(gate_after, 2);
}

proof fn lemma_gate_in_parts(gate: (EnvState, u32), a: Seq<MidiEvent>, b: Seq<MidiEvent>)
    ensures
        gate_after(gate, a + b) == gate_after(gate_after(gate, a), b),
    decreases b.len(),
{
    if b.len() == 0 {
        assert(a + b =~= a);
    } else {
        lemma_gate_in_parts(gate, a, b.drop_last());
        assert((a + b).drop_last() =~= a + b.drop_last());
        assert((a + b).last() == b.last());
    }
}

/// Hearing events in one buffer or in two, one after the other, comes to the same.
pub proof fn envelopes_hear_in_order<F>(m: ModulatorView<F>, a: Seq<MidiEvent>, b: Seq<MidiEvent>)
    ensures
        m.gated(Seq::empty()) == m,
        m.gated(a + b) == m.gated(a).gated(b),
{
    match m.source {
        ModSource::Envelope { state, notes_held, .. } => {
            lemma_gate_in_parts((state, notes_held), a, b);
        },
        _ => {},
    }
}

/// The stages of an envelope follow each other as they are completed: attack, decay, sustain, and
/// from the release to rest. Sustain and rest end by themselves never, and no stage ends before it
/// is completed.
pub proof fn stages_follow_each_other(state: EnvState)
    ensures
        EnvState::Attack.advanced(true) == EnvState::Decay,
        EnvState::Attack.advanced(true).advanced(true) == EnvState::Sustain,
        EnvState::Sustain.advanced(true) == EnvState::Sustain,
        EnvState::Release.advanced(true) == EnvState::Idle,
        EnvState::Idle.advanced(true) == EnvState::Idle,
        state.advanced(false) == state,
{
}

// ---------------------------------------------------------------------------
// Waveforms
// ---------------------------------------------------------------------------

/// Waveforms are found again by their place, and stand in the order sine, triangle, saw, square.
pub proof fn waveforms_have_their_places(w: LfoWaveform)
    ensures
        LfoWaveform::at(w.index()) == w,
        0 <= w.index() < 4,
        LfoWaveform::Sine.index() < LfoWaveform::Triangle.index(),
        LfoWaveform::Triangle.index() < LfoWaveform::Saw.index(),
        LfoWaveform::Saw.index() < LfoWaveform::Square.index(),
{
}

} // verus!
