//! Laws of sessions: what is read, started, shown and saved.
use vstd::prelude::*;

use crate::graph::GraphCommand;

use crate::modulation::{EnvState, LfoWaveform, ModTarget, ModTargetKind};
use crate::notes::parsed_note;

use crate::play::{
    effect_start, effects_start, instrument_start, keyboards_load, setup_commands, split_load, splits_load, Opened,
    OpenedInstrument, OpenedSplit,
};
use crate::plugin::ParameterInfo;
use crate::reload::target_kept;
use crate::session::{
    event_of, param_map, EffectConfig, KeyboardConfig, ModTargetConfig, ModulatorConfig, PatternConfig,
    PatternEventRaw, PluginConfig, SaveModSource, SaveModTarget, SplitConfig,
};
use crate::startup::{
    configured_source, destination, modulator_commands, overridden, override_commands, param_named, pattern_start,
    started_source, target_commands, SlotPlace,
};
use crate::tui::editor::Numbers;
use crate::tui::load::{loaded_source, open_params, paired, split_start, start_view, StartCommand};
use crate::tui::model::{graph_source, ParamSlot, SplitView};
use crate::tui::save::{changed_params, saves_source};

verus! {

// ---------------------------------------------------------------------------
// Patterns
// ---------------------------------------------------------------------------

/// An event in a file is a note-on where it says "on" and a note-off where it says "off", with the
/// frame, note and velocity that it gives; any other word is no event.
pub proof fn written_events_mean_what_they_say(e: PatternEventRaw)
    ensures
        parsed_note(e.note@) is Ok && e.status@ == "on"@ ==> event_of(e) == Some(
            (e.frame, 0x90u8, parsed_note(e.note@)->Ok_0, e.velocity),
        ),
        parsed_note(e.note@) is Ok && e.status@ == "off"@ ==> event_of(e) == Some(
            (e.frame, 0x80u8, parsed_note(e.note@)->Ok_0, e.velocity),
        ),
        e.status@ != "on"@ && e.status@ != "off"@ ==> event_of(e) is None,
        parsed_note(e.note@) is Err ==> event_of(e) is None,
{
    reveal_strlit("on");
    reveal_strlit("off");
    assert("on"@.len() != "off"@.len());
}

/// A pattern of a session starts as the session has it: every event with its frame, status, note
/// and velocity, in order, its length, base note and tempo; it is switched on if it was and told
/// not to loop if it did not.
pub proof fn patterns_start_as_configured<P, F>(p: PatternConfig<F>, kb: usize, split: usize, samples: u64)
    ensures
        ({
            let cs = pattern_start::<P, F>(p, kb, split, samples);
            let load = cs[0];
            &&& load is Load
            &&& load->Load_kb == kb && load->Load_split == split
            &&& load->samples == samples
            &&& load->base_note == p.base_note
            &&& load->events.len() == p.events@.len()
            &&& forall|i: int|
                0 <= i < p.events@.len() ==> {
                    let e = #[trigger] load->events[i];
                    e.frame == p.events@[i].0 && e.status == p.events@[i].1 && e.note == p.events@[i].2 && e.velocity
                        == p.events@[i].3
                }
            &&& cs[1] == StartCommand::Plain(GraphCommand::<P, F>::SetGlobalBpm { bpm: p.bpm })
            &&& cs[2] == StartCommand::Plain(
                GraphCommand::<P, F>::SetPatternLength { kb, split, beats: p.length_beats },
            )
            &&& cs.len() == 3 + (if p.enabled {
                1int
            } else {
                0
            }) + (if p.looping {
                0int
            } else {
                1
            })
            &&& p.enabled ==> cs[3] == StartCommand::Plain(
                GraphCommand::<P, F>::SetPatternEnabled { kb, split, enabled: true },
            )
            &&& !p.looping ==> cs[cs.len() - 1] == StartCommand::Plain(
                GraphCommand::<P, F>::SetPatternLooping { kb, split, looping: false },
            )
        }),
{
}

/// A split that is started again tells its transposition, unless it has none, and its pattern with
/// the switches that it has.
pub proof fn splits_start_as_shown<P, F>(s: SplitView<F>, kb: usize, split: usize, samples: u64)
    ensures
        ({
            let cs = split_start::<P, F>(s, kb, split, samples);
            let at = if s.transpose != 0 {
                1int
            } else {
                0
            };
            &&& s.transpose != 0 ==> cs[0] == StartCommand::Plain(
                GraphCommand::<P, F>::SetTranspose { kb, split, semitones: s.transpose },
            )
            &&& s.pattern is None ==> cs.len() == at
            &&& s.pattern is Some ==> {
                let p = s.pattern->0;
                let load = cs[at];
                &&& load is Load
                &&& load->Load_kb == kb && load->Load_split == split
                &&& load->samples == samples
                &&& load->base_note == p.base_note
                &&& load->events.len() == p.events.len()
                &&& forall|i: int|
                    0 <= i < p.events.len() ==> {
                        let e = #[trigger] load->events[i];
                        e.frame == p.events[i].0 && e.status == p.events[i].1 && e.note == p.events[i].2 && e.velocity
                            == p.events[i].3
                    }
                &&& cs[at + 1] == StartCommand::Plain(
                    GraphCommand::<P, F>::SetPatternEnabled { kb, split, enabled: p.enabled },
                )
                &&& cs.len() == at + if p.looping {
                    2int
                } else {
                    3
                }
                &&& !p.looping ==> cs[at + 2] == StartCommand::Plain(
                    GraphCommand::<P, F>::SetPatternLooping { kb, split, looping: false },
                )
            }
        }),
{
}

// ---------------------------------------------------------------------------
// Modulators
// ---------------------------------------------------------------------------

/// A modulator of a session is the source that the session gives, with attack, decay, sustain and
/// release, or waveform and rate, as they are there, and it starts at rest. A waveform that is not
/// known is a sine.
pub proof fn modulators_start_as_configured<F>(c: ModulatorConfig<F>, zero: F)
    ensures
        ({
            let s = started_source(configured_source(c), zero);
            &&& c.mod_type@ == "envelope"@ ==> {
                &&& s is Envelope
                &&& s->attack == c.attack
                &&& s->decay == c.decay
                &&& s->sustain == c.sustain
                &&& s->release == c.release
                &&& s->state == EnvState::Idle
                &&& s->level == zero
                &&& s->notes_held == 0
            }
            &&& c.mod_type@ != "envelope"@ ==> {
                &&& s is Lfo
                &&& s->rate == c.rate
                &&& s->phase == zero
                &&& LfoWaveform::named(c.waveform@) is Some ==> Some(s->waveform) == LfoWaveform::named(c.waveform@)
                &&& LfoWaveform::named(c.waveform@) is None ==> s->waveform == LfoWaveform::Sine
            }
        }),
{
}

/// What the editor shows of a modulator is what the audio graph starts with, and what is saved of it
/// is what the session gave: the way from the file to the screen and back changes no value.
pub proof fn shown_modulators_are_those_configured<F>(c: ModulatorConfig<F>, s: SaveModSource<F>, zero: F)
    requires
        saves_source(loaded_source(configured_source(c)), s),
    ensures
        graph_source(loaded_source(configured_source(c)), zero) == started_source(configured_source(c), zero),
        c.mod_type@ == "envelope"@ ==> {
            &&& s is Envelope
            &&& s->attack == c.attack
            &&& s->decay == c.decay
            &&& s->sustain == c.sustain
            &&& s->release == c.release
        },
        c.mod_type@ != "envelope"@ ==> {
            &&& s is Lfo
            &&& s->rate == c.rate
            &&& LfoWaveform::named(c.waveform@) matches Some(w) ==> s->waveform@ == w.label()
        },
{
}

/// The parameter that a name means is the first with that name.
pub proof fn names_mean_the_first_parameter<F>(params: Seq<ParameterInfo<F>>, name: Seq<char>, from: int)
    requires
        0 <= from,
    ensures
        match param_named(params, name, from) {
            Some(p) => exists|i: int|
                from <= i < params.len() && #[trigger] params[i] == p && p.name@ == name && forall|k: int|
                    from <= k < i ==> (#[trigger] params[k]).name@ != name,
            None => forall|k: int| from <= k < params.len() ==> (#[trigger] params[k]).name@ != name,
        },
    decreases params.len() - from,
{
    if from < params.len() {
        if params[from].name@ == name {
            assert(params[from] == params[from]);
        } else {
            names_mean_the_first_parameter(params, name, from + 1);
            match param_named(params, name, from) {
                Some(p) => {
                    let i = choose|i: int|
                        from + 1 <= i < params.len() && #[trigger] params[i] == p && p.name@ == name && forall|k: int|
                            from + 1 <= k < i ==> (#[trigger] params[k]).name@ != name;
                    assert(params[i] == p);
                },
                None => {},
            }
        }
    }
}

/// A modulation target that was saved drives the same thing when it is read again: the same setting
/// of the same modulator, or the parameter of that name, within the range of what it drives.
pub proof fn saved_targets_drive_the_same<F>(
    t: SaveModTarget<F>,
    c: ModTargetConfig<F>,
    params: Seq<ParameterInfo<F>>,
    n: Numbers<F>,
)
    requires
        target_kept(t, c),
    ensures
        ({
            let d = destination(c, params, n);
            match t.kind {
                ModTargetKind::PluginParam { .. } => match param_named(params, t.label@, 0) {
                    Some(p) => d is Some && d->0.kind == (ModTargetKind::PluginParam { param_index: p.index })
                        && d->0.label == p.name@ && d->0.min == p.min && d->0.max == p.max && d->0.base == p.default,
                    None => d is None,
                },
                ModTargetKind::ModulatorRate { .. } => d is Some && d->0.kind == t.kind && d->0.min == n.rate_min
                    && d->0.max == n.rate_max,
                ModTargetKind::ModulatorDepth { .. } => d is Some && d->0.kind == t.kind && d->0.min == n.zero
                    && d->0.max == n.unity,
                ModTargetKind::ModulatorAttack { .. } => d is Some && d->0.kind == t.kind && d->0.min == n.time_min
                    && d->0.max == n.time_max && d->0.base == n.attack,
                ModTargetKind::ModulatorDecay { .. } => d is Some && d->0.kind == t.kind && d->0.min == n.time_min
                    && d->0.max == n.time_max && d->0.base == n.decay,
                ModTargetKind::ModulatorSustain { .. } => d is Some && d->0.kind == t.kind && d->0.min == n.zero
                    && d->0.max == n.unity && d->0.base == n.sustain,
                ModTargetKind::ModulatorRelease { .. } => d is Some && d->0.kind == t.kind && d->0.min == n.time_min
                    && d->0.max == n.time_max && d->0.base == n.release,
            }
        }),
        c.depth == t.depth,
{
}

proof fn lemma_target_command<P, F>(
    targets: Seq<ModTargetConfig<F>>,
    params: Seq<ParameterInfo<F>>,
    n: Numbers<F>,
    at: SlotPlace,
    index: usize,
    count: int,
    j: int,
)
    requires
        0 <= j < count <= targets.len(),
        destination(targets[j], params, n) is Some,
    ensures
        ({
            let d = destination(targets[j], params, n)->0;
            target_commands::<P, F>(targets, params, n, at, index, count).contains(
                GraphCommand::AddModTarget {
                    kb: at.kb,
                    split: at.split,
                    parent_slot: at.slot,
                    mod_index: index,
                    target: ModTarget {
                        kind: d.kind,
                        depth: targets[j].depth,
                        base_value: d.base,
                        param_min: d.min,
                        param_max: d.max,
                    },
                },
            )
        }),
    decreases count,
{
    let d = destination(targets[j], params, n)->0;
    let wanted = GraphCommand::<P, F>::AddModTarget {
        kb: at.kb,
        split: at.split,
        parent_slot: at.slot,
        mod_index: index,
        target: ModTarget {
            kind: d.kind,
            depth: targets[j].depth,
            base_value: d.base,
            param_min: d.min,
            param_max: d.max,
        },
    };
    let all = target_commands::<P, F>(targets, params, n, at, index, count);
    if j == count - 1 {
        assert(all[all.len() - 1] == wanted);
    } else {
        lemma_target_command::<P, F>(targets, params, n, at, index, count - 1, j);
        let rest = target_commands::<P, F>(targets, params, n, at, index, count - 1);
        let k = choose|k: int| 0 <= k < rest.len() && rest[k] == wanted;
        assert(all[k] == wanted);
    }
}

proof fn lemma_modulator_command<P, F>(
    mods: Seq<ModulatorConfig<F>>,
    params: Seq<ParameterInfo<F>>,
    n: Numbers<F>,
    at: SlotPlace,
    count: int,
    i: int,
    command: GraphCommand<P, F>,
)
    requires
        0 <= i < count <= mods.len(),
        command == (GraphCommand::<P, F>::InsertModulator {
            kb: at.kb,
            split: at.split,
            parent_slot: at.slot,
            index: i as usize,
            source: started_source(configured_source(mods[i]), n.zero),
        }) || target_commands::<P, F>(
            mods[i].targets@,
            params,
            n,
            at,
            i as usize,
            mods[i].targets@.len() as int,
        ).contains(command),
    ensures
        modulator_commands::<P, F>(mods, params, n, at, count).contains(command),
    decreases count,
{
    let all = modulator_commands::<P, F>(mods, params, n, at, count);
    let rest = modulator_commands::<P, F>(mods, params, n, at, count - 1);
    let m = mods[count - 1];
    let targets = target_commands::<P, F>(
        m.targets@,
        params,
        n,
        at,
        (count - 1) as usize,
        m.targets@.len() as int,
    );
    if i == count - 1 {
        if targets.contains(command) {
            let k = choose|k: int| 0 <= k < targets.len() && targets[k] == command;
            assert(all[rest.len() + 1 + k] == command);
        } else {
            assert(all[rest.len() as int] == command);
        }
    } else {
        lemma_modulator_command(mods, params, n, at, count - 1, i, command);
        let k = choose|k: int| 0 <= k < rest.len() && rest[k] == command;
        assert(all[k] == command);
    }
}

/// Setting a plugin up sets every parameter that the session names to the value it gives, puts in
/// every modulator with its source, and wires every target that drives something, with its depth,
/// range and starting value, to the modulator it belongs to.
pub proof fn setup_does_all_that_is_configured<P, F>(
    params: Seq<ParameterInfo<F>>,
    overrides: Seq<(String, F)>,
    mods: Seq<ModulatorConfig<F>>,
    n: Numbers<F>,
    at: SlotPlace,
    k: int,
    i: int,
    j: int,
)
    ensures
        0 <= k < overrides.len() ==> (param_named(params, overrides[k].0@, 0) matches Some(p) ==> setup_commands::<
            P,
            F,
        >(params, overrides, mods, n, at).contains(
            GraphCommand::SetParameter {
                kb: at.kb,
                split: at.split,
                slot: at.slot,
                param_index: p.index,
                value: overrides[k].1,
            },
        )),
        0 <= i < mods.len() ==> setup_commands::<P, F>(params, overrides, mods, n, at).contains(
            GraphCommand::InsertModulator {
                kb: at.kb,
                split: at.split,
                parent_slot: at.slot,
                index: i as usize,
                source: started_source(configured_source(mods[i]), n.zero),
            },
        ),
        0 <= i < mods.len() && 0 <= j < mods[i].targets@.len() ==> (destination(mods[i].targets@[j], params, n) matches Some(
            d,
        ) ==> setup_commands::<P, F>(params, overrides, mods, n, at).contains(
            GraphCommand::AddModTarget {
                kb: at.kb,
                split: at.split,
                parent_slot: at.slot,
                mod_index: i as usize,
                target: ModTarget {
                    kind: d.kind,
                    depth: mods[i].targets@[j].depth,
                    base_value: d.base,
                    param_min: d.min,
                    param_max: d.max,
                },
            },
        )),
{
    let a = override_commands::<P, F>(params, overrides, at.kb, at.split, at.slot, overrides.len() as int);
    let b = modulator_commands::<P, F>(mods, params, n, at, mods.len() as int);
    let all = setup_commands::<P, F>(params, overrides, mods, n, at);
    if 0 <= k < overrides.len() {
        if let Some(p) = param_named(params, overrides[k].0@, 0) {
            lemma_override_command::<P, F>(params, overrides, at.kb, at.split, at.slot, overrides.len() as int, k);
            let wanted = GraphCommand::<P, F>::SetParameter {
                kb: at.kb,
                split: at.split,
                slot: at.slot,
                param_index: p.index,
                value: overrides[k].1,
            };
            let q = choose|q: int| 0 <= q < a.len() && a[q] == wanted;
            assert(all[q] == wanted);
        }
    }
    if 0 <= i < mods.len() {
        let wanted = GraphCommand::<P, F>::InsertModulator {
            kb: at.kb,
            split: at.split,
            parent_slot: at.slot,
            index: i as usize,
            source: started_source(configured_source(mods[i]), n.zero),
        };
        lemma_modulator_command(mods, params, n, at, mods.len() as int, i, wanted);
        let q = choose|q: int| 0 <= q < b.len() && b[q] == wanted;
        assert(all[a.len() + q] == wanted);
        if 0 <= j < mods[i].targets@.len() {
            if let Some(d) = destination(mods[i].targets@[j], params, n) {
                let wired = GraphCommand::<P, F>::AddModTarget {
                    kb: at.kb,
                    split: at.split,
                    parent_slot: at.slot,
                    mod_index: i as usize,
                    target: ModTarget {
                        kind: d.kind,
                        depth: mods[i].targets@[j].depth,
                        base_value: d.base,
                        param_min: d.min,
                        param_max: d.max,
                    },
                };
                lemma_target_command::<P, F>(
                    mods[i].targets@,
                    params,
                    n,
                    at,
                    i as usize,
                    mods[i].targets@.len() as int,
                    j,
                );
                lemma_modulator_command(mods, params, n, at, mods.len() as int, i, wired);
                let r = choose|r: int| 0 <= r < b.len() && b[r] == wired;
                assert(all[a.len() + r] == wired);
            }
        }
    }
}

proof fn lemma_override_command<P, F>(
    params: Seq<ParameterInfo<F>>,
    overrides: Seq<(String, F)>,
    kb: usize,
    split: usize,
    slot: usize,
    count: int,
    k: int,
)
    requires
        0 <= k < count <= overrides.len(),
        param_named(params, overrides[k].0@, 0) is Some,
    ensures
        override_commands::<P, F>(params, overrides, kb, split, slot, count).contains(
            GraphCommand::SetParameter {
                kb,
                split,
                slot,
                param_index: param_named(params, overrides[k].0@, 0)->0.index,
                value: overrides[k].1,
            },
        ),
    decreases count,
{
    let wanted = GraphCommand::<P, F>::SetParameter {
        kb,
        split,
        slot,
        param_index: param_named(params, overrides[k].0@, 0)->0.index,
        value: overrides[k].1,
    };
    let all = override_commands::<P, F>(params, overrides, kb, split, slot, count);
    if k == count - 1 {
        assert(all[all.len() - 1] == wanted);
    } else {
        lemma_override_command::<P, F>(params, overrides, kb, split, slot, count - 1, k);
        let rest = override_commands::<P, F>(params, overrides, kb, split, slot, count - 1);
        let q = choose|q: int| 0 <= q < rest.len() && rest[q] == wanted;
        assert(all[q] == wanted);
    }
}

/// A parameter that a session names has the value of the last override that names it, shown as it
/// is sent.
pub proof fn named_parameters_have_their_values<F>(
    params: Seq<ParameterInfo<F>>,
    overrides: Seq<(String, F)>,
    count: int,
    k: int,
)
    requires
        0 <= k < count <= overrides.len(),
        param_named(params, overrides[k].0@, 0) is Some,
        param_named(params, overrides[k].0@, 0)->0.index < params.len(),
        forall|j: int|
            k < j < count ==> (param_named(params, (#[trigger] overrides[j]).0@, 0) matches Some(p) ==> p.index
                != param_named(params, overrides[k].0@, 0)->0.index),
    ensures
        overridden(params, overrides, count).len() == params.len(),
        overridden(params, overrides, count)[param_named(params, overrides[k].0@, 0)->0.index as int]
            == overrides[k].1,
    decreases count,
{
    lemma_values_per_parameter(params, overrides, count - 1);
    if k < count - 1 {
        named_parameters_have_their_values(params, overrides, count - 1, k);
        assert(param_named(params, overrides[count - 1].0@, 0) matches Some(p) ==> p.index != param_named(
            params,
            overrides[k].0@,
            0,
        )->0.index);
    }
}

proof fn lemma_values_per_parameter<F>(params: Seq<ParameterInfo<F>>, overrides: Seq<(String, F)>, count: int)
    ensures
        overridden(params, overrides, count).len() == params.len(),
    decreases count,
{
    if count > 0 {
        lemma_values_per_parameter(params, overrides, count - 1);
    }
}

// ---------------------------------------------------------------------------
// Parameters shown and saved
// ---------------------------------------------------------------------------

proof fn lemma_open_params<F>(
    params: Seq<ParameterInfo<F>>,
    values: Seq<F>,
    count: int,
    keep: spec_fn(ParameterInfo<F>) -> bool,
)
    requires
        0 <= count <= params.len(),
        count <= values.len(),
        forall|p: ParameterInfo<F>| #[trigger] keep(p) <==> !"(locked)"@.is_prefix_of(p.name@),
    ensures
        ({
            let shown = open_params(params, values, count);
            let kept = params.take(count).filter(keep);
            &&& shown.len() == kept.len()
            &&& forall|i: int|
                0 <= i < kept.len() ==> {
                    let s = #[trigger] shown[i];
                    s.name == kept[i].name && s.index == kept[i].index && s.min == kept[i].min && s.max == kept[i].max
                        && s.default == kept[i].default
                }
            &&& forall|i: int|
                0 <= i < shown.len() ==> exists|k: int|
                    0 <= k < count && params[k].name == (#[trigger] shown[i]).name && #[trigger] values[k]
                        == shown[i].value && params[k].index == shown[i].index
        }),
    decreases count,
{
    reveal(Seq::filter);
    if count > 0 {
        lemma_open_params(params, values, count - 1, keep);
        let p = params[count - 1];
        assert(keep(p) <==> !"(locked)"@.is_prefix_of(p.name@));
        assert(params.take(count).drop_last() =~= params.take(count - 1));
        let before = open_params(params, values, count - 1);
        let shown = open_params(params, values, count);
        let kept = params.take(count).filter(keep);
        let kept_before = params.take(count - 1).filter(keep);
        assert forall|i: int| 0 <= i < kept.len() implies {
            let s = #[trigger] shown[i];
            s.name == kept[i].name && s.index == kept[i].index && s.min == kept[i].min && s.max == kept[i].max
                && s.default == kept[i].default
        } by {
            if i < before.len() {
                assert(shown[i] == before[i]);
                assert(kept[i] == kept_before[i]);
            }
        }
        assert forall|i: int| 0 <= i < shown.len() implies exists|k: int|
            0 <= k < count && params[k].name == (#[trigger] shown[i]).name && #[trigger] values[k] == shown[i].value
                && params[k].index == shown[i].index by {
            if i < before.len() {
                assert(shown[i] == before[i]);
                let k = choose|k: int|
                    0 <= k < count - 1 && params[k].name == before[i].name && #[trigger] values[k] == before[i].value
                        && params[k].index == before[i].index;
                assert(values[k] == shown[i].value);
            } else {
                assert(values[count - 1] == shown[i].value);
            }
        }
    }
}

/// The parameters that are shown are those that the plugin does not lock, in order, each with the
/// value that belongs to it.
pub proof fn unlocked_parameters_are_shown<F>(params: Seq<ParameterInfo<F>>, values: Seq<F>)
    requires
        values.len() == params.len(),
    ensures
        ({
            let shown = open_params(params, values, paired(params, values));
            let kept = params.filter(|p: ParameterInfo<F>| !"(locked)"@.is_prefix_of(p.name@));
            &&& shown.len() == kept.len()
            &&& forall|i: int|
                0 <= i < kept.len() ==> {
                    let s = #[trigger] shown[i];
                    s.name == kept[i].name && s.index == kept[i].index && s.min == kept[i].min && s.max == kept[i].max
                        && s.default == kept[i].default
                }
            &&& forall|i: int|
                0 <= i < shown.len() ==> exists|k: int|
                    0 <= k < params.len() && params[k].name == (#[trigger] shown[i]).name && #[trigger] values[k]
                        == shown[i].value && params[k].index == shown[i].index
        }),
{
    let keep = |p: ParameterInfo<F>| !"(locked)"@.is_prefix_of(p.name@);
    assert(params.take(params.len() as int) =~= params);
    lemma_open_params(params, values, params.len() as int, keep);
}

proof fn lemma_changed<F>(
    params: Seq<ParamSlot<F>>,
    f: spec_fn(F, F) -> bool,
    count: int,
    keep: spec_fn(ParamSlot<F>) -> bool,
)
    requires
        0 <= count <= params.len(),
        forall|p: ParamSlot<F>| #[trigger] keep(p) <==> f(p.value, p.default),
    ensures
        ({
            let saved = changed_params(params, f, count);
            let kept = params.take(count).filter(keep);
            &&& saved.len() == kept.len()
            &&& forall|i: int|
                0 <= i < kept.len() ==> (#[trigger] saved[i]).0 == kept[i].name && saved[i].1 == kept[i].value
        }),
    decreases count,
{
    reveal(Seq::filter);
    if count > 0 {
        lemma_changed(params, f, count - 1, keep);
        let p = params[count - 1];
        assert(keep(p) <==> f(p.value, p.default));
        assert(params.take(count).drop_last() =~= params.take(count - 1));
        let before = changed_params(params, f, count - 1);
        let saved = changed_params(params, f, count);
        let kept = params.take(count).filter(keep);
        assert forall|i: int| 0 <= i < kept.len() implies (#[trigger] saved[i]).0 == kept[i].name && saved[i].1
            == kept[i].value by {
            if i < before.len() {
                assert(saved[i] == before[i]);
                assert(kept[i] == params.take(count - 1).filter(keep)[i]);
            }
        }
    }
}

/// What is saved of a plugin's parameters is every one that was changed, by name, with the value it
/// has now, in order, and no other.
pub proof fn changed_parameters_are_saved<F>(params: Seq<ParamSlot<F>>, f: spec_fn(F, F) -> bool)
    ensures
        ({
            let saved = changed_params(params, f, params.len() as int);
            let kept = params.filter(|p: ParamSlot<F>| f(p.value, p.default));
            &&& saved.len() == kept.len()
            &&& forall|i: int|
                0 <= i < kept.len() ==> (#[trigger] saved[i]).0 == kept[i].name && saved[i].1 == kept[i].value
        }),
{
    let keep = |p: ParamSlot<F>| f(p.value, p.default);
    assert(params.take(params.len() as int) =~= params);
    lemma_changed(params, f, params.len() as int, keep);
}

/// Of several values for one name the last counts, and no name has a value that none was given.
pub proof fn last_value_of_a_name_counts<F>(params: Seq<(String, F)>, k: int)
    requires
        0 <= k < params.len(),
        forall|j: int| k < j < params.len() ==> (#[trigger] params[j]).0@ != params[k].0@,
    ensures
        param_map(params).dom().contains(params[k].0@),
        param_map(params)[params[k].0@] == params[k].1,
    decreases params.len(),
{
    let front = params.drop_last();
    if k < front.len() {
        assert(params[params.len() - 1].0@ != params[k].0@);
        assert forall|j: int| k < j < front.len() implies (#[trigger] front[j]).0@ != front[k].0@ by {
            assert(front[j] == params[j]);
        }
        last_value_of_a_name_counts(front, k);
    }
}

// ---------------------------------------------------------------------------
// Plugins and splits
// ---------------------------------------------------------------------------

/// An instrument of a session takes its place with a buffer for each of its outputs and its
/// remapping, then gets its volume where that is not the plain one, then its setup.
pub proof fn instruments_start_as_configured<P, F>(
    c: PluginConfig<F>,
    i: OpenedInstrument<P, F>,
    n: Numbers<F>,
    kb: usize,
    split: usize,
    command: GraphCommand<P, F>,
)
    ensures
        ({
            let cs = instrument_start(c, i, n, kb, split);
            let setup = setup_commands::<P, F>(
                i.opened.params@,
                c.params@,
                c.modulators@,
                n,
                SlotPlace { kb, split, slot: 0 },
            );
            let at = if i.plain {
                1int
            } else {
                2
            };
            &&& cs[0] is Install
            &&& cs[0]->Install_kb == kb && cs[0]->Install_split == split
            &&& cs[0]->instrument == i.opened.plugin
            &&& cs[0]->sample_rate == i.opened.sample_rate
            &&& cs[0]->remapper == i.remapper
            &&& cs[0]->buffers.len() == i.opened.outputs
            &&& forall|b: int| 0 <= b < i.opened.outputs ==> (#[trigger] cs[0]->buffers[b]).len() == 0
            &&& !i.plain ==> cs[1] == StartCommand::Plain(
                GraphCommand::<P, F>::SetVolume { kb, split, value: c.volume },
            )
            &&& cs.len() == at + setup.len()
            &&& forall|k: int| 0 <= k < setup.len() ==> #[trigger] cs[at + k] == start_view(setup[k])
        }),
{
}

/// An effect of a session goes into the chain at its place with its mix, then gets its setup, which
/// is for the slot after its place.
pub proof fn effects_start_as_configured<P, F>(
    c: EffectConfig<F>,
    o: Opened<P, F>,
    n: Numbers<F>,
    kb: usize,
    split: usize,
    index: usize,
)
    requires
        index < usize::MAX,
    ensures
        ({
            let cs = effect_start(c, o, n, kb, split, index);
            let setup = setup_commands::<P, F>(
                o.params@,
                c.params@,
                c.modulators@,
                n,
                SlotPlace { kb, split, slot: (index + 1) as usize },
            );
            &&& cs[0] == StartCommand::Plain(
                GraphCommand::InsertEffect {
                    kb,
                    split,
                    index,
                    effect: o.plugin,
                    outputs: o.outputs,
                    mix: c.mix,
                },
            )
            &&& cs.len() == 1 + setup.len()
            &&& forall|k: int| 0 <= k < setup.len() ==> #[trigger] cs[1 + k] == start_view(setup[k])
        }),
{
}

proof fn lemma_effect_commands<P, F>(
    configs: Seq<EffectConfig<F>>,
    opened: Seq<Opened<P, F>>,
    n: Numbers<F>,
    kb: usize,
    split: usize,
    count: int,
    i: int,
    command: StartCommand<P, F>,
)
    requires
        0 <= i < count,
        effect_start(configs[i], opened[i], n, kb, split, i as usize).contains(command),
    ensures
        effects_start(configs, opened, n, kb, split, count).contains(command),
    decreases count,
{
    let all = effects_start(configs, opened, n, kb, split, count);
    let rest = effects_start(configs, opened, n, kb, split, count - 1);
    let last = effect_start(configs[count - 1], opened[count - 1], n, kb, split, (count - 1) as usize);
    if i == count - 1 {
        let k = choose|k: int| 0 <= k < last.len() && last[k] == command;
        assert(all[rest.len() + k] == command);
    } else {
        lemma_effect_commands(configs, opened, n, kb, split, count - 1, i, command);
        let k = choose|k: int| 0 <= k < rest.len() && rest[k] == command;
        assert(all[k] == command);
    }
}

/// A split of a session is added with its range and then gets everything that it has: what starts
/// its instrument, each of its effects and its pattern.
pub proof fn splits_load_everything<P, F>(
    c: SplitConfig<F>,
    o: OpenedSplit<P, F>,
    n: Numbers<F>,
    kb: usize,
    split: usize,
    i: int,
    command: StartCommand<P, F>,
)
    ensures
        split_load(c, o, n, kb, split)[0] == StartCommand::Plain(
            GraphCommand::<P, F>::AddSplit { kb, range: c.range },
        ),
        c.instrument is Some && instrument_start(c.instrument->0, o.instrument->0, n, kb, split).contains(command)
            ==> split_load(c, o, n, kb, split).contains(command),
        0 <= i < c.effects@.len() && effect_start(c.effects@[i], o.effects@[i], n, kb, split, i as usize).contains(
            command,
        ) ==> split_load(c, o, n, kb, split).contains(command),
        c.pattern is Some && pattern_start::<P, F>(c.pattern->0, kb, split, o.samples).contains(command)
            ==> split_load(c, o, n, kb, split).contains(command),
{
    let all = split_load(c, o, n, kb, split);
    let b = match c.instrument {
        Some(x) => instrument_start(x, o.instrument->0, n, kb, split),
        None => Seq::empty(),
    };
    let d = effects_start(c.effects@, o.effects@, n, kb, split, c.effects@.len() as int);
    let e = match c.pattern {
        Some(p) => pattern_start::<P, F>(p, kb, split, o.samples),
        None => Seq::empty(),
    };
    if b.contains(command) {
        let k = choose|k: int| 0 <= k < b.len() && b[k] == command;
        assert(all[1 + k] == command);
    }
    if 0 <= i < c.effects@.len() && effect_start(c.effects@[i], o.effects@[i], n, kb, split, i as usize).contains(
        command,
    ) {
        lemma_effect_commands(c.effects@, o.effects@, n, kb, split, c.effects@.len() as int, i, command);
        let k = choose|k: int| 0 <= k < d.len() && d[k] == command;
        assert(all[1 + b.len() + k] == command);
    }
    if e.contains(command) {
        let k = choose|k: int| 0 <= k < e.len() && e[k] == command;
        assert(all[1 + b.len() + d.len() + k] == command);
    }
}

proof fn lemma_split_commands<P, F>(
    configs: Seq<SplitConfig<F>>,
    opened: Seq<OpenedSplit<P, F>>,
    n: Numbers<F>,
    kb: usize,
    count: int,
    s: int,
    command: StartCommand<P, F>,
)
    requires
        0 <= s < count,
        split_load(configs[s], opened[s], n, kb, s as usize).contains(command),
    ensures
        splits_load(configs, opened, n, kb, count).contains(command),
    decreases count,
{
    let all = splits_load(configs, opened, n, kb, count);
    let rest = splits_load(configs, opened, n, kb, count - 1);
    let last = split_load(configs[count - 1], opened[count - 1], n, kb, (count - 1) as usize);
    if s == count - 1 {
        let k = choose|k: int| 0 <= k < last.len() && last[k] == command;
        assert(all[rest.len() + k] == command);
    } else {
        lemma_split_commands(configs, opened, n, kb, count - 1, s, command);
        let k = choose|k: int| 0 <= k < rest.len() && rest[k] == command;
        assert(all[k] == command);
    }
}

/// A session loads every split of every keyboard, each at its own place.
pub proof fn sessions_load_every_split<P, F>(
    configs: Seq<KeyboardConfig<F>>,
    opened: Seq<Vec<OpenedSplit<P, F>>>,
    n: Numbers<F>,
    count: int,
    kb: int,
    s: int,
    command: StartCommand<P, F>,
)
    requires
        0 <= kb < count <= configs.len(),
        0 <= s < configs[kb].splits@.len(),
        split_load(configs[kb].splits@[s], opened[kb]@[s], n, kb as usize, s as usize).contains(command),
    ensures
        keyboards_load(configs, opened, n, count).contains(command),
    decreases count,
{
    let all = keyboards_load(configs, opened, n, count);
    let rest = keyboards_load(configs, opened, n, count - 1);
    let last = splits_load(
        configs[count - 1].splits@,
        opened[count - 1]@,
        n,
        (count - 1) as usize,
        configs[count - 1].splits@.len() as int,
    );
    if kb == count - 1 {
        lemma_split_commands(
            configs[kb].splits@,
            opened[kb]@,
            n,
            kb as usize,
            configs[kb].splits@.len() as int,
            s,
            command,
        );
        let k = choose|k: int| 0 <= k < last.len() && last[k] == command;
        assert(all[rest.len() + 1 + k] == command);
    } else {
        sessions_load_every_split(configs, opened, n, count - 1, kb, s, command);
        let k = choose|k: int| 0 <= k < rest.len() && rest[k] == command;
        assert(all[k] == command);
    }
}

} // verus!
