//! Starting a session: what the audio graph is told of each plugin and pattern of a session.
use vstd::prelude::*;

use crate::graph::GraphCommand;
use crate::model::views;
use crate::modulation::{EnvState, LfoWaveform, ModSource, ModTarget, ModTargetKind};
use crate::paths::{join, joined, System};
use crate::pattern::Pattern;
use crate::plugin::ParameterInfo;
use crate::session::{
    KeyboardConfig, ModTargetConfig, ModulatorConfig, PatternConfig, PluginConfig, SessionConfig, SplitConfig,
};
use crate::text::{decimal, push_decimal, same};
use crate::tui::editor::Numbers;
use crate::tui::load::{
    pattern_event, start_views, to_pattern_events, LoadedModSource, LoadedModTarget, LoadedModulator,
    LoadedPattern, StartCommand,
};

verus! {

// ---------------------------------------------------------------------------
// Parameters
// ---------------------------------------------------------------------------

/// The first parameter from `from` on with this name.
pub open spec fn param_named<F>(params: Seq<ParameterInfo<F>>, name: Seq<char>, from: int) -> Option<ParameterInfo<F>>
    decreases params.len() - from,
{
    if from < 0 || from >= params.len() {
        None
    } else if params[from].name@ == name {
        Some(params[from])
    } else {
        param_named(params, name, from + 1)
    }
}

/// The first parameter with this name.
pub fn find_param<'a, F>(params: &'a Vec<ParameterInfo<F>>, name: &str) -> (found: Option<&'a ParameterInfo<F>>)
    ensures
        match found {
            Some(p) => param_named(params@, name@, 0) == Some(*p),
            None => param_named(params@, name@, 0) is None,
        },
{
    let mut i: usize = 0;
    while i < params.len()
        invariant
            i <= params@.len(),
            param_named(params@, name@, 0) == param_named(params@, name@, i as int),
        decreases params@.len() - i,
    {
        if same(params[i].name.as_str(), name) {
            return Some(&params[i]);
        }
        i = i + 1;
    }
    None
}

/// The values of a plugin's parameters after the first `count` overrides: defaults, but for the
/// parameters that are named. A value goes to the place that its parameter's index gives.
pub open spec fn overridden<F>(params: Seq<ParameterInfo<F>>, overrides: Seq<(String, F)>, count: int) -> Seq<F>
    decreases count,
{
    if count <= 0 {
        params.map_values(|p: ParameterInfo<F>| p.default)
    } else {
        let values = overridden(params, overrides, count - 1);
        let (name, value) = overrides[count - 1];
        match param_named(params, name@, 0) {
            Some(p) => if p.index < values.len() {
                values.update(p.index as int, value)
            } else {
                values
            },
            None => values,
        }
    }
}

/// The commands for the first `count` overrides; names that the plugin does not have are passed
/// over.
pub open spec fn override_commands<P, F>(
    params: Seq<ParameterInfo<F>>,
    overrides: Seq<(String, F)>,
    kb: usize,
    split: usize,
    slot: usize,
    count: int,
) -> Seq<GraphCommand<P, F>>
    decreases count,
{
    if count <= 0 {
        Seq::empty()
    } else {
        let rest = override_commands(params, overrides, kb, split, slot, count - 1);
        let (name, value) = overrides[count - 1];
        match param_named(params, name@, 0) {
            Some(p) => rest.push(GraphCommand::SetParameter { kb, split, slot, param_index: p.index, value }),
            None => rest,
        }
    }
}

/// Applies a session's parameter values to a plugin: the commands to send, and the values that the
/// parameters have then.
pub fn apply_overrides<P, F: Copy>(
    params: &Vec<ParameterInfo<F>>,
    overrides: &Vec<(String, F)>,
    kb: usize,
    split: usize,
    slot: usize,
) -> (r: (Vec<GraphCommand<P, F>>, Vec<F>))
    ensures
        r.0@ == override_commands::<P, F>(params@, overrides@, kb, split, slot, overrides@.len() as int),
        r.1@ == overridden(params@, overrides@, overrides@.len() as int),
{
    let mut values: Vec<F> = Vec::new();
    let mut i: usize = 0;
    while i < params.len()
        invariant
            i <= params@.len(),
            values@ == params@.take(i as int).map_values(|p: ParameterInfo<F>| p.default),
        decreases params@.len() - i,
    {
        values.push(params[i].default);
        assert(params@.take(i + 1) =~= params@.take(i as int).push(params@[i as int]));
        i = i + 1;
    }
    assert(params@.take(i as int) =~= params@);
    let mut commands: Vec<GraphCommand<P, F>> = Vec::new();
    let mut k: usize = 0;
    while k < overrides.len()
        invariant
            k <= overrides@.len(),
            commands@ == override_commands::<P, F>(params@, overrides@, kb, split, slot, k as int),
            values@ == overridden(params@, overrides@, k as int),
        decreases overrides@.len() - k,
    {
        let (name, value) = &overrides[k];
        if let Some(p) = find_param(params, name.as_str()) {
            commands.push(GraphCommand::SetParameter { kb, split, slot, param_index: p.index, value: *value });
            if (p.index as usize) < values.len() {
                values.set(p.index as usize, *value);
            }
        }
        k = k + 1;
    }
    (commands, values)
}

// ---------------------------------------------------------------------------
// Modulators
// ---------------------------------------------------------------------------

/// The source that a session gives a modulator: an envelope by that name, else an oscillator, a
/// sine where the waveform is unknown.
pub open spec fn configured_source<F>(c: ModulatorConfig<F>) -> LoadedModSource<F> {
    if c.mod_type@ == "envelope"@ {
        LoadedModSource::Envelope { attack: c.attack, decay: c.decay, sustain: c.sustain, release: c.release }
    } else {
        LoadedModSource::Lfo {
            waveform: match LfoWaveform::named(c.waveform@) {
                Some(w) => w,
                None => LfoWaveform::Sine,
            },
            rate: c.rate,
        }
    }
}

/// A source at the start of its course.
pub open spec fn started_source<F>(source: LoadedModSource<F>, zero: F) -> ModSource<F> {
    match source {
        LoadedModSource::Lfo { waveform, rate } => ModSource::Lfo { waveform, rate, phase: zero },
        LoadedModSource::Envelope { attack, decay, sustain, release } => ModSource::Envelope {
            attack,
            decay,
            sustain,
            release,
            state: EnvState::Idle,
            level: zero,
            notes_held: 0,
        },
    }
}

/// What a modulation target drives: its kind, its label, its range and the value it starts from.
#[verifier::ext_equal]
pub struct Destination<F> {
    pub kind: ModTargetKind,
    pub label: Seq<char>,
    pub min: F,
    pub max: F,
    pub base: F,
}

/// The label of a setting of another modulator.
pub open spec fn setting_label(index: usize, setting: Seq<char>) -> Seq<char> {
    "Mod "@ + decimal(index as nat) + setting
}

/// The number at `i` of a pair as it is written; 0 where it is missing.
pub open spec fn part_of(pair: Seq<usize>, i: int) -> usize {
    if i < pair.len() {
        pair[i]
    } else {
        0
    }
}

/// What a target of a session drives; the first of its fields decides. None where it names a
/// parameter that the plugin does not have, or nothing at all.
pub open spec fn destination<F>(t: ModTargetConfig<F>, params: Seq<ParameterInfo<F>>, n: Numbers<F>) -> Option<
    Destination<F>,
> {
    if let Some(name) = t.param {
        match param_named(params, name@, 0) {
            Some(p) => Some(
                Destination {
                    kind: ModTargetKind::PluginParam { param_index: p.index },
                    label: p.name@,
                    min: p.min,
                    max: p.max,
                    base: p.default,
                },
            ),
            None => None,
        }
    } else if let Some(mi) = t.mod_rate {
        Some(
            Destination {
                kind: ModTargetKind::ModulatorRate { mod_index: mi },
                label: setting_label(mi, " rate"@),
                min: n.rate_min,
                max: n.rate_max,
                base: n.unity,
            },
        )
    } else if let Some(pair) = t.mod_depth {
        let (mi, ti) = (part_of(pair@, 0), part_of(pair@, 1));
        Some(
            Destination {
                kind: ModTargetKind::ModulatorDepth { mod_index: mi, target_index: ti },
                label: setting_label(mi, " depth "@) + decimal(ti as nat),
                min: n.zero,
                max: n.unity,
                base: n.new_depth,
            },
        )
    } else if let Some(mi) = t.mod_attack {
        Some(
            Destination {
                kind: ModTargetKind::ModulatorAttack { mod_index: mi },
                label: setting_label(mi, " attack"@),
                min: n.time_min,
                max: n.time_max,
                base: n.attack,
            },
        )
    } else if let Some(mi) = t.mod_decay {
        Some(
            Destination {
                kind: ModTargetKind::ModulatorDecay { mod_index: mi },
                label: setting_label(mi, " decay"@),
                min: n.time_min,
                max: n.time_max,
                base: n.decay,
            },
        )
    } else if let Some(mi) = t.mod_sustain {
        Some(
            Destination {
                kind: ModTargetKind::ModulatorSustain { mod_index: mi },
                label: setting_label(mi, " sustain"@),
                min: n.zero,
                max: n.unity,
                base: n.sustain,
            },
        )
    } else if let Some(mi) = t.mod_release {
        Some(
            Destination {
                kind: ModTargetKind::ModulatorRelease { mod_index: mi },
                label: setting_label(mi, " release"@),
                min: n.time_min,
                max: n.time_max,
                base: n.release,
            },
        )
    } else {
        None
    }
}

/// The place of a plugin in the audio graph.
#[derive(Clone, Copy, Debug, PartialEq, Eq, Structural)]
pub struct SlotPlace {
    pub kb: usize,
    pub split: usize,
    pub slot: usize,
}

/// The commands that add the first `count` targets to the modulator at `index`.
pub open spec fn target_commands<P, F>(
    targets: Seq<ModTargetConfig<F>>,
    params: Seq<ParameterInfo<F>>,
    n: Numbers<F>,
    at: SlotPlace,
    index: usize,
    count: int,
) -> Seq<GraphCommand<P, F>>
    decreases count,
{
    if count <= 0 {
        Seq::empty()
    } else {
        let rest = target_commands(targets, params, n, at, index, count - 1);
        let t = targets[count - 1];
        match destination(t, params, n) {
            Some(d) => rest.push(
                GraphCommand::AddModTarget {
                    kb: at.kb,
                    split: at.split,
                    parent_slot: at.slot,
                    mod_index: index,
                    target: ModTarget {
                        kind: d.kind,
                        depth: t.depth,
                        base_value: d.base,
                        param_min: d.min,
                        param_max: d.max,
                    },
                },
            ),
            None => rest,
        }
    }
}

/// What the user interface is told of a target: name, parameter index, depth and range.
#[verifier::ext_equal]
pub struct LoadedTargetView<F> {
    pub param_name: Seq<char>,
    pub param_index: u32,
    pub depth: F,
    pub param_min: F,
    pub param_max: F,
}

impl<F> View for LoadedModTarget<F> {
    type V = LoadedTargetView<F>;

    open spec fn view(&self) -> LoadedTargetView<F> {
        LoadedTargetView {
            param_name: self.param_name@,
            param_index: self.param_index,
            depth: self.depth,
            param_min: self.param_min,
            param_max: self.param_max,
        }
    }
}

/// What the user interface is told of the first `count` targets.
pub open spec fn target_infos<F>(
    targets: Seq<ModTargetConfig<F>>,
    params: Seq<ParameterInfo<F>>,
    n: Numbers<F>,
    count: int,
) -> Seq<LoadedTargetView<F>>
    decreases count,
{
    if count <= 0 {
        Seq::empty()
    } else {
        let rest = target_infos(targets, params, n, count - 1);
        let t = targets[count - 1];
        match destination(t, params, n) {
            Some(d) => rest.push(
                LoadedTargetView {
                    param_name: d.label,
                    param_index: match d.kind {
                        ModTargetKind::PluginParam { param_index } => param_index,
                        _ => 0,
                    },
                    depth: t.depth,
                    param_min: d.min,
                    param_max: d.max,
                },
            ),
            None => rest,
        }
    }
}

/// The commands for the first `count` modulators of a plugin: each is added, then its targets.
pub open spec fn modulator_commands<P, F>(
    mods: Seq<ModulatorConfig<F>>,
    params: Seq<ParameterInfo<F>>,
    n: Numbers<F>,
    at: SlotPlace,
    count: int,
) -> Seq<GraphCommand<P, F>>
    decreases count,
{
    if count <= 0 {
        Seq::empty()
    } else {
        let m = mods[count - 1];
        let index = (count - 1) as usize;
        modulator_commands(mods, params, n, at, count - 1).push(
            GraphCommand::InsertModulator {
                kb: at.kb,
                split: at.split,
                parent_slot: at.slot,
                index,
                source: started_source(configured_source(m), n.zero),
            },
        ) + target_commands(m.targets@, params, n, at, index, m.targets@.len() as int)
    }
}

fn choose_source<F: Copy>(c: &ModulatorConfig<F>) -> (source: LoadedModSource<F>)
    ensures
        source == configured_source(*c),
{
    if same(c.mod_type.as_str(), "envelope") {
        LoadedModSource::Envelope { attack: c.attack, decay: c.decay, sustain: c.sustain, release: c.release }
    } else {
        let waveform = match LfoWaveform::from_str(c.waveform.as_str()) {
            Some(w) => w,
            None => LfoWaveform::Sine,
        };
        LoadedModSource::Lfo { waveform, rate: c.rate }
    }
}

fn start_source<F: Copy>(source: LoadedModSource<F>, zero: F) -> (s: ModSource<F>)
    ensures
        s == started_source(source, zero),
{
    match source {
        LoadedModSource::Lfo { waveform, rate } => ModSource::Lfo { waveform, rate, phase: zero },
        LoadedModSource::Envelope { attack, decay, sustain, release } => ModSource::Envelope {
            attack,
            decay,
            sustain,
            release,
            state: EnvState::Idle,
            level: zero,
            notes_held: 0,
        },
    }
}

/// What a modulation target drives, as it was found.
#[derive(Debug)]
pub struct FoundTarget<F> {
    pub kind: ModTargetKind,
    pub label: String,
    pub min: F,
    pub max: F,
    pub base: F,
}

impl<F> View for FoundTarget<F> {
    type V = Destination<F>;

    open spec fn view(&self) -> Destination<F> {
        Destination { kind: self.kind, label: self.label@, min: self.min, max: self.max, base: self.base }
    }
}

fn label_setting(index: usize, setting: &str) -> (label: String)
    ensures
        label@ == setting_label(index, setting@),
{
    let mut label = "Mod ".to_owned();
    push_decimal(&mut label, index as u64);
    label.append(setting);
    label
}

/// Finds out what a target of a session drives.
pub fn find_target<F: Copy>(t: &ModTargetConfig<F>, params: &Vec<ParameterInfo<F>>, n: &Numbers<F>) -> (found: Option<
    FoundTarget<F>,
>)
    ensures
        match found {
            Some(f) => destination(*t, params@, *n) == Some(f@),
            None => destination(*t, params@, *n) is None,
        },
{
    if let Some(name) = &t.param {
        match find_param(params, name.as_str()) {
            Some(p) => Some(
                FoundTarget {
                    kind: ModTargetKind::PluginParam { param_index: p.index },
                    label: p.name.clone(),
                    min: p.min,
                    max: p.max,
                    base: p.default,
                },
            ),
            None => None,
        }
    } else if let Some(mi) = t.mod_rate {
        Some(
            FoundTarget {
                kind: ModTargetKind::ModulatorRate { mod_index: mi },
                label: label_setting(mi, " rate"),
                min: n.rate_min,
                max: n.rate_max,
                base: n.unity,
            },
        )
    } else if let Some(pair) = &t.mod_depth {
        let mi: usize = if pair.len() > 0 {
            pair[0]
        } else {
            0
        };
        let ti: usize = if pair.len() > 1 {
            pair[1]
        } else {
            0
        };
        let mut label = label_setting(mi, " depth ");
        push_decimal(&mut label, ti as u64);
        Some(
            FoundTarget {
                kind: ModTargetKind::ModulatorDepth { mod_index: mi, target_index: ti },
                label,
                min: n.zero,
                max: n.unity,
                base: n.new_depth,
            },
        )
    } else if let Some(mi) = t.mod_attack {
        Some(
            FoundTarget {
                kind: ModTargetKind::ModulatorAttack { mod_index: mi },
                label: label_setting(mi, " attack"),
                min: n.time_min,
                max: n.time_max,
                base: n.attack,
            },
        )
    } else if let Some(mi) = t.mod_decay {
        Some(
            FoundTarget {
                kind: ModTargetKind::ModulatorDecay { mod_index: mi },
                label: label_setting(mi, " decay"),
                min: n.time_min,
                max: n.time_max,
                base: n.decay,
            },
        )
    } else if let Some(mi) = t.mod_sustain {
        Some(
            FoundTarget {
                kind: ModTargetKind::ModulatorSustain { mod_index: mi },
                label: label_setting(mi, " sustain"),
                min: n.zero,
                max: n.unity,
                base: n.sustain,
            },
        )
    } else if let Some(mi) = t.mod_release {
        Some(
            FoundTarget {
                kind: ModTargetKind::ModulatorRelease { mod_index: mi },
                label: label_setting(mi, " release"),
                min: n.time_min,
                max: n.time_max,
                base: n.release,
            },
        )
    } else {
        None
    }
}

/// Loads the modulators of a plugin: the commands to send, and what the user interface is told.
pub fn load_modulators<P, F: Copy>(
    mods: &Vec<ModulatorConfig<F>>,
    params: &Vec<ParameterInfo<F>>,
    n: &Numbers<F>,
    at: SlotPlace,
) -> (r: (Vec<GraphCommand<P, F>>, Vec<LoadedModulator<F>>))
    ensures
        r.0@ == modulator_commands::<P, F>(mods@, params@, *n, at, mods@.len() as int),
        r.1@.len() == mods@.len(),
        forall|i: int|
            0 <= i < mods@.len() ==> (#[trigger] r.1@[i]).source == configured_source(mods@[i]) && views(
                r.1@[i].targets@,
            ) == target_infos(mods@[i].targets@, params@, *n, mods@[i].targets@.len() as int),
{
    let mut commands: Vec<GraphCommand<P, F>> = Vec::new();
    let mut loaded: Vec<LoadedModulator<F>> = Vec::new();
    let mut i: usize = 0;
    while i < mods.len()
        invariant
            i <= mods@.len(),
            commands@ == modulator_commands::<P, F>(mods@, params@, *n, at, i as int),
            loaded@.len() == i,
            forall|k: int|
                0 <= k < i ==> (#[trigger] loaded@[k]).source == configured_source(mods@[k]) && views(
                    loaded@[k].targets@,
                ) == target_infos(mods@[k].targets@, params@, *n, mods@[k].targets@.len() as int),
        decreases mods@.len() - i,
    {
        let m = &mods[i];
        let source = choose_source(m);
        commands.push(
            GraphCommand::InsertModulator {
                kb: at.kb,
                split: at.split,
                parent_slot: at.slot,
                index: i,
                source: start_source(source, n.zero),
            },
        );
        let ghost base = commands@;
        let mut targets: Vec<LoadedModTarget<F>> = Vec::new();
        let mut j: usize = 0;
        while j < m.targets.len()
            invariant
                j <= m.targets@.len(),
                commands@ == base + target_commands::<P, F>(m.targets@, params@, *n, at, i, j as int),
                views(targets@) == target_infos(m.targets@, params@, *n, j as int),
            decreases m.targets@.len() - j,
        {
            let t = &m.targets[j];
            if let Some(d) = find_target(t, params, n) {
                commands.push(
                    GraphCommand::AddModTarget {
                        kb: at.kb,
                        split: at.split,
                        parent_slot: at.slot,
                        mod_index: i,
                        target: ModTarget {
                            kind: d.kind,
                            depth: t.depth,
                            base_value: d.base,
                            param_min: d.min,
                            param_max: d.max,
                        },
                    },
                );
                let param_index: u32 = match d.kind {
                    ModTargetKind::PluginParam { param_index } => param_index,
                    _ => 0,
                };
                let ghost so_far = views(targets@);
                let info = LoadedModTarget {
                    param_name: d.label,
                    param_index,
                    depth: t.depth,
                    param_min: d.min,
                    param_max: d.max,
                };
                let ghost info_view = info@;
                targets.push(info);
                assert(views(targets@) =~= so_far.push(info_view));
            }
            j = j + 1;
        }
        loaded.push(LoadedModulator { source, targets });
        i = i + 1;
    }
    (commands, loaded)
}

// ---------------------------------------------------------------------------
// Patterns
// ---------------------------------------------------------------------------

/// What the audio graph is told of a pattern of a session: the pattern, its tempo and its length,
/// that it is switched on, and that it does not loop.
pub open spec fn pattern_start<P, F>(p: PatternConfig<F>, kb: usize, split: usize, samples: u64) -> Seq<
    StartCommand<P, F>,
> {
    seq![
        StartCommand::Load {
            kb,
            split,
            events: p.events@.map_values(|e: (u64, u8, u8, u8)| pattern_event(e)),
            samples,
            base_note: p.base_note,
        },
        StartCommand::Plain(GraphCommand::SetGlobalBpm { bpm: p.bpm }),
        StartCommand::Plain(GraphCommand::SetPatternLength { kb, split, beats: p.length_beats }),
    ] + (if p.enabled {
        seq![StartCommand::Plain(GraphCommand::SetPatternEnabled { kb, split, enabled: true })]
    } else {
        Seq::empty()
    }) + (if !p.looping {
        seq![StartCommand::Plain(GraphCommand::SetPatternLooping { kb, split, looping: false })]
    } else {
        Seq::empty()
    })
}

/// Loads the pattern of a split, `samples` long: the commands to send, and what the user interface
/// is told.
pub fn load_pattern<P, F: Copy>(p: &PatternConfig<F>, kb: usize, split: usize, samples: u64) -> (r: (
    Vec<GraphCommand<P, F>>,
    LoadedPattern<F>,
))
    ensures
        start_views(r.0@) == pattern_start::<P, F>(*p, kb, split, samples),
        r.1.bpm == p.bpm,
        r.1.length_beats == p.length_beats,
        r.1.looping == p.looping,
        r.1.base_note == p.base_note,
        r.1.events@ == p.events@,
        r.1.enabled == p.enabled,
{
    let mut commands: Vec<GraphCommand<P, F>> = Vec::new();
    let events = to_pattern_events(&p.events);
    commands.push(
        GraphCommand::SetPattern {
            kb,
            split,
            pattern: Pattern { events, length_samples: samples },
            base_note: p.base_note,
        },
    );
    commands.push(GraphCommand::SetGlobalBpm { bpm: p.bpm });
    commands.push(GraphCommand::SetPatternLength { kb, split, beats: p.length_beats });
    if p.enabled {
        commands.push(GraphCommand::SetPatternEnabled { kb, split, enabled: true });
    }
    if !p.looping {
        commands.push(GraphCommand::SetPatternLooping { kb, split, looping: false });
    }
    assert(start_views(commands@) =~= pattern_start::<P, F>(*p, kb, split, samples));
    let mut copied: Vec<(u64, u8, u8, u8)> = Vec::new();
    let mut i: usize = 0;
    while i < p.events.len()
        invariant
            i <= p.events@.len(),
            copied@ == p.events@.take(i as int),
        decreases p.events@.len() - i,
    {
        copied.push(p.events[i]);
        assert(p.events@.take(i + 1) =~= p.events@.take(i as int).push(p.events@[i as int]));
        i = i + 1;
    }
    assert(p.events@.take(i as int) =~= p.events@);
    (
        commands,
        LoadedPattern {
            bpm: p.bpm,
            length_beats: p.length_beats,
            looping: p.looping,
            base_note: p.base_note,
            events: copied,
            enabled: p.enabled,
        },
    )
}

// ---------------------------------------------------------------------------
// Keyboards and sessions
// ---------------------------------------------------------------------------

/// The name of a keyboard: its own, or its number.
pub open spec fn keyboard_title(name: Option<String>, index: usize) -> Seq<char> {
    match name {
        Some(name) => name@,
        None => "Keyboard "@ + decimal((index + 1) as nat),
    }
}

/// The name of a keyboard: its own, or its number.
pub fn keyboard_name(name: &Option<String>, index: usize) -> (title: String)
    requires
        index < usize::MAX,
    ensures
        title@ == keyboard_title(*name, index),
{
    match name {
        Some(name) => name.clone(),
        None => {
            let mut title = "Keyboard ".to_owned();
            push_decimal(&mut title, index as u64 + 1);
            title
        },
    }
}

/// The session that is started with: one keyboard whose only split plays the built-in sine.
pub fn default_session<F: Copy>(volume: F, pitch_bend_range: F) -> (config: SessionConfig<F>)
    ensures
        config.keyboards@.len() == 1,
        ({
            let k = config.keyboards@[0];
            &&& k.name is None
            &&& k.splits@.len() == 1
            &&& k.splits@[0].range is None
            &&& k.splits@[0].transpose == 0
            &&& k.splits@[0].effects@.len() == 0
            &&& k.splits@[0].pattern is None
            &&& k.splits@[0].instrument matches Some(p)
            &&& p.plugin@ == "builtin:sine"@
            &&& p.preset is None
            &&& p.volume == volume
            &&& p.pitch_bend_range == pitch_bend_range
            &&& p.remap@.len() == 0
            &&& p.params@.len() == 0
            &&& p.modulators@.len() == 0
        }),
{
    let instrument = PluginConfig {
        plugin: "builtin:sine".to_owned(),
        preset: None,
        volume,
        pitch_bend_range,
        remap: Vec::new(),
        params: Vec::new(),
        modulators: Vec::new(),
    };
    let split = SplitConfig {
        range: None,
        transpose: 0,
        instrument: Some(instrument),
        effects: Vec::new(),
        pattern: None,
    };
    let mut splits: Vec<SplitConfig<F>> = Vec::new();
    splits.push(split);
    let mut keyboards: Vec<KeyboardConfig<F>> = Vec::new();
    keyboards.push(KeyboardConfig { name: None, splits });
    SessionConfig { keyboards }
}

/// A digit of a hexadecimal number.
pub open spec fn hex_digit(d: nat) -> char {
    if d < 10 {
        (48 + d) as char
    } else {
        (87 + d) as char
    }
}

/// A number in hexadecimal digits.
pub open spec fn hex(n: nat) -> Seq<char>
    decreases n,
{
    if n < 16 {
        seq![hex_digit(n)]
    } else {
        hex(n / 16).push(hex_digit(n % 16))
    }
}

fn push_hex(out: &mut String, n: u128)
    ensures
        final(out)@ == old(out)@ + hex(n as nat),
    decreases n,
{
    if n >= 16 {
        push_hex(out, n / 16);
    }
    let d: u8 = (n % 16) as u8;
    out.push(
        if d < 10 {
            (48 + d) as char
        } else {
            (87 + d) as char
        },
    );
    assert(out@ =~= old(out)@ + hex(n as nat));
}

/// The file that a new session is saved to, made at this time, in milliseconds.
pub fn session_file_name(millis: u128) -> (name: String)
    ensures
        name@ == "session-"@ + hex(millis as nat) + ".toml"@,
{
    let mut name = "session-".to_owned();
    push_hex(&mut name, millis);
    name.append(".toml");
    name
}

// ---------------------------------------------------------------------------
// The log
// ---------------------------------------------------------------------------

/// A number in decimal digits, filled up with zeros to so many.
pub open spec fn padded(n: nat, digits: int) -> Seq<char>
    decreases digits,
{
    if digits <= 0 {
        Seq::empty()
    } else {
        padded(n / 10, digits - 1).push((48 + n % 10) as char)
    }
}

fn push_padded(out: &mut String, n: u64, digits: u32)
    ensures
        final(out)@ == old(out)@ + padded(n as nat, digits as int),
    decreases digits,
{
    if digits == 0 {
        return ;
    }
    push_padded(out, n / 10, digits - 1);
    let d: u8 = 48 + (n % 10) as u8;
    out.push(d as char);
    assert(out@ =~= old(out)@ + padded(n as nat, digits as int));
}

/// The time of day of a log line: hours, minutes, seconds and milliseconds.
pub open spec fn clock_text(secs: nat, millis: nat) -> Seq<char> {
    let s = secs % 86400;
    padded(s / 3600, 2) + ":"@ + padded(s % 3600 / 60, 2) + ":"@ + padded(s % 60, 2) + "."@ + padded(millis, 3)
}

/// The time of day of a log line, so many seconds and milliseconds after midnight of some day.
pub fn clock(secs: u64, millis: u32) -> (text: String)
    requires
        millis < 1000,
    ensures
        text@ == clock_text(secs as nat, millis as nat),
{
    let s: u64 = secs % 86400;
    let mut text = String::new();
    push_padded(&mut text, s / 3600, 2);
    text.append(":");
    push_padded(&mut text, s % 3600 / 60, 2);
    text.append(":");
    push_padded(&mut text, s % 60, 2);
    text.append(".");
    push_padded(&mut text, millis as u64, 3);
    assert(text@ =~= clock_text(secs as nat, millis as nat));
    text
}

/// Where the configuration is: under the configuration directory, which macOS does not have, or
/// under the home directory; nowhere where neither is set.
pub open spec fn config_place(system: System, config: Option<&str>, home: Option<&str>) -> Option<Seq<char>> {
    if system != System::Mac && config is Some {
        Some(joined(system, (config->0)@, "tang"@))
    } else {
        match home {
            Some(h) => Some(joined(system, joined(system, h@, ".config"@), "tang"@)),
            None => None,
        }
    }
}

/// Where the configuration is.
pub fn config_dir(system: System, config: Option<&str>, home: Option<&str>) -> (dir: Option<String>)
    ensures
        match dir {
            Some(dir) => config_place(system, config, home) == Some(dir@),
            None => config_place(system, config, home) is None,
        },
{
    if let Some(c) = config {
        if system != System::Mac {
            return Some(join(system, c, "tang"));
        }
    }
    match home {
        Some(h) => {
            let under = join(system, h, ".config");
            Some(join(system, under.as_str(), "tang"))
        },
        None => None,
    }
}

// ---------------------------------------------------------------------------
// Laws
// ---------------------------------------------------------------------------

/// Overrides change no more than the parameters that are named: there are as many values as
/// parameters, and a parameter at whose place no named one stands keeps its default.
pub proof fn overrides_touch_only_named<F>(
    params: Seq<ParameterInfo<F>>,
    overrides: Seq<(String, F)>,
    count: int,
    place: int,
)
    requires
        0 <= count <= overrides.len(),
        0 <= place < params.len(),
        forall|k: int|
            0 <= k < count ==> (param_named(params, (#[trigger] overrides[k]).0@, 0) matches Some(p) ==> p.index
                != place),
    ensures
        overridden(params, overrides, count).len() == params.len(),
        overridden(params, overrides, count)[place] == params[place].default,
    decreases count,
{
    if count > 0 {
        overrides_touch_only_named(params, overrides, count - 1, place);
        assert(param_named(params, overrides[count - 1].0@, 0) matches Some(p) ==> p.index != place);
    }
}

/// The last override of a parameter decides its value.
pub proof fn last_override_decides<F>(params: Seq<ParameterInfo<F>>, overrides: Seq<(String, F)>, count: int)
    requires
        0 < count <= overrides.len(),
    ensures
        param_named(params, overrides[count - 1].0@, 0) matches Some(p) ==> p.index < params.len() ==> overridden(
            params,
            overrides,
            count,
        )[p.index as int] == overrides[count - 1].1,
{
    lemma_as_many_values(params, overrides, count - 1);
}

proof fn lemma_as_many_values<F>(params: Seq<ParameterInfo<F>>, overrides: Seq<(String, F)>, count: int)
    ensures
        overridden(params, overrides, count).len() == params.len(),
    decreases count,
{
    if count > 0 {
        lemma_as_many_values(params, overrides, count - 1);
    }
}

} // verus!
