//! Taking a loaded session into the editor.
use vstd::prelude::*;

use crate::graph::GraphCommand;
use crate::model::views;
use crate::modulation::{LfoWaveform, ModTargetKind};
use crate::pattern::{Pattern, PatternEvent};
use crate::plugin::ParameterInfo;
use crate::remap::NoteRemapper;
use crate::session::reversed;
use crate::text::starts_with;
use crate::tui::editor::{Editor, EditorView, Numbers};
use crate::tui::model::{
    KeyboardNode, KeyboardView, ModSlotView, ModSourceSlot, ModTargetSlot, ModulatorSlot, ParamSlot,
    PatternState, PatternStateView, PluginSlot, PluginView, SplitNode, SplitView,
};
use crate::tui::tree::{build_tree_entries, format_from_id, format_of, tree_entries};

verus! {

/// A keyboard of a loaded session.
#[derive(Debug)]
pub struct LoadedKeyboard<F> {
    pub name: String,
    pub splits: Vec<LoadedSplit<F>>,
}

/// A split of a loaded session.
#[derive(Debug)]
pub struct LoadedSplit<F> {
    pub range: Option<(u8, u8)>,
    pub transpose: i8,
    pub instrument: Option<LoadedPlugin<F>>,
    pub effects: Vec<LoadedPlugin<F>>,
    pub pattern: Option<LoadedPattern<F>>,
}

/// A pattern of a loaded session.
#[derive(Debug)]
pub struct LoadedPattern<F> {
    pub bpm: F,
    pub length_beats: F,
    pub looping: bool,
    pub base_note: Option<u8>,
    /// Frame, status, note and velocity of each event.
    pub events: Vec<(u64, u8, u8, u8)>,
    pub enabled: bool,
}

/// The source of a loaded modulator.
#[derive(Clone, Copy, Debug)]
pub enum LoadedModSource<F> {
    Lfo { waveform: LfoWaveform, rate: F },
    Envelope { attack: F, decay: F, sustain: F, release: F },
}

/// A loaded modulator.
#[derive(Debug)]
pub struct LoadedModulator<F> {
    pub source: LoadedModSource<F>,
    pub targets: Vec<LoadedModTarget<F>>,
}

/// A target of a loaded modulator.
#[derive(Debug)]
pub struct LoadedModTarget<F> {
    pub param_name: String,
    pub param_index: u32,
    pub depth: F,
    pub param_min: F,
    pub param_max: F,
}

/// A loaded plugin: what it says of its parameters, and the values they have.
#[derive(Debug)]
pub struct LoadedPlugin<F> {
    pub name: String,
    pub id: String,
    pub is_instrument: bool,
    pub params: Vec<ParameterInfo<F>>,
    pub param_values: Vec<F>,
    pub modulators: Vec<LoadedModulator<F>>,
}

/// Whether a parameter is left out because the plugin locks it.
pub open spec fn locked(name: Seq<char>) -> bool {
    "(locked)"@.is_prefix_of(name)
}

/// The parameters among the first `count`, with their values, that are not locked.
pub open spec fn open_params<F>(params: Seq<ParameterInfo<F>>, values: Seq<F>, count: int) -> Seq<ParamSlot<F>>
    decreases count,
{
    if count <= 0 {
        Seq::empty()
    } else {
        let rest = open_params(params, values, count - 1);
        let p = params[count - 1];
        if locked(p.name@) {
            rest
        } else {
            rest.push(
                ParamSlot {
                    name: p.name,
                    index: p.index,
                    min: p.min,
                    max: p.max,
                    default: p.default,
                    value: values[count - 1],
                },
            )
        }
    }
}

/// The number of parameters that have a value.
pub open spec fn paired<F>(params: Seq<ParameterInfo<F>>, values: Seq<F>) -> int {
    if params.len() < values.len() {
        params.len() as int
    } else {
        values.len() as int
    }
}

/// A loaded modulation target in the editor: it drives a parameter of the plugin.
pub open spec fn loaded_target<F>(t: LoadedModTarget<F>) -> ModTargetSlot<F> {
    ModTargetSlot {
        param_name: t.param_name,
        kind: ModTargetKind::PluginParam { param_index: t.param_index },
        depth: t.depth,
        param_min: t.param_min,
        param_max: t.param_max,
    }
}

/// A loaded source in the editor.
pub open spec fn loaded_source<F>(source: LoadedModSource<F>) -> ModSourceSlot<F> {
    match source {
        LoadedModSource::Lfo { waveform, rate } => ModSourceSlot::Lfo { waveform, rate },
        LoadedModSource::Envelope { attack, decay, sustain, release } => ModSourceSlot::Envelope {
            attack,
            decay,
            sustain,
            release,
        },
    }
}

/// A loaded modulator in the editor.
pub open spec fn loaded_modulator<F>(m: LoadedModulator<F>) -> ModSlotView<F> {
    ModSlotView {
        source: loaded_source(m.source),
        targets: m.targets@.map_values(|t: LoadedModTarget<F>| loaded_target(t)),
    }
}

/// A loaded plugin in the editor.
pub open spec fn loaded_plugin<F>(p: LoadedPlugin<F>) -> PluginView<F> {
    PluginView {
        name: p.name@,
        format: format_of(p.id@),
        id: p.id@,
        is_instrument: p.is_instrument,
        params: open_params(p.params@, p.param_values@, paired(p.params@, p.param_values@)),
        modulators: p.modulators@.map_values(|m: LoadedModulator<F>| loaded_modulator(m)),
    }
}

/// A loaded pattern in the editor; it is not being recorded.
pub open spec fn loaded_pattern<F>(p: LoadedPattern<F>) -> PatternStateView<F> {
    PatternStateView {
        bpm: p.bpm,
        length_beats: p.length_beats,
        looping: p.looping,
        base_note: p.base_note,
        events: p.events@,
        enabled: p.enabled,
        recording: false,
    }
}

/// A loaded split in the editor.
pub open spec fn loaded_split<F>(s: LoadedSplit<F>) -> SplitView<F> {
    SplitView {
        range: s.range,
        transpose: s.transpose,
        instrument: match s.instrument {
            Some(p) => Some(loaded_plugin(p)),
            None => None,
        },
        effects: s.effects@.map_values(|p: LoadedPlugin<F>| loaded_plugin(p)),
        pattern: match s.pattern {
            Some(p) => Some(loaded_pattern(p)),
            None => None,
        },
    }
}

/// A loaded keyboard in the editor.
pub open spec fn loaded_keyboard<F>(k: LoadedKeyboard<F>) -> KeyboardView<F> {
    KeyboardView { name: k.name@, splits: k.splits@.map_values(|s: LoadedSplit<F>| loaded_split(s)) }
}

fn take_params<F: Copy>(params: Vec<ParameterInfo<F>>, values: &Vec<F>) -> (out: Vec<ParamSlot<F>>)
    ensures
        out@ == open_params(params@, values@, paired(params@, values@)),
{
    let ghost whole = params@;
    let mut rest = reversed(params);
    let mut out: Vec<ParamSlot<F>> = Vec::new();
    let mut i: usize = 0;
    while i < values.len() && rest.len() > 0
        invariant
            i <= values@.len(),
            rest@.len() + i == whole.len(),
            forall|k: int| 0 <= k < rest@.len() ==> #[trigger] rest@[k] == whole[whole.len() - 1 - k],
            out@ == open_params(whole, values@, i as int),
        decreases rest@.len(),
    {
        if let Some(p) = rest.pop() {
            assert(p == whole[i as int]);
            if !starts_with(p.name.as_str(), "(locked)") {
                out.push(
                    ParamSlot {
                        name: p.name,
                        index: p.index,
                        min: p.min,
                        max: p.max,
                        default: p.default,
                        value: values[i],
                    },
                );
            }
            i = i + 1;
        }
    }
    out
}

fn take_targets<F: Copy>(targets: Vec<LoadedModTarget<F>>) -> (out: Vec<ModTargetSlot<F>>)
    ensures
        out@ == targets@.map_values(|t: LoadedModTarget<F>| loaded_target(t)),
{
    let ghost whole = targets@;
    let mut rest = reversed(targets);
    let mut out: Vec<ModTargetSlot<F>> = Vec::new();
    let ghost mut done: int = 0;
    while rest.len() > 0
        invariant
            0 <= done,
            rest@.len() + done == whole.len(),
            forall|k: int| 0 <= k < rest@.len() ==> #[trigger] rest@[k] == whole[whole.len() - 1 - k],
            out@ == whole.take(done).map_values(|t: LoadedModTarget<F>| loaded_target(t)),
        decreases rest@.len(),
    {
        if let Some(t) = rest.pop() {
            assert(t == whole[done]);
            out.push(
                ModTargetSlot {
                    param_name: t.param_name,
                    kind: ModTargetKind::PluginParam { param_index: t.param_index },
                    depth: t.depth,
                    param_min: t.param_min,
                    param_max: t.param_max,
                },
            );
            proof {
                done = done + 1;
                assert(whole.take(done) =~= whole.take(done - 1).push(whole[done - 1]));
            }
        }
    }
    assert(whole.take(done) =~= whole);
    out
}

fn take_modulators<F: Copy>(modulators: Vec<LoadedModulator<F>>) -> (out: Vec<ModulatorSlot<F>>)
    ensures
        views(out@) == modulators@.map_values(|m: LoadedModulator<F>| loaded_modulator(m)),
{
    let ghost whole = modulators@;
    let mut rest = reversed(modulators);
    let mut out: Vec<ModulatorSlot<F>> = Vec::new();
    let ghost mut done: int = 0;
    while rest.len() > 0
        invariant
            0 <= done,
            rest@.len() + done == whole.len(),
            forall|k: int| 0 <= k < rest@.len() ==> #[trigger] rest@[k] == whole[whole.len() - 1 - k],
            out@.len() == done,
            forall|i: int| 0 <= i < done ==> (#[trigger] out@[i])@ == loaded_modulator(whole[i]),
        decreases rest@.len(),
    {
        if let Some(m) = rest.pop() {
            assert(m == whole[done]);
            let source = match m.source {
                LoadedModSource::Lfo { waveform, rate } => ModSourceSlot::Lfo { waveform, rate },
                LoadedModSource::Envelope { attack, decay, sustain, release } => ModSourceSlot::Envelope {
                    attack,
                    decay,
                    sustain,
                    release,
                },
            };
            let slot = ModulatorSlot { source, targets: take_targets(m.targets) };
            assert(slot@ =~= loaded_modulator(whole[done]));
            out.push(slot);
            proof {
                done = done + 1;
            }
        }
    }
    assert(views(out@) =~= whole.map_values(|m: LoadedModulator<F>| loaded_modulator(m)));
    out
}

/// Takes a loaded plugin into the editor.
pub fn to_plugin_slot<F: Copy>(p: LoadedPlugin<F>) -> (slot: PluginSlot<F>)
    ensures
        slot@ == loaded_plugin(p),
{
    let format = format_from_id(p.id.as_str());
    PluginSlot {
        name: p.name,
        format,
        id: p.id,
        is_instrument: p.is_instrument,
        params: take_params(p.params, &p.param_values),
        modulators: take_modulators(p.modulators),
    }
}

fn take_plugins<F: Copy>(plugins: Vec<LoadedPlugin<F>>) -> (out: Vec<PluginSlot<F>>)
    ensures
        views(out@) == plugins@.map_values(|p: LoadedPlugin<F>| loaded_plugin(p)),
{
    let ghost whole = plugins@;
    let mut rest = reversed(plugins);
    let mut out: Vec<PluginSlot<F>> = Vec::new();
    let ghost mut done: int = 0;
    while rest.len() > 0
        invariant
            0 <= done,
            rest@.len() + done == whole.len(),
            forall|k: int| 0 <= k < rest@.len() ==> #[trigger] rest@[k] == whole[whole.len() - 1 - k],
            out@.len() == done,
            forall|i: int| 0 <= i < done ==> (#[trigger] out@[i])@ == loaded_plugin(whole[i]),
        decreases rest@.len(),
    {
        if let Some(p) = rest.pop() {
            assert(p == whole[done]);
            out.push(to_plugin_slot(p));
            proof {
                done = done + 1;
            }
        }
    }
    assert(views(out@) =~= whole.map_values(|p: LoadedPlugin<F>| loaded_plugin(p)));
    out
}

fn take_split<F: Copy>(s: LoadedSplit<F>) -> (node: SplitNode<F>)
    ensures
        node@ == loaded_split(s),
{
    let instrument = match s.instrument {
        Some(p) => Some(to_plugin_slot(p)),
        None => None,
    };
    let pattern = match s.pattern {
        Some(p) => Some(
            PatternState {
                bpm: p.bpm,
                length_beats: p.length_beats,
                looping: p.looping,
                base_note: p.base_note,
                events: p.events,
                enabled: p.enabled,
                recording: false,
            },
        ),
        None => None,
    };
    SplitNode { range: s.range, transpose: s.transpose, instrument, effects: take_plugins(s.effects), pattern }
}

fn take_splits<F: Copy>(splits: Vec<LoadedSplit<F>>) -> (out: Vec<SplitNode<F>>)
    ensures
        views(out@) == splits@.map_values(|s: LoadedSplit<F>| loaded_split(s)),
{
    let ghost whole = splits@;
    let mut rest = reversed(splits);
    let mut out: Vec<SplitNode<F>> = Vec::new();
    let ghost mut done: int = 0;
    while rest.len() > 0
        invariant
            0 <= done,
            rest@.len() + done == whole.len(),
            forall|k: int| 0 <= k < rest@.len() ==> #[trigger] rest@[k] == whole[whole.len() - 1 - k],
            out@.len() == done,
            forall|i: int| 0 <= i < done ==> (#[trigger] out@[i])@ == loaded_split(whole[i]),
        decreases rest@.len(),
    {
        if let Some(s) = rest.pop() {
            assert(s == whole[done]);
            out.push(take_split(s));
            proof {
                done = done + 1;
            }
        }
    }
    assert(views(out@) =~= whole.map_values(|s: LoadedSplit<F>| loaded_split(s)));
    out
}

/// Takes loaded keyboards into the editor.
pub fn to_keyboard_nodes<F: Copy>(keyboards: Vec<LoadedKeyboard<F>>) -> (out: Vec<KeyboardNode<F>>)
    ensures
        views(out@) == keyboards@.map_values(|k: LoadedKeyboard<F>| loaded_keyboard(k)),
{
    let ghost whole = keyboards@;
    let mut rest = reversed(keyboards);
    let mut out: Vec<KeyboardNode<F>> = Vec::new();
    let ghost mut done: int = 0;
    while rest.len() > 0
        invariant
            0 <= done,
            rest@.len() + done == whole.len(),
            forall|k: int| 0 <= k < rest@.len() ==> #[trigger] rest@[k] == whole[whole.len() - 1 - k],
            out@.len() == done,
            forall|i: int| 0 <= i < done ==> (#[trigger] out@[i])@ == loaded_keyboard(whole[i]),
        decreases rest@.len(),
    {
        if let Some(k) = rest.pop() {
            assert(k == whole[done]);
            out.push(KeyboardNode { name: k.name, splits: take_splits(k.splits) });
            proof {
                done = done + 1;
            }
        }
    }
    assert(views(out@) =~= whole.map_values(|k: LoadedKeyboard<F>| loaded_keyboard(k)));
    out
}

// ---------------------------------------------------------------------------
// Starting
// ---------------------------------------------------------------------------

/// The tempo of the first pattern in these splits.
pub open spec fn first_split_bpm<F>(splits: Seq<SplitView<F>>) -> Option<F>
    decreases splits.len(),
{
    if splits.len() == 0 {
        None
    } else {
        match splits[0].pattern {
            Some(p) => Some(p.bpm),
            None => first_split_bpm(splits.drop_first()),
        }
    }
}

/// The tempo of the first pattern in these keyboards.
pub open spec fn first_bpm<F>(kbs: Seq<KeyboardView<F>>) -> Option<F>
    decreases kbs.len(),
{
    if kbs.len() == 0 {
        None
    } else {
        match first_split_bpm(kbs[0].splits) {
            Some(bpm) => Some(bpm),
            None => first_bpm(kbs.drop_first()),
        }
    }
}

/// The tempo of the first pattern in these keyboards.
pub fn find_first_bpm<F: Copy>(keyboards: &Vec<KeyboardNode<F>>) -> (bpm: Option<F>)
    ensures
        bpm == first_bpm(views(keyboards@)),
{
    let ghost kbs = views(keyboards@);
    let mut i: usize = 0;
    assert(kbs.skip(0) =~= kbs);
    while i < keyboards.len()
        invariant
            i <= keyboards@.len(),
            kbs == views(keyboards@),
            first_bpm(kbs) == first_bpm(kbs.skip(i as int)),
        decreases keyboards@.len() - i,
    {
        let splits = &keyboards[i].splits;
        let ghost ss = views(splits@);
        assert(kbs.skip(i as int)[0].splits == ss);
        assert(kbs.skip(i as int).drop_first() =~= kbs.skip(i + 1));
        assert(ss.skip(0) =~= ss);
        let mut j: usize = 0;
        while j < splits.len()
            invariant
                i < keyboards@.len(),
                j <= splits@.len(),
                ss == views(splits@),
                kbs == views(keyboards@),
                kbs.skip(i as int)[0].splits == ss,
                kbs.skip(i as int).len() > 0,
                first_bpm(kbs) == first_bpm(kbs.skip(i as int)),
                first_split_bpm(ss) == first_split_bpm(ss.skip(j as int)),
            decreases splits@.len() - j,
        {
            assert(ss.skip(j as int)[0] == splits@[j as int]@);
            assert(ss.skip(j as int).drop_first() =~= ss.skip(j + 1));
            if let Some(p) = &splits[j].pattern {
                return Some(p.bpm);
            }
            j = j + 1;
        }
        i = i + 1;
    }
    None
}

/// What the audio graph is told of a split when a session starts: its transposition, and its
/// pattern with the length in samples that is given for it.
pub open spec fn split_start<P, F>(s: SplitView<F>, kb: usize, split: usize, samples: u64) -> Seq<StartCommand<P, F>> {
    (if s.transpose != 0 {
        seq![StartCommand::Plain(GraphCommand::SetTranspose { kb, split, semitones: s.transpose })]
    } else {
        Seq::empty()
    }) + (match s.pattern {
        Some(p) => seq![
            StartCommand::Load {
                kb,
                split,
                events: p.events.map_values(|e: (u64, u8, u8, u8)| pattern_event(e)),
                samples,
                base_note: p.base_note,
            },
            StartCommand::Plain(GraphCommand::SetPatternEnabled { kb, split, enabled: p.enabled }),
        ] + (if !p.looping {
            seq![StartCommand::Plain(GraphCommand::SetPatternLooping { kb, split, looping: false })]
        } else {
            Seq::empty()
        }),
        None => Seq::empty(),
    })
}

/// A command that starts a session, with its pattern or its buffers as sequences.
#[verifier::ext_equal]
pub enum StartCommand<P, F> {
    Plain(GraphCommand<P, F>),
    Load { kb: usize, split: usize, events: Seq<PatternEvent>, samples: u64, base_note: Option<u8> },
    Install {
        kb: usize,
        split: usize,
        instrument: P,
        sample_rate: F,
        buffers: Seq<Seq<F>>,
        remapper: Option<NoteRemapper>,
    },
}

/// The command with its pattern or its buffers as sequences.
pub open spec fn start_view<P, F>(c: GraphCommand<P, F>) -> StartCommand<P, F> {
    match c {
        GraphCommand::SwapInstrument { kb, split, instrument, sample_rate, inst_buf, remapper } => {
            StartCommand::Install { kb, split, instrument, sample_rate, buffers: views(inst_buf@), remapper }
        },
        GraphCommand::SetPattern { kb, split, pattern, base_note } => StartCommand::Load {
            kb,
            split,
            events: pattern.events@,
            samples: pattern.length_samples,
            base_note,
        },
        c => StartCommand::Plain(c),
    }
}

/// The commands with their patterns and buffers as sequences.
pub open spec fn start_views<P, F>(commands: Seq<GraphCommand<P, F>>) -> Seq<StartCommand<P, F>> {
    commands.map_values(|c: GraphCommand<P, F>| start_view(c))
}

/// An event of a pattern.
pub open spec fn pattern_event(e: (u64, u8, u8, u8)) -> PatternEvent {
    PatternEvent { frame: e.0, status: e.1, note: e.2, velocity: e.3 }
}

/// The events of a pattern.
pub fn to_pattern_events(events: &Vec<(u64, u8, u8, u8)>) -> (out: Vec<PatternEvent>)
    ensures
        out@ == events@.map_values(|e: (u64, u8, u8, u8)| pattern_event(e)),
{
    let mut out: Vec<PatternEvent> = Vec::new();
    let mut i: usize = 0;
    while i < events.len()
        invariant
            i <= events@.len(),
            out@ == events@.take(i as int).map_values(|e: (u64, u8, u8, u8)| pattern_event(e)),
        decreases events@.len() - i,
    {
        let (frame, status, note, velocity) = events[i];
        out.push(PatternEvent { frame, status, note, velocity });
        assert(events@.take(i + 1) =~= events@.take(i as int).push(events@[i as int]));
        i = i + 1;
    }
    assert(events@.take(i as int) =~= events@);
    out
}

/// The commands that tell the audio graph of a split when a session starts; `samples` is the length
/// of its pattern.
pub fn start_split<P, F: Copy>(s: &SplitNode<F>, kb: usize, split: usize, samples: u64) -> (commands: Vec<
    GraphCommand<P, F>,
>)
    ensures
        start_views(commands@) == split_start::<P, F>(s@, kb, split, samples),
{
    let mut commands: Vec<GraphCommand<P, F>> = Vec::new();
    if s.transpose != 0 {
        commands.push(GraphCommand::SetTranspose { kb, split, semitones: s.transpose });
    }
    if let Some(p) = &s.pattern {
        let events = to_pattern_events(&p.events);
        commands.push(
            GraphCommand::SetPattern {
                kb,
                split,
                pattern: Pattern { events, length_samples: samples },
                base_note: p.base_note,
            },
        );
        commands.push(GraphCommand::SetPatternEnabled { kb, split, enabled: p.enabled });
        if !p.looping {
            commands.push(GraphCommand::SetPatternLooping { kb, split, looping: false });
        }
    }
    assert(start_views(commands@) =~= split_start::<P, F>(s@, kb, split, samples));
    commands
}

/// What the audio graph is told of the first `count` splits of a keyboard when a session starts.
pub open spec fn splits_start<P, F>(splits: Seq<SplitView<F>>, kb: usize, samples: Seq<u64>, count: int) -> Seq<
    StartCommand<P, F>,
>
    decreases count,
{
    if count <= 0 {
        Seq::empty()
    } else {
        splits_start(splits, kb, samples, count - 1) + split_start(
            splits[count - 1],
            kb,
            (count - 1) as usize,
            samples[count - 1],
        )
    }
}

/// What the audio graph is told of the first `count` keyboards when a session starts.
pub open spec fn keyboards_start<P, F>(kbs: Seq<KeyboardView<F>>, samples: Seq<Vec<u64>>, count: int) -> Seq<
    StartCommand<P, F>,
>
    decreases count,
{
    if count <= 0 {
        Seq::empty()
    } else {
        keyboards_start(kbs, samples, count - 1) + splits_start(
            kbs[count - 1].splits,
            (count - 1) as usize,
            samples[count - 1]@,
            kbs[count - 1].splits.len() as int,
        )
    }
}

/// There is a length for the pattern of each split.
pub open spec fn timed<F>(kbs: Seq<KeyboardView<F>>, samples: Seq<Vec<u64>>) -> bool {
    &&& samples.len() == kbs.len()
    &&& forall|k: int| 0 <= k < kbs.len() ==> (#[trigger] samples[k])@.len() == kbs[k].splits.len()
}

/// The commands that tell the audio graph of the splits when a session starts; `samples` holds the
/// length of the pattern of each split.
pub fn start_session<P, F: Copy>(keyboards: &Vec<KeyboardNode<F>>, samples: &Vec<Vec<u64>>) -> (commands: Vec<
    GraphCommand<P, F>,
>)
    requires
        timed(views(keyboards@), samples@),
    ensures
        start_views(commands@) == keyboards_start::<P, F>(views(keyboards@), samples@, keyboards@.len() as int),
{
    let ghost kbs = views(keyboards@);
    let mut commands: Vec<GraphCommand<P, F>> = Vec::new();
    assert(start_views(commands@) =~= Seq::empty());
    let mut kb: usize = 0;
    while kb < keyboards.len()
        invariant
            kb <= keyboards@.len(),
            kbs == views(keyboards@),
            timed(kbs, samples@),
            start_views(commands@) == keyboards_start::<P, F>(kbs, samples@, kb as int),
        decreases keyboards@.len() - kb,
    {
        let splits = &keyboards[kb].splits;
        let lengths = &samples[kb];
        let ghost ss = kbs[kb as int].splits;
        let ghost before = start_views(commands@);
        assert(ss == views(splits@));
        assert(lengths@.len() == ss.len());
        assert(before =~= before + splits_start::<P, F>(ss, kb, lengths@, 0));
        let mut i: usize = 0;
        while i < splits.len()
            invariant
                i <= splits@.len(),
                ss == views(splits@),
                lengths@.len() == ss.len(),
                start_views(commands@) == before + splits_start::<P, F>(ss, kb, lengths@, i as int),
            decreases splits@.len() - i,
        {
            let ghost sent = commands@;
            let mut more = start_split::<P, F>(&splits[i], kb, i, lengths[i]);
            let ghost added = more@;
            commands.append(&mut more);
            assert(start_views(commands@) =~= start_views(sent) + start_views(added));
            assert(ss[i as int] == splits@[i as int]@);
            assert(start_views(commands@) =~= before + splits_start::<P, F>(ss, kb, lengths@, i + 1));
            i = i + 1;
        }
        kb = kb + 1;
    }
    commands
}

/// The number of rows that the parameter list starts with: the parameters of the first instrument
/// of the first keyboard.
pub open spec fn first_rows<F>(kbs: Seq<KeyboardView<F>>) -> nat {
    if kbs.len() > 0 && kbs[0].splits.len() > 0 {
        match kbs[0].splits[0].instrument {
            Some(p) => p.params.len(),
            None => 0,
        }
    } else {
        0
    }
}

impl<F: Copy> Editor<F> {
    /// An editor for these keyboards, at the tempo of their first pattern, or at `bpm`.
    pub fn new(keyboards: Vec<KeyboardNode<F>>, bpm: F, numbers: Numbers<F>) -> (editor: Self)
        ensures
            editor@ == (EditorView {
                active_tab: 0,
                keyboards: views(keyboards@),
                tree: tree_entries(views(keyboards@), keyboards@.len() as int),
                chain_selected: 0,
                param_selected: 0,
                focus_params: false,
                help_offset: 0,
                scrollbar_dragging: false,
                param_dragging: false,
                param_scrollbar_dragging: false,
                selector: None,
                targets: None,
                bpm_edit: None,
                value_edit: None,
                range_edit: None,
                param_filter: Seq::empty(),
                param_filtering: false,
                param_filtered: Seq::new(first_rows(views(keyboards@)), |i: int| i as usize),
                quit: false,
                dirty: false,
                global_bpm: match first_bpm(views(keyboards@)) {
                    Some(bpm) => bpm,
                    None => bpm,
                },
                numbers,
            }),
            editor@.wf(),
    {
        let tree = build_tree_entries(&keyboards);
        let global_bpm = match find_first_bpm(&keyboards) {
            Some(first) => first,
            None => bpm,
        };
        let rows: usize = if keyboards.len() > 0 && keyboards[0].splits.len() > 0 {
            match &keyboards[0].splits[0].instrument {
                Some(p) => p.params.len(),
                None => 0,
            }
        } else {
            0
        };
        let mut param_filtered: Vec<usize> = Vec::new();
        let mut i: usize = 0;
        while i < rows
            invariant
                i <= rows,
                param_filtered@ == Seq::new(i as nat, |i: int| i as usize),
            decreases rows - i,
        {
            param_filtered.push(i);
            assert(param_filtered@ =~= Seq::new((i + 1) as nat, |i: int| i as usize));
            i = i + 1;
        }
        Editor {
            active_tab: 0,
            keyboards,
            tree,
            chain_selected: 0,
            param_selected: 0,
            focus_params: false,
            help_offset: 0,
            scrollbar_dragging: false,
            param_dragging: false,
            param_scrollbar_dragging: false,
            selector: None,
            targets: None,
            bpm_edit: None,
            value_edit: None,
            range_edit: None,
            param_filter: String::new(),
            param_filtering: false,
            param_filtered,
            quit: false,
            dirty: false,
            global_bpm,
            numbers,
        }
    }
}

} // verus!
