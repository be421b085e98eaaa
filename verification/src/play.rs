//! Loading a session's plugins: what the audio graph is told of each, and what the user interface
//! shows of it.
use vstd::prelude::*;

use crate::graph::GraphCommand;
use crate::lane::{empty_buffers, new_buffers};
use crate::model::views;
use crate::plugin::ParameterInfo;
use crate::remap::NoteRemapper;
use crate::session::{
    reversed, EffectConfig, KeyboardConfig, ModulatorConfig, PatternConfig, PluginConfig, SessionConfig, SplitConfig,
};
use crate::startup::{
    apply_overrides, configured_source, keyboard_name, keyboard_title, load_modulators, load_pattern,
    modulator_commands, overridden, override_commands, pattern_start, target_infos, SlotPlace,
};
use crate::tui::editor::Numbers;
use crate::tui::load::{
    start_view, start_views, LoadedKeyboard, LoadedModulator, LoadedPattern, LoadedPlugin, LoadedSplit, StartCommand,
};

verus! {

/// A plugin that was opened, with what it says of itself.
#[derive(Debug)]
pub struct Opened<P, F> {
    pub plugin: P,
    pub name: String,
    pub source: String,
    pub outputs: usize,
    pub sample_rate: F,
    pub params: Vec<ParameterInfo<F>>,
}

/// An instrument that was opened, with the note remapper that it gets. Its volume is `plain` where
/// the session leaves it as it is.
#[derive(Debug)]
pub struct OpenedInstrument<P, F> {
    pub opened: Opened<P, F>,
    pub remapper: Option<NoteRemapper>,
    pub plain: bool,
}

/// The plugins of a split that were opened, and the length of its pattern in samples.
#[derive(Debug)]
pub struct OpenedSplit<P, F> {
    pub instrument: Option<OpenedInstrument<P, F>>,
    pub effects: Vec<Opened<P, F>>,
    pub samples: u64,
}

// ---------------------------------------------------------------------------
// Plugins
// ---------------------------------------------------------------------------

/// What the user interface is told of modulators is what the session configures.
pub open spec fn shows_modulators<F>(
    loaded: Seq<LoadedModulator<F>>,
    mods: Seq<ModulatorConfig<F>>,
    params: Seq<ParameterInfo<F>>,
    n: Numbers<F>,
) -> bool {
    &&& loaded.len() == mods.len()
    &&& forall|i: int|
        0 <= i < mods.len() ==> (#[trigger] loaded[i]).source == configured_source(mods[i]) && views(
            loaded[i].targets@,
        ) == target_infos(mods[i].targets@, params, n, mods[i].targets@.len() as int)
}

/// What the user interface is told of a plugin: what it says of itself, with the parameter values
/// and the modulators that the session gives it.
pub open spec fn plugin_loaded<P, F>(
    l: LoadedPlugin<F>,
    o: Opened<P, F>,
    is_instrument: bool,
    overrides: Seq<(String, F)>,
    mods: Seq<ModulatorConfig<F>>,
    n: Numbers<F>,
) -> bool {
    &&& l.name == o.name
    &&& l.id == o.source
    &&& l.is_instrument == is_instrument
    &&& l.params == o.params
    &&& l.param_values@ == overridden(o.params@, overrides, overrides.len() as int)
    &&& shows_modulators(l.modulators@, mods, o.params@, n)
}

/// The commands that set a plugin up once it is in its place: the parameters that the session
/// gives, then the modulators.
pub open spec fn setup_commands<P, F>(
    params: Seq<ParameterInfo<F>>,
    overrides: Seq<(String, F)>,
    mods: Seq<ModulatorConfig<F>>,
    n: Numbers<F>,
    at: SlotPlace,
) -> Seq<GraphCommand<P, F>> {
    override_commands::<P, F>(params, overrides, at.kb, at.split, at.slot, overrides.len() as int)
        + modulator_commands::<P, F>(mods, params, n, at, mods.len() as int)
}

/// What the audio graph is told of an instrument: it takes its place with one empty buffer for each
/// of its outputs, gets a volume where that is not `plain`, and is set up.
pub open spec fn instrument_start<P, F>(
    config: PluginConfig<F>,
    i: OpenedInstrument<P, F>,
    n: Numbers<F>,
    kb: usize,
    split: usize,
) -> Seq<StartCommand<P, F>> {
    seq![
        StartCommand::Install {
            kb,
            split,
            instrument: i.opened.plugin,
            sample_rate: i.opened.sample_rate,
            buffers: empty_buffers::<F>(i.opened.outputs as int),
            remapper: i.remapper,
        },
    ] + start_views(
        (if i.plain {
            Seq::empty()
        } else {
            seq![GraphCommand::SetVolume { kb, split, value: config.volume }]
        }) + setup_commands::<P, F>(
            i.opened.params@,
            config.params@,
            config.modulators@,
            n,
            SlotPlace { kb, split, slot: 0 },
        ),
    )
}

/// What the audio graph is told of the effect at `index`: it goes to the end of the chain with its
/// mix, and is set up.
pub open spec fn effect_start<P, F>(
    config: EffectConfig<F>,
    o: Opened<P, F>,
    n: Numbers<F>,
    kb: usize,
    split: usize,
    index: usize,
) -> Seq<StartCommand<P, F>> {
    start_views(
        seq![
            GraphCommand::InsertEffect { kb, split, index, effect: o.plugin, outputs: o.outputs, mix: config.mix },
        ] + setup_commands::<P, F>(
            o.params@,
            config.params@,
            config.modulators@,
            n,
            SlotPlace { kb, split, slot: (index + 1) as usize },
        ),
    )
}

/// Appends commands.
fn append_commands<P, F>(commands: &mut Vec<GraphCommand<P, F>>, more: Vec<GraphCommand<P, F>>)
    ensures
        final(commands)@ == old(commands)@ + more@,
        start_views(final(commands)@) == start_views(old(commands)@) + start_views(more@),
{
    let ghost added = more@;
    let mut more = more;
    commands.append(&mut more);
    assert(start_views(commands@) =~= start_views(old(commands)@) + start_views(added));
}

/// Loads the instrument of a split. The user interface is told of it as it is then.
pub fn load_instrument<P, F: Copy>(
    config: &PluginConfig<F>,
    i: OpenedInstrument<P, F>,
    n: &Numbers<F>,
    kb: usize,
    split: usize,
) -> (r: (Vec<GraphCommand<P, F>>, LoadedPlugin<F>))
    ensures
        start_views(r.0@) == instrument_start(*config, i, *n, kb, split),
        plugin_loaded(r.1, i.opened, true, config.params@, config.modulators@, *n),
{
    let at = SlotPlace { kb, split, slot: 0 };
    let opened = i.opened;
    let (overrides, values) = apply_overrides::<P, F>(&opened.params, &config.params, kb, split, 0);
    let (setup, modulators) = load_modulators::<P, F>(&config.modulators, &opened.params, n, at);
    let mut commands: Vec<GraphCommand<P, F>> = Vec::new();
    commands.push(
        GraphCommand::SwapInstrument {
            kb,
            split,
            instrument: opened.plugin,
            sample_rate: opened.sample_rate,
            inst_buf: new_buffers(opened.outputs),
            remapper: i.remapper,
        },
    );
    let ghost first = commands@;
    if !i.plain {
        commands.push(GraphCommand::SetVolume { kb, split, value: config.volume });
    }
    append_commands(&mut commands, overrides);
    append_commands(&mut commands, setup);
    proof {
        let rest = (if i.plain {
            Seq::empty()
        } else {
            seq![GraphCommand::<P, F>::SetVolume { kb, split, value: config.volume }]
        }) + setup_commands::<P, F>(opened.params@, config.params@, config.modulators@, *n, at);
        assert(commands@ =~= first + rest);
        assert(start_views(commands@) =~= start_views(first) + start_views(rest));
        assert(start_views(first) =~= seq![start_view(first[0])]);
    }
    (
        commands,
        LoadedPlugin {
            name: opened.name,
            id: opened.source,
            is_instrument: true,
            params: opened.params,
            param_values: values,
            modulators,
        },
    )
}

/// Loads the effect at `index` of a split. The user interface is told of it as it is then.
pub fn load_effect<P, F: Copy>(
    config: &EffectConfig<F>,
    opened: Opened<P, F>,
    n: &Numbers<F>,
    kb: usize,
    split: usize,
    index: usize,
) -> (r: (Vec<GraphCommand<P, F>>, LoadedPlugin<F>))
    requires
        index < usize::MAX,
    ensures
        start_views(r.0@) == effect_start(*config, opened, *n, kb, split, index),
        plugin_loaded(r.1, opened, false, config.params@, config.modulators@, *n),
{
    let at = SlotPlace { kb, split, slot: index + 1 };
    let (overrides, values) = apply_overrides::<P, F>(&opened.params, &config.params, kb, split, index + 1);
    let (setup, modulators) = load_modulators::<P, F>(&config.modulators, &opened.params, n, at);
    let mut commands: Vec<GraphCommand<P, F>> = Vec::new();
    commands.push(
        GraphCommand::InsertEffect {
            kb,
            split,
            index,
            effect: opened.plugin,
            outputs: opened.outputs,
            mix: config.mix,
        },
    );
    let ghost first = commands@;
    append_commands(&mut commands, overrides);
    append_commands(&mut commands, setup);
    assert(commands@ =~= first + setup_commands::<P, F>(opened.params@, config.params@, config.modulators@, *n, at));
    (
        commands,
        LoadedPlugin {
            name: opened.name,
            id: opened.source,
            is_instrument: false,
            params: opened.params,
            param_values: values,
            modulators,
        },
    )
}

// ---------------------------------------------------------------------------
// Splits
// ---------------------------------------------------------------------------

/// What the audio graph is told of the first `count` effects, in order.
pub open spec fn effects_start<P, F>(
    configs: Seq<EffectConfig<F>>,
    opened: Seq<Opened<P, F>>,
    n: Numbers<F>,
    kb: usize,
    split: usize,
    count: int,
) -> Seq<StartCommand<P, F>>
    decreases count,
{
    if count <= 0 {
        Seq::empty()
    } else {
        effects_start(configs, opened, n, kb, split, count - 1) + effect_start(
            configs[count - 1],
            opened[count - 1],
            n,
            kb,
            split,
            (count - 1) as usize,
        )
    }
}

/// What the audio graph is told of a split: the split, its instrument, its effects and its pattern.
pub open spec fn split_load<P, F>(config: SplitConfig<F>, o: OpenedSplit<P, F>, n: Numbers<F>, kb: usize, split: usize) -> Seq<
    StartCommand<P, F>,
> {
    seq![StartCommand::Plain(GraphCommand::AddSplit { kb, range: config.range })] + (match config.instrument {
        Some(c) => instrument_start(c, o.instrument->0, n, kb, split),
        None => Seq::empty(),
    }) + effects_start(config.effects@, o.effects@, n, kb, split, config.effects@.len() as int) + (
    match config.pattern {
        Some(p) => pattern_start(p, kb, split, o.samples),
        None => Seq::empty(),
    })
}

/// What the user interface is told of a pattern is what the session holds.
pub open spec fn pattern_loaded<F>(l: LoadedPattern<F>, p: PatternConfig<F>) -> bool {
    &&& l.bpm == p.bpm
    &&& l.length_beats == p.length_beats
    &&& l.looping == p.looping
    &&& l.base_note == p.base_note
    &&& l.events@ == p.events@
    &&& l.enabled == p.enabled
}

/// What the user interface is told of a split is what the session configures of it.
pub open spec fn split_loaded<P, F>(l: LoadedSplit<F>, config: SplitConfig<F>, o: OpenedSplit<P, F>, n: Numbers<F>) -> bool {
    &&& l.range == config.range
    &&& l.transpose == config.transpose
    &&& match config.instrument {
        Some(c) => l.instrument is Some && plugin_loaded(
            l.instrument->0,
            (o.instrument->0).opened,
            true,
            c.params@,
            c.modulators@,
            n,
        ),
        None => l.instrument is None,
    }
    &&& l.effects@.len() == config.effects@.len()
    &&& forall|i: int|
        0 <= i < config.effects@.len() ==> plugin_loaded(
            #[trigger] l.effects@[i],
            o.effects@[i],
            false,
            config.effects@[i].params@,
            config.effects@[i].modulators@,
            n,
        )
    &&& match config.pattern {
        Some(p) => l.pattern is Some && pattern_loaded(l.pattern->0, p),
        None => l.pattern is None,
    }
}

/// Every plugin of a split was opened, and no other.
pub open spec fn opened_for_split<P, F>(o: OpenedSplit<P, F>, config: SplitConfig<F>) -> bool {
    o.instrument is Some == config.instrument is Some && o.effects@.len() == config.effects@.len()
}

/// Loads the plugins and the pattern of a split.
pub fn load_split<P, F: Copy>(config: &SplitConfig<F>, opened: OpenedSplit<P, F>, n: &Numbers<F>, kb: usize, split: usize) -> (r: (
    Vec<GraphCommand<P, F>>,
    LoadedSplit<F>,
))
    requires
        opened_for_split(opened, *config),
    ensures
        start_views(r.0@) == split_load(*config, opened, *n, kb, split),
        split_loaded(r.1, *config, opened, *n),
{
    let ghost whole = opened.effects@;
    let mut commands: Vec<GraphCommand<P, F>> = Vec::new();
    commands.push(GraphCommand::AddSplit { kb, range: config.range });
    let ghost mut told = start_views(commands@);
    assert(told =~= seq![StartCommand::Plain(GraphCommand::AddSplit { kb, range: config.range })]);
    let mut instrument: Option<LoadedPlugin<F>> = None;
    if let Some(c) = &config.instrument {
        if let Some(i) = opened.instrument {
            let (more, loaded) = load_instrument(c, i, n, kb, split);
            append_commands(&mut commands, more);
            instrument = Some(loaded);
        }
    }
    let ghost before = start_views(commands@);
    assert(before =~= told + (match config.instrument {
        Some(c) => instrument_start(c, opened.instrument->0, *n, kb, split),
        None => Seq::empty(),
    }));
    let mut rest: Vec<Opened<P, F>> = reversed(opened.effects);
    let mut effects: Vec<LoadedPlugin<F>> = Vec::new();
    let mut index: usize = 0;
    assert(before =~= before + effects_start(config.effects@, whole, *n, kb, split, 0));
    while index < config.effects.len()
        invariant
            index <= config.effects@.len(),
            whole.len() == config.effects@.len(),
            rest@.len() + index == whole.len(),
            forall|k: int| 0 <= k < rest@.len() ==> #[trigger] rest@[k] == whole[whole.len() - 1 - k],
            start_views(commands@) == before + effects_start(config.effects@, whole, *n, kb, split, index as int),
            effects@.len() == index,
            forall|k: int|
                0 <= k < index ==> plugin_loaded(
                    #[trigger] effects@[k],
                    whole[k],
                    false,
                    config.effects@[k].params@,
                    config.effects@[k].modulators@,
                    *n,
                ),
        decreases config.effects@.len() - index,
    {
        if let Some(o) = rest.pop() {
            assert(o == whole[index as int]);
            let (more, loaded) = load_effect(&config.effects[index], o, n, kb, split, index);
            append_commands(&mut commands, more);
            effects.push(loaded);
            assert(start_views(commands@) =~= before + effects_start(config.effects@, whole, *n, kb, split, index + 1));
        }
        index = index + 1;
    }
    let ghost after = start_views(commands@);
    let mut pattern: Option<LoadedPattern<F>> = None;
    if let Some(p) = &config.pattern {
        let (more, loaded) = load_pattern(p, kb, split, opened.samples);
        append_commands(&mut commands, more);
        pattern = Some(loaded);
    }
    assert(start_views(commands@) =~= after + (match config.pattern {
        Some(p) => pattern_start(p, kb, split, opened.samples),
        None => Seq::empty(),
    }));
    (commands, LoadedSplit { range: config.range, transpose: config.transpose, instrument, effects, pattern })
}

// ---------------------------------------------------------------------------
// Sessions
// ---------------------------------------------------------------------------

/// What the audio graph is told of the first `count` splits of a keyboard, in order.
pub open spec fn splits_load<P, F>(
    configs: Seq<SplitConfig<F>>,
    opened: Seq<OpenedSplit<P, F>>,
    n: Numbers<F>,
    kb: usize,
    count: int,
) -> Seq<StartCommand<P, F>>
    decreases count,
{
    if count <= 0 {
        Seq::empty()
    } else {
        splits_load(configs, opened, n, kb, count - 1) + split_load(
            configs[count - 1],
            opened[count - 1],
            n,
            kb,
            (count - 1) as usize,
        )
    }
}

/// What the audio graph is told of the first `count` keyboards of a session, in order.
pub open spec fn keyboards_load<P, F>(
    configs: Seq<KeyboardConfig<F>>,
    opened: Seq<Vec<OpenedSplit<P, F>>>,
    n: Numbers<F>,
    count: int,
) -> Seq<StartCommand<P, F>>
    decreases count,
{
    if count <= 0 {
        Seq::empty()
    } else {
        keyboards_load(configs, opened, n, count - 1) + seq![StartCommand::Plain(GraphCommand::AddKeyboard)]
            + splits_load(
            configs[count - 1].splits@,
            opened[count - 1]@,
            n,
            (count - 1) as usize,
            configs[count - 1].splits@.len() as int,
        )
    }
}

/// Every plugin of a keyboard was opened, and no other.
pub open spec fn opened_for_splits<P, F>(opened: Seq<OpenedSplit<P, F>>, configs: Seq<SplitConfig<F>>) -> bool {
    &&& opened.len() == configs.len()
    &&& forall|i: int| 0 <= i < configs.len() ==> opened_for_split(opened[i], #[trigger] configs[i])
}

/// Every plugin of a session was opened, and no other.
pub open spec fn opened_for<P, F>(opened: Seq<Vec<OpenedSplit<P, F>>>, configs: Seq<KeyboardConfig<F>>) -> bool {
    &&& opened.len() == configs.len()
    &&& forall|k: int| 0 <= k < configs.len() ==> opened_for_splits(opened[k]@, (#[trigger] configs[k]).splits@)
}

/// What the user interface is told of splits is what the session configures of them.
pub open spec fn splits_loaded<P, F>(
    l: Seq<LoadedSplit<F>>,
    configs: Seq<SplitConfig<F>>,
    opened: Seq<OpenedSplit<P, F>>,
    n: Numbers<F>,
) -> bool {
    &&& l.len() == configs.len()
    &&& forall|i: int| 0 <= i < configs.len() ==> split_loaded(#[trigger] l[i], configs[i], opened[i], n)
}

/// What the user interface is told of keyboards is what the session configures of them.
pub open spec fn keyboards_loaded<P, F>(
    l: Seq<LoadedKeyboard<F>>,
    configs: Seq<KeyboardConfig<F>>,
    opened: Seq<Vec<OpenedSplit<P, F>>>,
    n: Numbers<F>,
) -> bool {
    &&& l.len() == configs.len()
    &&& forall|k: int|
        0 <= k < configs.len() ==> (#[trigger] l[k]).name@ == keyboard_title(configs[k].name, k as usize)
            && splits_loaded(l[k].splits@, configs[k].splits@, opened[k]@, n)
}

fn load_splits<P, F: Copy>(configs: &Vec<SplitConfig<F>>, opened: Vec<OpenedSplit<P, F>>, n: &Numbers<F>, kb: usize) -> (r: (
    Vec<GraphCommand<P, F>>,
    Vec<LoadedSplit<F>>,
))
    requires
        opened_for_splits(opened@, configs@),
    ensures
        start_views(r.0@) == splits_load(configs@, opened@, *n, kb, configs@.len() as int),
        splits_loaded(r.1@, configs@, opened@, *n),
{
    let ghost whole = opened@;
    let mut rest: Vec<OpenedSplit<P, F>> = reversed(opened);
    let mut commands: Vec<GraphCommand<P, F>> = Vec::new();
    let mut splits: Vec<LoadedSplit<F>> = Vec::new();
    let mut index: usize = 0;
    assert(start_views(commands@) =~= Seq::empty());
    while index < configs.len()
        invariant
            index <= configs@.len(),
            opened_for_splits(whole, configs@),
            rest@.len() + index == whole.len(),
            forall|k: int| 0 <= k < rest@.len() ==> #[trigger] rest@[k] == whole[whole.len() - 1 - k],
            start_views(commands@) == splits_load(configs@, whole, *n, kb, index as int),
            splits@.len() == index,
            forall|k: int| 0 <= k < index ==> split_loaded(#[trigger] splits@[k], configs@[k], whole[k], *n),
        decreases configs@.len() - index,
    {
        if let Some(o) = rest.pop() {
            assert(o == whole[index as int]);
            assert(opened_for_split(whole[index as int], configs@[index as int]));
            let (more, loaded) = load_split(&configs[index], o, n, kb, index);
            append_commands(&mut commands, more);
            splits.push(loaded);
        }
        index = index + 1;
    }
    (commands, splits)
}

/// Loads a session whose plugins were opened: the commands to send to an empty audio graph, and
/// what the user interface is told.
pub fn load_session<P, F: Copy>(config: &SessionConfig<F>, opened: Vec<Vec<OpenedSplit<P, F>>>, n: &Numbers<F>) -> (r: (
    Vec<GraphCommand<P, F>>,
    Vec<LoadedKeyboard<F>>,
))
    requires
        opened_for(opened@, config.keyboards@),
    ensures
        start_views(r.0@) == keyboards_load(config.keyboards@, opened@, *n, config.keyboards@.len() as int),
        keyboards_loaded(r.1@, config.keyboards@, opened@, *n),
{
    let ghost whole = opened@;
    let configs = &config.keyboards;
    let mut rest: Vec<Vec<OpenedSplit<P, F>>> = reversed(opened);
    let mut commands: Vec<GraphCommand<P, F>> = Vec::new();
    let mut keyboards: Vec<LoadedKeyboard<F>> = Vec::new();
    let mut kb: usize = 0;
    assert(start_views(commands@) =~= Seq::empty());
    while kb < configs.len()
        invariant
            kb <= configs@.len(),
            opened_for(whole, configs@),
            rest@.len() + kb == whole.len(),
            forall|k: int| 0 <= k < rest@.len() ==> #[trigger] rest@[k] == whole[whole.len() - 1 - k],
            start_views(commands@) == keyboards_load(configs@, whole, *n, kb as int),
            keyboards@.len() == kb,
            forall|k: int|
                0 <= k < kb ==> (#[trigger] keyboards@[k]).name@ == keyboard_title(configs@[k].name, k as usize)
                    && splits_loaded(keyboards@[k].splits@, configs@[k].splits@, whole[k]@, *n),
        decreases configs@.len() - kb,
    {
        if let Some(o) = rest.pop() {
            assert(o == whole[kb as int]);
            assert(opened_for_splits(whole[kb as int]@, configs@[kb as int].splits@));
            let ghost before = commands@;
            commands.push(GraphCommand::AddKeyboard);
            assert(start_views(commands@) =~= start_views(before) + seq![StartCommand::Plain(GraphCommand::AddKeyboard)]);
            let (more, splits) = load_splits(&configs[kb].splits, o, n, kb);
            append_commands(&mut commands, more);
            keyboards.push(LoadedKeyboard { name: keyboard_name(&configs[kb].name, kb), splits });
        }
        kb = kb + 1;
    }
    (commands, keyboards)
}

} // verus!
