//! The audio graph: keyboards, each with splits that are summed, and the commands that change it
//! while it runs.
use vstd::prelude::*;

use crate::lane::{
    envelope_set, rate_set, remapper_view, Instrument, LaneDefaults, LaneView, SplitLane,
};
use crate::model::{
    moved, nth_mut, tally, tally_concat, tally_insert, tally_remove, tally_same, tally_update, views,
};
use crate::modulation::{CrossModField, LfoWaveform, ModSource, ModTarget, ModulatorView};
use crate::pattern::{notification_view, NotificationView, Pattern, PatternNotification, PlayerView};
use crate::remap::NoteRemapper;

verus! {

/// Commands that change the audio graph. Slot 0 of a split is its instrument, effects count from 1.
#[derive(Debug)]
pub enum GraphCommand<P, F> {
    /// Put another instrument into a split.
    SwapInstrument {
        kb: usize,
        split: usize,
        instrument: P,
        sample_rate: F,
        inst_buf: Vec<Vec<F>>,
        remapper: Option<NoteRemapper>,
    },
    /// Put an effect with `outputs` audio outputs into a split's chain.
    InsertEffect { kb: usize, split: usize, index: usize, effect: P, outputs: usize, mix: F },
    /// Take an effect out of a split's chain.
    RemoveEffect { kb: usize, split: usize, index: usize },
    /// Move an effect within a split's chain.
    ReorderEffect { kb: usize, split: usize, from: usize, to: usize },
    /// Set a parameter of a plugin.
    SetParameter { kb: usize, split: usize, slot: usize, param_index: u32, value: F },
    /// Set the dry/wet mix of an effect.
    SetMix { kb: usize, split: usize, slot: usize, value: F },
    /// Set the volume of a split's instrument.
    SetVolume { kb: usize, split: usize, value: F },
    /// Set the note range of a split; no range is the full range.
    SetSplitRange { kb: usize, split: usize, range: Option<(u8, u8)> },
    /// Add a keyboard without splits.
    AddKeyboard,
    /// Remove a keyboard and all its splits.
    RemoveKeyboard { kb: usize },
    /// Take the instrument out of a split.
    RemoveInstrument { kb: usize, split: usize },
    /// Exchange the instruments of two splits, with their buffers and remappers.
    SwapInstruments { kb: usize, split_a: usize, split_b: usize },
    /// Add an empty split to a keyboard.
    AddSplit { kb: usize, range: Option<(u8, u8)> },
    /// Remove a split from a keyboard.
    RemoveSplit { kb: usize, split: usize },
    /// Add a modulator to a slot.
    InsertModulator { kb: usize, split: usize, parent_slot: usize, index: usize, source: ModSource<F> },
    /// Remove a modulator from a slot.
    RemoveModulator { kb: usize, split: usize, parent_slot: usize, index: usize },
    /// Set the rate of an LFO.
    SetModulatorRate { kb: usize, split: usize, parent_slot: usize, mod_index: usize, rate: F },
    /// Set the waveform of an LFO.
    SetModulatorWaveform {
        kb: usize,
        split: usize,
        parent_slot: usize,
        mod_index: usize,
        waveform: LfoWaveform,
    },
    /// Replace the source of a modulator.
    SetModulatorSource {
        kb: usize,
        split: usize,
        parent_slot: usize,
        mod_index: usize,
        source: ModSource<F>,
    },
    /// Set the parameters of an envelope.
    SetModulatorEnvelopeParam {
        kb: usize,
        split: usize,
        parent_slot: usize,
        mod_index: usize,
        attack: F,
        decay: F,
        sustain: F,
        release: F,
    },
    /// Add a target to a modulator.
    AddModTarget { kb: usize, split: usize, parent_slot: usize, mod_index: usize, target: ModTarget<F> },
    /// Remove a target from a modulator.
    RemoveModTarget {
        kb: usize,
        split: usize,
        parent_slot: usize,
        mod_index: usize,
        target_index: usize,
    },
    /// Set the depth of a modulator's target.
    SetModTargetDepth {
        kb: usize,
        split: usize,
        parent_slot: usize,
        mod_index: usize,
        target_index: usize,
        depth: F,
    },
    /// Switch pattern playback of a split.
    SetPatternEnabled { kb: usize, split: usize, enabled: bool },
    /// Start or stop pattern recording in a split.
    SetPatternRecording { kb: usize, split: usize, recording: bool },
    /// Set the pattern of a split.
    SetPattern { kb: usize, split: usize, pattern: Pattern, base_note: Option<u8> },
    /// Drop the pattern of a split.
    ClearPattern { kb: usize, split: usize },
    /// Exchange the patterns of two splits.
    SwapPatterns { kb: usize, split_a: usize, split_b: usize },
    /// Set the tempo of all pattern players.
    SetGlobalBpm { bpm: F },
    /// Set the length of a split's pattern.
    SetPatternLength { kb: usize, split: usize, beats: F },
    /// Set whether a split's pattern loops or plays once.
    SetPatternLooping { kb: usize, split: usize, looping: bool },
    /// Set the transposition of a split.
    SetTranspose { kb: usize, split: usize, semitones: i8 },
}

/// A keyboard: its splits.
#[derive(Debug)]
pub struct KeyboardLane<P, F> {
    pub splits: Vec<SplitLane<P, F>>,
}

impl<P, F> View for KeyboardLane<P, F> {
    type V = Seq<LaneView<P, F>>;

    open spec fn view(&self) -> Seq<LaneView<P, F>> {
        views(self.splits@)
    }
}

/// Keyboards with splits; all splits are summed into the output.
#[derive(Debug)]
pub struct AudioGraph<P, F> {
    pub keyboards: Vec<KeyboardLane<P, F>>,
    pub num_channels: usize,
    /// Whether anybody wants to hear of finished pattern recordings.
    pub listening: bool,
    pub defaults: LaneDefaults<F>,
}

/// The mathematical content of an [`AudioGraph`].
#[verifier::ext_equal]
pub struct GraphView<P, F> {
    pub keyboards: Seq<Seq<LaneView<P, F>>>,
    pub num_channels: usize,
    pub listening: bool,
    pub defaults: LaneDefaults<F>,
}

impl<P, F> View for AudioGraph<P, F> {
    type V = GraphView<P, F>;

    open spec fn view(&self) -> GraphView<P, F> {
        GraphView {
            keyboards: views(self.keyboards@),
            num_channels: self.num_channels,
            listening: self.listening,
            defaults: self.defaults,
        }
    }
}

/// A parameter that is to be set on a plugin.
#[derive(Clone, Copy, Debug)]
pub struct ParameterWrite<F> {
    pub kb: usize,
    pub split: usize,
    pub slot: usize,
    pub param_index: u32,
    pub value: F,
}

/// What a command asks of the outside: plugins to hand back, a parameter to set, a finished
/// recording to report.
#[derive(Debug)]
pub struct Outcome<P, F> {
    pub returned: Vec<P>,
    pub parameter: Option<ParameterWrite<F>>,
    pub notification: Option<PatternNotification<F>>,
}

/// The mathematical content of an [`Outcome`].
#[verifier::ext_equal]
pub struct OutcomeView<P, F> {
    pub returned: Seq<P>,
    pub parameter: Option<ParameterWrite<F>>,
    pub notification: Option<NotificationView<F>>,
}

impl<P, F> View for Outcome<P, F> {
    type V = OutcomeView<P, F>;

    open spec fn view(&self) -> OutcomeView<P, F> {
        OutcomeView {
            returned: self.returned@,
            parameter: self.parameter,
            notification: notification_view(self.notification),
        }
    }
}

impl<P, F> OutcomeView<P, F> {
    /// Nothing is asked.
    pub open spec fn none() -> OutcomeView<P, F> {
        OutcomeView { returned: Seq::empty(), parameter: None, notification: None }
    }

    /// Plugins are handed back.
    pub open spec fn plugins(returned: Seq<P>) -> OutcomeView<P, F> {
        OutcomeView { returned, parameter: None, notification: None }
    }
}

/// Sample counts that belong to the tempo of a pattern player: the length of its pattern and of a
/// beat.
#[derive(Clone, Copy, Debug, PartialEq, Eq, Structural)]
pub struct Timing {
    pub pattern_samples: u64,
    pub beat_samples: u64,
}

/// What the sample counts of a pattern player follow from.
#[derive(Clone, Copy, Debug)]
pub struct Tempo<F> {
    pub bpm: F,
    pub length_beats: F,
    pub sample_rate: F,
}

// ---------------------------------------------------------------------------
// What commands do
// ---------------------------------------------------------------------------

/// The plugins of the first `count` splits.
pub open spec fn plugins_of_splits<P, F>(splits: Seq<LaneView<P, F>>, count: int) -> Seq<P>
    decreases count,
{
    if count <= 0 {
        Seq::empty()
    } else {
        plugins_of_splits(splits, count - 1) + splits[count - 1].plugins()
    }
}

/// The splits, numbered anew for their players.
pub open spec fn renumbered<P, F>(splits: Seq<LaneView<P, F>>) -> Seq<LaneView<P, F>> {
    Seq::new(
        splits.len(),
        |i: int|
            LaneView {
                pattern: PlayerView { split_index: i as usize, ..splits[i].pattern },
                ..splits[i]
            },
    )
}

/// Two splits with their instruments, buffers and remappers exchanged.
pub open spec fn instruments_swapped<P, F>(splits: Seq<LaneView<P, F>>, a: usize, b: usize) -> Seq<LaneView<P, F>> {
    if a < splits.len() && b < splits.len() && a != b {
        let x = splits[a as int];
        let y = splits[b as int];
        splits.update(
            a as int,
            LaneView { instrument: y.instrument, inst_buf: y.inst_buf, remapper: y.remapper, ..x },
        ).update(
            b as int,
            LaneView { instrument: x.instrument, inst_buf: x.inst_buf, remapper: x.remapper, ..y },
        )
    } else {
        splits
    }
}

/// Two splits with their patterns exchanged.
pub open spec fn patterns_swapped<P, F>(splits: Seq<LaneView<P, F>>, a: usize, b: usize) -> Seq<LaneView<P, F>> {
    if a < splits.len() && b < splits.len() {
        let tune_a = splits[a as int].pattern.tune();
        let tune_b = splits[b as int].pattern.tune();
        let once = splits.update(
            a as int,
            LaneView { pattern: splits[a as int].pattern.retuned(tune_b), ..splits[a as int] },
        );
        once.update(
            b as int,
            LaneView { pattern: once[b as int].pattern.retuned(tune_a), ..once[b as int] },
        )
    } else {
        splits
    }
}

impl<P, F> GraphView<P, F> {
    /// Every split has its effects, mix values and modulator lists in step.
    pub open spec fn wf(self) -> bool {
        forall|k: int, s: int|
            0 <= k < self.keyboards.len() && 0 <= s < self.keyboards[k].len() ==> (
            #[trigger] self.keyboards[k][s]).wf()
    }

    pub open spec fn has_split(self, kb: usize, split: usize) -> bool {
        kb < self.keyboards.len() && split < self.keyboards[kb as int].len()
    }

    pub open spec fn lane(self, kb: usize, split: usize) -> LaneView<P, F> {
        self.keyboards[kb as int][split as int]
    }

    pub open spec fn with_splits(self, kb: usize, splits: Seq<LaneView<P, F>>) -> GraphView<P, F> {
        GraphView { keyboards: self.keyboards.update(kb as int, splits), ..self }
    }

    pub open spec fn with_lane(self, kb: usize, split: usize, lane: LaneView<P, F>) -> GraphView<P, F> {
        self.with_splits(kb, self.keyboards[kb as int].update(split as int, lane))
    }

    /// The graph with one split changed by `f`, or unchanged where there is no such split.
    pub open spec fn on_lane(
        self,
        kb: usize,
        split: usize,
        f: spec_fn(LaneView<P, F>) -> LaneView<P, F>,
    ) -> GraphView<P, F> {
        if self.has_split(kb, split) {
            self.with_lane(kb, split, f(self.lane(kb, split)))
        } else {
            self
        }
    }

    /// The graph with the pattern player of one split changed by `f`.
    pub open spec fn on_player(
        self,
        kb: usize,
        split: usize,
        f: spec_fn(PlayerView<F>) -> PlayerView<F>,
    ) -> GraphView<P, F> {
        self.on_lane(kb, split, |l: LaneView<P, F>| LaneView { pattern: f(l.pattern), ..l })
    }

    /// The graph with the modulators of one slot changed by `f`.
    pub open spec fn on_modulators(
        self,
        kb: usize,
        split: usize,
        slot: usize,
        f: spec_fn(Seq<ModulatorView<F>>) -> Seq<ModulatorView<F>>,
    ) -> GraphView<P, F> {
        self.on_lane(
            kb,
            split,
            |l: LaneView<P, F>|
                match l.modulators(slot) {
                    Some(mods) => l.with_modulators(slot, f(mods)),
                    None => l,
                },
        )
    }

    /// The graph with one modulator changed by `f`.
    pub open spec fn on_modulator(
        self,
        kb: usize,
        split: usize,
        slot: usize,
        index: usize,
        f: spec_fn(ModulatorView<F>) -> ModulatorView<F>,
    ) -> GraphView<P, F> {
        self.on_lane(
            kb,
            split,
            |l: LaneView<P, F>|
                if l.has_modulator(slot, index) {
                    l.with_modulator(slot, index, f(l.modulator(slot, index)))
                } else {
                    l
                },
        )
    }

    /// The graph with the tempo of every player set.
    pub open spec fn with_bpm(self, bpm: F) -> GraphView<P, F> {
        GraphView {
            keyboards: self.keyboards.map_values(
                |splits: Seq<LaneView<P, F>>| splits_with_bpm(splits, bpm),
            ),
            ..self
        }
    }

    /// The graph after a command. `timing` belongs to the player that a recording command is for.
    pub open spec fn applied(self, cmd: GraphCommand<P, F>, timing: Timing) -> GraphView<P, F> {
        match cmd {
            GraphCommand::SwapInstrument { kb, split, instrument, sample_rate, inst_buf, remapper } => self.on_lane(
                kb,
                split,
                |l: LaneView<P, F>|
                    l.instrument_swapped(
                        Instrument { plugin: instrument, sample_rate },
                        views(inst_buf@),
                        remapper_view(remapper),
                    ),
            ),
            GraphCommand::InsertEffect { kb, split, index, effect, outputs, mix } => if outputs == self.num_channels {
                self.on_lane(kb, split, |l: LaneView<P, F>| l.effect_inserted(index, effect, mix))
            } else {
                self
            },
            GraphCommand::RemoveEffect { kb, split, index } => self.on_lane(
                kb,
                split,
                |l: LaneView<P, F>| l.effect_removed(index),
            ),
            GraphCommand::ReorderEffect { kb, split, from, to } => self.on_lane(
                kb,
                split,
                |l: LaneView<P, F>| l.effect_moved(from, to),
            ),
            GraphCommand::SetParameter { kb, split, slot, param_index, value } => self.on_lane(
                kb,
                split,
                |l: LaneView<P, F>| l.parameter_set(slot, param_index, value),
            ),
            GraphCommand::SetMix { kb, split, slot, value } => self.on_lane(
                kb,
                split,
                |l: LaneView<P, F>| l.mix_set(slot, value),
            ),
            GraphCommand::SetVolume { kb, split, value } => self.on_lane(
                kb,
                split,
                |l: LaneView<P, F>| LaneView { volume: value, ..l },
            ),
            GraphCommand::SetSplitRange { kb, split, range } => self.on_lane(
                kb,
                split,
                |l: LaneView<P, F>| LaneView { range, ..l },
            ),
            GraphCommand::AddKeyboard => GraphView { keyboards: self.keyboards.push(Seq::empty()), ..self },
            GraphCommand::RemoveKeyboard { kb } => if kb < self.keyboards.len() {
                GraphView { keyboards: self.keyboards.remove(kb as int), ..self }
            } else {
                self
            },
            GraphCommand::RemoveInstrument { kb, split } => self.on_lane(
                kb,
                split,
                |l: LaneView<P, F>| l.instrument_removed(),
            ),
            GraphCommand::SwapInstruments { kb, split_a, split_b } => if kb < self.keyboards.len() {
                self.with_splits(kb, instruments_swapped(self.keyboards[kb as int], split_a, split_b))
            } else {
                self
            },
            GraphCommand::AddSplit { kb, range } => if kb < self.keyboards.len() {
                let splits = self.keyboards[kb as int];
                self.with_splits(kb, splits.push(self.new_lane(kb, splits.len() as usize, range)))
            } else {
                self
            },
            GraphCommand::RemoveSplit { kb, split } => if self.has_split(kb, split) {
                self.with_splits(kb, renumbered(self.keyboards[kb as int].remove(split as int)))
            } else {
                self
            },
            GraphCommand::InsertModulator { kb, split, parent_slot, index, source } => self.on_lane(
                kb,
                split,
                |l: LaneView<P, F>| l.modulator_inserted(parent_slot, index, source, self.defaults),
            ),
            GraphCommand::RemoveModulator { kb, split, parent_slot, index } => self.on_lane(
                kb,
                split,
                |l: LaneView<P, F>| l.modulator_removed(parent_slot, index),
            ),
            GraphCommand::SetModulatorRate { kb, split, parent_slot, mod_index, rate } => self.on_modulators(
                kb,
                split,
                parent_slot,
                |mods: Seq<ModulatorView<F>>| rate_set(mods, mod_index, rate),
            ),
            GraphCommand::SetModulatorWaveform { kb, split, parent_slot, mod_index, waveform } => self.on_modulator(
                kb,
                split,
                parent_slot,
                mod_index,
                |m: ModulatorView<F>| m.with_waveform(waveform),
            ),
            GraphCommand::SetModulatorSource { kb, split, parent_slot, mod_index, source } => self.on_modulator(
                kb,
                split,
                parent_slot,
                mod_index,
                |m: ModulatorView<F>| ModulatorView { source, last_output: self.defaults.zero, ..m },
            ),
            GraphCommand::SetModulatorEnvelopeParam {
                kb,
                split,
                parent_slot,
                mod_index,
                attack,
                decay,
                sustain,
                release,
            } => self.on_modulators(
                kb,
                split,
                parent_slot,
                |mods: Seq<ModulatorView<F>>| envelope_set(mods, mod_index, attack, decay, sustain, release),
            ),
            GraphCommand::AddModTarget { kb, split, parent_slot, mod_index, target } => self.on_modulator(
                kb,
                split,
                parent_slot,
                mod_index,
                |m: ModulatorView<F>| ModulatorView { targets: m.targets.push(target), ..m },
            ),
            GraphCommand::RemoveModTarget { kb, split, parent_slot, mod_index, target_index } => self.on_modulator(
                kb,
                split,
                parent_slot,
                mod_index,
                |m: ModulatorView<F>| m.without_target(target_index),
            ),
            GraphCommand::SetModTargetDepth { kb, split, parent_slot, mod_index, target_index, depth } => {
                self.on_modulator(
                    kb,
                    split,
                    parent_slot,
                    mod_index,
                    |m: ModulatorView<F>| m.with_field(CrossModField::Depth(target_index), depth),
                )
            },
            GraphCommand::SetPatternEnabled { kb, split, enabled } => self.on_player(
                kb,
                split,
                |p: PlayerView<F>| PlayerView { enabled, ..p },
            ),
            GraphCommand::SetPatternRecording { kb, split, recording } => self.on_player(
                kb,
                split,
                |p: PlayerView<F>|
                    if recording {
                        p.count_in_started(kb, split, timing.beat_samples, self.defaults.zero)
                    } else {
                        p.stopped(timing.pattern_samples)
                    },
            ),
            GraphCommand::SetPattern { kb, split, pattern, base_note } => self.on_player(
                kb,
                split,
                |p: PlayerView<F>| p.loaded(pattern@, base_note),
            ),
            GraphCommand::ClearPattern { kb, split } => self.on_player(
                kb,
                split,
                |p: PlayerView<F>| p.cleared(),
            ),
            GraphCommand::SwapPatterns { kb, split_a, split_b } => if kb < self.keyboards.len() {
                self.with_splits(kb, patterns_swapped(self.keyboards[kb as int], split_a, split_b))
            } else {
                self
            },
            GraphCommand::SetGlobalBpm { bpm } => self.with_bpm(bpm),
            GraphCommand::SetPatternLength { kb, split, beats } => self.on_player(
                kb,
                split,
                |p: PlayerView<F>| PlayerView { length_beats: beats, ..p },
            ),
            GraphCommand::SetPatternLooping { kb, split, looping } => self.on_player(
                kb,
                split,
                |p: PlayerView<F>| PlayerView { looping, ..p },
            ),
            GraphCommand::SetTranspose { kb, split, semitones } => self.on_lane(
                kb,
                split,
                |l: LaneView<P, F>| LaneView { transpose: semitones, ..l },
            ),
        }
    }

    /// An empty split for place `split` of keyboard `kb`.
    pub open spec fn new_lane(self, kb: usize, split: usize, range: Option<(u8, u8)>) -> LaneView<P, F> {
        let l = LaneView::initial(self.num_channels as int, self.defaults);
        LaneView {
            range,
            pattern: PlayerView {
                kb_index: kb,
                split_index: split,
                listening: self.listening,
                ..l.pattern
            },
            ..l
        }
    }

    /// What a command asks of the outside.
    pub open spec fn outcome(self, cmd: GraphCommand<P, F>, timing: Timing) -> OutcomeView<P, F> {
        match cmd {
            GraphCommand::SwapInstrument { kb, split, .. } | GraphCommand::RemoveInstrument { kb, split } => {
                if self.has_split(kb, split) && self.lane(kb, split).instrument is Some {
                    OutcomeView::plugins(seq![self.lane(kb, split).instrument->0.plugin])
                } else {
                    OutcomeView::none()
                }
            },
            GraphCommand::InsertEffect { kb, split, effect, outputs, .. } => {
                if self.has_split(kb, split) && outputs != self.num_channels {
                    OutcomeView::plugins(seq![effect])
                } else {
                    OutcomeView::none()
                }
            },
            GraphCommand::RemoveEffect { kb, split, index } => {
                if self.has_split(kb, split) && index < self.lane(kb, split).effects.len() {
                    OutcomeView::plugins(seq![self.lane(kb, split).effects[index as int]])
                } else {
                    OutcomeView::none()
                }
            },
            GraphCommand::RemoveKeyboard { kb } => {
                if kb < self.keyboards.len() {
                    let splits = self.keyboards[kb as int];
                    OutcomeView::plugins(plugins_of_splits(splits, splits.len() as int))
                } else {
                    OutcomeView::none()
                }
            },
            GraphCommand::RemoveSplit { kb, split } => {
                if self.has_split(kb, split) {
                    OutcomeView::plugins(self.lane(kb, split).plugins())
                } else {
                    OutcomeView::none()
                }
            },
            GraphCommand::SetParameter { kb, split, slot, param_index, value } => {
                if self.has_split(kb, split) && self.lane(kb, split).has_plugin(slot) {
                    OutcomeView {
                        parameter: Some(ParameterWrite { kb, split, slot, param_index, value }),
                        ..OutcomeView::none()
                    }
                } else {
                    OutcomeView::none()
                }
            },
            GraphCommand::SetPatternRecording { kb, split, recording } => {
                if self.has_split(kb, split) && !recording {
                    OutcomeView {
                        notification: self.lane(kb, split).pattern.stop_report(timing.pattern_samples),
                        ..OutcomeView::none()
                    }
                } else {
                    OutcomeView::none()
                }
            },
            _ => OutcomeView::none(),
        }
    }
}

/// The splits with the tempo of their players set.
pub open spec fn splits_with_bpm<P, F>(splits: Seq<LaneView<P, F>>, bpm: F) -> Seq<LaneView<P, F>> {
    splits.map_values(
        |l: LaneView<P, F>| LaneView { pattern: PlayerView { bpm, ..l.pattern }, ..l },
    )
}

// ---------------------------------------------------------------------------
// The graph itself
// ---------------------------------------------------------------------------

impl<P, F> Outcome<P, F> {
    /// Nothing is asked.
    fn none() -> (o: Self)
        ensures
            o@ == OutcomeView::<P, F>::none(),
    {
        Outcome { returned: Vec::new(), parameter: None, notification: None }
    }

    /// At most one plugin is handed back.
    fn plugin(returned: Option<P>) -> (o: Self)
        ensures
            o@ == (match returned {
                Some(p) => OutcomeView::<P, F>::plugins(seq![p]),
                None => OutcomeView::none(),
            }),
    {
        let mut list: Vec<P> = Vec::new();
        if let Some(p) = returned {
            list.push(p);
            assert(list@ =~= seq![p]);
        }
        Outcome { returned: list, parameter: None, notification: None }
    }
}

/// Takes a lane apart into its plugins, appending them to `out`.
fn take_plugins<P, F: Copy>(lane: SplitLane<P, F>, out: &mut Vec<P>)
    ensures
        final(out)@ == old(out)@ + lane@.plugins(),
{
    let ghost start = out@;
    if let Some(i) = lane.instrument {
        out.push(i.plugin);
    }
    let mut effects = lane.effects;
    out.append(&mut effects);
    assert(out@ =~= start + lane@.plugins());
}

impl<P, F: Copy> AudioGraph<P, F> {
    /// A graph without keyboards.
    pub fn new(num_channels: usize, defaults: LaneDefaults<F>) -> (graph: Self)
        ensures
            graph@ == (GraphView::<P, F> { keyboards: Seq::empty(), num_channels, listening: false, defaults }),
            graph@.wf(),
    {
        AudioGraph { keyboards: Vec::new(), num_channels, listening: false, defaults }
    }

    /// The number of output channels.
    pub fn num_channels(&self) -> (n: usize)
        ensures
            n == self@.num_channels,
    {
        self.num_channels
    }

    fn get_split_mut(&mut self, kb: usize, split: usize) -> (lane: Option<&mut SplitLane<P, F>>)
        ensures
            match lane {
                Some(l) => old(self)@.has_split(kb, split) && l@ == old(self)@.lane(kb, split) && final(self)@
                    == old(self)@.with_lane(kb, split, final(l)@),
                None => !old(self)@.has_split(kb, split) && final(self)@ == old(self)@,
            },
    {
        proof {
            self@.lemma_same_splits(kb);
        }
        match nth_mut(&mut self.keyboards, kb) {
            Some(keyboard) => nth_mut(&mut keyboard.splits, split),
            None => None,
        }
    }

    /// What the sample counts of the player that `cmd` is for follow from. Commands that need no
    /// sample counts have none.
    pub fn tempo_for(&self, cmd: &GraphCommand<P, F>) -> (tempo: Option<Tempo<F>>)
        ensures
            tempo == (match *cmd {
                GraphCommand::SetPatternRecording { kb, split, .. } => if self@.has_split(kb, split) {
                    let p = self@.lane(kb, split).pattern;
                    Some(Tempo { bpm: p.bpm, length_beats: p.length_beats, sample_rate: p.sample_rate })
                } else {
                    None
                },
                _ => None,
            }),
    {
        match *cmd {
            GraphCommand::SetPatternRecording { kb, split, .. } => {
                if kb < self.keyboards.len() && split < self.keyboards[kb].splits.len() {
                    let p = &self.keyboards[kb].splits[split].pattern;
                    Some(Tempo { bpm: p.bpm, length_beats: p.length_beats, sample_rate: p.sample_rate })
                } else {
                    None
                }
            },
            _ => None,
        }
    }

    /// Carries out a command. A command for a place that does not exist changes nothing.
    #[verifier::rlimit(60)]
    pub fn apply_command(&mut self, cmd: GraphCommand<P, F>, timing: Timing) -> (outcome: Outcome<P, F>)
        requires
            old(self)@.wf(),
        ensures
            final(self)@ == old(self)@.applied(cmd, timing),
            final(self)@.wf(),
            outcome@ == old(self)@.outcome(cmd, timing),
    {
        proof {
            old(self)@.applying_keeps_wf(cmd, timing);
        }
        let defaults = self.defaults;
        match cmd {
            GraphCommand::SwapInstrument { kb, split, instrument, sample_rate, inst_buf, remapper } => {
                let mut old_plugin: Option<P> = None;
                if let Some(lane) = self.get_split_mut(kb, split) {
                    old_plugin =
                    lane.swap_instrument(Instrument { plugin: instrument, sample_rate }, inst_buf, remapper);
                }
                Outcome::plugin(old_plugin)
            },
            GraphCommand::InsertEffect { kb, split, index, effect, outputs, mix } => {
                let num_channels: usize = self.num_channels;
                if outputs != num_channels {
                    if kb < self.keyboards.len() && split < self.keyboards[kb].splits.len() {
                        Outcome::plugin(Some(effect))
                    } else {
                        Outcome::none()
                    }
                } else {
                    if let Some(lane) = self.get_split_mut(kb, split) {
                        lane.insert_effect(index, effect, mix);
                    }
                    Outcome::none()
                }
            },
            GraphCommand::RemoveEffect { kb, split, index } => {
                let mut removed: Option<P> = None;
                if let Some(lane) = self.get_split_mut(kb, split) {
                    removed = lane.remove_effect(index);
                }
                Outcome::plugin(removed)
            },
            GraphCommand::ReorderEffect { kb, split, from, to } => {
                if let Some(lane) = self.get_split_mut(kb, split) {
                    lane.reorder_effect(from, to);
                }
                Outcome::none()
            },
            GraphCommand::SetParameter { kb, split, slot, param_index, value } => {
                let mut outcome = Outcome::none();
                if let Some(lane) = self.get_split_mut(kb, split) {
                    if lane.holds_plugin(slot) {
                        outcome.parameter = Some(ParameterWrite { kb, split, slot, param_index, value });
                    }
                    lane.note_parameter(slot, param_index, value);
                }
                outcome
            },
            GraphCommand::SetMix { kb, split, slot, value } => {
                if let Some(lane) = self.get_split_mut(kb, split) {
                    lane.set_mix(slot, value);
                }
                Outcome::none()
            },
            GraphCommand::SetVolume { kb, split, value } => {
                if let Some(lane) = self.get_split_mut(kb, split) {
                    lane.volume = value;
                }
                Outcome::none()
            },
            GraphCommand::SetSplitRange { kb, split, range } => {
                if let Some(lane) = self.get_split_mut(kb, split) {
                    lane.range = range;
                }
                Outcome::none()
            },
            GraphCommand::AddKeyboard => {
                self.add_keyboard();
                Outcome::none()
            },
            GraphCommand::RemoveKeyboard { kb } => self.remove_keyboard(kb),
            GraphCommand::RemoveInstrument { kb, split } => {
                let mut removed: Option<P> = None;
                if let Some(lane) = self.get_split_mut(kb, split) {
                    removed = lane.remove_instrument();
                }
                Outcome::plugin(removed)
            },
            GraphCommand::SwapInstruments { kb, split_a, split_b } => {
                self.swap_instruments(kb, split_a, split_b);
                Outcome::none()
            },
            GraphCommand::AddSplit { kb, range } => {
                self.add_split(kb, range);
                Outcome::none()
            },
            GraphCommand::RemoveSplit { kb, split } => self.remove_split(kb, split),
            GraphCommand::InsertModulator { kb, split, parent_slot, index, source } => {
                if let Some(lane) = self.get_split_mut(kb, split) {
                    lane.insert_modulator(parent_slot, index, source, defaults);
                }
                Outcome::none()
            },
            GraphCommand::RemoveModulator { kb, split, parent_slot, index } => {
                if let Some(lane) = self.get_split_mut(kb, split) {
                    lane.remove_modulator(parent_slot, index);
                }
                Outcome::none()
            },
            GraphCommand::SetModulatorRate { kb, split, parent_slot, mod_index, rate } => {
                if let Some(lane) = self.get_split_mut(kb, split) {
                    lane.set_rate(parent_slot, mod_index, rate);
                }
                Outcome::none()
            },
            GraphCommand::SetModulatorWaveform { kb, split, parent_slot, mod_index, waveform } => {
                if let Some(lane) = self.get_split_mut(kb, split) {
                    lane.set_waveform(parent_slot, mod_index, waveform);
                }
                Outcome::none()
            },
            GraphCommand::SetModulatorSource { kb, split, parent_slot, mod_index, source } => {
                if let Some(lane) = self.get_split_mut(kb, split) {
                    lane.set_source(parent_slot, mod_index, source, defaults.zero);
                }
                Outcome::none()
            },
            GraphCommand::SetModulatorEnvelopeParam {
                kb,
                split,
                parent_slot,
                mod_index,
                attack,
                decay,
                sustain,
                release,
            } => {
                if let Some(lane) = self.get_split_mut(kb, split) {
                    lane.set_envelope(parent_slot, mod_index, attack, decay, sustain, release);
                }
                Outcome::none()
            },
            GraphCommand::AddModTarget { kb, split, parent_slot, mod_index, target } => {
                if let Some(lane) = self.get_split_mut(kb, split) {
                    lane.add_target(parent_slot, mod_index, target);
                }
                Outcome::none()
            },
            GraphCommand::RemoveModTarget { kb, split, parent_slot, mod_index, target_index } => {
                if let Some(lane) = self.get_split_mut(kb, split) {
                    lane.remove_target(parent_slot, mod_index, target_index);
                }
                Outcome::none()
            },
            GraphCommand::SetModTargetDepth { kb, split, parent_slot, mod_index, target_index, depth } => {
                if let Some(lane) = self.get_split_mut(kb, split) {
                    lane.set_target_depth(parent_slot, mod_index, target_index, depth);
                }
                Outcome::none()
            },
            GraphCommand::SetPatternEnabled { kb, split, enabled } => {
                if let Some(lane) = self.get_split_mut(kb, split) {
                    lane.pattern.enabled = enabled;
                }
                Outcome::none()
            },
            GraphCommand::SetPatternRecording { kb, split, recording } => {
                let mut outcome = Outcome::none();
                if let Some(lane) = self.get_split_mut(kb, split) {
                    if recording {
                        lane.pattern.start_count_in(kb, split, timing.beat_samples, defaults.zero);
                    } else {
                        outcome.notification = lane.pattern.stop_recording(timing.pattern_samples);
                    }
                }
                outcome
            },
            GraphCommand::SetPattern { kb, split, pattern, base_note } => {
                if let Some(lane) = self.get_split_mut(kb, split) {
                    lane.pattern.load(pattern, base_note);
                }
                Outcome::none()
            },
            GraphCommand::SwapPatterns { kb, split_a, split_b } => {
                self.swap_patterns(kb, split_a, split_b);
                Outcome::none()
            },
            GraphCommand::ClearPattern { kb, split } => {
                if let Some(lane) = self.get_split_mut(kb, split) {
                    lane.pattern.clear();
                }
                Outcome::none()
            },
            GraphCommand::SetGlobalBpm { bpm } => {
                self.set_bpm(bpm);
                Outcome::none()
            },
            GraphCommand::SetPatternLength { kb, split, beats } => {
                if let Some(lane) = self.get_split_mut(kb, split) {
                    lane.pattern.length_beats = beats;
                }
                Outcome::none()
            },
            GraphCommand::SetPatternLooping { kb, split, looping } => {
                if let Some(lane) = self.get_split_mut(kb, split) {
                    lane.pattern.looping = looping;
                }
                Outcome::none()
            },
            GraphCommand::SetTranspose { kb, split, semitones } => {
                if let Some(lane) = self.get_split_mut(kb, split) {
                    lane.transpose = semitones;
                }
                Outcome::none()
            },
        }
    }

    fn add_keyboard(&mut self)
        ensures
            final(self)@ == (GraphView { keyboards: old(self)@.keyboards.push(Seq::empty()), ..old(self)@ }),
    {
        self.keyboards.push(KeyboardLane { splits: Vec::new() });
        assert(views(Seq::<SplitLane<P, F>>::empty()) =~= Seq::<LaneView<P, F>>::empty());
        assert(self@.keyboards =~= old(self)@.keyboards.push(Seq::empty()));
    }

    fn remove_keyboard(&mut self, kb: usize) -> (outcome: Outcome<P, F>)
        ensures
            final(self)@ == (if kb < old(self)@.keyboards.len() {
                GraphView { keyboards: old(self)@.keyboards.remove(kb as int), ..old(self)@ }
            } else {
                old(self)@
            }),
            outcome@ == (if kb < old(self)@.keyboards.len() {
                let splits = old(self)@.keyboards[kb as int];
                OutcomeView::<P, F>::plugins(plugins_of_splits(splits, splits.len() as int))
            } else {
                OutcomeView::none()
            }),
    {
        if kb >= self.keyboards.len() {
            return Outcome::none();
        }
        let removed = self.keyboards.remove(kb);
        assert(self@.keyboards =~= old(self)@.keyboards.remove(kb as int));
        let ghost splits = views(removed.splits@);
        assert(splits == old(self)@.keyboards[kb as int]);
        let ghost whole = removed.splits@;
        let mut rest = removed.splits;
        let mut taken: Vec<SplitLane<P, F>> = Vec::new();
        while rest.len() > 0
            invariant
                rest@.len() + taken@.len() == whole.len(),
                rest@ == whole.take(rest@.len() as int),
                forall|k: int| 0 <= k < taken@.len() ==> #[trigger] taken@[k] == whole[whole.len() - 1 - k],
            decreases rest@.len(),
        {
            let ghost m = rest@.len();
            if let Some(lane) = rest.pop() {
                taken.push(lane);
            }
            assert(rest@ =~= whole.take(m - 1));
        }
        let mut returned: Vec<P> = Vec::new();
        while taken.len() > 0
            invariant
                taken@.len() <= whole.len(),
                splits == views(whole),
                forall|k: int| 0 <= k < taken@.len() ==> #[trigger] taken@[k] == whole[whole.len() - 1 - k],
                returned@ == plugins_of_splits(splits, whole.len() - taken@.len()),
            decreases taken@.len(),
        {
            if let Some(lane) = taken.pop() {
                take_plugins(lane, &mut returned);
            }
        }
        Outcome { returned, parameter: None, notification: None }
    }

    fn swap_instruments(&mut self, kb: usize, split_a: usize, split_b: usize)
        ensures
            final(self)@ == (if kb < old(self)@.keyboards.len() {
                old(self)@.with_splits(
                    kb,
                    instruments_swapped(old(self)@.keyboards[kb as int], split_a, split_b),
                )
            } else {
                old(self)@
            }),
    {
        proof {
            self@.lemma_same_splits(kb);
        }
        if let Some(keyboard) = nth_mut(&mut self.keyboards, kb) {
            if split_a < keyboard.splits.len() && split_b < keyboard.splits.len() && split_a != split_b {
                exchange_instruments(&mut keyboard.splits, split_a, split_b);
            }
        }
    }

    fn swap_patterns(&mut self, kb: usize, split_a: usize, split_b: usize)
        ensures
            final(self)@ == (if kb < old(self)@.keyboards.len() {
                old(self)@.with_splits(
                    kb,
                    patterns_swapped(old(self)@.keyboards[kb as int], split_a, split_b),
                )
            } else {
                old(self)@
            }),
    {
        proof {
            self@.lemma_same_splits(kb);
        }
        if let Some(keyboard) = nth_mut(&mut self.keyboards, kb) {
            if split_a < keyboard.splits.len() && split_b < keyboard.splits.len() {
                let ghost before = views(keyboard.splits@);
                let tune_a = keyboard.splits[split_a].pattern.copy_tune();
                let tune_b = keyboard.splits[split_b].pattern.copy_tune();
                keyboard.splits[split_a].pattern.retune(tune_b);
                assert(views(keyboard.splits@) =~= before.update(
                    split_a as int,
                    LaneView {
                        pattern: before[split_a as int].pattern.retuned(tune_b@),
                        ..before[split_a as int]
                    },
                ));
                let ghost once = views(keyboard.splits@);
                keyboard.splits[split_b].pattern.retune(tune_a);
                assert(views(keyboard.splits@) =~= once.update(
                    split_b as int,
                    LaneView { pattern: once[split_b as int].pattern.retuned(tune_a@), ..once[split_b as int] },
                ));
            }
        }
    }

    fn add_split(&mut self, kb: usize, range: Option<(u8, u8)>)
        ensures
            final(self)@ == (if kb < old(self)@.keyboards.len() {
                let splits = old(self)@.keyboards[kb as int];
                old(self)@.with_splits(
                    kb,
                    splits.push(old(self)@.new_lane(kb, splits.len() as usize, range)),
                )
            } else {
                old(self)@
            }),
    {
        let mut lane = SplitLane::new(self.num_channels, self.defaults);
        lane.range = range;
        lane.pattern.kb_index = kb;
        lane.pattern.listening = self.listening;
        if let Some(keyboard) = nth_mut(&mut self.keyboards, kb) {
            let ghost before = views(keyboard.splits@);
            lane.pattern.split_index = keyboard.splits.len();
            let ghost content = lane@;
            keyboard.splits.push(lane);
            assert(views(keyboard.splits@) =~= before.push(content));
        }
    }

    fn remove_split(&mut self, kb: usize, split: usize) -> (outcome: Outcome<P, F>)
        ensures
            final(self)@ == (if old(self)@.has_split(kb, split) {
                old(self)@.with_splits(kb, renumbered(old(self)@.keyboards[kb as int].remove(split as int)))
            } else {
                old(self)@
            }),
            outcome@ == (if old(self)@.has_split(kb, split) {
                OutcomeView::<P, F>::plugins(old(self)@.lane(kb, split).plugins())
            } else {
                OutcomeView::none()
            }),
    {
        proof {
            self@.lemma_same_splits(kb);
        }
        let mut returned: Vec<P> = Vec::new();
        if let Some(keyboard) = nth_mut(&mut self.keyboards, kb) {
            if split < keyboard.splits.len() {
                let ghost before = views(keyboard.splits@);
                let removed = keyboard.splits.remove(split);
                assert(views(keyboard.splits@) =~= before.remove(split as int));
                assert(removed@ == before[split as int]);
                take_plugins(removed, &mut returned);
                assert(returned@ =~= before[split as int].plugins());
                renumber(&mut keyboard.splits);
            }
        }
        Outcome { returned, parameter: None, notification: None }
    }

    fn set_bpm(&mut self, bpm: F)
        ensures
            final(self)@ == old(self)@.with_bpm(bpm),
    {
        let n: usize = self.keyboards.len();
        let mut i: usize = 0;
        while i < n
            invariant
                i <= n,
                n == self.keyboards@.len(),
                n == old(self).keyboards@.len(),
                self@ == (GraphView { keyboards: self@.keyboards, ..old(self)@ }),
                forall|k: int|
                    0 <= k < i ==> (#[trigger] self.keyboards@[k])@ == splits_with_bpm(
                        old(self).keyboards@[k]@,
                        bpm,
                    ),
                forall|k: int| i <= k < n ==> #[trigger] self.keyboards@[k] == old(self).keyboards@[k],
            decreases n - i,
        {
            set_splits_bpm(&mut self.keyboards[i].splits, bpm);
            i = i + 1;
        }
        assert(self@.keyboards =~= old(self)@.with_bpm(bpm).keyboards);
    }

    /// From now on, somebody wants to hear of finished recordings. Every player learns of it, and
    /// of its own place.
    pub fn listen(&mut self)
        ensures
            final(self)@ == old(self)@.listened(),
    {
        self.listening = true;
        let n: usize = self.keyboards.len();
        let mut i: usize = 0;
        while i < n
            invariant
                i <= n,
                n == self.keyboards@.len(),
                n == old(self).keyboards@.len(),
                self@ == (GraphView { keyboards: self@.keyboards, listening: true, ..old(self)@ }),
                forall|k: int|
                    0 <= k < i ==> (#[trigger] self.keyboards@[k])@ == placed(
                        old(self).keyboards@[k]@,
                        k as usize,
                    ),
                forall|k: int| i <= k < n ==> #[trigger] self.keyboards@[k] == old(self).keyboards@[k],
            decreases n - i,
        {
            place_splits(&mut self.keyboards[i].splits, i);
            i = i + 1;
        }
        assert(self@.keyboards =~= old(self)@.listened().keyboards);
    }
}

/// The splits of keyboard `kb` with players that report, each from its own place.
pub open spec fn placed<P, F>(splits: Seq<LaneView<P, F>>, kb: usize) -> Seq<LaneView<P, F>> {
    Seq::new(
        splits.len(),
        |i: int|
            LaneView {
                pattern: PlayerView {
                    listening: true,
                    kb_index: kb,
                    split_index: i as usize,
                    ..splits[i].pattern
                },
                ..splits[i]
            },
    )
}

fn place_splits<P, F: Copy>(splits: &mut Vec<SplitLane<P, F>>, kb: usize)
    ensures
        views(final(splits)@) == placed(views(old(splits)@), kb),
{
    let n: usize = splits.len();
    let mut i: usize = 0;
    while i < n
        invariant
            i <= n,
            n == splits@.len(),
            n == old(splits)@.len(),
            forall|k: int|
                0 <= k < i ==> (#[trigger] splits@[k])@ == placed(views(old(splits)@), kb)[k],
            forall|k: int| i <= k < n ==> #[trigger] splits@[k] == old(splits)@[k],
        decreases n - i,
    {
        let lane = &mut splits[i];
        lane.pattern.listening = true;
        lane.pattern.kb_index = kb;
        lane.pattern.split_index = i;
        i = i + 1;
    }
    assert(views(splits@) =~= placed(views(old(splits)@), kb));
}

fn renumber<P, F: Copy>(splits: &mut Vec<SplitLane<P, F>>)
    ensures
        views(final(splits)@) == renumbered(views(old(splits)@)),
{
    let n: usize = splits.len();
    let mut i: usize = 0;
    while i < n
        invariant
            i <= n,
            n == splits@.len(),
            n == old(splits)@.len(),
            forall|k: int|
                0 <= k < i ==> (#[trigger] splits@[k])@ == renumbered(views(old(splits)@))[k],
            forall|k: int| i <= k < n ==> #[trigger] splits@[k] == old(splits)@[k],
        decreases n - i,
    {
        splits[i].pattern.split_index = i;
        i = i + 1;
    }
    assert(views(splits@) =~= renumbered(views(old(splits)@)));
}

fn set_splits_bpm<P, F: Copy>(splits: &mut Vec<SplitLane<P, F>>, bpm: F)
    ensures
        views(final(splits)@) == splits_with_bpm(views(old(splits)@), bpm),
{
    let n: usize = splits.len();
    let mut i: usize = 0;
    while i < n
        invariant
            i <= n,
            n == splits@.len(),
            n == old(splits)@.len(),
            forall|k: int|
                0 <= k < i ==> (#[trigger] splits@[k])@ == splits_with_bpm(views(old(splits)@), bpm)[k],
            forall|k: int| i <= k < n ==> #[trigger] splits@[k] == old(splits)@[k],
        decreases n - i,
    {
        splits[i].pattern.bpm = bpm;
        i = i + 1;
    }
    assert(views(splits@) =~= splits_with_bpm(views(old(splits)@), bpm));
}

fn exchange_instruments<P, F: Copy>(splits: &mut Vec<SplitLane<P, F>>, a: usize, b: usize)
    requires
        a < old(splits)@.len(),
        b < old(splits)@.len(),
        a != b,
    ensures
        views(final(splits)@) == instruments_swapped(views(old(splits)@), a, b),
{
    let ghost before = views(splits@);
    let mut instrument: Option<Instrument<P, F>> = splits[a].instrument.take();
    let mut inst_buf: Vec<Vec<F>> = Vec::new();
    std::mem::swap(&mut inst_buf, &mut splits[a].inst_buf);
    let mut remapper: Option<NoteRemapper> = splits[a].remapper.take();
    std::mem::swap(&mut instrument, &mut splits[b].instrument);
    std::mem::swap(&mut inst_buf, &mut splits[b].inst_buf);
    std::mem::swap(&mut remapper, &mut splits[b].remapper);
    splits[a].instrument = instrument;
    splits[a].inst_buf = inst_buf;
    splits[a].remapper = remapper;
    assert(views(splits@) =~= instruments_swapped(before, a, b));
}

impl<P, F> GraphView<P, F> {
    /// The graph with every player reporting from its own place.
    pub open spec fn listened(self) -> GraphView<P, F> {
        GraphView {
            keyboards: Seq::new(
                self.keyboards.len(),
                |k: int| placed(self.keyboards[k], k as usize),
            ),
            listening: true,
            ..self
        }
    }

    proof fn lemma_same_splits(self, kb: usize)
        ensures
            kb < self.keyboards.len() ==> self.with_splits(kb, self.keyboards[kb as int]) == self,
    {
        if kb < self.keyboards.len() {
            assert(self.keyboards.update(kb as int, self.keyboards[kb as int]) =~= self.keyboards);
        }
    }

    /// No command brings the effects of a split, their mix values and their modulator lists out of
    /// step.
    pub proof fn applying_keeps_wf(self, cmd: GraphCommand<P, F>, timing: Timing)
        requires
            self.wf(),
        ensures
            self.applied(cmd, timing).wf(),
    {
    }
}

// ---------------------------------------------------------------------------
// Laws
// ---------------------------------------------------------------------------

/// Counts `p` among plugins.
pub open spec fn is_plugin<P>(p: P) -> spec_fn(P) -> int {
    |x: P|
        if x == p {
            1int
        } else {
            0int
        }
}

/// Counts `p` among the plugins of a split.
pub open spec fn in_lane<P, F>(p: P) -> spec_fn(LaneView<P, F>) -> int {
    |l: LaneView<P, F>| tally(l.plugins(), is_plugin(p))
}

/// Counts `p` among the plugins of a keyboard.
pub open spec fn in_splits<P, F>(p: P) -> spec_fn(Seq<LaneView<P, F>>) -> int {
    |splits: Seq<LaneView<P, F>>| tally(splits, in_lane(p))
}

impl<P, F> GraphView<P, F> {
    /// How often the graph holds plugin `p`.
    pub open spec fn holds(self, p: P) -> int {
        tally(self.keyboards, in_splits(p))
    }

    proof fn lemma_holds_splits(self, kb: usize, splits: Seq<LaneView<P, F>>, p: P)
        requires
            kb < self.keyboards.len(),
        ensures
            self.with_splits(kb, splits).holds(p) == self.holds(p) - tally(
                self.keyboards[kb as int],
                in_lane(p),
            ) + tally(splits, in_lane(p)),
    {
        tally_update(self.keyboards, in_splits(p), kb as int, splits);
    }

    proof fn lemma_holds_lane(self, kb: usize, split: usize, lane: LaneView<P, F>, p: P)
        requires
            self.has_split(kb, split),
        ensures
            self.with_lane(kb, split, lane).holds(p) == self.holds(p) - tally(
                self.lane(kb, split).plugins(),
                is_plugin(p),
            ) + tally(lane.plugins(), is_plugin(p)),
    {
        self.lemma_holds_splits(kb, self.keyboards[kb as int].update(split as int, lane), p);
        tally_update(self.keyboards[kb as int], in_lane(p), split as int, lane);
    }
}

/// The plugin that a command brings along.
pub open spec fn brought<P, F>(cmd: GraphCommand<P, F>) -> Option<P> {
    match cmd {
        GraphCommand::SwapInstrument { instrument, .. } => Some(instrument),
        GraphCommand::InsertEffect { effect, .. } => Some(effect),
        _ => None,
    }
}

/// Whether the split that a command brings a plugin for exists.
pub open spec fn has_destination<P, F>(g: GraphView<P, F>, cmd: GraphCommand<P, F>) -> bool {
    match cmd {
        GraphCommand::SwapInstrument { kb, split, .. } => g.has_split(kb, split),
        GraphCommand::InsertEffect { kb, split, .. } => g.has_split(kb, split),
        _ => true,
    }
}

/// How often the plugin that a command brings along is `p`.
pub open spec fn brings<P, F>(cmd: GraphCommand<P, F>, p: P) -> int {
    match brought(cmd) {
        Some(x) => is_plugin(p)(x),
        None => 0,
    }
}

proof fn lemma_lane_plugins<P, F>(l: LaneView<P, F>, p: P)
    ensures
        tally(l.plugins(), is_plugin(p)) == tally(l.effects, is_plugin(p)) + (match l.instrument {
            Some(i) => is_plugin(p)(i.plugin),
            None => 0,
        }),
{
    if let Some(i) = l.instrument {
        tally_concat(seq![i.plugin], l.effects, is_plugin(p));
        lemma_tally_one(i.plugin, p);
    }
}

proof fn lemma_tally_one<P>(x: P, p: P)
    ensures
        tally(seq![x], is_plugin(p)) == is_plugin(p)(x),
        tally(Seq::<P>::empty(), is_plugin(p)) == 0,
{
    assert(seq![x].drop_last() =~= Seq::<P>::empty());
    reveal_with_fuel(tally, 2);
}

proof fn lemma_tally_splits<P, F>(splits: Seq<LaneView<P, F>>, n: int, p: P)
    requires
        0 <= n <= splits.len(),
    ensures
        tally(plugins_of_splits(splits, n), is_plugin(p)) == tally(splits.take(n), in_lane(p)),
    decreases n,
{
    if n > 0 {
        lemma_tally_splits(splits, n - 1, p);
        assert(splits.take(n).drop_last() =~= splits.take(n - 1));
        tally_concat(plugins_of_splits(splits, n - 1), splits[n - 1].plugins(), is_plugin(p));
    }
}

/// No plugin is lost or doubled: whatever the graph held and the command brought along is
/// afterwards in the graph or handed back. The one way out is a command that brings a plugin for a
/// split that does not exist.
#[verifier::rlimit(60)]
pub proof fn plugins_are_conserved<P, F>(g: GraphView<P, F>, cmd: GraphCommand<P, F>, timing: Timing, p: P)
    requires
        g.wf(),
        has_destination(g, cmd),
    ensures
        g.holds(p) + brings(cmd, p) == g.applied(cmd, timing).holds(p) + tally(
            g.outcome(cmd, timing).returned,
            is_plugin(p),
        ),
{
    lemma_tally_one(p, p);
    match cmd {
        GraphCommand::AddKeyboard => {
            tally_insert(g.keyboards, in_splits(p), g.keyboards.len() as int, Seq::empty());
            assert(g.keyboards.insert(g.keyboards.len() as int, Seq::empty()) =~= g.keyboards.push(Seq::empty()));
        },
        GraphCommand::RemoveKeyboard { kb } => {
            if kb < g.keyboards.len() {
                let splits = g.keyboards[kb as int];
                tally_remove(g.keyboards, in_splits(p), kb as int);
                lemma_tally_splits(splits, splits.len() as int, p);
                assert(splits.take(splits.len() as int) =~= splits);
            }
        },
        GraphCommand::AddSplit { kb, range } => {
            if kb < g.keyboards.len() {
                let splits = g.keyboards[kb as int];
                let lane = g.new_lane(kb, splits.len() as usize, range);
                g.lemma_holds_splits(kb, splits.push(lane), p);
                tally_insert(splits, in_lane(p), splits.len() as int, lane);
                assert(splits.insert(splits.len() as int, lane) =~= splits.push(lane));
                lemma_lane_plugins(lane, p);
            }
        },
        GraphCommand::RemoveSplit { kb, split } => {
            if g.has_split(kb, split) {
                let splits = g.keyboards[kb as int];
                let rest = splits.remove(split as int);
                g.lemma_holds_splits(kb, renumbered(rest), p);
                tally_remove(splits, in_lane(p), split as int);
                tally_same(renumbered(rest), rest, in_lane(p));
            }
        },
        GraphCommand::SwapInstruments { kb, split_a, split_b } => {
            if kb < g.keyboards.len() {
                let splits = g.keyboards[kb as int];
                g.lemma_holds_splits(kb, instruments_swapped(splits, split_a, split_b), p);
                if split_a < splits.len() && split_b < splits.len() && split_a != split_b {
                    let x = splits[split_a as int];
                    let y = splits[split_b as int];
                    let x2 = LaneView { instrument: y.instrument, inst_buf: y.inst_buf, remapper: y.remapper, ..x };
                    let y2 = LaneView { instrument: x.instrument, inst_buf: x.inst_buf, remapper: x.remapper, ..y };
                    tally_update(splits, in_lane(p), split_a as int, x2);
                    tally_update(splits.update(split_a as int, x2), in_lane(p), split_b as int, y2);
                    lemma_lane_plugins(x, p);
                    lemma_lane_plugins(y, p);
                    lemma_lane_plugins(x2, p);
                    lemma_lane_plugins(y2, p);
                }
            }
        },
        GraphCommand::SwapPatterns { kb, split_a, split_b } => {
            if kb < g.keyboards.len() {
                let splits = g.keyboards[kb as int];
                let swapped = patterns_swapped(splits, split_a, split_b);
                g.lemma_holds_splits(kb, swapped, p);
                tally_same(swapped, splits, in_lane(p));
            }
        },
        GraphCommand::SetGlobalBpm { bpm } => {
            assert forall|k: int| 0 <= k < g.keyboards.len() implies in_splits(p)(
                #[trigger] g.with_bpm(bpm).keyboards[k],
            ) == in_splits(p)(g.keyboards[k]) by {
                tally_same(g.with_bpm(bpm).keyboards[k], g.keyboards[k], in_lane(p));
            }
            tally_same(g.with_bpm(bpm).keyboards, g.keyboards, in_splits(p));
        },
        _ => {
            lemma_lane_command_conserves(g, cmd, timing, p);
        },
    }
}

/// The split that a command on a single split is for.
pub open spec fn target_split<P, F>(cmd: GraphCommand<P, F>) -> Option<(usize, usize)> {
    match cmd {
        GraphCommand::SwapInstrument { kb, split, .. } => Some((kb, split)),
        GraphCommand::InsertEffect { kb, split, .. } => Some((kb, split)),
        GraphCommand::RemoveEffect { kb, split, .. } => Some((kb, split)),
        GraphCommand::ReorderEffect { kb, split, .. } => Some((kb, split)),
        GraphCommand::SetParameter { kb, split, .. } => Some((kb, split)),
        GraphCommand::SetMix { kb, split, .. } => Some((kb, split)),
        GraphCommand::SetVolume { kb, split, .. } => Some((kb, split)),
        GraphCommand::SetSplitRange { kb, split, .. } => Some((kb, split)),
        GraphCommand::RemoveInstrument { kb, split } => Some((kb, split)),
        GraphCommand::InsertModulator { kb, split, .. } => Some((kb, split)),
        GraphCommand::RemoveModulator { kb, split, .. } => Some((kb, split)),
        GraphCommand::SetModulatorRate { kb, split, .. } => Some((kb, split)),
        GraphCommand::SetModulatorWaveform { kb, split, .. } => Some((kb, split)),
        GraphCommand::SetModulatorSource { kb, split, .. } => Some((kb, split)),
        GraphCommand::SetModulatorEnvelopeParam { kb, split, .. } => Some((kb, split)),
        GraphCommand::AddModTarget { kb, split, .. } => Some((kb, split)),
        GraphCommand::RemoveModTarget { kb, split, .. } => Some((kb, split)),
        GraphCommand::SetModTargetDepth { kb, split, .. } => Some((kb, split)),
        GraphCommand::SetPatternEnabled { kb, split, .. } => Some((kb, split)),
        GraphCommand::SetPatternRecording { kb, split, .. } => Some((kb, split)),
        GraphCommand::SetPattern { kb, split, .. } => Some((kb, split)),
        GraphCommand::ClearPattern { kb, split } => Some((kb, split)),
        GraphCommand::SetPatternLength { kb, split, .. } => Some((kb, split)),
        GraphCommand::SetPatternLooping { kb, split, .. } => Some((kb, split)),
        GraphCommand::SetTranspose { kb, split, .. } => Some((kb, split)),
        _ => None,
    }
}

#[verifier::rlimit(60)]
proof fn lemma_lane_command_conserves<P, F>(g: GraphView<P, F>, cmd: GraphCommand<P, F>, timing: Timing, p: P)
    requires
        g.wf(),
        has_destination(g, cmd),
        target_split(cmd) is Some,
    ensures
        g.holds(p) + brings(cmd, p) == g.applied(cmd, timing).holds(p) + tally(
            g.outcome(cmd, timing).returned,
            is_plugin(p),
        ),
{
    let (kb, split) = target_split(cmd)->0;
    lemma_tally_one(p, p);
    if g.has_split(kb, split) {
        let before = g.lane(kb, split);
        let after = g.applied(cmd, timing).lane(kb, split);
        assert(g.applied(cmd, timing) =~= g.with_lane(kb, split, after)) by {
            assert(g.with_lane(kb, split, before).keyboards =~= g.keyboards) by {
                assert(g.keyboards[kb as int].update(split as int, before) =~= g.keyboards[kb as int]);
            }
        }
        g.lemma_holds_lane(kb, split, after, p);
        lemma_lane_plugins(before, p);
        lemma_lane_plugins(after, p);
        match cmd {
            GraphCommand::SwapInstrument { instrument, .. } => {
                lemma_tally_one(instrument, p);
                if let Some(i) = before.instrument {
                    lemma_tally_one(i.plugin, p);
                }
            },
            GraphCommand::InsertEffect { index, effect, .. } => {
                lemma_tally_one(effect, p);
                if g.applied(cmd, timing) != g {
                    tally_insert(
                        before.effects,
                        is_plugin(p),
                        if index < before.effects.len() {
                            index as int
                        } else {
                            before.effects.len() as int
                        },
                        effect,
                    );
                }
            },
            GraphCommand::RemoveEffect { index, .. } => {
                if index < before.effects.len() {
                    lemma_tally_one(before.effects[index as int], p);
                    tally_remove(before.effects, is_plugin(p), index as int);
                }
            },
            GraphCommand::ReorderEffect { from, to, .. } => {
                if from < before.effects.len() && to < before.effects.len() {
                    let e = before.effects[from as int];
                    tally_remove(before.effects, is_plugin(p), from as int);
                    tally_insert(before.effects.remove(from as int), is_plugin(p), to as int, e);
                }
            },
            GraphCommand::RemoveInstrument { .. } => {
                if let Some(i) = before.instrument {
                    lemma_tally_one(i.plugin, p);
                }
            },
            _ => {},
        }
    }
}

/// A command for a split that does not exist changes nothing and asks for nothing.
pub proof fn missing_split_changes_nothing<P, F>(
    g: GraphView<P, F>,
    cmd: GraphCommand<P, F>,
    timing: Timing,
    kb: usize,
    split: usize,
)
    requires
        target_split(cmd) == Some((kb, split)) || cmd == (GraphCommand::<P, F>::RemoveSplit { kb, split }),
        !g.has_split(kb, split),
    ensures
        g.applied(cmd, timing) == g,
        g.outcome(cmd, timing) == OutcomeView::<P, F>::none(),
{
}

/// A command on one split leaves every other split alone.
pub proof fn other_splits_are_untouched<P, F>(
    g: GraphView<P, F>,
    cmd: GraphCommand<P, F>,
    timing: Timing,
    kb: usize,
    split: usize,
)
    requires
        target_split(cmd) is Some,
        target_split(cmd) != Some((kb, split)),
        g.has_split(kb, split),
    ensures
        g.applied(cmd, timing).has_split(kb, split),
        g.applied(cmd, timing).lane(kb, split) == g.lane(kb, split),
        g.applied(cmd, timing).keyboards.len() == g.keyboards.len(),
{
}

/// Exchanging two instruments twice changes nothing.
pub proof fn swapping_instruments_twice_restores<P, F>(splits: Seq<LaneView<P, F>>, a: usize, b: usize)
    ensures
        instruments_swapped(instruments_swapped(splits, a, b), a, b) == splits,
{
    assert(instruments_swapped(instruments_swapped(splits, a, b), a, b) =~= splits);
}

/// An effect put into a chain and taken out again at the place where it landed leaves the split as
/// it was.
pub proof fn inserting_then_removing_effect_restores<P, F>(l: LaneView<P, F>, index: usize, effect: P, mix: F)
    requires
        l.wf(),
        index <= l.effects.len(),
    ensures
        l.effect_inserted(index, effect, mix).effect_removed(index) == l,
{
    assert(l.effect_inserted(index, effect, mix).effect_removed(index) =~= l);
}

/// Moving an effect away and back leaves the split as it was.
pub proof fn moving_effect_back_restores<P, F>(l: LaneView<P, F>, from: usize, to: usize)
    requires
        l.wf(),
    ensures
        l.effect_moved(from, to).effect_moved(to, from) == l,
{
    if from < l.effects.len() && to < l.effects.len() && from != to {
        assert(moved(moved(l.effects, from as int, to as int), to as int, from as int) =~= l.effects);
        assert(moved(moved(l.mix_values, from as int, to as int), to as int, from as int) =~= l.mix_values);
        assert(moved(moved(l.effect_modulators, from as int, to as int), to as int, from as int)
            =~= l.effect_modulators);
    }
}

/// Removing a split numbers the players of the splits that remain by their places.
pub proof fn players_know_their_place<P, F>(
    g: GraphView<P, F>,
    timing: Timing,
    kb: usize,
    split: usize,
    i: int,
)
    requires
        g.has_split(kb, split),
        0 <= i < g.keyboards[kb as int].len() - 1,
        i <= usize::MAX,
    ensures
        g.applied(GraphCommand::RemoveSplit { kb, split }, timing).keyboards[kb as int][i].pattern.split_index == i,
{
}

} // verus!
