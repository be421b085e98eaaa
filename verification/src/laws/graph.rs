//! Laws of the audio graph and its commands.
use vstd::prelude::*;

use crate::graph::{plugins_of_splits, GraphCommand, GraphView, Timing};
use crate::lane::{remapper_view, Instrument, LaneView, RenderPath};
use crate::laws::modulation::{set_envelopes_hold, set_rates_hold_and_rebase};
use crate::model::views;
use crate::modulation::{LfoWaveform, ModSource, ModTarget, ModulatorView};
use crate::pattern::{Pattern, PlayerView};
use crate::remap::NoteRemapper;

verus! {

// ---------------------------------------------------------------------------
// Values of a split
// ---------------------------------------------------------------------------

/// What a command sets of a split is what the split has afterwards, and the rest of the split
/// stays as it was: volume, key range, transposition and the settings of its pattern player.
pub proof fn set_values_arrive<P, F>(
    g: GraphView<P, F>,
    timing: Timing,
    kb: usize,
    split: usize,
    value: F,
    range: Option<(u8, u8)>,
    semitones: i8,
    on: bool,
)
    requires
        kb < g.keyboards.len(),
        split < g.keyboards[kb as int].len(),
    ensures
        ({
            let l = g.keyboards[kb as int][split as int];
            let after = |cmd: GraphCommand<P, F>| g.applied(cmd, timing).keyboards[kb as int][split as int];
            &&& after(GraphCommand::SetVolume { kb, split, value }) == (LaneView { volume: value, ..l })
            &&& after(GraphCommand::SetSplitRange { kb, split, range }) == (LaneView { range, ..l })
            &&& after(GraphCommand::SetTranspose { kb, split, semitones }) == (LaneView {
                transpose: semitones,
                ..l
            })
            &&& after(GraphCommand::SetPatternEnabled { kb, split, enabled: on }) == (LaneView {
                pattern: PlayerView { enabled: on, ..l.pattern },
                ..l
            })
            &&& after(GraphCommand::SetPatternLooping { kb, split, looping: on }) == (LaneView {
                pattern: PlayerView { looping: on, ..l.pattern },
                ..l
            })
            &&& after(GraphCommand::SetPatternLength { kb, split, beats: value }) == (LaneView {
                pattern: PlayerView { length_beats: value, ..l.pattern },
                ..l
            })
        }),
{
}

/// The mix of an effect is set by its slot, counted from one; the instrument in slot zero has
/// none, nor has a slot beyond the chain.
pub proof fn set_mixes_arrive<P, F>(
    g: GraphView<P, F>,
    timing: Timing,
    kb: usize,
    split: usize,
    slot: usize,
    value: F,
)
    requires
        kb < g.keyboards.len(),
        split < g.keyboards[kb as int].len(),
    ensures
        ({
            let l = g.keyboards[kb as int][split as int];
            let m = g.applied(GraphCommand::SetMix { kb, split, slot, value }, timing).keyboards[kb as int][split
                as int];
            &&& m == (LaneView { mix_values: m.mix_values, ..l })
            &&& m.mix_values.len() == l.mix_values.len()
            &&& forall|i: int|
                0 <= i < l.mix_values.len() ==> #[trigger] m.mix_values[i] == if i == slot - 1 {
                    value
                } else {
                    l.mix_values[i]
                }
        }),
{
}

/// A tempo reaches every player of every split, and changes nothing else.
pub proof fn tempo_reaches_every_player<P, F>(g: GraphView<P, F>, timing: Timing, bpm: F, k: int, s: int)
    requires
        0 <= k < g.keyboards.len(),
        0 <= s < g.keyboards[k].len(),
    ensures
        ({
            let after = g.applied(GraphCommand::SetGlobalBpm { bpm }, timing);
            let l = g.keyboards[k][s];
            &&& after.keyboards.len() == g.keyboards.len()
            &&& after.keyboards[k].len() == g.keyboards[k].len()
            &&& after.keyboards[k][s] == (LaneView { pattern: PlayerView { bpm, ..l.pattern }, ..l })
        }),
{
}

// ---------------------------------------------------------------------------
// Patterns
// ---------------------------------------------------------------------------

/// A pattern command changes the player of its split as the command says: a pattern that is set is
/// the one that plays, a cleared player has none, starting to record counts in and stopping makes
/// a pattern of what was recorded.
pub proof fn pattern_commands_arrive<P, F>(
    g: GraphView<P, F>,
    timing: Timing,
    kb: usize,
    split: usize,
    pattern: Pattern,
    base_note: Option<u8>,
)
    requires
        kb < g.keyboards.len(),
        split < g.keyboards[kb as int].len(),
    ensures
        ({
            let l = g.keyboards[kb as int][split as int];
            let after = |cmd: GraphCommand<P, F>| g.applied(cmd, timing).keyboards[kb as int][split as int];
            let set = after(GraphCommand::SetPattern { kb, split, pattern, base_note });
            let cleared = after(GraphCommand::ClearPattern { kb, split });
            let started = after(GraphCommand::SetPatternRecording { kb, split, recording: true });
            let stopped = after(GraphCommand::SetPatternRecording { kb, split, recording: false });
            &&& set == (LaneView { pattern: set.pattern, ..l })
            &&& set.pattern.pattern == pattern@
            &&& set.pattern.base_note == base_note
            &&& set.pattern.enabled <==> pattern@.events.len() > 0
            &&& cleared == (LaneView { pattern: cleared.pattern, ..l })
            &&& cleared.pattern.pattern.events.len() == 0
            &&& !cleared.pattern.enabled && !cleared.pattern.recording && !cleared.pattern.counting_in
            &&& started == (LaneView { pattern: started.pattern, ..l })
            &&& started.pattern.counting_in && !started.pattern.recording
            &&& started.pattern.recording_events.len() == 0
            &&& started.pattern.beat_length_samples == timing.beat_samples
            &&& started.pattern.kb_index == kb && started.pattern.split_index == split
            &&& stopped == (LaneView { pattern: stopped.pattern, ..l })
            &&& !stopped.pattern.counting_in && !stopped.pattern.recording
            &&& l.pattern.recording ==> stopped.pattern.pattern.length_samples == timing.pattern_samples
            &&& !l.pattern.recording ==> stopped.pattern.pattern == l.pattern.pattern
        }),
{
}

/// Exchanging the patterns of two splits gives each the pattern, base note, switch and length of
/// the other, with nothing held or sounding; other splits keep theirs.
pub proof fn swapped_patterns_change_places<P, F>(
    g: GraphView<P, F>,
    timing: Timing,
    kb: usize,
    a: usize,
    b: usize,
    s: int,
)
    requires
        kb < g.keyboards.len(),
        a < g.keyboards[kb as int].len(),
        b < g.keyboards[kb as int].len(),
        0 <= s < g.keyboards[kb as int].len(),
    ensures
        ({
            let before = g.keyboards[kb as int];
            let after = g.applied(
                GraphCommand::SwapPatterns { kb, split_a: a, split_b: b },
                timing,
            ).keyboards[kb as int];
            let from = if s == a {
                before[b as int]
            } else if s == b {
                before[a as int]
            } else {
                before[s]
            };
            let p = after[s].pattern;
            &&& after.len() == before.len()
            &&& after[s] == (LaneView { pattern: p, ..before[s] })
            &&& p.pattern == from.pattern.pattern
            &&& p.base_note == from.pattern.base_note
            &&& p.enabled == from.pattern.enabled
            &&& p.length_beats == from.pattern.length_beats
            &&& p.looping == before[s].pattern.looping
            &&& s == a || s == b ==> p.trigger_note is None && p.held_notes.len() == 0 && p.active_voices.len() == 0
            &&& s != a && s != b ==> after[s] == before[s]
        }),
{
}

// ---------------------------------------------------------------------------
// Instruments and effects
// ---------------------------------------------------------------------------

/// An instrument that is put in is the one that plays, with its buffers and its remapping; the one
/// it replaces is handed back. Effects, volume and modulators stay.
pub proof fn new_instruments_take_their_place<P, F>(
    g: GraphView<P, F>,
    timing: Timing,
    kb: usize,
    split: usize,
    plugin: P,
    sample_rate: F,
    inst_buf: Vec<Vec<F>>,
    remapper: Option<NoteRemapper>,
)
    requires
        kb < g.keyboards.len(),
        split < g.keyboards[kb as int].len(),
    ensures
        ({
            let l = g.keyboards[kb as int][split as int];
            let cmd = GraphCommand::SwapInstrument {
                kb,
                split,
                instrument: plugin,
                sample_rate,
                inst_buf,
                remapper,
            };
            let m = g.applied(cmd, timing).keyboards[kb as int][split as int];
            &&& m.instrument == Some(Instrument { plugin, sample_rate })
            &&& m == (LaneView {
                instrument: m.instrument,
                inst_buf: views(inst_buf@),
                remapper: remapper_view(remapper),
                ..l
            })
            &&& l.instrument is Some ==> g.outcome(cmd, timing).returned == seq![l.instrument->0.plugin]
            &&& l.instrument is None ==> g.outcome(cmd, timing).returned.len() == 0
        }),
{
}

/// Taking the instrument out leaves none, hands it back, and takes its buffers, remapping and
/// modulators along. The effects stay.
pub proof fn removed_instruments_are_handed_back<P, F>(g: GraphView<P, F>, timing: Timing, kb: usize, split: usize)
    requires
        kb < g.keyboards.len(),
        split < g.keyboards[kb as int].len(),
    ensures
        ({
            let l = g.keyboards[kb as int][split as int];
            let cmd = GraphCommand::RemoveInstrument { kb, split };
            let m = g.applied(cmd, timing).keyboards[kb as int][split as int];
            &&& m == (LaneView {
                instrument: None,
                inst_buf: Seq::empty(),
                remapper: None,
                inst_modulators: Seq::empty(),
                ..l
            })
            &&& l.instrument is Some ==> g.outcome(cmd, timing).returned == seq![l.instrument->0.plugin]
            &&& l.instrument is None ==> g.outcome(cmd, timing).returned.len() == 0
        }),
{
}

/// Two splits that exchange their instruments exchange buffers and remapping too, and keep their
/// effects, modulators, volumes and ranges.
pub proof fn swapped_instruments_change_places<P, F>(
    g: GraphView<P, F>,
    timing: Timing,
    kb: usize,
    a: usize,
    b: usize,
    s: int,
)
    requires
        kb < g.keyboards.len(),
        a < g.keyboards[kb as int].len(),
        b < g.keyboards[kb as int].len(),
        0 <= s < g.keyboards[kb as int].len(),
    ensures
        ({
            let before = g.keyboards[kb as int];
            let after = g.applied(
                GraphCommand::SwapInstruments { kb, split_a: a, split_b: b },
                timing,
            ).keyboards[kb as int];
            let from = if s == a {
                before[b as int]
            } else if s == b {
                before[a as int]
            } else {
                before[s]
            };
            &&& after.len() == before.len()
            &&& after[s] == (LaneView {
                instrument: from.instrument,
                inst_buf: from.inst_buf,
                remapper: from.remapper,
                ..before[s]
            })
        }),
{
}

/// An effect that fits the output goes in at its place, or at the end of the chain, with its mix
/// and without modulators; what stands behind it moves up one. One with another number of outputs
/// is handed back and changes nothing.
pub proof fn inserted_effects_take_their_place<P, F>(
    g: GraphView<P, F>,
    timing: Timing,
    kb: usize,
    split: usize,
    index: usize,
    effect: P,
    outputs: usize,
    mix: F,
)
    requires
        kb < g.keyboards.len(),
        split < g.keyboards[kb as int].len(),
        g.keyboards[kb as int][split as int].wf(),
    ensures
        ({
            let l = g.keyboards[kb as int][split as int];
            let cmd = GraphCommand::InsertEffect { kb, split, index, effect, outputs, mix };
            let m = g.applied(cmd, timing).keyboards[kb as int][split as int];
            let n = l.effects.len() as int;
            let at = if index < n {
                index as int
            } else {
                n
            };
            if outputs == g.num_channels {
                &&& m == (LaneView {
                    effects: m.effects,
                    mix_values: m.mix_values,
                    effect_modulators: m.effect_modulators,
                    ..l
                })
                &&& m.effects.len() == n + 1 && m.mix_values.len() == n + 1 && m.effect_modulators.len() == n + 1
                &&& m.effects[at] == effect && m.mix_values[at] == mix && m.effect_modulators[at].len() == 0
                &&& forall|i: int|
                    0 <= i < at ==> #[trigger] m.effects[i] == l.effects[i] && m.mix_values[i] == l.mix_values[i]
                        && m.effect_modulators[i] == l.effect_modulators[i]
                &&& forall|i: int|
                    at < i <= n ==> #[trigger] m.effects[i] == l.effects[i - 1] && m.mix_values[i]
                        == l.mix_values[i - 1] && m.effect_modulators[i] == l.effect_modulators[i - 1]
                &&& g.outcome(cmd, timing).returned.len() == 0
            } else {
                m == l && g.outcome(cmd, timing).returned == seq![effect]
            }
        }),
{
}

/// An effect that is taken out is handed back, with its mix and modulators gone, and what stood
/// behind it moves down one. A place beyond the chain holds nothing to take out.
pub proof fn removed_effects_are_handed_back<P, F>(
    g: GraphView<P, F>,
    timing: Timing,
    kb: usize,
    split: usize,
    index: usize,
)
    requires
        kb < g.keyboards.len(),
        split < g.keyboards[kb as int].len(),
        g.keyboards[kb as int][split as int].wf(),
    ensures
        ({
            let l = g.keyboards[kb as int][split as int];
            let cmd = GraphCommand::RemoveEffect { kb, split, index };
            let m = g.applied(cmd, timing).keyboards[kb as int][split as int];
            if index < l.effects.len() {
                &&& m == (LaneView {
                    effects: m.effects,
                    mix_values: m.mix_values,
                    effect_modulators: m.effect_modulators,
                    ..l
                })
                &&& m.effects.len() == l.effects.len() - 1 && m.mix_values.len() == m.effects.len()
                    && m.effect_modulators.len() == m.effects.len()
                &&& forall|i: int|
                    0 <= i < index ==> #[trigger] m.effects[i] == l.effects[i] && m.mix_values[i] == l.mix_values[i]
                        && m.effect_modulators[i] == l.effect_modulators[i]
                &&& forall|i: int|
                    index <= i < m.effects.len() ==> #[trigger] m.effects[i] == l.effects[i + 1]
                        && m.mix_values[i] == l.mix_values[i + 1] && m.effect_modulators[i]
                        == l.effect_modulators[i + 1]
                &&& g.outcome(cmd, timing).returned == seq![l.effects[index as int]]
            } else {
                m == l && g.outcome(cmd, timing).returned.len() == 0
            }
        }),
{
}

/// An effect that is moved stands at its new place, with its mix and modulators, and the others
/// keep their order.
pub proof fn moved_effects_take_everything_along<P, F>(
    g: GraphView<P, F>,
    timing: Timing,
    kb: usize,
    split: usize,
    from: usize,
    to: usize,
)
    requires
        kb < g.keyboards.len(),
        split < g.keyboards[kb as int].len(),
        g.keyboards[kb as int][split as int].wf(),
        from < g.keyboards[kb as int][split as int].effects.len(),
        to < g.keyboards[kb as int][split as int].effects.len(),
    ensures
        ({
            let l = g.keyboards[kb as int][split as int];
            let m = g.applied(GraphCommand::ReorderEffect { kb, split, from, to }, timing).keyboards[kb as int][split
                as int];
            &&& m == (LaneView {
                effects: m.effects,
                mix_values: m.mix_values,
                effect_modulators: m.effect_modulators,
                ..l
            })
            &&& m.effects[to as int] == l.effects[from as int]
            &&& m.mix_values[to as int] == l.mix_values[from as int]
            &&& m.effect_modulators[to as int] == l.effect_modulators[from as int]
            &&& m.effects.remove(to as int) == l.effects.remove(from as int)
            &&& m.mix_values.remove(to as int) == l.mix_values.remove(from as int)
            &&& m.effect_modulators.remove(to as int) == l.effect_modulators.remove(from as int)
        }),
{
    let l = g.keyboards[kb as int][split as int];
    let m = g.applied(GraphCommand::ReorderEffect { kb, split, from, to }, timing).keyboards[kb as int][split as int];
    assert(m.effects.remove(to as int) =~= l.effects.remove(from as int));
    assert(m.mix_values.remove(to as int) =~= l.mix_values.remove(from as int));
    assert(m.effect_modulators.remove(to as int) =~= l.effect_modulators.remove(from as int));
}

/// A parameter that is set is written to the plugin in that slot, where there is one: slot zero is
/// the instrument, the effects count from one.
pub proof fn set_parameters_are_written<P, F>(
    g: GraphView<P, F>,
    timing: Timing,
    kb: usize,
    split: usize,
    slot: usize,
    param_index: u32,
    value: F,
)
    requires
        kb < g.keyboards.len(),
        split < g.keyboards[kb as int].len(),
    ensures
        ({
            let l = g.keyboards[kb as int][split as int];
            let write = g.outcome(GraphCommand::SetParameter { kb, split, slot, param_index, value }, timing).parameter;
            let there = if slot == 0 {
                l.instrument is Some
            } else {
                slot - 1 < l.effects.len()
            };
            &&& write is Some <==> there
            &&& there ==> {
                let w = write->0;
                w.kb == kb && w.split == split && w.slot == slot && w.param_index == param_index && w.value == value
            }
        }),
{
}

// ---------------------------------------------------------------------------
// Keyboards and splits
// ---------------------------------------------------------------------------

/// A keyboard is added at the end, without splits; one that is removed is gone, and those behind
/// it move down one.
pub proof fn keyboards_come_and_go<P, F>(g: GraphView<P, F>, timing: Timing, kb: usize)
    ensures
        ({
            let added = g.applied(GraphCommand::AddKeyboard, timing);
            let removed = g.applied(GraphCommand::RemoveKeyboard { kb }, timing);
            let n = g.keyboards.len() as int;
            &&& added.keyboards.len() == n + 1 && added.keyboards[n].len() == 0
            &&& forall|k: int| 0 <= k < n ==> #[trigger] added.keyboards[k] == g.keyboards[k]
            &&& kb < n ==> {
                &&& removed.keyboards.len() == n - 1
                &&& forall|k: int| 0 <= k < kb ==> #[trigger] removed.keyboards[k] == g.keyboards[k]
                &&& forall|k: int| kb <= k < n - 1 ==> #[trigger] removed.keyboards[k] == g.keyboards[k + 1]
            }
            &&& kb >= n ==> removed == g
        }),
{
}

/// A split is added behind the others, empty, full in volume, not transposed, with the range asked
/// for and a player that knows its place.
pub proof fn added_splits_are_empty<P, F>(g: GraphView<P, F>, timing: Timing, kb: usize, range: Option<(u8, u8)>)
    requires
        kb < g.keyboards.len(),
        g.keyboards[kb as int].len() <= usize::MAX,
    ensures
        ({
            let before = g.keyboards[kb as int];
            let after = g.applied(GraphCommand::AddSplit { kb, range }, timing).keyboards[kb as int];
            let n = before.len() as int;
            let l = after[n];
            &&& after.len() == n + 1
            &&& forall|s: int| 0 <= s < n ==> #[trigger] after[s] == before[s]
            &&& l.range == range
            &&& l.instrument is None && l.effects.len() == 0 && l.remapper is None && l.inst_modulators.len() == 0
            &&& l.volume == g.defaults.unity && l.transpose == 0
            &&& l.buf_a.len() == g.num_channels && l.buf_b.len() == g.num_channels
            &&& l.pattern.kb_index == kb && l.pattern.split_index == n
            &&& l.pattern.listening == g.listening
            &&& l.pattern.pattern.events.len() == 0 && !l.pattern.enabled && !l.pattern.recording
                && !l.pattern.counting_in && l.pattern.looping
            &&& l.wf()
        }),
{
}

/// A split that is removed is gone and hands back its instrument and its effects, in order; those
/// behind it move down one and their players learn their new place, which is all that changes
/// about them.
pub proof fn removed_splits_hand_back_their_plugins<P, F>(
    g: GraphView<P, F>,
    timing: Timing,
    kb: usize,
    split: usize,
    s: int,
)
    requires
        kb < g.keyboards.len(),
        split < g.keyboards[kb as int].len() <= usize::MAX,
        0 <= s < g.keyboards[kb as int].len() - 1,
    ensures
        ({
            let before = g.keyboards[kb as int];
            let cmd = GraphCommand::RemoveSplit { kb, split };
            let after = g.applied(cmd, timing).keyboards[kb as int];
            let was = before[if s < split {
                s
            } else {
                s + 1
            }];
            let l = before[split as int];
            let returned = g.outcome(cmd, timing).returned;
            &&& after.len() == before.len() - 1
            &&& after[s] == (LaneView { pattern: PlayerView { split_index: s as usize, ..was.pattern }, ..was })
            &&& l.instrument is Some ==> returned == seq![l.instrument->0.plugin] + l.effects
            &&& l.instrument is None ==> returned == l.effects
        }),
{
}

proof fn lemma_plugins_of_splits<P, F>(splits: Seq<LaneView<P, F>>, count: int, s: int)
    requires
        0 <= s < count <= splits.len(),
    ensures
        splits[s].instrument is Some ==> plugins_of_splits(splits, count).contains(splits[s].instrument->0.plugin),
        forall|i: int|
            0 <= i < splits[s].effects.len() ==> plugins_of_splits(splits, count).contains(
                #[trigger] splits[s].effects[i],
            ),
    decreases count,
{
    let a = plugins_of_splits(splits, count - 1);
    let b = splits[count - 1].plugins();
    let all = plugins_of_splits(splits, count);
    if s == count - 1 {
        if splits[s].instrument is Some {
            assert(all[a.len() as int] == splits[s].instrument->0.plugin);
        }
        assert forall|i: int| 0 <= i < splits[s].effects.len() implies all.contains(
            #[trigger] splits[s].effects[i],
        ) by {
            let shift: int = if splits[s].instrument is Some {
                1
            } else {
                0
            };
            assert(all[a.len() + shift + i] == splits[s].effects[i]);
        }
    } else {
        lemma_plugins_of_splits(splits, count - 1, s);
        assert forall|p: P| a.contains(p) implies #[trigger] all.contains(p) by {
            let k = choose|k: int| 0 <= k < a.len() && a[k] == p;
            assert(all[k] == p);
        }
    }
}

/// Removing a keyboard hands back every plugin of every split on it.
pub proof fn removed_keyboards_hand_back_their_plugins<P, F>(g: GraphView<P, F>, timing: Timing, kb: usize, s: int)
    requires
        kb < g.keyboards.len(),
        0 <= s < g.keyboards[kb as int].len(),
    ensures
        ({
            let l = g.keyboards[kb as int][s];
            let returned = g.outcome(GraphCommand::RemoveKeyboard { kb }, timing).returned;
            &&& l.instrument is Some ==> returned.contains(l.instrument->0.plugin)
            &&& forall|i: int| 0 <= i < l.effects.len() ==> returned.contains(#[trigger] l.effects[i])
        }),
{
    let splits = g.keyboards[kb as int];
    lemma_plugins_of_splits(splits, splits.len() as int, s);
}

// ---------------------------------------------------------------------------
// Modulators
// ---------------------------------------------------------------------------

/// A command to an envelope reaches the modulator it names, in the slot it names: attack, decay,
/// sustain and release are what was asked, in that order, and the stage is not disturbed.
pub proof fn set_envelopes_arrive<P, F>(
    g: GraphView<P, F>,
    timing: Timing,
    kb: usize,
    split: usize,
    slot: usize,
    index: usize,
    attack: F,
    decay: F,
    sustain: F,
    release: F,
)
    requires
        kb < g.keyboards.len(),
        split < g.keyboards[kb as int].len(),
        slot > 0 ==> slot - 1 < g.keyboards[kb as int][split as int].effect_modulators.len(),
    ensures
        ({
            let l = g.keyboards[kb as int][split as int];
            let m = g.applied(
                GraphCommand::SetModulatorEnvelopeParam {
                    kb,
                    split,
                    parent_slot: slot,
                    mod_index: index,
                    attack,
                    decay,
                    sustain,
                    release,
                },
                timing,
            ).keyboards[kb as int][split as int];
            let before = if slot == 0 {
                l.inst_modulators
            } else {
                l.effect_modulators[slot - 1]
            };
            let after = if slot == 0 {
                m.inst_modulators
            } else {
                m.effect_modulators[slot - 1]
            };
            &&& after.len() == before.len()
            &&& index < before.len() && before[index as int].source is Envelope ==> {
                let s = after[index as int].source;
                &&& s is Envelope
                &&& s->attack == attack
                &&& s->decay == decay
                &&& s->sustain == sustain
                &&& s->release == release
                &&& s->state == before[index as int].source->state
                &&& s->level == before[index as int].source->level
                &&& s->notes_held == before[index as int].source->notes_held
            }
            &&& index < before.len() && before[index as int].source is Lfo ==> after[index as int].source
                == before[index as int].source
            &&& forall|i: int| 0 <= i < before.len() && i != index ==> (#[trigger] after[i]).source == before[i].source
            &&& slot == 0 ==> m == (LaneView { inst_modulators: after, ..l })
            &&& slot > 0 ==> m == (LaneView {
                effect_modulators: l.effect_modulators.update(slot - 1, after),
                ..l
            })
        }),
{
    let l = g.keyboards[kb as int][split as int];
    let before = if slot == 0 {
        l.inst_modulators
    } else {
        l.effect_modulators[slot - 1]
    };
    if index < before.len() && before[index as int].source is Envelope {
        set_envelopes_hold(before, index, attack, decay, sustain, release);
    }
}

/// A rate reaches the LFO it is for and leaves its shape and phase alone.
pub proof fn set_rates_arrive<P, F>(
    g: GraphView<P, F>,
    timing: Timing,
    kb: usize,
    split: usize,
    slot: usize,
    index: usize,
    rate: F,
)
    requires
        kb < g.keyboards.len(),
        split < g.keyboards[kb as int].len(),
        slot > 0 ==> slot - 1 < g.keyboards[kb as int][split as int].effect_modulators.len(),
    ensures
        ({
            let l = g.keyboards[kb as int][split as int];
            let m = g.applied(
                GraphCommand::SetModulatorRate { kb, split, parent_slot: slot, mod_index: index, rate },
                timing,
            ).keyboards[kb as int][split as int];
            let before = if slot == 0 {
                l.inst_modulators
            } else {
                l.effect_modulators[slot - 1]
            };
            let after = if slot == 0 {
                m.inst_modulators
            } else {
                m.effect_modulators[slot - 1]
            };
            &&& after.len() == before.len()
            &&& index < before.len() && before[index as int].source is Lfo ==> {
                let s = after[index as int].source;
                &&& s is Lfo
                &&& s->rate == rate
                &&& s->waveform == before[index as int].source->waveform
                &&& s->phase == before[index as int].source->phase
            }
            &&& index < before.len() && before[index as int].source is Envelope ==> after[index as int].source
                == before[index as int].source
            &&& forall|i: int| 0 <= i < before.len() && i != index ==> (#[trigger] after[i]).source == before[i].source
            &&& slot == 0 ==> m == (LaneView { inst_modulators: after, ..l })
            &&& slot > 0 ==> m == (LaneView {
                effect_modulators: l.effect_modulators.update(slot - 1, after),
                ..l
            })
        }),
{
    let l = g.keyboards[kb as int][split as int];
    let before = if slot == 0 {
        l.inst_modulators
    } else {
        l.effect_modulators[slot - 1]
    };
    if index < before.len() && before[index as int].source is Lfo {
        set_rates_hold_and_rebase(before, index, rate);
    }
}

/// Commands to one modulator reach that modulator alone: another waveform, another source, a
/// target more at the end, a target fewer, another depth.
pub proof fn modulator_commands_arrive<P, F>(
    g: GraphView<P, F>,
    timing: Timing,
    kb: usize,
    split: usize,
    slot: usize,
    index: usize,
    waveform: LfoWaveform,
    source: ModSource<F>,
    target: ModTarget<F>,
    target_index: usize,
    depth: F,
)
    requires
        kb < g.keyboards.len(),
        split < g.keyboards[kb as int].len(),
        slot > 0 ==> slot - 1 < g.keyboards[kb as int][split as int].effect_modulators.len(),
        index < if slot == 0 {
            g.keyboards[kb as int][split as int].inst_modulators.len()
        } else {
            g.keyboards[kb as int][split as int].effect_modulators[slot - 1].len()
        },
    ensures
        ({
            let l = g.keyboards[kb as int][split as int];
            let before = if slot == 0 {
                l.inst_modulators
            } else {
                l.effect_modulators[slot - 1]
            };
            let m = before[index as int];
            let after = |cmd: GraphCommand<P, F>|
                {
                    let n = g.applied(cmd, timing).keyboards[kb as int][split as int];
                    if slot == 0 {
                        n.inst_modulators
                    } else {
                        n.effect_modulators[slot - 1]
                    }
                };
            let shaped = after(
                GraphCommand::SetModulatorWaveform { kb, split, parent_slot: slot, mod_index: index, waveform },
            );
            let replaced = after(
                GraphCommand::SetModulatorSource { kb, split, parent_slot: slot, mod_index: index, source },
            );
            let wired = after(GraphCommand::AddModTarget { kb, split, parent_slot: slot, mod_index: index, target });
            let unwired = after(
                GraphCommand::RemoveModTarget { kb, split, parent_slot: slot, mod_index: index, target_index },
            );
            let deepened = after(
                GraphCommand::SetModTargetDepth {
                    kb,
                    split,
                    parent_slot: slot,
                    mod_index: index,
                    target_index,
                    depth,
                },
            );
            &&& shaped.len() == before.len() && replaced.len() == before.len() && wired.len() == before.len()
                && unwired.len() == before.len() && deepened.len() == before.len()
            &&& forall|i: int|
                0 <= i < before.len() && i != index ==> (#[trigger] shaped[i]) == before[i] && replaced[i]
                    == before[i] && wired[i] == before[i] && unwired[i] == before[i] && deepened[i] == before[i]
            &&& m.source is Lfo ==> {
                let s = shaped[index as int].source;
                s is Lfo && s->waveform == waveform && s->rate == m.source->rate && s->phase == m.source->phase
            }
            &&& m.source is Envelope ==> shaped[index as int].source == m.source
            &&& shaped[index as int].targets == m.targets
            &&& replaced[index as int] == (ModulatorView { source, last_output: g.defaults.zero, ..m })
            &&& wired[index as int] == (ModulatorView { targets: m.targets.push(target), ..m })
            &&& target_index < m.targets.len() ==> unwired[index as int] == (ModulatorView {
                targets: m.targets.remove(target_index as int),
                ..m
            })
            &&& target_index >= m.targets.len() ==> unwired[index as int] == m && deepened[index as int] == m
            &&& target_index < m.targets.len() ==> deepened[index as int] == (ModulatorView {
                targets: m.targets.update(
                    target_index as int,
                    ModTarget { depth, ..m.targets[target_index as int] },
                ),
                ..m
            })
        }),
{
}

/// A modulator goes in at its place, or behind the others, with the source asked for, at the rate
/// of the instrument, wired to nothing and with no output yet.
pub proof fn inserted_modulators_take_their_place<P, F>(
    g: GraphView<P, F>,
    timing: Timing,
    kb: usize,
    split: usize,
    slot: usize,
    index: usize,
    source: ModSource<F>,
)
    requires
        kb < g.keyboards.len(),
        split < g.keyboards[kb as int].len(),
        slot > 0 ==> slot - 1 < g.keyboards[kb as int][split as int].effect_modulators.len(),
    ensures
        ({
            let l = g.keyboards[kb as int][split as int];
            let m = g.applied(
                GraphCommand::InsertModulator { kb, split, parent_slot: slot, index, source },
                timing,
            ).keyboards[kb as int][split as int];
            let before = if slot == 0 {
                l.inst_modulators
            } else {
                l.effect_modulators[slot - 1]
            };
            let after = if slot == 0 {
                m.inst_modulators
            } else {
                m.effect_modulators[slot - 1]
            };
            let n = before.len() as int;
            let at = if index < n {
                index as int
            } else {
                n
            };
            &&& after.len() == n + 1
            &&& after[at].source == source
            &&& after[at].targets.len() == 0
            &&& after[at].last_output == g.defaults.zero
            &&& after[at].sample_rate == if l.instrument is Some {
                l.instrument->0.sample_rate
            } else {
                g.defaults.sample_rate
            }
            &&& forall|i: int| 0 <= i < at ==> #[trigger] after[i] == before[i]
            &&& forall|i: int| at < i <= n ==> #[trigger] after[i] == before[i - 1]
        }),
{
}

// ---------------------------------------------------------------------------
// Audio
// ---------------------------------------------------------------------------

/// Without an instrument a split is silent; effects make a chain; otherwise the instrument plays
/// straight into the output where its channels fit and the volume is full, and is copied where
/// not.
pub proof fn render_paths_fit_the_split<P, F>(l: LaneView<P, F>, num_channels: usize, unity: bool)
    ensures
        l.render_path(num_channels, unity) == RenderPath::Silence <==> l.instrument is None,
        l.render_path(num_channels, unity) == RenderPath::Chain <==> l.instrument is Some && l.effects.len() > 0,
        l.render_path(num_channels, unity) == RenderPath::Direct <==> l.instrument is Some && l.effects.len() == 0
            && l.inst_buf.len() <= num_channels && unity,
        l.render_path(num_channels, unity) == RenderPath::Copy <==> l.instrument is Some && l.effects.len() == 0 && (
        l.inst_buf.len() > num_channels || !unity),
{
}

} // verus!
