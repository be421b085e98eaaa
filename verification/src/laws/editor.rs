//! Laws of the session editor: what its rows show and what its keys and popups change.
use vstd::prelude::*;

use crate::graph::GraphCommand;
use crate::modulation::{LfoWaveform, ModSource};

use crate::text::{lowercase, part_at};
use crate::tui::adjust::{clamped_transpose, stepped_transpose};
use crate::tui::editor::{EditorView, Effect, Motion, Numbers, SelectorMode};
use crate::tui::keys::{scrolled, swapped, Key, Modifiers};
use crate::tui::model::{
    modulator_in, ModSlotView, ModSourceSlot, ParamSlot, PatternStateView, PluginView, SplitView, TreeAddress,
};
use crate::tui::params::{passes, passing, row_range, ModRow};

verus! {

// ---------------------------------------------------------------------------
// Rows of a modulator
// ---------------------------------------------------------------------------

/// The rows of a modulator stand in their order: of an LFO its type, waveform and rate, of an
/// envelope its type, attack, decay, sustain and release, then a separator and one row for each
/// target.
pub proof fn rows_stand_in_order<F>(m: ModSlotView<F>, t: usize)
    requires
        t < m.targets.len(),
        t + 6 <= usize::MAX,
    ensures
        m.row(0) == ModRow::Type,
        m.source is Lfo ==> m.row(1) == ModRow::Waveform && m.row(2) == ModRow::Rate && m.row(3) == ModRow::Separator
            && m.row((4 + t) as usize) == ModRow::Depth(t),
        m.source is Envelope ==> m.row(1) == ModRow::Attack && m.row(2) == ModRow::Decay && m.row(3)
            == ModRow::Sustain && m.row(4) == ModRow::Release && m.row(5) == ModRow::Separator && m.row(
            (6 + t) as usize,
        ) == ModRow::Depth(t),
{
}

/// A row shows the setting that it is named after.
pub proof fn rows_show_their_settings<F>(m: ModSlotView<F>, t: usize)
    ensures
        m.source is Lfo ==> m.value_at(ModRow::Rate) == Some(m.source->rate),
        m.source is Envelope ==> {
            &&& m.value_at(ModRow::Attack) == Some(m.source->attack)
            &&& m.value_at(ModRow::Decay) == Some(m.source->decay)
            &&& m.value_at(ModRow::Sustain) == Some(m.source->sustain)
            &&& m.value_at(ModRow::Release) == Some(m.source->release)
        },
        t < m.targets.len() ==> m.value_at(ModRow::Depth(t)) == Some(m.targets[t as int].depth),
        m.value_at(ModRow::Type) is None,
        m.value_at(ModRow::Waveform) is None,
        m.value_at(ModRow::Separator) is None,
{
}

/// Setting a row sets what the row shows and nothing that another row shows.
pub proof fn set_rows_show_their_value<F>(m: ModSlotView<F>, row: ModRow, other: ModRow, value: F)
    ensures
        m.value_at(row) is Some ==> m.with_value(row, value).value_at(row) == Some(value),
        m.value_at(row) is None ==> m.with_value(row, value) == m,
        other != row ==> m.with_value(row, value).value_at(other) == m.value_at(other),
        m.source is Lfo ==> m.with_value(row, value).source is Lfo && m.with_value(row, value).source->waveform
            == m.source->waveform,
        m.source is Envelope ==> m.with_value(row, value).source is Envelope,
        m.with_value(row, value).targets.len() == m.targets.len(),
{
}

/// Levels lie between silence and full, rates and times within their own ranges.
pub proof fn rows_have_their_ranges<F>(n: Numbers<F>, t: usize)
    ensures
        row_range(ModRow::Rate, n) == Some((n.rate_min, n.rate_max)),
        row_range(ModRow::Attack, n) == Some((n.time_min, n.time_max)),
        row_range(ModRow::Decay, n) == Some((n.time_min, n.time_max)),
        row_range(ModRow::Release, n) == Some((n.time_min, n.time_max)),
        row_range(ModRow::Sustain, n) == Some((n.zero, n.unity)),
        row_range(ModRow::Depth(t), n) == Some((n.zero, n.unity)),
{
}

// ---------------------------------------------------------------------------
// Transposition
// ---------------------------------------------------------------------------

/// Steps of transposition are a semitone, or an octave where they are coarse, up or down, and stop
/// at 48 semitones either way.
pub proof fn transposition_steps(transpose: i8, up: bool, coarse: bool)
    requires
        -48 <= transpose <= 48,
    ensures
        ({
            let step = if coarse {
                12int
            } else {
                1
            };
            let to = if up {
                transpose + step
            } else {
                transpose - step
            };
            &&& -48 <= to <= 48 ==> stepped_transpose(transpose, up, coarse) == to
            &&& to > 48 ==> stepped_transpose(transpose, up, coarse) == 48
            &&& to < -48 ==> stepped_transpose(transpose, up, coarse) == -48
        }),
{
}

/// A typed transposition is held within 48 semitones either way.
pub proof fn typed_transposition_is_held(semitones: int)
    ensures
        -48 <= semitones <= 48 ==> clamped_transpose(semitones) == semitones,
        semitones > 48 ==> clamped_transpose(semitones) == 48,
        semitones < -48 ==> clamped_transpose(semitones) == -48,
{
}

// ---------------------------------------------------------------------------
// Changing what is under the cursor
// ---------------------------------------------------------------------------

/// Adjusting at a split transposes the split that is selected and tells the audio graph the same.
pub proof fn adjusting_a_split_transposes_it<P, F>(
    e: EditorView<F>,
    kb: usize,
    split: usize,
    up: bool,
    coarse: bool,
    value: F,
)
    requires
        e.selected() == Some(TreeAddress::Split { kb, split }),
        kb < e.keyboards.len(),
        split < e.keyboards[kb as int].splits.len(),
    ensures
        ({
            let before = e.keyboards[kb as int].splits[split as int];
            let (after, effects) = e.adjusted::<P>(up, coarse, value);
            let s = after.keyboards[kb as int].splits[split as int];
            &&& s == (SplitView { transpose: s.transpose, ..before })
            &&& s.transpose == stepped_transpose(before.transpose, up, coarse)
            &&& effects[0] == Effect::<P, F>::Send(
                GraphCommand::SetTranspose { kb, split, semitones: s.transpose },
            )
            &&& after.dirty
        }),
{
}

/// Adjusting or typing a value at a plugin sets the parameter under the cursor to it and no other,
/// and tells the audio graph the parameter by its index and the plugin by its slot.
pub proof fn plugin_parameters_are_set<P, F>(e: EditorView<F>, kb: usize, split: usize, slot: usize, row: usize, value: F)
    requires
        kb < e.keyboards.len(),
        split < e.keyboards[kb as int].splits.len(),
        slot <= e.keyboards[kb as int].splits[split as int].effects.len(),
        e.selected() == Some(
            if slot == 0 {
                TreeAddress::Instrument { kb, split }
            } else {
                TreeAddress::Effect { kb, split, index: (slot - 1) as usize }
            },
        ),
        slot == 0 ==> e.keyboards[kb as int].splits[split as int].instrument is Some,
        e.real_row() == Some(row),
        row < if slot == 0 {
            e.keyboards[kb as int].splits[split as int].instrument->0.params.len()
        } else {
            e.keyboards[kb as int].splits[split as int].effects[slot - 1].params.len()
        },
    ensures
        ({
            let before = if slot == 0 {
                e.keyboards[kb as int].splits[split as int].instrument->0
            } else {
                e.keyboards[kb as int].splits[split as int].effects[slot - 1]
            };
            let (after, effects) = e.param_set::<P>(value);
            let shown = if slot == 0 {
                after.keyboards[kb as int].splits[split as int].instrument->0
            } else {
                after.keyboards[kb as int].splits[split as int].effects[slot - 1]
            };
            &&& shown == (PluginView { params: shown.params, ..before })
            &&& shown.params.len() == before.params.len()
            &&& forall|i: int|
                0 <= i < before.params.len() ==> #[trigger] shown.params[i] == if i == row {
                    ParamSlot { value, ..before.params[i] }
                } else {
                    before.params[i]
                }
            &&& effects == seq![
                Effect::<P, F>::Send(
                    GraphCommand::SetParameter {
                        kb,
                        split,
                        slot,
                        param_index: before.params[row as int].index,
                        value,
                    },
                ),
            ]
            &&& e.adjusted::<P>(true, false, value) == e.param_set::<P>(value)
            &&& e.adjusted::<P>(false, true, value) == e.param_set::<P>(value)
            &&& e.assigned::<P>(value, 0) == e.param_set::<P>(value)
        }),
{
}

/// Setting a row of an envelope tells the audio graph the four settings as they are shown then: the
/// one that was set has its new value, the others have what they had.
pub proof fn envelope_rows_are_sent_as_shown<P, F>(
    e: EditorView<F>,
    kb: usize,
    split: usize,
    slot: usize,
    index: usize,
    m: ModSlotView<F>,
    value: F,
)
    requires
        modulator_in(e.keyboards, kb, split, slot as int, index) == Some(m),
        m.source is Envelope,
    ensures
        ({
            let sent = |row: ModRow| e.modulator_set::<P>(kb, split, slot, index, row, value).1;
            let told = |a: F, d: F, s: F, r: F|
                seq![
                    Effect::<P, F>::Send(
                        GraphCommand::SetModulatorEnvelopeParam {
                            kb,
                            split,
                            parent_slot: slot,
                            mod_index: index,
                            attack: a,
                            decay: d,
                            sustain: s,
                            release: r,
                        },
                    ),
                ];
            let s = m.source;
            &&& sent(ModRow::Attack) == told(value, s->decay, s->sustain, s->release)
            &&& sent(ModRow::Decay) == told(s->attack, value, s->sustain, s->release)
            &&& sent(ModRow::Sustain) == told(s->attack, s->decay, value, s->release)
            &&& sent(ModRow::Release) == told(s->attack, s->decay, s->sustain, value)
        }),
{
}

/// Setting the rate of an LFO or the depth of a target tells the audio graph that rate or depth.
pub proof fn rates_and_depths_are_sent<P, F>(
    e: EditorView<F>,
    kb: usize,
    split: usize,
    slot: usize,
    index: usize,
    target: usize,
    value: F,
)
    ensures
        e.modulator_set::<P>(kb, split, slot, index, ModRow::Rate, value).1[0] == Effect::<P, F>::Send(
            GraphCommand::SetModulatorRate { kb, split, parent_slot: slot, mod_index: index, rate: value },
        ),
        e.modulator_set::<P>(kb, split, slot, index, ModRow::Depth(target), value).1[0] == Effect::<P, F>::Send(
            GraphCommand::SetModTargetDepth {
                kb,
                split,
                parent_slot: slot,
                mod_index: index,
                target_index: target,
                depth: value,
            },
        ),
{
}

/// What is set in a row of a modulator is shown in that row of that modulator.
pub proof fn set_rows_are_shown<P, F>(
    e: EditorView<F>,
    kb: usize,
    split: usize,
    slot: usize,
    index: usize,
    row: ModRow,
    m: ModSlotView<F>,
    value: F,
)
    requires
        modulator_in(e.keyboards, kb, split, slot as int, index) == Some(m),
        m.value_at(row) is Some,
    ensures
        ({
            let after = e.modulator_set::<P>(kb, split, slot, index, row, value).0;
            let shown = modulator_in(after.keyboards, kb, split, slot as int, index);
            shown is Some && shown->0.value_at(row) == Some(value)
        }),
{
}

/// At a pattern the three rows are its length, its switch and whether it loops; each changes that
/// and tells the audio graph the same.
pub proof fn pattern_rows_are_set<P, F>(e: EditorView<F>, kb: usize, split: usize, value: F)
    requires
        kb < e.keyboards.len(),
        split < e.keyboards[kb as int].splits.len(),
        e.keyboards[kb as int].splits[split as int].pattern is Some,
    ensures
        ({
            let s = e.keyboards[kb as int].splits[split as int];
            let p = s.pattern->0;
            let (after, effects) = e.pattern_adjusted::<P>(kb, split, value);
            let t = after.keyboards[kb as int].splits[split as int];
            &&& t == (SplitView { pattern: t.pattern, ..s })
            &&& e.param_selected == 0 ==> t.pattern == Some(PatternStateView { length_beats: value, ..p })
                && effects[0] == Effect::<P, F>::Send(GraphCommand::SetPatternLength { kb, split, beats: value })
            &&& e.param_selected == 1 ==> t.pattern == Some(PatternStateView { enabled: !p.enabled, ..p })
                && effects[0] == Effect::<P, F>::Send(
                GraphCommand::SetPatternEnabled { kb, split, enabled: !p.enabled },
            )
            &&& e.param_selected == 2 ==> t.pattern == Some(PatternStateView { looping: !p.looping, ..p })
                && effects[0] == Effect::<P, F>::Send(
                GraphCommand::SetPatternLooping { kb, split, looping: !p.looping },
            )
            &&& e.param_selected > 2 ==> effects.len() == 0 && after == e
        }),
{
}

proof fn lemma_passing<F>(params: Seq<ParamSlot<F>>, filter: Seq<char>, count: int)
    requires
        0 <= count <= params.len(),
        params.len() <= usize::MAX,
    ensures
        ({
            let shown = passing(params, filter, count);
            &&& forall|k: int|
                0 <= k < shown.len() ==> #[trigger] shown[k] < count && passes(params[shown[k] as int].name@, filter)
            &&& forall|i: int, j: int| 0 <= i < j < shown.len() ==> #[trigger] shown[i] < #[trigger] shown[j]
            &&& forall|i: int|
                0 <= i < count && passes((#[trigger] params[i]).name@, filter) ==> shown.contains(i as usize)
        }),
    decreases count,
{
    if count > 0 {
        lemma_passing(params, filter, count - 1);
        let before = passing(params, filter, count - 1);
        let shown = passing(params, filter, count);
        assert forall|i: int|
            0 <= i < count && passes((#[trigger] params[i]).name@, filter) implies shown.contains(i as usize) by {
            if i < count - 1 {
                let k = choose|k: int| 0 <= k < before.len() && before[k] == i as usize;
                assert(shown[k] == i as usize);
            } else {
                assert(shown[shown.len() - 1] == i as usize);
            }
        }
    }
}

/// The filter shows the parameters whose names pass it, all of them, in order, each once; an empty
/// filter lets everything pass.
pub proof fn filters_show_what_passes<F>(params: Seq<ParamSlot<F>>, filter: Seq<char>)
    requires
        params.len() <= usize::MAX,
    ensures
        ({
            let shown = passing(params, filter, params.len() as int);
            &&& forall|k: int|
                0 <= k < shown.len() ==> #[trigger] shown[k] < params.len() && passes(
                    params[shown[k] as int].name@,
                    filter,
                )
            &&& forall|i: int, j: int| 0 <= i < j < shown.len() ==> #[trigger] shown[i] < #[trigger] shown[j]
            &&& forall|i: int|
                0 <= i < params.len() && passes((#[trigger] params[i]).name@, filter) ==> shown.contains(i as usize)
        }),
        forall|name: Seq<char>| #[trigger] passes(name, Seq::empty()),
{
    lemma_passing(params, filter, params.len() as int);
}

/// A name passes a filter when the filter stands somewhere in it, whatever the case.
pub proof fn filters_match_anywhere(name: Seq<char>, filter: Seq<char>)
    ensures
        passes(name, filter) <==> filter.len() == 0 || exists|a: Seq<char>, b: Seq<char>|
            lowercase(name) == #[trigger] (a + lowercase(filter) + b),
{
    let n = lowercase(name);
    let f = lowercase(filter);
    if passes(name, filter) && filter.len() > 0 {
        let at = choose|at: int| part_at(n, f, at);
        let a = n.take(at);
        let b = n.skip(at + f.len());
        assert(n =~= a + f + b);
    }
    if exists|a: Seq<char>, b: Seq<char>| n == #[trigger] (a + f + b) {
        let (a, b) = choose|a: Seq<char>, b: Seq<char>| n == #[trigger] (a + f + b);
        assert(n.subrange(a.len() as int, (a.len() + f.len()) as int) =~= f);
        assert(part_at(n, f, a.len() as int));
    }
}

// ---------------------------------------------------------------------------
// Keys
// ---------------------------------------------------------------------------

/// Control with q or c quits and control with s saves, wherever one is; the digits choose the tabs.
pub proof fn quitting_saving_and_tabs<P, F>(e: EditorView<F>, mods: Modifiers)
    ensures
        mods.control ==> e.keyed::<P>(Key::Char('q'), mods) == (EditorView { quit: true, ..e }, Seq::<
            Effect<P, F>,
        >::empty()),
        mods.control ==> e.keyed::<P>(Key::Char('c'), mods) == (EditorView { quit: true, ..e }, Seq::<
            Effect<P, F>,
        >::empty()),
        mods.control ==> e.keyed::<P>(Key::Char('s'), mods) == (e, seq![Effect::<P, F>::Save]),
        e.keyed::<P>(Key::Char('1'), mods).0 == (EditorView { active_tab: 0, ..e }),
        e.keyed::<P>(Key::Char('2'), mods).0 == (EditorView { active_tab: 1, ..e }),
        e.keyed::<P>(Key::Char('3'), mods).0 == (EditorView { active_tab: 2, ..e }),
        e.keyed::<P>(Key::Char('4'), mods).0 == (EditorView { active_tab: 3, ..e }),
{
}

/// No key quits but those, and none ends quitting.
pub proof fn nothing_else_quits<P, F>(e: EditorView<F>, key: Key, mods: Modifiers)
    requires
        !(mods.control && (key == Key::Char('q') || key == Key::Char('c'))),
    ensures
        e.keyed::<P>(key, mods).0.quit == e.quit,
{
}

/// Left and right adjust the parameter under the cursor down and up, once the parameters have the
/// cursor.
pub proof fn arrows_adjust<P, F>(e: EditorView<F>, mods: Modifiers)
    requires
        e.active_tab == 0,
        e.focus_params,
        !e.param_filtering,
    ensures
        e.keyed::<P>(Key::Left, mods) == (e, seq![Effect::<P, F>::Adjust { up: false }]),
        e.keyed::<P>(Key::Right, mods) == (e, seq![Effect::<P, F>::Adjust { up: true }]),
{
}

/// The key that adds opens what adds below the selected node: a range for a split under a keyboard,
/// the instruments under a split, the effects under a plugin.
pub proof fn adding_adds_below_the_selected<P, F>(e: EditorView<F>, mods: Modifiers)
    requires
        e.active_tab == 0,
        !e.focus_params,
        e.selected() is Some,
    ensures
        ({
            let (after, effects) = e.keyed::<P>(Key::Char('a'), mods);
            match e.selected()->0 {
                TreeAddress::Keyboard(kb) => after == (EditorView { range_edit: Some(kb), ..e }) && effects == seq![
                    Effect::<P, F>::OpenPopup,
                ],
                TreeAddress::Split { .. } => after == (EditorView {
                    selector: Some(SelectorMode::Instrument),
                    ..e
                }) && effects == seq![Effect::<P, F>::OpenPopup],
                TreeAddress::Instrument { .. } => after == (EditorView { selector: Some(SelectorMode::Effect), ..e })
                    && effects == seq![Effect::<P, F>::OpenPopup],
                TreeAddress::Effect { .. } => after == (EditorView { selector: Some(SelectorMode::Effect), ..e })
                    && effects == seq![Effect::<P, F>::OpenPopup],
                _ => after == e && effects.len() == 0,
            }
        }),
{
}

/// The key that modulates adds one modulator behind the others of the selected plugin: a sine at the
/// plain rate, wired to nothing. The audio graph is told of the same.
pub proof fn modulating_adds_a_sine<P, F>(e: EditorView<F>, kb: usize, split: usize, mods: Modifiers)
    requires
        e.active_tab == 0,
        !e.focus_params,
        e.selected() == Some(TreeAddress::Instrument { kb, split }),
        kb < e.keyboards.len(),
        split < e.keyboards[kb as int].splits.len(),
        e.keyboards[kb as int].splits[split as int].instrument is Some,
        e.keyboards[kb as int].splits[split as int].instrument->0.modulators.len() <= usize::MAX,
    ensures
        ({
            let p = e.keyboards[kb as int].splits[split as int].instrument->0;
            let (after, effects) = e.keyed::<P>(Key::Char('m'), mods);
            let q = after.keyboards[kb as int].splits[split as int].instrument->0;
            let n = p.modulators.len();
            &&& q == (PluginView { modulators: q.modulators, ..p })
            &&& q.modulators.len() == n + 1
            &&& forall|i: int| 0 <= i < n ==> #[trigger] q.modulators[i] == p.modulators[i]
            &&& q.modulators[n as int].targets.len() == 0
            &&& q.modulators[n as int].source == (ModSourceSlot::Lfo {
                waveform: LfoWaveform::Sine,
                rate: e.numbers.unity,
            })
            &&& effects[0] == Effect::<P, F>::Send(
                GraphCommand::InsertModulator {
                    kb,
                    split,
                    parent_slot: 0,
                    index: n as usize,
                    source: ModSource::Lfo {
                        waveform: LfoWaveform::Sine,
                        rate: e.numbers.unity,
                        phase: e.numbers.zero,
                    },
                },
            )
        }),
{
}

/// The key that records starts a recording in the selected split, at the tempo and the length that
/// are shown, or stops the one that runs.
pub proof fn recording_starts_and_stops<P, F>(e: EditorView<F>, kb: usize, split: usize, mods: Modifiers)
    requires
        e.active_tab == 0,
        !e.focus_params,
        !mods.control,
        e.selected() == Some(TreeAddress::Split { kb, split }) || e.selected() == Some(
            TreeAddress::Pattern { kb, split },
        ),
        kb < e.keyboards.len(),
        split < e.keyboards[kb as int].splits.len(),
    ensures
        ({
            let s = e.keyboards[kb as int].splits[split as int];
            let (after, effects) = e.keyed::<P>(Key::Char('r'), mods);
            let t = after.keyboards[kb as int].splits[split as int];
            let running = s.pattern is Some && s.pattern->0.recording;
            &&& t == (SplitView { pattern: t.pattern, ..s })
            &&& t.pattern is Some
            &&& t.pattern->0.recording == !running
            &&& s.pattern is Some ==> t.pattern->0 == (PatternStateView { recording: !running, ..s.pattern->0 })
            &&& running ==> effects[0] == Effect::<P, F>::Send(
                GraphCommand::SetPatternRecording { kb, split, recording: false },
            )
            &&& !running ==> {
                &&& effects[0] == Effect::<P, F>::Send(GraphCommand::SetGlobalBpm { bpm: e.global_bpm })
                &&& effects[1] == Effect::<P, F>::Send(
                    GraphCommand::SetPatternLength { kb, split, beats: t.pattern->0.length_beats },
                )
                &&& effects[2] == Effect::<P, F>::Send(
                    GraphCommand::SetPatternRecording { kb, split, recording: true },
                )
            }
            &&& s.pattern is None ==> {
                let p = t.pattern->0;
                p.bpm == e.global_bpm && p.length_beats == e.numbers.new_beats && p.looping && p.base_note is None
                    && p.events.len() == 0 && !p.enabled
            }
        }),
{
}

/// Two elements that change places leave the others where they are.
pub proof fn swapped_elements_change_places<T>(items: Seq<T>, a: int, b: int, i: int)
    requires
        0 <= a < items.len(),
        0 <= b < items.len(),
        0 <= i < items.len(),
    ensures
        swapped(items, a, b).len() == items.len(),
        swapped(items, a, b)[i] == items[if i == a {
            b
        } else if i == b {
            a
        } else {
            i
        }],
{
}

/// Moving an effect down the chain puts it one place on, moves the next one up, and tells the audio
/// graph to do so; the last one stays.
pub proof fn shifting_moves_an_effect_by_one<P, F>(
    e: EditorView<F>,
    kb: usize,
    split: usize,
    index: usize,
    down: bool,
)
    requires
        e.selected() == Some(TreeAddress::Effect { kb, split, index }),
        kb < e.keyboards.len(),
        split < e.keyboards[kb as int].splits.len(),
        index < e.keyboards[kb as int].splits[split as int].effects.len(),
        index < usize::MAX,
    ensures
        ({
            let s = e.keyboards[kb as int].splits[split as int];
            let (after, effects) = e.shift_key::<P>(down);
            let t = after.keyboards[kb as int].splits[split as int];
            let to = if down {
                index + 1
            } else {
                index - 1
            };
            if 0 <= to < s.effects.len() {
                &&& t == (SplitView { effects: t.effects, ..s })
                &&& t.effects.len() == s.effects.len()
                &&& t.effects[to] == s.effects[index as int]
                &&& t.effects[index as int] == s.effects[to]
                &&& forall|i: int|
                    0 <= i < s.effects.len() && i != index && i != to ==> #[trigger] t.effects[i] == s.effects[i]
                &&& effects[0] == Effect::<P, F>::Send(
                    GraphCommand::ReorderEffect { kb, split, from: index, to: to as usize },
                )
            } else {
                after == e && effects.len() == 0
            }
        }),
{
}

/// The help scrolls by a row, a page of twenty or three rows at a time, and stops at its top.
pub proof fn help_scrolls_by_rows(offset: usize)
    requires
        offset + 20 <= usize::MAX,
    ensures
        scrolled(offset, Motion::Down) == offset + 1,
        scrolled(offset, Motion::PageDown) == offset + 20,
        scrolled(offset, Motion::ScrollDown) == offset + 3,
        offset >= 1 ==> scrolled(offset, Motion::Up) == offset - 1,
        offset >= 20 ==> scrolled(offset, Motion::PageUp) == offset - 20,
        offset >= 3 ==> scrolled(offset, Motion::ScrollUp) == offset - 3,
        offset < 1 ==> scrolled(offset, Motion::Up) == 0,
        offset < 20 ==> scrolled(offset, Motion::PageUp) == 0,
        offset < 3 ==> scrolled(offset, Motion::ScrollUp) == 0,
{
}

} // verus!
