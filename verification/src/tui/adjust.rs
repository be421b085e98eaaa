//! Changing the parameter under the cursor. The arithmetic on scalars is done outside: the new
//! value is handed in, clamped to the range that [`Editor::adjustable`] gives.
use vstd::prelude::*;

use crate::graph::GraphCommand;
use crate::modulation::LfoWaveform;
use crate::tui::editor::{Change, Editor, EditorView, Effect};
use crate::tui::model::{
    find_modulator, find_plugin_at, find_split, graph_source, mod_source_slot_to_graph, modulator_in,
    modulator_mut, plugin_mut, split_at, split_mut, with_modulator, with_plugin, with_split, KeyboardView,
    ModSlotView, ModSourceSlot, ParamSlot, PatternStateView, PluginView, SplitView, TreeAddress,
};
use crate::tui::params::{range_of_row, row_range, ModRow};
use crate::tui::shown::{adjusting_keeps_wf, setting_keeps_wf};

verus! {

/// The furthest that a split is transposed, either way.
pub const TRANSPOSE_MAX: i8 = 48;

/// Between the furthest transpositions.
pub open spec fn clamped_transpose(semitones: int) -> i8 {
    if semitones > TRANSPOSE_MAX {
        TRANSPOSE_MAX
    } else if semitones < -TRANSPOSE_MAX {
        (-TRANSPOSE_MAX) as i8
    } else {
        semitones as i8
    }
}

/// The next transposition: a semitone on, or an octave where the step is coarse.
pub open spec fn stepped_transpose(transpose: i8, up: bool, coarse: bool) -> i8 {
    let step: int = if coarse {
        12
    } else {
        1
    };
    clamped_transpose(
        if up {
            transpose + step
        } else {
            transpose - step
        },
    )
}

fn clamp_transpose(semitones: i16) -> (t: i8)
    ensures
        t == clamped_transpose(semitones as int),
{
    if semitones > 48 {
        48
    } else if semitones < -48 {
        -48
    } else {
        semitones as i8
    }
}

impl<F> EditorView<F> {
    /// The scalar under the parameter cursor with the range it may take: the value, the least and
    /// the greatest.
    pub open spec fn scalar(self) -> Option<(F, F, F)> {
        match self.selected() {
            None => None,
            Some(TreeAddress::Keyboard(_)) => None,
            Some(TreeAddress::Split { .. }) => None,
            Some(TreeAddress::Pattern { kb, split }) => match split_at(self.keyboards, kb, split) {
                Some(s) => match s.pattern {
                    Some(p) => if self.param_selected == 0 {
                        Some((p.length_beats, self.numbers.beats_min, self.numbers.beats_max))
                    } else {
                        None
                    },
                    None => None,
                },
                None => None,
            },
            Some(TreeAddress::Modulator { .. }) => match self.selected_modulator() {
                Some(m) => {
                    let row = m.row(self.param_selected);
                    match (m.value_at(row), row_range(row, self.numbers)) {
                        (Some(value), Some((min, max))) => Some((value, min, max)),
                        _ => None,
                    }
                },
                None => None,
            },
            Some(_) => match self.selected_param() {
                Some(p) => Some((p.value, p.min, p.max)),
                None => None,
            },
        }
    }

    /// With these keyboards, which the tree shows as it showed the old ones, and changes to save.
    pub open spec fn retouched(self, keyboards: Seq<KeyboardView<F>>) -> EditorView<F> {
        EditorView { keyboards, dirty: true, ..self }
    }

    /// The plugin parameter under the cursor takes a value.
    pub open spec fn param_set<P>(self, value: F) -> Change<P, F> {
        match (self.selected(), self.selected_param()) {
            (Some(addr), Some(param)) => {
                let (kb, split) = addr.place()->0;
                let slot = addr.audio_slot();
                let p = self.selected_plugin()->0;
                let pa = self.real_row()->0;
                (
                    self.retouched(
                        with_plugin(
                            self.keyboards,
                            kb,
                            split,
                            slot,
                            PluginView { params: p.params.update(pa as int, ParamSlot { value, ..param }), ..p },
                        ),
                    ),
                    seq![
                        Effect::Send(
                            GraphCommand::SetParameter {
                                kb,
                                split,
                                slot: slot as usize,
                                param_index: param.index,
                                value,
                            },
                        ),
                    ],
                )
            },
            _ => self.unchanged(),
        }
    }

    /// A row of a modulator that holds a scalar takes a value.
    pub open spec fn modulator_set<P>(
        self,
        kb: usize,
        split: usize,
        parent_slot: usize,
        mod_index: usize,
        row: ModRow,
        value: F,
    ) -> Change<P, F> {
        let m = modulator_in(self.keyboards, kb, split, parent_slot as int, mod_index)->0.with_value(row, value);
        let keyboards = with_modulator(self.keyboards, kb, split, parent_slot as int, mod_index, m);
        match (row, m.source) {
            (ModRow::Rate, _) => self.edited(
                keyboards,
                seq![
                    Effect::Send(
                        GraphCommand::SetModulatorRate { kb, split, parent_slot, mod_index, rate: value },
                    ),
                ],
            ),
            (ModRow::Depth(target_index), _) => (
                self.retouched(keyboards),
                seq![
                    Effect::Send(
                        GraphCommand::SetModTargetDepth {
                            kb,
                            split,
                            parent_slot,
                            mod_index,
                            target_index,
                            depth: value,
                        },
                    ),
                ],
            ),
            (_, ModSourceSlot::Envelope { attack, decay, sustain, release }) => (
                self.retouched(keyboards),
                seq![
                    Effect::Send(
                        GraphCommand::SetModulatorEnvelopeParam {
                            kb,
                            split,
                            parent_slot,
                            mod_index,
                            attack,
                            decay,
                            sustain,
                            release,
                        },
                    ),
                ],
            ),
            _ => self.unchanged(),
        }
    }

    /// The other kind of source, with its usual settings.
    pub open spec fn other_source(self, source: ModSourceSlot<F>) -> ModSourceSlot<F> {
        let n = self.numbers;
        match source {
            ModSourceSlot::Lfo { .. } => ModSourceSlot::Envelope {
                attack: n.attack,
                decay: n.decay,
                sustain: n.sustain,
                release: n.release,
            },
            ModSourceSlot::Envelope { .. } => ModSourceSlot::Lfo { waveform: LfoWaveform::Sine, rate: n.unity },
        }
    }

    /// A modulator's row is adjusted; `value` is what a scalar becomes.
    pub open spec fn modulator_adjusted<P>(
        self,
        kb: usize,
        split: usize,
        parent_slot: usize,
        mod_index: usize,
        up: bool,
        value: F,
    ) -> Change<P, F> {
        match modulator_in(self.keyboards, kb, split, parent_slot as int, mod_index) {
            None => self.unchanged(),
            Some(m) => match (m.row(self.param_selected), m.source) {
                (ModRow::Type, _) => {
                    let source = self.other_source(m.source);
                    let (after, effects) = self.edited::<P>(
                        with_modulator(
                            self.keyboards,
                            kb,
                            split,
                            parent_slot as int,
                            mod_index,
                            ModSlotView { source, ..m },
                        ),
                        seq![
                            Effect::Send(
                                GraphCommand::SetModulatorSource {
                                    kb,
                                    split,
                                    parent_slot,
                                    mod_index,
                                    source: graph_source(source, self.numbers.zero),
                                },
                            ),
                            Effect::SelectParam(0),
                        ],
                    );
                    (EditorView { param_selected: 0, ..after }, effects)
                },
                (ModRow::Waveform, ModSourceSlot::Lfo { waveform, rate }) => {
                    let next = LfoWaveform::at(
                        (waveform.index() + (if up {
                            1int
                        } else {
                            3int
                        })) % 4,
                    );
                    self.edited(
                        with_modulator(
                            self.keyboards,
                            kb,
                            split,
                            parent_slot as int,
                            mod_index,
                            ModSlotView { source: ModSourceSlot::Lfo { waveform: next, rate }, ..m },
                        ),
                        seq![
                            Effect::Send(
                                GraphCommand::SetModulatorWaveform {
                                    kb,
                                    split,
                                    parent_slot,
                                    mod_index,
                                    waveform: next,
                                },
                            ),
                        ],
                    )
                },
                (ModRow::Separator, _) => (self.touched(), Seq::empty()),
                (ModRow::Outside, _) => (self.touched(), Seq::empty()),
                (row, _) => self.modulator_set(kb, split, parent_slot, mod_index, row, value),
            },
        }
    }

    /// A pattern's row is adjusted; `value` is what its length becomes.
    pub open spec fn pattern_adjusted<P>(self, kb: usize, split: usize, value: F) -> Change<P, F> {
        match split_at(self.keyboards, kb, split) {
            None => self.unchanged(),
            Some(s) => match s.pattern {
                None => self.unchanged(),
                Some(p) => if self.param_selected == 0 {
                    self.edited(
                        with_split(
                            self.keyboards,
                            kb,
                            split,
                            SplitView { pattern: Some(PatternStateView { length_beats: value, ..p }), ..s },
                        ),
                        seq![Effect::Send(GraphCommand::SetPatternLength { kb, split, beats: value })],
                    )
                } else if self.param_selected == 1 {
                    self.edited(
                        with_split(
                            self.keyboards,
                            kb,
                            split,
                            SplitView { pattern: Some(PatternStateView { enabled: !p.enabled, ..p }), ..s },
                        ),
                        seq![Effect::Send(GraphCommand::SetPatternEnabled { kb, split, enabled: !p.enabled })],
                    )
                } else if self.param_selected == 2 {
                    (
                        self.retouched(
                            with_split(
                                self.keyboards,
                                kb,
                                split,
                                SplitView { pattern: Some(PatternStateView { looping: !p.looping, ..p }), ..s },
                            ),
                        ),
                        seq![Effect::Send(GraphCommand::SetPatternLooping { kb, split, looping: !p.looping })],
                    )
                } else {
                    self.unchanged()
                },
            },
        }
    }

    /// A split is transposed.
    pub open spec fn transposed<P>(self, kb: usize, split: usize, semitones: i8) -> Change<P, F> {
        match split_at(self.keyboards, kb, split) {
            None => self.unchanged(),
            Some(s) => self.edited(
                with_split(self.keyboards, kb, split, SplitView { transpose: semitones, ..s }),
                seq![Effect::Send(GraphCommand::SetTranspose { kb, split, semitones })],
            ),
        }
    }

    /// The parameter under the cursor is adjusted one step up or down; `value` is what a scalar
    /// becomes.
    pub open spec fn adjusted<P>(self, up: bool, coarse: bool, value: F) -> Change<P, F> {
        match self.selected() {
            None => self.unchanged(),
            Some(TreeAddress::Keyboard(_)) => self.unchanged(),
            Some(TreeAddress::Split { kb, split }) => match split_at(self.keyboards, kb, split) {
                Some(s) => self.transposed(kb, split, stepped_transpose(s.transpose, up, coarse)),
                None => self.unchanged(),
            },
            Some(TreeAddress::Pattern { kb, split }) => self.pattern_adjusted(kb, split, value),
            Some(TreeAddress::Modulator { kb, split, parent_slot, index }) => self.modulator_adjusted(
                kb,
                split,
                parent_slot,
                index,
                up,
                value,
            ),
            Some(_) => self.param_set(value),
        }
    }

    /// The parameter under the cursor is set: `value` where it is a scalar, `semitones` where it is
    /// a transposition. Choices among names are not set this way.
    pub open spec fn assigned<P>(self, value: F, semitones: i8) -> Change<P, F> {
        match self.selected() {
            None => self.unchanged(),
            Some(TreeAddress::Keyboard(_)) => self.unchanged(),
            Some(TreeAddress::Split { kb, split }) => self.transposed(
                kb,
                split,
                clamped_transpose(semitones as int),
            ),
            Some(TreeAddress::Pattern { kb, split }) => if self.param_selected == 0 {
                self.pattern_adjusted(kb, split, value)
            } else {
                self.unchanged()
            },
            Some(TreeAddress::Modulator { kb, split, parent_slot, index }) => match self.selected_modulator() {
                None => self.unchanged(),
                Some(m) => match m.row(self.param_selected) {
                    ModRow::Type => self.unchanged(),
                    ModRow::Waveform => self.unchanged(),
                    ModRow::Separator => self.unchanged(),
                    ModRow::Outside => (self.touched(), Seq::empty()),
                    row => self.modulator_set(kb, split, parent_slot, index, row, value),
                },
            },
            Some(_) => self.param_set(value),
        }
    }
}

impl<F: Copy> Editor<F> {
    /// The scalar under the parameter cursor with the range it may take: the value, the least and
    /// the greatest.
    pub fn adjustable(&self) -> (scalar: Option<(F, F, F)>)
        ensures
            scalar == self@.scalar(),
    {
        match self.selected_address() {
            None => None,
            Some(TreeAddress::Keyboard(_)) => None,
            Some(TreeAddress::Split { .. }) => None,
            Some(TreeAddress::Pattern { kb, split }) => match find_split(&self.keyboards, kb, split) {
                Some(s) => match &s.pattern {
                    Some(p) => if self.param_selected == 0 {
                        Some((p.length_beats, self.numbers.beats_min, self.numbers.beats_max))
                    } else {
                        None
                    },
                    None => None,
                },
                None => None,
            },
            Some(TreeAddress::Modulator { kb, split, parent_slot, index }) => match find_modulator(
                &self.keyboards,
                kb,
                split,
                parent_slot,
                index,
            ) {
                Some(m) => {
                    let row = m.row_at(self.param_selected);
                    match (m.row_value(row), range_of_row(row, &self.numbers)) {
                        (Some(value), Some((min, max))) => Some((value, min, max)),
                        _ => None,
                    }
                },
                None => None,
            },
            Some(_) => match self.param_here() {
                Some(p) => Some((p.value, p.min, p.max)),
                None => None,
            },
        }
    }

    fn set_param<P>(&mut self, value: F) -> (effects: Vec<Effect<P, F>>)
        ensures
            (final(self)@, effects@) == old(self)@.param_set::<P>(value),
    {
        let mut effects: Vec<Effect<P, F>> = Vec::new();
        let addr = match self.selected_address() {
            Some(addr) => addr,
            None => return effects,
        };
        let param_index: u32 = match self.param_here() {
            Some(p) => p.index,
            None => return effects,
        };
        let pa: usize = match self.real_param_index() {
            Some(pa) => pa,
            None => return effects,
        };
        if let Some((kb, split)) = addr.kb_split() {
            if find_plugin_at(&self.keyboards, addr).is_none() {
                return effects;
            }
            let slot: usize = addr.slot();
            if let Some(p) = plugin_mut(&mut self.keyboards, kb, split, slot) {
                p.params[pa].value = value;
            }
            self.dirty = true;
            effects.push(Effect::Send(GraphCommand::SetParameter { kb, split, slot, param_index, value }));
        }
        effects
    }

    fn set_modulator<P>(
        &mut self,
        kb: usize,
        split: usize,
        parent_slot: usize,
        mod_index: usize,
        row: ModRow,
        value: F,
    ) -> (effects: Vec<Effect<P, F>>)
        requires
            modulator_in(old(self)@.keyboards, kb, split, parent_slot as int, mod_index) matches Some(m)
                && m.value_at(row) is Some,
        ensures
            (final(self)@, effects@) == old(self)@.modulator_set::<P>(kb, split, parent_slot, mod_index, row, value),
    {
        let mut effects: Vec<Effect<P, F>> = Vec::new();
        let mut source: Option<ModSourceSlot<F>> = None;
        if let Some(m) = modulator_mut(&mut self.keyboards, kb, split, parent_slot, mod_index) {
            m.set_row(row, value);
            source = Some(m.source);
        }
        self.dirty = true;
        match (row, source) {
            (ModRow::Rate, _) => {
                effects.push(
                    Effect::Send(GraphCommand::SetModulatorRate { kb, split, parent_slot, mod_index, rate: value }),
                );
                effects.push(Effect::Rebuilt);
                self.rebuild_tree();
            },
            (ModRow::Depth(target_index), _) => {
                effects.push(
                    Effect::Send(
                        GraphCommand::SetModTargetDepth {
                            kb,
                            split,
                            parent_slot,
                            mod_index,
                            target_index,
                            depth: value,
                        },
                    ),
                );
            },
            (_, Some(ModSourceSlot::Envelope { attack, decay, sustain, release })) => {
                effects.push(
                    Effect::Send(
                        GraphCommand::SetModulatorEnvelopeParam {
                            kb,
                            split,
                            parent_slot,
                            mod_index,
                            attack,
                            decay,
                            sustain,
                            release,
                        },
                    ),
                );
            },
            _ => {},
        }
        effects
    }

    /// Adjusts a modulator's row.
    pub fn adjust_modulator_param<P>(
        &mut self,
        kb: usize,
        split: usize,
        parent_slot: usize,
        mod_index: usize,
        up: bool,
        value: F,
    ) -> (effects: Vec<Effect<P, F>>)
        ensures
            (final(self)@, effects@) == old(self)@.modulator_adjusted::<P>(
                kb,
                split,
                parent_slot,
                mod_index,
                up,
                value,
            ),
    {
        let mut effects: Vec<Effect<P, F>> = Vec::new();
        let (row, source) = match find_modulator(&self.keyboards, kb, split, parent_slot, mod_index) {
            Some(m) => (m.row_at(self.param_selected), m.source),
            None => return effects,
        };
        match (row, source) {
            (ModRow::Type, _) => {
                let n = self.numbers;
                let new_source = match source {
                    ModSourceSlot::Lfo { .. } => ModSourceSlot::Envelope {
                        attack: n.attack,
                        decay: n.decay,
                        sustain: n.sustain,
                        release: n.release,
                    },
                    ModSourceSlot::Envelope { .. } => ModSourceSlot::Lfo { waveform: LfoWaveform::Sine, rate: n.unity },
                };
                if let Some(m) = modulator_mut(&mut self.keyboards, kb, split, parent_slot, mod_index) {
                    m.source = new_source;
                }
                effects.push(
                    Effect::Send(
                        GraphCommand::SetModulatorSource {
                            kb,
                            split,
                            parent_slot,
                            mod_index,
                            source: mod_source_slot_to_graph(&new_source, n.zero),
                        },
                    ),
                );
                effects.push(Effect::SelectParam(0));
                effects.push(Effect::Rebuilt);
                self.param_selected = 0;
                self.dirty = true;
                self.rebuild_tree();
                effects
            },
            (ModRow::Waveform, ModSourceSlot::Lfo { waveform, rate }) => {
                let next = if up {
                    waveform.next()
                } else {
                    waveform.prev()
                };
                if let Some(m) = modulator_mut(&mut self.keyboards, kb, split, parent_slot, mod_index) {
                    m.source = ModSourceSlot::Lfo { waveform: next, rate };
                }
                effects.push(
                    Effect::Send(
                        GraphCommand::SetModulatorWaveform { kb, split, parent_slot, mod_index, waveform: next },
                    ),
                );
                effects.push(Effect::Rebuilt);
                self.dirty = true;
                self.rebuild_tree();
                effects
            },
            (ModRow::Separator, _) => {
                self.dirty = true;
                effects
            },
            (ModRow::Outside, _) => {
                self.dirty = true;
                effects
            },
            _ => self.set_modulator(kb, split, parent_slot, mod_index, row, value),
        }
    }

    /// Adjusts a pattern's row.
    pub fn adjust_pattern_param<P>(&mut self, kb: usize, split: usize, value: F) -> (effects: Vec<Effect<P, F>>)
        ensures
            (final(self)@, effects@) == old(self)@.pattern_adjusted::<P>(kb, split, value),
    {
        let mut effects: Vec<Effect<P, F>> = Vec::new();
        let pa: usize = self.param_selected;
        if pa > 2 {
            return effects;
        }
        let (enabled, looping): (bool, bool) = match find_split(&self.keyboards, kb, split) {
            Some(s) => match &s.pattern {
                Some(p) => (!p.enabled, !p.looping),
                None => return effects,
            },
            None => return effects,
        };
        if let Some(s) = split_mut(&mut self.keyboards, kb, split) {
            if let Some(p) = s.pattern.as_mut() {
                if pa == 0 {
                    p.length_beats = value;
                } else if pa == 1 {
                    p.enabled = enabled;
                } else {
                    p.looping = looping;
                }
            }
        }
        self.dirty = true;
        if pa == 0 {
            effects.push(Effect::Send(GraphCommand::SetPatternLength { kb, split, beats: value }));
        } else if pa == 1 {
            effects.push(Effect::Send(GraphCommand::SetPatternEnabled { kb, split, enabled }));
        } else {
            effects.push(Effect::Send(GraphCommand::SetPatternLooping { kb, split, looping }));
            return effects;
        }
        effects.push(Effect::Rebuilt);
        self.rebuild_tree();
        effects
    }

    fn set_transpose<P>(&mut self, kb: usize, split: usize, semitones: i8) -> (effects: Vec<Effect<P, F>>)
        ensures
            (final(self)@, effects@) == old(self)@.transposed::<P>(kb, split, semitones),
    {
        let mut effects: Vec<Effect<P, F>> = Vec::new();
        if let Some(s) = split_mut(&mut self.keyboards, kb, split) {
            s.transpose = semitones;
        } else {
            return effects;
        }
        effects.push(Effect::Send(GraphCommand::SetTranspose { kb, split, semitones }));
        effects.push(Effect::Rebuilt);
        self.dirty = true;
        self.rebuild_tree();
        effects
    }

    /// Transposes a split one step up or down.
    pub fn adjust_split_param<P>(&mut self, kb: usize, split: usize, up: bool, coarse: bool) -> (effects: Vec<
        Effect<P, F>,
    >)
        ensures
            (final(self)@, effects@) == match split_at(old(self)@.keyboards, kb, split) {
                Some(s) => old(self)@.transposed::<P>(kb, split, stepped_transpose(s.transpose, up, coarse)),
                None => old(self)@.unchanged::<P>(),
            },
    {
        let transpose: i16 = match find_split(&self.keyboards, kb, split) {
            Some(s) => s.transpose as i16,
            None => return Vec::new(),
        };
        let step: i16 = if coarse {
            12
        } else {
            1
        };
        let semitones: i8 = clamp_transpose(
            if up {
                transpose + step
            } else {
                transpose - step
            },
        );
        self.set_transpose(kb, split, semitones)
    }

    /// Adjusts the parameter under the cursor one step up or down; `value` is what a scalar becomes.
    pub fn adjust_param<P>(&mut self, up: bool, coarse: bool, value: F) -> (effects: Vec<Effect<P, F>>)
        ensures
            (final(self)@, effects@) == old(self)@.adjusted::<P>(up, coarse, value),
            old(self)@.wf() ==> final(self)@.wf(),
    {
        proof {
            if self@.wf() {
                adjusting_keeps_wf::<P, F>(self@, up, coarse, value);
            }
        }
        match self.selected_address() {
            None => Vec::new(),
            Some(TreeAddress::Keyboard(_)) => Vec::new(),
            Some(TreeAddress::Split { kb, split }) => self.adjust_split_param(kb, split, up, coarse),
            Some(TreeAddress::Pattern { kb, split }) => self.adjust_pattern_param(kb, split, value),
            Some(TreeAddress::Modulator { kb, split, parent_slot, index }) => self.adjust_modulator_param(
                kb,
                split,
                parent_slot,
                index,
                up,
                value,
            ),
            Some(_) => self.set_param(value),
        }
    }

    /// Sets a modulator's row; choices among names are not set this way.
    pub fn set_modulator_param_value<P>(
        &mut self,
        kb: usize,
        split: usize,
        parent_slot: usize,
        mod_index: usize,
        value: F,
    ) -> (effects: Vec<Effect<P, F>>)
        ensures
            (final(self)@, effects@) == match modulator_in(
                old(self)@.keyboards,
                kb,
                split,
                parent_slot as int,
                mod_index,
            ) {
                None => old(self)@.unchanged::<P>(),
                Some(m) => match m.row(old(self)@.param_selected) {
                    ModRow::Type => old(self)@.unchanged::<P>(),
                    ModRow::Waveform => old(self)@.unchanged::<P>(),
                    ModRow::Separator => old(self)@.unchanged::<P>(),
                    ModRow::Outside => (old(self)@.touched(), Seq::empty()),
                    row => old(self)@.modulator_set::<P>(kb, split, parent_slot, mod_index, row, value),
                },
            },
    {
        let row = match find_modulator(&self.keyboards, kb, split, parent_slot, mod_index) {
            Some(m) => m.row_at(self.param_selected),
            None => return Vec::new(),
        };
        match row {
            ModRow::Type => Vec::new(),
            ModRow::Waveform => Vec::new(),
            ModRow::Separator => Vec::new(),
            ModRow::Outside => {
                self.dirty = true;
                Vec::new()
            },
            _ => self.set_modulator(kb, split, parent_slot, mod_index, row, value),
        }
    }

    /// Sets the parameter under the cursor: `value` where it is a scalar, `semitones` where it is a
    /// transposition.
    pub fn set_param_value<P>(&mut self, value: F, semitones: i8) -> (effects: Vec<Effect<P, F>>)
        ensures
            (final(self)@, effects@) == old(self)@.assigned::<P>(value, semitones),
            old(self)@.wf() ==> final(self)@.wf(),
    {
        proof {
            if self@.wf() {
                setting_keeps_wf::<P, F>(self@, value, semitones);
            }
        }
        match self.selected_address() {
            None => Vec::new(),
            Some(TreeAddress::Keyboard(_)) => Vec::new(),
            Some(TreeAddress::Split { kb, split }) => self.set_transpose(kb, split, clamp_transpose(semitones as i16)),
            Some(TreeAddress::Pattern { kb, split }) => if self.param_selected == 0 {
                self.adjust_pattern_param(kb, split, value)
            } else {
                Vec::new()
            },
            Some(TreeAddress::Modulator { kb, split, parent_slot, index }) => self.set_modulator_param_value(
                kb,
                split,
                parent_slot,
                index,
                value,
            ),
            Some(_) => self.set_param(value),
        }
    }
}

} // verus!
