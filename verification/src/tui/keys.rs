//! What the keys do.
use vstd::prelude::*;

use crate::graph::GraphCommand;
use crate::model::{nth_mut, views};
use crate::modulation::LfoWaveform;
use crate::tui::editor::{
    Change, Editor, EditorView, Effect, ModulatorPlace, Motion, SelectorMode, ValueEdit, ValueEditView, PAGE, TAB_COUNT,
};
use crate::tui::model::{
    find_modulator, find_plugin, find_plugin_at, find_split, fixup_tui_cross_mod_after_remove, graph_source,
    mod_source_slot_to_graph, opt_view, plugin_in, plugin_mut, slots_after_remove, split_at, split_mut,
    with_plugin, with_split, with_splits, KeyboardView, ModSlotView, ModSourceSlot, ModulatorSlot,
    PatternState, PatternStateView, PluginSlot, PluginView, SplitView, TreeAddress,
};
use crate::tui::params::{range_of_row, row_range, ModRow};

verus! {

/// A key.
#[derive(Clone, Copy, Debug, PartialEq, Eq, Structural)]
pub enum Key {
    Char(char),
    Enter,
    Esc,
    Tab,
    BackTab,
    Backspace,
    Delete,
    Left,
    Right,
    Home,
    End,
    Up,
    Down,
    PageUp,
    PageDown,
    Other,
}

/// The modifiers that are held with a key.
#[derive(Clone, Copy, Debug, PartialEq, Eq, Structural)]
pub struct Modifiers {
    pub control: bool,
    pub shift: bool,
}

impl<F> EditorView<F> {
    /// A tab is chosen.
    pub open spec fn on_tab(self, tab: usize) -> EditorView<F> {
        EditorView { active_tab: tab, ..self }
    }

    /// The key that adds: a keyboard gets a split, a split an instrument, a plugin an effect.
    pub open spec fn add_key<P>(self) -> Change<P, F> {
        match self.selected() {
            Some(TreeAddress::Keyboard(kb)) => (
                EditorView { range_edit: Some(kb), ..self },
                seq![Effect::OpenPopup],
            ),
            Some(TreeAddress::Split { .. }) => (
                EditorView { selector: Some(SelectorMode::Instrument), ..self },
                seq![Effect::OpenPopup],
            ),
            Some(TreeAddress::Instrument { .. }) => (
                EditorView { selector: Some(SelectorMode::Effect), ..self },
                seq![Effect::OpenPopup],
            ),
            Some(TreeAddress::Effect { .. }) => (
                EditorView { selector: Some(SelectorMode::Effect), ..self },
                seq![Effect::OpenPopup],
            ),
            _ => self.unchanged(),
        }
    }

    /// The key that adds a modulator, a slow sine, to the selected plugin.
    pub open spec fn modulate_key<P>(self) -> Change<P, F> {
        match (self.selected(), self.selected_plugin()) {
            (Some(addr), Some(p)) => {
                let (kb, split) = addr.place()->0;
                let slot = addr.audio_slot();
                let source = ModSourceSlot::Lfo { waveform: LfoWaveform::Sine, rate: self.numbers.unity };
                self.edited(
                    with_plugin(
                        self.keyboards,
                        kb,
                        split,
                        slot,
                        PluginView {
                            modulators: p.modulators.push(ModSlotView { source, targets: Seq::empty() }),
                            ..p
                        },
                    ),
                    seq![
                        Effect::Send(
                            GraphCommand::InsertModulator {
                                kb,
                                split,
                                parent_slot: slot as usize,
                                index: p.modulators.len() as usize,
                                source: graph_source(source, self.numbers.zero),
                            },
                        ),
                    ],
                )
            },
            _ => self.unchanged(),
        }
    }

    /// The key that chooses a target for the selected modulator.
    pub open spec fn target_key<P>(self) -> Change<P, F> {
        match self.selected() {
            Some(TreeAddress::Modulator { kb, split, parent_slot, index }) => if plugin_in(
                self.keyboards,
                kb,
                split,
                parent_slot as int,
            ) is Some {
                (
                    EditorView { targets: Some(ModulatorPlace { kb, split, parent_slot, mod_index: index }), ..self },
                    seq![Effect::OpenPopup],
                )
            } else {
                self.unchanged()
            },
            _ => self.unchanged(),
        }
    }

    /// The pattern that recording starts with, where there is none.
    pub open spec fn new_pattern(self) -> PatternStateView<F> {
        PatternStateView {
            bpm: self.global_bpm,
            length_beats: self.numbers.new_beats,
            looping: true,
            base_note: None,
            events: Seq::empty(),
            enabled: false,
            recording: false,
        }
    }

    /// Recording is started or stopped in a split.
    pub open spec fn recording_toggled<P>(self, kb: usize, split: usize) -> Change<P, F> {
        match split_at(self.keyboards, kb, split) {
            None => self.unchanged(),
            Some(s) => match s.pattern {
                Some(p) if p.recording => self.edited(
                    with_split(
                        self.keyboards,
                        kb,
                        split,
                        SplitView { pattern: Some(PatternStateView { recording: false, ..p }), ..s },
                    ),
                    seq![Effect::Send(GraphCommand::SetPatternRecording { kb, split, recording: false })],
                ),
                _ => {
                    let p = match s.pattern {
                        Some(p) => p,
                        None => self.new_pattern(),
                    };
                    self.edited(
                        with_split(
                            self.keyboards,
                            kb,
                            split,
                            SplitView { pattern: Some(PatternStateView { recording: true, ..p }), ..s },
                        ),
                        seq![
                            Effect::Send(GraphCommand::SetGlobalBpm { bpm: self.global_bpm }),
                            Effect::Send(GraphCommand::SetPatternLength { kb, split, beats: p.length_beats }),
                            Effect::Send(GraphCommand::SetPatternRecording { kb, split, recording: true }),
                        ],
                    )
                },
            },
        }
    }

    /// The key that records.
    pub open spec fn record_key<P>(self) -> Change<P, F> {
        match self.selected() {
            Some(TreeAddress::Pattern { kb, split }) => self.recording_toggled(kb, split),
            Some(TreeAddress::Split { kb, split }) => self.recording_toggled(kb, split),
            _ => self.unchanged(),
        }
    }

    /// The keyboards without the pattern of a split.
    pub open spec fn pattern_cleared<P>(self, kb: usize, split: usize) -> Change<P, F> {
        match split_at(self.keyboards, kb, split) {
            Some(s) if s.pattern is Some => self.edited(
                with_split(self.keyboards, kb, split, SplitView { pattern: None, ..s }),
                seq![Effect::Send(GraphCommand::ClearPattern { kb, split })],
            ),
            _ => self.unchanged(),
        }
    }

    /// The key that clears the pattern of the selected split.
    pub open spec fn clear_key<P>(self) -> Change<P, F> {
        match self.selected() {
            Some(TreeAddress::Pattern { kb, split }) => self.pattern_cleared(kb, split),
            Some(TreeAddress::Split { kb, split }) => self.pattern_cleared(kb, split),
            _ => self.unchanged(),
        }
    }

    /// The key that chooses another instrument for the selected split.
    pub open spec fn replace_key<P>(self) -> Change<P, F> {
        match self.selected() {
            Some(addr) if addr.place() is Some => (
                EditorView { selector: Some(SelectorMode::Instrument), ..self },
                seq![Effect::OpenPopup],
            ),
            _ => self.unchanged(),
        }
    }

    /// The key that adds a split to the selected keyboard.
    pub open spec fn split_key<P>(self) -> Change<P, F> {
        match self.selected() {
            Some(TreeAddress::Keyboard(kb)) => (EditorView { range_edit: Some(kb), ..self }, seq![Effect::OpenPopup]),
            Some(addr) => (EditorView { range_edit: Some((addr.place()->0).0), ..self }, seq![Effect::OpenPopup]),
            None => self.unchanged(),
        }
    }

    /// The key that edits the tempo.
    pub open spec fn bpm_key<P>(self) -> Change<P, F> {
        (
            EditorView {
                bpm_edit: Some(
                    ValueEditView {
                        name: "BPM"@,
                        value: self.global_bpm,
                        decimals: 0,
                        min: self.numbers.bpm_min,
                        max: self.numbers.bpm_max,
                    },
                ),
                ..self
            },
            seq![Effect::OpenPopup],
        )
    }

    /// The key that deletes the selected node. The last split of a keyboard stays.
    pub open spec fn delete_key<P>(self) -> Change<P, F> {
        let kbs = self.keyboards;
        match self.selected() {
            Some(TreeAddress::Effect { kb, split, index }) => self.edited(
                match split_at(kbs, kb, split) {
                    Some(s) if index < s.effects.len() => with_split(
                        kbs,
                        kb,
                        split,
                        SplitView { effects: s.effects.remove(index as int), ..s },
                    ),
                    _ => kbs,
                },
                seq![Effect::Send(GraphCommand::RemoveEffect { kb, split, index })],
            ),
            Some(TreeAddress::Instrument { kb, split }) => match split_at(kbs, kb, split) {
                Some(s) if s.instrument is Some => self.edited(
                    with_split(kbs, kb, split, SplitView { instrument: None, ..s }),
                    seq![Effect::Send(GraphCommand::RemoveInstrument { kb, split })],
                ),
                _ => self.unchanged(),
            },
            Some(TreeAddress::Split { kb, split }) => if split_at(kbs, kb, split) is Some && kbs[kb as int].splits.len()
                > 1 {
                self.edited(
                    with_splits(kbs, kb, kbs[kb as int].splits.remove(split as int)),
                    seq![Effect::Send(GraphCommand::RemoveSplit { kb, split })],
                )
            } else {
                self.unchanged()
            },
            Some(TreeAddress::Pattern { kb, split }) => match split_at(kbs, kb, split) {
                Some(s) => self.edited(
                    with_split(kbs, kb, split, SplitView { pattern: None, ..s }),
                    seq![Effect::Send(GraphCommand::ClearPattern { kb, split })],
                ),
                None => self.unchanged(),
            },
            Some(TreeAddress::Modulator { kb, split, parent_slot, index }) => self.edited(
                match plugin_in(kbs, kb, split, parent_slot as int) {
                    Some(p) if index < p.modulators.len() => with_plugin(
                        kbs,
                        kb,
                        split,
                        parent_slot as int,
                        PluginView { modulators: slots_after_remove(p.modulators, index), ..p },
                    ),
                    _ => kbs,
                },
                seq![Effect::Send(GraphCommand::RemoveModulator { kb, split, parent_slot, index })],
            ),
            _ => self.unchanged(),
        }
    }

    /// The value that the selected row lets one type.
    pub open spec fn typed_value(self) -> Option<ValueEditView<F>> {
        match self.selected() {
            None => None,
            Some(TreeAddress::Modulator { .. }) => match self.selected_modulator() {
                Some(m) => {
                    let row = m.row(self.param_selected);
                    match (m.value_at(row), row_range(row, self.numbers)) {
                        (Some(value), Some((min, max))) => Some(
                            ValueEditView {
                                name: row_name(m, row),
                                value,
                                decimals: if m.source is Lfo {
                                    2
                                } else {
                                    3
                                },
                                min,
                                max,
                            },
                        ),
                        _ => None,
                    }
                },
                None => None,
            },
            Some(TreeAddress::Pattern { kb, split }) => match split_at(self.keyboards, kb, split) {
                Some(s) => match s.pattern {
                    Some(p) => if self.param_selected == 0 {
                        Some(
                            ValueEditView {
                                name: "Length (beats)"@,
                                value: p.length_beats,
                                decimals: 0,
                                min: self.numbers.beats_min,
                                max: self.numbers.beats_max,
                            },
                        )
                    } else {
                        None
                    },
                    None => None,
                },
                None => None,
            },
            Some(_) => match self.param_or_cursor() {
                Some(p) => Some(
                    ValueEditView { name: p.name@, value: p.value, decimals: 2, min: p.min, max: p.max },
                ),
                None => None,
            },
        }
    }

    /// The plugin parameter that the cursor stands for, or, where the filter gives none, the one at
    /// the cursor.
    pub open spec fn param_or_cursor(self) -> Option<crate::tui::model::ParamSlot<F>> {
        match self.selected_plugin() {
            Some(p) => {
                let pa = match self.real_row() {
                    Some(pa) => pa,
                    None => self.param_selected,
                };
                if pa < p.params.len() {
                    Some(p.params[pa as int])
                } else {
                    None
                }
            },
            None => None,
        }
    }

    /// The key that goes from the chain to the parameters, and from there to typing a value.
    pub open spec fn enter_key<P>(self) -> Change<P, F> {
        if self.focus_params {
            match self.typed_value() {
                Some(edit) => (EditorView { value_edit: Some(edit), ..self }, seq![Effect::OpenPopup]),
                None => self.unchanged(),
            }
        } else {
            match self.selected() {
                None => self.unchanged(),
                Some(TreeAddress::Keyboard(_)) => self.unchanged(),
                Some(_) => (EditorView { focus_params: true, ..self }, Seq::empty()),
            }
        }
    }

    /// The filter is emptied.
    pub open spec fn filter_dropped<P>(self) -> Change<P, F> {
        let after = EditorView { param_filter: Seq::empty(), ..self };
        (
            after.refiltered(),
            match after.filter_len() {
                Some(n) => seq![Effect::ResetFilter, Effect::ParamLen(n)],
                None => seq![Effect::ResetFilter],
            },
        )
    }

    /// The key that goes back: first out of the filter, then to the chain.
    pub open spec fn esc_key<P>(self) -> Change<P, F> {
        if self.param_filtering {
            EditorView { param_filtering: false, ..self }.filter_dropped()
        } else if self.focus_params && self.param_filter.len() > 0 {
            self.filter_dropped()
        } else {
            (EditorView { focus_params: false, ..self }, Seq::empty())
        }
    }

    /// The key that starts typing a filter, at plugins only.
    pub open spec fn slash_key<P>(self) -> Change<P, F> {
        match self.selected() {
            Some(addr) if addr.names_plugin() => (EditorView { param_filtering: true, ..self }, Seq::empty()),
            _ => self.unchanged(),
        }
    }

    /// An effect changes places with its neighbour.
    pub open spec fn effects_swapped(self, kb: usize, split: usize, a: usize, b: usize) -> Seq<KeyboardView<F>> {
        let s = split_at(self.keyboards, kb, split)->0;
        with_split(self.keyboards, kb, split, SplitView { effects: swapped(s.effects, a as int, b as int), ..s })
    }

    /// Two splits exchange their instruments.
    pub open spec fn instruments_swapped(self, kb: usize, a: usize, b: usize) -> Seq<KeyboardView<F>> {
        let splits = self.keyboards[kb as int].splits;
        let (sa, sb) = (splits[a as int], splits[b as int]);
        with_splits(
            self.keyboards,
            kb,
            splits.update(a as int, SplitView { instrument: sb.instrument, ..sa }).update(
                b as int,
                SplitView { instrument: sa.instrument, ..sb },
            ),
        )
    }

    /// Two splits exchange their patterns.
    pub open spec fn patterns_swapped(self, kb: usize, a: usize, b: usize) -> Seq<KeyboardView<F>> {
        let splits = self.keyboards[kb as int].splits;
        let (sa, sb) = (splits[a as int], splits[b as int]);
        with_splits(
            self.keyboards,
            kb,
            splits.update(a as int, SplitView { pattern: sb.pattern, ..sa }).update(
                b as int,
                SplitView { pattern: sa.pattern, ..sb },
            ),
        )
    }

    /// The keys that move the selected effect along its chain, or the selected instrument or
    /// pattern to the neighbouring split.
    pub open spec fn shift_key<P>(self, down: bool) -> Change<P, F> {
        match self.selected() {
            Some(TreeAddress::Effect { kb, split, index }) => match split_at(self.keyboards, kb, split) {
                Some(s) => if index < s.effects.len() && (if down {
                    index + 1 < s.effects.len()
                } else {
                    index > 0
                }) {
                    let to = neighbour(index, down);
                    let (after, effects) = self.edited::<P>(
                        self.effects_swapped(kb, split, index, to),
                        seq![Effect::Send(GraphCommand::ReorderEffect { kb, split, from: index, to })],
                    );
                    (
                        after,
                        effects.push(
                            if down {
                                Effect::SelectNext
                            } else {
                                Effect::SelectPrevious
                            },
                        ),
                    )
                } else {
                    self.unchanged()
                },
                None => self.unchanged(),
            },
            Some(TreeAddress::Instrument { kb, split }) => if self.has_neighbour(kb, split, down) {
                let to = neighbour(split, down);
                let (after, effects) = self.edited::<P>(
                    self.instruments_swapped(kb, split, to),
                    seq![Effect::Send(GraphCommand::SwapInstruments { kb, split_a: split, split_b: to })],
                );
                (after, effects.push(Effect::Follow(TreeAddress::Instrument { kb, split: to })))
            } else {
                self.unchanged()
            },
            Some(TreeAddress::Pattern { kb, split }) => if self.has_neighbour(kb, split, down) {
                let to = neighbour(split, down);
                let (after, effects) = self.edited::<P>(
                    self.patterns_swapped(kb, split, to),
                    seq![Effect::Send(GraphCommand::SwapPatterns { kb, split_a: split, split_b: to })],
                );
                (after, effects.push(Effect::Follow(TreeAddress::Pattern { kb, split: to })))
            } else {
                self.unchanged()
            },
            _ => self.unchanged(),
        }
    }

    /// Whether there is a split below, or above, this one.
    pub open spec fn has_neighbour(self, kb: usize, split: usize, down: bool) -> bool {
        split_at(self.keyboards, kb, split) is Some && if down {
            split + 1 < self.keyboards[kb as int].splits.len()
        } else {
            split > 0
        }
    }

    /// The keys that move a cursor, or scroll the help.
    pub open spec fn move_key<P>(self, motion: Motion) -> Change<P, F> {
        if self.active_tab == 0 {
            if self.focus_params {
                (self, seq![Effect::MoveParams(motion)])
            } else {
                (self, seq![Effect::MoveChain(motion)])
            }
        } else if self.active_tab == 3 {
            (EditorView { help_offset: scrolled(self.help_offset, motion), ..self }, Seq::empty())
        } else {
            self.unchanged()
        }
    }

    /// Whether the help can be scrolled by a motion: there are numbers for the rows.
    pub open spec fn has_room(self, motion: Motion) -> bool {
        self.active_tab == 3 ==> self.help_offset + scroll_rows(motion) <= usize::MAX
    }

    /// Whether a key can do what it does.
    pub open spec fn takes(self, key: Key) -> bool {
        match key {
            Key::Down => self.has_room(Motion::Down),
            Key::PageDown => self.has_room(Motion::PageDown),
            _ => true,
        }
    }

    /// What a key does.
    pub open spec fn keyed<P>(self, key: Key, mods: Modifiers) -> Change<P, F> {
        let session = self.active_tab == 0;
        let chain = session && !self.focus_params;
        let params = session && self.focus_params && !self.param_filtering;
        match key {
            Key::Char(c) => if (c == 'q' || c == 'c') && mods.control {
                (EditorView { quit: true, ..self }, Seq::empty())
            } else if c == 's' && mods.control {
                (self, seq![Effect::Save])
            } else if c == '1' {
                (self.on_tab(0), Seq::empty())
            } else if c == '2' {
                (self.on_tab(1), Seq::empty())
            } else if c == '3' {
                (self.on_tab(2), Seq::empty())
            } else if c == '4' {
                (self.on_tab(3), Seq::empty())
            } else if c == 'a' && chain {
                self.add_key()
            } else if c == 'm' && chain {
                self.modulate_key()
            } else if c == 't' && chain {
                self.target_key()
            } else if c == 'i' && chain {
                self.replace_key()
            } else if c == 's' && chain {
                self.split_key()
            } else if c == 'r' && chain && mods.control {
                self.clear_key()
            } else if c == 'r' && chain {
                self.record_key()
            } else if c == 'b' && chain {
                self.bpm_key()
            } else if c == 'd' && chain {
                self.delete_key()
            } else if c == '/' && params {
                self.slash_key()
            } else {
                self.unchanged()
            },
            Key::Tab => (self.on_tab(((self.active_tab + 1) % TAB_COUNT as int) as usize), Seq::empty()),
            Key::BackTab => (self.on_tab(((self.active_tab + TAB_COUNT - 1) % TAB_COUNT as int) as usize), Seq::empty()),
            Key::Enter => if session {
                self.enter_key()
            } else {
                self.unchanged()
            },
            Key::Esc => if session {
                self.esc_key()
            } else {
                self.unchanged()
            },
            Key::Left => if params {
                (self, seq![Effect::Adjust { up: false }])
            } else {
                self.unchanged()
            },
            Key::Right => if params {
                (self, seq![Effect::Adjust { up: true }])
            } else {
                self.unchanged()
            },
            Key::Up => if chain && mods.shift {
                self.shift_key(false)
            } else {
                self.move_key(Motion::Up)
            },
            Key::Down => if chain && mods.shift {
                self.shift_key(true)
            } else {
                self.move_key(Motion::Down)
            },
            Key::PageUp => self.move_key(Motion::PageUp),
            Key::PageDown => self.move_key(Motion::PageDown),
            _ => self.unchanged(),
        }
    }
}

/// Two elements change places.
pub open spec fn swapped<T>(items: Seq<T>, a: int, b: int) -> Seq<T> {
    items.update(a, items[b]).update(b, items[a])
}

/// The next index, or the one before.
pub open spec fn neighbour(index: usize, down: bool) -> usize {
    if down {
        (index + 1) as usize
    } else {
        (index - 1) as usize
    }
}

/// How far a motion scrolls the help.
pub open spec fn scroll_rows(motion: Motion) -> int {
    match motion {
        Motion::Up => -1,
        Motion::Down => 1,
        Motion::PageUp => -PAGE,
        Motion::PageDown => PAGE as int,
        Motion::ScrollUp => -3,
        Motion::ScrollDown => 3,
    }
}

/// The help's offset after a motion; it stops at the top.
pub open spec fn scrolled(offset: usize, motion: Motion) -> usize {
    if offset + scroll_rows(motion) < 0 {
        0
    } else {
        (offset + scroll_rows(motion)) as usize
    }
}

/// The name of a modulator's row.
pub open spec fn row_name<F>(m: ModSlotView<F>, row: ModRow) -> Seq<char> {
    match row {
        ModRow::Type => "Type"@,
        ModRow::Waveform => "Waveform"@,
        ModRow::Rate => "Rate (Hz)"@,
        ModRow::Attack => "Attack (s)"@,
        ModRow::Decay => "Decay (s)"@,
        ModRow::Sustain => "Sustain"@,
        ModRow::Release => "Release (s)"@,
        ModRow::Separator => "Targets"@,
        ModRow::Depth(i) => m.targets[i as int].param_name@ + " depth"@,
        ModRow::Outside => Seq::empty(),
    }
}

/// The name of a modulator's row.
pub fn name_of_row<F: Copy>(m: &ModulatorSlot<F>, row: ModRow) -> (name: String)
    requires
        row matches ModRow::Depth(i) ==> i < m@.targets.len(),
    ensures
        name@ == row_name(m@, row),
{
    match row {
        ModRow::Type => "Type".to_owned(),
        ModRow::Waveform => "Waveform".to_owned(),
        ModRow::Rate => "Rate (Hz)".to_owned(),
        ModRow::Attack => "Attack (s)".to_owned(),
        ModRow::Decay => "Decay (s)".to_owned(),
        ModRow::Sustain => "Sustain".to_owned(),
        ModRow::Release => "Release (s)".to_owned(),
        ModRow::Separator => "Targets".to_owned(),
        ModRow::Depth(i) => {
            let mut name = m.targets[i].param_name.clone();
            name.append(" depth");
            name
        },
        ModRow::Outside => String::new(),
    }
}

fn scroll(offset: usize, motion: Motion) -> (after: usize)
    requires
        offset + scroll_rows(motion) <= usize::MAX,
    ensures
        after == scrolled(offset, motion),
{
    match motion {
        Motion::Up => offset.saturating_sub(1),
        Motion::Down => offset + 1,
        Motion::PageUp => offset.saturating_sub(PAGE),
        Motion::PageDown => offset + PAGE,
        Motion::ScrollUp => offset.saturating_sub(3),
        Motion::ScrollDown => offset + 3,
    }
}

impl<F: Copy> Editor<F> {
    fn press_add<P>(&mut self) -> (effects: Vec<Effect<P, F>>)
        ensures
            (final(self)@, effects@) == old(self)@.add_key::<P>(),
    {
        let mut effects: Vec<Effect<P, F>> = Vec::new();
        match self.selected_address() {
            Some(TreeAddress::Keyboard(kb)) => {
                self.range_edit = Some(kb);
                effects.push(Effect::OpenPopup);
            },
            Some(TreeAddress::Split { .. }) => {
                self.selector = Some(SelectorMode::Instrument);
                effects.push(Effect::OpenPopup);
            },
            Some(TreeAddress::Instrument { .. }) => {
                self.selector = Some(SelectorMode::Effect);
                effects.push(Effect::OpenPopup);
            },
            Some(TreeAddress::Effect { .. }) => {
                self.selector = Some(SelectorMode::Effect);
                effects.push(Effect::OpenPopup);
            },
            _ => {},
        }
        effects
    }

    fn press_modulate<P>(&mut self) -> (effects: Vec<Effect<P, F>>)
        ensures
            (final(self)@, effects@) == old(self)@.modulate_key::<P>(),
    {
        let mut effects: Vec<Effect<P, F>> = Vec::new();
        let addr = match self.selected_address() {
            Some(addr) => addr,
            None => return effects,
        };
        let index: usize = match find_plugin_at(&self.keyboards, addr) {
            Some(p) => p.modulators.len(),
            None => return effects,
        };
        if let Some((kb, split)) = addr.kb_split() {
            let parent_slot: usize = addr.slot();
            let source = ModSourceSlot::Lfo { waveform: LfoWaveform::Sine, rate: self.numbers.unity };
            if let Some(p) = plugin_mut(&mut self.keyboards, kb, split, parent_slot) {
                let new_mod = ModulatorSlot { source, targets: Vec::new() };
                let ghost mods = views(p.modulators@);
                p.modulators.push(new_mod);
                assert(views(p.modulators@) =~= mods.push(new_mod@));
            }
            effects.push(
                Effect::Send(
                    GraphCommand::InsertModulator {
                        kb,
                        split,
                        parent_slot,
                        index,
                        source: mod_source_slot_to_graph(&source, self.numbers.zero),
                    },
                ),
            );
            effects.push(Effect::Rebuilt);
            self.dirty = true;
            self.rebuild_tree();
        }
        effects
    }

    fn press_target<P>(&mut self) -> (effects: Vec<Effect<P, F>>)
        ensures
            (final(self)@, effects@) == old(self)@.target_key::<P>(),
    {
        let mut effects: Vec<Effect<P, F>> = Vec::new();
        if let Some(TreeAddress::Modulator { kb, split, parent_slot, index }) = self.selected_address() {
            if find_plugin(&self.keyboards, kb, split, parent_slot).is_some() {
                self.targets = Some(ModulatorPlace { kb, split, parent_slot, mod_index: index });
                effects.push(Effect::OpenPopup);
            }
        }
        effects
    }

    fn toggle_recording<P>(&mut self, kb: usize, split: usize) -> (effects: Vec<Effect<P, F>>)
        ensures
            (final(self)@, effects@) == old(self)@.recording_toggled::<P>(kb, split),
    {
        let mut effects: Vec<Effect<P, F>> = Vec::new();
        let bpm = self.global_bpm;
        let new_beats = self.numbers.new_beats;
        if let Some(s) = split_mut(&mut self.keyboards, kb, split) {
            let recording: bool = match &s.pattern {
                Some(p) => p.recording,
                None => false,
            };
            if recording {
                effects.push(Effect::Send(GraphCommand::SetPatternRecording { kb, split, recording: false }));
                if let Some(p) = s.pattern.as_mut() {
                    p.recording = false;
                }
            } else {
                if s.pattern.is_none() {
                    s.pattern = Some(
                        PatternState {
                            bpm,
                            length_beats: new_beats,
                            looping: true,
                            base_note: None,
                            events: Vec::new(),
                            enabled: false,
                            recording: false,
                        },
                    );
                }
                if let Some(p) = s.pattern.as_mut() {
                    effects.push(Effect::Send(GraphCommand::SetGlobalBpm { bpm }));
                    effects.push(Effect::Send(GraphCommand::SetPatternLength { kb, split, beats: p.length_beats }));
                    effects.push(Effect::Send(GraphCommand::SetPatternRecording { kb, split, recording: true }));
                    p.recording = true;
                }
            }
        } else {
            return effects;
        }
        effects.push(Effect::Rebuilt);
        self.dirty = true;
        self.rebuild_tree();
        effects
    }

    fn press_record<P>(&mut self) -> (effects: Vec<Effect<P, F>>)
        ensures
            (final(self)@, effects@) == old(self)@.record_key::<P>(),
    {
        match self.selected_address() {
            Some(TreeAddress::Pattern { kb, split }) => self.toggle_recording(kb, split),
            Some(TreeAddress::Split { kb, split }) => self.toggle_recording(kb, split),
            _ => Vec::new(),
        }
    }

    fn press_bpm<P>(&mut self) -> (effects: Vec<Effect<P, F>>)
        ensures
            (final(self)@, effects@) == old(self)@.bpm_key::<P>(),
    {
        let mut effects: Vec<Effect<P, F>> = Vec::new();
        self.bpm_edit = Some(
            ValueEdit {
                name: "BPM".to_owned(),
                value: self.global_bpm,
                decimals: 0,
                min: self.numbers.bpm_min,
                max: self.numbers.bpm_max,
            },
        );
        effects.push(Effect::OpenPopup);
        effects
    }

    fn press_delete<P>(&mut self) -> (effects: Vec<Effect<P, F>>)
        ensures
            (final(self)@, effects@) == old(self)@.delete_key::<P>(),
    {
        let mut effects: Vec<Effect<P, F>> = Vec::new();
        match self.selected_address() {
            Some(TreeAddress::Effect { kb, split, index }) => {
                effects.push(Effect::Send(GraphCommand::RemoveEffect { kb, split, index }));
                proof {
                    crate::tui::model::lemma_same_split(self@.keyboards, kb, split);
                }
                if let Some(s) = split_mut(&mut self.keyboards, kb, split) {
                    if index < s.effects.len() {
                        let ghost fx = views(s.effects@);
                        let _ = s.effects.remove(index);
                        assert(views(s.effects@) =~= fx.remove(index as int));
                    }
                }
            },
            Some(TreeAddress::Instrument { kb, split }) => {
                proof {
                    crate::tui::model::lemma_same_split(self@.keyboards, kb, split);
                }
                if let Some(s) = split_mut(&mut self.keyboards, kb, split) {
                    if s.instrument.is_none() {
                        return effects;
                    }
                    effects.push(Effect::Send(GraphCommand::RemoveInstrument { kb, split }));
                    s.instrument = None;
                } else {
                    return effects;
                }
            },
            Some(TreeAddress::Split { kb, split }) => {
                if kb >= self.keyboards.len() {
                    return effects;
                }
                if split >= self.keyboards[kb].splits.len() || self.keyboards[kb].splits.len() <= 1 {
                    return effects;
                }
                effects.push(Effect::Send(GraphCommand::RemoveSplit { kb, split }));
                if let Some(k) = nth_mut(&mut self.keyboards, kb) {
                    let ghost splits = views(k.splits@);
                    let _ = k.splits.remove(split);
                    assert(views(k.splits@) =~= splits.remove(split as int));
                }
            },
            Some(TreeAddress::Pattern { kb, split }) => {
                if let Some(s) = split_mut(&mut self.keyboards, kb, split) {
                    effects.push(Effect::Send(GraphCommand::ClearPattern { kb, split }));
                    s.pattern = None;
                } else {
                    return effects;
                }
            },
            Some(TreeAddress::Modulator { kb, split, parent_slot, index }) => {
                effects.push(Effect::Send(GraphCommand::RemoveModulator { kb, split, parent_slot, index }));
                proof {
                    crate::tui::model::lemma_same_plugin(self@.keyboards, kb, split, parent_slot as int);
                }
                if let Some(p) = plugin_mut(&mut self.keyboards, kb, split, parent_slot) {
                    if index < p.modulators.len() {
                        let ghost mods = views(p.modulators@);
                        let _ = p.modulators.remove(index);
                        assert(views(p.modulators@) =~= mods.remove(index as int));
                        fixup_tui_cross_mod_after_remove(&mut p.modulators, index);
                    }
                }
            },
            _ => return effects,
        }
        effects.push(Effect::Rebuilt);
        self.dirty = true;
        self.rebuild_tree();
        effects
    }

    fn value_to_type(&self) -> (edit: Option<ValueEdit<F>>)
        ensures
            opt_view(edit) == self@.typed_value(),
    {
        match self.selected_address() {
            None => None,
            Some(TreeAddress::Modulator { kb, split, parent_slot, index }) => match find_modulator(
                &self.keyboards,
                kb,
                split,
                parent_slot,
                index,
            ) {
                Some(m) => {
                    let row = m.row_at(self.param_selected);
                    match (m.row_value(row), range_of_row(row, &self.numbers)) {
                        (Some(value), Some((min, max))) => {
                            let decimals: usize = match m.source {
                                ModSourceSlot::Lfo { .. } => 2,
                                ModSourceSlot::Envelope { .. } => 3,
                            };
                            Some(ValueEdit { name: name_of_row(m, row), value, decimals, min, max })
                        },
                        _ => None,
                    }
                },
                None => None,
            },
            Some(TreeAddress::Pattern { kb, split }) => match find_split(&self.keyboards, kb, split) {
                Some(s) => match &s.pattern {
                    Some(p) => if self.param_selected == 0 {
                        Some(
                            ValueEdit {
                                name: "Length (beats)".to_owned(),
                                value: p.length_beats,
                                decimals: 0,
                                min: self.numbers.beats_min,
                                max: self.numbers.beats_max,
                            },
                        )
                    } else {
                        None
                    },
                    None => None,
                },
                None => None,
            },
            Some(addr) => match find_plugin_at(&self.keyboards, addr) {
                Some(p) => {
                    let pa: usize = match self.real_param_index() {
                        Some(pa) => pa,
                        None => self.param_selected,
                    };
                    if pa < p.params.len() {
                        let param = &p.params[pa];
                        Some(
                            ValueEdit {
                                name: param.name.clone(),
                                value: param.value,
                                decimals: 2,
                                min: param.min,
                                max: param.max,
                            },
                        )
                    } else {
                        None
                    }
                },
                None => None,
            },
        }
    }

    fn press_enter<P>(&mut self) -> (effects: Vec<Effect<P, F>>)
        ensures
            (final(self)@, effects@) == old(self)@.enter_key::<P>(),
    {
        let mut effects: Vec<Effect<P, F>> = Vec::new();
        if self.focus_params {
            let edit = self.value_to_type();
            if edit.is_some() {
                self.value_edit = edit;
                effects.push(Effect::OpenPopup);
            }
        } else {
            match self.selected_address() {
                None => {},
                Some(TreeAddress::Keyboard(_)) => {},
                Some(_) => {
                    self.focus_params = true;
                },
            }
        }
        effects
    }

    /// Empties the filter.
    pub fn drop_filter<P>(&mut self) -> (effects: Vec<Effect<P, F>>)
        ensures
            (final(self)@, effects@) == old(self)@.filter_dropped::<P>(),
    {
        let mut effects: Vec<Effect<P, F>> = Vec::new();
        self.param_filter = String::new();
        let len = self.recompute_param_filter();
        effects.push(Effect::ResetFilter);
        if let Some(n) = len {
            effects.push(Effect::ParamLen(n));
        }
        effects
    }

    fn press_esc<P>(&mut self) -> (effects: Vec<Effect<P, F>>)
        ensures
            (final(self)@, effects@) == old(self)@.esc_key::<P>(),
    {
        if self.param_filtering {
            self.param_filtering = false;
            self.drop_filter()
        } else if self.focus_params && self.param_filter.as_str().unicode_len() > 0 {
            self.drop_filter()
        } else {
            self.focus_params = false;
            Vec::new()
        }
    }

    fn press_slash<P>(&mut self) -> (effects: Vec<Effect<P, F>>)
        ensures
            (final(self)@, effects@) == old(self)@.slash_key::<P>(),
    {
        if let Some(addr) = self.selected_address() {
            if addr.is_plugin() {
                self.param_filtering = true;
            }
        }
        Vec::new()
    }

    fn swap_effects(&mut self, kb: usize, split: usize, a: usize, b: usize)
        requires
            split_at(old(self)@.keyboards, kb, split) matches Some(s) && a < s.effects.len() && b < s.effects.len(),
            a == b + 1 || b == a + 1,
        ensures
            final(self)@ == (EditorView { keyboards: old(self)@.effects_swapped(kb, split, a, b), ..old(self)@ }),
    {
        if let Some(s) = split_mut(&mut self.keyboards, kb, split) {
            let ghost fx = s.effects@;
            let effect = s.effects.remove(a);
            s.effects.insert(b, effect);
            assert(views(s.effects@) =~= swapped(views(fx), a as int, b as int));
        }
    }

    fn swap_between(&mut self, kb: usize, a: usize, b: usize, patterns: bool)
        requires
            split_at(old(self)@.keyboards, kb, a) is Some,
            split_at(old(self)@.keyboards, kb, b) is Some,
            a != b,
        ensures
            final(self)@ == (EditorView {
                keyboards: if patterns {
                    old(self)@.patterns_swapped(kb, a, b)
                } else {
                    old(self)@.instruments_swapped(kb, a, b)
                },
                ..old(self)@
            }),
    {
        if let Some(k) = nth_mut(&mut self.keyboards, kb) {
            let ghost before = views(k.splits@);
            if patterns {
                let mut held: Option<PatternState<F>> = None;
                std::mem::swap(&mut held, &mut k.splits[a].pattern);
                std::mem::swap(&mut held, &mut k.splits[b].pattern);
                std::mem::swap(&mut held, &mut k.splits[a].pattern);
                assert(views(k.splits@) =~= before.update(
                    a as int,
                    SplitView { pattern: before[b as int].pattern, ..before[a as int] },
                ).update(b as int, SplitView { pattern: before[a as int].pattern, ..before[b as int] }));
            } else {
                let mut held: Option<PluginSlot<F>> = None;
                std::mem::swap(&mut held, &mut k.splits[a].instrument);
                std::mem::swap(&mut held, &mut k.splits[b].instrument);
                std::mem::swap(&mut held, &mut k.splits[a].instrument);
                assert(views(k.splits@) =~= before.update(
                    a as int,
                    SplitView { instrument: before[b as int].instrument, ..before[a as int] },
                ).update(b as int, SplitView { instrument: before[a as int].instrument, ..before[b as int] }));
            }
        }
    }

    fn neighbour_split(&self, kb: usize, split: usize, down: bool) -> (to: Option<usize>)
        ensures
            match to {
                Some(to) => self@.has_neighbour(kb, split, down) && to == neighbour(split, down) && split_at(
                    self@.keyboards,
                    kb,
                    to,
                ) is Some && to != split,
                None => !self@.has_neighbour(kb, split, down),
            },
    {
        if kb >= self.keyboards.len() || split >= self.keyboards[kb].splits.len() {
            return None;
        }
        if down {
            if split + 1 < self.keyboards[kb].splits.len() {
                Some(split + 1)
            } else {
                None
            }
        } else if split > 0 {
            Some(split - 1)
        } else {
            None
        }
    }

    fn press_shift<P>(&mut self, down: bool) -> (effects: Vec<Effect<P, F>>)
        ensures
            (final(self)@, effects@) == old(self)@.shift_key::<P>(down),
    {
        let mut effects: Vec<Effect<P, F>> = Vec::new();
        match self.selected_address() {
            Some(TreeAddress::Effect { kb, split, index }) => {
                let count: usize = match find_split(&self.keyboards, kb, split) {
                    Some(s) => s.effects.len(),
                    None => return effects,
                };
                if index >= count || (down && index + 1 >= count) || (!down && index == 0) {
                    return effects;
                }
                let to: usize = if down {
                    index + 1
                } else {
                    index - 1
                };
                self.swap_effects(kb, split, index, to);
                effects.push(Effect::Send(GraphCommand::ReorderEffect { kb, split, from: index, to }));
                effects.push(Effect::Rebuilt);
                effects.push(
                    if down {
                        Effect::SelectNext
                    } else {
                        Effect::SelectPrevious
                    },
                );
            },
            Some(TreeAddress::Instrument { kb, split }) => {
                let to: usize = match self.neighbour_split(kb, split, down) {
                    Some(to) => to,
                    None => return effects,
                };
                self.swap_between(kb, split, to, false);
                effects.push(Effect::Send(GraphCommand::SwapInstruments { kb, split_a: split, split_b: to }));
                effects.push(Effect::Rebuilt);
                effects.push(Effect::Follow(TreeAddress::Instrument { kb, split: to }));
            },
            Some(TreeAddress::Pattern { kb, split }) => {
                let to: usize = match self.neighbour_split(kb, split, down) {
                    Some(to) => to,
                    None => return effects,
                };
                self.swap_between(kb, split, to, true);
                effects.push(Effect::Send(GraphCommand::SwapPatterns { kb, split_a: split, split_b: to }));
                effects.push(Effect::Rebuilt);
                effects.push(Effect::Follow(TreeAddress::Pattern { kb, split: to }));
            },
            _ => return effects,
        }
        self.dirty = true;
        self.rebuild_tree();
        effects
    }

    /// Whether the help can be scrolled by a motion.
    pub fn check_room(&self, motion: Motion) -> (r: bool)
        ensures
            r == self@.has_room(motion),
    {
        if self.active_tab != 3 {
            return true;
        }
        let left: usize = usize::MAX - self.help_offset;
        match motion {
            Motion::Up | Motion::PageUp | Motion::ScrollUp => true,
            Motion::Down => left >= 1,
            Motion::PageDown => left >= PAGE,
            Motion::ScrollDown => left >= 3,
        }
    }

    /// Whether a key can do what it does.
    pub fn check_key(&self, key: Key) -> (r: bool)
        ensures
            r == self@.takes(key),
    {
        match key {
            Key::Down => self.check_room(Motion::Down),
            Key::PageDown => self.check_room(Motion::PageDown),
            _ => true,
        }
    }

    /// Moves a cursor, or scrolls the help.
    pub fn move_cursor<P>(&mut self, motion: Motion) -> (effects: Vec<Effect<P, F>>)
        requires
            old(self)@.has_room(motion),
        ensures
            (final(self)@, effects@) == old(self)@.move_key::<P>(motion),
    {
        let mut effects: Vec<Effect<P, F>> = Vec::new();
        if self.active_tab == 0 {
            if self.focus_params {
                effects.push(Effect::MoveParams(motion));
            } else {
                effects.push(Effect::MoveChain(motion));
            }
        } else if self.active_tab == 3 {
            self.help_offset = scroll(self.help_offset, motion);
        }
        effects
    }

    fn press_replace<P>(&mut self) -> (effects: Vec<Effect<P, F>>)
        ensures
            (final(self)@, effects@) == old(self)@.replace_key::<P>(),
    {
        let mut effects: Vec<Effect<P, F>> = Vec::new();
        if let Some(addr) = self.selected_address() {
            if addr.kb_split().is_some() {
                self.selector = Some(SelectorMode::Instrument);
                effects.push(Effect::OpenPopup);
            }
        }
        effects
    }

    fn press_split<P>(&mut self) -> (effects: Vec<Effect<P, F>>)
        ensures
            (final(self)@, effects@) == old(self)@.split_key::<P>(),
    {
        let mut effects: Vec<Effect<P, F>> = Vec::new();
        match self.selected_address() {
            Some(TreeAddress::Keyboard(kb)) => {
                self.range_edit = Some(kb);
                effects.push(Effect::OpenPopup);
            },
            Some(addr) => {
                if let Some((kb, _)) = addr.kb_split() {
                    self.range_edit = Some(kb);
                    effects.push(Effect::OpenPopup);
                }
            },
            None => {},
        }
        effects
    }

    fn press_clear<P>(&mut self) -> (effects: Vec<Effect<P, F>>)
        ensures
            (final(self)@, effects@) == old(self)@.clear_key::<P>(),
    {
        let mut effects: Vec<Effect<P, F>> = Vec::new();
        let (kb, split): (usize, usize) = match self.selected_address() {
            Some(TreeAddress::Pattern { kb, split }) => (kb, split),
            Some(TreeAddress::Split { kb, split }) => (kb, split),
            _ => return effects,
        };
        let there: bool = match find_split(&self.keyboards, kb, split) {
            Some(s) => s.pattern.is_some(),
            None => false,
        };
        if !there {
            return effects;
        }
        if let Some(s) = split_mut(&mut self.keyboards, kb, split) {
            s.pattern = None;
        }
        effects.push(Effect::Send(GraphCommand::ClearPattern { kb, split }));
        effects.push(Effect::Rebuilt);
        self.dirty = true;
        self.rebuild_tree();
        effects
    }

    fn press_char<P>(&mut self, c: char, mods: Modifiers) -> (effects: Vec<Effect<P, F>>)
        ensures
            (final(self)@, effects@) == old(self)@.keyed::<P>(Key::Char(c), mods),
    {
        let control: bool = mods.control;
        let chain: bool = self.active_tab == 0 && !self.focus_params;
        let params: bool = self.active_tab == 0 && self.focus_params && !self.param_filtering;
        let mut effects: Vec<Effect<P, F>> = Vec::new();
        if (c == 'q' || c == 'c') && control {
            self.quit = true;
        } else if c == 's' && control {
            effects.push(Effect::Save);
        } else if c == '1' {
            self.active_tab = 0;
        } else if c == '2' {
            self.active_tab = 1;
        } else if c == '3' {
            self.active_tab = 2;
        } else if c == '4' {
            self.active_tab = 3;
        } else if c == 'a' && chain {
            effects = self.press_add();
        } else if c == 'm' && chain {
            effects = self.press_modulate();
        } else if c == 't' && chain {
            effects = self.press_target();
        } else if c == 'i' && chain {
            effects = self.press_replace();
        } else if c == 's' && chain {
            effects = self.press_split();
        } else if c == 'r' && chain && control {
            effects = self.press_clear();
        } else if c == 'r' && chain {
            effects = self.press_record();
        } else if c == 'b' && chain {
            effects = self.press_bpm();
        } else if c == 'd' && chain {
            effects = self.press_delete();
        } else if c == '/' && params {
            effects = self.press_slash();
        }
        effects
    }

    /// Lets a key do what it does. An adjustment is left to the caller, who knows the step.
    pub fn handle_key<P>(&mut self, key: Key, mods: Modifiers) -> (effects: Vec<Effect<P, F>>)
        requires
            old(self)@.wf(),
            old(self)@.takes(key),
        ensures
            (final(self)@, effects@) == old(self)@.keyed::<P>(key, mods),
            final(self)@.wf(),
    {
        proof {
            keys_keep_wf::<P, F>(self@, key, mods);
        }
        let session: bool = self.active_tab == 0;
        let chain: bool = session && !self.focus_params;
        let params: bool = session && self.focus_params && !self.param_filtering;
        let mut effects: Vec<Effect<P, F>> = Vec::new();
        match key {
            Key::Char(c) => {
                effects = self.press_char(c, mods);
            },
            Key::Tab => {
                self.active_tab = (self.active_tab + 1) % TAB_COUNT;
            },
            Key::BackTab => {
                self.active_tab = (self.active_tab + TAB_COUNT - 1) % TAB_COUNT;
            },
            Key::Enter => {
                if session {
                    effects = self.press_enter();
                }
            },
            Key::Esc => {
                if session {
                    effects = self.press_esc();
                }
            },
            Key::Left => {
                if params {
                    effects.push(Effect::Adjust { up: false });
                }
            },
            Key::Right => {
                if params {
                    effects.push(Effect::Adjust { up: true });
                }
            },
            Key::Up => {
                if chain && mods.shift {
                    effects = self.press_shift(false);
                } else {
                    effects = self.move_cursor(Motion::Up);
                }
            },
            Key::Down => {
                if chain && mods.shift {
                    effects = self.press_shift(true);
                } else {
                    effects = self.move_cursor(Motion::Down);
                }
            },
            Key::PageUp => {
                effects = self.move_cursor(Motion::PageUp);
            },
            Key::PageDown => {
                effects = self.move_cursor(Motion::PageDown);
            },
            _ => {},
        }
        effects
    }
}

// ---------------------------------------------------------------------------
// Laws
// ---------------------------------------------------------------------------

/// Whatever key is pressed, the tree shows the keyboards as they are afterwards.
pub proof fn keys_keep_wf<P, F>(e: EditorView<F>, key: Key, mods: Modifiers)
    requires
        e.wf(),
    ensures
        e.keyed::<P>(key, mods).0.wf(),
{
}

/// Tab goes to the next tab and back-tab to the one before, round and round, so that each undoes the
/// other. Nothing else changes, and nothing is asked for.
pub proof fn tabs_turn_both_ways<P, F>(e: EditorView<F>, mods: Modifiers)
    requires
        e.active_tab < TAB_COUNT,
    ensures
        e.keyed::<P>(Key::Tab, mods) == (
            (EditorView { active_tab: ((e.active_tab + 1) % TAB_COUNT as int) as usize, ..e }),
            Seq::<Effect<P, F>>::empty(),
        ),
        e.keyed::<P>(Key::BackTab, mods) == (
            (EditorView { active_tab: ((e.active_tab + TAB_COUNT - 1) % TAB_COUNT as int) as usize, ..e }),
            Seq::<Effect<P, F>>::empty(),
        ),
        e.keyed::<P>(Key::Tab, mods).0.keyed::<P>(Key::BackTab, mods).0 == e,
        e.keyed::<P>(Key::BackTab, mods).0.keyed::<P>(Key::Tab, mods).0 == e,
{
}

/// The keys 1 to 4 choose a tab each. Nothing else changes, and nothing is asked for.
pub proof fn digits_choose_tabs<P, F>(e: EditorView<F>, tab: usize, mods: Modifiers)
    requires
        tab < TAB_COUNT,
    ensures
        e.keyed::<P>(Key::Char(('1' as int + tab) as char), mods) == (
            (EditorView { active_tab: tab, ..e }),
            Seq::<Effect<P, F>>::empty(),
        ),
{
}

} // verus!
