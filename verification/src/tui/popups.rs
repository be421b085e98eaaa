//! The popups: which of them gets a key, what the keys do in them, and what happens when one is
//! confirmed.
use vstd::prelude::*;

use crate::graph::GraphCommand;
use crate::model::{nth_mut, views};
use crate::modulation::{ModTarget, ModTargetKind};
use crate::notes::{parse_range, parsed_range};
use crate::pattern::PatternNotification;
use crate::text::{decimal, push_decimal, trim, trimmed};
use crate::tui::editor::{Change, Editor, EditorView, Effect, Numbers, SelectorMode};
use crate::tui::keys::Key;
use crate::tui::model::{
    find_plugin, modulator_in, modulator_mut, plugin_in, split_at, split_mut, with_modulator, with_split,
    with_splits, KeyboardView, ModSlotView, ModSourceSlot, ModTargetSlot, ParamSlot, PatternState,
    PatternStateView, PluginSlot, PluginView, SplitNode, SplitView, TreeAddress,
};
use crate::tui::shown::tempo_keeps_wf;

verus! {

/// What a key goes to.
#[derive(Clone, Copy, Debug, PartialEq, Eq, Structural)]
pub enum KeyRoute {
    Selector,
    Targets,
    Bpm,
    Value,
    Range,
    Filter,
    Editor,
}

/// What a key does in a popup or a text field.
#[derive(Clone, Copy, Debug, PartialEq, Eq, Structural)]
pub enum FieldAction {
    Nothing,
    Close,
    Confirm,
    Up,
    Down,
    PageUp,
    PageDown,
    Backspace,
    Delete,
    Left,
    Right,
    Home,
    End,
    Insert(char),
}

/// What a key does in a list with a filter.
pub open spec fn list_action(key: Key) -> FieldAction {
    match key {
        Key::Esc => FieldAction::Close,
        Key::Enter => FieldAction::Confirm,
        Key::Up => FieldAction::Up,
        Key::Down => FieldAction::Down,
        Key::Backspace => FieldAction::Backspace,
        Key::Char(c) => FieldAction::Insert(c),
        _ => FieldAction::Nothing,
    }
}

/// What a key does in a text field.
pub open spec fn text_action(key: Key) -> FieldAction {
    match key {
        Key::Esc => FieldAction::Close,
        Key::Enter => FieldAction::Confirm,
        Key::Backspace => FieldAction::Backspace,
        Key::Delete => FieldAction::Delete,
        Key::Left => FieldAction::Left,
        Key::Right => FieldAction::Right,
        Key::Home => FieldAction::Home,
        Key::End => FieldAction::End,
        Key::Char(c) => FieldAction::Insert(c),
        _ => FieldAction::Nothing,
    }
}

/// What a key does while a filter is typed: as in a text field, and the list can be moved in.
pub open spec fn filter_action(key: Key) -> FieldAction {
    match key {
        Key::Up => FieldAction::Up,
        Key::Down => FieldAction::Down,
        Key::PageUp => FieldAction::PageUp,
        Key::PageDown => FieldAction::PageDown,
        _ => text_action(key),
    }
}

fn in_list(key: Key) -> (action: FieldAction)
    ensures
        action == list_action(key),
{
    match key {
        Key::Esc => FieldAction::Close,
        Key::Enter => FieldAction::Confirm,
        Key::Up => FieldAction::Up,
        Key::Down => FieldAction::Down,
        Key::Backspace => FieldAction::Backspace,
        Key::Char(c) => FieldAction::Insert(c),
        _ => FieldAction::Nothing,
    }
}

fn in_text(key: Key) -> (action: FieldAction)
    ensures
        action == text_action(key),
{
    match key {
        Key::Esc => FieldAction::Close,
        Key::Enter => FieldAction::Confirm,
        Key::Backspace => FieldAction::Backspace,
        Key::Delete => FieldAction::Delete,
        Key::Left => FieldAction::Left,
        Key::Right => FieldAction::Right,
        Key::Home => FieldAction::Home,
        Key::End => FieldAction::End,
        Key::Char(c) => FieldAction::Insert(c),
        _ => FieldAction::Nothing,
    }
}

impl<F> EditorView<F> {
    /// What a key goes to: the first open popup, the filter while it is typed, or the editor.
    pub open spec fn key_route(self) -> KeyRoute {
        if self.selector is Some {
            KeyRoute::Selector
        } else if self.targets is Some {
            KeyRoute::Targets
        } else if self.bpm_edit is Some {
            KeyRoute::Bpm
        } else if self.value_edit is Some {
            KeyRoute::Value
        } else if self.range_edit is Some {
            KeyRoute::Range
        } else if self.param_filtering {
            KeyRoute::Filter
        } else {
            KeyRoute::Editor
        }
    }

    /// Whether a popup is open.
    pub open spec fn has_popup(self) -> bool {
        self.selector is Some || self.targets is Some || self.bpm_edit is Some || self.value_edit is Some
            || self.range_edit is Some
    }

    /// With all popups closed.
    pub open spec fn dismissed(self) -> EditorView<F> {
        EditorView { selector: None, targets: None, bpm_edit: None, value_edit: None, range_edit: None, ..self }
    }

    /// A split with the typed range is added; an empty text is the full range, and a text that is
    /// no range leaves the popup open.
    pub open spec fn range_confirmed<P>(self, text: Seq<char>) -> Change<P, F> {
        match self.range_edit {
            Some(kb) if kb < self.keyboards.len() => {
                let input = trimmed(text);
                if input.len() == 0 {
                    self.split_added(kb, None)
                } else {
                    match parsed_range(input) {
                        Ok(range) => self.split_added(kb, Some(range)),
                        Err(_) => self.unchanged(),
                    }
                }
            },
            _ => self.unchanged(),
        }
    }

    /// An empty split is added to a keyboard, and the popup closed.
    pub open spec fn split_added<P>(self, kb: usize, range: Option<(u8, u8)>) -> Change<P, F> {
        let (after, effects) = self.edited::<P>(
            with_splits(
                self.keyboards,
                kb,
                self.keyboards[kb as int].splits.push(
                    SplitView { range, transpose: 0, instrument: None, effects: Seq::empty(), pattern: None },
                ),
            ),
            seq![Effect::Send(GraphCommand::AddSplit { kb, range })],
        );
        (EditorView { range_edit: None, ..after }, effects)
    }

    /// All patterns play at the new tempo, where one was typed; the popup closes.
    pub open spec fn bpm_confirmed<P>(self, bpm: Option<F>) -> Change<P, F> {
        let closed = EditorView { bpm_edit: None, ..self };
        match bpm {
            Some(bpm) => (
                EditorView { global_bpm: bpm, keyboards: keyboards_at(self.keyboards, bpm), ..closed },
                seq![Effect::Send(GraphCommand::SetGlobalBpm { bpm })],
            ),
            None => (closed, Seq::empty()),
        }
    }

    /// The selected parameter takes the typed value, where it was one; the popup closes.
    pub open spec fn value_confirmed<P>(self, typed: Option<(F, i8)>) -> Change<P, F> {
        match typed {
            Some((value, semitones)) => {
                let (after, effects) = self.assigned::<P>(value, semitones);
                (EditorView { value_edit: None, ..after }, effects)
            },
            None => (EditorView { value_edit: None, ..self }, Seq::empty()),
        }
    }

    /// The chosen target is added to its modulator; the popup closes.
    pub open spec fn target_confirmed<P>(self, chosen: Option<TargetEntry<F>>) -> Change<P, F> {
        let closed = EditorView { targets: None, ..self };
        match (self.targets, chosen) {
            (Some(place), Some(entry)) => {
                let m = modulator_in(self.keyboards, place.kb, place.split, place.parent_slot as int, place.mod_index);
                closed.edited(
                    match m {
                        Some(m) => with_modulator(
                            self.keyboards,
                            place.kb,
                            place.split,
                            place.parent_slot as int,
                            place.mod_index,
                            ModSlotView {
                                targets: m.targets.push(
                                    ModTargetSlot {
                                        param_name: entry.label,
                                        kind: entry.kind,
                                        depth: self.numbers.new_depth,
                                        param_min: entry.param_min,
                                        param_max: entry.param_max,
                                    },
                                ),
                                ..m
                            },
                        ),
                        None => self.keyboards,
                    },
                    seq![
                        Effect::Send(
                            GraphCommand::AddModTarget {
                                kb: place.kb,
                                split: place.split,
                                parent_slot: place.parent_slot,
                                mod_index: place.mod_index,
                                target: ModTarget {
                                    kind: entry.kind,
                                    depth: self.numbers.new_depth,
                                    base_value: entry.base_value,
                                    param_min: entry.param_min,
                                    param_max: entry.param_max,
                                },
                            },
                        ),
                    ],
                )
            },
            _ => (closed, Seq::empty()),
        }
    }

    /// The pattern that was recorded takes the place of the split's.
    pub open spec fn recorded<P>(self, n: crate::pattern::NotificationView<F>) -> Change<P, F> {
        match split_at(self.keyboards, n.kb, n.split) {
            Some(s) => (
                self.with_keyboards(
                    with_split(
                        self.keyboards,
                        n.kb,
                        n.split,
                        SplitView {
                            pattern: Some(
                                PatternStateView {
                                    bpm: self.global_bpm,
                                    length_beats: n.length_beats,
                                    looping: n.looping,
                                    base_note: n.base_note,
                                    events: n.events,
                                    enabled: n.enabled,
                                    recording: false,
                                },
                            ),
                            ..s
                        },
                    ),
                ),
                seq![Effect::Rebuilt],
            ),
            None => self.unchanged(),
        }
    }

    /// The split that a chosen plugin goes to: the selected one, or the first of the selected
    /// keyboard, or the very first.
    pub open spec fn plugin_place(self) -> (usize, usize) {
        match self.selected() {
            Some(TreeAddress::Keyboard(kb)) => if kb < self.keyboards.len() && self.keyboards[kb as int].splits.len()
                > 0 {
                (kb, 0)
            } else {
                (0, 0)
            },
            Some(addr) => addr.place()->0,
            None => (0, 0),
        }
    }

    /// Where in a chain of `len` effects a new one goes: behind the selected plugin, or to the end
    /// where no plugin is selected.
    pub open spec fn effect_place(self, len: int) -> int {
        match self.selected() {
            Some(TreeAddress::Instrument { .. }) => 0,
            Some(TreeAddress::Effect { index, .. }) if index < len => index + 1,
            _ => len,
        }
    }
}

/// A pattern at another tempo.
pub open spec fn pattern_at<F>(pattern: Option<PatternStateView<F>>, bpm: F) -> Option<PatternStateView<F>> {
    match pattern {
        Some(p) => Some(PatternStateView { bpm, ..p }),
        None => None,
    }
}

/// The splits with their patterns at another tempo.
pub open spec fn splits_at<F>(splits: Seq<SplitView<F>>, bpm: F) -> Seq<SplitView<F>> {
    splits.map_values(|s: SplitView<F>| split_at_tempo(s, bpm))
}

/// The keyboards with all patterns at another tempo.
pub open spec fn keyboards_at<F>(kbs: Seq<KeyboardView<F>>, bpm: F) -> Seq<KeyboardView<F>> {
    kbs.map_values(|k: KeyboardView<F>| KeyboardView { splits: splits_at(k.splits, bpm), ..k })
}

// ---------------------------------------------------------------------------
// Targets
// ---------------------------------------------------------------------------

/// A line of the target selector.
#[derive(Debug)]
pub struct TargetEntry<F> {
    pub label: String,
    pub kind: ModTargetKind,
    pub param_min: F,
    pub param_max: F,
    pub base_value: F,
}

/// The mathematical content of a [`TargetEntry`].
#[verifier::ext_equal]
pub struct TargetEntryView<F> {
    pub label: Seq<char>,
    pub kind: ModTargetKind,
    pub param_min: F,
    pub param_max: F,
    pub base_value: F,
}

impl<F> View for TargetEntry<F> {
    type V = TargetEntryView<F>;

    open spec fn view(&self) -> TargetEntryView<F> {
        TargetEntryView {
            label: self.label@,
            kind: self.kind,
            param_min: self.param_min,
            param_max: self.param_max,
            base_value: self.base_value,
        }
    }
}

/// The lines for a plugin's parameters.
pub open spec fn param_targets<F>(params: Seq<ParamSlot<F>>) -> Seq<TargetEntryView<F>> {
    Seq::new(
        params.len(),
        |i: int|
            TargetEntryView {
                label: params[i].name@,
                kind: ModTargetKind::PluginParam { param_index: params[i].index },
                param_min: params[i].min,
                param_max: params[i].max,
                base_value: params[i].default,
            },
    )
}

/// What the labels of a modulator's settings begin with.
pub open spec fn mod_prefix(index: usize) -> Seq<char> {
    "Mod "@ + decimal(index as nat) + " "@
}

/// The lines for the settings of a modulator's source.
pub open spec fn source_targets<F>(source: ModSourceSlot<F>, index: usize, n: Numbers<F>) -> Seq<TargetEntryView<F>> {
    let prefix = mod_prefix(index);
    match source {
        ModSourceSlot::Lfo { rate, .. } => seq![
            TargetEntryView {
                label: prefix + "rate"@,
                kind: ModTargetKind::ModulatorRate { mod_index: index },
                param_min: n.rate_min,
                param_max: n.rate_max,
                base_value: rate,
            },
        ],
        ModSourceSlot::Envelope { attack, decay, sustain, release } => seq![
            TargetEntryView {
                label: prefix + "attack"@,
                kind: ModTargetKind::ModulatorAttack { mod_index: index },
                param_min: n.time_min,
                param_max: n.time_max,
                base_value: attack,
            },
            TargetEntryView {
                label: prefix + "decay"@,
                kind: ModTargetKind::ModulatorDecay { mod_index: index },
                param_min: n.time_min,
                param_max: n.time_max,
                base_value: decay,
            },
            TargetEntryView {
                label: prefix + "sustain"@,
                kind: ModTargetKind::ModulatorSustain { mod_index: index },
                param_min: n.zero,
                param_max: n.unity,
                base_value: sustain,
            },
            TargetEntryView {
                label: prefix + "release"@,
                kind: ModTargetKind::ModulatorRelease { mod_index: index },
                param_min: n.time_min,
                param_max: n.time_max,
                base_value: release,
            },
        ],
    }
}

/// The lines for the depths of a modulator's targets.
pub open spec fn depth_targets<F>(targets: Seq<ModTargetSlot<F>>, index: usize, n: Numbers<F>) -> Seq<
    TargetEntryView<F>,
> {
    Seq::new(
        targets.len(),
        |i: int|
            TargetEntryView {
                label: mod_prefix(index) + targets[i].param_name@ + " depth"@,
                kind: ModTargetKind::ModulatorDepth { mod_index: index, target_index: i as usize },
                param_min: n.zero,
                param_max: n.unity,
                base_value: targets[i].depth,
            },
    )
}

/// The lines for the first `count` modulators of a plugin, without the one at `own`.
pub open spec fn sibling_targets<F>(mods: Seq<ModSlotView<F>>, own: usize, n: Numbers<F>, count: int) -> Seq<
    TargetEntryView<F>,
>
    decreases count,
{
    if count <= 0 {
        Seq::empty()
    } else {
        let rest = sibling_targets(mods, own, n, count - 1);
        let index = (count - 1) as usize;
        if index == own {
            rest
        } else {
            rest + source_targets(mods[count - 1].source, index, n) + depth_targets(mods[count - 1].targets, index, n)
        }
    }
}

/// The lines of the target selector for the modulator at `own` of a plugin.
pub open spec fn target_entries<F>(p: PluginView<F>, own: usize, n: Numbers<F>) -> Seq<TargetEntryView<F>> {
    param_targets(p.params) + sibling_targets(p.modulators, own, n, p.modulators.len() as int)
}

fn mod_label(index: usize, field: &str) -> (label: String)
    ensures
        label@ == mod_prefix(index) + field@,
{
    let mut label = "Mod ".to_owned();
    push_decimal(&mut label, index as u64);
    label.append(" ");
    label.append(field);
    label
}

fn push_sources<F: Copy>(entries: &mut Vec<TargetEntry<F>>, source: ModSourceSlot<F>, index: usize, n: &Numbers<F>)
    ensures
        views(final(entries)@) == views(old(entries)@) + source_targets(source, index, *n),
{
    match source {
        ModSourceSlot::Lfo { rate, .. } => {
            entries.push(
                TargetEntry {
                    label: mod_label(index, "rate"),
                    kind: ModTargetKind::ModulatorRate { mod_index: index },
                    param_min: n.rate_min,
                    param_max: n.rate_max,
                    base_value: rate,
                },
            );
        },
        ModSourceSlot::Envelope { attack, decay, sustain, release } => {
            entries.push(
                TargetEntry {
                    label: mod_label(index, "attack"),
                    kind: ModTargetKind::ModulatorAttack { mod_index: index },
                    param_min: n.time_min,
                    param_max: n.time_max,
                    base_value: attack,
                },
            );
            entries.push(
                TargetEntry {
                    label: mod_label(index, "decay"),
                    kind: ModTargetKind::ModulatorDecay { mod_index: index },
                    param_min: n.time_min,
                    param_max: n.time_max,
                    base_value: decay,
                },
            );
            entries.push(
                TargetEntry {
                    label: mod_label(index, "sustain"),
                    kind: ModTargetKind::ModulatorSustain { mod_index: index },
                    param_min: n.zero,
                    param_max: n.unity,
                    base_value: sustain,
                },
            );
            entries.push(
                TargetEntry {
                    label: mod_label(index, "release"),
                    kind: ModTargetKind::ModulatorRelease { mod_index: index },
                    param_min: n.time_min,
                    param_max: n.time_max,
                    base_value: release,
                },
            );
        },
    }
}

fn push_depths<F: Copy>(
    entries: &mut Vec<TargetEntry<F>>,
    targets: &Vec<ModTargetSlot<F>>,
    index: usize,
    n: &Numbers<F>,
)
    ensures
        views(final(entries)@) == views(old(entries)@) + depth_targets(targets@, index, *n),
{
    let ghost whole = depth_targets(targets@, index, *n);
    let mut i: usize = 0;
    while i < targets.len()
        invariant
            i <= targets@.len(),
            whole == depth_targets(targets@, index, *n),
            views(entries@) == views(old(entries)@) + whole.take(i as int),
        decreases targets@.len() - i,
    {
        let mut label = mod_label(index, targets[i].param_name.as_str());
        label.append(" depth");
        let entry = TargetEntry {
            label,
            kind: ModTargetKind::ModulatorDepth { mod_index: index, target_index: i },
            param_min: n.zero,
            param_max: n.unity,
            base_value: targets[i].depth,
        };
        let ghost so_far = views(entries@);
        assert(entry@ =~= whole[i as int]);
        entries.push(entry);
        assert(views(entries@) =~= so_far.push(whole[i as int]));
        assert(whole.take(i + 1) =~= whole.take(i as int).push(whole[i as int]));
        i = i + 1;
    }
    assert(whole.take(i as int) =~= whole);
}

/// The lines of the target selector for the modulator at `own` of a plugin: the plugin's
/// parameters, and the settings of its other modulators.
pub fn build_target_entries<F: Copy>(plugin: &PluginSlot<F>, own: usize, n: &Numbers<F>) -> (entries: Vec<
    TargetEntry<F>,
>)
    ensures
        views(entries@) == target_entries(plugin@, own, *n),
{
    let mut entries: Vec<TargetEntry<F>> = Vec::new();
    let params = &plugin.params;
    let ghost whole = param_targets(params@);
    let mut i: usize = 0;
    while i < params.len()
        invariant
            i <= params@.len(),
            whole == param_targets(params@),
            views(entries@) == whole.take(i as int),
        decreases params@.len() - i,
    {
        let p = &params[i];
        let entry = TargetEntry {
            label: p.name.clone(),
            kind: ModTargetKind::PluginParam { param_index: p.index },
            param_min: p.min,
            param_max: p.max,
            base_value: p.default,
        };
        let ghost so_far = views(entries@);
        assert(entry@ =~= whole[i as int]);
        entries.push(entry);
        assert(views(entries@) =~= so_far.push(whole[i as int]));
        assert(whole.take(i + 1) =~= whole.take(i as int).push(whole[i as int]));
        i = i + 1;
    }
    assert(whole.take(i as int) =~= whole);
    let mods = &plugin.modulators;
    let mut j: usize = 0;
    while j < mods.len()
        invariant
            j <= mods@.len(),
            views(entries@) == whole + sibling_targets(views(mods@), own, *n, j as int),
        decreases mods@.len() - j,
    {
        if j != own {
            push_sources(&mut entries, mods[j].source, j, n);
            push_depths(&mut entries, &mods[j].targets, j, n);
        }
        j = j + 1;
    }
    entries
}

impl<F: Copy> Editor<F> {
    /// What a key goes to.
    pub fn route(&self) -> (route: KeyRoute)
        ensures
            route == self@.key_route(),
    {
        if self.selector.is_some() {
            KeyRoute::Selector
        } else if self.targets.is_some() {
            KeyRoute::Targets
        } else if self.bpm_edit.is_some() {
            KeyRoute::Bpm
        } else if self.value_edit.is_some() {
            KeyRoute::Value
        } else if self.range_edit.is_some() {
            KeyRoute::Range
        } else if self.param_filtering {
            KeyRoute::Filter
        } else {
            KeyRoute::Editor
        }
    }

    /// What a key does in the plugin selector.
    pub fn handle_selector_key(&mut self, key: Key) -> (action: FieldAction)
        ensures
            action == list_action(key),
            final(self)@ == (if key is Esc {
                EditorView { selector: None, ..old(self)@ }
            } else {
                old(self)@
            }),
    {
        if key == Key::Esc {
            self.selector = None;
        }
        in_list(key)
    }

    /// What a key does in the target selector.
    pub fn handle_target_selector_key(&mut self, key: Key) -> (action: FieldAction)
        ensures
            action == list_action(key),
            final(self)@ == (if key is Esc {
                EditorView { targets: None, ..old(self)@ }
            } else {
                old(self)@
            }),
    {
        if key == Key::Esc {
            self.targets = None;
        }
        in_list(key)
    }

    /// What a key does in the value field.
    pub fn handle_edit_key(&mut self, key: Key) -> (action: FieldAction)
        ensures
            action == text_action(key),
            final(self)@ == (if key is Esc {
                EditorView { value_edit: None, ..old(self)@ }
            } else {
                old(self)@
            }),
    {
        if key == Key::Esc {
            self.value_edit = None;
        }
        in_text(key)
    }

    /// What a key does in the range field.
    pub fn handle_range_edit_key(&mut self, key: Key) -> (action: FieldAction)
        ensures
            action == text_action(key),
            final(self)@ == (if key is Esc {
                EditorView { range_edit: None, ..old(self)@ }
            } else {
                old(self)@
            }),
    {
        if key == Key::Esc {
            self.range_edit = None;
        }
        in_text(key)
    }

    /// What a key does in the tempo field.
    pub fn handle_bpm_edit_key(&mut self, key: Key) -> (action: FieldAction)
        ensures
            action == text_action(key),
            final(self)@ == (if key is Esc {
                EditorView { bpm_edit: None, ..old(self)@ }
            } else {
                old(self)@
            }),
    {
        if key == Key::Esc {
            self.bpm_edit = None;
        }
        in_text(key)
    }

    /// What a key does while a filter is typed; closing drops the filter, confirming keeps it.
    pub fn handle_param_filter_key<P>(&mut self, key: Key) -> (r: (FieldAction, Vec<Effect<P, F>>))
        ensures
            r.0 == filter_action(key),
            (final(self)@, r.1@) == (if key is Esc {
                EditorView { param_filtering: false, ..old(self)@ }.filter_dropped::<P>()
            } else if key is Enter {
                (EditorView { param_filtering: false, ..old(self)@ }, Seq::empty())
            } else {
                old(self)@.unchanged::<P>()
            }),
    {
        match key {
            Key::Esc => {
                self.param_filtering = false;
                let effects = self.drop_filter();
                (FieldAction::Close, effects)
            },
            Key::Enter => {
                self.param_filtering = false;
                (FieldAction::Confirm, Vec::new())
            },
            Key::Up => (FieldAction::Up, Vec::new()),
            Key::Down => (FieldAction::Down, Vec::new()),
            Key::PageUp => (FieldAction::PageUp, Vec::new()),
            Key::PageDown => (FieldAction::PageDown, Vec::new()),
            _ => (in_text(key), Vec::new()),
        }
    }

    /// Takes over what the filter's text field holds; says which length the parameter list takes.
    pub fn filter_typed(&mut self, text: String) -> (len: Option<usize>)
        ensures
            final(self)@ == (EditorView { param_filter: text@, ..old(self)@ }).refiltered(),
            len == (EditorView { param_filter: text@, ..old(self)@ }).filter_len(),
    {
        self.param_filter = text;
        self.recompute_param_filter()
    }

    /// A click while a popup is open: the left button closes all popups, and nothing else happens.
    pub fn dismiss(&mut self, left_down: bool) -> (open: bool)
        ensures
            open == old(self)@.has_popup(),
            final(self)@ == (if old(self)@.has_popup() && left_down {
                old(self)@.dismissed()
            } else {
                old(self)@
            }),
    {
        let open: bool = self.selector.is_some() || self.targets.is_some() || self.bpm_edit.is_some()
            || self.value_edit.is_some() || self.range_edit.is_some();
        if open && left_down {
            self.selector = None;
            self.targets = None;
            self.bpm_edit = None;
            self.value_edit = None;
            self.range_edit = None;
        }
        open
    }

    /// Confirms the range field, which holds this text.
    pub fn confirm_range<P>(&mut self, text: &str) -> (effects: Vec<Effect<P, F>>)
        ensures
            (final(self)@, effects@) == old(self)@.range_confirmed::<P>(text@),
            old(self)@.wf() ==> final(self)@.wf(),
    {
        let mut effects: Vec<Effect<P, F>> = Vec::new();
        let kb: usize = match self.range_edit {
            Some(kb) => kb,
            None => return effects,
        };
        if kb >= self.keyboards.len() {
            return effects;
        }
        let input = trim(text);
        let range: Option<(u8, u8)> = if input.unicode_len() == 0 {
            None
        } else {
            match parse_range(input) {
                Ok(r) => Some(r),
                Err(_) => return effects,
            }
        };
        if let Some(k) = nth_mut(&mut self.keyboards, kb) {
            let s = SplitNode { range, transpose: 0, instrument: None, effects: Vec::new(), pattern: None };
            let ghost before = views(k.splits@);
            let ghost added = s@;
            assert(added =~= (SplitView {
                range,
                transpose: 0,
                instrument: None,
                effects: Seq::empty(),
                pattern: None,
            }));
            k.splits.push(s);
            assert(views(k.splits@) =~= before.push(added));
        }
        effects.push(Effect::Send(GraphCommand::AddSplit { kb, range }));
        effects.push(Effect::Rebuilt);
        self.dirty = true;
        self.rebuild_tree();
        self.range_edit = None;
        effects
    }

    fn set_tempo(&mut self, bpm: F)
        ensures
            final(self)@ == (EditorView { keyboards: keyboards_at(old(self)@.keyboards, bpm), ..old(self)@ }),
    {
        let n: usize = self.keyboards.len();
        let mut i: usize = 0;
        while i < n
            invariant
                i <= n,
                n == old(self)@.keyboards.len(),
                n == self@.keyboards.len(),
                self@ == (EditorView { keyboards: self@.keyboards, ..old(self)@ }),
                forall|k: int|
                    0 <= k < i ==> #[trigger] self@.keyboards[k] == (KeyboardView {
                        splits: splits_at(old(self)@.keyboards[k].splits, bpm),
                        ..old(self)@.keyboards[k]
                    }),
                forall|k: int| i <= k < n ==> #[trigger] self@.keyboards[k] == old(self)@.keyboards[k],
            decreases n - i,
        {
            let ghost before = self@.keyboards;
            if let Some(k) = nth_mut(&mut self.keyboards, i) {
                set_splits_tempo(&mut k.splits, bpm);
            }
            assert(self@.keyboards =~= before.update(
                i as int,
                KeyboardView { splits: splits_at(before[i as int].splits, bpm), ..before[i as int] },
            ));
            i = i + 1;
        }
        assert(self@.keyboards =~= keyboards_at(old(self)@.keyboards, bpm));
    }

    /// Confirms the tempo field, which holds this tempo, clamped, or no number.
    pub fn confirm_bpm<P>(&mut self, bpm: Option<F>) -> (effects: Vec<Effect<P, F>>)
        ensures
            (final(self)@, effects@) == old(self)@.bpm_confirmed::<P>(bpm),
            old(self)@.wf() ==> final(self)@.wf(),
    {
        proof {
            if self@.wf() {
                tempo_keeps_wf::<P, F>(self@, bpm);
            }
        }
        let mut effects: Vec<Effect<P, F>> = Vec::new();
        self.bpm_edit = None;
        if let Some(bpm) = bpm {
            self.global_bpm = bpm;
            self.set_tempo(bpm);
            effects.push(Effect::Send(GraphCommand::SetGlobalBpm { bpm }));
        }
        effects
    }

    /// Confirms the value field, which holds this value, clamped and as semitones, or no number.
    pub fn confirm_value<P>(&mut self, typed: Option<(F, i8)>) -> (effects: Vec<Effect<P, F>>)
        ensures
            (final(self)@, effects@) == old(self)@.value_confirmed::<P>(typed),
            old(self)@.wf() ==> final(self)@.wf(),
    {
        let effects: Vec<Effect<P, F>> = match typed {
            Some((value, semitones)) => self.set_param_value(value, semitones),
            None => Vec::new(),
        };
        self.value_edit = None;
        effects
    }

    /// The lines of the target selector that is open.
    pub fn open_target_selector(&self) -> (entries: Vec<TargetEntry<F>>)
        ensures
            views(entries@) == match self@.targets {
                Some(place) => match plugin_in(self@.keyboards, place.kb, place.split, place.parent_slot as int) {
                    Some(p) => target_entries(p, place.mod_index, self@.numbers),
                    None => Seq::empty(),
                },
                None => Seq::empty(),
            },
    {
        match self.targets {
            Some(place) => match find_plugin(&self.keyboards, place.kb, place.split, place.parent_slot) {
                Some(p) => build_target_entries(p, place.mod_index, &self.numbers),
                None => Vec::new(),
            },
            None => Vec::new(),
        }
    }

    /// Confirms the target selector with the chosen line.
    pub fn confirm_target_selector<P>(&mut self, chosen: Option<&TargetEntry<F>>) -> (effects: Vec<Effect<P, F>>)
        ensures
            (final(self)@, effects@) == old(self)@.target_confirmed::<P>(
                match chosen {
                    Some(entry) => Some(*entry),
                    None => None,
                },
            ),
            old(self)@.wf() ==> final(self)@.wf(),
    {
        let mut effects: Vec<Effect<P, F>> = Vec::new();
        let place = self.targets;
        self.targets = None;
        let (place, entry) = match (place, chosen) {
            (Some(place), Some(entry)) => (place, entry),
            _ => return effects,
        };
        let depth = self.numbers.new_depth;
        effects.push(
            Effect::Send(
                GraphCommand::AddModTarget {
                    kb: place.kb,
                    split: place.split,
                    parent_slot: place.parent_slot,
                    mod_index: place.mod_index,
                    target: ModTarget {
                        kind: entry.kind,
                        depth,
                        base_value: entry.base_value,
                        param_min: entry.param_min,
                        param_max: entry.param_max,
                    },
                },
            ),
        );
        if let Some(m) = modulator_mut(&mut self.keyboards, place.kb, place.split, place.parent_slot, place.mod_index) {
            m.targets.push(
                ModTargetSlot {
                    param_name: entry.label.clone(),
                    kind: entry.kind,
                    depth,
                    param_min: entry.param_min,
                    param_max: entry.param_max,
                },
            );
        }
        effects.push(Effect::Rebuilt);
        self.dirty = true;
        self.rebuild_tree();
        effects
    }

    /// Takes over a pattern that the audio graph has recorded.
    pub fn pattern_recorded<P>(&mut self, n: PatternNotification<F>) -> (effects: Vec<Effect<P, F>>)
        ensures
            (final(self)@, effects@) == old(self)@.recorded::<P>(n@),
            old(self)@.wf() ==> final(self)@.wf(),
    {
        let mut effects: Vec<Effect<P, F>> = Vec::new();
        let bpm = self.global_bpm;
        if let Some(s) = split_mut(&mut self.keyboards, n.kb, n.split) {
            s.pattern = Some(
                PatternState {
                    bpm,
                    length_beats: n.length_beats,
                    looping: n.looping,
                    base_note: n.base_note,
                    events: n.events,
                    enabled: n.enabled,
                    recording: false,
                },
            );
        } else {
            return effects;
        }
        effects.push(Effect::Rebuilt);
        self.rebuild_tree();
        effects
    }

    /// The split that a chosen plugin goes to.
    pub fn selected_kb_split(&self) -> (place: (usize, usize))
        ensures
            place == self@.plugin_place(),
    {
        match self.selected_address() {
            Some(TreeAddress::Keyboard(kb)) => if kb < self.keyboards.len() && self.keyboards[kb].splits.len() > 0 {
                (kb, 0)
            } else {
                (0, 0)
            },
            Some(addr) => match addr.kb_split() {
                Some(place) => place,
                None => (0, 0),
            },
            None => (0, 0),
        }
    }

    /// Puts a loaded plugin where the selector was opened for it: an instrument takes the place of
    /// the split's, an effect goes behind the selected plugin. The popup closes.
    pub fn confirm_selector<P>(&mut self, slot: PluginSlot<F>, plugin: P, outputs: usize, sample_rate: F) -> (effects:
        Vec<Effect<P, F>>)
        requires
            old(self)@.selector is Some,
        ensures
            ({
                let (kb, split) = old(self)@.plugin_place();
                let kbs = old(self)@.keyboards;
                let closed = EditorView { selector: None, ..old(self)@ };
                match (old(self)@.selector->0, split_at(kbs, kb, split)) {
                    (SelectorMode::Instrument, s) => {
                        &&& final(self)@ == closed.with_keyboards(
                            match s {
                                Some(s) => with_split(kbs, kb, split, SplitView { instrument: Some(slot@), ..s }),
                                None => kbs,
                            },
                        ).touched()
                        &&& effects@.len() == 2
                        &&& effects@[0] matches Effect::Send(
                            GraphCommand::SwapInstrument {
                                kb: k,
                                split: s,
                                instrument,
                                sample_rate: rate,
                                inst_buf,
                                remapper,
                            },
                        )
                        &&& (k, s) == (kb, split)
                        &&& instrument == plugin
                        &&& rate == sample_rate
                        &&& inst_buf@.len() == outputs
                        &&& forall|i: int| 0 <= i < outputs ==> (#[trigger] inst_buf@[i])@.len() == 0
                        &&& remapper is None
                        &&& effects@[1] is Rebuilt
                    },
                    (SelectorMode::Effect, Some(s)) => (final(self)@, effects@) == closed.edited::<P>(
                        with_split(
                            kbs,
                            kb,
                            split,
                            SplitView {
                                effects: s.effects.insert(closed.effect_place(s.effects.len() as int), slot@),
                                ..s
                            },
                        ),
                        seq![
                            Effect::Send(
                                GraphCommand::InsertEffect {
                                    kb,
                                    split,
                                    index: closed.effect_place(s.effects.len() as int) as usize,
                                    effect: plugin,
                                    outputs,
                                    mix: closed.numbers.unity,
                                },
                            ),
                        ],
                    ),
                    (SelectorMode::Effect, None) => (final(self)@, effects@) == closed.edited::<P>(kbs, Seq::empty()),
                }
            }),
            old(self)@.wf() ==> final(self)@.wf(),
    {
        let mut effects: Vec<Effect<P, F>> = Vec::new();
        let (kb, split) = self.selected_kb_split();
        let mode = self.selector;
        let addr = self.selected_address();
        self.selector = None;
        let mix = self.numbers.unity;
        match mode {
            Some(SelectorMode::Effect) => {
                if let Some(s) = split_mut(&mut self.keyboards, kb, split) {
                    let len: usize = s.effects.len();
                    let index: usize = match addr {
                        Some(TreeAddress::Instrument { .. }) => 0,
                        Some(TreeAddress::Effect { index, .. }) => if index < len {
                            index + 1
                        } else {
                            len
                        },
                        _ => len,
                    };
                    let ghost before = views(s.effects@);
                    let ghost added = slot@;
                    s.effects.insert(index, slot);
                    assert(views(s.effects@) =~= before.insert(index as int, added));
                    effects.push(
                        Effect::Send(GraphCommand::InsertEffect { kb, split, index, effect: plugin, outputs, mix }),
                    );
                }
            },
            _ => {
                let mut inst_buf: Vec<Vec<F>> = Vec::new();
                let mut i: usize = 0;
                while i < outputs
                    invariant
                        i <= outputs,
                        inst_buf@.len() == i,
                        forall|k: int| 0 <= k < i ==> (#[trigger] inst_buf@[k])@.len() == 0,
                    decreases outputs - i,
                {
                    inst_buf.push(Vec::new());
                    i = i + 1;
                }
                effects.push(
                    Effect::Send(
                        GraphCommand::SwapInstrument {
                            kb,
                            split,
                            instrument: plugin,
                            sample_rate,
                            inst_buf,
                            remapper: None,
                        },
                    ),
                );
                if let Some(s) = split_mut(&mut self.keyboards, kb, split) {
                    s.instrument = Some(slot);
                }
            },
        }
        effects.push(Effect::Rebuilt);
        self.dirty = true;
        self.rebuild_tree();
        effects
    }
}

/// A split with its pattern at another tempo.
pub open spec fn split_at_tempo<F>(s: SplitView<F>, bpm: F) -> SplitView<F> {
    SplitView { pattern: pattern_at(s.pattern, bpm), ..s }
}

fn set_splits_tempo<F: Copy>(splits: &mut Vec<SplitNode<F>>, bpm: F)
    ensures
        views(final(splits)@) == splits_at(views(old(splits)@), bpm),
{
    let n: usize = splits.len();
    let mut i: usize = 0;
    while i < n
        invariant
            i <= n,
            n == old(splits)@.len(),
            n == splits@.len(),
            forall|k: int| 0 <= k < i ==> (#[trigger] splits@[k])@ == split_at_tempo(old(splits)@[k]@, bpm),
            forall|k: int| i <= k < n ==> #[trigger] splits@[k] == old(splits)@[k],
        decreases n - i,
    {
        if let Some(s) = nth_mut(splits, i) {
            if let Some(p) = s.pattern.as_mut() {
                p.bpm = bpm;
            }
        }
        assert(splits@[i as int]@ =~= split_at_tempo(old(splits)@[i as int]@, bpm));
        i = i + 1;
    }
    assert(views(splits@) =~= splits_at(views(old(splits)@), bpm));
}

} // verus!
