//! The parameter list of the selected node: its rows, its filter, and how its values change.
use vstd::prelude::*;

use crate::text::{contains, has_part, lowercase, to_chars};
use crate::tui::editor::{Editor, EditorView, Numbers};
use crate::tui::model::{
    find_modulator, find_plugin_at, find_split, modulator_in, plugin_at, split_at, ModSlotView, ModSourceSlot,
    ModTargetSlot, ModulatorSlot, ParamSlot, PluginView, TreeAddress,
};

verus! {

/// A row of a modulator's parameter list.
#[derive(Clone, Copy, Debug, PartialEq, Eq, Structural)]
pub enum ModRow {
    Type,
    Waveform,
    Rate,
    Attack,
    Decay,
    Sustain,
    Release,
    Separator,
    /// The depth of a target.
    Depth(usize),
    /// Behind the last row.
    Outside,
}

impl<F> ModSlotView<F> {
    /// The number of rows above the separator.
    pub open spec fn source_rows(self) -> int {
        match self.source {
            ModSourceSlot::Lfo { .. } => 3,
            ModSourceSlot::Envelope { .. } => 5,
        }
    }

    /// The row at `pa`: the source's rows, a separator, and the depth of each target.
    pub open spec fn row(self, pa: usize) -> ModRow {
        if pa == self.source_rows() {
            ModRow::Separator
        } else if pa > self.source_rows() {
            if pa - self.source_rows() - 1 < self.targets.len() {
                ModRow::Depth((pa - self.source_rows() - 1) as usize)
            } else {
                ModRow::Outside
            }
        } else if pa == 0 {
            ModRow::Type
        } else {
            match self.source {
                ModSourceSlot::Lfo { .. } => if pa == 1 {
                    ModRow::Waveform
                } else {
                    ModRow::Rate
                },
                ModSourceSlot::Envelope { .. } => if pa == 1 {
                    ModRow::Attack
                } else if pa == 2 {
                    ModRow::Decay
                } else if pa == 3 {
                    ModRow::Sustain
                } else {
                    ModRow::Release
                },
            }
        }
    }

    /// The value in a row, where it has one.
    pub open spec fn value_at(self, row: ModRow) -> Option<F> {
        match (row, self.source) {
            (ModRow::Rate, ModSourceSlot::Lfo { rate, .. }) => Some(rate),
            (ModRow::Attack, ModSourceSlot::Envelope { attack, .. }) => Some(attack),
            (ModRow::Decay, ModSourceSlot::Envelope { decay, .. }) => Some(decay),
            (ModRow::Sustain, ModSourceSlot::Envelope { sustain, .. }) => Some(sustain),
            (ModRow::Release, ModSourceSlot::Envelope { release, .. }) => Some(release),
            (ModRow::Depth(i), _) => if i < self.targets.len() {
                Some(self.targets[i as int].depth)
            } else {
                None
            },
            _ => None,
        }
    }

    /// The modulator with the value in a row set.
    pub open spec fn with_value(self, row: ModRow, value: F) -> ModSlotView<F> {
        match (row, self.source) {
            (ModRow::Rate, ModSourceSlot::Lfo { waveform, .. }) => ModSlotView {
                source: ModSourceSlot::Lfo { waveform, rate: value },
                ..self
            },
            (ModRow::Attack, ModSourceSlot::Envelope { decay, sustain, release, .. }) => ModSlotView {
                source: ModSourceSlot::Envelope { attack: value, decay, sustain, release },
                ..self
            },
            (ModRow::Decay, ModSourceSlot::Envelope { attack, sustain, release, .. }) => ModSlotView {
                source: ModSourceSlot::Envelope { attack, decay: value, sustain, release },
                ..self
            },
            (ModRow::Sustain, ModSourceSlot::Envelope { attack, decay, release, .. }) => ModSlotView {
                source: ModSourceSlot::Envelope { attack, decay, sustain: value, release },
                ..self
            },
            (ModRow::Release, ModSourceSlot::Envelope { attack, decay, sustain, .. }) => ModSlotView {
                source: ModSourceSlot::Envelope { attack, decay, sustain, release: value },
                ..self
            },
            (ModRow::Depth(i), _) => if i < self.targets.len() {
                ModSlotView {
                    targets: self.targets.update(i as int, ModTargetSlot { depth: value, ..self.targets[i as int] }),
                    ..self
                }
            } else {
                self
            },
            _ => self,
        }
    }
}

/// The range of a modulator's row, where it has one.
pub open spec fn row_range<F>(row: ModRow, n: Numbers<F>) -> Option<(F, F)> {
    match row {
        ModRow::Rate => Some((n.rate_min, n.rate_max)),
        ModRow::Attack => Some((n.time_min, n.time_max)),
        ModRow::Decay => Some((n.time_min, n.time_max)),
        ModRow::Sustain => Some((n.zero, n.unity)),
        ModRow::Release => Some((n.time_min, n.time_max)),
        ModRow::Depth(_) => Some((n.zero, n.unity)),
        _ => None,
    }
}

impl<F: Copy> ModulatorSlot<F> {
    /// The row at `pa`.
    pub fn row_at(&self, pa: usize) -> (row: ModRow)
        ensures
            row == self@.row(pa),
    {
        let source_rows: usize = match self.source {
            ModSourceSlot::Lfo { .. } => 3,
            ModSourceSlot::Envelope { .. } => 5,
        };
        if pa == source_rows {
            ModRow::Separator
        } else if pa > source_rows {
            if pa - source_rows - 1 < self.targets.len() {
                ModRow::Depth(pa - source_rows - 1)
            } else {
                ModRow::Outside
            }
        } else if pa == 0 {
            ModRow::Type
        } else {
            match self.source {
                ModSourceSlot::Lfo { .. } => if pa == 1 {
                    ModRow::Waveform
                } else {
                    ModRow::Rate
                },
                ModSourceSlot::Envelope { .. } => if pa == 1 {
                    ModRow::Attack
                } else if pa == 2 {
                    ModRow::Decay
                } else if pa == 3 {
                    ModRow::Sustain
                } else {
                    ModRow::Release
                },
            }
        }
    }

    /// The value in a row, where it has one.
    pub fn row_value(&self, row: ModRow) -> (value: Option<F>)
        ensures
            value == self@.value_at(row),
    {
        match (row, self.source) {
            (ModRow::Rate, ModSourceSlot::Lfo { rate, .. }) => Some(rate),
            (ModRow::Attack, ModSourceSlot::Envelope { attack, .. }) => Some(attack),
            (ModRow::Decay, ModSourceSlot::Envelope { decay, .. }) => Some(decay),
            (ModRow::Sustain, ModSourceSlot::Envelope { sustain, .. }) => Some(sustain),
            (ModRow::Release, ModSourceSlot::Envelope { release, .. }) => Some(release),
            (ModRow::Depth(i), _) => if i < self.targets.len() {
                Some(self.targets[i].depth)
            } else {
                None
            },
            _ => None,
        }
    }

    /// Sets the value in a row.
    pub fn set_row(&mut self, row: ModRow, value: F)
        ensures
            final(self)@ == old(self)@.with_value(row, value),
    {
        match (row, self.source) {
            (ModRow::Rate, ModSourceSlot::Lfo { waveform, .. }) => {
                self.source = ModSourceSlot::Lfo { waveform, rate: value };
            },
            (ModRow::Attack, ModSourceSlot::Envelope { decay, sustain, release, .. }) => {
                self.source = ModSourceSlot::Envelope { attack: value, decay, sustain, release };
            },
            (ModRow::Decay, ModSourceSlot::Envelope { attack, sustain, release, .. }) => {
                self.source = ModSourceSlot::Envelope { attack, decay: value, sustain, release };
            },
            (ModRow::Sustain, ModSourceSlot::Envelope { attack, decay, release, .. }) => {
                self.source = ModSourceSlot::Envelope { attack, decay, sustain: value, release };
            },
            (ModRow::Release, ModSourceSlot::Envelope { attack, decay, sustain, .. }) => {
                self.source = ModSourceSlot::Envelope { attack, decay, sustain, release: value };
            },
            (ModRow::Depth(i), _) => {
                if i < self.targets.len() {
                    self.targets[i].depth = value;
                }
            },
            _ => {},
        }
    }
}

/// The range of a modulator's row, where it has one.
pub fn range_of_row<F: Copy>(row: ModRow, n: &Numbers<F>) -> (range: Option<(F, F)>)
    ensures
        range == row_range(row, *n),
{
    match row {
        ModRow::Rate => Some((n.rate_min, n.rate_max)),
        ModRow::Attack => Some((n.time_min, n.time_max)),
        ModRow::Decay => Some((n.time_min, n.time_max)),
        ModRow::Sustain => Some((n.zero, n.unity)),
        ModRow::Release => Some((n.time_min, n.time_max)),
        ModRow::Depth(_) => Some((n.zero, n.unity)),
        _ => None,
    }
}

// ---------------------------------------------------------------------------
// The filter
// ---------------------------------------------------------------------------

/// Whether a parameter's name passes the filter, without regard to case.
pub open spec fn passes(name: Seq<char>, filter: Seq<char>) -> bool {
    filter.len() == 0 || has_part(lowercase(name), lowercase(filter))
}

/// The indices of those of the first `count` parameters that pass the filter.
pub open spec fn passing<F>(params: Seq<ParamSlot<F>>, filter: Seq<char>, count: int) -> Seq<usize>
    decreases count,
{
    if count <= 0 {
        Seq::empty()
    } else {
        let rest = passing(params, filter, count - 1);
        if passes(params[count - 1].name@, filter) {
            rest.push((count - 1) as usize)
        } else {
            rest
        }
    }
}

/// A length that fits into a machine word; a longer one counts as the longest.
pub open spec fn capped(n: int) -> usize {
    if n > usize::MAX {
        usize::MAX
    } else {
        n as usize
    }
}

impl<F> EditorView<F> {
    /// The plugin under the chain cursor.
    pub open spec fn selected_plugin(self) -> Option<PluginView<F>> {
        match self.selected() {
            Some(addr) => plugin_at(self.keyboards, addr),
            None => None,
        }
    }

    /// With the filter applied to the selected plugin's parameters; other nodes have none.
    pub open spec fn refiltered(self) -> EditorView<F> {
        EditorView {
            param_filtered: match self.selected_plugin() {
                Some(p) => passing(p.params, self.param_filter, p.params.len() as int),
                None => Seq::empty(),
            },
            ..self
        }
    }

    /// The length that the parameter list takes once the filter is applied.
    pub open spec fn filter_len(self) -> Option<usize> {
        match self.selected_plugin() {
            Some(_) => Some(self.refiltered().param_filtered.len() as usize),
            None => None,
        }
    }

    /// With an empty filter that is not being typed.
    pub open spec fn unfiltered(self) -> EditorView<F> {
        EditorView { param_filter: Seq::empty(), param_filtering: false, ..self }
    }

    /// The number of rows of the selected node's parameter list.
    pub open spec fn row_count(self) -> Option<usize> {
        match self.selected() {
            None => None,
            Some(TreeAddress::Split { .. }) => Some(1usize),
            Some(TreeAddress::Pattern { kb, split }) => match split_at(self.keyboards, kb, split) {
                Some(s) => match s.pattern {
                    Some(p) => if p.events.len() > 0 {
                        Some(4usize)
                    } else {
                        Some(3usize)
                    },
                    None => Some(0usize),
                },
                None => Some(0usize),
            },
            Some(TreeAddress::Modulator { kb, split, parent_slot, index }) => match modulator_in(
                self.keyboards,
                kb,
                split,
                parent_slot as int,
                index,
            ) {
                Some(m) => Some(capped(m.source_rows() + 1 + m.targets.len())),
                None => Some(0usize),
            },
            Some(addr) => match plugin_at(self.keyboards, addr) {
                Some(p) => Some(p.params.len() as usize),
                None => Some(0usize),
            },
        }
    }

    /// The row that the parameter cursor stands for: of a plugin, the filter decides.
    pub open spec fn real_row(self) -> Option<usize> {
        match self.selected() {
            None => None,
            Some(addr) => if addr.names_plugin() && self.param_filtered.len() > 0 {
                if self.param_selected < self.param_filtered.len() {
                    Some(self.param_filtered[self.param_selected as int])
                } else {
                    None
                }
            } else {
                Some(self.param_selected)
            },
        }
    }

    /// The plugin parameter under the parameter cursor.
    pub open spec fn selected_param(self) -> Option<ParamSlot<F>> {
        match (self.selected_plugin(), self.real_row()) {
            (Some(p), Some(pa)) => if pa < p.params.len() {
                Some(p.params[pa as int])
            } else {
                None
            },
            _ => None,
        }
    }

    /// The modulator under the chain cursor.
    pub open spec fn selected_modulator(self) -> Option<ModSlotView<F>> {
        match self.selected() {
            Some(TreeAddress::Modulator { kb, split, parent_slot, index }) => modulator_in(
                self.keyboards,
                kb,
                split,
                parent_slot as int,
                index,
            ),
            _ => None,
        }
    }

    /// The range of the parameter under the cursor: of plugins and modulators only.
    pub open spec fn param_range(self) -> Option<(F, F)> {
        match self.selected() {
            Some(TreeAddress::Modulator { .. }) => match self.selected_modulator() {
                Some(m) => row_range(m.row(self.param_selected), self.numbers),
                None => None,
            },
            _ => match self.selected_param() {
                Some(p) => Some((p.min, p.max)),
                None => None,
            },
        }
    }

    /// Whether the parameter under the cursor is a choice among names.
    pub open spec fn param_is_enum(self) -> bool {
        match self.selected_modulator() {
            Some(m) => m.row(self.param_selected) is Type || m.row(self.param_selected) is Waveform,
            None => false,
        }
    }
}

impl<F: Copy> Editor<F> {
    /// The plugin at a node.
    pub fn plugin_at(&self, addr: TreeAddress) -> (p: Option<&crate::tui::model::PluginSlot<F>>)
        ensures
            match p {
                Some(p) => plugin_at(self@.keyboards, addr) == Some(p@),
                None => plugin_at(self@.keyboards, addr) is None,
            },
    {
        find_plugin_at(&self.keyboards, addr)
    }

    /// The plugin under the chain cursor.
    fn plugin_here(&self) -> (p: Option<&crate::tui::model::PluginSlot<F>>)
        ensures
            match p {
                Some(p) => self@.selected_plugin() == Some(p@),
                None => self@.selected_plugin() is None,
            },
    {
        match self.selected_address() {
            Some(addr) => find_plugin_at(&self.keyboards, addr),
            None => None,
        }
    }

    /// The modulator under the chain cursor.
    fn modulator_here(&self) -> (m: Option<&ModulatorSlot<F>>)
        ensures
            match m {
                Some(m) => self@.selected_modulator() == Some(m@),
                None => self@.selected_modulator() is None,
            },
    {
        match self.selected_address() {
            Some(TreeAddress::Modulator { kb, split, parent_slot, index }) => find_modulator(
                &self.keyboards,
                kb,
                split,
                parent_slot,
                index,
            ),
            _ => None,
        }
    }

    /// Applies the filter; says which length the parameter list takes.
    pub fn recompute_param_filter(&mut self) -> (len: Option<usize>)
        ensures
            final(self)@ == old(self)@.refiltered(),
            len == old(self)@.filter_len(),
    {
        let mut filtered: Vec<usize> = Vec::new();
        let filter = to_chars(self.param_filter.as_str().to_lowercase().as_str());
        let every: bool = self.param_filter.as_str().unicode_len() == 0;
        let len: Option<usize> = match self.plugin_here() {
            Some(p) => {
                let n: usize = p.params.len();
                let mut i: usize = 0;
                while i < n
                    invariant
                        i <= n,
                        n == p.params@.len(),
                        every == (self.param_filter@.len() == 0),
                        filter@ == lowercase(self.param_filter@),
                        filtered@ == passing(p.params@, self.param_filter@, i as int),
                    decreases n - i,
                {
                    if every || contains(&to_chars(p.params[i].name.as_str().to_lowercase().as_str()), &filter) {
                        filtered.push(i);
                    }
                    i = i + 1;
                }
                Some(filtered.len())
            },
            None => None,
        };
        self.param_filtered = filtered;
        len
    }

    /// Lets the parameter list follow the chain cursor: the filter is dropped. Says which length
    /// the list takes.
    pub fn sync_param_state(&mut self) -> (len: Option<usize>)
        ensures
            final(self)@ == old(self)@.unfiltered().refiltered(),
            len == old(self)@.row_count(),
    {
        let len = self.count_rows();
        self.param_filter = String::new();
        self.param_filtering = false;
        let _ = self.recompute_param_filter();
        len
    }

    /// The number of rows of the selected node's parameter list.
    pub fn count_rows(&self) -> (len: Option<usize>)
        ensures
            len == self@.row_count(),
    {
        match self.selected_address() {
            None => None,
            Some(TreeAddress::Split { .. }) => Some(1),
            Some(TreeAddress::Pattern { kb, split }) => match find_split(&self.keyboards, kb, split) {
                Some(s) => match &s.pattern {
                    Some(p) => if p.events.len() > 0 {
                        Some(4)
                    } else {
                        Some(3)
                    },
                    None => Some(0),
                },
                None => Some(0),
            },
            Some(TreeAddress::Modulator { kb, split, parent_slot, index }) => match find_modulator(
                &self.keyboards,
                kb,
                split,
                parent_slot,
                index,
            ) {
                Some(m) => {
                    let fixed: usize = match m.source {
                        ModSourceSlot::Lfo { .. } => 4,
                        ModSourceSlot::Envelope { .. } => 6,
                    };
                    Some(m.targets.len().saturating_add(fixed))
                },
                None => Some(0),
            },
            Some(addr) => match find_plugin_at(&self.keyboards, addr) {
                Some(p) => Some(p.params.len()),
                None => Some(0),
            },
        }
    }

    /// The row that the parameter cursor stands for.
    pub fn real_param_index(&self) -> (row: Option<usize>)
        ensures
            row == self@.real_row(),
    {
        match self.selected_address() {
            None => None,
            Some(addr) => if addr.is_plugin() && self.param_filtered.len() > 0 {
                if self.param_selected < self.param_filtered.len() {
                    Some(self.param_filtered[self.param_selected])
                } else {
                    None
                }
            } else {
                Some(self.param_selected)
            },
        }
    }

    /// The plugin parameter under the parameter cursor.
    pub fn param_here(&self) -> (param: Option<&ParamSlot<F>>)
        ensures
            match param {
                Some(p) => self@.selected_param() == Some(*p),
                None => self@.selected_param() is None,
            },
    {
        match (self.plugin_here(), self.real_param_index()) {
            (Some(p), Some(pa)) => if pa < p.params.len() {
                Some(&p.params[pa])
            } else {
                None
            },
            _ => None,
        }
    }

    /// The range of the parameter under the cursor: of plugins and modulators only.
    pub fn selected_param_range(&self) -> (range: Option<(F, F)>)
        ensures
            range == self@.param_range(),
    {
        match self.selected_address() {
            Some(TreeAddress::Modulator { .. }) => match self.modulator_here() {
                Some(m) => range_of_row(m.row_at(self.param_selected), &self.numbers),
                None => None,
            },
            _ => match self.param_here() {
                Some(p) => Some((p.min, p.max)),
                None => None,
            },
        }
    }

    /// Whether the parameter under the cursor is a choice among names.
    pub fn selected_param_is_enum(&self) -> (r: bool)
        ensures
            r == self@.param_is_enum(),
    {
        match self.modulator_here() {
            Some(m) => match m.row_at(self.param_selected) {
                ModRow::Type => true,
                ModRow::Waveform => true,
                _ => false,
            },
            None => false,
        }
    }
}

} // verus!
