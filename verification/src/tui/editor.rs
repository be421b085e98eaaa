//! The state of the session editor, and what the keys do to it. Widgets hold the cursors and the
//! text fields: an effect tells them what to do, and their answer is handed back in.
use vstd::prelude::*;

use crate::graph::GraphCommand;
use crate::model::views;
use crate::tui::model::{opt_view, KeyboardNode, KeyboardView, TreeAddress};
use crate::tui::tree::{build_tree_entries, tree_entries, EntryView, TreeEntry};

verus! {

/// The number of tabs.
pub const TAB_COUNT: usize = 4;

/// How many rows a page is.
pub const PAGE: usize = 20;

/// Scalars that the editor's rules speak of.
#[derive(Clone, Copy, Debug)]
pub struct Numbers<F> {
    pub zero: F,
    pub unity: F,
    /// The depth of a new modulation target.
    pub new_depth: F,
    pub rate_min: F,
    pub rate_max: F,
    pub time_min: F,
    pub time_max: F,
    pub beats_min: F,
    pub beats_max: F,
    /// The length of a new pattern.
    pub new_beats: F,
    pub bpm_min: F,
    pub bpm_max: F,
    /// The envelope that a modulator is switched to.
    pub attack: F,
    pub decay: F,
    pub sustain: F,
    pub release: F,
}

/// How far a new target reaches, in thousandths, as all the numbers below.
pub const NEW_DEPTH: u32 = 500;

pub const RATE_MIN: u32 = 10;

pub const RATE_MAX: u32 = 50000;

pub const TIME_MIN: u32 = 1;

pub const TIME_MAX: u32 = 10000;

pub const BEATS_MIN: u32 = 1000;

pub const BEATS_MAX: u32 = 32000;

pub const NEW_BEATS: u32 = 4000;

pub const BPM_MIN: u32 = 20000;

pub const BPM_MAX: u32 = 300000;

pub const ATTACK: u32 = 10;

pub const DECAY: u32 = 300;

pub const SUSTAIN: u32 = 700;

pub const RELEASE: u32 = 500;

/// What the plugin selector offers.
#[derive(Clone, Copy, Debug, PartialEq, Eq, Structural)]
pub enum SelectorMode {
    Instrument,
    Effect,
}

/// The modulator for which a target is being chosen.
#[derive(Clone, Copy, Debug, PartialEq, Eq, Structural)]
pub struct ModulatorPlace {
    pub kb: usize,
    pub split: usize,
    pub parent_slot: usize,
    pub mod_index: usize,
}

/// A value that is being typed: what it starts as, with so many decimals, and its range.
#[derive(Debug)]
pub struct ValueEdit<F> {
    pub name: String,
    pub value: F,
    pub decimals: usize,
    pub min: F,
    pub max: F,
}

/// The mathematical content of a [`ValueEdit`].
#[verifier::ext_equal]
pub struct ValueEditView<F> {
    pub name: Seq<char>,
    pub value: F,
    pub decimals: usize,
    pub min: F,
    pub max: F,
}

impl<F> View for ValueEdit<F> {
    type V = ValueEditView<F>;

    open spec fn view(&self) -> ValueEditView<F> {
        ValueEditView {
            name: self.name@,
            value: self.value,
            decimals: self.decimals,
            min: self.min,
            max: self.max,
        }
    }
}

/// A cursor movement; pages are of [`PAGE`] rows, a scroll is three rows without wrapping.
#[derive(Clone, Copy, Debug, PartialEq, Eq, Structural)]
pub enum Motion {
    Up,
    Down,
    PageUp,
    PageDown,
    ScrollUp,
    ScrollDown,
}

/// What has to happen outside the editor, in this order.
#[derive(Debug)]
pub enum Effect<P, F> {
    /// Send a command to the audio graph.
    Send(GraphCommand<P, F>),
    /// The tree was built anew: the chain list takes its length, then the parameter list follows.
    Rebuilt,
    /// The chain cursor goes up one line, if it can.
    SelectPrevious,
    /// The chain cursor goes down one line.
    SelectNext,
    /// The chain cursor goes to this node, if it is there, and the parameter list follows.
    Follow(TreeAddress),
    /// The chain cursor moves, and the parameter list follows.
    MoveChain(Motion),
    /// The parameter cursor moves.
    MoveParams(Motion),
    /// The parameter cursor goes to this row.
    SelectParam(usize),
    /// The parameter list takes this length.
    ParamLen(usize),
    /// The filter's text field is emptied.
    ResetFilter,
    /// The popup that the editor now holds is opened.
    OpenPopup,
    /// The session is saved.
    Save,
    /// The selected parameter is adjusted by one step.
    Adjust { up: bool },
}

/// The state of the editor.
#[derive(Debug)]
pub struct Editor<F> {
    pub active_tab: usize,
    pub keyboards: Vec<KeyboardNode<F>>,
    pub tree: Vec<TreeEntry<F>>,
    /// Where the chain cursor is.
    pub chain_selected: usize,
    /// Where the parameter cursor is.
    pub param_selected: usize,
    pub focus_params: bool,
    pub help_offset: usize,
    pub scrollbar_dragging: bool,
    pub param_dragging: bool,
    pub param_scrollbar_dragging: bool,
    pub selector: Option<SelectorMode>,
    pub targets: Option<ModulatorPlace>,
    pub bpm_edit: Option<ValueEdit<F>>,
    pub value_edit: Option<ValueEdit<F>>,
    pub range_edit: Option<usize>,
    /// What the filter's text field holds.
    pub param_filter: String,
    pub param_filtering: bool,
    /// The parameters that pass the filter.
    pub param_filtered: Vec<usize>,
    pub quit: bool,
    pub dirty: bool,
    pub global_bpm: F,
    pub numbers: Numbers<F>,
}

/// The mathematical content of an [`Editor`].
#[verifier::ext_equal]
pub struct EditorView<F> {
    pub active_tab: usize,
    pub keyboards: Seq<KeyboardView<F>>,
    pub tree: Seq<EntryView<F>>,
    pub chain_selected: usize,
    pub param_selected: usize,
    pub focus_params: bool,
    pub help_offset: usize,
    pub scrollbar_dragging: bool,
    pub param_dragging: bool,
    pub param_scrollbar_dragging: bool,
    pub selector: Option<SelectorMode>,
    pub targets: Option<ModulatorPlace>,
    pub bpm_edit: Option<ValueEditView<F>>,
    pub value_edit: Option<ValueEditView<F>>,
    pub range_edit: Option<usize>,
    pub param_filter: Seq<char>,
    pub param_filtering: bool,
    pub param_filtered: Seq<usize>,
    pub quit: bool,
    pub dirty: bool,
    pub global_bpm: F,
    pub numbers: Numbers<F>,
}

impl<F> View for Editor<F> {
    type V = EditorView<F>;

    open spec fn view(&self) -> EditorView<F> {
        EditorView {
            active_tab: self.active_tab,
            keyboards: views(self.keyboards@),
            tree: views(self.tree@),
            chain_selected: self.chain_selected,
            param_selected: self.param_selected,
            focus_params: self.focus_params,
            help_offset: self.help_offset,
            scrollbar_dragging: self.scrollbar_dragging,
            param_dragging: self.param_dragging,
            param_scrollbar_dragging: self.param_scrollbar_dragging,
            selector: self.selector,
            targets: self.targets,
            bpm_edit: opt_view(self.bpm_edit),
            value_edit: opt_view(self.value_edit),
            range_edit: self.range_edit,
            param_filter: self.param_filter@,
            param_filtering: self.param_filtering,
            param_filtered: self.param_filtered@,
            quit: self.quit,
            dirty: self.dirty,
            global_bpm: self.global_bpm,
            numbers: self.numbers,
        }
    }
}

/// What the editor becomes, and what has to happen outside.
pub type Change<P, F> = (EditorView<F>, Seq<Effect<P, F>>);

impl<F> EditorView<F> {
    /// The tree shows the keyboards as they are, and the tab is one there is.
    pub open spec fn wf(self) -> bool {
        self.tree == tree_entries(self.keyboards, self.keyboards.len() as int) && self.active_tab < TAB_COUNT
    }

    /// The node under the chain cursor.
    pub open spec fn selected(self) -> Option<TreeAddress> {
        if self.chain_selected < self.tree.len() {
            Some(self.tree[self.chain_selected as int].address)
        } else {
            None
        }
    }

    /// With these keyboards and the tree that shows them.
    pub open spec fn with_keyboards(self, keyboards: Seq<KeyboardView<F>>) -> EditorView<F> {
        EditorView { keyboards, tree: tree_entries(keyboards, keyboards.len() as int), ..self }
    }

    /// With changes to save.
    pub open spec fn touched(self) -> EditorView<F> {
        EditorView { dirty: true, ..self }
    }

    /// Nothing happens.
    pub open spec fn unchanged<P>(self) -> Change<P, F> {
        (self, Seq::empty())
    }

    /// The keyboards change, after these commands.
    pub open spec fn edited<P>(self, keyboards: Seq<KeyboardView<F>>, commands: Seq<Effect<P, F>>) -> Change<P, F> {
        (self.with_keyboards(keyboards).touched(), commands.push(Effect::Rebuilt))
    }
}

impl<F: Copy> Editor<F> {
    /// The node under the chain cursor.
    pub fn selected_address(&self) -> (addr: Option<TreeAddress>)
        ensures
            addr == self@.selected(),
    {
        if self.chain_selected < self.tree.len() {
            Some(self.tree[self.chain_selected].address)
        } else {
            None
        }
    }

    /// Builds the tree anew.
    pub fn rebuild_tree(&mut self)
        ensures
            final(self)@ == old(self)@.with_keyboards(old(self)@.keyboards),
    {
        self.tree = build_tree_entries(&self.keyboards);
    }
}

} // verus!
