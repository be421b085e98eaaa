//! The rows of the parameter list, as they are shown.
use vstd::prelude::*;

use vstd::utf8::{decode_utf8, encode_utf8, is_char_boundary};
use crate::model::views;
use crate::tui::editor::{Editor, EditorView, Numbers};
use crate::tui::keys::{name_of_row, row_name};
use crate::tui::model::{
    find_modulator, find_plugin_at, find_split, modulator_in, plugin_at, split_at, ModSlotView, ModSourceSlot,
    ModulatorSlot, ParamSlot, PatternState, PatternStateView, PluginSlot, PluginView, TreeAddress,
};
use crate::tui::params::{capped, range_of_row, row_range, ModRow};
use crate::tui::tree::{split_name, split_title};

verus! {

/// The columns that a parameter's name gets.
pub const NAME_WIDTH: usize = 24;

/// What a row shows behind its name.
#[derive(Clone, Copy, Debug)]
pub enum RowKind<F> {
    /// A line across.
    Separator,
    /// The chosen one of several names.
    Choice(&'static str),
    /// A bar for a value in its range, and the value.
    Value { value: F, min: F, max: F },
    /// A bar for a transposition, and its semitones.
    Semitones(i8),
}

/// The mathematical content of a [`RowKind`].
pub enum RowKindView<F> {
    Separator,
    Choice(Seq<char>),
    Value { value: F, min: F, max: F },
    Semitones(i8),
}

impl<F> View for RowKind<F> {
    type V = RowKindView<F>;

    open spec fn view(&self) -> RowKindView<F> {
        match *self {
            RowKind::Separator => RowKindView::Separator,
            RowKind::Choice(name) => RowKindView::Choice(name@),
            RowKind::Value { value, min, max } => RowKindView::Value { value, min, max },
            RowKind::Semitones(n) => RowKindView::Semitones(n),
        }
    }
}

/// A row of the parameter list.
#[derive(Debug)]
pub struct ParamRow<F> {
    pub name: String,
    pub kind: RowKind<F>,
}

/// The mathematical content of a [`ParamRow`].
#[verifier::ext_equal]
pub struct ParamRowView<F> {
    pub name: Seq<char>,
    pub kind: RowKindView<F>,
}

impl<F> View for ParamRow<F> {
    type V = ParamRowView<F>;

    open spec fn view(&self) -> ParamRowView<F> {
        ParamRowView { name: self.name@, kind: self.kind@ }
    }
}

/// The title of the parameter list: `before`, the number with one decimal where there is one, and
/// `after`.
#[derive(Debug)]
pub struct Title<F> {
    pub before: String,
    pub number: Option<F>,
    pub after: String,
}

/// The mathematical content of a [`Title`].
#[verifier::ext_equal]
pub struct TitleView<F> {
    pub before: Seq<char>,
    pub number: Option<F>,
    pub after: Seq<char>,
}

impl<F> View for Title<F> {
    type V = TitleView<F>;

    open spec fn view(&self) -> TitleView<F> {
        TitleView { before: self.before@, number: self.number, after: self.after@ }
    }
}

/// A title without a number.
pub open spec fn plain_title<F>(text: Seq<char>) -> TitleView<F> {
    TitleView { before: text, number: None, after: Seq::empty() }
}

/// What a modulator's row shows.
pub open spec fn mod_row_kind<F>(m: ModSlotView<F>, row: ModRow, n: Numbers<F>) -> RowKindView<F> {
    match row {
        ModRow::Type => RowKindView::Choice(
            if m.source is Lfo {
                "LFO"@
            } else {
                "Envelope"@
            },
        ),
        ModRow::Waveform => RowKindView::Choice(
            match m.source {
                ModSourceSlot::Lfo { waveform, .. } => waveform.label(),
                _ => Seq::empty(),
            },
        ),
        _ => match (m.value_at(row), row_range(row, n)) {
            (Some(value), Some((min, max))) => RowKindView::Value { value, min, max },
            _ => RowKindView::Separator,
        },
    }
}

/// The rows of a modulator.
pub open spec fn modulator_rows<F>(m: ModSlotView<F>, n: Numbers<F>) -> Seq<ParamRowView<F>> {
    Seq::new(
        capped(m.source_rows() + 1 + m.targets.len()) as nat,
        |i: int|
            ParamRowView {
                name: row_name(m, m.row(i as usize)),
                kind: mod_row_kind(m, m.row(i as usize), n),
            },
    )
}

/// A switch's state in words.
pub open spec fn on_off(on: bool) -> Seq<char> {
    if on {
        "On"@
    } else {
        "Off"@
    }
}

/// The rows of a pattern.
pub open spec fn pattern_rows<F>(p: PatternStateView<F>, n: Numbers<F>) -> Seq<ParamRowView<F>> {
    let rows = seq![
        ParamRowView {
            name: "Length (beats)"@,
            kind: RowKindView::Value { value: p.length_beats, min: n.beats_min, max: n.beats_max },
        },
        ParamRowView { name: "Enabled"@, kind: RowKindView::Choice(on_off(p.enabled)) },
        ParamRowView { name: "Loop"@, kind: RowKindView::Choice(on_off(p.looping)) },
    ];
    if p.events.len() > 0 {
        rows.push(ParamRowView { name: "Notes"@, kind: RowKindView::Separator })
    } else {
        rows
    }
}

/// The row of a plugin's parameter.
pub open spec fn param_row<F>(p: ParamSlot<F>) -> ParamRowView<F> {
    ParamRowView { name: p.name@, kind: RowKindView::Value { value: p.value, min: p.min, max: p.max } }
}

/// The rows for the first `count` of the parameters that are picked; a pick that there is no
/// parameter for is passed over.
pub open spec fn picked_rows<F>(params: Seq<ParamSlot<F>>, picks: Seq<usize>, count: int) -> Seq<ParamRowView<F>>
    decreases count,
{
    if count <= 0 {
        Seq::empty()
    } else {
        let rest = picked_rows(params, picks, count - 1);
        let pick = picks[count - 1];
        if pick < params.len() {
            rest.push(param_row(params[pick as int]))
        } else {
            rest
        }
    }
}

/// The rows of a plugin: the parameters that pass the filter, all without one.
pub open spec fn plugin_rows<F>(p: PluginView<F>, picks: Seq<usize>, filter: Seq<char>) -> Seq<ParamRowView<F>> {
    if picks.len() > 0 {
        picked_rows(p.params, picks, picks.len() as int)
    } else if filter.len() > 0 {
        Seq::empty()
    } else {
        Seq::new(p.params.len(), |i: int| param_row(p.params[i]))
    }
}

impl<F> EditorView<F> {
    /// The rows of the parameter list.
    pub open spec fn rows(self) -> Seq<ParamRowView<F>> {
        match self.selected() {
            None => Seq::empty(),
            Some(TreeAddress::Keyboard(_)) => Seq::empty(),
            Some(TreeAddress::Split { kb, split }) => seq![
                ParamRowView {
                    name: "Transpose"@,
                    kind: RowKindView::Semitones(
                        match split_at(self.keyboards, kb, split) {
                            Some(s) => s.transpose,
                            None => 0,
                        },
                    ),
                },
            ],
            Some(TreeAddress::Pattern { kb, split }) => match split_at(self.keyboards, kb, split) {
                Some(s) => match s.pattern {
                    Some(p) => pattern_rows(p, self.numbers),
                    None => Seq::empty(),
                },
                None => Seq::empty(),
            },
            Some(TreeAddress::Modulator { kb, split, parent_slot, index }) => match modulator_in(
                self.keyboards,
                kb,
                split,
                parent_slot as int,
                index,
            ) {
                Some(m) => modulator_rows(m, self.numbers),
                None => Seq::empty(),
            },
            Some(addr) => match plugin_at(self.keyboards, addr) {
                Some(p) => plugin_rows(p, self.param_filtered, self.param_filter),
                None => Seq::empty(),
            },
        }
    }

    /// The title of the parameter list.
    pub open spec fn title(self) -> TitleView<F> {
        match self.selected() {
            None => plain_title("(none)"@),
            Some(TreeAddress::Keyboard(kb)) => plain_title(
                if kb < self.keyboards.len() {
                    self.keyboards[kb as int].name
                } else {
                    "Keyboard"@
                },
            ),
            Some(TreeAddress::Split { kb, split }) => plain_title(
                split_name(
                    match split_at(self.keyboards, kb, split) {
                        Some(s) => s.range,
                        None => None,
                    },
                ),
            ),
            Some(TreeAddress::Pattern { .. }) => plain_title("Pattern"@),
            Some(TreeAddress::Modulator { kb, split, parent_slot, index }) => match modulator_in(
                self.keyboards,
                kb,
                split,
                parent_slot as int,
                index,
            ) {
                Some(m) => match m.source {
                    ModSourceSlot::Lfo { waveform, rate } => TitleView {
                        before: "LFO "@,
                        number: Some(rate),
                        after: "Hz "@ + waveform.label(),
                    },
                    ModSourceSlot::Envelope { .. } => plain_title("ADSR"@),
                },
                None => plain_title("(none)"@),
            },
            Some(addr) => plain_title(
                match plugin_at(self.keyboards, addr) {
                    Some(p) => p.name,
                    None => "(none)"@,
                },
            ),
        }
    }

    /// Whether the filter is shown above the rows.
    pub open spec fn filter_shown(self) -> bool {
        match self.selected() {
            Some(addr) => addr.names_plugin() && (self.param_filtering || self.param_filter.len() > 0),
            None => false,
        }
    }
}

fn build_mod_row<F: Copy>(m: &ModulatorSlot<F>, row: ModRow, n: &Numbers<F>) -> (kind: RowKind<F>)
    ensures
        kind@ == mod_row_kind(m@, row, *n),
{
    match row {
        ModRow::Type => match m.source {
            ModSourceSlot::Lfo { .. } => RowKind::Choice("LFO"),
            ModSourceSlot::Envelope { .. } => RowKind::Choice("Envelope"),
        },
        ModRow::Waveform => match m.source {
            ModSourceSlot::Lfo { waveform, .. } => RowKind::Choice(waveform.name()),
            ModSourceSlot::Envelope { .. } => {
                proof {
                    reveal_strlit("");
                    assert(""@ =~= Seq::<char>::empty());
                }
                RowKind::Choice("")
            },
        },
        _ => match (m.row_value(row), range_of_row(row, n)) {
            (Some(value), Some((min, max))) => RowKind::Value { value, min, max },
            _ => RowKind::Separator,
        },
    }
}

fn build_modulator_rows<F: Copy>(m: &ModulatorSlot<F>, n: &Numbers<F>) -> (rows: Vec<ParamRow<F>>)
    ensures
        views(rows@) == modulator_rows(m@, *n),
{
    let ghost whole = modulator_rows(m@, *n);
    let fixed: usize = match m.source {
        ModSourceSlot::Lfo { .. } => 4,
        ModSourceSlot::Envelope { .. } => 6,
    };
    let count: usize = m.targets.len().saturating_add(fixed);
    let mut rows: Vec<ParamRow<F>> = Vec::new();
    let mut pa: usize = 0;
    while pa < count
        invariant
            pa <= count,
            count == whole.len(),
            whole == modulator_rows(m@, *n),
            views(rows@) == whole.take(pa as int),
        decreases count - pa,
    {
        let row = m.row_at(pa);
        let built = ParamRow { name: name_of_row(m, row), kind: build_mod_row(m, row, n) };
        let ghost so_far = views(rows@);
        assert(built@ =~= whole[pa as int]);
        rows.push(built);
        assert(views(rows@) =~= so_far.push(whole[pa as int]));
        assert(whole.take(pa + 1) =~= whole.take(pa as int).push(whole[pa as int]));
        pa = pa + 1;
    }
    assert(whole.take(pa as int) =~= whole);
    rows
}

fn switch(on: bool) -> (text: &'static str)
    ensures
        text@ == on_off(on),
{
    if on {
        "On"
    } else {
        "Off"
    }
}

fn build_pattern_rows<F: Copy>(p: &PatternState<F>, n: &Numbers<F>) -> (rows: Vec<ParamRow<F>>)
    ensures
        views(rows@) == pattern_rows(p@, *n),
{
    let mut rows: Vec<ParamRow<F>> = Vec::new();
    rows.push(
        ParamRow {
            name: "Length (beats)".to_owned(),
            kind: RowKind::Value { value: p.length_beats, min: n.beats_min, max: n.beats_max },
        },
    );
    rows.push(ParamRow { name: "Enabled".to_owned(), kind: RowKind::Choice(switch(p.enabled)) });
    rows.push(ParamRow { name: "Loop".to_owned(), kind: RowKind::Choice(switch(p.looping)) });
    if p.events.len() > 0 {
        rows.push(ParamRow { name: "Notes".to_owned(), kind: RowKind::Separator });
    }
    assert(views(rows@) =~= pattern_rows(p@, *n));
    rows
}

fn build_param_row<F: Copy>(p: &ParamSlot<F>) -> (row: ParamRow<F>)
    ensures
        row@ == param_row(*p),
{
    ParamRow { name: p.name.clone(), kind: RowKind::Value { value: p.value, min: p.min, max: p.max } }
}

fn build_plugin_rows<F: Copy>(p: &PluginSlot<F>, picks: &Vec<usize>, filtered: bool) -> (rows: Vec<ParamRow<F>>)
    ensures
        forall|filter: Seq<char>|
            filtered == (filter.len() > 0) ==> views(rows@) == #[trigger] plugin_rows(p@, picks@, filter),
{
    let mut rows: Vec<ParamRow<F>> = Vec::new();
    if picks.len() > 0 {
        let mut i: usize = 0;
        while i < picks.len()
            invariant
                i <= picks@.len(),
                views(rows@) == picked_rows(p.params@, picks@, i as int),
            decreases picks@.len() - i,
        {
            let pick: usize = picks[i];
            if pick < p.params.len() {
                let ghost so_far = views(rows@);
                rows.push(build_param_row(&p.params[pick]));
                assert(views(rows@) =~= so_far.push(param_row(p.params@[pick as int])));
            }
            i = i + 1;
        }
    } else if !filtered {
        let ghost whole = Seq::new(p.params@.len(), |i: int| param_row(p.params@[i]));
        let mut i: usize = 0;
        while i < p.params.len()
            invariant
                i <= p.params@.len(),
                whole == Seq::new(p.params@.len(), |i: int| param_row(p.params@[i])),
                views(rows@) == whole.take(i as int),
            decreases p.params@.len() - i,
        {
            let ghost so_far = views(rows@);
            rows.push(build_param_row(&p.params[i]));
            assert(views(rows@) =~= so_far.push(whole[i as int]));
            assert(whole.take(i + 1) =~= whole.take(i as int).push(whole[i as int]));
            i = i + 1;
        }
        assert(whole.take(i as int) =~= whole);
    }
    rows
}

fn plain<F>(text: String) -> (title: Title<F>)
    ensures
        title@ == plain_title::<F>(text@),
{
    Title { before: text, number: None, after: String::new() }
}

impl<F: Copy> Editor<F> {
    /// The rows of the parameter list.
    pub fn param_rows(&self) -> (rows: Vec<ParamRow<F>>)
        ensures
            views(rows@) == self@.rows(),
    {
        match self.selected_address() {
            None => Vec::new(),
            Some(TreeAddress::Keyboard(_)) => Vec::new(),
            Some(TreeAddress::Split { kb, split }) => {
                let semitones: i8 = match find_split(&self.keyboards, kb, split) {
                    Some(s) => s.transpose,
                    None => 0,
                };
                let mut rows: Vec<ParamRow<F>> = Vec::new();
                rows.push(ParamRow { name: "Transpose".to_owned(), kind: RowKind::Semitones(semitones) });
                assert(views(rows@) =~= self@.rows());
                rows
            },
            Some(TreeAddress::Pattern { kb, split }) => match find_split(&self.keyboards, kb, split) {
                Some(s) => match &s.pattern {
                    Some(p) => build_pattern_rows(p, &self.numbers),
                    None => Vec::new(),
                },
                None => Vec::new(),
            },
            Some(TreeAddress::Modulator { kb, split, parent_slot, index }) => match find_modulator(
                &self.keyboards,
                kb,
                split,
                parent_slot,
                index,
            ) {
                Some(m) => build_modulator_rows(m, &self.numbers),
                None => Vec::new(),
            },
            Some(addr) => match find_plugin_at(&self.keyboards, addr) {
                Some(p) => build_plugin_rows(
                    p,
                    &self.param_filtered,
                    self.param_filter.as_str().unicode_len() > 0,
                ),
                None => Vec::new(),
            },
        }
    }

    /// The title of the parameter list.
    pub fn param_title(&self) -> (title: Title<F>)
        ensures
            title@ == self@.title(),
    {
        match self.selected_address() {
            None => plain("(none)".to_owned()),
            Some(TreeAddress::Keyboard(kb)) => if kb < self.keyboards.len() {
                plain(self.keyboards[kb].name.clone())
            } else {
                plain("Keyboard".to_owned())
            },
            Some(TreeAddress::Split { kb, split }) => match find_split(&self.keyboards, kb, split) {
                Some(s) => plain(split_title(s.range)),
                None => plain(split_title(None)),
            },
            Some(TreeAddress::Pattern { .. }) => plain("Pattern".to_owned()),
            Some(TreeAddress::Modulator { kb, split, parent_slot, index }) => match find_modulator(
                &self.keyboards,
                kb,
                split,
                parent_slot,
                index,
            ) {
                Some(m) => match m.source {
                    ModSourceSlot::Lfo { waveform, rate } => {
                        let mut after = "Hz ".to_owned();
                        after.append(waveform.name());
                        Title { before: "LFO ".to_owned(), number: Some(rate), after }
                    },
                    ModSourceSlot::Envelope { .. } => plain("ADSR".to_owned()),
                },
                None => plain("(none)".to_owned()),
            },
            Some(addr) => match find_plugin_at(&self.keyboards, addr) {
                Some(p) => plain(p.name.clone()),
                None => plain("(none)".to_owned()),
            },
        }
    }

    /// Whether the filter is shown above the rows.
    pub fn shows_filter(&self) -> (r: bool)
        ensures
            r == self@.filter_shown(),
    {
        match self.selected_address() {
            Some(addr) => addr.is_plugin() && (self.param_filtering || self.param_filter.as_str().unicode_len() > 0),
            None => false,
        }
    }
}

// ---------------------------------------------------------------------------
// Names
// ---------------------------------------------------------------------------

/// The text, shortened to `max` bytes with an ellipsis where it is longer.
pub open spec fn truncated(s: Seq<char>, max: int) -> Seq<char> {
    if encode_utf8(s).len() <= max {
        s
    } else {
        decode_utf8(encode_utf8(s).subrange(0, max - 1)) + "…"@
    }
}

/// Whether a text can be shortened to `max` bytes: the cut falls between two characters.
pub open spec fn can_truncate(s: Seq<char>, max: int) -> bool {
    encode_utf8(s).len() > max ==> max > 0 && is_char_boundary(encode_utf8(s), max - 1)
}

/// Shortens a text to `max` bytes with an ellipsis where it is longer.
pub fn truncate(s: &str, max: usize) -> (r: String)
    requires
        can_truncate(s@, max as int),
    ensures
        r@ == truncated(s@, max as int),
{
    if s.as_bytes().len() <= max {
        s.to_owned()
    } else {
        let (head, _) = s.split_at(max - 1);
        let mut r = head.to_owned();
        proof {
            vstd::utf8::encode_utf8_decode_utf8(head@);
        }
        r.append("…");
        r
    }
}

/// A parameter's name as its row shows it: shortened, filled up to its columns, and a blank.
pub open spec fn name_cell_text(name: Seq<char>) -> Seq<char> {
    let short = truncated(name, NAME_WIDTH as int);
    let blanks = if short.len() < NAME_WIDTH {
        (NAME_WIDTH - short.len()) as nat
    } else {
        0
    };
    short + Seq::new(blanks + 1, |i: int| ' ')
}

/// A parameter's name as its row shows it: shortened, filled up to its columns, and a blank.
pub fn name_cell(name: &str) -> (cell: String)
    requires
        can_truncate(name@, NAME_WIDTH as int),
    ensures
        cell@ == name_cell_text(name@),
{
    let mut cell = truncate(name, NAME_WIDTH);
    let ghost short = cell@;
    let len: usize = cell.as_str().unicode_len();
    let blanks: usize = if len < NAME_WIDTH {
        NAME_WIDTH - len
    } else {
        0
    };
    let mut i: usize = 0;
    while i <= blanks
        invariant
            i <= blanks + 1,
            blanks <= NAME_WIDTH,
            cell@ == short + Seq::new(i as nat, |i: int| ' '),
        decreases blanks + 1 - i,
    {
        cell.push(' ');
        assert(cell@ =~= short + Seq::new((i + 1) as nat, |i: int| ' '));
        i = i + 1;
    }
    cell
}

} // verus!
