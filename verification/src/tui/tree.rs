//! The keyboards as a tree, one line per node, and what can be done at each node.
use vstd::prelude::*;

use crate::model::views;
use crate::notes::{format_range, range_text};
use crate::text::{decimal, ends_with, has_char, push_decimal, push_signed, signed_decimal, starts_with};
use crate::tui::model::{
    KeyboardNode, KeyboardView, ModSlotView, ModSourceSlot, ModulatorSlot, PatternState, PatternStateView, PluginSlot,
    PluginView, SplitNode, SplitView, TreeAddress,
};

verus! {

/// The colour of a tree line.
#[derive(Clone, Copy, Debug, PartialEq, Eq, Structural)]
pub enum EntryColor {
    Cyan,
    White,
    Red,
    Blue,
    Green,
    Yellow,
    Magenta,
}

/// One line of the tree. Its label is `before`, the number with so many decimals where there is
/// one, and `after`.
#[derive(Debug)]
pub struct TreeEntry<F> {
    pub before: String,
    pub number: Option<(F, usize)>,
    pub after: String,
    pub address: TreeAddress,
    pub color: EntryColor,
    pub indent: usize,
}

/// The mathematical content of a [`TreeEntry`].
#[verifier::ext_equal]
pub struct EntryView<F> {
    pub before: Seq<char>,
    pub number: Option<(F, usize)>,
    pub after: Seq<char>,
    pub address: TreeAddress,
    pub color: EntryColor,
    pub indent: usize,
}

impl<F> View for TreeEntry<F> {
    type V = EntryView<F>;

    open spec fn view(&self) -> EntryView<F> {
        EntryView {
            before: self.before@,
            number: self.number,
            after: self.after@,
            address: self.address,
            color: self.color,
            indent: self.indent,
        }
    }
}

/// What stands before a child: the last one closes the branch.
pub open spec fn branch(last: bool) -> Seq<char> {
    if last {
        "╰"@
    } else {
        "├"@
    }
}

/// What continues a branch below a child.
pub open spec fn continuation(last: bool) -> Seq<char> {
    if last {
        "  "@
    } else {
        "│ "@
    }
}

/// The number of note-on events.
pub open spec fn note_count(events: Seq<(u64, u8, u8, u8)>) -> nat
    decreases events.len(),
{
    if events.len() == 0 {
        0
    } else {
        note_count(events.drop_last()) + (if events.last().1 == 0x90 {
            1nat
        } else {
            0nat
        })
    }
}

/// Whether the pattern is shown: while it records, and once it has events.
pub open spec fn shows_pattern<F>(pattern: Option<PatternStateView<F>>) -> bool {
    match pattern {
        Some(p) => p.recording || p.events.len() > 0,
        None => false,
    }
}

/// The line of a modulator, whose plugin continues its branch as `cont` says.
pub open spec fn modulator_entry<F>(
    m: ModSlotView<F>,
    kb: usize,
    split: usize,
    parent_slot: usize,
    index: usize,
    cont: Seq<char>,
) -> EntryView<F> {
    let before = cont + (if index == 0 {
        "╰"@
    } else {
        " "@
    }) + " ~ "@;
    let address = TreeAddress::Modulator { kb, split, parent_slot, index };
    match m.source {
        ModSourceSlot::Lfo { waveform, rate } => EntryView {
            before: before + "LFO "@,
            number: Some((rate, 1usize)),
            after: "Hz "@ + waveform.label(),
            address,
            color: EntryColor::Magenta,
            indent: 3,
        },
        ModSourceSlot::Envelope { .. } => EntryView {
            before: before + "ADSR"@,
            number: None,
            after: Seq::empty(),
            address,
            color: EntryColor::Magenta,
            indent: 3,
        },
    }
}

/// The lines of a plugin's modulators.
pub open spec fn modulator_entries<F>(
    mods: Seq<ModSlotView<F>>,
    kb: usize,
    split: usize,
    parent_slot: usize,
    cont: Seq<char>,
) -> Seq<EntryView<F>> {
    Seq::new(mods.len(), |i: int| modulator_entry(mods[i], kb, split, parent_slot, i as usize, cont))
}

/// The lines of a plugin: its own and those of its modulators.
pub open spec fn plugin_entries<F>(
    plugin: PluginView<F>,
    address: TreeAddress,
    kb: usize,
    split: usize,
    parent_slot: usize,
    cont: Seq<char>,
    last: bool,
) -> Seq<EntryView<F>> {
    let effect = address is Effect;
    seq![
        EntryView {
            before: cont + branch(last) + (if effect {
                " fx "@
            } else {
                " ♪ "@
            }) + plugin.name + "  ["@ + plugin.format + "]"@,
            number: None,
            after: Seq::empty(),
            address,
            color: if effect {
                EntryColor::Yellow
            } else {
                EntryColor::Green
            },
            indent: 2,
        },
    ] + modulator_entries(plugin.modulators, kb, split, parent_slot, cont + continuation(last))
}

/// The lines of the first `count` effects of a split.
pub open spec fn effect_entries<F>(
    effects: Seq<PluginView<F>>,
    kb: usize,
    split: usize,
    cont: Seq<char>,
    count: int,
) -> Seq<EntryView<F>>
    decreases count,
{
    if count <= 0 {
        Seq::empty()
    } else {
        effect_entries(effects, kb, split, cont, count - 1) + plugin_entries(
            effects[count - 1],
            TreeAddress::Effect { kb, split, index: (count - 1) as usize },
            kb,
            split,
            count as usize,
            cont,
            count == effects.len(),
        )
    }
}

/// The name of a split: its range.
pub open spec fn split_name(range: Option<(u8, u8)>) -> Seq<char> {
    match range {
        Some(r) => range_text(r),
        None => "Full range"@,
    }
}

/// What a split's line says of its transposition: nothing where there is none.
pub open spec fn transpose_text(transpose: i8) -> Seq<char> {
    if transpose == 0 {
        Seq::empty()
    } else {
        "  "@ + (if transpose > 0 {
            "+"@
        } else {
            Seq::empty()
        }) + signed_decimal(transpose as int)
    }
}

/// The line of a pattern.
pub open spec fn pattern_entry<F>(
    p: PatternStateView<F>,
    kb: usize,
    split: usize,
    cont: Seq<char>,
    last: bool,
) -> EntryView<F> {
    let address = TreeAddress::Pattern { kb, split };
    if p.recording {
        EntryView {
            before: cont + branch(last) + " ⏺ Pattern  recording..."@,
            number: None,
            after: Seq::empty(),
            address,
            color: EntryColor::Red,
            indent: 2,
        }
    } else {
        EntryView {
            before: cont + branch(last) + " ▶ Pattern  "@,
            number: Some((p.length_beats, 0usize)),
            after: " beats, "@ + decimal(note_count(p.events)) + " notes"@,
            address,
            color: EntryColor::Blue,
            indent: 2,
        }
    }
}

/// The lines of a split: its own, then its pattern, its instrument and its effects.
pub open spec fn split_entries<F>(s: SplitView<F>, kb: usize, split: usize, last: bool) -> Seq<EntryView<F>> {
    let cont = continuation(last);
    seq![
        EntryView {
            before: branch(last) + " "@ + split_name(s.range) + transpose_text(s.transpose),
            number: None,
            after: Seq::empty(),
            address: TreeAddress::Split { kb, split },
            color: EntryColor::White,
            indent: 1,
        },
    ] + (if shows_pattern(s.pattern) {
        seq![pattern_entry(s.pattern->0, kb, split, cont, s.instrument is None && s.effects.len() == 0)]
    } else {
        Seq::empty()
    }) + (match s.instrument {
        Some(p) => plugin_entries(
            p,
            TreeAddress::Instrument { kb, split },
            kb,
            split,
            0,
            cont,
            s.effects.len() == 0,
        ),
        None => Seq::empty(),
    }) + effect_entries(s.effects, kb, split, cont, s.effects.len() as int)
}

/// The lines of the first `count` splits of a keyboard.
pub open spec fn splits_entries<F>(splits: Seq<SplitView<F>>, kb: usize, count: int) -> Seq<EntryView<F>>
    decreases count,
{
    if count <= 0 {
        Seq::empty()
    } else {
        splits_entries(splits, kb, count - 1) + split_entries(
            splits[count - 1],
            kb,
            (count - 1) as usize,
            count == splits.len(),
        )
    }
}

/// The lines of the first `count` keyboards.
pub open spec fn tree_entries<F>(kbs: Seq<KeyboardView<F>>, count: int) -> Seq<EntryView<F>>
    decreases count,
{
    if count <= 0 {
        Seq::empty()
    } else {
        let k = kbs[count - 1];
        tree_entries(kbs, count - 1) + seq![
            EntryView {
                before: "⌨ "@ + k.name,
                number: None,
                after: Seq::empty(),
                address: TreeAddress::Keyboard((count - 1) as usize),
                color: EntryColor::Cyan,
                indent: 0,
            },
        ] + splits_entries(k.splits, (count - 1) as usize, k.splits.len() as int)
    }
}

// ---------------------------------------------------------------------------
// Building the lines
// ---------------------------------------------------------------------------

fn branch_text(last: bool) -> (text: &'static str)
    ensures
        text@ == branch(last),
{
    if last {
        "╰"
    } else {
        "├"
    }
}

fn continuation_text(last: bool) -> (text: &'static str)
    ensures
        text@ == continuation(last),
{
    if last {
        "  "
    } else {
        "│ "
    }
}

/// The number of note-on events.
pub fn count_notes(events: &Vec<(u64, u8, u8, u8)>) -> (count: usize)
    ensures
        count == note_count(events@),
{
    let mut count: usize = 0;
    let mut i: usize = 0;
    while i < events.len()
        invariant
            i <= events@.len(),
            count <= i,
            count == note_count(events@.take(i as int)),
        decreases events@.len() - i,
    {
        assert(events@.take(i + 1).drop_last() =~= events@.take(i as int));
        if events[i].1 == 0x90 {
            count = count + 1;
        }
        i = i + 1;
    }
    assert(events@.take(i as int) =~= events@);
    count
}

/// Whether the pattern is shown.
pub fn pattern_shown<F>(pattern: &Option<PatternState<F>>) -> (r: bool)
    ensures
        r == shows_pattern(crate::tui::model::opt_view(*pattern)),
{
    match pattern {
        Some(p) => p.recording || p.events.len() > 0,
        None => false,
    }
}

fn build_modulator<F: Copy>(
    m: &ModulatorSlot<F>,
    kb: usize,
    split: usize,
    parent_slot: usize,
    index: usize,
    cont: &str,
) -> (entry: TreeEntry<F>)
    ensures
        entry@ == modulator_entry(m@, kb, split, parent_slot, index, cont@),
{
    let mut before = cont.to_owned();
    before.append(
        if index == 0 {
            "╰"
        } else {
            " "
        },
    );
    before.append(" ~ ");
    let address = TreeAddress::Modulator { kb, split, parent_slot, index };
    match m.source {
        ModSourceSlot::Lfo { waveform, rate } => {
            before.append("LFO ");
            let mut after = "Hz ".to_owned();
            after.append(waveform.name());
            TreeEntry {
                before,
                number: Some((rate, 1usize)),
                after,
                address,
                color: EntryColor::Magenta,
                indent: 3,
            }
        },
        ModSourceSlot::Envelope { .. } => {
            before.append("ADSR");
            TreeEntry {
                before,
                number: None,
                after: String::new(),
                address,
                color: EntryColor::Magenta,
                indent: 3,
            }
        },
    }
}

fn push_modulators<F: Copy>(
    entries: &mut Vec<TreeEntry<F>>,
    modulators: &Vec<ModulatorSlot<F>>,
    kb: usize,
    split: usize,
    parent_slot: usize,
    cont: &str,
)
    ensures
        views(final(entries)@) == views(old(entries)@) + modulator_entries(
            views(modulators@),
            kb,
            split,
            parent_slot,
            cont@,
        ),
{
    let ghost whole = modulator_entries(views(modulators@), kb, split, parent_slot, cont@);
    let mut i: usize = 0;
    while i < modulators.len()
        invariant
            i <= modulators@.len(),
            whole == modulator_entries(views(modulators@), kb, split, parent_slot, cont@),
            views(entries@) == views(old(entries)@) + whole.take(i as int),
        decreases modulators@.len() - i,
    {
        let entry = build_modulator(&modulators[i], kb, split, parent_slot, i, cont);
        let ghost so_far = views(entries@);
        assert(entry@ == whole[i as int]);
        entries.push(entry);
        assert(views(entries@) =~= so_far.push(whole[i as int]));
        assert(whole.take(i + 1) =~= whole.take(i as int).push(whole[i as int]));
        i = i + 1;
    }
    assert(whole.take(i as int) =~= whole);
}

fn push_plugin<F: Copy>(
    entries: &mut Vec<TreeEntry<F>>,
    plugin: &PluginSlot<F>,
    address: TreeAddress,
    kb: usize,
    split: usize,
    parent_slot: usize,
    cont: &str,
    last: bool,
)
    ensures
        views(final(entries)@) == views(old(entries)@) + plugin_entries(
            plugin@,
            address,
            kb,
            split,
            parent_slot,
            cont@,
            last,
        ),
{
    let effect: bool = match address {
        TreeAddress::Effect { .. } => true,
        _ => false,
    };
    let mut before = cont.to_owned();
    before.append(branch_text(last));
    before.append(
        if effect {
            " fx "
        } else {
            " ♪ "
        },
    );
    before.append(plugin.name.as_str());
    before.append("  [");
    before.append(plugin.format.as_str());
    before.append("]");
    let color = if effect {
        EntryColor::Yellow
    } else {
        EntryColor::Green
    };
    entries.push(TreeEntry { before, number: None, after: String::new(), address, color, indent: 2 });
    let mut below = cont.to_owned();
    below.append(continuation_text(last));
    push_modulators(entries, &plugin.modulators, kb, split, parent_slot, below.as_str());
}

fn push_effects<F: Copy>(
    entries: &mut Vec<TreeEntry<F>>,
    effects: &Vec<PluginSlot<F>>,
    kb: usize,
    split: usize,
    cont: &str,
)
    ensures
        views(final(entries)@) == views(old(entries)@) + effect_entries(
            views(effects@),
            kb,
            split,
            cont@,
            effects@.len() as int,
        ),
{
    let mut i: usize = 0;
    while i < effects.len()
        invariant
            i <= effects@.len(),
            views(entries@) == views(old(entries)@) + effect_entries(views(effects@), kb, split, cont@, i as int),
        decreases effects@.len() - i,
    {
        push_plugin(
            entries,
            &effects[i],
            TreeAddress::Effect { kb, split, index: i },
            kb,
            split,
            i + 1,
            cont,
            i + 1 == effects.len(),
        );
        i = i + 1;
    }
}

/// The name of a split: its range.
pub fn split_title(range: Option<(u8, u8)>) -> (name: String)
    ensures
        name@ == split_name(range),
{
    match range {
        Some(r) => format_range(r),
        None => "Full range".to_owned(),
    }
}

fn build_pattern<F: Copy>(p: &PatternState<F>, kb: usize, split: usize, cont: &str, last: bool) -> (entry: TreeEntry<F>)
    ensures
        entry@ == pattern_entry(p@, kb, split, cont@, last),
{
    let mut before = cont.to_owned();
    before.append(branch_text(last));
    let address = TreeAddress::Pattern { kb, split };
    if p.recording {
        before.append(" ⏺ Pattern  recording...");
        TreeEntry { before, number: None, after: String::new(), address, color: EntryColor::Red, indent: 2 }
    } else {
        before.append(" ▶ Pattern  ");
        let mut after = " beats, ".to_owned();
        push_decimal(&mut after, count_notes(&p.events) as u64);
        after.append(" notes");
        TreeEntry {
            before,
            number: Some((p.length_beats, 0usize)),
            after,
            address,
            color: EntryColor::Blue,
            indent: 2,
        }
    }
}

fn push_split<F: Copy>(entries: &mut Vec<TreeEntry<F>>, s: &SplitNode<F>, kb: usize, split: usize, last: bool)
    ensures
        views(final(entries)@) == views(old(entries)@) + split_entries(s@, kb, split, last),
{
    let cont = continuation_text(last);
    let mut before = branch_text(last).to_owned();
    before.append(" ");
    before.append(split_title(s.range).as_str());
    if s.transpose != 0 {
        before.append("  ");
        if s.transpose > 0 {
            before.append("+");
        }
        push_signed(&mut before, s.transpose as i64);
    }
    assert(before@ =~= branch(last) + " "@ + split_name(s.range) + transpose_text(s.transpose));
    entries.push(
        TreeEntry {
            before,
            number: None,
            after: String::new(),
            address: TreeAddress::Split { kb, split },
            color: EntryColor::White,
            indent: 1,
        },
    );
    let ghost header = views(entries@);
    if pattern_shown(&s.pattern) {
        if let Some(p) = &s.pattern {
            let entry = build_pattern(p, kb, split, cont, s.instrument.is_none() && s.effects.len() == 0);
            entries.push(entry);
        }
    }
    let ghost patterned = views(entries@);
    assert(patterned =~= header + (if shows_pattern(s@.pattern) {
        seq![pattern_entry(s@.pattern->0, kb, split, cont@, s@.instrument is None && s@.effects.len() == 0)]
    } else {
        Seq::empty()
    }));
    if let Some(p) = &s.instrument {
        push_plugin(
            entries,
            p,
            TreeAddress::Instrument { kb, split },
            kb,
            split,
            0,
            cont,
            s.effects.len() == 0,
        );
    }
    push_effects(entries, &s.effects, kb, split, cont);
}

/// The lines of the tree, top to bottom.
pub fn build_tree_entries<F: Copy>(keyboards: &Vec<KeyboardNode<F>>) -> (entries: Vec<TreeEntry<F>>)
    ensures
        views(entries@) == tree_entries(views(keyboards@), keyboards@.len() as int),
{
    let mut entries: Vec<TreeEntry<F>> = Vec::new();
    let mut i: usize = 0;
    while i < keyboards.len()
        invariant
            i <= keyboards@.len(),
            views(entries@) == tree_entries(views(keyboards@), i as int),
        decreases keyboards@.len() - i,
    {
        let k = &keyboards[i];
        let mut before = "⌨ ".to_owned();
        before.append(k.name.as_str());
        entries.push(
            TreeEntry {
                before,
                number: None,
                after: String::new(),
                address: TreeAddress::Keyboard(i),
                color: EntryColor::Cyan,
                indent: 0,
            },
        );
        let ghost base = views(entries@);
        let mut j: usize = 0;
        while j < k.splits.len()
            invariant
                j <= k.splits@.len(),
                views(entries@) == base + splits_entries(views(k.splits@), i, j as int),
            decreases k.splits@.len() - j,
        {
            push_split(&mut entries, &k.splits[j], i, j, j + 1 == k.splits.len());
            j = j + 1;
        }
        i = i + 1;
    }
    entries
}

// ---------------------------------------------------------------------------
// Plugin formats
// ---------------------------------------------------------------------------

/// The format of the plugin with this identifier.
pub open spec fn format_of(id: Seq<char>) -> Seq<char> {
    if "builtin:"@.is_prefix_of(id) {
        "Built-in"@
    } else if "lv2:"@.is_prefix_of(id) || "http://"@.is_prefix_of(id) || "urn:"@.is_prefix_of(id) {
        "LV2"@
    } else if "clap:"@.is_prefix_of(id) || (id.contains('.') && !id.contains('/')) {
        "CLAP"@
    } else if "vst3:"@.is_prefix_of(id) {
        "VST3"@
    } else if ".lv2"@.is_suffix_of(id) {
        "LV2"@
    } else if ".clap"@.is_suffix_of(id) {
        "CLAP"@
    } else if ".vst3"@.is_suffix_of(id) {
        "VST3"@
    } else {
        "?"@
    }
}

/// The format of the plugin with this identifier.
pub fn format_from_id(id: &str) -> (format: String)
    ensures
        format@ == format_of(id@),
{
    if starts_with(id, "builtin:") {
        "Built-in".to_owned()
    } else if starts_with(id, "lv2:") || starts_with(id, "http://") || starts_with(id, "urn:") {
        "LV2".to_owned()
    } else if starts_with(id, "clap:") || (has_char(id, '.') && !has_char(id, '/')) {
        "CLAP".to_owned()
    } else if starts_with(id, "vst3:") {
        "VST3".to_owned()
    } else if ends_with(id, ".lv2") {
        "LV2".to_owned()
    } else if ends_with(id, ".clap") {
        "CLAP".to_owned()
    } else if ends_with(id, ".vst3") {
        "VST3".to_owned()
    } else {
        "?".to_owned()
    }
}

// ---------------------------------------------------------------------------
// Actions
// ---------------------------------------------------------------------------

/// An action of the action bar: its key, and what it says.
#[derive(Clone, Copy, Debug)]
pub struct Action {
    pub key: char,
    pub label: &'static str,
}

/// The actions at a node, left to right.
pub open spec fn action_list(addr: Option<TreeAddress>) -> Seq<(char, Seq<char>)> {
    match addr {
        None => Seq::empty(),
        Some(TreeAddress::Keyboard(_)) => seq![('a', "add split"@)],
        Some(TreeAddress::Split { .. }) => seq![('a', "add instrument"@), ('r', "record"@), ('d', "delete"@)],
        Some(TreeAddress::Instrument { .. }) => seq![
            ('a', "add effect"@),
            ('m', "modulate"@),
            ('d', "delete"@),
            ('p', "presets"@),
        ],
        Some(TreeAddress::Effect { .. }) => seq![
            ('a', "add effect"@),
            ('m', "modulate"@),
            ('d', "delete"@),
            ('p', "presets"@),
        ],
        Some(TreeAddress::Pattern { .. }) => seq![('r', "record"@), ('d', "clear"@)],
        Some(TreeAddress::Modulator { .. }) => seq![('t', "add target"@), ('d', "delete"@)],
    }
}

impl View for Action {
    type V = (char, Seq<char>);

    open spec fn view(&self) -> (char, Seq<char>) {
        (self.key, self.label@)
    }
}

/// The actions at a node, left to right.
pub fn actions_for(addr: Option<TreeAddress>) -> (actions: Vec<Action>)
    ensures
        views(actions@) == action_list(addr),
{
    match addr {
        None => Vec::new(),
        Some(TreeAddress::Keyboard(_)) => vec![Action { key: 'a', label: "add split" }],
        Some(TreeAddress::Split { .. }) => vec![
            Action { key: 'a', label: "add instrument" },
            Action { key: 'r', label: "record" },
            Action { key: 'd', label: "delete" },
        ],
        Some(TreeAddress::Pattern { .. }) => vec![
            Action { key: 'r', label: "record" },
            Action { key: 'd', label: "clear" },
        ],
        Some(TreeAddress::Modulator { .. }) => vec![
            Action { key: 't', label: "add target" },
            Action { key: 'd', label: "delete" },
        ],
        _ => vec![
            Action { key: 'a', label: "add effect" },
            Action { key: 'm', label: "modulate" },
            Action { key: 'd', label: "delete" },
            Action { key: 'p', label: "presets" },
        ],
    }
}

/// The columns that an action takes: its key between blanks, and its label behind a blank.
pub open spec fn action_width(action: (char, Seq<char>)) -> int {
    1 + 2 + action.1.len() as int + 1
}

/// The column at which the action at `index` begins; a column is left free between two actions.
pub open spec fn action_start(actions: Seq<(char, Seq<char>)>, index: int) -> int
    decreases index,
{
    if index <= 0 {
        0
    } else {
        action_start(actions, index - 1) + action_width(actions[index - 1]) + 1
    }
}

/// Whether a column belongs to the action at `index`.
pub open spec fn hits(actions: Seq<(char, Seq<char>)>, index: int, column: int) -> bool {
    0 <= index < actions.len() && action_start(actions, index) <= column < action_start(actions, index)
        + action_width(actions[index])
}

/// The actions of one node all take few columns.
proof fn lemma_actions_are_short(addr: Option<TreeAddress>)
    ensures
        forall|i: int| 0 <= i < action_list(addr).len() ==> #[trigger] action_width(action_list(addr)[i]) <= 18,
        action_list(addr).len() <= 4,
{
    reveal_strlit("add split");
    reveal_strlit("add instrument");
    reveal_strlit("record");
    reveal_strlit("delete");
    reveal_strlit("add effect");
    reveal_strlit("modulate");
    reveal_strlit("presets");
    reveal_strlit("clear");
    reveal_strlit("add target");
}

/// The key of the action of `addr` at this column of the action bar.
pub fn action_at(addr: Option<TreeAddress>, column: u16) -> (key: Option<char>)
    ensures
        match key {
            Some(key) => exists|i: int|
                #![trigger action_list(addr)[i]]
                hits(action_list(addr), i, column as int) && key == action_list(addr)[i].0,
            None => forall|i: int| !#[trigger] hits(action_list(addr), i, column as int),
        },
{
    let actions = actions_for(addr);
    let ghost list = action_list(addr);
    proof {
        lemma_actions_are_short(addr);
    }
    let mut pos: usize = 0;
    let mut i: usize = 0;
    while i < actions.len()
        invariant
            i <= actions@.len() <= 4,
            views(actions@) == list,
            list == action_list(addr),
            forall|k: int| 0 <= k < list.len() ==> #[trigger] action_width(list[k]) <= 18,
            pos == action_start(list, i as int),
            pos <= 19 * i,
            forall|k: int| k < i ==> !#[trigger] hits(list, k, column as int),
        decreases actions@.len() - i,
    {
        let action = actions[i];
        assert(action@ == list[i as int]);
        assert(action_width(list[i as int]) <= 18);
        let total: usize = 1 + 2 + action.label.unicode_len() + 1;
        if column as usize >= pos && (column as usize) < pos + total {
            assert(hits(list, i as int, column as int));
            return Some(action.key);
        }
        pos = pos + total + 1;
        i = i + 1;
    }
    None
}

/// A rectangle of the screen.
#[derive(Clone, Copy, Debug, PartialEq, Eq, Structural)]
pub struct Area {
    pub x: u16,
    pub y: u16,
    pub width: u16,
    pub height: u16,
}

impl Area {
    /// The column behind the last one; it stops at the largest there is.
    pub open spec fn end(self) -> int {
        if self.x + self.width > u16::MAX {
            u16::MAX as int
        } else {
            self.x + self.width
        }
    }

    /// The column behind the last one; it stops at the largest there is.
    pub fn right(&self) -> (r: u16)
        ensures
            r == self.end(),
    {
        self.x.saturating_add(self.width)
    }
}

/// The key of the action of `addr` at a place on the screen.
pub fn action_bar_hit(x: u16, y: u16, area: Area, addr: Option<TreeAddress>) -> (key: Option<char>)
    ensures
        match key {
            Some(key) => y == area.y && area.x <= x < area.end() && exists|i: int|
                #![trigger action_list(addr)[i]]
                hits(action_list(addr), i, x - area.x) && key == action_list(addr)[i].0,
            None => y != area.y || x < area.x || x >= area.end() || forall|i: int|
                !#[trigger] hits(action_list(addr), i, x - area.x),
        },
{
    if y != area.y || x < area.x || x >= area.right() {
        return None;
    }
    action_at(addr, x - area.x)
}

// ---------------------------------------------------------------------------
// Laws
// ---------------------------------------------------------------------------

/// At most one action lies at a column.
pub proof fn actions_do_not_overlap(addr: Option<TreeAddress>, a: int, b: int, column: int)
    requires
        hits(action_list(addr), a, column),
        hits(action_list(addr), b, column),
    ensures
        a == b,
{
    if a < b {
        lemma_starts_grow(action_list(addr), a, b);
    } else if b < a {
        lemma_starts_grow(action_list(addr), b, a);
    }
}

proof fn lemma_starts_grow(actions: Seq<(char, Seq<char>)>, a: int, b: int)
    requires
        0 <= a < b,
    ensures
        action_start(actions, a) + action_width(actions[a]) < action_start(actions, b),
    decreases b - a,
{
    if a + 1 < b {
        lemma_starts_grow(actions, a, b - 1);
    }
}

} // verus!
