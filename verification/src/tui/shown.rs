//! What the tree shows of the keyboards, and what it does not depend on.
use vstd::prelude::*;

use crate::tui::editor::EditorView;
use crate::tui::model::{
    modulator_in, plugin_in, split_at, with_modulator, with_plugin, with_split, KeyboardView, ModSlotView, ParamSlot,
    PatternStateView, PluginView, SplitView, TreeAddress,
};
use crate::tui::params::ModRow;
use crate::tui::popups::{keyboards_at, split_at_tempo};
use crate::tui::tree::{
    continuation, effect_entries, modulator_entries, modulator_entry, plugin_entries, split_entries, splits_entries,
    tree_entries,
};

verus! {

/// The tree shows two modulators alike: oscillators are the same, envelopes all look the same.
pub open spec fn modulators_alike<F>(a: ModSlotView<F>, b: ModSlotView<F>) -> bool {
    a.source == b.source || (a.source is Envelope && b.source is Envelope)
}

/// The tree shows two plugins alike.
pub open spec fn plugins_alike<F>(a: PluginView<F>, b: PluginView<F>) -> bool {
    &&& a.name == b.name
    &&& a.format == b.format
    &&& a.modulators.len() == b.modulators.len()
    &&& forall|i: int|
        0 <= i < a.modulators.len() ==> modulators_alike(#[trigger] a.modulators[i], b.modulators[i])
}

/// The tree shows two patterns alike.
pub open spec fn patterns_alike<F>(a: Option<PatternStateView<F>>, b: Option<PatternStateView<F>>) -> bool {
    match (a, b) {
        (Some(a), Some(b)) => a.recording == b.recording && a.length_beats == b.length_beats && a.events == b.events,
        (None, None) => true,
        _ => false,
    }
}

/// The tree shows two splits alike.
pub open spec fn splits_alike<F>(a: SplitView<F>, b: SplitView<F>) -> bool {
    &&& a.range == b.range
    &&& a.transpose == b.transpose
    &&& patterns_alike(a.pattern, b.pattern)
    &&& match (a.instrument, b.instrument) {
        (Some(p), Some(q)) => plugins_alike(p, q),
        (None, None) => true,
        _ => false,
    }
    &&& a.effects.len() == b.effects.len()
    &&& forall|i: int| 0 <= i < a.effects.len() ==> plugins_alike(#[trigger] a.effects[i], b.effects[i])
}

/// The tree shows two keyboards alike.
pub open spec fn keyboards_alike<F>(a: KeyboardView<F>, b: KeyboardView<F>) -> bool {
    &&& a.name == b.name
    &&& a.splits.len() == b.splits.len()
    &&& forall|i: int| 0 <= i < a.splits.len() ==> splits_alike(#[trigger] a.splits[i], b.splits[i])
}

/// The tree shows two lists of keyboards alike.
pub open spec fn alike<F>(a: Seq<KeyboardView<F>>, b: Seq<KeyboardView<F>>) -> bool {
    &&& a.len() == b.len()
    &&& forall|i: int| 0 <= i < a.len() ==> keyboards_alike(#[trigger] a[i], b[i])
}

proof fn lemma_plugin<F>(
    a: PluginView<F>,
    b: PluginView<F>,
    address: TreeAddress,
    kb: usize,
    split: usize,
    slot: usize,
    cont: Seq<char>,
    last: bool,
)
    requires
        plugins_alike(a, b),
    ensures
        plugin_entries(a, address, kb, split, slot, cont, last) == plugin_entries(
            b,
            address,
            kb,
            split,
            slot,
            cont,
            last,
        ),
{
    let below = cont + continuation(last);
    assert forall|i: int| 0 <= i < a.modulators.len() implies modulator_entry(
        #[trigger] a.modulators[i],
        kb,
        split,
        slot,
        i as usize,
        below,
    ) == modulator_entry(b.modulators[i], kb, split, slot, i as usize, below) by {
        assert(modulators_alike(a.modulators[i], b.modulators[i]));
    }
    assert(modulator_entries(a.modulators, kb, split, slot, below) =~= modulator_entries(
        b.modulators,
        kb,
        split,
        slot,
        below,
    ));
}

proof fn lemma_effects<F>(
    a: Seq<PluginView<F>>,
    b: Seq<PluginView<F>>,
    kb: usize,
    split: usize,
    cont: Seq<char>,
    count: int,
)
    requires
        a.len() == b.len(),
        count <= a.len(),
        forall|i: int| 0 <= i < a.len() ==> plugins_alike(#[trigger] a[i], b[i]),
    ensures
        effect_entries(a, kb, split, cont, count) == effect_entries(b, kb, split, cont, count),
    decreases count,
{
    if count > 0 {
        lemma_effects(a, b, kb, split, cont, count - 1);
        lemma_plugin(
            a[count - 1],
            b[count - 1],
            TreeAddress::Effect { kb, split, index: (count - 1) as usize },
            kb,
            split,
            count as usize,
            cont,
            count == a.len(),
        );
    }
}

proof fn lemma_split<F>(a: SplitView<F>, b: SplitView<F>, kb: usize, split: usize, last: bool)
    requires
        splits_alike(a, b),
    ensures
        split_entries(a, kb, split, last) == split_entries(b, kb, split, last),
{
    let cont = continuation(last);
    lemma_effects(a.effects, b.effects, kb, split, cont, a.effects.len() as int);
    if let (Some(p), Some(q)) = (a.instrument, b.instrument) {
        lemma_plugin(
            p,
            q,
            TreeAddress::Instrument { kb, split },
            kb,
            split,
            0,
            cont,
            a.effects.len() == 0,
        );
    }
}

proof fn lemma_splits<F>(a: Seq<SplitView<F>>, b: Seq<SplitView<F>>, kb: usize, count: int)
    requires
        a.len() == b.len(),
        count <= a.len(),
        forall|i: int| 0 <= i < a.len() ==> splits_alike(#[trigger] a[i], b[i]),
    ensures
        splits_entries(a, kb, count) == splits_entries(b, kb, count),
    decreases count,
{
    if count > 0 {
        lemma_splits(a, b, kb, count - 1);
        lemma_split(a[count - 1], b[count - 1], kb, (count - 1) as usize, count == a.len());
    }
}

proof fn lemma_tree<F>(a: Seq<KeyboardView<F>>, b: Seq<KeyboardView<F>>, count: int)
    requires
        alike(a, b),
        count <= a.len(),
    ensures
        tree_entries(a, count) == tree_entries(b, count),
    decreases count,
{
    if count > 0 {
        lemma_tree(a, b, count - 1);
        assert(keyboards_alike(a[count - 1], b[count - 1]));
        lemma_splits(
            a[count - 1].splits,
            b[count - 1].splits,
            (count - 1) as usize,
            a[count - 1].splits.len() as int,
        );
    }
}

/// The tree depends on nothing but names, ranges, transpositions, the length and the events of
/// patterns, and the oscillators.
pub proof fn tree_shows_only_looks<F>(a: Seq<KeyboardView<F>>, b: Seq<KeyboardView<F>>)
    requires
        alike(a, b),
    ensures
        tree_entries(a, a.len() as int) == tree_entries(b, b.len() as int),
{
    lemma_tree(a, b, a.len() as int);
}

/// Replacing a split by one that looks alike leaves the tree as it was.
proof fn lemma_with_split<F>(kbs: Seq<KeyboardView<F>>, kb: usize, split: usize, s: SplitView<F>)
    requires
        split_at(kbs, kb, split) matches Some(old_s) && splits_alike(old_s, s),
    ensures
        alike(kbs, with_split(kbs, kb, split, s)),
{
    let after = with_split(kbs, kb, split, s);
    assert forall|i: int| 0 <= i < kbs.len() implies keyboards_alike(#[trigger] kbs[i], after[i]) by {
        assert forall|j: int| 0 <= j < kbs[i].splits.len() implies splits_alike(
            #[trigger] kbs[i].splits[j],
            after[i].splits[j],
        ) by {
            lemma_reflexive(kbs[i].splits[j]);
        }
    }
}

proof fn lemma_reflexive<F>(s: SplitView<F>)
    ensures
        splits_alike(s, s),
{
}

/// Replacing a plugin by one that looks alike leaves the tree as it was.
proof fn lemma_with_plugin<F>(kbs: Seq<KeyboardView<F>>, kb: usize, split: usize, slot: int, p: PluginView<F>)
    requires
        0 <= slot,
        plugin_in(kbs, kb, split, slot) matches Some(old_p) && plugins_alike(old_p, p),
    ensures
        alike(kbs, with_plugin(kbs, kb, split, slot, p)),
{
    let s = split_at(kbs, kb, split)->0;
    lemma_reflexive(s);
    lemma_with_split(kbs, kb, split, s.with_plugin(slot, p));
}

/// However the selected parameter is adjusted, the tree shows the keyboards as they are afterwards.
pub proof fn adjusting_keeps_wf<P, F>(e: EditorView<F>, up: bool, coarse: bool, value: F)
    requires
        e.wf(),
    ensures
        e.adjusted::<P>(up, coarse, value).0.wf(),
{
    match e.selected() {
        Some(TreeAddress::Modulator { kb, split, parent_slot, index }) => {
            if let Some(m) = e.selected_modulator() {
                lemma_modulator_set::<P, F>(e, kb, split, parent_slot, index, m.row(e.param_selected), value);
            }
        },
        Some(TreeAddress::Pattern { kb, split }) => {
            lemma_pattern::<P, F>(e, kb, split, value);
        },
        Some(addr) if addr.names_plugin() => {
            lemma_param_set::<P, F>(e, value);
        },
        _ => {},
    }
}

/// However the selected parameter is set, the tree shows the keyboards as they are afterwards.
pub proof fn setting_keeps_wf<P, F>(e: EditorView<F>, value: F, semitones: i8)
    requires
        e.wf(),
    ensures
        e.assigned::<P>(value, semitones).0.wf(),
{
    match e.selected() {
        Some(TreeAddress::Modulator { kb, split, parent_slot, index }) => {
            if let Some(m) = e.selected_modulator() {
                lemma_modulator_set::<P, F>(e, kb, split, parent_slot, index, m.row(e.param_selected), value);
            }
        },
        Some(addr) if addr.names_plugin() => {
            lemma_param_set::<P, F>(e, value);
        },
        _ => {},
    }
}

/// At whatever tempo, the tree shows the keyboards as they are.
pub proof fn tempo_keeps_wf<P, F>(e: EditorView<F>, bpm: Option<F>)
    requires
        e.wf(),
    ensures
        e.bpm_confirmed::<P>(bpm).0.wf(),
{
    if let Some(bpm) = bpm {
        let after = keyboards_at(e.keyboards, bpm);
        assert forall|i: int| 0 <= i < e.keyboards.len() implies keyboards_alike(
            #[trigger] e.keyboards[i],
            after[i],
        ) by {
            assert forall|j: int| 0 <= j < e.keyboards[i].splits.len() implies splits_alike(
                #[trigger] e.keyboards[i].splits[j],
                after[i].splits[j],
            ) by {
                lemma_reflexive(e.keyboards[i].splits[j]);
                assert(after[i].splits[j] == split_at_tempo(e.keyboards[i].splits[j], bpm));
            }
        }
        tree_shows_only_looks(e.keyboards, after);
    }
}

proof fn lemma_param_set<P, F>(e: EditorView<F>, value: F)
    requires
        e.wf(),
    ensures
        e.param_set::<P>(value).0.wf(),
{
    if let (Some(addr), Some(param)) = (e.selected(), e.selected_param()) {
        let (kb, split) = addr.place()->0;
        let p = e.selected_plugin()->0;
        let pa = e.real_row()->0;
        let q = PluginView { params: p.params.update(pa as int, ParamSlot { value, ..param }), ..p };
        lemma_with_plugin(e.keyboards, kb, split, addr.audio_slot(), q);
        tree_shows_only_looks(e.keyboards, with_plugin(e.keyboards, kb, split, addr.audio_slot(), q));
    }
}

proof fn lemma_modulator_set<P, F>(
    e: EditorView<F>,
    kb: usize,
    split: usize,
    parent_slot: usize,
    index: usize,
    row: ModRow,
    value: F,
)
    requires
        e.wf(),
        modulator_in(e.keyboards, kb, split, parent_slot as int, index) is Some,
    ensures
        e.modulator_set::<P>(kb, split, parent_slot, index, row, value).0.wf(),
{
    let m = modulator_in(e.keyboards, kb, split, parent_slot as int, index)->0;
    let after = m.with_value(row, value);
    if modulators_alike(m, after) {
        let p = plugin_in(e.keyboards, kb, split, parent_slot as int)->0;
        let q = PluginView { modulators: p.modulators.update(index as int, after), ..p };
        lemma_with_plugin(e.keyboards, kb, split, parent_slot as int, q);
        tree_shows_only_looks(e.keyboards, with_modulator(e.keyboards, kb, split, parent_slot as int, index, after));
    }
}

proof fn lemma_pattern<P, F>(e: EditorView<F>, kb: usize, split: usize, value: F)
    requires
        e.wf(),
    ensures
        e.pattern_adjusted::<P>(kb, split, value).0.wf(),
{
    if let Some(s) = split_at(e.keyboards, kb, split) {
        if let Some(p) = s.pattern {
            let after = SplitView { pattern: Some(PatternStateView { looping: !p.looping, ..p }), ..s };
            lemma_reflexive(s);
            lemma_with_split(e.keyboards, kb, split, after);
            tree_shows_only_looks(e.keyboards, with_split(e.keyboards, kb, split, after));
        }
    }
}

} // verus!
