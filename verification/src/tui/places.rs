//! The tree shows every node of the keyboards, and nothing else.
use vstd::prelude::*;

use crate::tui::editor::EditorView;
use crate::tui::mirror::fits;
use crate::tui::model::{split_at, KeyboardView, ModSlotView, PluginView, SplitView, TreeAddress};
use crate::tui::tree::{
    continuation, effect_entries, modulator_entries, modulator_entry, pattern_entry, plugin_entries, shows_pattern,
    split_entries, splits_entries, tree_entries, EntryView,
};

verus! {

/// Whether a line stands for this node.
pub open spec fn shows<F>(entries: Seq<EntryView<F>>, addr: TreeAddress) -> bool {
    exists|i: int| 0 <= i < entries.len() && (#[trigger] entries[i]).address == addr
}

/// Whether a split has this node, which is one of split `split` of keyboard `kb`.
pub open spec fn in_split<F>(s: SplitView<F>, kb: usize, split: usize, addr: TreeAddress) -> bool {
    &&& addr.place() == Some((kb, split))
    &&& match addr {
        TreeAddress::Keyboard(_) => false,
        TreeAddress::Split { .. } => true,
        TreeAddress::Pattern { .. } => shows_pattern(s.pattern),
        TreeAddress::Instrument { .. } => s.instrument is Some,
        TreeAddress::Effect { index, .. } => index < s.effects.len(),
        TreeAddress::Modulator { parent_slot, index, .. } => s.plugin(parent_slot as int) matches Some(p) && index
            < p.modulators.len(),
    }
}

/// Whether the keyboards have this node. A pattern counts where it is worth showing.
pub open spec fn is_there<F>(kbs: Seq<KeyboardView<F>>, addr: TreeAddress) -> bool {
    match addr {
        TreeAddress::Keyboard(kb) => kb < kbs.len(),
        _ => {
            let (kb, split) = addr.place()->0;
            split_at(kbs, kb, split) matches Some(s) && in_split(s, kb, split, addr)
        },
    }
}

proof fn lemma_both<F>(a: Seq<EntryView<F>>, b: Seq<EntryView<F>>, addr: TreeAddress)
    ensures
        shows(a + b, addr) == (shows(a, addr) || shows(b, addr)),
{
    let both = a + b;
    if shows(a, addr) {
        let i = choose|i: int| 0 <= i < a.len() && (#[trigger] a[i]).address == addr;
        assert(both[i] == a[i]);
    }
    if shows(b, addr) {
        let i = choose|i: int| 0 <= i < b.len() && (#[trigger] b[i]).address == addr;
        assert(both[a.len() + i] == b[i]);
    }
    if shows(both, addr) {
        let i = choose|i: int| 0 <= i < both.len() && (#[trigger] both[i]).address == addr;
        if i < a.len() {
            assert(a[i] == both[i]);
        } else {
            assert(b[i - a.len()] == both[i]);
        }
    }
}

proof fn lemma_single<F>(entry: EntryView<F>, addr: TreeAddress)
    ensures
        shows(seq![entry], addr) == (entry.address == addr),
{
    assert(seq![entry][0] == entry);
}

proof fn lemma_modulators<F>(
    mods: Seq<ModSlotView<F>>,
    kb: usize,
    split: usize,
    parent_slot: usize,
    cont: Seq<char>,
    addr: TreeAddress,
)
    requires
        mods.len() <= usize::MAX,
    ensures
        shows(modulator_entries(mods, kb, split, parent_slot, cont), addr) == (addr matches TreeAddress::Modulator {
            kb: k,
            split: s,
            parent_slot: p,
            index,
        } && (k, s, p) == (kb, split, parent_slot) && index < mods.len()),
{
    let entries = modulator_entries(mods, kb, split, parent_slot, cont);
    if let TreeAddress::Modulator { kb: k, split: s, parent_slot: p, index } = addr {
        if (k, s, p) == (kb, split, parent_slot) && index < mods.len() {
            assert(entries[index as int] == modulator_entry(
                mods[index as int],
                kb,
                split,
                parent_slot,
                index,
                cont,
            ));
        }
    }
}

proof fn lemma_plugin<F>(
    plugin: PluginView<F>,
    address: TreeAddress,
    kb: usize,
    split: usize,
    parent_slot: usize,
    cont: Seq<char>,
    last: bool,
    addr: TreeAddress,
)
    requires
        plugin.modulators.len() <= usize::MAX,
    ensures
        shows(plugin_entries(plugin, address, kb, split, parent_slot, cont, last), addr) == (addr == address || (
        addr matches TreeAddress::Modulator { kb: k, split: s, parent_slot: p, index } && (k, s, p) == (
            kb,
            split,
            parent_slot,
        ) && index < plugin.modulators.len())),
{
    let entries = plugin_entries(plugin, address, kb, split, parent_slot, cont, last);
    let below = modulator_entries(plugin.modulators, kb, split, parent_slot, cont + continuation(last));
    assert(entries == seq![entries[0]] + below);
    lemma_modulators(
        plugin.modulators,
        kb,
        split,
        parent_slot,
        cont + continuation(last),
        addr,
    );
    lemma_single(entries[0], addr);
    lemma_both(seq![entries[0]], below, addr);
}

proof fn lemma_effects<F>(
    effects: Seq<PluginView<F>>,
    kb: usize,
    split: usize,
    cont: Seq<char>,
    count: int,
    addr: TreeAddress,
)
    requires
        0 <= count <= effects.len() < usize::MAX,
        forall|i: int| 0 <= i < effects.len() ==> (#[trigger] effects[i]).modulators.len() <= usize::MAX,
    ensures
        shows(effect_entries(effects, kb, split, cont, count), addr) == (match addr {
            TreeAddress::Effect { kb: k, split: s, index } => (k, s) == (kb, split) && index < count,
            TreeAddress::Modulator { kb: k, split: s, parent_slot, index } => (k, s) == (kb, split) && 0 < parent_slot
                <= count && index < effects[parent_slot - 1].modulators.len(),
            _ => false,
        }),
    decreases count,
{
    if count > 0 {
        let address = TreeAddress::Effect { kb, split, index: (count - 1) as usize };
        let above = effect_entries(effects, kb, split, cont, count - 1);
        let last = count == effects.len();
        let below = plugin_entries(effects[count - 1], address, kb, split, count as usize, cont, last);
        lemma_effects(effects, kb, split, cont, count - 1, addr);
        lemma_plugin(effects[count - 1], address, kb, split, count as usize, cont, last, addr);
        lemma_both(above, below, addr);
    }
}

proof fn lemma_split<F>(s: SplitView<F>, kb: usize, split: usize, last: bool, addr: TreeAddress)
    requires
        s.effects.len() < usize::MAX,
        forall|slot: int| (#[trigger] s.plugin(slot)) matches Some(p) ==> p.modulators.len() <= usize::MAX,
    ensures
        shows(split_entries(s, kb, split, last), addr) == in_split(s, kb, split, addr),
{
    let cont = continuation(last);
    let entries = split_entries(s, kb, split, last);
    let own = seq![entries[0]];
    let pattern = if shows_pattern(s.pattern) {
        seq![
            pattern_entry(
                s.pattern->0,
                kb,
                split,
                cont,
                s.instrument is None && s.effects.len() == 0,
            ),
        ]
    } else {
        Seq::empty()
    };
    let address = TreeAddress::Instrument { kb, split };
    let instrument = match s.instrument {
        Some(p) => plugin_entries(p, address, kb, split, 0, cont, s.effects.len() == 0),
        None => Seq::empty(),
    };
    let effects = effect_entries(s.effects, kb, split, cont, s.effects.len() as int);
    assert(entries == own + pattern + instrument + effects);
    lemma_both(own + pattern + instrument, effects, addr);
    lemma_both(own + pattern, instrument, addr);
    lemma_both(own, pattern, addr);
    lemma_single(entries[0], addr);
    if shows_pattern(s.pattern) {
        lemma_single(pattern[0], addr);
        assert(pattern =~= seq![pattern[0]]);
    }
    if let Some(p) = s.instrument {
        assert(s.plugin(0) == Some(p));
        lemma_plugin(p, address, kb, split, 0, cont, s.effects.len() == 0, addr);
    }
    assert forall|i: int| 0 <= i < s.effects.len() implies (#[trigger] s.effects[i]).modulators.len() <= usize::MAX by {
        assert(s.plugin(i + 1) == Some(s.effects[i]));
    }
    lemma_effects(s.effects, kb, split, cont, s.effects.len() as int, addr);
}

proof fn lemma_splits<F>(splits: Seq<SplitView<F>>, kb: usize, count: int, addr: TreeAddress)
    requires
        0 <= count <= splits.len() <= usize::MAX,
        forall|i: int|
            0 <= i < splits.len() ==> (#[trigger] splits[i]).effects.len() < usize::MAX && (forall|slot: int|
                (#[trigger] splits[i].plugin(slot)) matches Some(p) ==> p.modulators.len() <= usize::MAX),
    ensures
        shows(splits_entries(splits, kb, count), addr) == (addr.place() matches Some((k, split)) && k == kb && split
            < count && in_split(splits[split as int], kb, split, addr)),
    decreases count,
{
    if count > 0 {
        let above = splits_entries(splits, kb, count - 1);
        let last = count == splits.len();
        let below = split_entries(splits[count - 1], kb, (count - 1) as usize, last);
        lemma_splits(splits, kb, count - 1, addr);
        lemma_split(splits[count - 1], kb, (count - 1) as usize, last, addr);
        lemma_both(above, below, addr);
    }
}

proof fn lemma_keyboards<F>(kbs: Seq<KeyboardView<F>>, count: int, addr: TreeAddress)
    requires
        0 <= count <= kbs.len() <= usize::MAX,
        fits(kbs),
    ensures
        shows(tree_entries(kbs, count), addr) == (is_there(kbs, addr) && (match addr {
            TreeAddress::Keyboard(kb) => kb < count,
            _ => (addr.place()->0).0 < count,
        })),
    decreases count,
{
    if count > 0 {
        let k = kbs[count - 1];
        let kb = (count - 1) as usize;
        let above = tree_entries(kbs, count - 1);
        let below = splits_entries(k.splits, kb, k.splits.len() as int);
        let entries = tree_entries(kbs, count);
        let own = seq![entries[above.len() as int]];
        assert(entries == above + own + below);
        lemma_both(above + own, below, addr);
        lemma_both(above, own, addr);
        lemma_single(own[0], addr);
        lemma_keyboards(kbs, count - 1, addr);
        assert forall|i: int| 0 <= i < k.splits.len() implies (#[trigger] k.splits[i]).effects.len() < usize::MAX && (
        forall|slot: int| (#[trigger] k.splits[i].plugin(slot)) matches Some(p) ==> p.modulators.len() <= usize::MAX) by {
            assert(split_at(kbs, kb, i as usize) == Some(k.splits[i]));
        }
        lemma_splits(k.splits, kb, k.splits.len() as int, addr);
    }
}

/// The tree has a line for each node of the keyboards and for nothing else.
pub proof fn tree_shows_what_is_there<F>(e: EditorView<F>, addr: TreeAddress)
    requires
        e.wf(),
        e.keyboards.len() <= usize::MAX,
        fits(e.keyboards),
    ensures
        shows(e.tree, addr) == is_there(e.keyboards, addr),
{
    lemma_keyboards(e.keyboards, e.keyboards.len() as int, addr);
}

/// What is selected is there.
pub proof fn selected_is_there<F>(e: EditorView<F>)
    requires
        e.wf(),
        e.keyboards.len() <= usize::MAX,
        fits(e.keyboards),
    ensures
        e.selected() matches Some(addr) ==> is_there(e.keyboards, addr),
{
    if let Some(addr) = e.selected() {
        tree_shows_what_is_there(e, addr);
        assert(e.tree[e.chain_selected as int].address == addr);
    }
}

} // verus!
