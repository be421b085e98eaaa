//! The plugins that can be loaded.
use vstd::prelude::*;

use crate::model::views;
use crate::plugin::PluginInfo;
use crate::text::{
    comes_before, comes_before_is_irreflexive, comes_before_is_transitive, decimal, is_before, lowercase, push_decimal,
    to_chars,
};
use crate::tui::editor::SelectorMode;
use crate::tui::tree::{format_from_id, format_of};

verus! {

/// Whether `order` lists every index of `infos` once, so that the names at them are in order by
/// their lowercase forms, and equal ones stay as they were.
pub open spec fn in_name_order(infos: Seq<PluginInfo>, order: Seq<int>) -> bool {
    &&& order.len() == infos.len()
    &&& order.no_duplicates()
    &&& forall|i: int| 0 <= i < order.len() ==> 0 <= #[trigger] order[i] < infos.len()
    &&& forall|i: int, j: int|
        #![trigger order[i], order[j]]
        0 <= i < j < order.len() ==> !comes_before(sort_key(infos[order[j]]), sort_key(infos[order[i]])) && (sort_key(
            infos[order[i]],
        ) == sort_key(infos[order[j]]) ==> order[i] < order[j])
}

/// What plugins are ordered by.
pub open spec fn sort_key(info: PluginInfo) -> Seq<char> {
    lowercase(info.name@)
}

/// The same plugins, ordered by name without regard to case; equal names stay as they were.
pub fn build_catalog(found: Vec<PluginInfo>) -> (catalog: Vec<PluginInfo>)
    ensures
        exists|order: Seq<int>| #[trigger]
            in_name_order(found@, order) && catalog@ == order.map_values(|i: int| found@[i]),
{
    let ghost whole = found@;
    let mut rest = crate::session::reversed(found);
    let mut catalog: Vec<PluginInfo> = Vec::new();
    let mut keys: Vec<Vec<char>> = Vec::new();
    let ghost mut order: Seq<int> = Seq::empty();
    let ghost mut done: int = 0;
    while rest.len() > 0
        invariant
            0 <= done,
            rest@.len() + done == whole.len(),
            forall|k: int| 0 <= k < rest@.len() ==> #[trigger] rest@[k] == whole[whole.len() - 1 - k],
            in_name_order(whole.take(done), order),
            catalog@ == order.map_values(|i: int| whole[i]),
            keys@.len() == order.len(),
            forall|k: int| 0 <= k < keys@.len() ==> (#[trigger] keys@[k])@ == sort_key(whole[order[k]]),
        decreases rest@.len(),
    {
        if let Some(info) = rest.pop() {
            assert(info == whole[done]);
            let key = to_chars(info.name.as_str().to_lowercase().as_str());
            let mut pos: usize = 0;
            while pos < keys.len() && !is_before(&key, &keys[pos])
                invariant
                    pos <= keys@.len(),
                    keys@.len() == order.len(),
                    forall|k: int| 0 <= k < keys@.len() ==> (#[trigger] keys@[k])@ == sort_key(whole[order[k]]),
                    forall|k: int| 0 <= k < pos ==> !comes_before(key@, sort_key(whole[#[trigger] order[k]])),
                decreases keys@.len() - pos,
            {
                assert(keys@[pos as int]@ == sort_key(whole[order[pos as int]]));
                pos = pos + 1;
            }
            let ghost before = order;
            proof {
                if pos < keys@.len() {
                    assert(keys@[pos as int]@ == sort_key(whole[order[pos as int]]));
                }
                lemma_insert(whole, done, order, pos as int);
                order = order.insert(pos as int, done);
            }
            assert(catalog@.insert(pos as int, info) =~= order.map_values(|i: int| whole[i]));
            catalog.insert(pos, info);
            keys.insert(pos, key);
            assert forall|k: int| 0 <= k < keys@.len() implies (#[trigger] keys@[k])@ == sort_key(whole[order[k]]) by {
                if k < pos {
                    assert(order[k] == before[k]);
                } else if k > pos {
                    assert(order[k] == before[k - 1]);
                }
            }
            proof {
                done = done + 1;
            }
        }
    }
    assert(whole.take(done) =~= whole);
    assert(in_name_order(whole, order));
    catalog
}

/// Putting the next plugin before the first one that it comes before keeps the order.
proof fn lemma_insert(whole: Seq<PluginInfo>, done: int, order: Seq<int>, pos: int)
    requires
        0 <= done < whole.len(),
        in_name_order(whole.take(done), order),
        0 <= pos <= order.len(),
        forall|k: int| 0 <= k < pos ==> !comes_before(sort_key(whole[done]), sort_key(whole[#[trigger] order[k]])),
        pos < order.len() ==> comes_before(sort_key(whole[done]), sort_key(whole[order[pos]])),
    ensures
        in_name_order(whole.take(done + 1), order.insert(pos, done)),
{
    let key = sort_key(whole[done]);
    let after = order.insert(pos, done);
    let taken = whole.take(done + 1);
    assert forall|k: int| 0 <= k < order.len() implies whole.take(done)[#[trigger] order[k]] == taken[order[k]]
        && order[k] < done by {};
    assert forall|k: int| pos <= k < order.len() implies comes_before(key, sort_key(taken[#[trigger] order[k]])) by {
        let at = sort_key(taken[order[pos]]);
        let here = sort_key(taken[order[k]]);
        if k > pos {
            crate::text::comes_before_is_total(at, here);
            if at != here {
                assert(!comes_before(here, at));
                comes_before_is_transitive(key, at, here);
            }
        }
    }
    assert forall|i: int, j: int|
        #![trigger after[i], after[j]]
        0 <= i < j < after.len() implies !comes_before(sort_key(taken[after[j]]), sort_key(taken[after[i]])) && (
    sort_key(taken[after[i]]) == sort_key(taken[after[j]]) ==> after[i] < after[j]) by {
        if j == pos {
            assert(after[i] == order[i]);
        } else if i == pos {
            assert(after[j] == order[j - 1]);
            let here = sort_key(taken[order[j - 1]]);
            assert(comes_before(key, here));
            if comes_before(here, key) {
                comes_before_is_transitive(key, here, key);
            }
            comes_before_is_irreflexive(key);
        } else {
            let i0 = if i < pos {
                i
            } else {
                i - 1
            };
            let j0 = if j < pos {
                j
            } else {
                j - 1
            };
            assert(after[i] == order[i0] && after[j] == order[j0]);
        }
    }
    assert(after.no_duplicates()) by {
        assert forall|i: int, j: int| 0 <= i < after.len() && 0 <= j < after.len() && i != j implies after[i]
            != after[j] by {
            let i0 = if i < pos {
                i
            } else {
                i - 1
            };
            let j0 = if j < pos {
                j
            } else {
                j - 1
            };
            if i == pos {
                assert(after[j] == order[j0]);
            } else if j == pos {
                assert(after[i] == order[i0]);
            } else {
                assert(after[i] == order[i0] && after[j] == order[j0]);
            }
        }
    }
    assert forall|i: int| 0 <= i < after.len() implies 0 <= #[trigger] after[i] < taken.len() by {
        if i < pos {
            assert(after[i] == order[i]);
        } else if i > pos {
            assert(after[i] == order[i - 1]);
        }
    }
}

// ---------------------------------------------------------------------------
// Selector
// ---------------------------------------------------------------------------

/// A line of the plugin selector: its cells, and the plugin's place in the catalog.
#[derive(Debug)]
pub struct SelectorItem {
    pub name: String,
    pub format: String,
    pub params: String,
    pub presets: String,
    pub index: usize,
}

/// The mathematical content of a [`SelectorItem`].
#[verifier::ext_equal]
pub struct SelectorItemView {
    pub name: Seq<char>,
    pub format: Seq<char>,
    pub params: Seq<char>,
    pub presets: Seq<char>,
    pub index: usize,
}

impl View for SelectorItem {
    type V = SelectorItemView;

    open spec fn view(&self) -> SelectorItemView {
        SelectorItemView {
            name: self.name@,
            format: self.format@,
            params: self.params@,
            presets: self.presets@,
            index: self.index,
        }
    }
}

/// The line of the plugin at `index`.
pub open spec fn selector_item(info: PluginInfo, index: usize) -> SelectorItemView {
    SelectorItemView {
        name: info.name@,
        format: format_of(info.id@),
        params: decimal(info.param_count as nat),
        presets: decimal(info.preset_count as nat),
        index,
    }
}

/// The lines for the instruments, or the effects, among the first `count` plugins.
pub open spec fn offered(catalog: Seq<PluginInfo>, mode: SelectorMode, count: int) -> Seq<SelectorItemView>
    decreases count,
{
    if count <= 0 {
        Seq::empty()
    } else {
        let rest = offered(catalog, mode, count - 1);
        let info = catalog[count - 1];
        if info.is_instrument == (mode == SelectorMode::Instrument) {
            rest.push(selector_item(info, (count - 1) as usize))
        } else {
            rest
        }
    }
}

/// The lines of the plugin selector.
pub fn selector_items(catalog: &Vec<PluginInfo>, mode: SelectorMode) -> (items: Vec<SelectorItem>)
    ensures
        views(items@) == offered(catalog@, mode, catalog@.len() as int),
{
    let mut items: Vec<SelectorItem> = Vec::new();
    let mut i: usize = 0;
    while i < catalog.len()
        invariant
            i <= catalog@.len(),
            views(items@) == offered(catalog@, mode, i as int),
        decreases catalog@.len() - i,
    {
        let info = &catalog[i];
        if info.is_instrument == (mode == SelectorMode::Instrument) {
            let mut params = String::new();
            push_decimal(&mut params, info.param_count as u64);
            let mut presets = String::new();
            push_decimal(&mut presets, info.preset_count as u64);
            let ghost so_far = views(items@);
            let item = SelectorItem {
                name: info.name.clone(),
                format: format_from_id(info.id.as_str()),
                params,
                presets,
                index: i,
            };
            assert(item@ =~= selector_item(*info, i));
            items.push(item);
            assert(views(items@) =~= so_far.push(selector_item(*info, i)));
        }
        i = i + 1;
    }
    items
}

} // verus!
