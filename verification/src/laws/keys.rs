//! Laws of the editor's keys: where they lead, what they open and what they take away.
use vstd::prelude::*;

use crate::graph::GraphCommand;
use crate::tui::editor::{EditorView, Effect, ModulatorPlace, Motion, SelectorMode};
use crate::tui::keys::{Key, Modifiers};
use crate::tui::model::{split_at, PatternStateView, SplitView, TreeAddress};
use crate::tui::popups::TargetEntry;
use crate::tui::rows::RowKindView;

verus! {

/// The arrows and pages move the cursor that has the focus: in the tree or in the parameter list.
/// On the help they scroll it, elsewhere they do nothing.
pub proof fn arrows_move_the_focused_cursor<P, F>(e: EditorView<F>, mods: Modifiers)
    requires
        !mods.shift,
        e.help_offset + 20 <= usize::MAX,
    ensures
        e.active_tab == 0 && !e.focus_params ==> {
            &&& e.keyed::<P>(Key::Up, mods) == (e, seq![Effect::<P, F>::MoveChain(Motion::Up)])
            &&& e.keyed::<P>(Key::Down, mods) == (e, seq![Effect::<P, F>::MoveChain(Motion::Down)])
            &&& e.keyed::<P>(Key::PageUp, mods) == (e, seq![Effect::<P, F>::MoveChain(Motion::PageUp)])
            &&& e.keyed::<P>(Key::PageDown, mods) == (e, seq![Effect::<P, F>::MoveChain(Motion::PageDown)])
        },
        e.active_tab == 0 && e.focus_params ==> {
            &&& e.keyed::<P>(Key::Up, mods) == (e, seq![Effect::<P, F>::MoveParams(Motion::Up)])
            &&& e.keyed::<P>(Key::Down, mods) == (e, seq![Effect::<P, F>::MoveParams(Motion::Down)])
            &&& e.keyed::<P>(Key::PageUp, mods) == (e, seq![Effect::<P, F>::MoveParams(Motion::PageUp)])
            &&& e.keyed::<P>(Key::PageDown, mods) == (e, seq![Effect::<P, F>::MoveParams(Motion::PageDown)])
        },
        e.active_tab == 3 ==> {
            &&& e.keyed::<P>(Key::Down, mods).0 == (EditorView { help_offset: (e.help_offset + 1) as usize, ..e })
            &&& e.keyed::<P>(Key::PageDown, mods).0 == (EditorView {
                help_offset: (e.help_offset + 20) as usize,
                ..e
            })
            &&& e.keyed::<P>(Key::Up, mods).0 == (EditorView {
                help_offset: if e.help_offset > 0 {
                    (e.help_offset - 1) as usize
                } else {
                    0
                },
                ..e
            })
            &&& e.keyed::<P>(Key::Down, mods).1.len() == 0
        },
        e.active_tab == 1 || e.active_tab == 2 ==> {
            &&& e.keyed::<P>(Key::Up, mods).0 == e && e.keyed::<P>(Key::Up, mods).1.len() == 0
            &&& e.keyed::<P>(Key::Down, mods).0 == e && e.keyed::<P>(Key::Down, mods).1.len() == 0
        },
{
}

/// Tab goes to the next of the four tabs and round, back-tab to the one before.
pub proof fn tabs_go_round<P, F>(e: EditorView<F>, mods: Modifiers)
    requires
        e.active_tab < 4,
    ensures
        e.keyed::<P>(Key::Tab, mods).0 == (EditorView {
            active_tab: if e.active_tab == 3 {
                0
            } else {
                (e.active_tab + 1) as usize
            },
            ..e
        }),
        e.keyed::<P>(Key::BackTab, mods).0 == (EditorView {
            active_tab: if e.active_tab == 0 {
                3
            } else {
                (e.active_tab - 1) as usize
            },
            ..e
        }),
{
}

/// From the tree enter leads into the parameters of what is selected, but for keyboards, which have
/// none. Escape leads back.
pub proof fn enter_and_escape_go_there_and_back<P, F>(e: EditorView<F>, mods: Modifiers)
    requires
        e.active_tab == 0,
        !e.focus_params,
        !e.param_filtering,
        e.selected() is Some,
    ensures
        e.selected() matches Some(TreeAddress::Keyboard(_)) ==> e.keyed::<P>(Key::Enter, mods).0 == e,
        !(e.selected() matches Some(TreeAddress::Keyboard(_))) ==> {
            let there = e.keyed::<P>(Key::Enter, mods).0;
            &&& there == (EditorView { focus_params: true, ..e })
            &&& e.param_filter.len() == 0 ==> there.keyed::<P>(Key::Esc, mods).0 == e
        },
        e.keyed::<P>(Key::Enter, mods).1.len() == 0,
{
}

/// In the parameters enter opens the value under the cursor, as it is shown: with its name, its
/// value and its range.
pub proof fn enter_opens_the_value_shown<P, F>(e: EditorView<F>, mods: Modifiers)
    requires
        e.active_tab == 0,
        e.focus_params,
        e.selected_modulator() is Some,
        e.param_selected < e.rows().len(),
    ensures
        ({
            let row = e.rows()[e.param_selected as int];
            let (after, effects) = e.keyed::<P>(Key::Enter, mods);
            &&& row.kind matches RowKindView::Value { value, min, max } ==> {
                &&& after.value_edit is Some
                &&& after.value_edit->0.name == row.name
                &&& after.value_edit->0.value == value
                &&& after.value_edit->0.min == min
                &&& after.value_edit->0.max == max
                &&& after == (EditorView { value_edit: after.value_edit, ..e })
                &&& effects == seq![Effect::<P, F>::OpenPopup]
            }
            &&& row.kind is Choice || row.kind is Separator ==> after == e && effects.len() == 0
        }),
{
}

/// In a plugin's parameters enter opens the parameter that the cursor stands for.
pub proof fn enter_opens_the_parameter_under_the_cursor<P, F>(e: EditorView<F>, mods: Modifiers)
    requires
        e.active_tab == 0,
        e.focus_params,
        e.selected() matches Some(addr) && addr.names_plugin(),
        e.selected_param() is Some,
    ensures
        ({
            let p = e.selected_param()->0;
            let (after, effects) = e.keyed::<P>(Key::Enter, mods);
            &&& after.value_edit is Some
            &&& after.value_edit->0.name == p.name@
            &&& after.value_edit->0.value == p.value
            &&& after.value_edit->0.min == p.min
            &&& after.value_edit->0.max == p.max
            &&& after == (EditorView { value_edit: after.value_edit, ..e })
            &&& effects == seq![Effect::<P, F>::OpenPopup]
        }),
{
}

/// The tempo's key opens the tempo that is set, from the tree only.
pub proof fn tempo_key_opens_the_tempo<P, F>(e: EditorView<F>, mods: Modifiers)
    requires
        e.active_tab == 0,
        !e.focus_params,
    ensures
        ({
            let (after, effects) = e.keyed::<P>(Key::Char('b'), mods);
            &&& after.bpm_edit is Some
            &&& after.bpm_edit->0.value == e.global_bpm
            &&& after.bpm_edit->0.min == e.numbers.bpm_min
            &&& after.bpm_edit->0.max == e.numbers.bpm_max
            &&& after == (EditorView { bpm_edit: after.bpm_edit, ..e })
            &&& effects == seq![Effect::<P, F>::OpenPopup]
        }),
{
}

/// The target's key opens the targets of the modulator that is selected, and of nothing else.
pub proof fn target_key_opens_the_targets<P, F>(e: EditorView<F>, kb: usize, split: usize, index: usize, mods: Modifiers)
    requires
        e.active_tab == 0,
        !e.focus_params,
        kb < e.keyboards.len(),
        split < e.keyboards[kb as int].splits.len(),
        e.keyboards[kb as int].splits[split as int].instrument is Some,
    ensures
        e.selected() == Some(TreeAddress::Modulator { kb, split, parent_slot: 0, index }) ==> e.keyed::<P>(
            Key::Char('t'),
            mods,
        ) == (
            EditorView { targets: Some(ModulatorPlace { kb, split, parent_slot: 0, mod_index: index }), ..e },
            seq![Effect::<P, F>::OpenPopup],
        ),
        !(e.selected() matches Some(TreeAddress::Modulator { .. })) ==> e.keyed::<P>(Key::Char('t'), mods).0 == e
            && e.keyed::<P>(Key::Char('t'), mods).1.len() == 0,
{
}

/// The replacing key opens the instruments wherever there is a split, and the splitting key asks for
/// a range on the keyboard of what is selected.
pub proof fn replacing_and_splitting_open_their_popups<P, F>(e: EditorView<F>, mods: Modifiers)
    requires
        e.active_tab == 0,
        !e.focus_params,
        !mods.control,
    ensures
        e.selected() matches Some(TreeAddress::Keyboard(kb)) ==> {
            &&& e.keyed::<P>(Key::Char('i'), mods).0 == e
            &&& e.keyed::<P>(Key::Char('s'), mods) == (
                EditorView { range_edit: Some(kb), ..e },
                seq![Effect::<P, F>::OpenPopup],
            )
        },
        e.selected() matches Some(TreeAddress::Split { kb, .. }) ==> {
            &&& e.keyed::<P>(Key::Char('i'), mods) == (
                EditorView { selector: Some(SelectorMode::Instrument), ..e },
                seq![Effect::<P, F>::OpenPopup],
            )
            &&& e.keyed::<P>(Key::Char('s'), mods) == (
                EditorView { range_edit: Some(kb), ..e },
                seq![Effect::<P, F>::OpenPopup],
            )
        },
        e.selected() matches Some(TreeAddress::Effect { kb, .. }) ==> {
            &&& e.keyed::<P>(Key::Char('i'), mods).0 == (EditorView { selector: Some(SelectorMode::Instrument), ..e })
            &&& e.keyed::<P>(Key::Char('s'), mods).0 == (EditorView { range_edit: Some(kb), ..e })
        },
        e.selected() is None ==> e.keyed::<P>(Key::Char('i'), mods).0 == e && e.keyed::<P>(Key::Char('s'), mods).0 == e,
{
}

/// Clearing takes the pattern of the selected split away, and nothing else, and tells the audio
/// graph so.
pub proof fn clearing_takes_the_pattern_away<P, F>(e: EditorView<F>, kb: usize, split: usize, mods: Modifiers)
    requires
        e.active_tab == 0,
        !e.focus_params,
        mods.control,
        e.selected() == Some(TreeAddress::Split { kb, split }) || e.selected() == Some(
            TreeAddress::Pattern { kb, split },
        ),
        kb < e.keyboards.len(),
        split < e.keyboards[kb as int].splits.len(),
    ensures
        ({
            let s = e.keyboards[kb as int].splits[split as int];
            let (after, effects) = e.keyed::<P>(Key::Char('r'), mods);
            let t = after.keyboards[kb as int].splits[split as int];
            &&& t == (SplitView { pattern: None, ..s })
            &&& s.pattern is Some ==> effects[0] == Effect::<P, F>::Send(GraphCommand::ClearPattern { kb, split })
            &&& s.pattern is None ==> after == e && effects.len() == 0
        }),
{
    let s = e.keyboards[kb as int].splits[split as int];
    assert(split_at(e.keyboards, kb, split) == Some(s));
    if s.pattern is None {
        assert(SplitView { pattern: None::<PatternStateView<F>>, ..s } == s);
    }
}

/// The filter is typed at plugins only, once the parameters have the focus.
pub proof fn slash_starts_the_filter<P, F>(e: EditorView<F>, mods: Modifiers)
    requires
        e.active_tab == 0,
        e.focus_params,
        !e.param_filtering,
    ensures
        (e.selected() matches Some(TreeAddress::Instrument { .. }) || e.selected() matches Some(
            TreeAddress::Effect { .. },
        )) ==> e.keyed::<P>(Key::Char('/'), mods).0 == (EditorView { param_filtering: true, ..e }),
        (e.selected() matches Some(TreeAddress::Split { .. }) || e.selected() matches Some(
            TreeAddress::Pattern { .. },
        ) || e.selected() matches Some(TreeAddress::Modulator { .. })) ==> e.keyed::<P>(Key::Char('/'), mods).0 == e,
        e.keyed::<P>(Key::Char('/'), mods).1.len() == 0,
{
}

/// Escape leaves the filter first and empties it; only then does it lead back to the tree.
pub proof fn escape_empties_the_filter_first<P, F>(e: EditorView<F>, mods: Modifiers)
    requires
        e.active_tab == 0,
        e.focus_params,
        e.param_filtering || e.param_filter.len() > 0,
    ensures
        ({
            let (after, effects) = e.keyed::<P>(Key::Esc, mods);
            &&& after.param_filter.len() == 0
            &&& !after.param_filtering
            &&& after.focus_params
            &&& after.keyboards == e.keyboards
            &&& effects[0] == Effect::<P, F>::ResetFilter
            &&& !after.keyed::<P>(Key::Esc, mods).0.focus_params
        }),
{
}

/// With shift an instrument moves to the neighbouring split and exchanges places with the one
/// there; the rest of both splits stays. At the edge nothing moves.
pub proof fn shifted_instruments_change_splits<P, F>(e: EditorView<F>, kb: usize, split: usize, down: bool)
    requires
        e.selected() == Some(TreeAddress::Instrument { kb, split }),
        kb < e.keyboards.len(),
        split < e.keyboards[kb as int].splits.len(),
        split < usize::MAX,
    ensures
        ({
            let splits = e.keyboards[kb as int].splits;
            let (after, effects) = e.shift_key::<P>(down);
            let to = if down {
                split + 1
            } else {
                split - 1
            };
            if 0 <= to < splits.len() {
                let moved = after.keyboards[kb as int].splits;
                &&& moved.len() == splits.len()
                &&& moved[to] == (SplitView { instrument: splits[split as int].instrument, ..splits[to] })
                &&& moved[split as int] == (SplitView { instrument: splits[to].instrument, ..splits[split as int] })
                &&& forall|i: int|
                    0 <= i < splits.len() && i != split && i != to ==> #[trigger] moved[i] == splits[i]
                &&& effects[0] == Effect::<P, F>::Send(
                    GraphCommand::SwapInstruments { kb, split_a: split, split_b: to as usize },
                )
                &&& effects.last() == Effect::<P, F>::Follow(TreeAddress::Instrument { kb, split: to as usize })
            } else {
                after == e && effects.len() == 0
            }
        }),
{
}

/// With shift a pattern moves to the neighbouring split and exchanges places with the one there;
/// the rest of both splits stays. At the edge nothing moves.
pub proof fn shifted_patterns_change_splits<P, F>(e: EditorView<F>, kb: usize, split: usize, down: bool)
    requires
        e.selected() == Some(TreeAddress::Pattern { kb, split }),
        kb < e.keyboards.len(),
        split < e.keyboards[kb as int].splits.len(),
        split < usize::MAX,
    ensures
        ({
            let splits = e.keyboards[kb as int].splits;
            let (after, effects) = e.shift_key::<P>(down);
            let to = if down {
                split + 1
            } else {
                split - 1
            };
            if 0 <= to < splits.len() {
                let moved = after.keyboards[kb as int].splits;
                &&& moved.len() == splits.len()
                &&& moved[to] == (SplitView { pattern: splits[split as int].pattern, ..splits[to] })
                &&& moved[split as int] == (SplitView { pattern: splits[to].pattern, ..splits[split as int] })
                &&& forall|i: int|
                    0 <= i < splits.len() && i != split && i != to ==> #[trigger] moved[i] == splits[i]
                &&& effects[0] == Effect::<P, F>::Send(
                    GraphCommand::SwapPatterns { kb, split_a: split, split_b: to as usize },
                )
                &&& effects.last() == Effect::<P, F>::Follow(TreeAddress::Pattern { kb, split: to as usize })
            } else {
                after == e && effects.len() == 0
            }
        }),
{
}

/// Shift and an arrow move what is selected in that arrow's direction.
pub proof fn shifted_arrows_move_the_selected<P, F>(e: EditorView<F>, mods: Modifiers)
    requires
        e.active_tab == 0,
        !e.focus_params,
        mods.shift,
    ensures
        e.keyed::<P>(Key::Up, mods) == e.shift_key::<P>(false),
        e.keyed::<P>(Key::Down, mods) == e.shift_key::<P>(true),
{
}

/// Whatever changes the keyboards leaves the session to be saved, and nothing but saving takes that
/// back.
pub proof fn changed_sessions_are_to_be_saved<P, F>(e: EditorView<F>, key: Key, mods: Modifiers)
    ensures
        e.keyed::<P>(key, mods).0.keyboards != e.keyboards ==> e.keyed::<P>(key, mods).0.dirty,
        e.dirty ==> e.keyed::<P>(key, mods).0.dirty,
{
}

/// So do values that are adjusted or typed.
pub proof fn changed_values_are_to_be_saved<P, F>(e: EditorView<F>, up: bool, coarse: bool, value: F, semitones: i8)
    ensures
        e.adjusted::<P>(up, coarse, value).0.keyboards != e.keyboards ==> e.adjusted::<P>(up, coarse, value).0.dirty,
        e.assigned::<P>(value, semitones).0.keyboards != e.keyboards ==> e.assigned::<P>(value, semitones).0.dirty,
        e.dirty ==> e.adjusted::<P>(up, coarse, value).0.dirty && e.assigned::<P>(value, semitones).0.dirty,
{
}

/// And so do new splits and new targets.
pub proof fn confirmed_changes_are_to_be_saved<P, F>(e: EditorView<F>, text: Seq<char>, chosen: Option<TargetEntry<F>>)
    ensures
        e.range_confirmed::<P>(text).0.keyboards != e.keyboards ==> e.range_confirmed::<P>(text).0.dirty,
        e.target_confirmed::<P>(chosen).0.keyboards != e.keyboards ==> e.target_confirmed::<P>(chosen).0.dirty,
        e.dirty ==> e.range_confirmed::<P>(text).0.dirty && e.target_confirmed::<P>(chosen).0.dirty,
{
}

} // verus!
