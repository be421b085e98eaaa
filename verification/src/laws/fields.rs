//! Laws of the parameter list's bounds and of the keys in popups.
use vstd::prelude::*;

use crate::tui::editor::EditorView;
use crate::tui::keys::Key;
use crate::tui::model::TreeAddress;
use crate::tui::popups::{filter_action, list_action, text_action, FieldAction};
use crate::tui::rows::RowKindView;

verus! {

/// The cursor moves over as many rows as are shown, while nothing is filtered out.
pub proof fn cursor_moves_over_the_rows_shown<F>(e: EditorView<F>)
    requires
        e.selected() is Some,
        e.param_filter.len() == 0,
        e.param_filtered.len() == 0,
        e.rows().len() <= usize::MAX,
    ensures
        e.row_count() == Some(e.rows().len() as usize),
{
}

/// The range within which a modulator's row moves is the one it shows.
pub proof fn modulator_rows_move_in_the_range_shown<F>(e: EditorView<F>)
    requires
        e.selected_modulator() is Some,
        e.param_selected < e.rows().len(),
    ensures
        ({
            let row = e.rows()[e.param_selected as int];
            &&& row.kind matches RowKindView::Value { min, max, .. } ==> e.param_range() == Some((min, max))
            &&& row.kind matches RowKindView::Value { value, min, max } ==> e.scalar() == Some((value, min, max))
            &&& row.kind is Choice <==> e.param_is_enum()
        }),
{
}

/// The range within which a plugin's parameter moves is the one it shows, filtered or not.
pub proof fn plugin_rows_move_in_the_range_shown<F>(e: EditorView<F>)
    requires
        e.selected() matches Some(addr) && addr.names_plugin(),
        e.selected_param() is Some,
    ensures
        ({
            let p = e.selected_param()->0;
            &&& e.param_range() == Some((p.min, p.max))
            &&& e.scalar() == Some((p.value, p.min, p.max))
            &&& !e.param_is_enum()
        }),
{
}

/// Clearing the filter clears it and nothing else.
pub proof fn cleared_filters_are_empty<F>(e: EditorView<F>)
    ensures
        e.unfiltered().param_filter.len() == 0,
        !e.unfiltered().param_filtering,
        e.unfiltered().keyboards == e.keyboards,
        e.unfiltered().param_selected == e.param_selected,
        e.unfiltered().focus_params == e.focus_params,
        !e.param_filtering && e.param_filter == Seq::<char>::empty() ==> e.unfiltered() == e,
{
}

/// In every popup escape closes, enter confirms, characters are typed and backspace takes them
/// back. Arrows move through lists and within texts, and pages only where there is a filter.
pub proof fn keys_do_what_they_say(c: char)
    ensures
        list_action(Key::Esc) == FieldAction::Close,
        text_action(Key::Esc) == FieldAction::Close,
        filter_action(Key::Esc) == FieldAction::Close,
        list_action(Key::Enter) == FieldAction::Confirm,
        text_action(Key::Enter) == FieldAction::Confirm,
        filter_action(Key::Enter) == FieldAction::Confirm,
        list_action(Key::Char(c)) == FieldAction::Insert(c),
        text_action(Key::Char(c)) == FieldAction::Insert(c),
        filter_action(Key::Char(c)) == FieldAction::Insert(c),
        list_action(Key::Backspace) == FieldAction::Backspace,
        text_action(Key::Backspace) == FieldAction::Backspace,
        filter_action(Key::Backspace) == FieldAction::Backspace,
        list_action(Key::Up) == FieldAction::Up,
        list_action(Key::Down) == FieldAction::Down,
        filter_action(Key::Up) == FieldAction::Up,
        filter_action(Key::Down) == FieldAction::Down,
        filter_action(Key::PageUp) == FieldAction::PageUp,
        filter_action(Key::PageDown) == FieldAction::PageDown,
        text_action(Key::Left) == FieldAction::Left,
        text_action(Key::Right) == FieldAction::Right,
        text_action(Key::Home) == FieldAction::Home,
        text_action(Key::End) == FieldAction::End,
        text_action(Key::Delete) == FieldAction::Delete,
        text_action(Key::Up) == FieldAction::Nothing,
        text_action(Key::Down) == FieldAction::Nothing,
        list_action(Key::Left) == FieldAction::Nothing,
        list_action(Key::Right) == FieldAction::Nothing,
        list_action(Key::Other) == FieldAction::Nothing,
        text_action(Key::Other) == FieldAction::Nothing,
        filter_action(Key::Other) == FieldAction::Nothing,
{
}

/// A confirmed value closes its popup. One that cannot be read changes nothing else, one that can is
/// set as if it had been set without the popup.
pub proof fn confirmed_values_close_their_popup<P, F>(e: EditorView<F>, value: F, semitones: i8)
    ensures
        e.value_confirmed::<P>(None).0 == (EditorView { value_edit: None, ..e }),
        e.value_confirmed::<P>(None).1.len() == 0,
        e.value_confirmed::<P>(Some((value, semitones))).0.value_edit is None,
        e.value_confirmed::<P>(Some((value, semitones))).0.keyboards == e.assigned::<P>(value, semitones).0.keyboards,
        e.value_confirmed::<P>(Some((value, semitones))).1 == e.assigned::<P>(value, semitones).1,
{
}

/// A new plugin goes to the split that is selected or that holds what is selected; on a keyboard it
/// goes to the first split.
pub proof fn plugins_go_to_the_selected_split<F>(e: EditorView<F>)
    ensures
        e.selected() matches Some(TreeAddress::Split { kb, split }) ==> e.plugin_place() == (kb, split),
        e.selected() matches Some(TreeAddress::Instrument { kb, split }) ==> e.plugin_place() == (kb, split),
        e.selected() matches Some(TreeAddress::Effect { kb, split, .. }) ==> e.plugin_place() == (kb, split),
        e.selected() matches Some(TreeAddress::Pattern { kb, split }) ==> e.plugin_place() == (kb, split),
        e.selected() matches Some(TreeAddress::Modulator { kb, split, .. }) ==> e.plugin_place() == (kb, split),
        e.selected() matches Some(TreeAddress::Keyboard(kb)) ==> (kb < e.keyboards.len()
            && e.keyboards[kb as int].splits.len() > 0 ==> e.plugin_place() == (kb, 0usize)),
{
}

/// The title of the parameter list names what is selected.
pub proof fn titles_name_the_selected<F>(e: EditorView<F>)
    ensures
        e.selected() is None ==> e.title().before == "(none)"@,
        e.selected() matches Some(TreeAddress::Keyboard(kb)) ==> (kb < e.keyboards.len() ==> e.title().before
            == e.keyboards[kb as int].name),
        e.selected() matches Some(TreeAddress::Pattern { .. }) ==> e.title().before == "Pattern"@,
        e.selected() matches Some(TreeAddress::Modulator { .. }) ==> (e.selected_modulator() matches Some(m) ==> (
        m.source is Envelope ==> e.title().before == "ADSR"@)),
{
}

/// The filter is shown for plugins only, while it is typed or holds something.
pub proof fn filters_are_shown_for_plugins<F>(e: EditorView<F>)
    ensures
        e.filter_shown() <==> ((e.selected() matches Some(TreeAddress::Instrument { .. }) || e.selected() matches Some(
            TreeAddress::Effect { .. },
        )) && (e.param_filtering || e.param_filter.len() > 0)),
{
}

} // verus!
