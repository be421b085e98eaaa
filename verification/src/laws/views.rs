//! Laws of what is shown: the tree, the parameter list, the plugin selector, and where clicks go.
use vstd::prelude::*;

use crate::notes::range_text;
use crate::paths::System;
use crate::plugin::PluginInfo;
use crate::text::{decimal, signed_decimal};
use crate::tui::catalog::offered;
use crate::tui::editor::{EditorView, SelectorMode};
use crate::tui::help::{share, style_of, HelpStyle};
use crate::tui::model::{
    ModSlotView, ModSourceSlot, ParamSlot, PatternStateView, PluginView, SplitView, TreeAddress,
};
use crate::tui::mouse::{bar_part, choice_half, Areas, MouseEffect, WidgetHit};
use crate::tui::rows::{pattern_rows, picked_rows, plugin_rows, truncated, RowKindView};
use crate::tui::splash::{filled_columns, progress_text, short_name};
use crate::tui::tree::{
    action_list, action_start, continuation, effect_entries, format_of, hits, modulator_entry, note_count,
    pattern_entry, plugin_entries, shows_pattern, split_entries, Area, EntryColor,
};

verus! {

// ---------------------------------------------------------------------------
// The tree
// ---------------------------------------------------------------------------

/// The notes of a pattern are its note-ons: nothing else is counted, and each counts once.
pub proof fn notes_are_counted_by_their_note_ons(events: Seq<(u64, u8, u8, u8)>)
    ensures
        note_count(events) == events.filter(|e: (u64, u8, u8, u8)| e.1 == 0x90).len(),
{
    lemma_note_count(events, |e: (u64, u8, u8, u8)| e.1 == 0x90);
}

proof fn lemma_note_count(events: Seq<(u64, u8, u8, u8)>, keep: spec_fn((u64, u8, u8, u8)) -> bool)
    requires
        forall|e: (u64, u8, u8, u8)| #[trigger] keep(e) <==> e.1 == 0x90,
    ensures
        note_count(events) == events.filter(keep).len(),
    decreases events.len(),
{
    reveal(Seq::filter);
    if events.len() > 0 {
        lemma_note_count(events.drop_last(), keep);
        assert(keep(events.last()) <==> events.last().1 == 0x90);
    }
}

/// A split's line says its range and by how much it transposes, with a sign. A split without a
/// range hears all keys, and one that does not transpose says nothing of it.
pub proof fn splits_say_range_and_transposition<F>(s: SplitView<F>, kb: usize, split: usize)
    ensures
        ({
            let line = split_entries(s, kb, split, false)[0];
            let last = split_entries(s, kb, split, true)[0];
            let name = match s.range {
                Some(range) => range_text(range),
                None => "Full range"@,
            };
            let shift = if s.transpose > 0 {
                "  "@ + "+"@ + decimal(s.transpose as nat)
            } else if s.transpose < 0 {
                "  "@ + seq!['-'] + decimal((-s.transpose) as nat)
            } else {
                Seq::<char>::empty()
            };
            &&& line.before == "├"@ + " "@ + name + shift
            &&& last.before == "╰"@ + " "@ + name + shift
            &&& line.address == TreeAddress::Split { kb, split }
            &&& line.number is None
            &&& line.after.len() == 0
        }),
{
    assert("  "@ + Seq::<char>::empty() + signed_decimal(s.transpose as int) =~= "  "@ + signed_decimal(
        s.transpose as int,
    ));
    if s.transpose < 0 {
        assert("  "@ + (seq!['-'] + decimal((-s.transpose) as nat)) =~= "  "@ + seq!['-'] + decimal(
            (-s.transpose) as nat,
        ));
    }
}

/// A pattern has a line exactly while it records or holds something. While it records the line
/// says so; else it says how long the pattern is and how many notes it has.
pub proof fn patterns_say_length_and_notes<F>(p: PatternStateView<F>, kb: usize, split: usize, cont: Seq<char>)
    ensures
        shows_pattern(Some(p)) <==> p.recording || p.events.len() > 0,
        !shows_pattern(None::<PatternStateView<F>>),
        p.recording ==> ({
            let line = pattern_entry(p, kb, split, cont, true);
            &&& line.before == cont + "╰"@ + " ⏺ Pattern  recording..."@
            &&& line.number is None
            &&& line.color == EntryColor::Red
        }),
        !p.recording ==> ({
            let line = pattern_entry(p, kb, split, cont, true);
            &&& line.before == cont + "╰"@ + " ▶ Pattern  "@
            &&& line.number == Some((p.length_beats, 0usize))
            &&& line.after == " beats, "@ + decimal(
                p.events.filter(|e: (u64, u8, u8, u8)| e.1 == 0x90).len(),
            ) + " notes"@
            &&& line.color == EntryColor::Blue
        }),
        pattern_entry(p, kb, split, cont, true).address == (TreeAddress::Pattern { kb, split }),
{
    notes_are_counted_by_their_note_ons(p.events);
}

/// A plugin's line says its name and its format; effects are told from instruments. Its
/// modulators follow, in their order.
pub proof fn plugins_say_name_and_format<F>(plugin: PluginView<F>, kb: usize, split: usize, index: usize, cont: Seq<char>)
    ensures
        ({
            let address = TreeAddress::Effect { kb, split, index };
            let lines = plugin_entries(plugin, address, kb, split, (index + 1) as usize, cont, false);
            &&& lines.len() == 1 + plugin.modulators.len()
            &&& lines[0].before == cont + "├"@ + " fx "@ + plugin.name + "  ["@ + plugin.format + "]"@
            &&& lines[0].address == address
            &&& lines[0].color == EntryColor::Yellow
            &&& forall|m: int|
                0 <= m < plugin.modulators.len() ==> (#[trigger] lines[m + 1]).address == (TreeAddress::Modulator {
                    kb,
                    split,
                    parent_slot: (index + 1) as usize,
                    index: m as usize,
                })
        }),
        ({
            let address = TreeAddress::Instrument { kb, split };
            let lines = plugin_entries(plugin, address, kb, split, 0, cont, true);
            &&& lines.len() == 1 + plugin.modulators.len()
            &&& lines[0].before == cont + "╰"@ + " ♪ "@ + plugin.name + "  ["@ + plugin.format + "]"@
            &&& lines[0].address == address
            &&& lines[0].color == EntryColor::Green
            &&& forall|m: int|
                0 <= m < plugin.modulators.len() ==> (#[trigger] lines[m + 1]).address == (TreeAddress::Modulator {
                    kb,
                    split,
                    parent_slot: 0,
                    index: m as usize,
                })
        }),
{
}

/// An oscillator's line says its rate and its waveform, an envelope's what it is.
pub proof fn modulators_say_what_they_are<F>(
    m: ModSlotView<F>,
    kb: usize,
    split: usize,
    parent_slot: usize,
    index: usize,
    cont: Seq<char>,
)
    ensures
        ({
            let line = modulator_entry(m, kb, split, parent_slot, index, cont);
            let tick = if index == 0 {
                "╰"@
            } else {
                " "@
            };
            &&& line.address == TreeAddress::Modulator { kb, split, parent_slot, index }
            &&& m.source matches ModSourceSlot::Lfo { waveform, rate } ==> line.before == cont + tick + " ~ "@ + "LFO "@
                && line.number == Some((rate, 1usize)) && line.after == "Hz "@ + waveform.label()
            &&& m.source is Envelope ==> line.before == cont + tick + " ~ "@ + "ADSR"@ && line.number is None
                && line.after.len() == 0
        }),
{
}

/// The lines of a split stand in the order in which the sound goes: the split, its pattern where
/// it is shown, its instrument with what modulates it, then its effects.
pub proof fn split_lines_follow_the_sound<F>(s: SplitView<F>, kb: usize, split: usize, last: bool)
    ensures
        ({
            let lines = split_entries(s, kb, split, last);
            let patterns = if s.pattern matches Some(p) && (p.recording || p.events.len() > 0) {
                1int
            } else {
                0
            };
            let played = match s.instrument {
                Some(p) => 1 + p.modulators.len() as int,
                None => 0,
            };
            &&& lines.len() >= 1 + patterns + played
            &&& lines[0].address == TreeAddress::Split { kb, split }
            &&& patterns == 1 ==> lines[1].address == TreeAddress::Pattern { kb, split }
            &&& s.instrument is Some ==> lines[1 + patterns].address == TreeAddress::Instrument { kb, split }
            &&& s.effects.len() > 0 ==> lines.len() > 1 + patterns + played && lines[1 + patterns + played].address
                == TreeAddress::Effect { kb, split, index: 0 }
            &&& s.effects.len() == 0 ==> lines.len() == 1 + patterns + played
        }),
{
    if s.effects.len() > 0 {
        lemma_first_effect(s.effects, kb, split, continuation(last), s.effects.len() as int);
    }
}

proof fn lemma_first_effect<F>(effects: Seq<PluginView<F>>, kb: usize, split: usize, cont: Seq<char>, count: int)
    requires
        1 <= count <= effects.len(),
    ensures
        effect_entries(effects, kb, split, cont, count).len() > 0,
        effect_entries(effects, kb, split, cont, count)[0].address == (TreeAddress::Effect { kb, split, index: 0 }),
    decreases count,
{
    reveal_with_fuel(effect_entries, 2);
    if count > 1 {
        lemma_first_effect(effects, kb, split, cont, count - 1);
    }
}

/// An identifier shows its format: by the word in front, by the shape of the name, or by the
/// ending of a file.
pub proof fn identifiers_show_their_format(name: Seq<char>)
    ensures
        format_of("builtin:"@ + name) == "Built-in"@,
        format_of("lv2:"@ + name) == "LV2"@,
        format_of("clap:"@ + name) == "CLAP"@,
        format_of("http://"@ + name) == "LV2"@,
        format_of("urn:"@ + name) == "LV2"@,
{
    reveal_strlit("builtin:");
    reveal_strlit("lv2:");
    reveal_strlit("clap:");
    reveal_strlit("http://");
    reveal_strlit("urn:");
    assert(("builtin:"@ + name).subrange(0, 8) =~= "builtin:"@);
    assert(("lv2:"@ + name).subrange(0, 4) =~= "lv2:"@);
    assert(("clap:"@ + name).subrange(0, 5) =~= "clap:"@);
    assert(("http://"@ + name).subrange(0, 7) =~= "http://"@);
    assert(("urn:"@ + name).subrange(0, 4) =~= "urn:"@);
    assert(("lv2:"@ + name)[0] == 'l');
    assert(("clap:"@ + name)[0] == 'c');
    assert(("http://"@ + name)[0] == 'h');
    assert(("urn:"@ + name)[0] == 'u');
}

// ---------------------------------------------------------------------------
// Actions
// ---------------------------------------------------------------------------

/// Every kind of node offers its own actions, each under its key.
pub proof fn nodes_offer_their_actions(kb: usize, split: usize, parent_slot: usize, index: usize)
    ensures
        action_list(None).len() == 0,
        action_list(Some(TreeAddress::Keyboard(kb))) == seq![('a', "add split"@)],
        action_list(Some(TreeAddress::Split { kb, split })) == seq![
            ('a', "add instrument"@),
            ('r', "record"@),
            ('d', "delete"@),
        ],
        action_list(Some(TreeAddress::Instrument { kb, split })) == seq![
            ('a', "add effect"@),
            ('m', "modulate"@),
            ('d', "delete"@),
            ('p', "presets"@),
        ],
        action_list(Some(TreeAddress::Effect { kb, split, index })) == action_list(
            Some(TreeAddress::Instrument { kb, split }),
        ),
        action_list(Some(TreeAddress::Pattern { kb, split })) == seq![('r', "record"@), ('d', "clear"@)],
        action_list(Some(TreeAddress::Modulator { kb, split, parent_slot, index })) == seq![
            ('t', "add target"@),
            ('d', "delete"@),
        ],
{
}

/// The actions stand side by side, from the left edge on, one free column between two of them.
/// An action takes its word and four columns more.
pub proof fn actions_stand_side_by_side(actions: Seq<(char, Seq<char>)>, i: int, column: int)
    requires
        0 <= i < actions.len(),
    ensures
        action_start(actions, 0) == 0,
        action_start(actions, i + 1) == action_start(actions, i) + actions[i].1.len() + 5,
        hits(actions, i, column) <==> action_start(actions, i) <= column < action_start(actions, i + 1) - 1,
{
}

// ---------------------------------------------------------------------------
// The parameter list
// ---------------------------------------------------------------------------

/// A pattern's list shows its length, whether it is on and whether it loops, and a heading for the
/// notes where there are any.
pub proof fn pattern_lists_show_the_pattern<F>(e: EditorView<F>, p: PatternStateView<F>)
    ensures
        ({
            let rows = pattern_rows(p, e.numbers);
            &&& rows.len() == if p.events.len() > 0 {
                4int
            } else {
                3
            }
            &&& rows[0].name == "Length (beats)"@
            &&& rows[0].kind == (RowKindView::Value {
                value: p.length_beats,
                min: e.numbers.beats_min,
                max: e.numbers.beats_max,
            })
            &&& rows[1].name == "Enabled"@
            &&& rows[1].kind == (if p.enabled {
                RowKindView::<F>::Choice("On"@)
            } else {
                RowKindView::<F>::Choice("Off"@)
            })
            &&& rows[2].name == "Loop"@
            &&& rows[2].kind == (if p.looping {
                RowKindView::<F>::Choice("On"@)
            } else {
                RowKindView::<F>::Choice("Off"@)
            })
            &&& p.events.len() > 0 ==> rows[3].name == "Notes"@ && rows[3].kind is Separator
        }),
{
}

/// A plugin's list without a filter shows every parameter in its place, with its value and its
/// range. With a filter it shows those that were picked, in the order of the picks.
pub proof fn plugin_lists_show_the_parameters<F>(p: PluginView<F>, picks: Seq<usize>, filter: Seq<char>)
    requires
        forall|i: int| 0 <= i < picks.len() ==> (#[trigger] picks[i]) < p.params.len(),
    ensures
        picks.len() > 0 ==> plugin_rows(p, picks, filter).len() == picks.len(),
        picks.len() == 0 && filter.len() == 0 ==> plugin_rows(p, picks, filter).len() == p.params.len(),
        picks.len() == 0 && filter.len() > 0 ==> plugin_rows(p, picks, filter).len() == 0,
        forall|i: int|
            0 <= i < picks.len() ==> {
                let slot = p.params[picks[i] as int];
                &&& (#[trigger] plugin_rows(p, picks, filter)[i]).name == slot.name@
                &&& plugin_rows(p, picks, filter)[i].kind == (RowKindView::Value {
                    value: slot.value,
                    min: slot.min,
                    max: slot.max,
                })
            },
        picks.len() == 0 && filter.len() == 0 ==> forall|i: int|
            0 <= i < p.params.len() ==> {
                let slot = p.params[i];
                &&& (#[trigger] plugin_rows(p, picks, filter)[i]).name == slot.name@
                &&& plugin_rows(p, picks, filter)[i].kind == (RowKindView::Value {
                    value: slot.value,
                    min: slot.min,
                    max: slot.max,
                })
            },
{
    if picks.len() > 0 {
        lemma_picked_rows(p.params, picks, picks.len() as int);
    }
}

proof fn lemma_picked_rows<F>(params: Seq<ParamSlot<F>>, picks: Seq<usize>, count: int)
    requires
        0 <= count <= picks.len(),
        forall|i: int| 0 <= i < picks.len() ==> (#[trigger] picks[i]) < params.len(),
    ensures
        picked_rows(params, picks, count).len() == count,
        forall|i: int|
            0 <= i < count ==> {
                let slot = params[picks[i] as int];
                &&& (#[trigger] picked_rows(params, picks, count)[i]).name == slot.name@
                &&& picked_rows(params, picks, count)[i].kind == (RowKindView::Value {
                    value: slot.value,
                    min: slot.min,
                    max: slot.max,
                })
            },
    decreases count,
{
    if count > 0 {
        lemma_picked_rows(params, picks, count - 1);
        assert(picks[count - 1] < params.len());
    }
}

/// A name that has room is shown as it is.
pub proof fn short_names_are_shown_whole(s: Seq<char>, max: int)
    requires
        vstd::utf8::encode_utf8(s).len() <= max,
    ensures
        truncated(s, max) == s,
{
}

// ---------------------------------------------------------------------------
// The plugin selector
// ---------------------------------------------------------------------------

/// The selector offers exactly the plugins of the kind that is looked for, each once, in the order
/// of the catalogue, under its own name.
pub proof fn selector_offers_the_right_kind(catalog: Seq<PluginInfo>, mode: SelectorMode)
    requires
        catalog.len() <= usize::MAX,
    ensures
        ({
            let items = offered(catalog, mode, catalog.len() as int);
            &&& forall|i: int|
                0 <= i < items.len() ==> {
                    let info = catalog[(#[trigger] items[i]).index as int];
                    &&& items[i].index < catalog.len()
                    &&& info.is_instrument == (mode is Instrument)
                    &&& items[i].name == info.name@
                    &&& items[i].params == decimal(info.param_count as nat)
                    &&& items[i].presets == decimal(info.preset_count as nat)
                    &&& items[i].format == format_of(info.id@)
                }
            &&& forall|i: int, j: int|
                0 <= i < j < items.len() ==> (#[trigger] items[i]).index < (#[trigger] items[j]).index
            &&& forall|k: int|
                0 <= k < catalog.len() && (#[trigger] catalog[k]).is_instrument == (mode is Instrument) ==> exists|i: int|
                    0 <= i < items.len() && (#[trigger] items[i]).index == k
        }),
{
    lemma_offered(catalog, mode, catalog.len() as int);
}

proof fn lemma_offered(catalog: Seq<PluginInfo>, mode: SelectorMode, count: int)
    requires
        catalog.len() <= usize::MAX,
        0 <= count <= catalog.len(),
    ensures
        ({
            let items = offered(catalog, mode, count);
            &&& forall|i: int|
                0 <= i < items.len() ==> {
                    let info = catalog[(#[trigger] items[i]).index as int];
                    &&& items[i].index < count
                    &&& info.is_instrument == (mode is Instrument)
                    &&& items[i].name == info.name@
                    &&& items[i].params == decimal(info.param_count as nat)
                    &&& items[i].presets == decimal(info.preset_count as nat)
                    &&& items[i].format == format_of(info.id@)
                }
            &&& forall|i: int, j: int|
                0 <= i < j < items.len() ==> (#[trigger] items[i]).index < (#[trigger] items[j]).index
            &&& forall|k: int|
                0 <= k < count && (#[trigger] catalog[k]).is_instrument == (mode is Instrument) ==> exists|i: int|
                    0 <= i < items.len() && (#[trigger] items[i]).index == k
        }),
    decreases count,
{
    if count > 0 {
        lemma_offered(catalog, mode, count - 1);
        let rest = offered(catalog, mode, count - 1);
        let items = offered(catalog, mode, count);
        let info = catalog[count - 1];
        assert forall|k: int|
            0 <= k < count && (#[trigger] catalog[k]).is_instrument == (mode is Instrument) implies exists|i: int|
            0 <= i < items.len() && (#[trigger] items[i]).index == k by {
            if k < count - 1 {
                let i = choose|i: int| 0 <= i < rest.len() && (#[trigger] rest[i]).index == k;
                assert(items[i] == rest[i]);
            } else {
                assert(items[rest.len() as int].index == k);
            }
        }
    }
}

// ---------------------------------------------------------------------------
// The start screen and the help
// ---------------------------------------------------------------------------

/// The progress bar is filled in proportion, rounded down: empty at the start, full at the end, and
/// always as wide as it is. Without anything to do there is no bar.
pub proof fn progress_is_shown_in_proportion(done: nat, total: nat)
    requires
        total > 0,
    ensures
        filled_columns(done as int, 0) is None,
        filled_columns(0, total as int) == Some(0int),
        done >= total ==> filled_columns(done as int, total as int) == Some(36int),
        done < total ==> ({
            let filled = filled_columns(done as int, total as int)->0;
            filled_columns(done as int, total as int) is Some && filled * total <= done * 36 < (filled + 1) * total
        }),
        progress_text(done as int, total as int) matches Some((bar, count)) && bar.len() == 36 && count == " "@ + decimal(
            done,
        ) + "/"@ + decimal(total) && forall|i: int|
            0 <= i < 36 ==> (#[trigger] bar[i]) == (if i < filled_columns(done as int, total as int)->0 {
                '▓'
            } else {
                '░'
            }),
{
    assert(0int * 36 / (total as int) == 0) by (nonlinear_arith)
        requires
            total > 0,
    ;
    if done < total {
        let d = done as int;
        let t = total as int;
        let f = d * 36 / t;
        assert(f * t <= d * 36 < (f + 1) * t) by (nonlinear_arith)
            requires
                t > 0,
                f == d * 36 / t,
        ;
        assert(0 <= f < 36) by (nonlinear_arith)
            requires
                t > 0,
                0 <= d < t,
                f * t <= d * 36 < (f + 1) * t,
        ;
    }
}

/// The word for the format is cut off a plugin's name, and the name stays whole.
pub proof fn formats_are_cut_off_names(system: System, name: Seq<char>)
    ensures
        short_name(system, "lv2:"@ + name) == name,
        short_name(system, "clap:"@ + name) == name,
        short_name(system, "vst3:"@ + name) == name,
        short_name(system, "builtin:"@ + name) == name,
{
    reveal_strlit("lv2:");
    reveal_strlit("clap:");
    reveal_strlit("vst3:");
    reveal_strlit("builtin:");
    let (l, c, v, b) = ("lv2:"@ + name, "clap:"@ + name, "vst3:"@ + name, "builtin:"@ + name);
    assert(l.subrange(0, 4) =~= "lv2:"@);
    assert(c.subrange(0, 5) =~= "clap:"@);
    assert(v.subrange(0, 5) =~= "vst3:"@);
    assert(b.subrange(0, 8) =~= "builtin:"@);
    assert(c[0] == 'c' && v[0] == 'v' && b[0] == 'b');
    assert(l.skip(4) =~= name);
    assert(c.skip(5) =~= name);
    assert(v.skip(5) =~= name);
    assert(b.skip(8) =~= name);
}

/// A help line that is set in is plain, a rule is dim, and any other line is a heading.
pub proof fn help_lines_have_their_style(rest: Seq<char>)
    ensures
        style_of("  "@ + rest) == HelpStyle::Plain,
        style_of("---"@ + rest) == HelpStyle::Dim,
        rest.len() > 0 && rest[0] != ' ' && rest[0] != '-' ==> style_of(rest) == HelpStyle::Heading,
{
    reveal_strlit("  ");
    reveal_strlit("---");
    assert(("  "@ + rest).subrange(0, 2) =~= "  "@);
    assert(("---"@ + rest).subrange(0, 3) =~= "---"@);
    assert(("---"@ + rest)[0] == '-');
    if "  "@.is_prefix_of(rest) {
        assert(rest.subrange(0, 2)[0] == ' ');
    }
    if "---"@.is_prefix_of(rest) {
        assert(rest.subrange(0, 3)[0] == '-');
    }
}

/// A popup takes so many hundredths of the room, but no less than it needs, and no more than
/// there is.
pub proof fn popups_take_their_share(whole: u16, hundredths: u16, min: u16)
    requires
        hundredths <= 100,
    ensures
        share(whole, hundredths, min) <= whole,
        min <= whole ==> share(whole, hundredths, min) >= min,
        min > whole ==> share(whole, hundredths, min) == whole,
        min <= whole && share(whole, hundredths, min) > min ==> ({
            let taken = share(whole, hundredths, min);
            100 * taken <= whole * hundredths < 100 * (taken + 1)
        }),
        min <= whole && share(whole, hundredths, min) == min ==> whole * hundredths < 100 * (min + 1),
{
    assert(0 <= whole * hundredths <= whole * 100) by (nonlinear_arith)
        requires
            0 <= hundredths <= 100,
            0 <= whole,
    ;
}

// ---------------------------------------------------------------------------
// The mouse
// ---------------------------------------------------------------------------

/// A bar begins behind the name and ends where the value stands. Its first column is none of it, its
/// last column all of it, and every column in between so many steps from the first.
pub proof fn bars_run_from_end_to_end(x: u16, area: Area)
    ensures
        bar_part(x, area) is Some <==> area.x + 27 <= x && x < area.x + area.width - 9,
        bar_part(x, area) matches Some((at, of)) ==> at == x - area.x - 27 && at <= of,
        area.width > 38 ==> (bar_part(x, area) matches Some((at, of)) ==> of == area.width - 37 && (at == of <==> x
            == area.x + area.width - 10)),
{
}

/// Clicks on the left half of a choice go back, clicks on the right half go on, and clicks on its
/// name do nothing.
pub proof fn halves_of_a_choice_go_back_and_on(x: u16, area: Area)
    requires
        area.x + area.width <= u16::MAX,
    ensures
        choice_half(x, area) is Some <==> area.x + 27 <= x < area.x + area.width,
        choice_half(x, area) == Some(false) ==> 2 * (x - area.x - 27) < area.width - 27,
        choice_half(x, area) == Some(true) ==> 2 * (x - area.x - 27) >= area.width - 28,
{
}

/// A click goes to what is under it: to the tree, to the parameter list, which takes the focus, or
/// nowhere. Nothing else of the editor changes by it.
pub proof fn clicks_go_to_what_is_under_them<F>(e: EditorView<F>, x: u16, y: u16, areas: Areas, hit: WidgetHit)
    requires
        areas.chain_inner.x + areas.chain_inner.width <= u16::MAX,
        areas.chain_inner.y + areas.chain_inner.height <= u16::MAX,
        areas.param_inner.x + areas.param_inner.width <= u16::MAX,
        areas.param_inner.y + areas.param_inner.height <= u16::MAX,
    ensures
        ({
            let (after, effect) = e.content_clicked(x, y, areas, hit);
            let (c, p) = (areas.chain_inner, areas.param_inner);
            let in_chain = c.x <= x < c.x + c.width && c.y <= y < c.y + c.height;
            let in_params = p.x <= x < p.x + p.width && p.y <= y < p.y + p.height;
            &&& e.active_tab == 0 && in_chain ==> after == e && effect == MouseEffect::<F>::ClickChain
            &&& e.active_tab == 0 && !in_chain && in_params && !hit.param_scrollbar ==> after.focus_params
                && !in_chain && effect == MouseEffect::<F>::ClickParam && after.param_scrollbar_dragging
                == e.param_scrollbar_dragging
            &&& e.active_tab == 0 && !in_chain && in_params && hit.param_scrollbar ==> after.focus_params
                && after.param_scrollbar_dragging && effect == MouseEffect::<F>::ScrollParams
            &&& e.active_tab == 0 && !in_chain && !in_params ==> after == e && effect == MouseEffect::<F>::Nothing
            &&& e.active_tab == 3 ==> effect == MouseEffect::<F>::Nothing && (hit.help_offset matches Some(offset) ==> after.help_offset
                == offset && after.scrollbar_dragging)
            &&& e.active_tab == 3 && hit.help_offset is None ==> after == e
            &&& after.keyboards == e.keyboards
            &&& after.active_tab == e.active_tab
            &&& after.param_selected == e.param_selected
        }),
{
}

/// When the button comes up nothing is dragged any more, and that is all that changes.
pub proof fn released_buttons_drag_nothing<F>(e: EditorView<F>)
    ensures
        !e.released().param_dragging,
        !e.released().param_scrollbar_dragging,
        !e.released().scrollbar_dragging,
        e.released().keyboards == e.keyboards,
        e.released().active_tab == e.active_tab,
        e.released().focus_params == e.focus_params,
        e.released().help_offset == e.help_offset,
        !e.param_dragging && !e.param_scrollbar_dragging && !e.scrollbar_dragging ==> e.released() == e,
{
}

} // verus!
