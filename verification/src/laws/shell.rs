//! Laws of the edges: times and numbers in the log, names of presets and classes, paths that were
//! configured.
use vstd::prelude::*;

use crate::builtin::Waveform;
use crate::chord::{interval_text, presents, Candidate, ChordMatch, CHORD_SUFFIXES, INTERVAL_NAMES};
use crate::config::ConfigCell;
use crate::formats::clap::{keeps_param, looked_into, preset_name, RawParam};
use crate::formats::vst3::{byte_text, class_fits, first_class, scan_share, ClassInfo};
use crate::graph::GraphView;
use crate::plugin::{names_vst3, preset_named, ParameterInfo, Preset};
use crate::scale::{ScaleSetting, NOTE_NAMES};
use crate::startup::{clock_text, hex, keyboard_title, padded};
use crate::text::{decimal, digits_value};

verus! {

// ---------------------------------------------------------------------------
// The log
// ---------------------------------------------------------------------------

/// A padded number has exactly its digits, and they mean the number where it fits.
pub proof fn padded_numbers_keep_their_value(n: nat, digits: nat)
    requires
        n < vstd::arithmetic::power::pow(10, digits),
    ensures
        padded(n, digits as int).len() == digits,
        digits_value(padded(n, digits as int)) == n,
    decreases digits,
{
    vstd::arithmetic::power::lemma_pow0(10);
    if digits > 0 {
        let fewer = (digits - 1) as nat;
        vstd::arithmetic::power::lemma_pow_adds(10, fewer, 1);
        vstd::arithmetic::power::lemma_pow1(10);
        let p = vstd::arithmetic::power::pow(10, fewer);
        assert(n / 10 < p) by (nonlinear_arith)
            requires
                n < p * 10,
        ;
        padded_numbers_keep_their_value(n / 10, fewer);
        let all = padded(n, digits as int);
        assert(all.drop_last() =~= padded(n / 10, fewer as int));
        assert(all.last() as nat == 48 + n % 10);
    }
}

/// The clock shows hours, minutes, seconds and milliseconds in fields of two, two, two and three
/// digits, and the fields add up to the time of day.
pub proof fn clocks_add_up_to_the_time(secs: nat, millis: nat)
    requires
        millis < 1000,
    ensures
        ({
            let text = clock_text(secs, millis);
            let hours = digits_value(text.subrange(0, 2));
            let minutes = digits_value(text.subrange(3, 5));
            let seconds = digits_value(text.subrange(6, 8));
            &&& text.len() == 12
            &&& text[2] == ':' && text[5] == ':' && text[8] == '.'
            &&& hours * 3600 + minutes * 60 + seconds == secs % 86400
            &&& minutes < 60 && seconds < 60
            &&& digits_value(text.subrange(9, 12)) == millis
        }),
{
    reveal_strlit(":");
    reveal_strlit(".");
    vstd::arithmetic::power::lemma_pow0(10);
    vstd::arithmetic::power::lemma_pow1(10);
    vstd::arithmetic::power::lemma_pow_adds(10, 1, 1);
    vstd::arithmetic::power::lemma_pow_adds(10, 2, 1);
    let s = secs % 86400;
    padded_numbers_keep_their_value(s / 3600, 2);
    padded_numbers_keep_their_value(s % 3600 / 60, 2);
    padded_numbers_keep_their_value(s % 60, 2);
    padded_numbers_keep_their_value(millis, 3);
    let text = clock_text(secs, millis);
    assert(text.subrange(0, 2) =~= padded(s / 3600, 2));
    assert(text.subrange(3, 5) =~= padded(s % 3600 / 60, 2));
    assert(text.subrange(6, 8) =~= padded(s % 60, 2));
    assert(text.subrange(9, 12) =~= padded(millis, 3));
}

/// What hexadecimal digits mean.
pub open spec fn hex_value(s: Seq<char>) -> int
    decreases s.len(),
{
    if s.len() == 0 {
        0
    } else {
        let c = s.last();
        hex_value(s.drop_last()) * 16 + (if 'a' <= c <= 'f' {
            c as int - 'a' as int + 10
        } else {
            c as int - '0' as int
        })
    }
}

/// A number in hexadecimal digits means that number, in digits and small letters up to 'f'.
pub proof fn hexadecimal_digits_mean_their_number(n: nat)
    ensures
        hex_value(hex(n)) == n,
        hex(n).len() > 0,
        forall|i: int| 0 <= i < hex(n).len() ==> '0' <= #[trigger] hex(n)[i] <= '9' || 'a' <= hex(n)[i] <= 'f',
    decreases n,
{
    if n < 16 {
        assert(hex(n).drop_last() =~= Seq::<char>::empty());
        assert(hex_value(Seq::<char>::empty()) == 0);
    } else {
        hexadecimal_digits_mean_their_number(n / 16);
        assert(hex(n).drop_last() =~= hex(n / 16));
        assert forall|i: int| 0 <= i < hex(n).len() implies '0' <= #[trigger] hex(n)[i] <= '9' || 'a' <= hex(n)[i]
            <= 'f' by {
            if i < hex(n / 16).len() {
                assert(hex(n)[i] == hex(n / 16)[i]);
            }
        }
    }
}

/// A keyboard with a name goes by it, one without by its number, counted from one.
pub proof fn keyboards_go_by_name_or_number(name: String, index: usize)
    ensures
        keyboard_title(Some(name), index) == name@,
        keyboard_title(None, index) == "Keyboard "@ + decimal((index + 1) as nat),
{
}

// ---------------------------------------------------------------------------
// Plugins
// ---------------------------------------------------------------------------

/// A preset's name means the first preset of that name.
pub proof fn preset_names_mean_the_first(presets: Seq<Preset>, name: Seq<char>, from: int)
    requires
        0 <= from <= presets.len(),
    ensures
        preset_named(presets, name, from) matches Some(i) ==> from <= i < presets.len() && presets[i].name@ == name
            && forall|j: int| from <= j < i ==> (#[trigger] presets[j]).name@ != name,
        preset_named(presets, name, from) is None ==> forall|j: int|
            from <= j < presets.len() ==> (#[trigger] presets[j]).name@ != name,
    decreases presets.len() - from,
{
    if from < presets.len() {
        preset_names_mean_the_first(presets, name, from + 1);
    }
}

/// A source names a VST3 plugin by the word in front or by the ending.
pub proof fn vst3_plugins_are_named_in_front_or_behind(name: Seq<char>)
    ensures
        names_vst3("vst3:"@ + name),
        names_vst3(name + ".vst3"@),
{
    reveal_strlit("vst3:");
    reveal_strlit(".vst3");
    assert(("vst3:"@ + name).subrange(0, 5) =~= "vst3:"@);
    let n = name.len() as int;
    assert((name + ".vst3"@).subrange(n, n + 5) =~= ".vst3"@);
}

/// The class to load is the first one that processes audio and, where a name is looked for, has it
/// in its own.
pub proof fn first_fitting_class_is_loaded(classes: Seq<ClassInfo>, search: Option<&str>, from: int)
    requires
        0 <= from <= classes.len(),
    ensures
        first_class(classes, search, from) matches Some(i) ==> from <= i < classes.len() && class_fits(
            classes[i],
            search,
        ) && forall|j: int| from <= j < i ==> !class_fits(#[trigger] classes[j], search),
        first_class(classes, search, from) is None ==> forall|j: int|
            from <= j < classes.len() ==> !class_fits(#[trigger] classes[j], search),
        forall|c: ClassInfo| #[trigger] class_fits(c, None) <==> c.category@ == "Audio Module Class"@,
        forall|c: ClassInfo, s: &str|
            c.category@ != "Audio Module Class"@ ==> !#[trigger] class_fits(c, Some(s)),
    decreases classes.len() - from,
{
    if from < classes.len() {
        first_fitting_class_is_loaded(classes, search, from + 1);
    }
}

/// The time of a scan is shared out evenly among the plugins that it found.
pub proof fn scan_times_are_shared_evenly(total: u64, count: nat)
    ensures
        count == 0 ==> scan_share(total, count) == total,
        count > 0 ==> scan_share(total, count) * count <= total < (scan_share(total, count) + 1) * count,
{
    if count > 0 {
        let (t, c) = (total as int, count as int);
        let q = t / c;
        assert(0 <= q <= t && q * c <= t < (q + 1) * c) by (nonlinear_arith)
            requires
                c > 0,
                t >= 0,
                q == t / c,
        ;
    }
}

/// A text in bytes goes up to the first zero, byte by byte.
pub proof fn byte_texts_end_at_the_first_zero(text: Seq<u8>, rest: Seq<u8>)
    requires
        forall|i: int| 0 <= i < text.len() ==> #[trigger] text[i] != 0,
    ensures
        byte_text(text + seq![0u8] + rest).len() == text.len(),
        forall|i: int| 0 <= i < text.len() ==> #[trigger] byte_text(text + seq![0u8] + rest)[i] == text[i] as char,
    decreases text.len(),
{
    let all = text + seq![0u8] + rest;
    if text.len() > 0 {
        let tail = text.drop_first();
        assert forall|i: int| 0 <= i < tail.len() implies #[trigger] tail[i] != 0 by {
            assert(tail[i] == text[i + 1]);
        }
        byte_texts_end_at_the_first_zero(tail, rest);
        let shorter = tail + seq![0u8] + rest;
        assert(all.drop_first() =~= shorter);
        assert(all[0] == text[0]);
        assert(byte_text(all) == seq![text[0] as char] + byte_text(shorter));
        assert forall|i: int| 0 <= i < text.len() implies #[trigger] byte_text(all)[i] == text[i] as char by {
            if i > 0 {
                assert(byte_text(all)[i] == byte_text(shorter)[i - 1]);
                assert(tail[i - 1] == text[i]);
            }
        }
    } else {
        assert(all[0] == 0);
    }
}

/// A preset without a name is unknown.
pub proof fn presets_without_a_name_are_unknown(name: String)
    ensures
        preset_name(Some(name)) == name@,
        preset_name(None) == "Unknown"@,
{
}

/// A file is looked into where no ending was declared, or where its own was.
pub proof fn declared_files_are_looked_into(ext: &str, declared: Seq<String>, i: int)
    ensures
        declared.len() == 0 ==> looked_into(None, declared),
        0 <= i < declared.len() && declared[i]@ == ext@ ==> looked_into(Some(ext), declared),
        declared.len() > 0 ==> !looked_into(None, declared),
        looked_into(Some(ext), declared) && declared.len() > 0 ==> exists|j: int|
            0 <= j < declared.len() && #[trigger] declared[j]@ == ext@,
{
}

/// A parameter is kept as the plugin tells it, under its place.
pub proof fn parameters_are_kept_as_told<F>(p: ParameterInfo<F>, raw: RawParam<F>, at: int)
    requires
        keeps_param(p, raw, at),
    ensures
        p.index == at && p.name@ == raw.name@ && p.min == raw.min && p.max == raw.max && p.default == raw.default,
{
}

/// The oscillators are named after their waveforms.
pub proof fn oscillators_are_named_after_their_waveforms()
    ensures
        Waveform::Sine.title() == "Sine Oscillator"@,
        Waveform::Triangle.title() == "Triangle Oscillator"@,
        Waveform::Square.title() == "Square Oscillator"@,
{
}

/// Directories that were configured for a format are searched for that format; without a
/// configuration there are none.
pub proof fn configured_directories_go_with_their_format(cell: ConfigCell)
    ensures
        cell.config matches Some(c) ==> cell.clap_paths() == c.plugin_paths.clap@ && cell.vst3_paths()
            == c.plugin_paths.vst3@ && cell.lv2_paths() == c.plugin_paths.lv2@,
        cell.config is None ==> cell.clap_paths().len() == 0 && cell.vst3_paths().len() == 0 && cell.lv2_paths().len()
            == 0,
{
}

// ---------------------------------------------------------------------------
// Chords and splits as they are told
// ---------------------------------------------------------------------------

/// An interval is told by its lower note, its upper note and what lies between them.
pub proof fn intervals_are_told_from_below(low: u8, high: u8)
    requires
        low <= high <= 127,
    ensures
        interval_text(low, high) == NOTE_NAMES@[low as int % 12]@ + "-"@ + NOTE_NAMES@[high as int % 12]@ + " ("@
            + INTERVAL_NAMES@[(high - low) % 12]@ + ")"@,
{
}

/// A chord is told by its own root and by the suffix of its own kind.
pub proof fn chords_are_told_by_root_and_suffix(m: ChordMatch, c: Candidate, setting: ScaleSetting)
    requires
        presents(m, c, setting),
    ensures
        m.root == c.root,
        m.suffix@ == CHORD_SUFFIXES@[c.template as int]@,
{
}

/// Where the graph is listened to, every pattern tells under which keyboard and split it is: its
/// own. Nothing else changes.
pub proof fn patterns_tell_their_own_place<P, F>(g: GraphView<P, F>, kb: int, split: int)
    requires
        0 <= kb < g.keyboards.len(),
        0 <= split < g.keyboards[kb].len(),
    ensures
        g.listened().listening,
        g.listened().keyboards.len() == g.keyboards.len(),
        g.listened().keyboards[kb].len() == g.keyboards[kb].len(),
        ({
            let (old_lane, lane) = (g.keyboards[kb][split], g.listened().keyboards[kb][split]);
            &&& lane.pattern.listening
            &&& lane.pattern.kb_index == kb as usize
            &&& lane.pattern.split_index == split as usize
            &&& lane.pattern.pattern == old_lane.pattern.pattern
            &&& lane.pattern.recording == old_lane.pattern.recording
            &&& lane.instrument == old_lane.instrument
            &&& lane.effects == old_lane.effects
            &&& lane.range == old_lane.range
            &&& lane.transpose == old_lane.transpose
        }),
{
}

} // verus!
