//! Laws of what is kept: what is saved of the editor, and what a loaded session shows.
use vstd::prelude::*;

use crate::modulation::ModTargetKind;
use crate::notes::{note_text, parsed_range, range_text, RangeFault};
use crate::session::{
    effect_written, event_written, keyboards_read, modulator_written, pattern_written, split_read, split_written,
    splits_read, target_written, KeyboardConfig, KeyboardRaw, ModTargetOut, ModulatorOut, PatternEventOut, PatternOut,
    SaveEffect, SaveInstrument, SaveKeyboard, SaveModSource, SaveModTarget, SaveModulator, SavePattern, SaveSplit,
    SplitOut,
};
use crate::tui::load::{
    first_bpm, first_split_bpm, loaded_keyboard, loaded_modulator, loaded_pattern, loaded_plugin, loaded_split,
    LoadedKeyboard, LoadedModSource, LoadedModulator, LoadedPattern, LoadedPlugin, LoadedSplit,
};
use crate::tui::model::{
    KeyboardView, ModSlotView, ModSourceSlot, PatternStateView, PluginView, SplitView,
};
use crate::tui::save::{
    saves_effect, saves_instrument, saves_keyboard, saves_keyboards, saves_modulator, saves_pattern, saves_split,
};
use crate::tui::tree::format_of;

verus! {

// ---------------------------------------------------------------------------
// Saving
// ---------------------------------------------------------------------------

/// A saved pattern has the tempo, the length, the base note and the events of the one that is
/// shown, and is on and loops as that one does.
pub proof fn saved_patterns_are_those_shown<F>(p: PatternStateView<F>, s: SavePattern<F>)
    ensures
        saves_pattern(p, s) <==> (s.bpm == p.bpm && s.length_beats == p.length_beats && s.looping == p.looping
            && s.base_note == p.base_note && s.events@ == p.events && s.enabled == p.enabled),
{
}

/// A saved modulator has the rate and the waveform, or the four settings of the envelope, each under
/// its own name, and drives what the shown one drives, as deeply.
pub proof fn saved_modulators_are_those_shown<F>(m: ModSlotView<F>, s: SaveModulator<F>, i: int)
    requires
        saves_modulator(m, s),
    ensures
        s.source is Lfo <==> m.source is Lfo,
        m.source matches ModSourceSlot::Lfo { waveform, rate } ==> (s.source matches SaveModSource::Lfo {
            waveform: name,
            rate: r,
        } && r == rate && name@ == waveform.label()),
        m.source matches ModSourceSlot::Envelope { attack, decay, sustain, release } ==> s.source == (
        SaveModSource::Envelope { attack, decay, sustain, release }),
        s.targets@.len() == m.targets.len(),
        0 <= i < m.targets.len() ==> s.targets@[i].kind == m.targets[i].kind && s.targets@[i].depth
            == m.targets[i].depth && s.targets@[i].label@ == m.targets[i].param_name@,
{
}

/// A saved instrument is the one that is shown: the same plugin with the same modulators, in the
/// same order.
pub proof fn saved_instruments_are_those_shown<F>(
    p: PluginView<F>,
    s: SaveInstrument<F>,
    f: spec_fn(F, F) -> bool,
    unity: F,
    i: int,
)
    requires
        saves_instrument(p, s, f, unity),
    ensures
        s.plugin@ == p.id,
        s.volume == unity,
        s.modulators@.len() == p.modulators.len(),
        0 <= i < p.modulators.len() ==> saves_modulator(p.modulators[i], s.modulators@[i]),
{
}

/// A saved effect is the one that is shown: the same plugin with the same modulators, in the same
/// order.
pub proof fn saved_effects_are_those_shown<F>(
    p: PluginView<F>,
    s: SaveEffect<F>,
    f: spec_fn(F, F) -> bool,
    unity: F,
    i: int,
)
    requires
        saves_effect(p, s, f, unity),
    ensures
        s.plugin@ == p.id,
        s.mix == unity,
        s.modulators@.len() == p.modulators.len(),
        0 <= i < p.modulators.len() ==> saves_modulator(p.modulators[i], s.modulators@[i]),
{
}

/// A saved split has the range and the transposition of the one that is shown, and all that sounds
/// in it: its instrument, its effects in their order, and its pattern, each where there is one.
pub proof fn saved_splits_are_those_shown<F>(
    v: SplitView<F>,
    s: SaveSplit<F>,
    f: spec_fn(F, F) -> bool,
    unity: F,
    i: int,
)
    requires
        saves_split(v, s, f, unity),
    ensures
        s.range == v.range,
        s.transpose == v.transpose,
        s.instrument is Some <==> v.instrument is Some,
        v.instrument matches Some(p) ==> saves_instrument(p, s.instrument->0, f, unity),
        s.effects@.len() == v.effects.len(),
        0 <= i < v.effects.len() ==> saves_effect(v.effects[i], s.effects@[i], f, unity),
        s.pattern is Some <==> v.pattern is Some,
        v.pattern matches Some(p) ==> saves_pattern(p, s.pattern->0),
{
}

/// Every keyboard is saved in its place, under its name, with every split in its place.
pub proof fn saved_keyboards_are_those_shown<F>(
    kbs: Seq<KeyboardView<F>>,
    s: Seq<SaveKeyboard<F>>,
    f: spec_fn(F, F) -> bool,
    unity: F,
    k: int,
    i: int,
)
    requires
        saves_keyboards(kbs, s, f, unity),
    ensures
        s.len() == kbs.len(),
        0 <= k < kbs.len() ==> s[k].name@ == kbs[k].name && s[k].splits@.len() == kbs[k].splits.len(),
        0 <= k < kbs.len() && 0 <= i < kbs[k].splits.len() ==> saves_split(
            kbs[k].splits[i],
            s[k].splits@[i],
            f,
            unity,
        ),
{
    if 0 <= k < kbs.len() {
        assert(saves_keyboard(kbs[k], s[k], f, unity));
    }
}

// ---------------------------------------------------------------------------
// What stands in the file
// ---------------------------------------------------------------------------

/// A note-on is written as "on", a note-off as "off", with the name of its note, at its frame and
/// with its velocity.
pub proof fn written_events_say_what_they_are(e: (u64, u8, u8, u8), out: PatternEventOut)
    requires
        event_written(e, out),
    ensures
        e.1 == 0x90 ==> out.status@ == "on"@,
        e.1 == 0x80 ==> out.status@ == "off"@,
        out.frame == e.0,
        out.note@ == note_text(e.2),
        out.velocity == e.3,
{
}

/// A pattern is written with all that it is, event by event.
pub proof fn written_patterns_are_those_saved<F>(p: SavePattern<F>, out: PatternOut<F>, i: int)
    requires
        pattern_written(p, out),
    ensures
        out.bpm == p.bpm && out.length_beats == p.length_beats && out.looping == p.looping && out.enabled == p.enabled,
        p.base_note is None ==> out.base_note is None,
        p.base_note matches Some(note) ==> out.base_note is Some && out.base_note->0@ == note_text(note),
        out.events@.len() == p.events@.len(),
        0 <= i < p.events@.len() ==> event_written(p.events@[i], out.events@[i]),
{
}

/// A modulator is written under its own word, with its own settings and no others, target by
/// target.
pub proof fn written_modulators_are_those_saved<F>(m: SaveModulator<F>, out: ModulatorOut<F>, i: int)
    requires
        modulator_written(m, out),
    ensures
        m.source matches SaveModSource::Lfo { waveform, rate } ==> out.mod_type@ == "lfo"@ && out.waveform is Some
            && out.waveform->0@ == waveform@ && out.rate == Some(rate) && out.attack is None && out.decay is None
            && out.sustain is None && out.release is None,
        m.source matches SaveModSource::Envelope { attack, decay, sustain, release } ==> out.mod_type@ == "envelope"@
            && out.waveform is None && out.rate is None && out.attack == Some(attack) && out.decay == Some(decay)
            && out.sustain == Some(sustain) && out.release == Some(release),
        out.targets@.len() == m.targets@.len(),
        0 <= i < m.targets@.len() ==> target_written(m.targets@[i], out.targets@[i]),
{
}

/// A target is written under the one key that says what it drives, with its depth: parameters by
/// their names, settings of other modulators by the numbers of those.
pub proof fn written_targets_are_those_saved<F>(t: SaveModTarget<F>, out: ModTargetOut<F>)
    requires
        target_written(t, out),
    ensures
        out.depth == t.depth,
        t.kind is PluginParam ==> out.param is Some && out.param->0@ == t.label@,
        !(t.kind is PluginParam) ==> out.param is None,
        t.kind matches ModTargetKind::ModulatorRate { mod_index } ==> out.mod_rate == Some(mod_index),
        t.kind matches ModTargetKind::ModulatorAttack { mod_index } ==> out.mod_attack == Some(mod_index),
        t.kind matches ModTargetKind::ModulatorDecay { mod_index } ==> out.mod_decay == Some(mod_index),
        t.kind matches ModTargetKind::ModulatorSustain { mod_index } ==> out.mod_sustain == Some(mod_index),
        t.kind matches ModTargetKind::ModulatorRelease { mod_index } ==> out.mod_release == Some(mod_index),
        t.kind matches ModTargetKind::ModulatorDepth { mod_index, target_index } ==> out.mod_depth is Some
            && out.mod_depth->0@ == seq![mod_index, target_index],
        out.mod_rate is Some ==> t.kind is ModulatorRate,
        out.mod_attack is Some ==> t.kind is ModulatorAttack,
        out.mod_decay is Some ==> t.kind is ModulatorDecay,
        out.mod_sustain is Some ==> t.kind is ModulatorSustain,
        out.mod_release is Some ==> t.kind is ModulatorRelease,
        out.mod_depth is Some ==> t.kind is ModulatorDepth,
{
}

/// A split is written with its range in words, its transposition and all that sounds in it.
pub proof fn written_splits_are_those_saved<F>(s: SaveSplit<F>, out: SplitOut<F>, i: int)
    requires
        split_written(s, out),
    ensures
        s.range is None ==> out.range is None,
        s.range matches Some(range) ==> out.range is Some && out.range->0@ == range_text(range),
        out.transpose == s.transpose,
        s.instrument is None ==> out.instrument is None,
        s.instrument matches Some(p) ==> out.instrument is Some && out.instrument->0.plugin@ == p.plugin@
            && out.instrument->0.volume == p.volume,
        out.effects@.len() == s.effects@.len(),
        0 <= i < s.effects@.len() ==> out.effects@[i].plugin@ == s.effects@[i].plugin@ && out.effects@[i].mix
            == s.effects@[i].mix,
        s.pattern is None ==> out.pattern is None,
        s.pattern matches Some(p) ==> out.pattern is Some && pattern_written(p, out.pattern->0),
{
    if 0 <= i < s.effects@.len() {
        assert(effect_written(s.effects@[i], out.effects@[i]));
    }
}

/// A session is read keyboard by keyboard and split by split: nothing is left out, and every part
/// comes from the part at its place.
pub proof fn read_splits_are_those_written<F>(
    raw: Seq<KeyboardRaw<F>>,
    kbs: Seq<KeyboardConfig<F>>,
    k: int,
    i: int,
)
    requires
        keyboards_read(raw, kbs),
        0 <= k < raw.len(),
    ensures
        kbs.len() == raw.len(),
        kbs[k].name == raw[k].name,
        kbs[k].splits@.len() == raw[k].splits@.len(),
        0 <= i < raw[k].splits@.len() ==> {
            let (from, to) = (raw[k].splits@[i], kbs[k].splits@[i]);
            &&& to.transpose == from.transpose
            &&& to.instrument == from.instrument
            &&& to.effects == from.effects
            &&& to.range is Some <==> from.range is Some
            &&& from.range matches Some(r) ==> parsed_range(r@) == Ok::<(u8, u8), RangeFault>(to.range->0)
            &&& to.pattern is Some <==> from.pattern is Some
            &&& from.pattern matches Some(p) ==> {
                let q = to.pattern->0;
                &&& q.bpm == p.bpm && q.length_beats == p.length_beats
                &&& q.looping == p.looping && q.enabled == p.enabled
                &&& q.events@.len() == p.events@.len()
                &&& q.base_note is Some <==> p.base_note is Some
            }
        },
{
    assert(splits_read(raw[k].splits@, kbs[k].splits@));
    if 0 <= i < raw[k].splits@.len() {
        assert(split_read(raw[k].splits@[i], kbs[k].splits@[i]));
    }
}

// ---------------------------------------------------------------------------
// Showing what was loaded
// ---------------------------------------------------------------------------

/// A loaded pattern is shown as it is, and is not recording.
pub proof fn loaded_patterns_are_shown<F>(p: LoadedPattern<F>)
    ensures
        loaded_pattern(p).bpm == p.bpm,
        loaded_pattern(p).length_beats == p.length_beats,
        loaded_pattern(p).looping == p.looping,
        loaded_pattern(p).base_note == p.base_note,
        loaded_pattern(p).events == p.events@,
        loaded_pattern(p).enabled == p.enabled,
        !loaded_pattern(p).recording,
{
}

/// A loaded modulator is shown with its own settings, and every target drives the parameter that it
/// names, as deeply and in the range that it has.
pub proof fn loaded_modulators_are_shown<F>(m: LoadedModulator<F>, i: int)
    ensures
        m.source matches LoadedModSource::Lfo { waveform, rate } ==> loaded_modulator(m).source == (ModSourceSlot::Lfo {
            waveform,
            rate,
        }),
        m.source matches LoadedModSource::Envelope { attack, decay, sustain, release } ==> loaded_modulator(m).source
            == (ModSourceSlot::Envelope { attack, decay, sustain, release }),
        loaded_modulator(m).targets.len() == m.targets@.len(),
        0 <= i < m.targets@.len() ==> ({
            let (shown, loaded) = (loaded_modulator(m).targets[i], m.targets@[i]);
            &&& shown.kind == (ModTargetKind::PluginParam { param_index: loaded.param_index })
            &&& shown.param_name == loaded.param_name
            &&& shown.depth == loaded.depth
            &&& shown.param_min == loaded.param_min
            &&& shown.param_max == loaded.param_max
        }),
{
}

/// A loaded plugin is shown under its own name and identifier, with its modulators in their order.
pub proof fn loaded_plugins_are_shown<F>(p: LoadedPlugin<F>, i: int)
    ensures
        loaded_plugin(p).name == p.name@,
        loaded_plugin(p).id == p.id@,
        loaded_plugin(p).format == format_of(p.id@),
        loaded_plugin(p).is_instrument == p.is_instrument,
        loaded_plugin(p).modulators.len() == p.modulators@.len(),
        0 <= i < p.modulators@.len() ==> loaded_plugin(p).modulators[i] == loaded_modulator(p.modulators@[i]),
{
}

/// Every loaded keyboard is shown under its name, with every split in its place, and every split
/// with its range, its transposition and all that sounds in it.
pub proof fn loaded_keyboards_are_shown<F>(k: LoadedKeyboard<F>, s: LoadedSplit<F>, i: int)
    ensures
        loaded_keyboard(k).name == k.name@,
        loaded_keyboard(k).splits.len() == k.splits@.len(),
        0 <= i < k.splits@.len() ==> loaded_keyboard(k).splits[i] == loaded_split(k.splits@[i]),
        loaded_split(s).range == s.range,
        loaded_split(s).transpose == s.transpose,
        loaded_split(s).instrument is Some <==> s.instrument is Some,
        s.instrument matches Some(p) ==> loaded_split(s).instrument == Some(loaded_plugin(p)),
        loaded_split(s).pattern is Some <==> s.pattern is Some,
        s.pattern matches Some(p) ==> loaded_split(s).pattern == Some(loaded_pattern(p)),
        loaded_split(s).effects.len() == s.effects@.len(),
        0 <= i < s.effects@.len() ==> loaded_split(s).effects[i] == loaded_plugin(s.effects@[i]),
{
}

/// The tempo of a session is that of its first pattern: no split before it, on its keyboard or on
/// one before, has a pattern. A session without patterns has none.
pub proof fn first_pattern_gives_the_tempo<F>(kbs: Seq<KeyboardView<F>>, k: int, s: int)
    requires
        0 <= k < kbs.len(),
        0 <= s < kbs[k].splits.len(),
        kbs[k].splits[s].pattern is Some,
        forall|j: int| 0 <= j < s ==> (#[trigger] kbs[k].splits[j]).pattern is None,
        forall|l: int, j: int|
            0 <= l < k && 0 <= j < kbs[l].splits.len() ==> (#[trigger] kbs[l].splits[j]).pattern is None,
    ensures
        first_bpm(kbs) == Some(kbs[k].splits[s].pattern->0.bpm),
    decreases kbs.len(),
{
    if k == 0 {
        lemma_first_split(kbs[0].splits, s);
    } else {
        assert forall|j: int| 0 <= j < kbs[0].splits.len() implies (#[trigger] kbs[0].splits[j]).pattern is None by {}
        lemma_no_pattern(kbs[0].splits);
        let rest = kbs.drop_first();
        assert(rest[k - 1] == kbs[k]);
        assert forall|l: int, j: int|
            0 <= l < k - 1 && 0 <= j < rest[l].splits.len() implies (#[trigger] rest[l].splits[j]).pattern is None by {
            assert(rest[l] == kbs[l + 1]);
            assert(kbs[l + 1].splits[j].pattern is None);
        }
        first_pattern_gives_the_tempo(rest, k - 1, s);
    }
}

proof fn lemma_first_split<F>(splits: Seq<SplitView<F>>, s: int)
    requires
        0 <= s < splits.len(),
        splits[s].pattern is Some,
        forall|j: int| 0 <= j < s ==> (#[trigger] splits[j]).pattern is None,
    ensures
        first_split_bpm(splits) == Some(splits[s].pattern->0.bpm),
    decreases splits.len(),
{
    if s > 0 {
        let rest = splits.drop_first();
        assert(splits[0].pattern is None);
        assert forall|j: int| 0 <= j < s - 1 implies (#[trigger] rest[j]).pattern is None by {
            assert(rest[j] == splits[j + 1]);
        }
        lemma_first_split(rest, s - 1);
    }
}

proof fn lemma_no_pattern<F>(splits: Seq<SplitView<F>>)
    requires
        forall|j: int| 0 <= j < splits.len() ==> (#[trigger] splits[j]).pattern is None,
    ensures
        first_split_bpm(splits) is None,
    decreases splits.len(),
{
    if splits.len() > 0 {
        let rest = splits.drop_first();
        assert(splits[0].pattern is None);
        assert forall|j: int| 0 <= j < rest.len() implies (#[trigger] rest[j]).pattern is None by {
            assert(rest[j] == splits[j + 1]);
        }
        lemma_no_pattern(rest);
    }
}

} // verus!
