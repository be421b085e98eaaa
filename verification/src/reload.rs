//! What a session file gives back of a session that was saved to it.
use vstd::prelude::*;

use crate::modulation::ModTargetKind;
use crate::session::{
    effect_written, event_error, event_of, event_sound, events_readable, keyboard_written, keyboards_error,
    keyboards_read, keyboards_readable, modulator_written, modulators_written, param_map, pattern_as_written,
    pattern_error, saved_pattern_is_readable, saved_pattern_reads_back, saved_range_reads_back, split_error,
    split_read, split_readable, split_written, splits_error, splits_read, splits_readable, target_written,
    EffectConfig, EffectOut, InstrumentOut, KeyboardConfig, KeyboardOut, KeyboardRaw, ModTargetConfig,
    ModTargetOut, ModulatorConfig, ModulatorOut, PatternConfig, PluginConfig, SaveEffect, SaveInstrument,
    SaveKeyboard, SaveModSource, SaveModTarget, SaveModulator, SavePattern, SaveSplit, SessionConfig,
    SessionError, SplitConfig, SplitOut, SplitRaw,
};

verus! {

// ---------------------------------------------------------------------------
// A file is read as it stands
// ---------------------------------------------------------------------------

/// Whether the text of an entry is read as it stands.
pub open spec fn text_as_written(out: Option<String>, raw: Option<String>) -> bool {
    match out {
        Some(text) => raw is Some && raw->0@ == text@,
        None => raw is None,
    }
}

/// Whether a written target is read as it stands.
pub open spec fn target_as_written<F>(out: ModTargetOut<F>, raw: ModTargetConfig<F>) -> bool {
    &&& text_as_written(out.param, raw.param)
    &&& raw.mod_rate == out.mod_rate
    &&& match out.mod_depth {
        Some(pair) => raw.mod_depth is Some && raw.mod_depth->0@ == pair@,
        None => raw.mod_depth is None,
    }
    &&& raw.mod_attack == out.mod_attack
    &&& raw.mod_decay == out.mod_decay
    &&& raw.mod_sustain == out.mod_sustain
    &&& raw.mod_release == out.mod_release
    &&& raw.depth == out.depth
}

/// Whether a written modulator is read as it stands. Entries that are left out may get any value.
pub open spec fn modulator_as_written<F>(out: ModulatorOut<F>, raw: ModulatorConfig<F>) -> bool {
    &&& raw.mod_type@ == out.mod_type@
    &&& out.waveform matches Some(w) ==> raw.waveform@ == w@
    &&& out.rate matches Some(v) ==> raw.rate == v
    &&& out.attack matches Some(v) ==> raw.attack == v
    &&& out.decay matches Some(v) ==> raw.decay == v
    &&& out.sustain matches Some(v) ==> raw.sustain == v
    &&& out.release matches Some(v) ==> raw.release == v
    &&& raw.targets@.len() == out.targets@.len()
    &&& forall|i: int| 0 <= i < out.targets@.len() ==> target_as_written(out.targets@[i], #[trigger] raw.targets@[i])
}

/// Whether written modulators are read as they stand.
pub open spec fn modulators_as_written<F>(out: Seq<ModulatorOut<F>>, raw: Seq<ModulatorConfig<F>>) -> bool {
    &&& raw.len() == out.len()
    &&& forall|i: int| 0 <= i < out.len() ==> modulator_as_written(out[i], #[trigger] raw[i])
}

/// Whether a written instrument is read as it stands. A file that was saved names no preset and
/// remaps no notes; parameters come in any order.
pub open spec fn instrument_as_written<F>(out: InstrumentOut<F>, raw: PluginConfig<F>) -> bool {
    &&& raw.plugin@ == out.plugin@
    &&& raw.preset is None
    &&& raw.volume == out.volume
    &&& raw.remap@.len() == 0
    &&& param_map(raw.params@) == param_map(out.params@)
    &&& modulators_as_written(out.modulators@, raw.modulators@)
}

/// Whether a written effect is read as it stands.
pub open spec fn effect_as_written<F>(out: EffectOut<F>, raw: EffectConfig<F>) -> bool {
    &&& raw.plugin@ == out.plugin@
    &&& raw.preset is None
    &&& raw.mix == out.mix
    &&& param_map(raw.params@) == param_map(out.params@)
    &&& modulators_as_written(out.modulators@, raw.modulators@)
}

/// Whether a written split is read as it stands.
pub open spec fn split_as_written<F>(out: SplitOut<F>, raw: SplitRaw<F>) -> bool {
    &&& text_as_written(out.range, raw.range)
    &&& raw.transpose == out.transpose
    &&& match out.instrument {
        Some(i) => raw.instrument is Some && instrument_as_written(i, raw.instrument->0),
        None => raw.instrument is None,
    }
    &&& raw.effects@.len() == out.effects@.len()
    &&& forall|i: int| 0 <= i < out.effects@.len() ==> effect_as_written(out.effects@[i], #[trigger] raw.effects@[i])
    &&& match out.pattern {
        Some(p) => raw.pattern is Some && pattern_as_written(p, raw.pattern->0),
        None => raw.pattern is None,
    }
}

/// Whether a written keyboard is read as it stands.
pub open spec fn keyboard_as_written<F>(out: KeyboardOut<F>, raw: KeyboardRaw<F>) -> bool {
    &&& text_as_written(out.name, raw.name)
    &&& raw.splits@.len() == out.splits@.len()
    &&& forall|i: int| 0 <= i < out.splits@.len() ==> split_as_written(out.splits@[i], #[trigger] raw.splits@[i])
}

// ---------------------------------------------------------------------------
// A session is the one that was saved
// ---------------------------------------------------------------------------

/// Whether a target is the one that was saved.
pub open spec fn target_kept<F>(t: SaveModTarget<F>, c: ModTargetConfig<F>) -> bool {
    &&& c.depth == t.depth
    &&& match t.kind {
        ModTargetKind::PluginParam { .. } => c.param is Some && c.param->0@ == t.label@,
        ModTargetKind::ModulatorRate { mod_index } => c.param is None && c.mod_rate == Some(mod_index),
        ModTargetKind::ModulatorDepth { mod_index, target_index } => {
            &&& c.param is None && c.mod_rate is None
            &&& c.mod_depth is Some && c.mod_depth->0@ == seq![mod_index, target_index]
        },
        ModTargetKind::ModulatorAttack { mod_index } => {
            &&& c.param is None && c.mod_rate is None && c.mod_depth is None
            &&& c.mod_attack == Some(mod_index)
        },
        ModTargetKind::ModulatorDecay { mod_index } => {
            &&& c.param is None && c.mod_rate is None && c.mod_depth is None && c.mod_attack is None
            &&& c.mod_decay == Some(mod_index)
        },
        ModTargetKind::ModulatorSustain { mod_index } => {
            &&& c.param is None && c.mod_rate is None && c.mod_depth is None && c.mod_attack is None
            &&& c.mod_decay is None && c.mod_sustain == Some(mod_index)
        },
        ModTargetKind::ModulatorRelease { mod_index } => {
            &&& c.param is None && c.mod_rate is None && c.mod_depth is None && c.mod_attack is None
            &&& c.mod_decay is None && c.mod_sustain is None && c.mod_release == Some(mod_index)
        },
    }
}

/// Whether a modulator is the one that was saved.
pub open spec fn modulator_kept<F>(m: SaveModulator<F>, c: ModulatorConfig<F>) -> bool {
    &&& match m.source {
        SaveModSource::Lfo { waveform, rate } => c.mod_type@ == "lfo"@ && c.waveform@ == waveform@ && c.rate == rate,
        SaveModSource::Envelope { attack, decay, sustain, release } => {
            &&& c.mod_type@ == "envelope"@
            &&& c.attack == attack && c.decay == decay && c.sustain == sustain && c.release == release
        },
    }
    &&& c.targets@.len() == m.targets@.len()
    &&& forall|i: int| 0 <= i < m.targets@.len() ==> target_kept(m.targets@[i], #[trigger] c.targets@[i])
}

/// Whether modulators are those that were saved.
pub open spec fn modulators_kept<F>(mods: Seq<SaveModulator<F>>, c: Seq<ModulatorConfig<F>>) -> bool {
    &&& c.len() == mods.len()
    &&& forall|i: int| 0 <= i < mods.len() ==> modulator_kept(mods[i], #[trigger] c[i])
}

/// Whether an instrument is the one that was saved.
pub open spec fn instrument_kept<F>(i: SaveInstrument<F>, c: PluginConfig<F>) -> bool {
    &&& c.plugin@ == i.plugin@
    &&& c.preset is None
    &&& c.volume == i.volume
    &&& c.remap@.len() == 0
    &&& param_map(c.params@) == param_map(i.params@)
    &&& modulators_kept(i.modulators@, c.modulators@)
}

/// Whether an effect is the one that was saved.
pub open spec fn effect_kept<F>(e: SaveEffect<F>, c: EffectConfig<F>) -> bool {
    &&& c.plugin@ == e.plugin@
    &&& c.preset is None
    &&& c.mix == e.mix
    &&& param_map(c.params@) == param_map(e.params@)
    &&& modulators_kept(e.modulators@, c.modulators@)
}

/// Whether a pattern is the one that was saved.
pub open spec fn pattern_kept<F>(p: SavePattern<F>, c: PatternConfig<F>) -> bool {
    &&& c.bpm == p.bpm
    &&& c.length_beats == p.length_beats
    &&& c.looping == p.looping
    &&& c.enabled == p.enabled
    &&& c.base_note == p.base_note
    &&& c.events@ == p.events@
}

/// Whether a split is the one that was saved.
pub open spec fn split_kept<F>(s: SaveSplit<F>, c: SplitConfig<F>) -> bool {
    &&& c.range == s.range
    &&& c.transpose == s.transpose
    &&& match s.instrument {
        Some(i) => c.instrument is Some && instrument_kept(i, c.instrument->0),
        None => c.instrument is None,
    }
    &&& c.effects@.len() == s.effects@.len()
    &&& forall|i: int| 0 <= i < s.effects@.len() ==> effect_kept(s.effects@[i], #[trigger] c.effects@[i])
    &&& match s.pattern {
        Some(p) => c.pattern is Some && pattern_kept(p, c.pattern->0),
        None => c.pattern is None,
    }
}

/// Whether a keyboard is the one that was saved.
pub open spec fn keyboard_kept<F>(k: SaveKeyboard<F>, c: KeyboardConfig<F>) -> bool {
    &&& c.name is Some && c.name->0@ == k.name@
    &&& c.splits@.len() == k.splits@.len()
    &&& forall|i: int| 0 <= i < k.splits@.len() ==> split_kept(k.splits@[i], #[trigger] c.splits@[i])
}

/// Whether a split holds MIDI notes and ranges from C0 up. The names of lower notes hold a dash,
/// which a range cannot be told from.
pub open spec fn split_sound<F>(s: SaveSplit<F>) -> bool {
    &&& s.range matches Some((low, high)) ==> 12 <= low <= high <= 127
    &&& s.pattern matches Some(p) ==> {
        &&& p.base_note matches Some(note) ==> note <= 127
        &&& forall|i: int| 0 <= i < p.events@.len() ==> event_sound(#[trigger] p.events@[i])
    }
}

/// Whether all splits of a keyboard are sound.
pub open spec fn keyboard_sound<F>(k: SaveKeyboard<F>) -> bool {
    forall|i: int| 0 <= i < k.splits@.len() ==> split_sound(#[trigger] k.splits@[i])
}

// ---------------------------------------------------------------------------
// Part by part
// ---------------------------------------------------------------------------

proof fn lemma_modulators<F>(mods: Seq<SaveModulator<F>>, out: Seq<ModulatorOut<F>>, c: Seq<ModulatorConfig<F>>)
    requires
        modulators_written(mods, out),
        modulators_as_written(out, c),
    ensures
        modulators_kept(mods, c),
{
    assert forall|i: int| 0 <= i < mods.len() implies modulator_kept(mods[i], #[trigger] c[i]) by {
        assert(modulator_written(mods[i], out[i]));
        assert(modulator_as_written(out[i], c[i]));
        assert forall|j: int| 0 <= j < mods[i].targets@.len() implies target_kept(
            mods[i].targets@[j],
            #[trigger] c[i].targets@[j],
        ) by {
            assert(target_written(mods[i].targets@[j], out[i].targets@[j]));
            assert(target_as_written(out[i].targets@[j], c[i].targets@[j]));
        }
    }
}

/// What was saved of a split can be read, and is then the split that was saved.
proof fn lemma_split<F>(s: SaveSplit<F>, out: SplitOut<F>, raw: SplitRaw<F>)
    requires
        split_sound(s),
        split_written(s, out),
        split_as_written(out, raw),
    ensures
        split_readable(raw),
        forall|c: SplitConfig<F>| split_read(raw, c) ==> #[trigger] split_kept(s, c),
{
    saved_range_reads_back(s, out);
    if let Some(p) = s.pattern {
        saved_pattern_is_readable(p, out.pattern->0, raw.pattern->0);
    }
    assert forall|c: SplitConfig<F>| split_read(raw, c) implies #[trigger] split_kept(s, c) by {
        if let Some(i) = s.instrument {
            lemma_modulators(i.modulators@, out.instrument->0.modulators@, c.instrument->0.modulators@);
        }
        assert forall|i: int| 0 <= i < s.effects@.len() implies effect_kept(s.effects@[i], #[trigger] c.effects@[i]) by {
            assert(effect_written(s.effects@[i], out.effects@[i]));
            assert(effect_as_written(out.effects@[i], raw.effects@[i]));
            lemma_modulators(s.effects@[i].modulators@, out.effects@[i].modulators@, c.effects@[i].modulators@);
        }
        if let Some(p) = s.pattern {
            saved_pattern_reads_back(p, out.pattern->0, raw.pattern->0, c.pattern->0);
        }
    }
}

/// A split that can be read gives no error.
proof fn lemma_no_error<F>(raw: SplitRaw<F>, e: SessionError)
    requires
        split_readable(raw),
    ensures
        !split_error(e, raw),
{
    if split_error(e, raw) {
        let p = raw.pattern->0;
        let events = p.events@;
        assert(pattern_error(e->Pattern_0, p));
        let i = choose|i: int|
            0 <= i < events.len() && events_readable(events, i) && event_error(e->Pattern_0, #[trigger] events[i]);
        assert(event_of(events[i]) is Some);
        assert(false);
    }
}

/// A session that is saved and read back is the same session: its keyboards, splits, plugins,
/// parameter values, modulators and patterns.
pub proof fn saved_session_reads_back<F>(
    keyboards: Seq<SaveKeyboard<F>>,
    out: Seq<KeyboardOut<F>>,
    raw: Seq<KeyboardRaw<F>>,
    read: Result<SessionConfig<F>, SessionError>,
)
    requires
        forall|i: int| 0 <= i < keyboards.len() ==> keyboard_sound(#[trigger] keyboards[i]),
        out.len() == keyboards.len(),
        forall|i: int| 0 <= i < keyboards.len() ==> keyboard_written(keyboards[i], #[trigger] out[i]),
        raw.len() == out.len(),
        forall|i: int| 0 <= i < out.len() ==> keyboard_as_written(out[i], #[trigger] raw[i]),
        match read {
            Ok(s) => keyboards_read(raw, s.keyboards@),
            Err(e) => keyboards_error(e, raw),
        },
    ensures
        read matches Ok(s) && s.keyboards@.len() == keyboards.len() && forall|i: int|
            0 <= i < keyboards.len() ==> keyboard_kept(keyboards[i], #[trigger] s.keyboards@[i]),
{
    match read {
        Err(e) => {
            let k = choose|k: int|
                0 <= k < raw.len() && keyboards_readable(raw, k) && splits_error(e, (#[trigger] raw[k]).splits@);
            let splits = raw[k].splits@;
            let i = choose|i: int|
                0 <= i < splits.len() && splits_readable(splits, i) && split_error(e, #[trigger] splits[i]);
            assert(keyboard_sound(keyboards[k]) && keyboard_written(keyboards[k], out[k]));
            assert(keyboard_as_written(out[k], raw[k]));
            assert(split_sound(keyboards[k].splits@[i]));
            assert(split_written(keyboards[k].splits@[i], out[k].splits@[i]));
            assert(split_as_written(out[k].splits@[i], splits[i]));
            lemma_split(keyboards[k].splits@[i], out[k].splits@[i], splits[i]);
            lemma_no_error(splits[i], e);
        },
        Ok(s) => {
            assert forall|k: int| 0 <= k < keyboards.len() implies keyboard_kept(
                keyboards[k],
                #[trigger] s.keyboards@[k],
            ) by {
                assert(keyboard_sound(keyboards[k]) && keyboard_written(keyboards[k], out[k]));
                assert(keyboard_as_written(out[k], raw[k]));
                assert(splits_read(raw[k].splits@, s.keyboards@[k].splits@));
                assert forall|i: int| 0 <= i < keyboards[k].splits@.len() implies split_kept(
                    keyboards[k].splits@[i],
                    #[trigger] s.keyboards@[k].splits@[i],
                ) by {
                    assert(split_sound(keyboards[k].splits@[i]));
                    assert(split_written(keyboards[k].splits@[i], out[k].splits@[i]));
                    assert(split_as_written(out[k].splits@[i], raw[k].splits@[i]));
                    lemma_split(keyboards[k].splits@[i], out[k].splits@[i], raw[k].splits@[i]);
                    assert(split_read(raw[k].splits@[i], s.keyboards@[k].splits@[i]));
                }
            }
        },
    }
}

} // verus!
