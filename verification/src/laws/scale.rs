//! Laws of scales and tonality.
use vstd::prelude::*;

use vstd::arithmetic::div_mod::{lemma_fundamental_div_mod, lemma_fundamental_div_mod_converse, lemma_mod_bound};
use crate::scale::{
    accidental_root, midi_clamped, natural_root, scale_intervals, scale_shape, scales_are_well_shaped,
    tone_position, ScaleSetting, NOTE_NAMES, SCALE_DEGREES, SCALE_NAMES, SCALE_SHORTS,
};

verus! {

// ---------------------------------------------------------------------------
// The scales
// ---------------------------------------------------------------------------

/// A mode is the major scale begun on another of its tones: the tone `i` of mode `idx` lies as far
/// above its root as the major scale rises from its tone `from` to the `i`th tone after it.
pub proof fn modes_are_the_major_scale_from_another_tone(idx: int, from: int, i: int)
    requires
        ({
            ||| idx == 4 && from == 1
            ||| idx == 5 && from == 2
            ||| idx == 6 && from == 3
            ||| idx == 7 && from == 4
            ||| idx == 1 && from == 5
            ||| idx == 8 && from == 6
        }),
        0 <= i < 7,
    ensures
        ({
            let major = scale_intervals(0);
            let mode = scale_intervals(idx);
            &&& major == seq![0u8, 2, 4, 5, 7, 9, 11]
            &&& mode.len() == 7
            &&& mode[i] == if from + i < 7 {
                major[from + i] - major[from]
            } else {
                major[from + i - 7] + 12 - major[from]
            }
        }),
{
    reveal(scale_intervals);
}

/// The other scales follow from the major and the minor scale, or from their steps: the harmonic
/// minor raises the seventh of the minor, the melodic minor the sixth and the seventh; the
/// pentatonics leave out two tones, and the blues scale adds the flat fifth to the minor one; the
/// whole tone scale goes in twos, the diminished one in twos and ones, the chromatic one in ones.
pub proof fn scales_follow_from_each_other(i: int)
    ensures
        ({
            let major = scale_intervals(0);
            let minor = scale_intervals(1);
            let harmonic = scale_intervals(2);
            let melodic = scale_intervals(3);
            let blues = scale_intervals(11);
            let minor_pentatonic = scale_intervals(10);
            let whole = scale_intervals(12);
            let diminished = scale_intervals(13);
            let chromatic = scale_intervals(14);
            &&& harmonic.len() == 7 && melodic.len() == 7
            &&& 0 <= i < 6 ==> harmonic[i] == minor[i]
            &&& harmonic[6] == minor[6] + 1
            &&& 0 <= i < 5 ==> melodic[i] == minor[i]
            &&& melodic[5] == minor[5] + 1 && melodic[6] == minor[6] + 1
            &&& scale_intervals(9) == seq![major[0], major[1], major[2], major[4], major[5]]
            &&& minor_pentatonic == seq![minor[0], minor[2], minor[3], minor[4], minor[6]]
            &&& blues == minor_pentatonic.insert(3, 6u8)
            &&& whole.len() == 6 && (0 <= i < 6 ==> whole[i] == 2 * i)
            &&& diminished.len() == 8 && diminished[0] == 0
            &&& 0 <= i < 7 ==> diminished[i + 1] - diminished[i] == 2 - i % 2
            &&& chromatic.len() == 12 && (0 <= i < 12 ==> chromatic[i] == i)
        }),
{
    reveal(scale_intervals);
}

/// The names stand for their scales.
pub proof fn scales_have_their_names()
    ensures
        SCALE_NAMES@[0]@ == "Major"@ && SCALE_SHORTS@[0]@ == "major"@,
        SCALE_NAMES@[1]@ == "Natural Minor"@ && SCALE_SHORTS@[1]@ == "minor"@,
        SCALE_NAMES@[2]@ == "Harmonic Minor"@ && SCALE_SHORTS@[2]@ == "harm minor"@,
        SCALE_NAMES@[3]@ == "Melodic Minor"@ && SCALE_SHORTS@[3]@ == "mel minor"@,
        SCALE_NAMES@[4]@ == "Dorian"@ && SCALE_SHORTS@[4]@ == "dorian"@,
        SCALE_NAMES@[5]@ == "Phrygian"@ && SCALE_SHORTS@[5]@ == "phrygian"@,
        SCALE_NAMES@[6]@ == "Lydian"@ && SCALE_SHORTS@[6]@ == "lydian"@,
        SCALE_NAMES@[7]@ == "Mixolydian"@ && SCALE_SHORTS@[7]@ == "mixolydian"@,
        SCALE_NAMES@[8]@ == "Locrian"@ && SCALE_SHORTS@[8]@ == "locrian"@,
        SCALE_NAMES@[9]@ == "Major Pentatonic"@ && SCALE_SHORTS@[9]@ == "maj pent"@,
        SCALE_NAMES@[10]@ == "Minor Pentatonic"@ && SCALE_SHORTS@[10]@ == "min pent"@,
        SCALE_NAMES@[11]@ == "Blues"@ && SCALE_SHORTS@[11]@ == "blues"@,
        SCALE_NAMES@[12]@ == "Whole Tone"@ && SCALE_SHORTS@[12]@ == "whole tone"@,
        SCALE_NAMES@[13]@ == "Diminished"@ && SCALE_SHORTS@[13]@ == "diminished"@,
        SCALE_NAMES@[14]@ == "Chromatic"@ && SCALE_SHORTS@[14]@ == "chromatic"@,
{
}

/// Degrees are named after the tones of the major scale, those between them after the tone above
/// with a flat.
pub proof fn degrees_are_named_after_the_major_scale(i: int)
    requires
        0 <= i < 7,
    ensures
        ({
            let major = scale_intervals(0);
            &&& SCALE_DEGREES@[major[0] as int]@ == "1"@
            &&& SCALE_DEGREES@[major[1] as int]@ == "2"@
            &&& SCALE_DEGREES@[major[2] as int]@ == "3"@
            &&& SCALE_DEGREES@[major[3] as int]@ == "4"@
            &&& SCALE_DEGREES@[major[4] as int]@ == "5"@
            &&& SCALE_DEGREES@[major[5] as int]@ == "6"@
            &&& SCALE_DEGREES@[major[6] as int]@ == "7"@
            &&& SCALE_DEGREES@[12]@ == "8"@
            &&& i > 0 && major[i] - major[i - 1] == 2 ==> SCALE_DEGREES@[major[i] - 1]@ == "b"@
                + SCALE_DEGREES@[major[i] as int]@
        }),
{
    reveal(scale_intervals);
    reveal_strlit("b");
    reveal_strlit("2");
    reveal_strlit("3");
    reveal_strlit("5");
    reveal_strlit("6");
    reveal_strlit("7");
    reveal_strlit("b2");
    reveal_strlit("b3");
    reveal_strlit("b5");
    reveal_strlit("b6");
    reveal_strlit("b7");
    assert("b2"@ =~= "b"@ + "2"@);
    assert("b3"@ =~= "b"@ + "3"@);
    assert("b5"@ =~= "b"@ + "5"@);
    assert("b6"@ =~= "b"@ + "6"@);
    assert("b7"@ =~= "b"@ + "7"@);
}

/// A root with a sharp lies one semitone above the letter, one with a flat one below it; the names
/// of the pitch classes are those of the letters and the sharps between them.
pub proof fn roots_are_letters_and_accidentals(letter: char)
    requires
        ({
            ||| letter == 'C' || letter == 'D' || letter == 'E' || letter == 'F' || letter == 'G'
            ||| letter == 'A' || letter == 'B' || letter == 'c' || letter == 'd' || letter == 'e'
            ||| letter == 'f' || letter == 'g' || letter == 'a' || letter == 'b'
        }),
    ensures
        natural_root('C') == Some(0u8),
        natural_root('D') == Some(2u8),
        natural_root('E') == Some(4u8),
        natural_root('F') == Some(5u8),
        natural_root('G') == Some(7u8),
        natural_root('A') == Some(9u8),
        natural_root('B') == Some(11u8),
        natural_root(letter) is Some,
        accidental_root(letter, '#') is Some ==> accidental_root(letter, '#')->0 == natural_root(letter)->0 + 1,
        accidental_root(letter, '#') is None <==> letter == 'E' || letter == 'B' || letter == 'e' || letter == 'b',
        accidental_root(letter, 'b') is Some ==> accidental_root(letter, 'b')->0 == natural_root(letter)->0 - 1,
        accidental_root(letter, 'b') is None <==> letter == 'C' || letter == 'F' || letter == 'c' || letter == 'f',
        natural_root(letter)->0 < 12,
        ({
            let name = NOTE_NAMES@[natural_root(letter)->0 as int]@;
            name.len() == 1 && natural_root(name[0]) == natural_root(letter)
        }),
        accidental_root(letter, '#') is Some ==> {
            let name = NOTE_NAMES@[accidental_root(letter, '#')->0 as int]@;
            name.len() == 2 && name[1] == '#' && natural_root(name[0]) == natural_root(letter)
        },
{
    assert(('C' as u32 + 32) as char == 'c');
    assert(('D' as u32 + 32) as char == 'd');
    assert(('E' as u32 + 32) as char == 'e');
    assert(('F' as u32 + 32) as char == 'f');
    assert(('G' as u32 + 32) as char == 'g');
    assert(('A' as u32 + 32) as char == 'a');
    assert(('B' as u32 + 32) as char == 'b');
    reveal_strlit("C");
    reveal_strlit("D");
    reveal_strlit("E");
    reveal_strlit("F");
    reveal_strlit("G");
    reveal_strlit("A");
    reveal_strlit("B");
    reveal_strlit("C#");
    reveal_strlit("D#");
    reveal_strlit("F#");
    reveal_strlit("G#");
    reveal_strlit("A#");
}

// ---------------------------------------------------------------------------
// Notes in a scale
// ---------------------------------------------------------------------------

/// The interval to a note is what has to be added to the root to come to its pitch class.
pub proof fn intervals_lead_to_their_notes(setting: ScaleSetting, note: int)
    ensures
        0 <= setting.interval_to(note) < 12,
        (setting.root + setting.interval_to(note)) % 12 == note % 12,
{
}

/// A note is in a scale exactly when it is one of the tones of the scale, counted from the root, in
/// some octave.
pub proof fn scale_notes_are_tones_above_the_root(setting: ScaleSetting, note: int)
    ensures
        setting.has(note) <==> exists|k: int|
            0 <= k < scale_intervals(setting.scale_idx as int).len() && (setting.root
                + #[trigger] scale_intervals(setting.scale_idx as int)[k]) % 12 == note % 12,
        setting.has(setting.root as int),
        setting.has(note) == setting.has(note + 12),
{
    let s = scale_intervals(setting.scale_idx as int);
    scales_are_well_shaped(setting.scale_idx as int);
    if setting.has(note) {
        let k = choose|k: int| 0 <= k < s.len() && s[k] == setting.interval_to(note) as u8;
        assert((setting.root + s[k]) % 12 == note % 12);
    }
    if exists|k: int| 0 <= k < s.len() && (setting.root + #[trigger] s[k]) % 12 == note % 12 {
        let k = choose|k: int| 0 <= k < s.len() && (setting.root + #[trigger] s[k]) % 12 == note % 12;
        assert(s[k] < 12);
        assert(setting.interval_to(note) == s[k]);
    }
    assert(s[0] == 0);
    assert(setting.interval_to(setting.root as int) == 0);
    assert(setting.interval_to(note + 12) == setting.interval_to(note));
}

/// Scale positions count the tones of the scale from the root up, octave by octave; an offset is
/// added on top.
pub proof fn positions_count_scale_tones(setting: ScaleSetting, k: int, octave: int, offset: int)
    requires
        0 <= k < scale_intervals(setting.scale_idx as int).len(),
    ensures
        ({
            let s = scale_intervals(setting.scale_idx as int);
            setting.pitch(octave * s.len() + k, offset) == setting.root + 12 * octave + s[k] + offset
        }),
{
    let len = scale_intervals(setting.scale_idx as int).len() as int;
    lemma_fundamental_div_mod_converse(octave * len + k, len, octave, k);
}

proof fn lemma_tone_below(s: Seq<u8>, pc: int, n: int)
    requires
        scale_shape(s),
        0 <= pc < 12,
        1 <= n <= s.len(),
    ensures
        0 <= tone_position(s, pc, n) < n,
        s[tone_position(s, pc, n)] <= pc,
        forall|k: int| tone_position(s, pc, n) < k < n ==> s[k] > pc,
    decreases n,
{
    if n > 1 && s[n - 1] > pc {
        lemma_tone_below(s, pc, n - 1);
    }
}

/// The position of a note is that of the scale tone at or below it: the next one lies above the
/// note, and the offset is what the note lies above its tone.
pub proof fn positions_are_the_tone_below(setting: ScaleSetting, note: int)
    ensures
        ({
            let (index, offset) = setting.position(note);
            &&& setting.pitch(index, 0) <= note
            &&& note < setting.pitch(index + 1, 0)
            &&& offset == note - setting.pitch(index, 0)
        }),
{
    let s = setting.intervals();
    let len = s.len() as int;
    scales_are_well_shaped(setting.scale_idx as int);
    let rel = note - setting.root;
    let octave = rel / 12;
    let pos = tone_position(s, rel % 12, len);
    lemma_tone_below(s, rel % 12, len);
    let (index, offset) = setting.position(note);
    positions_count_scale_tones(setting, pos, octave, 0);
    if pos + 1 < len {
        positions_count_scale_tones(setting, pos + 1, octave, 0);
    } else {
        positions_count_scale_tones(setting, 0, octave + 1, 0);
        assert((octave + 1) * len == octave * len + len) by (nonlinear_arith);
    }
}

proof fn lemma_position_of_tone(setting: ScaleSetting, index: int)
    ensures
        setting.position(setting.pitch(index, 0)) == (index, 0int),
{
    let s = setting.intervals();
    let len = s.len() as int;
    scales_are_well_shaped(setting.scale_idx as int);
    lemma_fundamental_div_mod(index, len);
    lemma_mod_bound(index, len);
    let octave = index / len;
    let k = index % len;
    let rel = 12 * octave + s[k];
    assert(rel / 12 == octave && rel % 12 == s[k]);
    let pos = tone_position(s, s[k] as int, len);
    lemma_tone_below(s, s[k] as int, len);
    if pos < k {
        assert(s[k] > s[k]);
    } else if k < pos {
        assert(s[k] < s[pos]);
    }
    assert(octave * len == len * octave) by (nonlinear_arith);
}

/// Transposing in key moves by degrees: a key `to - from` degrees away moves every tone of the scale
/// by that many degrees, and a note between two tones keeps its distance from the lower one.
pub proof fn transposing_in_key_moves_by_degrees(setting: ScaleSetting, index: int, offset: int, from: int, to: int)
    requires
        0 <= offset,
        setting.pitch(index, offset) < setting.pitch(index + 1, 0),
    ensures
        setting.pitch_moved(setting.pitch(index, offset), setting.pitch(from, 0), setting.pitch(to, 0))
            == setting.pitch(index + to - from, offset),
{
    let note = setting.pitch(index, offset);
    lemma_position_of_tone(setting, from);
    lemma_position_of_tone(setting, to);
    positions_are_the_tone_below(setting, note);
    let found = setting.position(note).0;
    if found < index {
        lemma_pitches_rise(setting, found + 1, index);
    } else if found > index {
        lemma_pitches_rise(setting, index + 1, found);
    }
}

proof fn lemma_pitches_rise(setting: ScaleSetting, a: int, b: int)
    requires
        a <= b,
    ensures
        setting.pitch(a, 0) <= setting.pitch(b, 0),
    decreases b - a,
{
    if a < b {
        lemma_pitches_rise(setting, a, b - 1);
        lemma_position_of_tone(setting, b - 1);
        positions_are_the_tone_below(setting, setting.pitch(b - 1, 0));
    }
}

/// A pitch within the MIDI range is kept, one below it becomes the lowest note and one above it the
/// highest.
pub proof fn pitches_are_held_within_midi(pitch: int)
    ensures
        0 <= pitch <= 127 ==> midi_clamped(pitch) == pitch,
        pitch < 0 ==> midi_clamped(pitch) == 0,
        pitch > 127 ==> midi_clamped(pitch) == 127,
{
}

} // verus!
