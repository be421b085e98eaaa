//! Laws of the piano on the computer keyboard.
use vstd::prelude::*;

use crate::piano::{key_note_offs, key_semitones, keys_without, KeyAction, PianoState};

verus! {

/// The keys of the two rows play semitone by semitone: the lower row from the C of its octave on,
/// the upper row from the C an octave above.
pub proof fn rows_play_semitone_by_semitone(i: int)
    requires
        0 <= i < 17,
    ensures
        "zsxdcvgbhnjm,l.;/"@.len() == 17,
        "q2w3er5t6y7ui9o0p"@.len() == 17,
        key_semitones("zsxdcvgbhnjm,l.;/"@[i]) == Some(i),
        key_semitones("q2w3er5t6y7ui9o0p"@[i]) == Some(12 + i),
{
    reveal_strlit("zsxdcvgbhnjm,l.;/");
    reveal_strlit("q2w3er5t6y7ui9o0p");
}

/// A letter plays the same with and without shift.
pub proof fn shift_does_not_matter(key: char, shifted: char)
    requires
        'a' <= key <= 'z',
        shifted as u32 == key as u32 - 32,
    ensures
        key_semitones(shifted) == key_semitones(key),
{
    assert('A' <= shifted <= 'Z');
    assert((shifted as u32 + 32) as char == key);
}

/// No other key plays.
pub proof fn other_keys_are_silent(p: PianoState, key: char, action: KeyAction)
    requires
        key != '[',
        key != ']',
        key_semitones(key) is None,
    ensures
        p.message(key, action) is None,
        p.after(key, action) == p,
{
}

/// A key that goes down sends a note-on for its semitone in the octave that is set, at the velocity
/// of the piano, and is held from then on. Coming up it sends the note-off for the same note and is
/// held no longer; other keys stay held, in order.
pub proof fn keys_play_their_notes(p: PianoState, key: char)
    requires
        p.wf(),
        p.enabled,
        key_semitones(key) is Some,
    ensures
        ({
            let note = 12 * p.base_octave + key_semitones(key)->0;
            let down = p.message(key, KeyAction::Press);
            let up = p.message(key, KeyAction::Release);
            &&& p.held_keys.contains(key) ==> down is None && p.after(key, KeyAction::Press) == p
            &&& !p.held_keys.contains(key) ==> {
                &&& down is Some
                &&& (down->0).0 == 0
                &&& (down->0).1[0] == 0x90 && (down->0).1[1] == note && (down->0).1[2] == 100
                &&& p.after(key, KeyAction::Press) == (PianoState { held_keys: p.held_keys.push(key), ..p })
            }
            &&& up is Some
            &&& (up->0).0 == 0
            &&& (up->0).1[0] == 0x80 && (up->0).1[1] == note && (up->0).1[2] == 0
            &&& p.after(key, KeyAction::Release) == (PianoState {
                held_keys: p.held_keys.filter(|k: char| k != key),
                ..p
            })
            &&& p.message(key, KeyAction::Repeat) is None && p.after(key, KeyAction::Repeat) == p
        }),
{
    lemma_bracket_is_no_key(key);
    let keep = |k: char| k != key;
    lemma_keys_without_is_filter(p.held_keys, key, keep);
}

proof fn lemma_bracket_is_no_key(key: char)
    requires
        key_semitones(key) is Some,
    ensures
        key != '[',
        key != ']',
{
}

proof fn lemma_keys_without_is_filter(keys: Seq<char>, key: char, keep: spec_fn(char) -> bool)
    requires
        forall|k: char| #[trigger] keep(k) <==> k != key,
    ensures
        keys_without(keys, key) == keys.filter(keep),
    decreases keys.len(),
{
    reveal(Seq::filter);
    if keys.len() > 0 {
        lemma_keys_without_is_filter(keys.drop_last(), key, keep);
        assert(keep(keys.last()) <==> keys.last() != key);
    }
}

/// The brackets move the piano by one octave, down to octave 0 and up to octave 8, and send nothing.
pub proof fn brackets_change_the_octave(p: PianoState)
    requires
        p.wf(),
        p.enabled,
    ensures
        p.message('[', KeyAction::Press) is None,
        p.message(']', KeyAction::Press) is None,
        p.after('[', KeyAction::Press).base_octave == if p.base_octave > 0 {
            p.base_octave - 1
        } else {
            0
        },
        p.after(']', KeyAction::Press).base_octave == if p.base_octave < 8 {
            p.base_octave + 1
        } else {
            8
        },
        p.after('[', KeyAction::Press).held_keys == p.held_keys,
        p.after(']', KeyAction::Press).held_keys == p.held_keys,
        p.after('[', KeyAction::Press).enabled,
        p.after(']', KeyAction::Press).enabled,
{
}

/// A piano that is off does nothing.
pub proof fn disabled_pianos_are_silent(p: PianoState, key: char, action: KeyAction)
    requires
        !p.enabled,
    ensures
        p.message(key, action) is None,
        p.after(key, action) == p,
{
}

/// Letting go of everything sends one note-off for each key held, in the order in which they went
/// down.
pub proof fn all_held_keys_are_released(octave: int, keys: Seq<char>, i: int)
    requires
        0 <= octave <= 8,
        forall|k: int| 0 <= k < keys.len() ==> key_semitones(#[trigger] keys[k]) is Some,
        0 <= i < keys.len(),
    ensures
        ({
            let offs = key_note_offs(octave, keys);
            &&& offs.len() == keys.len()
            &&& offs[i].0 == 0
            &&& offs[i].1[0] == 0x80
            &&& offs[i].1[1] == 12 * octave + key_semitones(keys[i])->0
            &&& offs[i].1[2] == 0
        }),
    decreases keys.len(),
{
    reveal_with_fuel(key_note_offs, 2);
    let front = keys.drop_last();
    assert(key_semitones(keys[keys.len() - 1]) is Some);
    assert(0 <= key_semitones(keys.last())->0 <= 28);
    assert forall|k: int| 0 <= k < front.len() implies key_semitones(#[trigger] front[k]) is Some by {
        assert(front[k] == keys[k]);
    }
    if i < front.len() {
        all_held_keys_are_released(octave, front, i);
        assert(key_note_offs(octave, keys)[i] == key_note_offs(octave, front)[i]);
    } else if front.len() > 0 {
        all_held_keys_are_released(octave, front, 0);
    }
}

} // verus!
