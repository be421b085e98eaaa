//! Musical scales and tonality.
//!
//! A [`ScaleSetting`] is a root and a scale, for instance C Major or F# Dorian.
use vstd::prelude::*;

use vstd::arithmetic::div_mod::lemma_fundamental_div_mod;
use vstd::arithmetic::div_mod::lemma_fundamental_div_mod_converse;
use crate::text::{is_space, lower, lowered, to_lower, trim, trimmed, trimmed_end, trimmed_start};

verus! {

/// Names of the twelve pitch classes.
pub const NOTE_NAMES: [&'static str; 12] = [
    "C",
    "C#",
    "D",
    "D#",
    "E",
    "F",
    "F#",
    "G",
    "G#",
    "A",
    "A#",
    "B",
];

/// Degree labels by semitones above the root.
pub const SCALE_DEGREES: [&'static str; 13] = [
    "1",
    "b2",
    "2",
    "b3",
    "3",
    "4",
    "b5",
    "5",
    "b6",
    "6",
    "b7",
    "7",
    "8",
];

/// How many scales there are.
pub const SCALE_COUNT: usize = 15;

/// Full names of the scales.
pub const SCALE_NAMES: [&'static str; 15] = [
    "Major",
    "Natural Minor",
    "Harmonic Minor",
    "Melodic Minor",
    "Dorian",
    "Phrygian",
    "Lydian",
    "Mixolydian",
    "Locrian",
    "Major Pentatonic",
    "Minor Pentatonic",
    "Blues",
    "Whole Tone",
    "Diminished",
    "Chromatic",
];

/// Short names of the scales.
pub const SCALE_SHORTS: [&'static str; 15] = [
    "major",
    "minor",
    "harm minor",
    "mel minor",
    "dorian",
    "phrygian",
    "lydian",
    "mixolydian",
    "locrian",
    "maj pent",
    "min pent",
    "blues",
    "whole tone",
    "diminished",
    "chromatic",
];

/// The tones of a scale, in semitones above the root, ascending.
#[verifier::opaque]
pub open spec fn scale_intervals(idx: int) -> Seq<u8> {
    if idx == 0 {
        seq![0u8, 2, 4, 5, 7, 9, 11]
    } else if idx == 1 {
        seq![0u8, 2, 3, 5, 7, 8, 10]
    } else if idx == 2 {
        seq![0u8, 2, 3, 5, 7, 8, 11]
    } else if idx == 3 {
        seq![0u8, 2, 3, 5, 7, 9, 11]
    } else if idx == 4 {
        seq![0u8, 2, 3, 5, 7, 9, 10]
    } else if idx == 5 {
        seq![0u8, 1, 3, 5, 7, 8, 10]
    } else if idx == 6 {
        seq![0u8, 2, 4, 6, 7, 9, 11]
    } else if idx == 7 {
        seq![0u8, 2, 4, 5, 7, 9, 10]
    } else if idx == 8 {
        seq![0u8, 1, 3, 5, 6, 8, 10]
    } else if idx == 9 {
        seq![0u8, 2, 4, 7, 9]
    } else if idx == 10 {
        seq![0u8, 3, 5, 7, 10]
    } else if idx == 11 {
        seq![0u8, 3, 5, 6, 7, 10]
    } else if idx == 12 {
        seq![0u8, 2, 4, 6, 8, 10]
    } else if idx == 13 {
        seq![0u8, 2, 3, 5, 6, 8, 9, 11]
    } else {
        seq![0u8, 1, 2, 3, 4, 5, 6, 7, 8, 9, 10, 11]
    }
}

/// A scale shape.
#[derive(Clone, Copy, Debug)]
pub struct Scale {
    pub name: &'static str,
    pub short: &'static str,
    pub intervals: &'static [u8],
}

/// A tonality: root pitch class (C is 0) and scale shape. The default is C Major.
#[derive(Clone, Copy, Debug, PartialEq, Eq, Structural)]
pub struct ScaleSetting {
    pub root: u8,
    pub scale_idx: usize,
}

impl Default for ScaleSetting {
    fn default() -> (s: Self)
        ensures
            s == (ScaleSetting { root: 0, scale_idx: 0 }),
    {
        ScaleSetting { root: 0, scale_idx: 0 }
    }
}

/// The scale at `idx`.
pub fn scale_at(idx: usize) -> (scale: Scale)
    requires
        idx < SCALE_COUNT,
    ensures
        scale.name@ == SCALE_NAMES@[idx as int]@,
        scale.short@ == SCALE_SHORTS@[idx as int]@,
        scale.intervals@ == scale_intervals(idx as int),
{
    Scale { name: SCALE_NAMES[idx], short: SCALE_SHORTS[idx], intervals: intervals_of(idx) }
}

/// The tones of the scale at `idx`.
fn intervals_of(idx: usize) -> (intervals: &'static [u8])
    requires
        idx < SCALE_COUNT,
    ensures
        intervals@ == scale_intervals(idx as int),
{
    proof {
        reveal(scale_intervals);
    }
    match idx {
        0 => &[0, 2, 4, 5, 7, 9, 11],
        1 => &[0, 2, 3, 5, 7, 8, 10],
        2 => &[0, 2, 3, 5, 7, 8, 11],
        3 => &[0, 2, 3, 5, 7, 9, 11],
        4 => &[0, 2, 3, 5, 7, 9, 10],
        5 => &[0, 1, 3, 5, 7, 8, 10],
        6 => &[0, 2, 4, 6, 7, 9, 11],
        7 => &[0, 2, 4, 5, 7, 9, 10],
        8 => &[0, 1, 3, 5, 6, 8, 10],
        9 => &[0, 2, 4, 7, 9],
        10 => &[0, 3, 5, 7, 10],
        11 => &[0, 3, 5, 6, 7, 10],
        12 => &[0, 2, 4, 6, 8, 10],
        13 => &[0, 2, 3, 5, 6, 8, 9, 11],
        _ => &[0, 1, 2, 3, 4, 5, 6, 7, 8, 9, 10, 11],
    }
}

/// What every scale has in common: it starts on the root, ascends, and stays within an octave.
pub open spec fn scale_shape(s: Seq<u8>) -> bool {
    &&& 1 <= s.len() <= 12
    &&& s[0] == 0
    &&& forall|i: int| 0 <= i < s.len() ==> #[trigger] s[i] < 12
    &&& forall|i: int, j: int| 0 <= i < j < s.len() ==> #[trigger] s[i] < #[trigger] s[j]
}

/// Every scale starts on the root, ascends, and stays within an octave.
pub proof fn scales_are_well_shaped(idx: int)
    ensures
        scale_shape(scale_intervals(idx)),
{
    reveal(scale_intervals);
}

/// The last position, below `n`, of a tone at or below `pc`; 0 where there is none.
pub open spec fn tone_position(s: Seq<u8>, pc: int, n: int) -> int
    decreases n,
{
    if n <= 1 {
        0
    } else if s[n - 1] <= pc {
        n - 1
    } else {
        tone_position(s, pc, n - 1)
    }
}

impl ScaleSetting {
    /// Whether the setting names one of the twelve roots and one of the scales.
    pub open spec fn valid(self) -> bool {
        self.root < 12 && self.scale_idx < SCALE_COUNT
    }

    pub open spec fn intervals(self) -> Seq<u8> {
        scale_intervals(self.scale_idx as int)
    }

    /// Semitones from the root up to the pitch class of a note.
    pub open spec fn interval_to(self, note: int) -> int {
        (note % 12 - self.root) % 12
    }

    /// Whether the pitch class of a note is in the scale.
    pub open spec fn has(self, note: int) -> bool {
        self.intervals().contains(self.interval_to(note) as u8)
    }

    /// Position of a note in the scale: degrees counted across octaves from the root, and the
    /// semitones left over above that degree.
    pub open spec fn position(self, note: int) -> (int, int) {
        let s = self.intervals();
        let rel = note - self.root;
        let pos = tone_position(s, rel % 12, s.len() as int);
        ((rel / 12) * s.len() + pos, rel % 12 - s[pos])
    }

    /// The note at a position.
    pub open spec fn pitch(self, index: int, offset: int) -> int {
        let s = self.intervals();
        let len = s.len() as int;
        self.root + (index / len) * 12 + s[index % len] + offset
    }

    /// The note, moved by as many degrees as lie between `from` and `to`.
    pub open spec fn pitch_moved(self, note: int, from: int, to: int) -> int {
        let (index, offset) = self.position(note);
        self.pitch(index + self.position(to).0 - self.position(from).0, offset)
    }
}

/// A pitch held within the MIDI range.
pub open spec fn midi_clamped(pitch: int) -> int {
    if pitch < 0 {
        0
    } else if pitch > 127 {
        127
    } else {
        pitch
    }
}

/// Whether `value` is one of `items`.
fn slice_has(items: &[u8], value: u8) -> (r: bool)
    ensures
        r == items@.contains(value),
{
    let n: usize = items.len();
    let mut i: usize = 0;
    while i < n
        invariant
            i <= n,
            n == items@.len(),
            forall|k: int| 0 <= k < i ==> items@[k] != value,
        decreases n - i,
    {
        if items[i] == value {
            assert(items@[i as int] == value);
            return true;
        }
        i = i + 1;
    }
    false
}

impl ScaleSetting {
    /// Semitones from the root up to the pitch class of `midi_note`.
    pub fn offset_of(&self, midi_note: u8) -> (offset: u8)
        ensures
            offset == self.interval_to(midi_note as int),
            offset < 12,
    {
        let pc: u8 = midi_note % 12;
        let down: u8 = self.root % 12;
        if pc >= down {
            pc - down
        } else {
            pc + 12 - down
        }
    }

    /// Whether the pitch class of `midi_note` is in the scale.
    pub fn contains(&self, midi_note: u8) -> (r: bool)
        requires
            self.scale_idx < SCALE_COUNT,
        ensures
            r == self.has(midi_note as int),
    {
        slice_has(intervals_of(self.scale_idx), self.offset_of(midi_note))
    }

    /// Whether `midi_note` has the pitch class of the root.
    pub fn is_root(&self, midi_note: u8) -> (r: bool)
        ensures
            r == (midi_note % 12 == self.root),
    {
        midi_note % 12 == self.root
    }

    /// Scale degree of a note ("1", "b3", "5"), where it is in the scale.
    pub fn degree(&self, midi_note: u8) -> (label: Option<&'static str>)
        requires
            self.scale_idx < SCALE_COUNT,
        ensures
            match label {
                Some(text) => self.has(midi_note as int) && text@ == SCALE_DEGREES@[self.interval_to(
                    midi_note as int,
                )]@,
                None => !self.has(midi_note as int),
            },
    {
        let offset: u8 = self.offset_of(midi_note);
        if slice_has(intervals_of(self.scale_idx), offset) {
            Some(SCALE_DEGREES[offset as usize])
        } else {
            None
        }
    }

    /// Position of a note: its scale index, counted across octaves from the root, and the
    /// semitones by which it lies above that scale tone.
    pub fn index_of(&self, note: u8) -> (position: (i32, u8))
        requires
            self.scale_idx < SCALE_COUNT,
        ensures
            (position.0 as int, position.1 as int) == self.position(note as int),
            -264 <= position.0 <= 264,
            position.1 < 12,
    {
        let intervals = intervals_of(self.scale_idx);
        proof {
            scales_are_well_shaped(self.scale_idx as int);
        }
        let lifted: i32 = note as i32 - self.root as i32 + 264;
        let octave: i32 = lifted / 12 - 22;
        let pc: u8 = (lifted % 12) as u8;
        let ghost rel = note as int - self.root as int;
        assert(octave == rel / 12 && pc == rel % 12);
        let mut pos: usize = intervals.len() - 1;
        while pos > 0 && intervals[pos] > pc
            invariant
                pos < intervals@.len(),
                tone_position(intervals@, pc as int, intervals@.len() as int) == tone_position(
                    intervals@,
                    pc as int,
                    pos + 1,
                ),
            decreases pos,
        {
            pos = pos - 1;
        }
        assert(tone_position(intervals@, pc as int, intervals@.len() as int) == pos);
        let len: i32 = intervals.len() as i32;
        assert(-22 * 12 <= octave * len <= 21 * 12) by (nonlinear_arith)
            requires
                -22 <= octave <= 21,
                1 <= len <= 12,
        ;
        (octave * len + pos as i32, pc - intervals[pos])
    }

    /// Inverse of [`Self::index_of`]: the note at a scale index, `offset` semitones up. It may lie
    /// outside the MIDI range.
    pub fn note_at(&self, index: i32, offset: u8) -> (note: i32)
        requires
            self.scale_idx < SCALE_COUNT,
            (index as int / self.intervals().len() as int) * 12 >= i32::MIN,
            self.pitch(index as int, offset as int) <= i32::MAX,
        ensures
            note == self.pitch(index as int, offset as int),
    {
        let intervals = intervals_of(self.scale_idx);
        proof {
            scales_are_well_shaped(self.scale_idx as int);
        }
        let len: i32 = intervals.len() as i32;
        proof {
            lemma_fundamental_div_mod(index as int, len as int);
            vstd::arithmetic::div_mod::lemma_mod_bound(index as int, len as int);
            lemma_div_within(index as int, len as int);
        }
        let (octave, pos): (i32, i32) = match (index.checked_div_euclid(len), index.checked_rem_euclid(len)) {
            (Some(octave), Some(pos)) => (octave, pos),
            _ => (0, 0),
        };
        self.root as i32 + octave * 12 + intervals[pos as usize] as i32 + offset as i32
    }

    /// Moves `note` by scale degrees: by the degrees between `from` and `to`, not by their
    /// semitones. A `from` or `to` off the scale counts as the scale tone below; a `note` off the
    /// scale keeps its distance from the scale tone below. The result is held within the MIDI
    /// range.
    pub fn transpose_in_key(&self, note: u8, from: u8, to: u8) -> (moved: u8)
        requires
            self.scale_idx < SCALE_COUNT,
        ensures
            moved == midi_clamped(self.pitch_moved(note as int, from as int, to as int)),
    {
        let shift: i32 = self.index_of(to).0 - self.index_of(from).0;
        let (index, offset) = self.index_of(note);
        proof {
            scales_are_well_shaped(self.scale_idx as int);
            let len = self.intervals().len() as int;
            lemma_div_within(index + shift, len);
            vstd::arithmetic::div_mod::lemma_mod_bound(index + shift, len);
        }
        let pitch: i32 = self.note_at(index + shift, offset);
        if pitch < 0 {
            0
        } else if pitch > 127 {
            127
        } else {
            pitch as u8
        }
    }
}

// ---------------------------------------------------------------------------
// Names
// ---------------------------------------------------------------------------

/// The root that a sharp or flat name denotes, whatever the case of its letters.
pub open spec fn accidental_root(letter: char, sign: char) -> Option<u8> {
    let l = lower(letter);
    let s = lower(sign);
    if s == '#' {
        if l == 'c' {
            Some(1)
        } else if l == 'd' {
            Some(3)
        } else if l == 'f' {
            Some(6)
        } else if l == 'g' {
            Some(8)
        } else if l == 'a' {
            Some(10)
        } else {
            None
        }
    } else if s == 'b' {
        if l == 'd' {
            Some(1)
        } else if l == 'e' {
            Some(3)
        } else if l == 'g' {
            Some(6)
        } else if l == 'a' {
            Some(8)
        } else if l == 'b' {
            Some(10)
        } else {
            None
        }
    } else {
        None
    }
}

/// The root that a letter denotes, whatever its case.
pub open spec fn natural_root(letter: char) -> Option<u8> {
    let l = lower(letter);
    if l == 'c' {
        Some(0)
    } else if l == 'd' {
        Some(2)
    } else if l == 'e' {
        Some(4)
    } else if l == 'f' {
        Some(5)
    } else if l == 'g' {
        Some(7)
    } else if l == 'a' {
        Some(9)
    } else if l == 'b' {
        Some(11)
    } else {
        None
    }
}

/// The root that a text begins with, and the characters behind it. Sharps and flats go first.
pub open spec fn split_root(s: Seq<char>) -> Option<(u8, Seq<char>)> {
    if s.len() >= 2 && accidental_root(s[0], s[1]) is Some {
        Some((accidental_root(s[0], s[1])->0, s.skip(2)))
    } else if s.len() >= 1 && natural_root(s[0]) is Some {
        Some((natural_root(s[0])->0, s.skip(1)))
    } else {
        None
    }
}

/// Whether a text names the scale at `idx`, by its short or its full name, in any case.
pub open spec fn names_scale(s: Seq<char>, idx: int) -> bool {
    lowered(s) == lowered(SCALE_SHORTS@[idx]@) || lowered(s) == lowered(SCALE_NAMES@[idx]@)
}

/// The first scale from `from` on that a text names.
pub open spec fn find_scale(s: Seq<char>, from: int) -> Option<int>
    decreases SCALE_COUNT - from,
{
    if from >= SCALE_COUNT {
        None
    } else if names_scale(s, from) {
        Some(from)
    } else {
        find_scale(s, from + 1)
    }
}

/// The setting that a text denotes: a root and the name of a scale.
pub open spec fn parsed_setting(s: Seq<char>) -> Option<ScaleSetting> {
    match split_root(trimmed(s)) {
        Some((root, rest)) => match find_scale(trimmed(rest), 0) {
            Some(idx) => Some(ScaleSetting { root, scale_idx: idx as usize }),
            None => None,
        },
        None => None,
    }
}

/// Whether two texts are the same but for the case of ASCII letters.
fn same_ignoring_case(a: &str, b: &str) -> (r: bool)
    ensures
        r == (lowered(a@) == lowered(b@)),
{
    let n: usize = a.unicode_len();
    if n != b.unicode_len() {
        assert(lowered(a@).len() != lowered(b@).len());
        return false;
    }
    let mut i: usize = 0;
    while i < n
        invariant
            i <= n,
            n == a@.len(),
            n == b@.len(),
            forall|k: int| 0 <= k < i ==> lower(a@[k]) == lower(b@[k]),
        decreases n - i,
    {
        if to_lower(a.get_char(i)) != to_lower(b.get_char(i)) {
            assert(lowered(a@)[i as int] != lowered(b@)[i as int]);
            return false;
        }
        i = i + 1;
    }
    assert(lowered(a@) =~= lowered(b@));
    true
}

fn read_accidental(letter: char, sign: char) -> (root: Option<u8>)
    ensures
        root == accidental_root(letter, sign),
{
    match (to_lower(letter), to_lower(sign)) {
        ('c', '#') => Some(1),
        ('d', '#') => Some(3),
        ('f', '#') => Some(6),
        ('g', '#') => Some(8),
        ('a', '#') => Some(10),
        ('d', 'b') => Some(1),
        ('e', 'b') => Some(3),
        ('g', 'b') => Some(6),
        ('a', 'b') => Some(8),
        ('b', 'b') => Some(10),
        _ => None,
    }
}

fn read_natural(letter: char) -> (root: Option<u8>)
    ensures
        root == natural_root(letter),
{
    match to_lower(letter) {
        'c' => Some(0),
        'd' => Some(2),
        'e' => Some(4),
        'f' => Some(5),
        'g' => Some(7),
        'a' => Some(9),
        'b' => Some(11),
        _ => None,
    }
}

impl ScaleSetting {
    /// The full name, such as "F# Dorian".
    pub open spec fn full_name(self) -> Seq<char> {
        NOTE_NAMES@[self.root as int]@ + " "@ + SCALE_NAMES@[self.scale_idx as int]@
    }

    /// The compact name, such as "F# dorian".
    pub open spec fn short_name(self) -> Seq<char> {
        NOTE_NAMES@[self.root as int]@ + " "@ + SCALE_SHORTS@[self.scale_idx as int]@
    }

    /// The full name, such as "F# Dorian".
    pub fn display(&self) -> (name: String)
        requires
            self.valid(),
        ensures
            name@ == self.full_name(),
    {
        let mut name = NOTE_NAMES[self.root as usize].to_owned();
        name.append(" ");
        name.append(SCALE_NAMES[self.scale_idx]);
        name
    }

    /// The compact name for storage, such as "F# dorian".
    pub fn short(&self) -> (name: String)
        requires
            self.valid(),
        ensures
            name@ == self.short_name(),
    {
        let mut name = NOTE_NAMES[self.root as usize].to_owned();
        name.append(" ");
        name.append(SCALE_SHORTS[self.scale_idx]);
        name
    }

    /// Reads a root, with a sharp or flat, and the short or full name of a scale, in any case.
    /// The first two characters behind leading white space must be ASCII.
    pub fn parse(s: &str) -> (setting: Option<Self>)
        requires
            forall|i: int| 0 <= i < 2 && i < trimmed(s@).len() ==> (#[trigger] trimmed(s@)[i] as u32) < 128,
        ensures
            setting == parsed_setting(s@),
            setting matches Some(p) ==> p.valid(),
    {
        proof {
            parsed_settings_are_valid(s@);
        }
        let text = trim(s);
        let n: usize = text.unicode_len();
        if n == 0 {
            return None;
        }
        let sharp_or_flat = if n >= 2 {
            read_accidental(text.get_char(0), text.get_char(1))
        } else {
            None
        };
        let (root, used): (u8, usize) = match sharp_or_flat {
            Some(root) => (root, 2),
            None => match read_natural(text.get_char(0)) {
                Some(root) => (root, 1),
                None => return None,
            },
        };
        let rest = trim(text.substring_char(used, n));
        assert(text@.subrange(used as int, n as int) =~= text@.skip(used as int));
        let mut idx: usize = 0;
        while idx < SCALE_COUNT
            invariant
                idx <= SCALE_COUNT,
                split_root(trimmed(s@)) is Some,
                (split_root(trimmed(s@))->0).0 == root,
                trimmed((split_root(trimmed(s@))->0).1) == rest@,
                find_scale(rest@, 0) == find_scale(rest@, idx as int),
            decreases SCALE_COUNT - idx,
        {
            if same_ignoring_case(rest, SCALE_SHORTS[idx]) || same_ignoring_case(rest, SCALE_NAMES[idx]) {
                return Some(ScaleSetting { root, scale_idx: idx });
            }
            idx = idx + 1;
        }
        None
    }
}

// ---------------------------------------------------------------------------
// Laws
// ---------------------------------------------------------------------------

proof fn lemma_tone_position(s: Seq<u8>, pc: int, n: int)
    requires
        scale_shape(s),
        0 <= pc < 12,
        1 <= n <= s.len(),
    ensures
        0 <= tone_position(s, pc, n) < n,
        s[tone_position(s, pc, n)] <= pc,
        forall|k: int| tone_position(s, pc, n) < k < n ==> s[k] > pc,
    decreases n,
{
    if n > 1 && s[n - 1] > pc {
        lemma_tone_position(s, pc, n - 1);
    }
}

/// A note is found again at its position: `note_at(index_of(n)) == n`.
pub proof fn note_at_inverts_index_of(setting: ScaleSetting, note: int)
    ensures
        setting.pitch(setting.position(note).0, setting.position(note).1) == note,
        0 <= setting.position(note).1 < 12,
{
    let s = setting.intervals();
    scales_are_well_shaped(setting.scale_idx as int);
    let rel = note - setting.root;
    let pos = tone_position(s, rel % 12, s.len() as int);
    lemma_tone_position(s, rel % 12, s.len() as int);
    lemma_fundamental_div_mod_converse((rel / 12) * s.len() + pos, s.len() as int, rel / 12, pos);
}

/// Transposing from a note to itself changes nothing: a MIDI note comes back as it was.
pub proof fn transpose_to_same_is_identity(setting: ScaleSetting, note: int, from: int)
    requires
        0 <= note <= 127,
    ensures
        setting.pitch_moved(note, from, from) == note,
        midi_clamped(setting.pitch_moved(note, from, from)) == note,
{
    note_at_inverts_index_of(setting, note);
}

/// Going up an octave is going up one full round of scale degrees.
proof fn lemma_position_octave_up(setting: ScaleSetting, note: int)
    ensures
        setting.position(note + 12).0 == setting.position(note).0 + setting.intervals().len(),
        setting.position(note + 12).1 == setting.position(note).1,
{
    let s = setting.intervals();
    let rel = note - setting.root;
    assert((rel + 12) / 12 == rel / 12 + 1 && (rel + 12) % 12 == rel % 12);
    assert((rel / 12 + 1) * s.len() == (rel / 12) * s.len() + s.len()) by (nonlinear_arith);
}

/// A trigger an octave higher transposes everything by exactly an octave.
pub proof fn octave_trigger_shifts_octave(setting: ScaleSetting, note: int, from: int)
    ensures
        setting.pitch_moved(note, from, from + 12) == note + 12,
{
    lemma_position_octave_up(setting, from);
    lemma_position_octave_up(setting, note);
    note_at_inverts_index_of(setting, note + 12);
}

/// In the chromatic scale, degrees are semitones: transposing in key shifts by the distance from
/// `from` to `to`.
pub proof fn chromatic_transpose_is_semitone_shift(root: u8, note: int, from: int, to: int)
    ensures
        (ScaleSetting { root, scale_idx: 14 }).pitch_moved(note, from, to) == note + to - from,
{
    let setting = ScaleSetting { root, scale_idx: 14 };
    let s = setting.intervals();
    lemma_chromatic_position(setting, note);
    lemma_chromatic_position(setting, from);
    lemma_chromatic_position(setting, to);
    let index = note + to - from - root;
    reveal(scale_intervals);
    assert(s[index % 12] == index % 12);
}

proof fn lemma_chromatic_position(setting: ScaleSetting, note: int)
    requires
        setting.scale_idx == 14,
    ensures
        setting.position(note) == (note - setting.root, 0int),
{
    let s = setting.intervals();
    let rel = note - setting.root;
    reveal(scale_intervals);
    lemma_tone_position(s, rel % 12, 12);
    let pos = tone_position(s, rel % 12, 12);
    assert(s[pos] == pos);
    if pos < rel % 12 {
        assert(s[pos + 1] == pos + 1);
    }
    assert(pos == rel % 12);
    assert((rel / 12) * s.len() == (rel / 12) * 12) by {
        assert(s.len() == 12);
    }
}

/// Transposing in key keeps notes in key: a note of the scale moves to a note of the scale.
pub proof fn transpose_stays_in_scale(setting: ScaleSetting, note: int, from: int, to: int)
    requires
        setting.has(note),
    ensures
        setting.has(setting.pitch_moved(note, from, to)),
{
    let s = setting.intervals();
    scales_are_well_shaped(setting.scale_idx as int);
    let rel = note - setting.root;
    assert(setting.interval_to(note) == rel % 12);
    lemma_tone_on_scale(s, rel % 12);
    let index = setting.position(note).0 + setting.position(to).0 - setting.position(from).0;
    let len = s.len() as int;
    vstd::arithmetic::div_mod::lemma_mod_bound(index, len);
    let tone = s[index % len];
    assert(setting.pitch_moved(note, from, to) == setting.root + (index / len) * 12 + tone);
    lemma_interval_of_sum(setting.root as int, index / len, tone as int);
    assert(s.contains(tone));
}

/// A tone of the scale is its own scale tone below.
proof fn lemma_tone_on_scale(s: Seq<u8>, pc: int)
    requires
        scale_shape(s),
        0 <= pc < 12,
        s.contains(pc as u8),
    ensures
        s[tone_position(s, pc, s.len() as int)] == pc,
{
    let pos = tone_position(s, pc, s.len() as int);
    lemma_tone_position(s, pc, s.len() as int);
    let i = choose|i: int| 0 <= i < s.len() && s[i] == pc as u8;
    if i < pos {
        assert(s[i] < s[pos]);
    }
}

/// Whole octaves do not change the interval from the root.
proof fn lemma_interval_of_sum(root: int, octave: int, tone: int)
    requires
        0 <= tone < 12,
    ensures
        ((root + octave * 12 + tone) % 12 - root) % 12 == tone,
{
}

/// Length, first and third letter of a text in lower case: enough to tell the scales apart.
spec fn signature(s: Seq<char>) -> (nat, char, char) {
    (s.len(), lower(s[0]), lower(s[2]))
}

spec fn short_signature(idx: int) -> (nat, char, char) {
    if idx == 0 {
        (5nat, 'm', 'j')
    } else if idx == 1 {
        (5nat, 'm', 'n')
    } else if idx == 2 {
        (10nat, 'h', 'r')
    } else if idx == 3 {
        (9nat, 'm', 'l')
    } else if idx == 4 {
        (6nat, 'd', 'r')
    } else if idx == 5 {
        (8nat, 'p', 'r')
    } else if idx == 6 {
        (6nat, 'l', 'd')
    } else if idx == 7 {
        (10nat, 'm', 'x')
    } else if idx == 8 {
        (7nat, 'l', 'c')
    } else if idx == 9 {
        (8nat, 'm', 'j')
    } else if idx == 10 {
        (8nat, 'm', 'n')
    } else if idx == 11 {
        (5nat, 'b', 'u')
    } else if idx == 12 {
        (10nat, 'w', 'o')
    } else if idx == 13 {
        (10nat, 'd', 'm')
    } else {
        (9nat, 'c', 'r')
    }
}

spec fn name_signature(idx: int) -> (nat, char, char) {
    if idx == 0 {
        (5nat, 'm', 'j')
    } else if idx == 1 {
        (13nat, 'n', 't')
    } else if idx == 2 {
        (14nat, 'h', 'r')
    } else if idx == 3 {
        (13nat, 'm', 'l')
    } else if idx == 4 {
        (6nat, 'd', 'r')
    } else if idx == 5 {
        (8nat, 'p', 'r')
    } else if idx == 6 {
        (6nat, 'l', 'd')
    } else if idx == 7 {
        (10nat, 'm', 'x')
    } else if idx == 8 {
        (7nat, 'l', 'c')
    } else if idx == 9 {
        (16nat, 'm', 'j')
    } else if idx == 10 {
        (16nat, 'm', 'n')
    } else if idx == 11 {
        (5nat, 'b', 'u')
    } else if idx == 12 {
        (10nat, 'w', 'o')
    } else if idx == 13 {
        (10nat, 'd', 'm')
    } else {
        (9nat, 'c', 'r')
    }
}

/// A scale name begins and ends with a letter.
spec fn word_like(s: Seq<char>) -> bool {
    s.len() >= 3 && !is_space(s[0]) && !is_space(s.last())
}

proof fn lemma_short_signature(idx: int)
    requires
        0 <= idx < SCALE_COUNT,
    ensures
        signature(SCALE_SHORTS@[idx]@) == short_signature(idx),
        word_like(SCALE_SHORTS@[idx]@),
{
    reveal_strlit("major");
    reveal_strlit("minor");
    reveal_strlit("harm minor");
    reveal_strlit("mel minor");
    reveal_strlit("dorian");
    reveal_strlit("phrygian");
    reveal_strlit("lydian");
    reveal_strlit("mixolydian");
    reveal_strlit("locrian");
    reveal_strlit("maj pent");
    reveal_strlit("min pent");
    reveal_strlit("blues");
    reveal_strlit("whole tone");
    reveal_strlit("diminished");
    reveal_strlit("chromatic");
}

proof fn lemma_name_signature(idx: int)
    requires
        0 <= idx < SCALE_COUNT,
    ensures
        signature(SCALE_NAMES@[idx]@) == name_signature(idx),
        word_like(SCALE_NAMES@[idx]@),
{
    reveal_strlit("Major");
    reveal_strlit("Natural Minor");
    reveal_strlit("Harmonic Minor");
    reveal_strlit("Melodic Minor");
    reveal_strlit("Dorian");
    reveal_strlit("Phrygian");
    reveal_strlit("Lydian");
    reveal_strlit("Mixolydian");
    reveal_strlit("Locrian");
    reveal_strlit("Major Pentatonic");
    reveal_strlit("Minor Pentatonic");
    reveal_strlit("Blues");
    reveal_strlit("Whole Tone");
    reveal_strlit("Diminished");
    reveal_strlit("Chromatic");
}

proof fn lemma_lowered_signature(a: Seq<char>, b: Seq<char>)
    requires
        lowered(a) == lowered(b),
        a.len() >= 3,
    ensures
        signature(a) == signature(b),
{
    assert(lowered(a).len() == a.len() && lowered(b).len() == b.len());
    assert(lowered(a)[0] == lower(a[0]) && lowered(b)[0] == lower(b[0]));
    assert(lowered(a)[2] == lower(a[2]) && lowered(b)[2] == lower(b[2]));
}

/// A name of scale `idx` finds that scale and no earlier one.
proof fn lemma_find_scale(s: Seq<char>, idx: int, from: int)
    requires
        0 <= from <= idx < SCALE_COUNT,
        names_scale(s, idx),
        signature(s) == short_signature(idx) || signature(s) == name_signature(idx),
        s.len() >= 3,
    ensures
        find_scale(s, from) == Some(idx),
    decreases idx - from,
{
    if from < idx {
        if names_scale(s, from) {
            lemma_short_signature(from);
            lemma_name_signature(from);
            if lowered(s) == lowered(SCALE_SHORTS@[from]@) {
                lemma_lowered_signature(s, SCALE_SHORTS@[from]@);
            } else {
                lemma_lowered_signature(s, SCALE_NAMES@[from]@);
            }
        }
        lemma_find_scale(s, idx, from + 1);
    }
}

/// What the name of a pitch class looks like: a letter, or a letter and a sharp.
proof fn lemma_note_name(root: int)
    requires
        0 <= root < 12,
    ensures
        ({
            let n = NOTE_NAMES@[root]@;
            &&& 1 <= n.len() <= 2
            &&& !is_space(n[0])
            &&& n.len() == 1 ==> natural_root(n[0]) == Some(root as u8) && accidental_root(n[0], ' ') is None
            &&& n.len() == 2 ==> accidental_root(n[0], n[1]) == Some(root as u8)
        }),
{
    reveal_strlit("C");
    reveal_strlit("C#");
    reveal_strlit("D");
    reveal_strlit("D#");
    reveal_strlit("E");
    reveal_strlit("F");
    reveal_strlit("F#");
    reveal_strlit("G");
    reveal_strlit("G#");
    reveal_strlit("A");
    reveal_strlit("A#");
    reveal_strlit("B");
}

proof fn lemma_name_parses(root: u8, idx: int, word: Seq<char>)
    requires
        root < 12,
        0 <= idx < SCALE_COUNT,
        word_like(word),
        find_scale(word, 0) == Some(idx),
    ensures
        parsed_setting(NOTE_NAMES@[root as int]@ + " "@ + word) == Some(
            ScaleSetting { root, scale_idx: idx as usize },
        ),
{
    let n = NOTE_NAMES@[root as int]@;
    let full = n + " "@ + word;
    lemma_note_name(root as int);
    reveal_strlit(" ");
    assert(full.last() == word.last());
    assert(trimmed(full) == full);
    assert(full.skip(n.len() as int) =~= " "@ + word);
    assert((" "@ + word).drop_first() =~= word);
    reveal_with_fuel(trimmed_start, 2);
    assert(trimmed(" "@ + word) == word);
}

/// Reading back the compact name of a setting gives the setting.
pub proof fn parse_inverts_short(setting: ScaleSetting)
    requires
        setting.valid(),
    ensures
        parsed_setting(setting.short_name()) == Some(setting),
{
    let idx = setting.scale_idx as int;
    lemma_short_signature(idx);
    lemma_find_scale(SCALE_SHORTS@[idx]@, idx, 0);
    lemma_name_parses(setting.root, idx, SCALE_SHORTS@[idx]@);
}

/// Reading back the full name of a setting gives the setting.
pub proof fn parse_inverts_display(setting: ScaleSetting)
    requires
        setting.valid(),
    ensures
        parsed_setting(setting.full_name()) == Some(setting),
{
    let idx = setting.scale_idx as int;
    lemma_name_signature(idx);
    lemma_find_scale(SCALE_NAMES@[idx]@, idx, 0);
    lemma_name_parses(setting.root, idx, SCALE_NAMES@[idx]@);
}

/// Reading ignores case: texts that differ in nothing but the case of ASCII letters denote the same.
pub proof fn parse_ignores_case(a: Seq<char>, b: Seq<char>)
    requires
        lowered(a) == lowered(b),
    ensures
        parsed_setting(a) == parsed_setting(b),
{
    lemma_lowered_trimmed(a, b);
    let (a, b) = (trimmed(a), trimmed(b));
    lemma_lowered_chars(a, b);
    match split_root(a) {
        Some((_, rest)) => {
            let used = a.len() - rest.len();
            assert(rest == a.skip(used));
            assert((split_root(b)->0).1 == b.skip(used));
            assert(lowered(a.skip(used)) =~= lowered(b.skip(used)));
            lemma_lowered_trimmed(a.skip(used), b.skip(used));
            lemma_lowered_find(trimmed(a.skip(used)), trimmed(b.skip(used)), 0);
        },
        None => {},
    }
}

/// The compact and the full name of a setting read back in any case, all upper or all lower case
/// among them.
pub proof fn parse_inverts_names_in_any_case(setting: ScaleSetting, text: Seq<char>)
    requires
        setting.valid(),
        lowered(text) == lowered(setting.short_name()) || lowered(text) == lowered(setting.full_name()),
    ensures
        parsed_setting(text) == Some(setting),
{
    parse_inverts_short(setting);
    parse_inverts_display(setting);
    if lowered(text) == lowered(setting.short_name()) {
        parse_ignores_case(text, setting.short_name());
    } else {
        parse_ignores_case(text, setting.full_name());
    }
}

/// Whatever is read names one of the twelve roots and one of the scales.
pub proof fn parsed_settings_are_valid(s: Seq<char>)
    ensures
        parsed_setting(s) matches Some(p) ==> p.valid(),
{
    if let Some((root, rest)) = split_root(trimmed(s)) {
        lemma_found_scale(trimmed(rest), 0);
    }
}

proof fn lemma_found_scale(s: Seq<char>, from: int)
    requires
        0 <= from,
    ensures
        find_scale(s, from) matches Some(idx) ==> from <= idx < SCALE_COUNT,
    decreases SCALE_COUNT - from,
{
    if from < SCALE_COUNT && !names_scale(s, from) {
        lemma_found_scale(s, from + 1);
    }
}

proof fn lemma_lowered_chars(a: Seq<char>, b: Seq<char>)
    requires
        lowered(a) == lowered(b),
    ensures
        a.len() == b.len(),
        forall|i: int| 0 <= i < a.len() ==> lower(#[trigger] a[i]) == lower(b[i]) && is_space(a[i]) == is_space(b[i]),
{
    assert(lowered(a).len() == a.len() && lowered(b).len() == b.len());
    assert forall|i: int| 0 <= i < a.len() implies lower(#[trigger] a[i]) == lower(b[i]) && is_space(a[i]) == is_space(
        b[i],
    ) by {
        assert(lowered(a)[i] == lower(a[i]) && lowered(b)[i] == lower(b[i]));
    }
}

proof fn lemma_lowered_trimmed(a: Seq<char>, b: Seq<char>)
    requires
        lowered(a) == lowered(b),
    ensures
        lowered(trimmed(a)) == lowered(trimmed(b)),
{
    lemma_lowered_start(a, b);
    lemma_lowered_end(trimmed_start(a), trimmed_start(b));
}

proof fn lemma_lowered_start(a: Seq<char>, b: Seq<char>)
    requires
        lowered(a) == lowered(b),
    ensures
        lowered(trimmed_start(a)) == lowered(trimmed_start(b)),
    decreases a.len(),
{
    lemma_lowered_chars(a, b);
    if a.len() > 0 && is_space(a[0]) {
        assert(lowered(a.drop_first()) =~= lowered(a).drop_first());
        assert(lowered(b.drop_first()) =~= lowered(b).drop_first());
        lemma_lowered_start(a.drop_first(), b.drop_first());
    }
}

proof fn lemma_lowered_end(a: Seq<char>, b: Seq<char>)
    requires
        lowered(a) == lowered(b),
    ensures
        lowered(trimmed_end(a)) == lowered(trimmed_end(b)),
    decreases a.len(),
{
    lemma_lowered_chars(a, b);
    if a.len() > 0 && is_space(a.last()) {
        assert(lowered(a.drop_last()) =~= lowered(a).drop_last());
        assert(lowered(b.drop_last()) =~= lowered(b).drop_last());
        lemma_lowered_end(a.drop_last(), b.drop_last());
    }
}

proof fn lemma_lowered_find(a: Seq<char>, b: Seq<char>, from: int)
    requires
        lowered(a) == lowered(b),
    ensures
        find_scale(a, from) == find_scale(b, from),
    decreases SCALE_COUNT - from,
{
    if from < SCALE_COUNT {
        lemma_lowered_find(a, b, from + 1);
    }
}

/// Division by a positive number brings a number no further from zero.
proof fn lemma_div_within(x: int, d: int)
    requires
        d > 0,
    ensures
        x >= 0 ==> 0 <= x / d <= x,
        x < 0 ==> x <= x / d < 0,
{
    assert(x >= 0 ==> 0 <= x / d <= x) by (nonlinear_arith)
        requires
            d > 0,
    ;
    assert(x < 0 ==> x <= x / d < 0) by (nonlinear_arith)
        requires
            d > 0,
    ;
}

} // verus!
