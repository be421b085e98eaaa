//! Note names and note ranges: "C4" is MIDI note 60, "C0-B3" is the range 12 to 59.
use vstd::prelude::*;

use crate::scale::NOTE_NAMES;
use crate::text::{
    all_digits, decimal, decimal_round_trip, i8_value, is_digit, lower, parse_i8, push_decimal, push_signed,
    signed_decimal, signed_decimal_round_trip, to_chars, to_lower,
};

verus! {

/// Why a text is not a note name.
#[derive(Clone, Copy, Debug, PartialEq, Eq, Structural)]
pub enum NoteFault {
    Empty,
    /// The first character is none of the letters A to G.
    InvalidLetter,
    /// What follows the letter and accidental is no octave.
    InvalidOctave,
    /// The note lies outside the MIDI range.
    OutOfRange,
}

/// A text that is not a note name.
#[derive(Debug)]
pub struct NoteNameError {
    pub fault: NoteFault,
    pub name: String,
}

/// Why a text is not a note range.
#[derive(Debug)]
pub enum RangeError {
    /// Not two texts joined by one dash.
    Format,
    /// One of the two is not a note name.
    Note(NoteNameError),
    /// The low note lies above the high note.
    Inverted { low: u8, high: u8 },
}

/// Semitones of a note letter above C, whatever its case.
pub open spec fn letter_semitone(c: char) -> Option<int> {
    let l = lower(c);
    if l == 'c' {
        Some(0)
    } else if l == 'd' {
        Some(2)
    } else if l == 'e' {
        Some(4)
    } else if l == 'f' {
        Some(5)
    } else if l == 'g' {
        Some(7)
    } else if l == 'a' {
        Some(9)
    } else if l == 'b' {
        Some(11)
    } else {
        None
    }
}

/// Semitones by which the second character of a note name raises the note.
pub open spec fn accidental(name: Seq<char>) -> int {
    if name.len() > 1 && name[1] == '#' {
        1
    } else if name.len() > 1 && name[1] == 'b' {
        -1
    } else {
        0
    }
}

/// The MIDI note that a name denotes: letter, optional accidental, octave; C4 is 60.
pub open spec fn parsed_note(name: Seq<char>) -> Result<u8, NoteFault> {
    if name.len() == 0 {
        Err(NoteFault::Empty)
    } else {
        match letter_semitone(name[0]) {
            None => Err(NoteFault::InvalidLetter),
            Some(semitone) => {
                let shift = accidental(name);
                let octave = i8_value(
                    name.skip(
                        if shift == 0 {
                            1
                        } else {
                            2
                        },
                    ),
                );
                match octave {
                    None => Err(NoteFault::InvalidOctave),
                    Some(octave) => {
                        let note = (octave + 1) * 12 + semitone + shift;
                        if 0 <= note <= 127 {
                            Ok(note as u8)
                        } else {
                            Err(NoteFault::OutOfRange)
                        }
                    },
                }
            },
        }
    }
}

/// The name of a MIDI note.
pub open spec fn note_text(note: u8) -> Seq<char> {
    NOTE_NAMES@[note as int % 12]@ + signed_decimal(note as int / 12 - 1)
}

/// What reading a note name gives.
pub open spec fn note_result(r: Result<u8, NoteNameError>, name: Seq<char>) -> bool {
    match r {
        Ok(note) => parsed_note(name) == Ok::<u8, NoteFault>(note),
        Err(e) => parsed_note(name) == Err::<u8, NoteFault>(e.fault) && e.name@ == name,
    }
}

fn read_letter(c: char) -> (semitone: Option<i16>)
    ensures
        match semitone {
            Some(s) => letter_semitone(c) == Some(s as int) && 0 <= s <= 11,
            None => letter_semitone(c) is None,
        },
{
    match to_lower(c) {
        'c' => Some(0),
        'd' => Some(2),
        'e' => Some(4),
        'f' => Some(5),
        'g' => Some(7),
        'a' => Some(9),
        'b' => Some(11),
        _ => None,
    }
}

/// The MIDI note that a name such as "C4", "G#3" or "Bb5" denotes.
pub fn parse_note_name(name: &str) -> (note: Result<u8, NoteNameError>)
    ensures
        note_result(note, name@),
{
    match read_note(name) {
        Ok(note) => Ok(note),
        Err(fault) => Err(NoteNameError { fault, name: name.to_owned() }),
    }
}

fn read_note(name: &str) -> (note: Result<u8, NoteFault>)
    ensures
        note == parsed_note(name@),
{
    let chars = to_chars(name);
    if chars.len() == 0 {
        return Err(NoteFault::Empty);
    }
    let semitone: i16 = match read_letter(chars[0]) {
        Some(semitone) => semitone,
        None => return Err(NoteFault::InvalidLetter),
    };
    let (shift, from): (i16, usize) = if chars.len() > 1 && chars[1] == '#' {
        (1, 2)
    } else if chars.len() > 1 && chars[1] == 'b' {
        (-1, 2)
    } else {
        (0, 1)
    };
    match parse_i8(&chars, from) {
        None => Err(NoteFault::InvalidOctave),
        Some(octave) => {
            let note: i16 = (octave as i16 + 1) * 12 + semitone + shift;
            if 0 <= note && note <= 127 {
                Ok(note as u8)
            } else {
                Err(NoteFault::OutOfRange)
            }
        },
    }
}

/// The name of a MIDI note: 60 is "C4".
pub fn note_name(note: u8) -> (name: String)
    ensures
        name@ == note_text(note),
{
    let mut name = NOTE_NAMES[(note % 12) as usize].to_owned();
    push_signed(&mut name, (note / 12) as i64 - 1);
    name
}

impl NoteNameError {
    /// The error in words.
    pub open spec fn text(self) -> Seq<char> {
        match self.fault {
            NoteFault::Empty => "empty note name"@,
            NoteFault::InvalidLetter => "invalid note letter '"@ + seq![
                vstd::utf8::encode_utf8(self.name@)[0] as char,
            ] + "'"@,
            NoteFault::InvalidOctave => "invalid octave in note name '"@ + self.name@ + "'"@,
            NoteFault::OutOfRange => "note '"@ + self.name@ + "' is out of MIDI range (0-127)"@,
        }
    }

    /// The error in words. Of an invalid letter, the first byte of the name is shown.
    pub fn message(&self) -> (text: String)
        requires
            self.fault == NoteFault::InvalidLetter ==> vstd::utf8::encode_utf8(self.name@).len() > 0,
        ensures
            text@ == self.text(),
    {
        let name = self.name.as_str();
        match self.fault {
            NoteFault::Empty => "empty note name".to_owned(),
            NoteFault::InvalidLetter => {
                let mut text = "invalid note letter '".to_owned();
                text.push(name.as_bytes()[0] as char);
                text.append("'");
                assert(text@ =~= self.text());
                text
            },
            NoteFault::InvalidOctave => {
                let mut text = "invalid octave in note name '".to_owned();
                text.append(name);
                text.append("'");
                text
            },
            NoteFault::OutOfRange => {
                let mut text = "note '".to_owned();
                text.append(name);
                text.append("' is out of MIDI range (0-127)");
                text
            },
        }
    }
}

// ---------------------------------------------------------------------------
// Ranges
// ---------------------------------------------------------------------------

/// Positions of the dashes among the first `n` characters.
pub open spec fn dash_count(s: Seq<char>, n: int) -> int
    decreases n,
{
    if n <= 0 {
        0
    } else {
        dash_count(s, n - 1) + (if s[n - 1] == '-' {
            1int
        } else {
            0
        })
    }
}

/// The position of the first dash.
pub open spec fn first_dash(s: Seq<char>) -> int
    decreases s.len(),
{
    if s.len() == 0 || s[0] == '-' {
        0
    } else {
        1 + first_dash(s.drop_first())
    }
}

/// Why a text is not a note range, in terms of its two halves.
pub enum RangeFault {
    Format,
    Low(NoteFault),
    High(NoteFault),
    Inverted { low: u8, high: u8 },
}

/// The text in front of the first dash.
pub open spec fn low_half(s: Seq<char>) -> Seq<char> {
    s.take(first_dash(s))
}

/// The text behind the first dash.
pub open spec fn high_half(s: Seq<char>) -> Seq<char> {
    s.skip(first_dash(s) + 1)
}

/// The range that a text denotes: two note names joined by one dash, low note first.
pub open spec fn parsed_range(s: Seq<char>) -> Result<(u8, u8), RangeFault> {
    if dash_count(s, s.len() as int) != 1 {
        Err(RangeFault::Format)
    } else {
        match (parsed_note(low_half(s)), parsed_note(high_half(s))) {
            (Err(fault), _) => Err(RangeFault::Low(fault)),
            (Ok(_), Err(fault)) => Err(RangeFault::High(fault)),
            (Ok(low), Ok(high)) => if low <= high {
                Ok((low, high))
            } else {
                Err(RangeFault::Inverted { low, high })
            },
        }
    }
}

/// Whether `e` reports why `s` is not a range.
pub open spec fn range_error(e: RangeError, s: Seq<char>) -> bool {
    match parsed_range(s) {
        Ok(_) => false,
        Err(RangeFault::Format) => e is Format,
        Err(RangeFault::Low(fault)) => e matches RangeError::Note(n) && n.fault == fault && n.name@ == low_half(s),
        Err(RangeFault::High(fault)) => e matches RangeError::Note(n) && n.fault == fault && n.name@ == high_half(s),
        Err(RangeFault::Inverted { low, high }) => e matches RangeError::Inverted { low: l, high: h } && l == low
            && h == high,
    }
}

/// Reads a range such as "C0-B3" as its low and high MIDI notes, both included.
pub fn parse_range(s: &str) -> (range: Result<(u8, u8), RangeError>)
    ensures
        match range {
            Ok(r) => parsed_range(s@) == Ok::<(u8, u8), RangeFault>(r),
            Err(e) => range_error(e, s@),
        },
{
    let n: usize = s.unicode_len();
    let mut dashes: u64 = 0;
    let mut at: usize = 0;
    let mut i: usize = 0;
    while i < n
        invariant
            i <= n,
            n == s@.len(),
            dashes == dash_count(s@, i as int),
            dashes <= i,
            dashes > 0 ==> at == first_dash(s@) && at < i,
            dashes == 0 ==> forall|k: int| 0 <= k < i ==> s@[k] != '-',
        decreases n - i,
    {
        if s.get_char(i) == '-' {
            if dashes == 0 {
                at = i;
                proof {
                    lemma_first_dash(s@, i as int);
                }
            }
            dashes = dashes + 1;
        }
        i = i + 1;
    }
    if dashes != 1 {
        return Err(RangeError::Format);
    }
    let low_text = s.substring_char(0, at);
    let high_text = s.substring_char(at + 1, n);
    assert(low_text@ =~= low_half(s@));
    assert(high_text@ =~= high_half(s@));
    let low: u8 = match parse_note_name(low_text) {
        Ok(low) => low,
        Err(e) => return Err(RangeError::Note(e)),
    };
    let high: u8 = match parse_note_name(high_text) {
        Ok(high) => high,
        Err(e) => return Err(RangeError::Note(e)),
    };
    if low > high {
        Err(RangeError::Inverted { low, high })
    } else {
        Ok((low, high))
    }
}

proof fn lemma_first_dash(s: Seq<char>, at: int)
    requires
        0 <= at < s.len(),
        s[at] == '-',
        forall|k: int| 0 <= k < at ==> s[k] != '-',
    ensures
        first_dash(s) == at,
    decreases s.len(),
{
    if at > 0 {
        assert(s[0] != '-');
        let rest = s.drop_first();
        assert forall|k: int| 0 <= k < at - 1 implies rest[k] != '-' by {
            assert(rest[k] == s[k + 1]);
        }
        lemma_first_dash(rest, at - 1);
    }
}

impl RangeError {
    /// What is wrong with `range`, in words.
    pub open spec fn text(self, range: Seq<char>) -> Seq<char> {
        match self {
            RangeError::Format => "invalid range format '"@ + range + "', expected 'NOTE-NOTE' (e.g. 'C0-B3')"@,
            RangeError::Note(e) => e.text(),
            RangeError::Inverted { low, high } => "range '"@ + range + "' has low ("@ + decimal(low as nat)
                + ") > high ("@ + decimal(high as nat) + ")"@,
        }
    }

    /// What is wrong with `range`, in words.
    pub fn message(&self, range: &str) -> (text: String)
        requires
            self matches RangeError::Note(e) ==> e.fault == NoteFault::InvalidLetter ==> vstd::utf8::encode_utf8(
                e.name@,
            ).len() > 0,
        ensures
            text@ == self.text(range@),
    {
        match self {
            RangeError::Format => {
                let mut text = "invalid range format '".to_owned();
                text.append(range);
                text.append("', expected 'NOTE-NOTE' (e.g. 'C0-B3')");
                text
            },
            RangeError::Note(e) => e.message(),
            RangeError::Inverted { low, high } => {
                let mut text = "range '".to_owned();
                text.append(range);
                text.append("' has low (");
                push_decimal(&mut text, *low as u64);
                text.append(") > high (");
                push_decimal(&mut text, *high as u64);
                text.append(")");
                text
            },
        }
    }
}

/// A range in text form.
pub open spec fn range_text(range: (u8, u8)) -> Seq<char> {
    note_text(range.0) + "-"@ + note_text(range.1)
}

/// A range in text form, such as "C4-B5".
pub fn format_range(range: (u8, u8)) -> (text: String)
    ensures
        text@ == range_text(range),
{
    let mut text = note_name(range.0);
    text.append("-");
    text.append(note_name(range.1).as_str());
    text
}

// ---------------------------------------------------------------------------
// Laws
// ---------------------------------------------------------------------------

proof fn lemma_pitch_class_name(pc: int)
    requires
        0 <= pc < 12,
    ensures
        ({
            let n = NOTE_NAMES@[pc]@;
            &&& 1 <= n.len() <= 2
            &&& letter_semitone(n[0]) is Some
            &&& n[0] != '-'
            &&& n.len() == 1 ==> letter_semitone(n[0])->0 == pc
            &&& n.len() == 2 ==> n[1] == '#' && letter_semitone(n[0])->0 + 1 == pc
        }),
{
    reveal_strlit("C");
    reveal_strlit("C#");
    reveal_strlit("D");
    reveal_strlit("D#");
    reveal_strlit("E");
    reveal_strlit("F");
    reveal_strlit("F#");
    reveal_strlit("G");
    reveal_strlit("G#");
    reveal_strlit("A");
    reveal_strlit("A#");
    reveal_strlit("B");
}

proof fn lemma_signed_decimal_start(n: int)
    ensures
        signed_decimal(n).len() > 0,
        signed_decimal(n)[0] == '-' || is_digit(signed_decimal(n)[0]),
        n >= 0 ==> all_digits(signed_decimal(n)),
{
    if n < 0 {
        decimal_round_trip((-n) as nat);
    } else {
        decimal_round_trip(n as nat);
    }
}

/// Reading back the name of a MIDI note gives the note.
pub proof fn parse_inverts_note_name(note: u8)
    requires
        note <= 127,
    ensures
        parsed_note(note_text(note)) == Ok::<u8, NoteFault>(note),
{
    let pc = note as int % 12;
    let octave = note as int / 12 - 1;
    let name = NOTE_NAMES@[pc]@;
    let text = note_text(note);
    lemma_pitch_class_name(pc);
    lemma_signed_decimal_start(octave);
    signed_decimal_round_trip(octave);
    assert(text.skip(name.len() as int) =~= signed_decimal(octave));
    assert(text[name.len() as int] == signed_decimal(octave)[0]);
    assert(text[0] == name[0]);
    if name.len() == 2 {
        assert(text[1] == name[1]);
    }
}

proof fn lemma_no_dash(note: u8)
    requires
        12 <= note <= 127,
    ensures
        forall|k: int| 0 <= k < note_text(note).len() ==> note_text(note)[k] != '-',
{
    let pc = note as int % 12;
    let octave = note as int / 12 - 1;
    let name = NOTE_NAMES@[pc]@;
    lemma_pitch_class_name(pc);
    lemma_signed_decimal_start(octave);
    assert forall|k: int| 0 <= k < note_text(note).len() implies note_text(note)[k] != '-' by {
        if k >= name.len() {
            assert(is_digit(signed_decimal(octave)[k - name.len()]));
            assert(note_text(note)[k] == signed_decimal(octave)[k - name.len()]);
        } else {
            assert(note_text(note)[k] == name[k]);
        }
    }
}

proof fn lemma_dash_count_zero(s: Seq<char>, n: int)
    requires
        0 <= n <= s.len(),
        forall|k: int| 0 <= k < n ==> s[k] != '-',
    ensures
        dash_count(s, n) == 0,
    decreases n,
{
    if n > 0 {
        lemma_dash_count_zero(s, n - 1);
    }
}

proof fn lemma_dash_count_one(s: Seq<char>, at: int, n: int)
    requires
        0 <= at < n <= s.len(),
        s[at] == '-',
        forall|k: int| 0 <= k < n && k != at ==> s[k] != '-',
    ensures
        dash_count(s, n) == 1,
    decreases n,
{
    if n == at + 1 {
        lemma_dash_count_zero(s, at);
    } else {
        lemma_dash_count_one(s, at, n - 1);
    }
}

/// Reading back a range gives the range. Notes below 12 are left out: their names hold a dash of
/// their own, as in "C-1".
pub proof fn parse_inverts_format_range(low: u8, high: u8)
    requires
        12 <= low <= high <= 127,
    ensures
        parsed_range(range_text((low, high))) == Ok::<(u8, u8), RangeFault>((low, high)),
{
    let s = range_text((low, high));
    let a = note_text(low);
    let b = note_text(high);
    let at = a.len() as int;
    reveal_strlit("-");
    lemma_no_dash(low);
    lemma_no_dash(high);
    assert(s[at] == '-');
    assert forall|k: int| 0 <= k < s.len() && k != at implies s[k] != '-' by {
        if k < at {
            assert(s[k] == a[k]);
        } else {
            assert(s[k] == b[k - at - 1]);
        }
    }
    lemma_dash_count_one(s, at, s.len() as int);
    lemma_first_dash(s, at);
    assert(s.take(at) =~= a);
    assert(s.skip(at + 1) =~= b);
    parse_inverts_note_name(low);
    parse_inverts_note_name(high);
}

} // verus!
