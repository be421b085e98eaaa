//! Laws of note names and note ranges.
use vstd::prelude::*;

use crate::notes::{
    dash_count, first_dash, high_half, low_half, parsed_note, parsed_range, NoteFault, RangeFault,
};
use crate::text::{i8_value, integer_value, is_digit, unsigned_part};

verus! {

proof fn lemma_octave_start(octave: Seq<char>)
    requires
        integer_value(octave) is Some,
    ensures
        octave.len() > 0,
        octave[0] != '#',
        octave[0] != 'b',
{
    let digits = unsigned_part(octave);
    if octave[0] != '-' && octave[0] != '+' {
        assert(digits == octave);
        assert(is_digit(octave[0]));
    }
}

/// A note name means the pitch of its letter in its octave, twelve semitones to the octave with
/// C in octave 4 at 60; a sharp is one semitone above and a flat one below, in upper and in lower
/// case alike. A pitch outside 0 to 127 is no note.
pub proof fn note_names_mean_their_pitch(letter: char, octave: Seq<char>, o: int)
    requires
        integer_value(octave) == Some(o),
        -128 <= o <= 127,
        ({
            ||| letter == 'C' || letter == 'D' || letter == 'E' || letter == 'F' || letter == 'G'
            ||| letter == 'A' || letter == 'B' || letter == 'c' || letter == 'd' || letter == 'e'
            ||| letter == 'f' || letter == 'g' || letter == 'a' || letter == 'b'
        }),
    ensures
        ({
            let above_c = if letter == 'C' || letter == 'c' {
                0int
            } else if letter == 'D' || letter == 'd' {
                2
            } else if letter == 'E' || letter == 'e' {
                4
            } else if letter == 'F' || letter == 'f' {
                5
            } else if letter == 'G' || letter == 'g' {
                7
            } else if letter == 'A' || letter == 'a' {
                9
            } else {
                11
            };
            let pitch = 60 + 12 * (o - 4) + above_c;
            let means = |name: Seq<char>, n: int|
                if 0 <= n <= 127 {
                    parsed_note(name) is Ok && parsed_note(name)->Ok_0 == n
                } else {
                    parsed_note(name) == Err::<u8, NoteFault>(NoteFault::OutOfRange)
                };
            &&& means(seq![letter] + octave, pitch)
            &&& means(seq![letter, '#'] + octave, pitch + 1)
            &&& means(seq![letter, 'b'] + octave, pitch - 1)
        }),
{
    lemma_octave_start(octave);
    let natural = seq![letter] + octave;
    let sharp = seq![letter, '#'] + octave;
    let flat = seq![letter, 'b'] + octave;
    assert(natural.skip(1) =~= octave);
    assert(sharp.skip(2) =~= octave);
    assert(flat.skip(2) =~= octave);
    assert(natural[1] == octave[0]);
    assert(('C' as u32 + 32) as char == 'c');
    assert(('D' as u32 + 32) as char == 'd');
    assert(('E' as u32 + 32) as char == 'e');
    assert(('F' as u32 + 32) as char == 'f');
    assert(('G' as u32 + 32) as char == 'g');
    assert(('A' as u32 + 32) as char == 'a');
    assert(('B' as u32 + 32) as char == 'b');
    assert(i8_value(octave) == Some(o as i8));
}

/// A text that begins with no letter from A to G is no note name, and neither is one without an
/// octave number behind its letter.
pub proof fn other_texts_are_no_notes(name: Seq<char>)
    ensures
        name.len() == 0 ==> parsed_note(name) == Err::<u8, NoteFault>(NoteFault::Empty),
        name.len() > 0 && !('A' <= name[0] <= 'G') && !('a' <= name[0] <= 'g') ==> parsed_note(name) == Err::<
            u8,
            NoteFault,
        >(NoteFault::InvalidLetter),
        name.len() == 1 && ('A' <= name[0] <= 'G' || 'a' <= name[0] <= 'g') ==> parsed_note(name) == Err::<
            u8,
            NoteFault,
        >(NoteFault::InvalidOctave),
{
    if name.len() > 0 {
        let c = name[0];
        if 'A' <= c <= 'Z' {
            let l = ((c as u32) + 32) as char;
            assert(l as u32 == c as u32 + 32);
        }
    }
    if name.len() == 1 {
        assert(name.skip(1) =~= Seq::<char>::empty());
    }
}

proof fn lemma_count_no_dash(s: Seq<char>, n: int)
    requires
        0 <= n <= s.len(),
        forall|k: int| 0 <= k < n ==> s[k] != '-',
    ensures
        dash_count(s, n) == 0,
    decreases n,
{
    if n > 0 {
        lemma_count_no_dash(s, n - 1);
    }
}

proof fn lemma_count_one_dash(s: Seq<char>, at: int, n: int)
    requires
        0 <= at < n <= s.len(),
        s[at] == '-',
        forall|k: int| 0 <= k < n && k != at ==> s[k] != '-',
    ensures
        dash_count(s, n) == 1,
    decreases n,
{
    if n - 1 == at {
        lemma_count_no_dash(s, at);
    } else {
        lemma_count_one_dash(s, at, n - 1);
    }
}

proof fn lemma_finds_first_dash(s: Seq<char>, at: int)
    requires
        0 <= at < s.len(),
        s[at] == '-',
        forall|k: int| 0 <= k < at ==> s[k] != '-',
    ensures
        first_dash(s) == at,
    decreases at,
{
    if at > 0 {
        assert(s[0] != '-');
        let rest = s.drop_first();
        assert forall|k: int| 0 <= k < at - 1 implies rest[k] != '-' by {
            assert(rest[k] == s[k + 1]);
        }
        lemma_finds_first_dash(rest, at - 1);
    }
}

/// Two note names with a dash between them are the range from the first to the second, both ends
/// included; the first must not lie above the second. Where a name cannot be read, the first such
/// is to blame.
pub proof fn ranges_join_two_notes(a: Seq<char>, b: Seq<char>)
    requires
        forall|k: int| 0 <= k < a.len() ==> a[k] != '-',
        forall|k: int| 0 <= k < b.len() ==> b[k] != '-',
    ensures
        ({
            let range = parsed_range(a + seq!['-'] + b);
            match parsed_note(a) {
                Err(fault) => range == Err::<(u8, u8), RangeFault>(RangeFault::Low(fault)),
                Ok(low) => match parsed_note(b) {
                    Err(fault) => range == Err::<(u8, u8), RangeFault>(RangeFault::High(fault)),
                    Ok(high) => if low <= high {
                        range == Ok::<(u8, u8), RangeFault>((low, high))
                    } else {
                        range == Err::<(u8, u8), RangeFault>(RangeFault::Inverted { low, high })
                    },
                },
            }
        }),
{
    let s = a + seq!['-'] + b;
    let at = a.len() as int;
    assert(s[at] == '-');
    assert forall|k: int| 0 <= k < s.len() && k != at implies s[k] != '-' by {
        if k < at {
            assert(s[k] == a[k]);
        } else {
            assert(s[k] == b[k - at - 1]);
        }
    }
    lemma_count_one_dash(s, at, s.len() as int);
    lemma_finds_first_dash(s, at);
    assert(low_half(s) =~= a);
    assert(high_half(s) =~= b);
}

proof fn lemma_dashes_add_up(s: Seq<char>, n: int, i: int, j: int)
    requires
        0 <= i < j < n <= s.len(),
        s[i] == '-',
        s[j] == '-',
    ensures
        dash_count(s, n) >= 2,
    decreases n,
{
    if n - 1 == j {
        lemma_dash_counts(s, j, i);
    } else {
        lemma_dashes_add_up(s, n - 1, i, j);
    }
}

proof fn lemma_dash_counts(s: Seq<char>, n: int, i: int)
    requires
        0 <= i < n <= s.len(),
        s[i] == '-',
    ensures
        dash_count(s, n) >= 1,
    decreases n,
{
    if n - 1 == i {
        lemma_dash_count_not_negative(s, i);
    } else {
        lemma_dash_counts(s, n - 1, i);
    }
}

proof fn lemma_dash_count_not_negative(s: Seq<char>, n: int)
    ensures
        dash_count(s, n) >= 0,
    decreases n,
{
    if n > 0 {
        lemma_dash_count_not_negative(s, n - 1);
    }
}

/// A text without a dash, or with more than one, is no range.
pub proof fn ranges_have_one_dash(s: Seq<char>, i: int, j: int)
    requires
        (forall|k: int| 0 <= k < s.len() ==> s[k] != '-') || (0 <= i < j < s.len() && s[i] == '-' && s[j] == '-'),
    ensures
        parsed_range(s) == Err::<(u8, u8), RangeFault>(RangeFault::Format),
{
    if forall|k: int| 0 <= k < s.len() ==> s[k] != '-' {
        lemma_count_no_dash(s, s.len() as int);
    } else {
        lemma_dashes_add_up(s, s.len() as int, i, j);
    }
}

} // verus!
