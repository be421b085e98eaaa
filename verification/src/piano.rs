//! A piano on the computer keyboard, in the layout of the Amiga trackers: two rows of keys, an
//! octave apart.
use vstd::prelude::*;

use crate::midi::MidiEvent;
use crate::text::{lower, to_lower};

verus! {

/// Velocity of every note.
pub const VELOCITY: u8 = 100;

/// What happened to a key.
#[derive(Clone, Copy, Debug, PartialEq, Eq, Structural)]
pub enum KeyAction {
    Press,
    Repeat,
    Release,
}

/// The piano: the octave of the lower row, and the keys held.
#[derive(Debug)]
pub struct VirtualPiano {
    pub base_octave: i8,
    /// Keys held, each once, oldest first.
    pub held_keys: Vec<char>,
    /// Without press and release reports from the terminal there is no piano.
    pub enabled: bool,
}

/// The mathematical content of a [`VirtualPiano`].
#[verifier::ext_equal]
pub struct PianoState {
    pub base_octave: i8,
    pub held_keys: Seq<char>,
    pub enabled: bool,
}

impl View for VirtualPiano {
    type V = PianoState;

    open spec fn view(&self) -> PianoState {
        PianoState { base_octave: self.base_octave, held_keys: self.held_keys@, enabled: self.enabled }
    }
}

/// Semitones of a key above the C of the lower row's octave.
pub open spec fn key_semitones(key: char) -> Option<int> {
    let k = lower(key);
    if k == 'z' {
        Some(0)
    } else if k == 's' {
        Some(1)
    } else if k == 'x' {
        Some(2)
    } else if k == 'd' {
        Some(3)
    } else if k == 'c' {
        Some(4)
    } else if k == 'v' {
        Some(5)
    } else if k == 'g' {
        Some(6)
    } else if k == 'b' {
        Some(7)
    } else if k == 'h' {
        Some(8)
    } else if k == 'n' {
        Some(9)
    } else if k == 'j' {
        Some(10)
    } else if k == 'm' {
        Some(11)
    } else if k == ',' {
        Some(12)
    } else if k == 'l' {
        Some(13)
    } else if k == '.' {
        Some(14)
    } else if k == ';' {
        Some(15)
    } else if k == '/' {
        Some(16)
    } else if k == 'q' {
        Some(12)
    } else if k == '2' {
        Some(13)
    } else if k == 'w' {
        Some(14)
    } else if k == '3' {
        Some(15)
    } else if k == 'e' {
        Some(16)
    } else if k == 'r' {
        Some(17)
    } else if k == '5' {
        Some(18)
    } else if k == 't' {
        Some(19)
    } else if k == '6' {
        Some(20)
    } else if k == 'y' {
        Some(21)
    } else if k == '7' {
        Some(22)
    } else if k == 'u' {
        Some(23)
    } else if k == 'i' {
        Some(24)
    } else if k == '9' {
        Some(25)
    } else if k == 'o' {
        Some(26)
    } else if k == '0' {
        Some(27)
    } else if k == 'p' {
        Some(28)
    } else {
        None
    }
}

/// The note that a key plays in an octave.
pub open spec fn key_note(octave: int, key: char) -> Option<u8> {
    match key_semitones(key) {
        Some(s) => if 0 <= octave * 12 + s <= 127 {
            Some((octave * 12 + s) as u8)
        } else {
            None
        },
        None => None,
    }
}

/// The keys other than `key`, in order.
pub open spec fn keys_without(keys: Seq<char>, key: char) -> Seq<char>
    decreases keys.len(),
{
    if keys.len() == 0 {
        Seq::empty()
    } else {
        let rest = keys_without(keys.drop_last(), key);
        if keys.last() == key {
            rest
        } else {
            rest.push(keys.last())
        }
    }
}

/// Note-offs for the keys that play a note, in order.
pub open spec fn key_note_offs(octave: int, keys: Seq<char>) -> Seq<MidiEvent>
    decreases keys.len(),
{
    if keys.len() == 0 {
        Seq::empty()
    } else {
        let rest = key_note_offs(octave, keys.drop_last());
        match key_note(octave, keys.last()) {
            Some(note) => rest.push((0u64, [0x80u8, note, 0u8])),
            None => rest,
        }
    }
}

impl PianoState {
    /// The octave is one of nine, and no key is held twice.
    pub open spec fn wf(self) -> bool {
        &&& 0 <= self.base_octave <= 8
        &&& self.held_keys.no_duplicates()
    }

    pub open spec fn note(self, key: char) -> Option<u8> {
        key_note(self.base_octave as int, key)
    }

    /// The piano after something happened to a key.
    pub open spec fn after(self, key: char, action: KeyAction) -> PianoState {
        if !self.enabled || action == KeyAction::Repeat {
            self
        } else if action == KeyAction::Press {
            if key == '[' {
                PianoState {
                    base_octave: if self.base_octave > 0 {
                        (self.base_octave - 1) as i8
                    } else {
                        self.base_octave
                    },
                    ..self
                }
            } else if key == ']' {
                PianoState {
                    base_octave: if self.base_octave < 8 {
                        (self.base_octave + 1) as i8
                    } else {
                        self.base_octave
                    },
                    ..self
                }
            } else if self.held_keys.contains(key) || self.note(key) is None {
                self
            } else {
                PianoState { held_keys: self.held_keys.push(key), ..self }
            }
        } else if self.note(key) is Some {
            PianoState { held_keys: keys_without(self.held_keys, key), ..self }
        } else {
            self
        }
    }

    /// The message that is sent when something happens to a key.
    pub open spec fn message(self, key: char, action: KeyAction) -> Option<MidiEvent> {
        if !self.enabled || action == KeyAction::Repeat {
            None
        } else if action == KeyAction::Press {
            if key == '[' || key == ']' || self.held_keys.contains(key) {
                None
            } else {
                match self.note(key) {
                    Some(note) => Some((0u64, [0x90u8, note, VELOCITY])),
                    None => None,
                }
            }
        } else {
            match self.note(key) {
                Some(note) => Some((0u64, [0x80u8, note, 0u8])),
                None => None,
            }
        }
    }
}

/// Semitones of a key above the C of the lower row's octave.
fn semitones_of(key: char) -> (s: Option<i16>)
    ensures
        match s {
            Some(s) => key_semitones(key) == Some(s as int) && 0 <= s <= 28,
            None => key_semitones(key) is None,
        },
{
    match to_lower(key) {
        'z' => Some(0),
        's' => Some(1),
        'x' => Some(2),
        'd' => Some(3),
        'c' => Some(4),
        'v' => Some(5),
        'g' => Some(6),
        'b' => Some(7),
        'h' => Some(8),
        'n' => Some(9),
        'j' => Some(10),
        'm' => Some(11),
        ',' => Some(12),
        'l' => Some(13),
        '.' => Some(14),
        ';' => Some(15),
        '/' => Some(16),
        'q' => Some(12),
        '2' => Some(13),
        'w' => Some(14),
        '3' => Some(15),
        'e' => Some(16),
        'r' => Some(17),
        '5' => Some(18),
        't' => Some(19),
        '6' => Some(20),
        'y' => Some(21),
        '7' => Some(22),
        'u' => Some(23),
        'i' => Some(24),
        '9' => Some(25),
        'o' => Some(26),
        '0' => Some(27),
        'p' => Some(28),
        _ => None,
    }
}

impl VirtualPiano {
    /// A piano in the fourth octave with no key held.
    pub fn new(enabled: bool) -> (p: Self)
        ensures
            p@ == (PianoState { base_octave: 4, held_keys: Seq::empty(), enabled }),
            p@.wf(),
    {
        VirtualPiano { base_octave: 4, held_keys: Vec::new(), enabled }
    }

    /// The note that a key plays.
    pub fn key_to_note(&self, key: char) -> (note: Option<u8>)
        ensures
            note == self@.note(key),
    {
        match semitones_of(key) {
            Some(s) => {
                let note: i16 = self.base_octave as i16 * 12 + s;
                if 0 <= note && note <= 127 {
                    Some(note as u8)
                } else {
                    None
                }
            },
            None => None,
        }
    }

    fn holds(&self, key: char) -> (r: bool)
        ensures
            r == self.held_keys@.contains(key),
    {
        let n: usize = self.held_keys.len();
        let mut i: usize = 0;
        while i < n
            invariant
                i <= n,
                n == self.held_keys@.len(),
                forall|k: int| 0 <= k < i ==> self.held_keys@[k] != key,
            decreases n - i,
        {
            if self.held_keys[i] == key {
                assert(self.held_keys@[i as int] == key);
                return true;
            }
            i = i + 1;
        }
        false
    }

    fn release_key(&mut self, key: char)
        ensures
            final(self)@ == (PianoState { held_keys: keys_without(old(self).held_keys@, key), ..old(self)@ }),
    {
        let mut kept: Vec<char> = Vec::new();
        let n: usize = self.held_keys.len();
        let mut i: usize = 0;
        while i < n
            invariant
                i <= n,
                n == self.held_keys@.len(),
                *self == *old(self),
                kept@ == keys_without(self.held_keys@.take(i as int), key),
            decreases n - i,
        {
            proof {
                assert(self.held_keys@.take(i + 1).drop_last() =~= self.held_keys@.take(i as int));
            }
            if self.held_keys[i] != key {
                kept.push(self.held_keys[i]);
            }
            i = i + 1;
        }
        proof {
            assert(self.held_keys@.take(n as int) =~= self.held_keys@);
        }
        self.held_keys = kept;
    }

    /// Something happens to a key: brackets change the octave, the other keys play. What is to be
    /// sent is returned. A key that is already held does not sound again.
    pub fn handle_key_event(&mut self, key: char, action: KeyAction) -> (message: Option<MidiEvent>)
        requires
            old(self)@.wf(),
        ensures
            final(self)@ == old(self)@.after(key, action),
            final(self)@.wf(),
            message == old(self)@.message(key, action),
    {
        if !self.enabled {
            return None;
        }
        match action {
            KeyAction::Press => {
                if key == '[' {
                    if self.base_octave > 0 {
                        self.base_octave = self.base_octave - 1;
                    }
                    return None;
                }
                if key == ']' {
                    if self.base_octave < 8 {
                        self.base_octave = self.base_octave + 1;
                    }
                    return None;
                }
                if self.holds(key) {
                    return None;
                }
                match self.key_to_note(key) {
                    Some(note) => {
                        self.held_keys.push(key);
                        Some((0, [0x90, note, VELOCITY]))
                    },
                    None => None,
                }
            },
            KeyAction::Release => match self.key_to_note(key) {
                Some(note) => {
                    proof {
                        lemma_keys_without(self.held_keys@, key);
                    }
                    self.release_key(key);
                    Some((0, [0x80, note, 0]))
                },
                None => None,
            },
            KeyAction::Repeat => None,
        }
    }

    /// Releases every key and returns the note-offs for them.
    pub fn all_notes_off(&mut self) -> (messages: Vec<MidiEvent>)
        ensures
            messages@ == key_note_offs(old(self).base_octave as int, old(self).held_keys@),
            final(self)@ == (PianoState { held_keys: Seq::empty(), ..old(self)@ }),
    {
        let mut messages: Vec<MidiEvent> = Vec::new();
        let n: usize = self.held_keys.len();
        let mut i: usize = 0;
        while i < n
            invariant
                i <= n,
                n == self.held_keys@.len(),
                *self == *old(self),
                messages@ == key_note_offs(self.base_octave as int, self.held_keys@.take(i as int)),
            decreases n - i,
        {
            proof {
                assert(self.held_keys@.take(i + 1).drop_last() =~= self.held_keys@.take(i as int));
            }
            if let Some(note) = self.key_to_note(self.held_keys[i]) {
                messages.push((0, [0x80, note, 0]));
            }
            i = i + 1;
        }
        proof {
            assert(self.held_keys@.take(n as int) =~= self.held_keys@);
        }
        self.held_keys.clear();
        messages
    }
}

proof fn lemma_keys_without(keys: Seq<char>, key: char)
    requires
        keys.no_duplicates(),
    ensures
        keys_without(keys, key).no_duplicates(),
        forall|k: char| #[trigger] keys_without(keys, key).contains(k) <==> keys.contains(k) && k != key,
    decreases keys.len(),
{
    if keys.len() > 0 {
        let init = keys.drop_last();
        lemma_keys_without(init, key);
        let rest = keys_without(init, key);
        let all = keys_without(keys, key);
        assert forall|k: char| #[trigger] all.contains(k) <==> keys.contains(k) && k != key by {
            if all.contains(k) {
                let i = choose|i: int| 0 <= i < all.len() && all[i] == k;
                if i < rest.len() {
                    assert(rest.contains(rest[i]));
                    let j = choose|j: int| 0 <= j < init.len() && init[j] == k;
                    assert(keys[j] == k);
                } else {
                    assert(keys[keys.len() - 1] == k);
                }
            }
            if keys.contains(k) && k != key {
                let i = choose|i: int| 0 <= i < keys.len() && keys[i] == k;
                if i < init.len() {
                    assert(init[i] == k);
                    assert(rest.contains(k));
                    let j = choose|j: int| 0 <= j < rest.len() && rest[j] == k;
                    assert(all[j] == k);
                } else {
                    assert(all[all.len() - 1] == k);
                }
            }
        }
        assert(all.no_duplicates()) by {
            if keys.last() != key {
                assert forall|i: int, j: int| 0 <= i < all.len() && 0 <= j < all.len() && i != j implies all[i] != all[j] by {
                    if i < rest.len() && j < rest.len() {
                        assert(rest[i] != rest[j]);
                    } else {
                        let m = if i < rest.len() {
                            i
                        } else {
                            j
                        };
                        assert(rest.contains(rest[m]));
                        let q = choose|q: int| 0 <= q < init.len() && init[q] == rest[m];
                        assert(keys[q] != keys[keys.len() - 1]);
                    }
                }
            }
        }
    }
}

// ---------------------------------------------------------------------------
// Laws
// ---------------------------------------------------------------------------

/// Every piano key plays a MIDI note in every octave.
pub proof fn every_key_sounds(p: PianoState, key: char)
    requires
        p.wf(),
        key_semitones(key) is Some,
    ensures
        p.note(key) is Some,
        p.note(key)->0 <= 124,
{
}

/// A held key that is pressed again sends nothing and changes nothing.
pub proof fn held_key_does_not_sound_again(p: PianoState, key: char)
    requires
        p.held_keys.contains(key),
        key_semitones(key) is Some,
    ensures
        p.message(key, KeyAction::Press) is None,
        p.after(key, KeyAction::Press) == p,
{
}

/// Pressing a key and letting it go sends a note-on and the note-off for the same note, and leaves
/// the piano as it was.
pub proof fn press_and_release_pair_up(p: PianoState, key: char)
    requires
        p.wf(),
        p.enabled,
        key_semitones(key) is Some,
        !p.held_keys.contains(key),
    ensures
        p.message(key, KeyAction::Press) is Some,
        p.after(key, KeyAction::Press).message(key, KeyAction::Release) is Some,
        (p.message(key, KeyAction::Press)->0).1[1] == (p.after(key, KeyAction::Press).message(
            key,
            KeyAction::Release,
        )->0).1[1],
        p.after(key, KeyAction::Press).after(key, KeyAction::Release) == p,
{
    assert(key != '[' && key != ']');
    let q = p.after(key, KeyAction::Press);
    assert(q.held_keys.drop_last() =~= p.held_keys);
    lemma_keys_without_absent(p.held_keys, key);
}

proof fn lemma_keys_without_absent(keys: Seq<char>, key: char)
    requires
        !keys.contains(key),
    ensures
        keys_without(keys, key) == keys,
    decreases keys.len(),
{
    if keys.len() > 0 {
        assert(keys[keys.len() - 1] != key);
        assert forall|i: int| 0 <= i < keys.drop_last().len() implies keys.drop_last()[i] != key by {
            assert(keys[i] != key);
        }
        lemma_keys_without_absent(keys.drop_last(), key);
        assert(keys.drop_last().push(keys.last()) =~= keys);
    }
}

} // verus!
