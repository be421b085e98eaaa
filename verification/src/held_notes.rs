//! Which notes are held at the moment: one bit per MIDI note.
use vstd::prelude::*;

verus! {

/// A set of MIDI notes, kept in two words of 64 bits.
#[derive(Clone, Copy, Debug, PartialEq, Eq, Structural)]
pub struct HeldNotes {
    pub low: u64,
    pub high: u64,
}

/// Whether bit `bit` of `word` is set.
pub open spec fn bit_set(word: u64, bit: u8) -> bool {
    word & (1u64 << bit) != 0
}

impl View for HeldNotes {
    type V = Set<u8>;

    open spec fn view(&self) -> Set<u8> {
        Set::new(
            |note: u8|
                if note < 64 {
                    bit_set(self.low, note)
                } else {
                    note < 128 && bit_set(self.high, (note - 64) as u8)
                },
        )
    }
}

proof fn lemma_set_bit(word: u64, i: u8, j: u8)
    requires
        i < 64,
        j < 64,
    ensures
        bit_set(word | (1u64 << i), j) == (i == j || bit_set(word, j)),
{
    assert(((word | (1u64 << i)) & (1u64 << j) != 0) == (i == j || word & (1u64 << j) != 0)) by (bit_vector)
        requires
            i < 64,
            j < 64,
    ;
}

proof fn lemma_clear_bit(word: u64, i: u8, j: u8)
    requires
        i < 64,
        j < 64,
    ensures
        bit_set(word & !(1u64 << i), j) == (i != j && bit_set(word, j)),
{
    assert(((word & !(1u64 << i)) & (1u64 << j) != 0) == (i != j && word & (1u64 << j) != 0)) by (bit_vector)
        requires
            i < 64,
            j < 64,
    ;
}

proof fn lemma_zero_word(j: u8)
    requires
        j < 64,
    ensures
        !bit_set(0, j),
{
    assert(0u64 & (1u64 << j) == 0) by (bit_vector)
        requires
            j < 64,
    ;
}

/// Whether the items ascend, each above the one before.
pub open spec fn ascending(items: Seq<u8>) -> bool {
    forall|i: int, j: int| 0 <= i < j < items.len() ==> #[trigger] items[i] < #[trigger] items[j]
}

impl HeldNotes {
    /// No note is held.
    pub fn new() -> (h: Self)
        ensures
            h@ == Set::<u8>::empty(),
    {
        let h = HeldNotes { low: 0, high: 0 };
        proof {
            assert forall|note: u8| !#[trigger] h@.contains(note) by {
                if note < 64 {
                    lemma_zero_word(note);
                } else if note < 128 {
                    lemma_zero_word((note - 64) as u8);
                }
            }
            assert(h@ =~= Set::empty());
        }
        h
    }

    /// The word, 0 or 1, and the bit in it that stand for a note; numbers above 127 have none.
    pub fn bit_of(note: u8) -> (place: Option<(usize, u64)>)
        ensures
            place == (if note < 64 {
                Some((0usize, 1u64 << note))
            } else if note < 128 {
                Some((1usize, 1u64 << ((note - 64) as u8)))
            } else {
                None
            }),
    {
        if note < 64 {
            Some((0, 1u64 << note))
        } else if note < 128 {
            Some((1, 1u64 << (note - 64)))
        } else {
            None
        }
    }

    /// A note goes down. Numbers above 127 are no notes.
    pub fn note_on(&mut self, note: u8)
        ensures
            final(self)@ == (if note < 128 {
                old(self)@.insert(note)
            } else {
                old(self)@
            }),
    {
        let ghost before = *self;
        match HeldNotes::bit_of(note) {
            Some((0, bit)) => {
                self.low = self.low | bit;
                proof {
                    assert forall|n: u8| #[trigger] self@.contains(n) == before@.insert(note).contains(n) by {
                        if n < 64 {
                            lemma_set_bit(before.low, note, n);
                        }
                    }
                    assert(self@ =~= before@.insert(note));
                }
            },
            Some((_, bit)) => {
                self.high = self.high | bit;
                proof {
                    assert forall|n: u8| #[trigger] self@.contains(n) == before@.insert(note).contains(n) by {
                        if 64 <= n < 128 {
                            lemma_set_bit(before.high, (note - 64) as u8, (n - 64) as u8);
                        }
                    }
                    assert(self@ =~= before@.insert(note));
                }
            },
            None => {},
        }
    }

    /// A note comes up.
    pub fn note_off(&mut self, note: u8)
        ensures
            final(self)@ == old(self)@.remove(note),
    {
        let ghost before = *self;
        match HeldNotes::bit_of(note) {
            Some((0, bit)) => {
                self.low = self.low & !bit;
                proof {
                    assert forall|n: u8| #[trigger] self@.contains(n) == before@.remove(note).contains(n) by {
                        if n < 64 {
                            lemma_clear_bit(before.low, note, n);
                        }
                    }
                    assert(self@ =~= before@.remove(note));
                }
            },
            Some((_, bit)) => {
                self.high = self.high & !bit;
                proof {
                    assert forall|n: u8| #[trigger] self@.contains(n) == before@.remove(note).contains(n) by {
                        if 64 <= n < 128 {
                            lemma_clear_bit(before.high, (note - 64) as u8, (n - 64) as u8);
                        }
                    }
                    assert(self@ =~= before@.remove(note));
                }
            },
            None => {
                assert(self@ =~= before@.remove(note));
            },
        }
    }

    /// Whether a note is held.
    pub fn is_held(&self, note: u8) -> (r: bool)
        ensures
            r == self@.contains(note),
    {
        match HeldNotes::bit_of(note) {
            Some((0, bit)) => self.low & bit != 0,
            Some((_, bit)) => self.high & bit != 0,
            None => false,
        }
    }

    /// The notes held, in ascending order.
    pub fn held(&self) -> (notes: Vec<u8>)
        ensures
            ascending(notes@),
            forall|n: u8| #[trigger] notes@.contains(n) <==> self@.contains(n),
    {
        let mut notes: Vec<u8> = Vec::new();
        let mut n: u8 = 0;
        while n < 128
            invariant
                n <= 128,
                ascending(notes@),
                forall|i: int| 0 <= i < notes@.len() ==> #[trigger] notes@[i] < n && self@.contains(notes@[i]),
                forall|m: u8| m < n && self@.contains(m) ==> #[trigger] notes@.contains(m),
            decreases 128 - n,
        {
            let ghost before = notes@;
            if self.is_held(n) {
                notes.push(n);
                assert(notes@[before.len() as int] == n);
                assert forall|m: u8| m < n + 1 && self@.contains(m) implies #[trigger] notes@.contains(m) by {
                    if m < n {
                        assert(before.contains(m));
                        let i = choose|i: int| 0 <= i < before.len() && before[i] == m;
                        assert(notes@[i] == m);
                    }
                }
            }
            n = n + 1;
        }
        assert forall|m: u8| #[trigger] notes@.contains(m) <==> self@.contains(m) by {
            if notes@.contains(m) {
                let i = choose|i: int| 0 <= i < notes@.len() && notes@[i] == m;
                assert(self@.contains(notes@[i]));
            }
        }
        notes
    }

    /// How many notes are held.
    pub fn count(&self) -> (n: usize)
        ensures
            self@.finite(),
            n == self@.len(),
    {
        let notes = self.held();
        proof {
            assert(notes@.no_duplicates());
            notes@.unique_seq_to_set();
            vstd::seq_lib::seq_to_set_is_finite(notes@);
            assert(notes@.to_set() =~= self@);
        }
        notes.len()
    }
}

impl Default for HeldNotes {
    fn default() -> (h: Self)
        ensures
            h@ == Set::<u8>::empty(),
    {
        HeldNotes::new()
    }
}

// ---------------------------------------------------------------------------
// Laws
// ---------------------------------------------------------------------------

/// A note that goes down and comes up again leaves the set as it was without the note.
pub proof fn on_then_off_releases(held: Set<u8>, note: u8)
    ensures
        held.insert(note).remove(note) == held.remove(note),
        !held.insert(note).remove(note).contains(note),
{
    assert(held.insert(note).remove(note) =~= held.remove(note));
}

} // verus!
