//! Laws of chord detection.
use vstd::prelude::*;

use crate::chord::{
    candidates, candidates_on, chord_intervals, chords_are_well_shaped, detected, detected_chords_sound,
    has_pitch_class, lower_case, pitch_classes, place_of, ranked, ranking_keeps_chords, roman_text, shape,
    shape_below, CHORD_COUNT, CHORD_PRIORITIES, CHORD_ROMANS, CHORD_SUFFIXES, INTERVAL_NAMES, LOWER_NUMERALS,
    UPPER_NUMERALS,
};
use crate::scale::{scale_intervals, scales_are_well_shaped, ScaleSetting};

verus! {

// ---------------------------------------------------------------------------
// What is held
// ---------------------------------------------------------------------------

/// Whether the values ascend.
spec fn ascends(s: Seq<u8>) -> bool {
    forall|i: int, j: int| 0 <= i < j < s.len() ==> #[trigger] s[i] < #[trigger] s[j]
}

proof fn lemma_shape(held: Seq<u8>, root: int, n: int)
    requires
        0 <= n <= 12,
    ensures
        ascends(shape_below(held, root, n)),
        forall|k: int| 0 <= k < shape_below(held, root, n).len() ==> #[trigger] shape_below(held, root, n)[k] < n,
        forall|iv: int|
            0 <= iv < n ==> (#[trigger] shape_below(held, root, n).contains(iv as u8) <==> has_pitch_class(
                held,
                (root + iv) % 12,
            )),
    decreases n,
{
    if n > 0 {
        lemma_shape(held, root, n - 1);
        let rest = shape_below(held, root, n - 1);
        let all = shape_below(held, root, n);
        assert forall|iv: int| 0 <= iv < n implies (#[trigger] all.contains(iv as u8) <==> has_pitch_class(
            held,
            (root + iv) % 12,
        )) by {
            if rest.contains(iv as u8) {
                let i = choose|i: int| 0 <= i < rest.len() && rest[i] == iv as u8;
                assert(all[i] == iv as u8);
            }
            if all.contains(iv as u8) {
                let i = choose|i: int| 0 <= i < all.len() && all[i] == iv as u8;
                if i < rest.len() {
                    assert(rest[i] == iv as u8);
                    assert(rest.contains(iv as u8));
                }
            }
            if iv == n - 1 && has_pitch_class(held, (root + iv) % 12) {
                assert(all[all.len() - 1] == iv as u8);
            }
        }
    }
}

proof fn lemma_same_members(a: Seq<u8>, b: Seq<u8>)
    requires
        ascends(a),
        ascends(b),
        forall|v: u8| #[trigger] a.contains(v) <==> b.contains(v),
    ensures
        a == b,
    decreases a.len(),
{
    if a.len() == 0 {
        if b.len() > 0 {
            assert(b.contains(b[0]));
            assert(a.contains(b[0]));
        }
    } else if b.len() == 0 {
        assert(a.contains(a[0]));
        assert(b.contains(a[0]));
    } else {
        let x = a.last();
        let y = b.last();
        assert(a.contains(x) && b.contains(y));
        assert(b.contains(x) && a.contains(y));
        let i = choose|i: int| 0 <= i < b.len() && b[i] == x;
        let j = choose|j: int| 0 <= j < a.len() && a[j] == y;
        assert(x == y) by {
            if i < b.len() - 1 {
                assert(b[i] < b[b.len() - 1]);
            }
            if j < a.len() - 1 {
                assert(a[j] < a[a.len() - 1]);
            }
        }
        let a1 = a.drop_last();
        let b1 = b.drop_last();
        assert forall|v: u8| #[trigger] a1.contains(v) <==> b1.contains(v) by {
            assert(a.contains(v) <==> b.contains(v));
            if a1.contains(v) {
                let k = choose|k: int| 0 <= k < a1.len() && a1[k] == v;
                assert(a[k] == v && a[k] < a[a.len() - 1]);
                assert(a.contains(v));
                let m = choose|m: int| 0 <= m < b.len() && b[m] == v;
                assert(b1[m] == v);
            }
            if b1.contains(v) {
                let k = choose|k: int| 0 <= k < b1.len() && b1[k] == v;
                assert(b[k] == v && b[k] < b[b.len() - 1]);
                assert(b.contains(v));
                let m = choose|m: int| 0 <= m < a.len() && a[m] == v;
                assert(a1[m] == v);
            }
        }
        lemma_same_members(a1, b1);
        assert(a =~= a1.push(x));
        assert(b =~= b1.push(y));
    }
}

proof fn lemma_intervals_ascend(t: int)
    ensures
        ascends(chord_intervals(t)),
{
    reveal(chord_intervals);
}

/// Whether the held notes, seen from `root`, are exactly the tones of a chord: a note of the pitch
/// class `iv` semitones above the root is held where the chord has that tone, and nowhere else.
pub open spec fn forms(held: Seq<u8>, root: int, tones: Seq<u8>) -> bool {
    forall|iv: int|
        0 <= iv < 12 ==> (#[trigger] tones.contains(iv as u8) <==> exists|i: int|
            0 <= i < held.len() && (#[trigger] held[i]) as int % 12 == (root + iv) % 12)
}

proof fn lemma_forms_is_shape(held: Seq<u8>, root: int, t: int)
    requires
        0 <= t < CHORD_COUNT,
    ensures
        forms(held, root, chord_intervals(t)) <==> shape(held, root) == chord_intervals(t),
{
    let tones = chord_intervals(t);
    let s = shape(held, root);
    lemma_shape(held, root, 12);
    lemma_intervals_ascend(t);
    chords_are_well_shaped(t);
    if forms(held, root, tones) {
        assert forall|v: u8| #[trigger] s.contains(v) <==> tones.contains(v) by {
            if v < 12 {
                assert(s.contains(v as int as u8) <==> has_pitch_class(held, (root + v as int) % 12));
                assert(tones.contains(v as int as u8) <==> exists|i: int|
                    0 <= i < held.len() && (#[trigger] held[i]) as int % 12 == (root + v as int) % 12);
            } else {
                if s.contains(v) {
                    let k = choose|k: int| 0 <= k < s.len() && s[k] == v;
                    assert(s[k] < 12);
                }
                if tones.contains(v) {
                    let k = choose|k: int| 0 <= k < tones.len() && tones[k] == v;
                    assert(tones[k] < 12);
                }
            }
        }
        lemma_same_members(s, tones);
    }
    if s == tones {
        assert forall|iv: int| 0 <= iv < 12 implies (#[trigger] tones.contains(iv as u8) <==> exists|i: int|
            0 <= i < held.len() && (#[trigger] held[i]) as int % 12 == (root + iv) % 12) by {
            assert(s.contains(iv as u8) <==> has_pitch_class(held, (root + iv) % 12));
        }
    }
}

// ---------------------------------------------------------------------------
// Detection
// ---------------------------------------------------------------------------

/// Every chord that is detected is formed by the held notes: its root is a pitch class, its shape
/// one of those known, and its tones, and no others, are held.
pub proof fn detected_chords_are_formed(held: Seq<u8>, setting: ScaleSetting, k: int)
    requires
        0 <= k < detected(held, setting).len(),
    ensures
        ({
            let c = detected(held, setting)[k];
            c.root < 12 && c.template < 20 && forms(held, c.root as int, chord_intervals(c.template as int))
        }),
{
    detected_chords_sound(held, setting, k);
    let c = detected(held, setting)[k];
    lemma_forms_is_shape(held, c.root as int, c.template as int);
}

proof fn lemma_candidates_on_complete(held: Seq<u8>, setting: ScaleSetting, root: u8, n: int, t: int)
    requires
        0 <= t < n <= CHORD_COUNT,
        shape(held, root as int) == chord_intervals(t),
    ensures
        exists|k: int|
            0 <= k < candidates_on(held, setting, root, n).len() && (#[trigger] candidates_on(
                held,
                setting,
                root,
                n,
            )[k]).root == root && candidates_on(held, setting, root, n)[k].template == t,
    decreases n,
{
    let all = candidates_on(held, setting, root, n);
    let rest = candidates_on(held, setting, root, n - 1);
    if t == n - 1 {
        assert(all[all.len() - 1].template == t);
    } else {
        lemma_candidates_on_complete(held, setting, root, n - 1, t);
        let k = choose|k: int| 0 <= k < rest.len() && (#[trigger] rest[k]).root == root && rest[k].template == t;
        assert(all[k] == rest[k]);
    }
}

proof fn lemma_candidates_complete(held: Seq<u8>, setting: ScaleSetting, roots: Seq<u8>, n: int, r: int, t: int)
    requires
        0 <= r < n <= roots.len(),
        0 <= t < CHORD_COUNT,
        shape(held, roots[r] as int) == chord_intervals(t),
    ensures
        exists|k: int|
            0 <= k < candidates(held, setting, roots, n).len() && (#[trigger] candidates(
                held,
                setting,
                roots,
                n,
            )[k]).root == roots[r] && candidates(held, setting, roots, n)[k].template == t,
    decreases n,
{
    let all = candidates(held, setting, roots, n);
    let rest = candidates(held, setting, roots, n - 1);
    let last = candidates_on(held, setting, roots[n - 1], CHORD_COUNT as int);
    if r == n - 1 {
        lemma_candidates_on_complete(held, setting, roots[r], CHORD_COUNT as int, t);
        let k = choose|k: int|
            0 <= k < last.len() && (#[trigger] last[k]).root == roots[r] && last[k].template == t;
        assert(all[rest.len() + k] == last[k]);
    } else {
        lemma_candidates_complete(held, setting, roots, n - 1, r, t);
        let k = choose|k: int|
            0 <= k < rest.len() && (#[trigger] rest[k]).root == roots[r] && rest[k].template == t;
        assert(all[k] == rest[k]);
    }
}

/// Every chord that the held notes form is detected: whatever the root and whatever the shape among
/// those known, if the held notes are exactly its tones then it is among the chords found.
pub proof fn formed_chords_are_detected(held: Seq<u8>, setting: ScaleSetting, root: int, t: int)
    requires
        0 <= root < 12,
        0 <= t < 20,
        forms(held, root, chord_intervals(t)),
    ensures
        exists|k: int|
            0 <= k < detected(held, setting).len() && (#[trigger] detected(held, setting)[k]).root == root
                && detected(held, setting)[k].template == t,
{
    let tones = chord_intervals(t);
    lemma_forms_is_shape(held, root, t);
    chords_are_well_shaped(t);
    lemma_intervals_ascend(t);
    let pcs = pitch_classes(held);
    lemma_shape(held, 0, 12);
    lemma_shape(held, root, 12);
    // The root and one more tone are held, so there are two pitch classes at least.
    let other = tones[1] as int;
    assert(tones.contains(0int as u8)) by {
        assert(tones[0] == 0);
    }
    assert(tones.contains(other as u8)) by {
        assert(tones[1] == other);
    }
    assert(tones[0] < tones[1]);
    assert(has_pitch_class(held, (root + 0) % 12));
    assert(has_pitch_class(held, (root + other) % 12));
    let a = root;
    let b = (root + other) % 12;
    assert(pcs.contains(a as u8) <==> has_pitch_class(held, (0 + a) % 12));
    assert(pcs.contains(b as u8) <==> has_pitch_class(held, (0 + b) % 12));
    assert(pcs.contains(a as u8) && pcs.contains(b as u8) && a != b);
    let r = choose|r: int| 0 <= r < pcs.len() && pcs[r] == a as u8;
    let q = choose|q: int| 0 <= q < pcs.len() && pcs[q] == b as u8;
    assert(r != q);
    assert(pcs.len() >= 2);
    let list = candidates(held, setting, pcs, pcs.len() as int);
    lemma_candidates_complete(held, setting, pcs, pcs.len() as int, r, t);
    let i = choose|i: int| 0 <= i < list.len() && (#[trigger] list[i]).root == pcs[r] && list[i].template == t;
    let c = list[i];
    assert(list.contains(c));
    ranking_keeps_chords(list, c);
    let k = choose|k: int| 0 <= k < ranked(list).len() && ranked(list)[k] == c;
    assert(detected(held, setting)[k].root == root);
}

/// Fewer than two pitch classes make no chord.
pub proof fn single_notes_are_no_chord(held: Seq<u8>, setting: ScaleSetting, pc: int)
    requires
        0 <= pc < 12,
        forall|i: int| 0 <= i < held.len() ==> (#[trigger] held[i]) as int % 12 == pc,
    ensures
        detected(held, setting).len() == 0,
{
    if detected(held, setting).len() > 0 {
        detected_chords_are_formed(held, setting, 0);
        let c = detected(held, setting)[0];
        let tones = chord_intervals(c.template as int);
        chords_are_well_shaped(c.template as int);
        lemma_intervals_ascend(c.template as int);
        assert(tones[0] < tones[1]);
        let other = tones[1] as int;
        assert(tones.contains(0int as u8)) by {
            assert(tones[0] == 0);
        }
        assert(tones.contains(other as u8)) by {
            assert(tones[1] == other);
        }
        let i = choose|i: int| 0 <= i < held.len() && (#[trigger] held[i]) as int % 12 == (c.root as int + 0) % 12;
        let j = choose|j: int| 0 <= j < held.len() && (#[trigger] held[j]) as int % 12 == (c.root as int + other) % 12;
        assert(held[i] as int % 12 == pc);
        assert(held[j] as int % 12 == pc);
        assert(tones[1] < 12);
    }
}

/// Chords are ranked by how common they are and by how they stand to the scale: on its root they
/// gain eight, on any of its tones four, and where all their tones are in it five.
pub proof fn fit_rewards_the_scale(held: Seq<u8>, setting: ScaleSetting, k: int)
    requires
        0 <= k < detected(held, setting).len(),
    ensures
        ({
            let c = detected(held, setting)[k];
            let tones = chord_intervals(c.template as int);
            let within = forall|i: int| 0 <= i < tones.len() ==> setting.has(c.root + (#[trigger] tones[i]) as int);
            c.score == CHORD_PRIORITIES@[c.template as int] + (if c.root == setting.root {
                8int
            } else {
                0
            }) + (if setting.has(c.root as int) {
                4int
            } else {
                0
            }) + (if within {
                5int
            } else {
                0
            })
        }),
{
    detected_chords_sound(held, setting, k);
}

// ---------------------------------------------------------------------------
// Shapes and names
// ---------------------------------------------------------------------------

/// The names of the chord shapes stand for their tones, in semitones above the root.
pub proof fn chord_names_stand_for_their_tones()
    ensures
        CHORD_SUFFIXES@[0]@ == ""@ && chord_intervals(0) == seq![0u8, 4, 7],
        CHORD_SUFFIXES@[1]@ == "m"@ && chord_intervals(1) == seq![0u8, 3, 7],
        CHORD_SUFFIXES@[2]@ == "dim"@ && chord_intervals(2) == seq![0u8, 3, 6],
        CHORD_SUFFIXES@[3]@ == "aug"@ && chord_intervals(3) == seq![0u8, 4, 8],
        CHORD_SUFFIXES@[4]@ == "sus2"@ && chord_intervals(4) == seq![0u8, 2, 7],
        CHORD_SUFFIXES@[5]@ == "sus4"@ && chord_intervals(5) == seq![0u8, 5, 7],
        CHORD_SUFFIXES@[6]@ == "maj7"@ && chord_intervals(6) == seq![0u8, 4, 7, 11],
        CHORD_SUFFIXES@[7]@ == "m7"@ && chord_intervals(7) == seq![0u8, 3, 7, 10],
        CHORD_SUFFIXES@[8]@ == "7"@ && chord_intervals(8) == seq![0u8, 4, 7, 10],
        CHORD_SUFFIXES@[9]@ == "m7♭5"@ && chord_intervals(9) == seq![0u8, 3, 6, 10],
        CHORD_SUFFIXES@[10]@ == "dim7"@ && chord_intervals(10) == seq![0u8, 3, 6, 9],
        CHORD_SUFFIXES@[11]@ == "mMaj7"@ && chord_intervals(11) == seq![0u8, 3, 7, 11],
        CHORD_SUFFIXES@[12]@ == "6"@ && chord_intervals(12) == seq![0u8, 4, 7, 9],
        CHORD_SUFFIXES@[13]@ == "m6"@ && chord_intervals(13) == seq![0u8, 3, 7, 9],
        CHORD_SUFFIXES@[14]@ == "add9"@ && chord_intervals(14) == seq![0u8, 2, 4, 7],
        CHORD_SUFFIXES@[15]@ == "madd9"@ && chord_intervals(15) == seq![0u8, 2, 3, 7],
        CHORD_SUFFIXES@[16]@ == "9"@ && chord_intervals(16) == seq![0u8, 2, 4, 7, 10],
        CHORD_SUFFIXES@[17]@ == "maj9"@ && chord_intervals(17) == seq![0u8, 2, 4, 7, 11],
        CHORD_SUFFIXES@[18]@ == "m9"@ && chord_intervals(18) == seq![0u8, 2, 3, 7, 10],
        CHORD_SUFFIXES@[19]@ == "5"@ && chord_intervals(19) == seq![0u8, 7],
{
    reveal(chord_intervals);
}

/// The tones of the chord shapes follow from their triads: sevenths, sixths and ninths add their
/// tone to the major or minor triad, suspensions put the second or the fourth for the third.
pub proof fn richer_chords_contain_their_triads(i: int)
    ensures
        ({
            let major = chord_intervals(0);
            let minor = chord_intervals(1);
            &&& chord_intervals(6) == major.push(11u8)
            &&& chord_intervals(8) == major.push(10u8)
            &&& chord_intervals(12) == major.push(9u8)
            &&& chord_intervals(7) == minor.push(10u8)
            &&& chord_intervals(11) == minor.push(11u8)
            &&& chord_intervals(13) == minor.push(9u8)
            &&& chord_intervals(9) == chord_intervals(2).push(10u8)
            &&& chord_intervals(10) == chord_intervals(2).push(9u8)
            &&& chord_intervals(14) == major.insert(1, 2u8)
            &&& chord_intervals(15) == minor.insert(1, 2u8)
            &&& chord_intervals(16) == chord_intervals(8).insert(1, 2u8)
            &&& chord_intervals(17) == chord_intervals(6).insert(1, 2u8)
            &&& chord_intervals(18) == chord_intervals(7).insert(1, 2u8)
            &&& chord_intervals(4) == major.update(1, 2u8)
            &&& chord_intervals(5) == major.update(1, 5u8)
            &&& chord_intervals(19) == major.remove(1)
        }),
{
    reveal(chord_intervals);
    chord_names_stand_for_their_tones();
    assert(chord_intervals(6) =~= chord_intervals(0).push(11u8));
    assert(chord_intervals(19) =~= chord_intervals(0).remove(1));
}

/// Triads are the most common chords, sevenths come next, and the bare fifth comes last.
pub proof fn common_chords_come_first(t: int)
    requires
        0 <= t < 20,
    ensures
        CHORD_PRIORITIES@[t] == if t <= 1 {
            10u8
        } else if 6 <= t <= 8 {
            9
        } else if t == 2 || t == 9 || t == 12 || t == 13 {
            7
        } else if t == 11 || t == 15 {
            5
        } else if t == 19 {
            4
        } else {
            6
        },
{
}

/// A chord has its numeral in lower case exactly when its third is minor.
pub proof fn minor_thirds_are_lower_case(t: int)
    requires
        0 <= t < 20,
    ensures
        lower_case(t) <==> chord_intervals(t).contains(3u8),
{
    reveal(chord_intervals);
    let s = chord_intervals(t);
    assert(s.len() <= 5);
    assert(s.contains(3u8) <==> {
        ||| s.len() > 0 && s[0] == 3
        ||| s.len() > 1 && s[1] == 3
        ||| s.len() > 2 && s[2] == 3
        ||| s.len() > 3 && s[3] == 3
        ||| s.len() > 4 && s[4] == 3
    });
}

proof fn lemma_place(items: Seq<u8>, value: u8, from: int, at: int)
    requires
        0 <= from <= at < items.len(),
        items[at] == value,
        forall|k: int| from <= k < at ==> items[k] != value,
    ensures
        place_of(items, value, from) == Some(at),
    decreases at - from,
{
    if from < at {
        lemma_place(items, value, from + 1, at);
    }
}

/// The numeral of a chord is that of the degree on which it stands: on the tone `degree` of the
/// scale, counted from zero, it is the numeral after `degree` others, and the shape adds its sign.
pub proof fn numerals_count_degrees(setting: ScaleSetting, root: int, t: int, degree: int)
    requires
        0 <= t < 20,
        0 <= degree < scale_intervals(setting.scale_idx as int).len(),
        root % 12 == (setting.root + scale_intervals(setting.scale_idx as int)[degree]) % 12,
    ensures
        roman_text(setting, root, t) == Some(
            (if chord_intervals(t).contains(3u8) {
                LOWER_NUMERALS@[degree]@
            } else {
                UPPER_NUMERALS@[degree]@
            }) + CHORD_ROMANS@[t]@,
        ),
{
    let s = scale_intervals(setting.scale_idx as int);
    scales_are_well_shaped(setting.scale_idx as int);
    minor_thirds_are_lower_case(t);
    assert(s[degree] < 12);
    assert(setting.interval_to(root) == s[degree]);
    lemma_place(s, s[degree], 0, degree);
}

/// The numerals from one to twelve, what the chord shapes add to them, and the names of the
/// intervals by their semitones.
pub proof fn numerals_and_intervals_have_their_names()
    ensures
        UPPER_NUMERALS@[0]@ == "I"@ && LOWER_NUMERALS@[0]@ == "i"@,
        UPPER_NUMERALS@[1]@ == "II"@ && LOWER_NUMERALS@[1]@ == "ii"@,
        UPPER_NUMERALS@[2]@ == "III"@ && LOWER_NUMERALS@[2]@ == "iii"@,
        UPPER_NUMERALS@[3]@ == "IV"@ && LOWER_NUMERALS@[3]@ == "iv"@,
        UPPER_NUMERALS@[4]@ == "V"@ && LOWER_NUMERALS@[4]@ == "v"@,
        UPPER_NUMERALS@[5]@ == "VI"@ && LOWER_NUMERALS@[5]@ == "vi"@,
        UPPER_NUMERALS@[6]@ == "VII"@ && LOWER_NUMERALS@[6]@ == "vii"@,
        UPPER_NUMERALS@[7]@ == "VIII"@ && LOWER_NUMERALS@[7]@ == "viii"@,
        UPPER_NUMERALS@[8]@ == "IX"@ && LOWER_NUMERALS@[8]@ == "ix"@,
        UPPER_NUMERALS@[9]@ == "X"@ && LOWER_NUMERALS@[9]@ == "x"@,
        UPPER_NUMERALS@[10]@ == "XI"@ && LOWER_NUMERALS@[10]@ == "xi"@,
        UPPER_NUMERALS@[11]@ == "XII"@ && LOWER_NUMERALS@[11]@ == "xii"@,
        CHORD_ROMANS@[0]@ == ""@ && CHORD_ROMANS@[1]@ == ""@,
        CHORD_ROMANS@[2]@ == "°"@ && CHORD_ROMANS@[3]@ == "+"@,
        CHORD_ROMANS@[4]@ == "sus2"@ && CHORD_ROMANS@[5]@ == "sus4"@,
        CHORD_ROMANS@[6]@ == "M7"@ && CHORD_ROMANS@[7]@ == "7"@ && CHORD_ROMANS@[8]@ == "7"@,
        CHORD_ROMANS@[9]@ == "ø7"@ && CHORD_ROMANS@[10]@ == "°7"@ && CHORD_ROMANS@[11]@ == "(M7)"@,
        CHORD_ROMANS@[12]@ == "6"@ && CHORD_ROMANS@[13]@ == "6"@,
        CHORD_ROMANS@[14]@ == "add9"@ && CHORD_ROMANS@[15]@ == "add9"@,
        CHORD_ROMANS@[16]@ == "9"@ && CHORD_ROMANS@[17]@ == "M9"@ && CHORD_ROMANS@[18]@ == "9"@,
        CHORD_ROMANS@[19]@ == "5"@,
        INTERVAL_NAMES@[0]@ == "P1"@ && INTERVAL_NAMES@[1]@ == "m2"@ && INTERVAL_NAMES@[2]@ == "M2"@,
        INTERVAL_NAMES@[3]@ == "m3"@ && INTERVAL_NAMES@[4]@ == "M3"@ && INTERVAL_NAMES@[5]@ == "P4"@,
        INTERVAL_NAMES@[6]@ == "TT"@ && INTERVAL_NAMES@[7]@ == "P5"@ && INTERVAL_NAMES@[8]@ == "m6"@,
        INTERVAL_NAMES@[9]@ == "M6"@ && INTERVAL_NAMES@[10]@ == "m7"@ && INTERVAL_NAMES@[11]@ == "M7"@,
{
}

} // verus!
