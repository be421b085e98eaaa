//! Chord detection from the notes held, ranked by how well the chords fit the scale.
//!
//! Chords on the tonic come first, then chords on a note of the scale, then chords made of notes of
//! the scale only, then common chords before rare ones.
use vstd::prelude::*;

use crate::scale::{scale_at, scales_are_well_shaped, ScaleSetting, NOTE_NAMES, SCALE_COUNT};

verus! {

/// How many chord shapes are known.
pub const CHORD_COUNT: usize = 20;

/// What the name of each chord shape adds to the name of its root.
pub const CHORD_SUFFIXES: [&'static str; 20] = [
    "",
    "m",
    "dim",
    "aug",
    "sus2",
    "sus4",
    "maj7",
    "m7",
    "7",
    "m7♭5",
    "dim7",
    "mMaj7",
    "6",
    "m6",
    "add9",
    "madd9",
    "9",
    "maj9",
    "m9",
    "5",
];

/// What each chord shape adds to a Roman numeral.
pub const CHORD_ROMANS: [&'static str; 20] = [
    "",
    "",
    "°",
    "+",
    "sus2",
    "sus4",
    "M7",
    "7",
    "7",
    "ø7",
    "°7",
    "(M7)",
    "6",
    "6",
    "add9",
    "add9",
    "9",
    "M9",
    "9",
    "5",
];

/// How common each chord shape is.
pub const CHORD_PRIORITIES: [u8; 20] = [10, 10, 7, 6, 6, 6, 9, 9, 9, 7, 6, 5, 7, 7, 6, 5, 6, 6, 6, 4];

/// Roman numerals of chords with a major third, or without a third.
pub const UPPER_NUMERALS: [&'static str; 12] = [
    "I",
    "II",
    "III",
    "IV",
    "V",
    "VI",
    "VII",
    "VIII",
    "IX",
    "X",
    "XI",
    "XII",
];

/// Roman numerals of minor and diminished chords.
pub const LOWER_NUMERALS: [&'static str; 12] = [
    "i",
    "ii",
    "iii",
    "iv",
    "v",
    "vi",
    "vii",
    "viii",
    "ix",
    "x",
    "xi",
    "xii",
];

/// Interval names by semitones.
pub const INTERVAL_NAMES: [&'static str; 12] = [
    "P1",
    "m2",
    "M2",
    "m3",
    "M3",
    "P4",
    "TT",
    "P5",
    "m6",
    "M6",
    "m7",
    "M7",
];

/// The tones of each chord shape, in semitones above the root, ascending.
#[verifier::opaque]
pub open spec fn chord_intervals(t: int) -> Seq<u8> {
    if t == 0 {
        seq![0u8, 4, 7]
    } else if t == 1 {
        seq![0u8, 3, 7]
    } else if t == 2 {
        seq![0u8, 3, 6]
    } else if t == 3 {
        seq![0u8, 4, 8]
    } else if t == 4 {
        seq![0u8, 2, 7]
    } else if t == 5 {
        seq![0u8, 5, 7]
    } else if t == 6 {
        seq![0u8, 4, 7, 11]
    } else if t == 7 {
        seq![0u8, 3, 7, 10]
    } else if t == 8 {
        seq![0u8, 4, 7, 10]
    } else if t == 9 {
        seq![0u8, 3, 6, 10]
    } else if t == 10 {
        seq![0u8, 3, 6, 9]
    } else if t == 11 {
        seq![0u8, 3, 7, 11]
    } else if t == 12 {
        seq![0u8, 4, 7, 9]
    } else if t == 13 {
        seq![0u8, 3, 7, 9]
    } else if t == 14 {
        seq![0u8, 2, 4, 7]
    } else if t == 15 {
        seq![0u8, 2, 3, 7]
    } else if t == 16 {
        seq![0u8, 2, 4, 7, 10]
    } else if t == 17 {
        seq![0u8, 2, 4, 7, 11]
    } else if t == 18 {
        seq![0u8, 2, 3, 7, 10]
    } else {
        seq![0u8, 7]
    }
}

/// Whether the numeral of a chord shape is written in lower case: minor and diminished ones are.
pub open spec fn lower_case(t: int) -> bool {
    t == 1 || t == 2 || t == 7 || t == 9 || t == 10 || t == 11 || t == 13 || t == 15 || t == 18
}

/// The tones of the chord shape at `t`.
fn intervals_of(t: usize) -> (intervals: &'static [u8])
    requires
        t < CHORD_COUNT,
    ensures
        intervals@ == chord_intervals(t as int),
{
    proof {
        reveal(chord_intervals);
    }
    match t {
        0 => &[0, 4, 7],
        1 => &[0, 3, 7],
        2 => &[0, 3, 6],
        3 => &[0, 4, 8],
        4 => &[0, 2, 7],
        5 => &[0, 5, 7],
        6 => &[0, 4, 7, 11],
        7 => &[0, 3, 7, 10],
        8 => &[0, 4, 7, 10],
        9 => &[0, 3, 6, 10],
        10 => &[0, 3, 6, 9],
        11 => &[0, 3, 7, 11],
        12 => &[0, 4, 7, 9],
        13 => &[0, 3, 7, 9],
        14 => &[0, 2, 4, 7],
        15 => &[0, 2, 3, 7],
        16 => &[0, 2, 4, 7, 10],
        17 => &[0, 2, 4, 7, 11],
        18 => &[0, 2, 3, 7, 10],
        _ => &[0, 7],
    }
}

/// A chord that the held notes form.
#[derive(Debug)]
pub struct ChordMatch {
    /// Pitch class of the root.
    pub root: u8,
    pub suffix: &'static str,
    /// Roman numeral, where the root is a degree of the scale.
    pub roman: Option<String>,
}

// ---------------------------------------------------------------------------
// What is held
// ---------------------------------------------------------------------------

/// Whether some held note has this pitch class.
pub open spec fn has_pitch_class(held: Seq<u8>, pc: int) -> bool {
    exists|i: int| 0 <= i < held.len() && (#[trigger] held[i]) as int % 12 == pc
}

/// The intervals below `n`, counted up from `root`, at which a note is held, ascending.
pub open spec fn shape_below(held: Seq<u8>, root: int, n: int) -> Seq<u8>
    decreases n,
{
    if n <= 0 {
        Seq::empty()
    } else {
        let rest = shape_below(held, root, n - 1);
        if has_pitch_class(held, (root + n - 1) % 12) {
            rest.push((n - 1) as u8)
        } else {
            rest
        }
    }
}

/// The intervals, counted up from `root`, at which a note is held, ascending.
pub open spec fn shape(held: Seq<u8>, root: int) -> Seq<u8> {
    shape_below(held, root, 12)
}

/// The pitch classes held, ascending.
pub open spec fn pitch_classes(held: Seq<u8>) -> Seq<u8> {
    shape(held, 0)
}

// ---------------------------------------------------------------------------
// Candidates and their ranking
// ---------------------------------------------------------------------------

/// A chord shape on a root, and how well it fits.
#[derive(Clone, Copy, Debug, PartialEq, Eq, Structural)]
pub struct Candidate {
    pub root: u8,
    pub template: usize,
    pub score: i32,
}

/// Whether all tones of a chord are in the scale.
pub open spec fn diatonic(setting: ScaleSetting, root: int, t: int) -> bool {
    forall|i: int|
        0 <= i < chord_intervals(t).len() ==> setting.has(root + (#[trigger] chord_intervals(t)[i]) as int)
}

/// How well a chord fits: by how common it is, and more so on the tonic, on a note of the scale,
/// and within the scale.
pub open spec fn fit(setting: ScaleSetting, root: int, t: int) -> int {
    CHORD_PRIORITIES@[t] as int + (if root == setting.root {
        8int
    } else {
        0
    }) + (if setting.has(root) {
        4int
    } else {
        0
    }) + (if diatonic(setting, root, t) {
        5int
    } else {
        0
    })
}

pub open spec fn candidate(setting: ScaleSetting, root: u8, t: int) -> Candidate {
    Candidate { root, template: t as usize, score: fit(setting, root as int, t) as i32 }
}

/// The candidates that the first `n` shapes give on `root`.
pub open spec fn candidates_on(held: Seq<u8>, setting: ScaleSetting, root: u8, n: int) -> Seq<Candidate>
    decreases n,
{
    if n <= 0 {
        Seq::empty()
    } else {
        let rest = candidates_on(held, setting, root, n - 1);
        if shape(held, root as int) == chord_intervals(n - 1) {
            rest.push(candidate(setting, root, n - 1))
        } else {
            rest
        }
    }
}

/// The candidates on the first `n` roots.
pub open spec fn candidates(held: Seq<u8>, setting: ScaleSetting, roots: Seq<u8>, n: int) -> Seq<Candidate>
    decreases n,
{
    if n <= 0 {
        Seq::empty()
    } else {
        candidates(held, setting, roots, n - 1) + candidates_on(
            held,
            setting,
            roots[n - 1],
            CHORD_COUNT as int,
        )
    }
}

/// Where a candidate goes among ranked ones: behind all that fit at least as well.
pub open spec fn rank_position(ranked: Seq<Candidate>, score: i32, from: int) -> int
    decreases ranked.len() - from,
{
    if from >= ranked.len() || ranked[from].score < score {
        from
    } else {
        rank_position(ranked, score, from + 1)
    }
}

/// The candidates in order of fit; those that fit equally well keep their order.
pub open spec fn ranked(list: Seq<Candidate>) -> Seq<Candidate>
    decreases list.len(),
{
    if list.len() == 0 {
        Seq::empty()
    } else {
        let rest = ranked(list.drop_last());
        let c = list.last();
        rest.insert(rank_position(rest, c.score, 0), c)
    }
}

/// The chords that the held notes form, best fit first.
pub open spec fn detected(held: Seq<u8>, setting: ScaleSetting) -> Seq<Candidate> {
    let pcs = pitch_classes(held);
    if pcs.len() < 2 {
        Seq::empty()
    } else {
        ranked(candidates(held, setting, pcs, pcs.len() as int))
    }
}

/// The first place of `value` among `items`, from `from` on.
pub open spec fn place_of(items: Seq<u8>, value: u8, from: int) -> Option<int>
    decreases items.len() - from,
{
    if from >= items.len() {
        None
    } else if items[from] == value {
        Some(from)
    } else {
        place_of(items, value, from + 1)
    }
}

/// The Roman numeral of a chord: its degree in the scale, where its root is in the scale.
pub open spec fn roman_text(setting: ScaleSetting, root: int, t: int) -> Option<Seq<char>> {
    match place_of(setting.intervals(), setting.interval_to(root) as u8, 0) {
        Some(degree) => if lower_case(t) {
            Some(LOWER_NUMERALS@[degree]@ + CHORD_ROMANS@[t]@)
        } else {
            Some(UPPER_NUMERALS@[degree]@ + CHORD_ROMANS@[t]@)
        },
        None => None,
    }
}

/// The characters of an optional text.
pub open spec fn text_of(text: Option<String>) -> Option<Seq<char>> {
    match text {
        Some(t) => Some(t@),
        None => None,
    }
}

/// Whether a match presents a candidate.
pub open spec fn presents(m: ChordMatch, c: Candidate, setting: ScaleSetting) -> bool {
    &&& m.root == c.root
    &&& m.suffix@ == CHORD_SUFFIXES@[c.template as int]@
    &&& text_of(m.roman) == roman_text(setting, c.root as int, c.template as int)
}

impl ChordMatch {
    /// The name of the chord, such as "Am7".
    pub fn display(&self) -> (name: String)
        requires
            self.root < 12,
        ensures
            name@ == NOTE_NAMES@[self.root as int]@ + self.suffix@,
    {
        let mut name = NOTE_NAMES[self.root as usize].to_owned();
        name.append(self.suffix);
        name
    }
}

fn holds_pitch_class(held: &[u8], pc: u8) -> (r: bool)
    ensures
        r == has_pitch_class(held@, pc as int),
{
    let n: usize = held.len();
    let mut i: usize = 0;
    while i < n
        invariant
            i <= n,
            n == held@.len(),
            forall|k: int| 0 <= k < i ==> (#[trigger] held@[k]) as int % 12 != pc,
        decreases n - i,
    {
        if held[i] % 12 == pc {
            assert(held@[i as int] as int % 12 == pc);
            return true;
        }
        i = i + 1;
    }
    false
}

/// The intervals, counted up from `root`, at which a note is held.
fn find_shape(held: &[u8], root: u8) -> (intervals: Vec<u8>)
    requires
        root < 12,
    ensures
        intervals@ == shape(held@, root as int),
{
    let mut intervals: Vec<u8> = Vec::new();
    let mut iv: u8 = 0;
    while iv < 12
        invariant
            iv <= 12,
            root < 12,
            intervals@ == shape_below(held@, root as int, iv as int),
        decreases 12 - iv,
    {
        if holds_pitch_class(held, (root + iv) % 12) {
            intervals.push(iv);
        }
        iv = iv + 1;
    }
    intervals
}

fn same_intervals(a: &Vec<u8>, b: &[u8]) -> (r: bool)
    ensures
        r == (a@ == b@),
{
    let n: usize = a.len();
    if n != b.len() {
        return false;
    }
    let mut i: usize = 0;
    while i < n
        invariant
            i <= n,
            n == a@.len(),
            n == b@.len(),
            forall|k: int| 0 <= k < i ==> a@[k] == b@[k],
        decreases n - i,
    {
        if a[i] != b[i] {
            assert(a@[i as int] != b@[i as int]);
            return false;
        }
        i = i + 1;
    }
    assert(a@ =~= b@);
    true
}

fn is_diatonic(setting: &ScaleSetting, root: u8, t: usize) -> (r: bool)
    requires
        setting.scale_idx < SCALE_COUNT,
        root < 12,
        t < CHORD_COUNT,
    ensures
        r == diatonic(*setting, root as int, t as int),
{
    proof {
        chords_are_well_shaped(t as int);
    }
    let intervals = intervals_of(t);
    let n: usize = intervals.len();
    let mut i: usize = 0;
    while i < n
        invariant
            i <= n,
            n == intervals@.len(),
            intervals@ == chord_intervals(t as int),
            setting.scale_idx < SCALE_COUNT,
            root < 12,
            forall|k: int| 0 <= k < intervals@.len() ==> #[trigger] intervals@[k] < 12,
            forall|k: int| 0 <= k < i ==> setting.has(root + (#[trigger] chord_intervals(t as int)[k]) as int),
        decreases n - i,
    {
        if !setting.contains(root + intervals[i]) {
            assert(!setting.has(root + chord_intervals(t as int)[i as int] as int));
            return false;
        }
        i = i + 1;
    }
    true
}

/// Every chord shape starts on its root and stays within an octave.
pub proof fn chords_are_well_shaped(t: int)
    ensures
        chord_intervals(t).len() >= 2,
        chord_intervals(t)[0] == 0,
        forall|k: int| 0 <= k < chord_intervals(t).len() ==> #[trigger] chord_intervals(t)[k] < 12,
{
    reveal(chord_intervals);
}

fn make_candidate(setting: &ScaleSetting, root: u8, t: usize) -> (c: Candidate)
    requires
        setting.scale_idx < SCALE_COUNT,
        root < 12,
        t < CHORD_COUNT,
    ensures
        c == candidate(*setting, root, t as int),
        c.score == fit(*setting, root as int, t as int),
{
    let mut score: i32 = CHORD_PRIORITIES[t] as i32;
    if setting.is_root(root) {
        score = score + 8;
    }
    if setting.contains(root) {
        score = score + 4;
    }
    if is_diatonic(setting, root, t) {
        score = score + 5;
    }
    Candidate { root, template: t, score }
}

/// Puts a candidate in its place among ranked ones.
fn insert_ranked(list: &mut Vec<Candidate>, c: Candidate)
    ensures
        final(list)@ == old(list)@.insert(rank_position(old(list)@, c.score, 0), c),
{
    let mut at: usize = 0;
    while at < list.len() && list[at].score >= c.score
        invariant
            at <= list@.len(),
            list@ == old(list)@,
            rank_position(list@, c.score, 0) == rank_position(list@, c.score, at as int),
        decreases list@.len() - at,
    {
        at = at + 1;
    }
    list.insert(at, c);
}

/// Roman numeral of a chord, where its root is in the scale.
fn roman_numeral(root_pc: u8, t: usize, setting: &ScaleSetting) -> (roman: Option<String>)
    requires
        setting.scale_idx < SCALE_COUNT,
        t < CHORD_COUNT,
    ensures
        text_of(roman) == roman_text(*setting, root_pc as int, t as int),
        roman is Some <==> setting.has(root_pc as int),
{
    proof {
        scales_are_well_shaped(setting.scale_idx as int);
        roots_in_the_scale_have_a_numeral(*setting, root_pc as int, t as int);
    }
    let intervals = scale_at(setting.scale_idx).intervals;
    let offset: u8 = setting.offset_of(root_pc);
    let n: usize = intervals.len();
    let mut degree: usize = 0;
    while degree < n && intervals[degree] != offset
        invariant
            degree <= n,
            n == intervals@.len(),
            place_of(intervals@, offset, 0) == place_of(intervals@, offset, degree as int),
        decreases n - degree,
    {
        degree = degree + 1;
    }
    if degree == n {
        return None;
    }
    let minor = t == 1 || t == 2 || t == 7 || t == 9 || t == 10 || t == 11 || t == 13 || t == 15 || t == 18;
    let mut text = if minor {
        LOWER_NUMERALS[degree].to_owned()
    } else {
        UPPER_NUMERALS[degree].to_owned()
    };
    text.append(CHORD_ROMANS[t]);
    Some(text)
}

/// The chords that the held notes form, best fit for the scale first. Fewer than two different
/// pitch classes form none.
pub fn detect(held_notes: &[u8], scale: &ScaleSetting) -> (matches: Vec<ChordMatch>)
    requires
        scale.scale_idx < SCALE_COUNT,
    ensures
        matches@.len() == detected(held_notes@, *scale).len(),
        forall|i: int|
            0 <= i < matches@.len() ==> presents(
                #[trigger] matches@[i],
                detected(held_notes@, *scale)[i],
                *scale,
            ),
        forall|i: int|
            0 <= i < matches@.len() ==> ((#[trigger] matches@[i]).roman is Some <==> scale.has(matches@[i].root as int)),
{
    let pcs = find_shape(held_notes, 0);
    let mut found: Vec<ChordMatch> = Vec::new();
    if pcs.len() < 2 {
        return found;
    }
    proof {
        lemma_shape_values(held_notes@, 0, 12);
    }
    let mut list: Vec<Candidate> = Vec::new();
    let ghost mut all: Seq<Candidate> = Seq::empty();
    let n: usize = pcs.len();
    let mut r: usize = 0;
    while r < n
        invariant
            r <= n,
            n == pcs@.len(),
            scale.scale_idx < SCALE_COUNT,
            pcs@ == pitch_classes(held_notes@),
            forall|k: int| 0 <= k < pcs@.len() ==> #[trigger] pcs@[k] < 12,
            all == candidates(held_notes@, *scale, pcs@, r as int),
            list@ == ranked(all),
            forall|k: int| 0 <= k < list@.len() ==> (#[trigger] list@[k]).template < CHORD_COUNT,
        decreases n - r,
    {
        let root: u8 = pcs[r];
        let intervals = find_shape(held_notes, root);
        let ghost before = all;
        let mut t: usize = 0;
        while t < CHORD_COUNT
            invariant
                t <= CHORD_COUNT,
                root < 12,
                scale.scale_idx < SCALE_COUNT,
                intervals@ == shape(held_notes@, root as int),
                all == before + candidates_on(held_notes@, *scale, root, t as int),
                list@ == ranked(all),
                forall|k: int| 0 <= k < list@.len() ==> (#[trigger] list@[k]).template < CHORD_COUNT,
            decreases CHORD_COUNT - t,
        {
            if same_intervals(&intervals, intervals_of(t)) {
                let c = make_candidate(scale, root, t);
                proof {
                    lemma_rank_position(list@, c.score, 0);
                }
                insert_ranked(&mut list, c);
                proof {
                    assert(all.push(c).drop_last() =~= all);
                    all = all.push(c);
                    assert(all =~= before + candidates_on(held_notes@, *scale, root, t + 1));
                }
            }
            t = t + 1;
        }
        r = r + 1;
    }
    let count: usize = list.len();
    let mut i: usize = 0;
    while i < count
        invariant
            i <= count,
            count == list@.len(),
            scale.scale_idx < SCALE_COUNT,
            list@ == detected(held_notes@, *scale),
            forall|k: int| 0 <= k < list@.len() ==> (#[trigger] list@[k]).template < CHORD_COUNT,
            found@.len() == i,
            forall|k: int| 0 <= k < i ==> presents(#[trigger] found@[k], list@[k], *scale),
            forall|k: int|
                0 <= k < i ==> ((#[trigger] found@[k]).roman is Some <==> scale.has(found@[k].root as int)),
        decreases count - i,
    {
        let c = list[i];
        found.push(
            ChordMatch {
                root: c.root,
                suffix: CHORD_SUFFIXES[c.template],
                roman: roman_numeral(c.root, c.template, scale),
            },
        );
        i = i + 1;
    }
    found
}

proof fn lemma_rank_position(list: Seq<Candidate>, score: i32, from: int)
    requires
        0 <= from <= list.len(),
    ensures
        from <= rank_position(list, score, from) <= list.len(),
        forall|k: int| from <= k < rank_position(list, score, from) ==> (#[trigger] list[k]).score >= score,
        rank_position(list, score, from) < list.len() ==> list[rank_position(list, score, from)].score < score,
    decreases list.len() - from,
{
    if from < list.len() && list[from].score >= score {
        lemma_rank_position(list, score, from + 1);
    }
}

proof fn lemma_shape_values(held: Seq<u8>, root: int, n: int)
    requires
        0 <= n <= 12,
    ensures
        forall|k: int| 0 <= k < shape_below(held, root, n).len() ==> #[trigger] shape_below(held, root, n)[k] < n,
        forall|iv: int|
            0 <= iv < n ==> (has_pitch_class(held, (root + iv) % 12) <==> #[trigger] shape_below(
                held,
                root,
                n,
            ).contains(iv as u8)),
    decreases n,
{
    if n > 0 {
        lemma_shape_values(held, root, n - 1);
        let rest = shape_below(held, root, n - 1);
        let all = shape_below(held, root, n);
        assert forall|k: int| 0 <= k < all.len() implies #[trigger] all[k] < n by {
            if k < rest.len() {
                assert(all[k] == rest[k]);
            }
        }
        assert forall|iv: int| 0 <= iv < n implies (has_pitch_class(held, (root + iv) % 12)
            <==> #[trigger] all.contains(iv as u8)) by {
            if iv < n - 1 {
                if rest.contains(iv as u8) {
                    let i = choose|i: int| 0 <= i < rest.len() && rest[i] == iv as u8;
                    assert(all[i] == iv as u8);
                }
                if all.contains(iv as u8) {
                    let i = choose|i: int| 0 <= i < all.len() && all[i] == iv as u8;
                    assert(rest[i] == iv as u8);
                }
            } else if all.contains(iv as u8) {
                let i = choose|i: int| 0 <= i < all.len() && all[i] == iv as u8;
                if i < rest.len() {
                    assert(rest[i] < n - 1);
                }
            } else if has_pitch_class(held, (root + iv) % 12) {
                assert(all[all.len() - 1] == iv as u8);
            }
        }
    }
}

// ---------------------------------------------------------------------------
// Intervals
// ---------------------------------------------------------------------------

/// Whether `low` and `high` are the lowest and highest of the notes.
pub open spec fn extremes(held: Seq<u8>, low: u8, high: u8) -> bool {
    &&& held.contains(low)
    &&& held.contains(high)
    &&& forall|i: int| 0 <= i < held.len() ==> low <= #[trigger] held[i] <= high
}

/// The label of an interval, such as "C-E (M3)".
pub open spec fn interval_text(low: u8, high: u8) -> Seq<char> {
    NOTE_NAMES@[low as int % 12]@ + "-"@ + NOTE_NAMES@[high as int % 12]@ + " ("@ + INTERVAL_NAMES@[(high - low) % 12]@
        + ")"@
}

/// The label of the interval between the lowest and the highest note, where exactly two pitch
/// classes are held.
pub fn two_note_interval(held_notes: &[u8]) -> (label: Option<String>)
    ensures
        match label {
            Some(text) => pitch_classes(held_notes@).len() == 2 && exists|low: u8, high: u8|
                #[trigger] extremes(held_notes@, low, high) && text@ == interval_text(low, high),
            None => pitch_classes(held_notes@).len() != 2,
        },
{
    let pcs = find_shape(held_notes, 0);
    if pcs.len() != 2 {
        return None;
    }
    proof {
        lemma_shape_values(held_notes@, 0, 12);
        let first = pcs@[0] as int;
        assert(pcs@[0] == first as u8);
        assert(shape_below(held_notes@, 0, 12).contains(first as u8));
        assert(has_pitch_class(held_notes@, (0 + first) % 12));
    }
    let n: usize = held_notes.len();
    if n == 0 {
        return None;
    }
    let mut low: u8 = held_notes[0];
    let mut high: u8 = held_notes[0];
    let mut i: usize = 1;
    assert(held_notes@[0] == low);
    while i < n
        invariant
            1 <= i <= n,
            n == held_notes@.len(),
            held_notes@.contains(low),
            held_notes@.contains(high),
            forall|k: int| 0 <= k < i ==> low <= #[trigger] held_notes@[k] <= high,
        decreases n - i,
    {
        let note: u8 = held_notes[i];
        assert(held_notes@[i as int] == note);
        if note < low {
            low = note;
        }
        if note > high {
            high = note;
        }
        i = i + 1;
    }
    let mut text = NOTE_NAMES[(low % 12) as usize].to_owned();
    text.append("-");
    text.append(NOTE_NAMES[(high % 12) as usize]);
    text.append(" (");
    text.append(INTERVAL_NAMES[((high - low) % 12) as usize]);
    text.append(")");
    assert(extremes(held_notes@, low, high));
    Some(text)
}

// ---------------------------------------------------------------------------
// Laws
// ---------------------------------------------------------------------------

/// Whether candidates come in order of fit.
pub open spec fn by_fit(list: Seq<Candidate>) -> bool {
    forall|i: int, j: int| 0 <= i < j < list.len() ==> (#[trigger] list[i]).score >= (#[trigger] list[j]).score
}

/// Ranking puts the better fit first.
pub proof fn ranking_orders_by_fit(list: Seq<Candidate>)
    ensures
        by_fit(ranked(list)),
        ranked(list).len() == list.len(),
    decreases list.len(),
{
    if list.len() > 0 {
        let rest = ranked(list.drop_last());
        let c = list.last();
        ranking_orders_by_fit(list.drop_last());
        lemma_rank_position(rest, c.score, 0);
        let at = rank_position(rest, c.score, 0);
        let all = rest.insert(at, c);
        assert forall|i: int, j: int| 0 <= i < j < all.len() implies (#[trigger] all[i]).score >= (#[trigger] all[j]).score by {
            let ri = if i < at {
                i
            } else {
                i - 1
            };
            let rj = if j < at {
                j
            } else {
                j - 1
            };
            if i == at {
                assert(all[j] == rest[rj]);
                if rj > at {
                    assert(rest[at].score >= rest[rj].score);
                }
            } else if j == at {
                assert(all[i] == rest[i]);
            } else {
                assert(all[i] == rest[ri] && all[j] == rest[rj]);
            }
        }
    }
}

/// Ranking neither adds nor loses a chord.
pub proof fn ranking_keeps_chords(list: Seq<Candidate>, c: Candidate)
    ensures
        ranked(list).contains(c) <==> list.contains(c),
    decreases list.len(),
{
    if list.len() > 0 {
        let init = list.drop_last();
        let rest = ranked(init);
        let last = list.last();
        ranking_keeps_chords(init, c);
        lemma_rank_position(rest, last.score, 0);
        let at = rank_position(rest, last.score, 0);
        let all = rest.insert(at, last);
        assert(all[at] == last);
        assert(list[list.len() - 1] == last);
        if rest.contains(c) {
            let i = choose|i: int| 0 <= i < rest.len() && rest[i] == c;
            assert(all[if i < at {
                i
            } else {
                i + 1
            }] == c);
        }
        if init.contains(c) {
            let i = choose|i: int| 0 <= i < init.len() && init[i] == c;
            assert(list[i] == c);
        }
        if all.contains(c) && c != last {
            let i = choose|i: int| 0 <= i < all.len() && all[i] == c;
            assert(rest[if i < at {
                i
            } else {
                i - 1
            }] == c);
        }
        if list.contains(c) && c != last {
            let i = choose|i: int| 0 <= i < list.len() && list[i] == c;
            assert(init[i] == c);
        }
    }
}

/// Whether a candidate is a chord that the held notes form.
pub open spec fn sounds(held: Seq<u8>, setting: ScaleSetting, c: Candidate) -> bool {
    &&& c.root < 12
    &&& c.template < CHORD_COUNT
    &&& c.score == fit(setting, c.root as int, c.template as int)
    &&& shape(held, c.root as int) == chord_intervals(c.template as int)
}

proof fn lemma_candidates_on(held: Seq<u8>, setting: ScaleSetting, root: u8, n: int, k: int)
    requires
        root < 12,
        0 <= n <= CHORD_COUNT,
        0 <= k < candidates_on(held, setting, root, n).len(),
    ensures
        sounds(held, setting, candidates_on(held, setting, root, n)[k]),
        candidates_on(held, setting, root, n)[k].root == root,
    decreases n,
{
    if n > 0 {
        let rest = candidates_on(held, setting, root, n - 1);
        if k < rest.len() {
            lemma_candidates_on(held, setting, root, n - 1, k);
        }
    }
}

proof fn lemma_candidates(held: Seq<u8>, setting: ScaleSetting, roots: Seq<u8>, n: int, k: int)
    requires
        forall|i: int| 0 <= i < roots.len() ==> #[trigger] roots[i] < 12,
        0 <= n <= roots.len(),
        0 <= k < candidates(held, setting, roots, n).len(),
    ensures
        sounds(held, setting, candidates(held, setting, roots, n)[k]),
    decreases n,
{
    if n > 0 {
        let rest = candidates(held, setting, roots, n - 1);
        if k < rest.len() {
            lemma_candidates(held, setting, roots, n - 1, k);
        } else {
            lemma_candidates_on(held, setting, roots[n - 1], CHORD_COUNT as int, k - rest.len());
        }
    }
}

/// Every chord that is detected is really held: its tones, and no others, sound.
pub proof fn detected_chords_sound(held: Seq<u8>, setting: ScaleSetting, k: int)
    requires
        0 <= k < detected(held, setting).len(),
    ensures
        sounds(held, setting, detected(held, setting)[k]),
{
    let pcs = pitch_classes(held);
    lemma_shape_values(held, 0, 12);
    let list = candidates(held, setting, pcs, pcs.len() as int);
    let c = ranked(list)[k];
    assert(ranked(list).contains(c));
    ranking_keeps_chords(list, c);
    let i = choose|i: int| 0 <= i < list.len() && list[i] == c;
    lemma_candidates(held, setting, pcs, pcs.len() as int, i);
}

/// The tones of a chord shape as bits.
spec fn tone_mask(t: u16) -> u16 {
    if t == 0 {
        0x091u16
    } else if t == 1 {
        0x089u16
    } else if t == 2 {
        0x049u16
    } else if t == 3 {
        0x111u16
    } else if t == 4 {
        0x085u16
    } else if t == 5 {
        0x0a1u16
    } else if t == 6 {
        0x891u16
    } else if t == 7 {
        0x489u16
    } else if t == 8 {
        0x491u16
    } else if t == 9 {
        0x449u16
    } else if t == 10 {
        0x249u16
    } else if t == 11 {
        0x889u16
    } else if t == 12 {
        0x291u16
    } else if t == 13 {
        0x289u16
    } else if t == 14 {
        0x095u16
    } else if t == 15 {
        0x08du16
    } else if t == 16 {
        0x495u16
    } else if t == 17 {
        0x895u16
    } else if t == 18 {
        0x48du16
    } else {
        0x081u16
    }
}

/// Whether a chord shape has a tone at an interval.
#[verifier::opaque]
spec fn tone_at(t: u16, iv: u16) -> bool {
    if t == 0 {
        iv == 0 || iv == 4 || iv == 7
    } else if t == 1 {
        iv == 0 || iv == 3 || iv == 7
    } else if t == 2 {
        iv == 0 || iv == 3 || iv == 6
    } else if t == 3 {
        iv == 0 || iv == 4 || iv == 8
    } else if t == 4 {
        iv == 0 || iv == 2 || iv == 7
    } else if t == 5 {
        iv == 0 || iv == 5 || iv == 7
    } else if t == 6 {
        iv == 0 || iv == 4 || iv == 7 || iv == 11
    } else if t == 7 {
        iv == 0 || iv == 3 || iv == 7 || iv == 10
    } else if t == 8 {
        iv == 0 || iv == 4 || iv == 7 || iv == 10
    } else if t == 9 {
        iv == 0 || iv == 3 || iv == 6 || iv == 10
    } else if t == 10 {
        iv == 0 || iv == 3 || iv == 6 || iv == 9
    } else if t == 11 {
        iv == 0 || iv == 3 || iv == 7 || iv == 11
    } else if t == 12 {
        iv == 0 || iv == 4 || iv == 7 || iv == 9
    } else if t == 13 {
        iv == 0 || iv == 3 || iv == 7 || iv == 9
    } else if t == 14 {
        iv == 0 || iv == 2 || iv == 4 || iv == 7
    } else if t == 15 {
        iv == 0 || iv == 2 || iv == 3 || iv == 7
    } else if t == 16 {
        iv == 0 || iv == 2 || iv == 4 || iv == 7 || iv == 10
    } else if t == 17 {
        iv == 0 || iv == 2 || iv == 4 || iv == 7 || iv == 11
    } else if t == 18 {
        iv == 0 || iv == 2 || iv == 3 || iv == 7 || iv == 10
    } else {
        iv == 0 || iv == 7
    }
}

/// How common a chord shape is.
#[verifier::opaque]
spec fn priority(t: u16) -> u16 {
    if t == 0 {
        10u16
    } else if t == 1 {
        10u16
    } else if t == 2 {
        7u16
    } else if t == 3 {
        6u16
    } else if t == 4 {
        6u16
    } else if t == 5 {
        6u16
    } else if t == 6 {
        9u16
    } else if t == 7 {
        9u16
    } else if t == 8 {
        9u16
    } else if t == 9 {
        7u16
    } else if t == 10 {
        6u16
    } else if t == 11 {
        5u16
    } else if t == 12 {
        7u16
    } else if t == 13 {
        7u16
    } else if t == 14 {
        6u16
    } else if t == 15 {
        5u16
    } else if t == 16 {
        6u16
    } else if t == 17 {
        6u16
    } else if t == 18 {
        6u16
    } else {
        4u16
    }
}

spec fn rotated(mask: u16, by: u16) -> u16 {
    ((mask >> by) | (mask << ((12 - by) as u16))) & 0xfffu16
}

proof fn lemma_tone_mask(t: u16, iv: u16)
    requires
        t < 20,
        iv < 12,
    ensures
        tone_at(t, iv) <==> (tone_mask(t) >> iv) & 1 == 1,
{
    reveal(tone_at);
    assert(tone_at(t, iv) <==> (tone_mask(t) >> iv) & 1 == 1) by (bit_vector)
        requires
            t < 20,
            iv < 12,
    ;
}

proof fn lemma_tone_at(t: u16, iv: u16)
    requires
        t < 20,
        iv < 12,
    ensures
        tone_at(t, iv) <==> chord_intervals(t as int).contains(iv as u8),
        priority(t) == CHORD_PRIORITIES@[t as int],
{
    reveal(chord_intervals);
    reveal(tone_at);
    reveal(priority);
    let s = chord_intervals(t as int);
    assert(s.len() <= 5);
    assert(s.contains(iv as u8) <==> {
        ||| s.len() > 0 && s[0] == iv
        ||| s.len() > 1 && s[1] == iv
        ||| s.len() > 2 && s[2] == iv
        ||| s.len() > 3 && s[3] == iv
        ||| s.len() > 4 && s[4] == iv
    });
}

/// Two shapes that are each other's inversions are about equally common.
proof fn lemma_inversions_about_as_common(a: u16, b: u16, by: u16)
    requires
        a < 20,
        b < 20,
        by < 12,
        forall|iv: u16|
            iv < 12 ==> (#[trigger] tone_at(b, iv) <==> tone_at(a, ((iv + by) % 12) as u16)),
    ensures
        priority(a) < priority(b) + 4,
{
    let ma: u16 = tone_mask(a);
    let mb: u16 = tone_mask(b);
    assert forall|iv: u16| iv < 12 implies ((mb >> iv) & 1 == 1 <==> (ma >> #[trigger] ((iv + by) % 12) as u16) & 1
        == 1) by {
        lemma_tone_mask(b, iv);
        lemma_tone_mask(a, ((iv + by) % 12) as u16);
        assert(tone_at(b, iv) <==> tone_at(a, ((iv + by) % 12) as u16));
    }
    lemma_rotated(ma, mb, by);
    reveal(priority);
    assert(a < 20 && b < 20 && by < 12 && tone_mask(b) == rotated(tone_mask(a), by) ==> priority(a) < priority(b) + 4)
        by (bit_vector);
}

proof fn lemma_rotated(ma: u16, mb: u16, by: u16)
    requires
        ma < 4096,
        mb < 4096,
        by < 12,
        forall|iv: u16|
            iv < 12 ==> ((mb >> iv) & 1 == 1 <==> (ma >> #[trigger] ((iv + by) % 12) as u16) & 1 == 1),
    ensures
        mb == rotated(ma, by),
{
    assert(((mb >> 0u16) & 1 == 1) <==> ((ma >> ((0u16 + by) % 12) as u16) & 1 == 1));
    assert(((mb >> 1u16) & 1 == 1) <==> ((ma >> ((1u16 + by) % 12) as u16) & 1 == 1));
    assert(((mb >> 2u16) & 1 == 1) <==> ((ma >> ((2u16 + by) % 12) as u16) & 1 == 1));
    assert(((mb >> 3u16) & 1 == 1) <==> ((ma >> ((3u16 + by) % 12) as u16) & 1 == 1));
    assert(((mb >> 4u16) & 1 == 1) <==> ((ma >> ((4u16 + by) % 12) as u16) & 1 == 1));
    assert(((mb >> 5u16) & 1 == 1) <==> ((ma >> ((5u16 + by) % 12) as u16) & 1 == 1));
    assert(((mb >> 6u16) & 1 == 1) <==> ((ma >> ((6u16 + by) % 12) as u16) & 1 == 1));
    assert(((mb >> 7u16) & 1 == 1) <==> ((ma >> ((7u16 + by) % 12) as u16) & 1 == 1));
    assert(((mb >> 8u16) & 1 == 1) <==> ((ma >> ((8u16 + by) % 12) as u16) & 1 == 1));
    assert(((mb >> 9u16) & 1 == 1) <==> ((ma >> ((9u16 + by) % 12) as u16) & 1 == 1));
    assert(((mb >> 10u16) & 1 == 1) <==> ((ma >> ((10u16 + by) % 12) as u16) & 1 == 1));
    assert(((mb >> 11u16) & 1 == 1) <==> ((ma >> ((11u16 + by) % 12) as u16) & 1 == 1));
    assert(mb == rotated(ma, by)) by (bit_vector)
        requires
            ma < 4096,
            mb < 4096,
            by < 12,
            ((mb >> 0u16) & 1 == 1) <==> ((ma >> ((0u16 + by) % 12) as u16) & 1 == 1),
            ((mb >> 1u16) & 1 == 1) <==> ((ma >> ((1u16 + by) % 12) as u16) & 1 == 1),
            ((mb >> 2u16) & 1 == 1) <==> ((ma >> ((2u16 + by) % 12) as u16) & 1 == 1),
            ((mb >> 3u16) & 1 == 1) <==> ((ma >> ((3u16 + by) % 12) as u16) & 1 == 1),
            ((mb >> 4u16) & 1 == 1) <==> ((ma >> ((4u16 + by) % 12) as u16) & 1 == 1),
            ((mb >> 5u16) & 1 == 1) <==> ((ma >> ((5u16 + by) % 12) as u16) & 1 == 1),
            ((mb >> 6u16) & 1 == 1) <==> ((ma >> ((6u16 + by) % 12) as u16) & 1 == 1),
            ((mb >> 7u16) & 1 == 1) <==> ((ma >> ((7u16 + by) % 12) as u16) & 1 == 1),
            ((mb >> 8u16) & 1 == 1) <==> ((ma >> ((8u16 + by) % 12) as u16) & 1 == 1),
            ((mb >> 9u16) & 1 == 1) <==> ((ma >> ((9u16 + by) % 12) as u16) & 1 == 1),
            ((mb >> 10u16) & 1 == 1) <==> ((ma >> ((10u16 + by) % 12) as u16) & 1 == 1),
            ((mb >> 11u16) & 1 == 1) <==> ((ma >> ((11u16 + by) % 12) as u16) & 1 == 1),
    ;
}

/// An interval above one root is this interval above another.
proof fn lemma_seen_from(a: int, b: int, iv: int)
    requires
        0 <= a < 12,
        0 <= b < 12,
        0 <= iv < 12,
    ensures
        (b + iv) % 12 == (a + (iv + (b + 12 - a) % 12) % 12) % 12,
{
    let by = if b >= a {
        b - a
    } else {
        b + 12 - a
    };
    assert((b + 12 - a) % 12 == by);
    let jv = if iv + by < 12 {
        iv + by
    } else {
        iv + by - 12
    };
    assert((iv + by) % 12 == jv);
    assert(a + jv == b + iv || a + jv == b + iv - 12 || a + jv == b + iv + 12);
    if b + iv < 12 {
        assert((b + iv) % 12 == b + iv);
    } else {
        assert((b + iv) % 12 == b + iv - 12);
    }
    if a + jv < 12 {
        assert((a + jv) % 12 == a + jv);
    } else {
        assert((a + jv) % 12 == a + jv - 12);
    }
}

/// Seen from two roots, the same notes are the same tones.
proof fn lemma_same_tone(held: Seq<u8>, a: u8, ta: u16, b: u8, tb: u16, iv: u16, jv: u16)
    requires
        a < 12,
        b < 12,
        ta < 20,
        tb < 20,
        iv < 12,
        jv < 12,
        (b + iv) % 12 == (a + jv) % 12,
        shape(held, a as int) == chord_intervals(ta as int),
        shape(held, b as int) == chord_intervals(tb as int),
    ensures
        tone_at(tb, iv) <==> tone_at(ta, jv),
        chord_intervals(tb as int).contains(iv as u8) <==> chord_intervals(ta as int).contains(jv as u8),
{
    lemma_shape_values(held, a as int, 12);
    lemma_shape_values(held, b as int, 12);
    lemma_tone_at(tb, iv);
    lemma_tone_at(ta, jv);
    assert(shape(held, b as int).contains(iv as int as u8) <==> has_pitch_class(held, (b + iv) % 12));
    assert(shape(held, a as int).contains(jv as int as u8) <==> has_pitch_class(held, (a + jv) % 12));
}

/// Chords that the same notes form are about equally common.
proof fn lemma_same_notes_about_as_common(held: Seq<u8>, a: u8, ta: u16, b: u8, tb: u16)
    requires
        a < 12,
        b < 12,
        ta < 20,
        tb < 20,
        shape(held, a as int) == chord_intervals(ta as int),
        shape(held, b as int) == chord_intervals(tb as int),
    ensures
        CHORD_PRIORITIES@[ta as int] < CHORD_PRIORITIES@[tb as int] + 4,
{
    let by = ((b + 12 - a) % 12) as u16;
    assert forall|iv: u16| iv < 12 implies (#[trigger] tone_at(tb, iv) <==> tone_at(ta, ((iv + by) % 12) as u16)) by {
        lemma_seen_from(a as int, b as int, iv as int);
        lemma_same_tone(held, a, ta, b, tb, iv, ((iv + by) % 12) as u16);
    }
    lemma_inversions_about_as_common(ta, tb, by);
    lemma_tone_at(ta, 0);
    lemma_tone_at(tb, 0);
}

/// Chords that the same notes form are within the scale together or not at all.
proof fn lemma_same_notes_diatonic(held: Seq<u8>, setting: ScaleSetting, a: u8, ta: u16, b: u8, tb: u16)
    requires
        a < 12,
        b < 12,
        ta < 20,
        tb < 20,
        shape(held, a as int) == chord_intervals(ta as int),
        shape(held, b as int) == chord_intervals(tb as int),
        diatonic(setting, a as int, ta as int),
    ensures
        diatonic(setting, b as int, tb as int),
{
    let by = ((b + 12 - a) % 12) as u16;
    let sa = chord_intervals(ta as int);
    let sb = chord_intervals(tb as int);
    chords_are_well_shaped(tb as int);
    assert forall|i: int| 0 <= i < sb.len() implies setting.has(b + (#[trigger] sb[i]) as int) by {
        let iv = sb[i] as u16;
        let jv = ((iv + by) % 12) as u16;
        assert(sb.contains(iv as u8));
        lemma_seen_from(a as int, b as int, iv as int);
        lemma_same_tone(held, a, ta, b, tb, iv, jv);
        let j = choose|j: int| 0 <= j < sa.len() && sa[j] == jv as u8;
        assert(setting.has(a + sa[j] as int));
        assert((b + iv) % 12 == (a + jv) % 12);
    }
}

/// Detected chords come in this order: those on the tonic first, then those on a note of the scale,
/// then those within the scale, then common ones before rare ones.
pub proof fn detected_chords_are_ranked(held: Seq<u8>, setting: ScaleSetting, i: int, j: int)
    requires
        0 <= i < j < detected(held, setting).len(),
    ensures
        ({
            let a = detected(held, setting)[i];
            let b = detected(held, setting)[j];
            let (ra, ta) = (a.root as int, a.template as int);
            let (rb, tb) = (b.root as int, b.template as int);
            &&& rb == setting.root ==> ra == setting.root
            &&& (ra == setting.root <==> rb == setting.root) && setting.has(rb) ==> setting.has(ra)
            &&& diatonic(setting, ra, ta) == diatonic(setting, rb, tb)
            &&& (ra == setting.root <==> rb == setting.root) && setting.has(ra) == setting.has(rb)
                ==> CHORD_PRIORITIES@[ta] >= CHORD_PRIORITIES@[tb]
        }),
{
    let pcs = pitch_classes(held);
    let list = candidates(held, setting, pcs, pcs.len() as int);
    ranking_orders_by_fit(list);
    let a = detected(held, setting)[i];
    let b = detected(held, setting)[j];
    detected_chords_sound(held, setting, i);
    detected_chords_sound(held, setting, j);
    let (ta, tb) = (a.template as u16, b.template as u16);
    lemma_same_notes_about_as_common(held, a.root, ta, b.root, tb);
    lemma_same_notes_about_as_common(held, b.root, tb, a.root, ta);
    if diatonic(setting, a.root as int, ta as int) {
        lemma_same_notes_diatonic(held, setting, a.root, ta, b.root, tb);
    }
    if diatonic(setting, b.root as int, tb as int) {
        lemma_same_notes_diatonic(held, setting, b.root, tb, a.root, ta);
    }
    assert(a.score >= b.score);
    scales_are_well_shaped(setting.scale_idx as int);
    if b.root == setting.root {
        assert(setting.interval_to(b.root as int) == 0);
        assert(setting.intervals()[0] == 0);
        assert(setting.has(b.root as int));
    }
    lemma_priorities(a.template as int);
    lemma_priorities(b.template as int);
}

/// A chord has a Roman numeral where its root is in the scale, and only there.
pub proof fn roots_in_the_scale_have_a_numeral(setting: ScaleSetting, root: int, t: int)
    ensures
        roman_text(setting, root, t) is Some <==> setting.has(root),
{
    let value = setting.interval_to(root) as u8;
    lemma_place_of(setting.intervals(), value, 0);
    if setting.has(root) {
        let i = choose|i: int| 0 <= i < setting.intervals().len() && setting.intervals()[i] == value;
        assert(setting.intervals()[i] == value);
    }
}

proof fn lemma_place_of(items: Seq<u8>, value: u8, from: int)
    requires
        0 <= from <= items.len(),
    ensures
        match place_of(items, value, from) {
            Some(i) => from <= i < items.len() && items[i] == value,
            None => forall|i: int| from <= i < items.len() ==> #[trigger] items[i] != value,
        },
    decreases items.len() - from,
{
    if from < items.len() && items[from] != value {
        lemma_place_of(items, value, from + 1);
    }
}

proof fn lemma_priorities(t: int)
    requires
        0 <= t < CHORD_COUNT,
    ensures
        4 <= CHORD_PRIORITIES@[t] <= 10,
{
}

} // verus!
