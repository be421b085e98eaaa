//! Laws of the keyboard that is drawn and of the keys that are locked.
use vstd::prelude::*;

use crate::piano_filter::{PianoFilter, PianoMode};
use crate::scale::{ScaleSetting, NOTE_NAMES, SCALE_NAMES};
use crate::tui::piano_view::{
    black_after, black_key, black_keys, chosen_layout, first_octave, geometry, key_state, keyboard, octave_label,
    octave_name, scale_entry, white_key, white_keys, white_letter, white_pc, Geometry, KeyState, Paint, Shade,
};
use crate::tui::tree::Area;

verus! {

// ---------------------------------------------------------------------------
// Where the keys stand
// ---------------------------------------------------------------------------

/// The white keys of an octave are the notes whose names are single letters, and each shows its
/// letter. The black keys stand a semitone above a white one and are the remaining notes.
pub proof fn keys_are_named_after_their_notes(white: int, black: int)
    requires
        0 <= white < 7,
        0 <= black < 5,
    ensures
        0 <= white_pc(white) < 12,
        NOTE_NAMES@[white_pc(white)]@ == seq![white_letter(white)],
        NOTE_NAMES@[white_pc(black_after(black)) + 1]@ == seq![white_letter(black_after(black)), '#'],
        0 <= black_after(black) < 7,
{
    reveal_strlit("C");
    reveal_strlit("C#");
    reveal_strlit("D");
    reveal_strlit("D#");
    reveal_strlit("E");
    reveal_strlit("F");
    reveal_strlit("F#");
    reveal_strlit("G");
    reveal_strlit("G#");
    reveal_strlit("A");
    reveal_strlit("A#");
    reveal_strlit("B");
    assert(NOTE_NAMES@[white_pc(white)]@ =~= seq![white_letter(white)]);
    assert(NOTE_NAMES@[white_pc(black_after(black)) + 1]@ =~= seq![white_letter(black_after(black)), '#']);
}

/// Every note of an octave is a key: a white one or the black one behind a white one, and no note is
/// both. The keys rise from left to right.
pub proof fn every_note_is_one_key(pc: int)
    requires
        0 <= pc < 12,
    ensures
        (exists|w: int| 0 <= w < 7 && #[trigger] white_pc(w) == pc) <==> !(exists|b: int|
            0 <= b < 5 && white_pc(#[trigger] black_after(b)) + 1 == pc),
        forall|v: int, w: int| 0 <= v < w < 7 ==> #[trigger] white_pc(v) < #[trigger] white_pc(w),
{
    if pc == 0 || pc == 2 || pc == 4 {
        assert(white_pc(pc / 2) == pc);
    } else if pc == 5 || pc == 7 || pc == 9 || pc == 11 {
        assert(white_pc((pc + 1) / 2) == pc);
    } else if pc == 1 || pc == 3 {
        assert(white_pc(black_after(pc / 2)) + 1 == pc);
    } else {
        assert(pc == 6 || pc == 8 || pc == 10);
        assert(white_pc(black_after(pc / 2 - 1)) + 1 == pc);
    }
}

/// The white keys stand side by side without a gap, octave after octave.
pub proof fn white_keys_stand_side_by_side(g: Geometry, octave: int, white: int)
    ensures
        g.white_x(0, 0) == g.left,
        g.white_x(octave, white + 1) == g.white_x(octave, white) + g.white_w,
        g.white_x(octave + 1, 0) == g.white_x(octave, 7),
{
    let w = g.white_w as int;
    assert((white + 1) * w == white * w + w) by (nonlinear_arith);
    assert((octave + 1) * (7 * w) == octave * (7 * w) + 7 * w) by (nonlinear_arith);
    assert(0 * (7 * w) == 0) by (nonlinear_arith);
}

/// The octaves rise by twelve notes each, and the fourth begins with middle C, note 60.
pub proof fn octaves_rise_by_twelve(g: Geometry, octave: int, pc: int)
    ensures
        g.note(octave + 1, pc) == g.note(octave, pc) + 12,
        g.note(octave, pc + 1) == g.note(octave, pc) + 1,
        g.start_octave + octave == 4 ==> g.note(octave, 0) == 60,
{
}

/// The keyboard fits where it is drawn. It has as many octaves as there are, with keys as wide as
/// fit, and gives up octaves only for keys of at least three columns, or of two or one where there
/// is less room.
pub proof fn layouts_use_the_room(width: u16)
    requires
        width >= 14,
    ensures
        ({
            let (octaves, white_w) = chosen_layout(width);
            &&& 2 <= octaves <= 11
            &&& 1 <= white_w <= 5
            &&& 7 * white_w * octaves <= width
            &&& width >= 7 * 5 * 11 ==> (octaves, white_w) == (11int, 5int)
            &&& octaves == 11 && 3 <= white_w < 5 ==> 7 * (white_w + 1) * 11 > width
            &&& octaves < 11 ==> white_w <= 3 && 7 * white_w * (octaves + 1) > width
            &&& white_w == 2 ==> 7 * 3 * 4 > width
            &&& white_w == 1 ==> 7 * 2 * 4 > width
        }),
{
}

/// The keyboard is centred on the octave that is played, as far as there are notes on both sides.
pub proof fn keyboards_are_centred(center: i8, octaves: int)
    requires
        2 <= octaves <= 11,
    ensures
        -1 <= first_octave(center, octaves),
        first_octave(center, octaves) + octaves <= 10,
        -1 <= center - octaves / 2 && center - octaves / 2 + octaves <= 10 ==> first_octave(center, octaves) == center
            - octaves / 2,
        center - octaves / 2 < -1 ==> first_octave(center, octaves) == -1,
        center - octaves / 2 + octaves > 10 ==> first_octave(center, octaves) == 10 - octaves,
{
}

/// The black keys are shorter than the white ones, and the keyboard stands in the middle of the
/// width that it has.
pub proof fn keyboards_stand_in_the_middle(area: Area, center: i8)
    requires
        area.width >= 14,
        area.height >= 4,
        area.x + area.width <= u16::MAX,
        area.y + area.height <= u16::MAX,
    ensures
        ({
            let g = geometry(area, center);
            let used = 7 * g.white_w * g.octaves;
            let (before, behind) = (g.left - area.x, area.x + area.width - g.left - used);
            &&& before <= behind <= before + 1
            &&& g.right == area.x + area.width
            &&& area.y <= g.top < g.upper_end < g.lower_end
            &&& g.lower_end < area.y + area.height
            &&& (g.octaves as int, g.white_w as int) == chosen_layout(area.width)
            &&& g.start_octave == first_octave(center, g.octaves as int)
        }),
{
    layouts_use_the_room(area.width);
    let (octaves, white_w) = chosen_layout(area.width);
    keyboards_are_centred(center, octaves);
    assert(0 <= 7 * white_w * octaves) by (nonlinear_arith)
        requires
            white_w >= 1,
            octaves >= 2,
    ;
}

// ---------------------------------------------------------------------------
// What the keys show
// ---------------------------------------------------------------------------

/// A key that is held off the scale is red. Else the root shows gold and the other tones of the
/// scale teal; a key off the scale has no stripe of its own. A held key is told from one that is
/// not.
pub proof fn colours_tell_scale_and_touch(held: Set<u8>, scale: ScaleSetting, note: u8, black: bool)
    ensures
        ({
            let state = key_state(held, scale, note);
            let root = note % 12 == scale.root;
            let tone = scale.has(note as int);
            let touched = held.contains(note);
            &&& touched && !tone ==> state.body_bg(black) == Shade::Red && state.stripe_bg(black) == Shade::Red
            &&& (!touched || tone) && root ==> state.stripe_bg(black) == Shade::Gold
            &&& tone && !root ==> state.stripe_bg(black) == Shade::Teal
            &&& !touched && !tone && !root ==> state.stripe_bg(black) == state.body_bg(black)
            &&& touched && tone ==> state.body_bg(true) == Shade::BlackBodyHeld && state.body_bg(false)
                == Shade::WhiteBodyHeld
            &&& !touched ==> state.body_bg(true) == Shade::BlackBody && state.body_bg(false) == Shade::WhiteBody
            &&& touched || tone || root ==> state.label_fg(black) == Shade::Black
            &&& !touched && !tone && !root ==> state.label_fg(true) == Shade::BlackText && state.label_fg(false)
                == Shade::WhiteText
        }),
{
}

/// A white key fills its columns from the top, and its last row is its stripe. From two columns on
/// it shows its letter in the stripe, bold where it is the root or held.
pub proof fn white_keys_fill_their_place(g: Geometry, state: KeyState, octave: int, white: int)
    requires
        g.sound(),
        0 <= octave < g.octaves,
        0 <= white < 7,
    ensures
        ({
            let paints = white_key(g, state, octave, white);
            let (x, end) = (g.white_x(octave, white), g.white_x(octave, white) + g.white_w);
            &&& paints.len() >= 2
            &&& paints[0].x0 == x && paints[0].x1 == end
            &&& paints[0].y0 == g.top && paints[0].y1 == g.lower_end - 1
            &&& paints[0].bg == Some(state.body_bg(false))
            &&& paints[1].x0 == x && paints[1].x1 == end
            &&& paints[1].y0 == g.lower_end - 1 && paints[1].y1 == g.lower_end
            &&& paints[1].bg == Some(state.stripe_bg(false))
            &&& g.white_w >= 2 ==> ({
                let letter = paints.last();
                &&& letter.ch == white_letter(white)
                &&& x <= letter.x0 < end && letter.x1 == letter.x0 + 1
                &&& letter.y0 == g.lower_end - 1 && letter.y1 == g.lower_end
                &&& letter.bold == (state.is_root || state.is_held)
            })
        }),
{
    lemma_key_place(g, octave, white);
}

proof fn lemma_key_place(g: Geometry, octave: int, white: int)
    requires
        g.sound(),
        0 <= octave < g.octaves,
        0 <= white < 7,
    ensures
        g.left <= g.white_x(octave, white),
        g.white_x(octave, white) + g.white_w <= g.left + 7 * g.white_w * g.octaves <= g.right,
{
    let w = g.white_w as int;
    let n = g.octaves as int;
    assert(0 <= octave * (7 * w) && 0 <= white * w && octave * (7 * w) + white * w + w <= 7 * w * n) by (nonlinear_arith)
        requires
            0 <= octave <= n - 1,
            0 <= white <= 6,
            1 <= w,
    ;
}

/// Every white key of the keyboard that has a note is drawn as that note's key: in the scale, as
/// root and held as that note is.
pub proof fn every_white_key_is_drawn(
    g: Geometry,
    held: Set<u8>,
    scale: ScaleSetting,
    octave: int,
    white: int,
    p: Paint,
)
    requires
        0 <= octave < g.octaves,
        0 <= white < 7,
        0 <= (g.start_octave + octave + 1) * 12 + white_pc(white) <= 127,
        white_key(
            g,
            key_state(held, scale, ((g.start_octave + octave + 1) * 12 + white_pc(white)) as u8),
            octave,
            white,
        ).contains(p),
    ensures
        keyboard(g, held, scale).contains(p),
{
    lemma_white_keys(g, held, scale, octave, white, p, 7 * g.octaves);
    let all = white_keys(g, held, scale, 7 * g.octaves);
    let i = choose|i: int| 0 <= i < all.len() && all[i] == p;
    assert(keyboard(g, held, scale)[i] == p);
}

proof fn lemma_white_keys(
    g: Geometry,
    held: Set<u8>,
    scale: ScaleSetting,
    octave: int,
    white: int,
    p: Paint,
    count: int,
)
    requires
        0 <= octave,
        0 <= white < 7,
        7 * octave + white < count,
        g.note(octave, white_pc(white)) <= 127,
        white_key(g, key_state(held, scale, g.note(octave, white_pc(white)) as u8), octave, white).contains(p),
    ensures
        white_keys(g, held, scale, count).contains(p),
    decreases count,
{
    let rest = white_keys(g, held, scale, count - 1);
    let all = white_keys(g, held, scale, count);
    if count - 1 == 7 * octave + white {
        assert((count - 1) / 7 == octave && (count - 1) % 7 == white);
        let key = white_key(g, key_state(held, scale, g.note(octave, white_pc(white)) as u8), octave, white);
        let i = choose|i: int| 0 <= i < key.len() && key[i] == p;
        assert(all[rest.len() + i] == p);
    } else {
        lemma_white_keys(g, held, scale, octave, white, p, count - 1);
        let i = choose|i: int| 0 <= i < rest.len() && rest[i] == p;
        assert(all[i] == p);
    }
}

/// Every black key of the keyboard that has a note is drawn as that note's key, over the white ones.
pub proof fn every_black_key_is_drawn(
    g: Geometry,
    held: Set<u8>,
    scale: ScaleSetting,
    octave: int,
    black: int,
    p: Paint,
)
    requires
        0 <= octave < g.octaves,
        0 <= black < 5,
        0 <= (g.start_octave + octave + 1) * 12 + white_pc(black_after(black)) + 1 <= 127,
        black_key(
            g,
            key_state(held, scale, ((g.start_octave + octave + 1) * 12 + white_pc(black_after(black)) + 1) as u8),
            octave,
            black,
        ).contains(p),
    ensures
        exists|i: int|
            white_keys(g, held, scale, 7 * g.octaves).len() <= i < keyboard(g, held, scale).len() && #[trigger] keyboard(
                g,
                held,
                scale,
            )[i] == p,
{
    lemma_black_keys(g, held, scale, octave, black, p, 5 * g.octaves);
    let whites = white_keys(g, held, scale, 7 * g.octaves);
    let blacks = black_keys(g, held, scale, 5 * g.octaves);
    let i = choose|i: int| 0 <= i < blacks.len() && blacks[i] == p;
    assert(keyboard(g, held, scale)[whites.len() + i] == p);
}

proof fn lemma_black_keys(
    g: Geometry,
    held: Set<u8>,
    scale: ScaleSetting,
    octave: int,
    black: int,
    p: Paint,
    count: int,
)
    requires
        0 <= octave,
        0 <= black < 5,
        5 * octave + black < count,
        g.note(octave, white_pc(black_after(black)) + 1) <= 127,
        black_key(
            g,
            key_state(held, scale, g.note(octave, white_pc(black_after(black)) + 1) as u8),
            octave,
            black,
        ).contains(p),
    ensures
        black_keys(g, held, scale, count).contains(p),
    decreases count,
{
    let rest = black_keys(g, held, scale, count - 1);
    let all = black_keys(g, held, scale, count);
    if count - 1 == 5 * octave + black {
        assert((count - 1) / 5 == octave && (count - 1) % 5 == black);
        let note = g.note(octave, white_pc(black_after(black)) + 1);
        let key = black_key(g, key_state(held, scale, note as u8), octave, black);
        let i = choose|i: int| 0 <= i < key.len() && key[i] == p;
        assert(all[rest.len() + i] == p);
    } else {
        lemma_black_keys(g, held, scale, octave, black, p, count - 1);
        let i = choose|i: int| 0 <= i < rest.len() && rest[i] == p;
        assert(all[i] == p);
    }
}

/// A black key stands over the seam between two white ones, down to where the black keys end, and
/// shows the letter of the white key before it, with a sharp behind it.
pub proof fn black_keys_stand_over_the_seams(g: Geometry, state: KeyState, octave: int, black: int)
    requires
        g.sound(),
        0 <= octave < g.octaves,
        0 <= black < 5,
    ensures
        ({
            let paints = black_key(g, state, octave, black);
            let seam = g.white_x(octave, black_after(black)) + g.white_w;
            &&& paints.len() >= 2
            &&& paints[0].x0 <= seam < paints[0].x1
            &&& paints[0].x1 - paints[0].x0 == g.black_w
            &&& seam - g.white_w < paints[0].x0 && paints[0].x1 <= seam + g.white_w
            &&& paints[0].y0 == g.top && paints[0].y1 == g.upper_end - 1
            &&& paints[0].bg == Some(state.body_bg(true))
            &&& paints[1].y0 == g.upper_end - 1 && paints[1].y1 == g.upper_end
            &&& paints[1].bg == Some(state.stripe_bg(true))
            &&& g.black_w >= 2 ==> paints.len() == 4 && paints[2].ch == white_letter(black_after(black)) && paints[3].ch
                == '#' && paints[3].x0 == paints[2].x0 + 1
        }),
{
    lemma_key_place(g, octave, black_after(black));
    lemma_key_place(g, octave, black_after(black) + 1);
    white_keys_stand_side_by_side(g, octave, black_after(black));
}

/// Under every octave stands its name: a C and the octave's number.
pub proof fn octaves_are_labelled(g: Geometry, octave: int, i: int)
    requires
        0 <= i < octave_label(g, octave).len(),
    ensures
        octave_label(g, octave)[i].ch == octave_name(g.start_octave + octave)[i],
        octave_label(g, octave)[i].y0 == g.lower_end,
        octave_name(g.start_octave + octave)[0] == 'C',
        octave_label(g, octave).len() <= g.white_w,
{
    reveal_strlit("C");
}

// ---------------------------------------------------------------------------
// The scale picker and the lock
// ---------------------------------------------------------------------------

/// The picker lists every scale on every root: all scales of one root, then those of the next.
pub proof fn picker_lists_every_scale_on_every_root(root: int, idx: int)
    requires
        0 <= root < 12,
        0 <= idx < 15,
    ensures
        scale_entry(15 * root + idx) == (NOTE_NAMES@[root]@ + " "@ + SCALE_NAMES@[idx]@, root as u8, idx as usize),
{
    assert((15 * root + idx) / 15 == root && (15 * root + idx) % 15 == idx);
}

/// A locked piano is in the mode that blocks, one that is not locked only highlights. What is
/// blocked goes by the root and the scale that were set.
pub proof fn locks_go_by_the_scale_that_was_set(f: PianoFilter)
    ensures
        f.locked ==> f.current_mode() == PianoMode::Locked,
        !f.locked ==> f.current_mode() == PianoMode::Highlight,
        f.setting().root == f.root,
        f.setting().scale_idx == f.scale_idx,
        PianoMode::Locked.text() == "Locked"@,
        PianoMode::Highlight.text() == "Highlight"@,
{
}

} // verus!
