//! The piano keyboard on the screen: keys of the scale are marked, the root stands out, and held
//! keys light up.
use vstd::prelude::*;

use crate::held_notes::HeldNotes;
use crate::model::views;
use crate::scale::{ScaleSetting, NOTE_NAMES, SCALE_COUNT, SCALE_NAMES};
use crate::text::{push_signed, signed_decimal, to_chars};
use crate::tui::tree::Area;

verus! {

/// The most octaves that are shown: as many as there are MIDI notes for.
pub const MAX_OCTAVES: i8 = 11;

/// What a key is painted with.
#[derive(Clone, Copy, Debug, PartialEq, Eq, Structural)]
pub enum Shade {
    WhiteBody,
    WhiteBodyHeld,
    WhiteText,
    BlackBody,
    BlackBodyHeld,
    BlackText,
    Seam,
    /// Marks the tones of the scale.
    Teal,
    /// Marks the root.
    Gold,
    /// A held key outside the scale.
    Red,
    Black,
    OctaveLabel,
}

/// A character painted over columns `x0` up to `x1` and rows `y0` up to `y1`, without the last.
#[derive(Clone, Copy, Debug, PartialEq, Eq, Structural)]
pub struct Paint {
    pub x0: u16,
    pub x1: u16,
    pub y0: u16,
    pub y1: u16,
    pub ch: char,
    pub fg: Shade,
    pub bg: Option<Shade>,
    pub bold: bool,
}

// ---------------------------------------------------------------------------
// Layout
// ---------------------------------------------------------------------------

/// How many octaves fit where white keys are `key` columns wide, up to the most that are shown.
pub open spec fn octaves_at(width: u16, key: int) -> int {
    let n = width as int / (7 * key);
    if n < MAX_OCTAVES {
        n
    } else {
        MAX_OCTAVES as int
    }
}

/// How many octaves are drawn, and how wide the white keys are: the widest keys that leave room for
/// all octaves; else keys of three columns, narrower ones where fewer than four octaves fit.
pub open spec fn chosen_layout(width: u16) -> (int, int) {
    if octaves_at(width, 5) >= MAX_OCTAVES {
        (MAX_OCTAVES as int, 5)
    } else if octaves_at(width, 4) >= MAX_OCTAVES {
        (MAX_OCTAVES as int, 4)
    } else if octaves_at(width, 3) >= MAX_OCTAVES {
        (MAX_OCTAVES as int, 3)
    } else if octaves_at(width, 3) >= 4 {
        (octaves_at(width, 3), 3)
    } else if octaves_at(width, 2) >= 4 {
        (octaves_at(width, 2), 2)
    } else if octaves_at(width, 1) >= 2 {
        (octaves_at(width, 1), 1)
    } else {
        (2, 1)
    }
}

fn count_octaves(width: u16, key: u16) -> (n: i8)
    requires
        1 <= key <= 5,
    ensures
        n == octaves_at(width, key as int),
{
    let fit: u16 = width / (7 * key);
    if fit < MAX_OCTAVES as u16 {
        fit as i8
    } else {
        MAX_OCTAVES
    }
}

/// How many octaves are drawn, and how wide the white keys are. From four octaves of keys that can
/// be labelled on, it is as many octaves as fit, and then the widest keys that leave room for them.
pub fn choose_layout(width: u16) -> (layout: (i8, u8))
    ensures
        (layout.0 as int, layout.1 as int) == chosen_layout(width),
        2 <= layout.0 <= MAX_OCTAVES,
        1 <= layout.1 <= 5,
        width >= 14 ==> 7 * layout.1 * layout.0 <= width,
        width >= 84 ==> 3 <= layout.1 && 4 <= layout.0,
        width >= 84 ==> layout.0 == MAX_OCTAVES || 21 * (layout.0 + 1) > width,
        width >= 84 ==> layout.1 == 5 || 7 * (layout.1 + 1) * layout.0 > width,
{
    let o3: i8 = count_octaves(width, 3);
    let o4: i8 = count_octaves(width, 4);
    let o5: i8 = count_octaves(width, 5);
    proof {
        lemma_octaves_fit(width, 5);
        lemma_octaves_fit(width, 4);
        lemma_octaves_fit(width, 3);
        lemma_octaves_fit(width, 2);
        lemma_octaves_fit(width, 1);
    }
    if o5 >= MAX_OCTAVES {
        return (MAX_OCTAVES, 5);
    }
    if o4 >= MAX_OCTAVES {
        return (MAX_OCTAVES, 4);
    }
    if o3 >= MAX_OCTAVES {
        return (MAX_OCTAVES, 3);
    }
    if o3 >= 4 {
        assert(width < 21 * (o3 + 1));
        assert(7 * (3 + 1) * o3 > width) by (nonlinear_arith)
            requires
                width < 21 * (o3 + 1),
                4 <= o3,
        ;
        return (o3, 3);
    }
    let o2: i8 = count_octaves(width, 2);
    if o2 >= 4 {
        return (o2, 2);
    }
    let o1: i8 = count_octaves(width, 1);
    if o1 >= 2 {
        return (o1, 1);
    }
    (2, 1)
}

proof fn lemma_octaves_fit(width: u16, key: int)
    requires
        1 <= key <= 5,
    ensures
        7 * key * octaves_at(width, key) <= width,
{
    let n = width as int / (7 * key);
    assert(7 * key * n <= width) by (nonlinear_arith)
        requires
            n == width as int / (7 * key),
            key >= 1,
    ;
    let o = octaves_at(width, key);
    assert(7 * key * o <= 7 * key * n) by (nonlinear_arith)
        requires
            o <= n,
            key >= 1,
    ;
}

/// The tallest that a keyboard with white keys this wide is drawn.
pub open spec fn height_cap(white_w: int) -> u16 {
    if white_w == 5 {
        22
    } else if white_w == 4 {
        18
    } else if white_w == 3 {
        15
    } else if white_w == 2 {
        11
    } else {
        8
    }
}

/// The tallest that a keyboard with white keys this wide is drawn.
pub fn max_kb_height(white_w: u8) -> (h: u16)
    ensures
        h == height_cap(white_w as int),
{
    match white_w {
        5 => 22,
        4 => 18,
        3 => 15,
        2 => 11,
        _ => 8,
    }
}

/// Where the parts of the keyboard are.
#[derive(Clone, Copy, Debug, PartialEq, Eq, Structural)]
pub struct Geometry {
    pub octaves: u16,
    pub start_octave: i8,
    pub white_w: u16,
    pub black_w: u16,
    /// The column of the first key.
    pub left: u16,
    /// The column behind the area.
    pub right: u16,
    /// The first row.
    pub top: u16,
    /// The row behind the black keys.
    pub upper_end: u16,
    /// The row behind the white keys: that of the octave labels.
    pub lower_end: u16,
}

/// The width of black keys beside white keys this wide.
pub open spec fn black_width(white_w: int) -> int {
    if white_w <= 2 {
        1
    } else {
        white_w - 1
    }
}

/// The first octave that is drawn, with this one in the middle where that stays within the notes
/// there are.
pub open spec fn first_octave(center: i8, octaves: int) -> int {
    let start = center - octaves / 2;
    let last = if 10 - octaves > -1 {
        10 - octaves
    } else {
        -1
    };
    if start < -1 {
        -1
    } else if start > last {
        last
    } else {
        start
    }
}

/// The keyboard in this area: centred, a third of the free rows above it.
pub open spec fn geometry(area: Area, center: i8) -> Geometry {
    let (octaves, white_w) = chosen_layout(area.width);
    let height = if area.height < height_cap(white_w) {
        area.height as int
    } else {
        height_cap(white_w) as int
    };
    let top = area.y + (area.height - height) / 3;
    Geometry {
        octaves: octaves as u16,
        start_octave: first_octave(center, octaves) as i8,
        white_w: white_w as u16,
        black_w: black_width(white_w) as u16,
        left: (area.x + (area.width - 7 * white_w * octaves) / 2) as u16,
        right: (area.x + area.width) as u16,
        top: top as u16,
        upper_end: (top + (height - 1) * 55 / 100) as u16,
        lower_end: (top + height - 1) as u16,
    }
}

impl Geometry {
    /// What holds of every keyboard that is drawn.
    pub open spec fn sound(self) -> bool {
        &&& 2 <= self.octaves <= 11
        &&& 1 <= self.white_w <= 5
        &&& self.black_w == black_width(self.white_w as int)
        &&& -1 <= self.start_octave
        &&& self.start_octave + self.octaves <= 10
        &&& self.left + 7 * self.white_w * self.octaves <= self.right
        &&& self.top < self.upper_end <= self.lower_end
        &&& self.top + 3 <= self.lower_end < u16::MAX
    }

    /// The MIDI note of a key.
    pub open spec fn note(self, octave_offset: int, pc: int) -> int {
        (self.start_octave + octave_offset + 1) * 12 + pc
    }

    /// The column at which a white key begins.
    pub open spec fn white_x(self, octave_offset: int, white: int) -> int {
        self.left + octave_offset * (7 * self.white_w) + white * self.white_w
    }
}

/// Finds out where the parts of the keyboard are.
pub fn lay_out(area: Area, center: i8) -> (g: Geometry)
    requires
        area.width >= 14,
        area.height >= 4,
        area.x + area.width <= u16::MAX,
        area.y + area.height <= u16::MAX,
        center - chosen_layout(area.width).0 / 2 >= i8::MIN,
    ensures
        g == geometry(area, center),
        g.sound(),
{
    let (octaves, white_key) = choose_layout(area.width);
    let white_w: u16 = white_key as u16;
    let total: u16 = 7 * white_w;
    assert(total * octaves <= area.width) by (nonlinear_arith)
        requires
            7 * white_key * octaves <= area.width,
            total == 7 * white_key,
    ;
    let total_w: u16 = total * octaves as u16;
    assert(total_w == 7 * white_w * octaves) by (nonlinear_arith)
        requires
            total_w == total * octaves,
            total == 7 * white_w,
    ;
    let cap: u16 = max_kb_height(white_key);
    let height: u16 = if area.height < cap {
        area.height
    } else {
        cap
    };
    let top: u16 = area.y + (area.height - height) / 3;
    let last: i8 = if 10 - octaves > -1 {
        10 - octaves
    } else {
        -1
    };
    let start: i8 = center - octaves / 2;
    let start_octave: i8 = if start < -1 {
        -1
    } else if start > last {
        last
    } else {
        start
    };
    let black_w: u16 = if white_w <= 2 {
        1
    } else {
        white_w - 1
    };
    let g = Geometry {
        octaves: octaves as u16,
        start_octave,
        white_w,
        black_w,
        left: area.x + (area.width - total_w) / 2,
        right: area.x + area.width,
        top,
        upper_end: top + (height - 1) * 55 / 100,
        lower_end: top + height - 1,
    };
    assert(7 * g.white_w * g.octaves == total_w);
    g
}

// ---------------------------------------------------------------------------
// Keys
// ---------------------------------------------------------------------------

/// What is known of a key.
#[derive(Clone, Copy, Debug, PartialEq, Eq, Structural)]
pub struct KeyState {
    pub in_scale: bool,
    pub is_root: bool,
    pub is_held: bool,
}

/// What is known of the key of a note.
pub open spec fn key_state(held: Set<u8>, scale: ScaleSetting, note: u8) -> KeyState {
    KeyState {
        in_scale: scale.has(note as int),
        is_root: note % 12 == scale.root,
        is_held: held.contains(note),
    }
}

impl KeyState {
    /// A held key outside the scale.
    pub open spec fn wrong(self) -> bool {
        self.is_held && !self.in_scale
    }

    /// The colour of the key: a wrong note is red all over, other held keys change a little.
    pub open spec fn body_bg(self, black: bool) -> Shade {
        if self.wrong() {
            Shade::Red
        } else if self.is_held {
            if black {
                Shade::BlackBodyHeld
            } else {
                Shade::WhiteBodyHeld
            }
        } else if black {
            Shade::BlackBody
        } else {
            Shade::WhiteBody
        }
    }

    /// The colour of text on the key.
    pub open spec fn body_fg(self, black: bool) -> Shade {
        if self.wrong() {
            Shade::Black
        } else if black {
            Shade::BlackText
        } else {
            Shade::WhiteText
        }
    }

    /// The colour of the stripe at the end of the key: gold for the root, teal for other tones of
    /// the scale.
    pub open spec fn stripe_bg(self, black: bool) -> Shade {
        if self.wrong() {
            Shade::Red
        } else if self.is_root {
            Shade::Gold
        } else if self.in_scale {
            Shade::Teal
        } else {
            self.body_bg(black)
        }
    }

    /// The colour of the note's name.
    pub open spec fn label_fg(self, black: bool) -> Shade {
        if self.is_held || self.is_root || self.in_scale {
            Shade::Black
        } else if black {
            Shade::BlackText
        } else {
            Shade::WhiteText
        }
    }

    fn body(self, black: bool) -> (shades: (Shade, Shade))
        ensures
            shades == (self.body_fg(black), self.body_bg(black)),
    {
        if self.is_held && !self.in_scale {
            return (Shade::Black, Shade::Red);
        }
        if black {
            if self.is_held {
                (Shade::BlackText, Shade::BlackBodyHeld)
            } else {
                (Shade::BlackText, Shade::BlackBody)
            }
        } else if self.is_held {
            (Shade::WhiteText, Shade::WhiteBodyHeld)
        } else {
            (Shade::WhiteText, Shade::WhiteBody)
        }
    }

    fn stripe(self, black: bool) -> (shades: (Shade, Shade))
        ensures
            shades == (self.label_fg(black), self.stripe_bg(black)),
    {
        let (fg, bg) = self.body(black);
        let label = if self.is_held || self.is_root || self.in_scale {
            Shade::Black
        } else {
            fg
        };
        if self.is_held && !self.in_scale {
            (label, Shade::Red)
        } else if self.is_root {
            (label, Shade::Gold)
        } else if self.in_scale {
            (label, Shade::Teal)
        } else {
            (label, bg)
        }
    }
}

fn look_up(held: &HeldNotes, scale: &ScaleSetting, note: u8) -> (state: KeyState)
    requires
        scale.scale_idx < SCALE_COUNT,
    ensures
        state == key_state(held@, *scale, note),
{
    KeyState { in_scale: scale.contains(note), is_root: scale.is_root(note), is_held: held.is_held(note) }
}

/// A column that stays within the area.
pub open spec fn clipped(x: int, g: Geometry) -> u16 {
    if x < g.right {
        x as u16
    } else {
        g.right
    }
}

/// The pitch class of a white key.
pub open spec fn white_pc(white: int) -> int {
    if white < 3 {
        white * 2
    } else {
        white * 2 - 1
    }
}

/// The letter of a white key.
pub open spec fn white_letter(white: int) -> char {
    if white == 0 {
        'C'
    } else if white == 1 {
        'D'
    } else if white == 2 {
        'E'
    } else if white == 3 {
        'F'
    } else if white == 4 {
        'G'
    } else if white == 5 {
        'A'
    } else {
        'B'
    }
}

/// What is painted for a white key: its body, its stripe, the seam on its left but for the first
/// key, and its letter.
pub open spec fn white_key(g: Geometry, state: KeyState, octave_offset: int, white: int) -> Seq<Paint> {
    let x = g.white_x(octave_offset, white);
    let row = (g.lower_end - 1) as u16;
    let (body_fg, body_bg) = (state.body_fg(false), state.body_bg(false));
    let (label_fg, stripe_bg) = (state.label_fg(false), state.stripe_bg(false));
    let blank = Paint {
        x0: x as u16,
        x1: clipped(x + g.white_w, g),
        y0: g.top,
        y1: row,
        ch: ' ',
        fg: body_fg,
        bg: Some(body_bg),
        bold: false,
    };
    let seam = Paint {
        x0: x as u16,
        x1: clipped(x + 1, g),
        y0: g.top,
        y1: row,
        ch: '│',
        fg: Shade::Seam,
        bg: Some(body_bg),
        bold: false,
    };
    let letter_x = x + (g.white_w - 1) / 2;
    seq![blank, Paint { y0: row, y1: g.lower_end, fg: label_fg, bg: Some(stripe_bg), ..blank }] + (if g.white_w >= 2 && !(
    octave_offset == 0 && white == 0) {
        seq![seam, Paint { y0: row, y1: g.lower_end, bg: Some(stripe_bg), ..seam }]
    } else {
        Seq::empty()
    }) + (if g.white_w >= 2 {
        seq![
            Paint {
                x0: letter_x as u16,
                x1: clipped(letter_x + 1, g),
                y0: row,
                y1: g.lower_end,
                ch: white_letter(white),
                fg: label_fg,
                bg: Some(stripe_bg),
                bold: state.is_root || state.is_held,
            },
        ]
    } else {
        Seq::empty()
    })
}

/// The white key that a black key follows.
pub open spec fn black_after(black: int) -> int {
    if black < 2 {
        black
    } else {
        black + 1
    }
}

/// What is painted for a black key: its body, its stripe, and its name where it is wide enough.
pub open spec fn black_key(g: Geometry, state: KeyState, octave_offset: int, black: int) -> Seq<Paint> {
    let x = g.white_x(octave_offset, black_after(black) + 1) - g.black_w / 2;
    let row = (g.upper_end - 1) as u16;
    let (label_fg, stripe_bg) = (state.label_fg(true), state.stripe_bg(true));
    let blank = Paint {
        x0: x as u16,
        x1: clipped(x + g.black_w, g),
        y0: g.top,
        y1: row,
        ch: ' ',
        fg: state.body_fg(true),
        bg: Some(state.body_bg(true)),
        bold: false,
    };
    let name_x = x + (g.black_w - 2) / 2;
    let letter = Paint {
        x0: name_x as u16,
        x1: clipped(name_x + 1, g),
        y0: row,
        y1: g.upper_end,
        ch: white_letter(black_after(black)),
        fg: label_fg,
        bg: Some(stripe_bg),
        bold: state.is_root || state.is_held,
    };
    seq![blank, Paint { y0: row, y1: g.upper_end, fg: label_fg, bg: Some(stripe_bg), ..blank }] + (if g.black_w >= 2 {
        seq![letter, Paint { x0: (name_x + 1) as u16, x1: clipped(name_x + 2, g), ch: '#', ..letter }]
    } else {
        Seq::empty()
    })
}

/// The name of an octave.
pub open spec fn octave_name(octave: int) -> Seq<char> {
    "C"@ + signed_decimal(octave)
}

/// How much of the name of an octave is painted: as much as a white key is wide.
pub open spec fn label_len(g: Geometry, octave_offset: int) -> nat {
    let len = octave_name(g.start_octave + octave_offset).len();
    if len < g.white_w {
        len
    } else {
        g.white_w as nat
    }
}

/// A character of the name of an octave, under its first key.
pub open spec fn label_char(g: Geometry, octave_offset: int, i: int) -> Paint {
    let x = g.white_x(octave_offset, 0) + i;
    Paint {
        x0: x as u16,
        x1: clipped(x + 1, g),
        y0: g.lower_end,
        y1: (g.lower_end + 1) as u16,
        ch: octave_name(g.start_octave + octave_offset)[i],
        fg: Shade::OctaveLabel,
        bg: None,
        bold: false,
    }
}

/// What is painted under the first key of an octave.
pub open spec fn octave_label(g: Geometry, octave_offset: int) -> Seq<Paint> {
    Seq::new(label_len(g, octave_offset), |i: int| label_char(g, octave_offset, i))
}

/// What is painted for the first `count` white keys, from the left; keys beyond the last note stay
/// out.
pub open spec fn white_keys(g: Geometry, held: Set<u8>, scale: ScaleSetting, count: int) -> Seq<Paint>
    decreases count,
{
    if count <= 0 {
        Seq::empty()
    } else {
        let rest = white_keys(g, held, scale, count - 1);
        let (octave_offset, white) = ((count - 1) / 7, (count - 1) % 7);
        let note = g.note(octave_offset, white_pc(white));
        if note <= 127 {
            rest + white_key(g, key_state(held, scale, note as u8), octave_offset, white)
        } else {
            rest
        }
    }
}

/// What is painted for the first `count` black keys, from the left.
pub open spec fn black_keys(g: Geometry, held: Set<u8>, scale: ScaleSetting, count: int) -> Seq<Paint>
    decreases count,
{
    if count <= 0 {
        Seq::empty()
    } else {
        let rest = black_keys(g, held, scale, count - 1);
        let (octave_offset, black) = ((count - 1) / 5, (count - 1) % 5);
        let note = g.note(octave_offset, white_pc(black_after(black)) + 1);
        if note <= 127 {
            rest + black_key(g, key_state(held, scale, note as u8), octave_offset, black)
        } else {
            rest
        }
    }
}

/// The names of the first `count` octaves.
pub open spec fn octave_labels(g: Geometry, count: int) -> Seq<Paint>
    decreases count,
{
    if count <= 0 {
        Seq::empty()
    } else {
        octave_labels(g, count - 1) + octave_label(g, count - 1)
    }
}

/// The keyboard: the white keys, the black keys over them, and the names of the octaves.
pub open spec fn keyboard(g: Geometry, held: Set<u8>, scale: ScaleSetting) -> Seq<Paint> {
    white_keys(g, held, scale, 7 * g.octaves) + black_keys(g, held, scale, 5 * g.octaves) + octave_labels(
        g,
        g.octaves as int,
    )
}

// ---------------------------------------------------------------------------
// Painting
// ---------------------------------------------------------------------------

/// The keys of an octave lie within the area.
proof fn lemma_white_x(g: Geometry, octave_offset: int, white: int)
    requires
        g.sound(),
        0 <= octave_offset < g.octaves,
        0 <= white <= 6,
    ensures
        g.left <= g.white_x(octave_offset, white),
        g.white_x(octave_offset, white) + g.white_w <= g.right,
        octave_offset * (7 * g.white_w) <= 350,
        0 <= octave_offset * (7 * g.white_w),
        0 <= white * g.white_w <= 30,
        white >= 1 ==> g.white_x(octave_offset, white) >= g.left + g.white_w,
{
    let w = g.white_w as int;
    let o = g.octaves as int;
    assert(octave_offset * (7 * w) + white * w + w <= 7 * w * o) by (nonlinear_arith)
        requires
            0 <= octave_offset < o,
            0 <= white <= 6,
            1 <= w,
    ;
    assert(0 <= octave_offset * (7 * w) <= 350) by (nonlinear_arith)
        requires
            0 <= octave_offset <= 10,
            1 <= w <= 5,
    ;
    assert(0 <= white * w <= 30) by (nonlinear_arith)
        requires
            0 <= white <= 6,
            1 <= w <= 5,
    ;
    assert(white >= 1 ==> white * w >= w) by (nonlinear_arith)
        requires
            1 <= w,
    ;
}

fn x_of(g: &Geometry, octave_offset: u16, white: u16) -> (x: u16)
    requires
        g.sound(),
        octave_offset < g.octaves,
        white <= 6,
    ensures
        x == g.white_x(octave_offset as int, white as int),
        g.left <= x,
        white >= 1 ==> x >= g.left + g.white_w,
        x + g.white_w <= g.right,
{
    proof {
        lemma_white_x(*g, octave_offset as int, white as int);
    }
    g.left + octave_offset * (7 * g.white_w) + white * g.white_w
}

fn letter_of(white: u16) -> (c: char)
    requires
        white <= 6,
    ensures
        c == white_letter(white as int),
{
    match white {
        0 => 'C',
        1 => 'D',
        2 => 'E',
        3 => 'F',
        4 => 'G',
        5 => 'A',
        _ => 'B',
    }
}

fn paint_white(out: &mut Vec<Paint>, g: &Geometry, state: KeyState, octave_offset: u16, white: u16)
    requires
        g.sound(),
        octave_offset < g.octaves,
        white <= 6,
    ensures
        final(out)@ == old(out)@ + white_key(*g, state, octave_offset as int, white as int),
{
    let x: u16 = x_of(g, octave_offset, white);
    let row: u16 = g.lower_end - 1;
    let (body_fg, body_bg) = state.body(false);
    let (label_fg, stripe_bg) = state.stripe(false);
    let blank = Paint {
        x0: x,
        x1: x + g.white_w,
        y0: g.top,
        y1: row,
        ch: ' ',
        fg: body_fg,
        bg: Some(body_bg),
        bold: false,
    };
    out.push(blank);
    out.push(Paint { y0: row, y1: g.lower_end, fg: label_fg, bg: Some(stripe_bg), ..blank });
    if g.white_w >= 2 && !(octave_offset == 0 && white == 0) {
        let seam = Paint {
            x0: x,
            x1: x + 1,
            y0: g.top,
            y1: row,
            ch: '│',
            fg: Shade::Seam,
            bg: Some(body_bg),
            bold: false,
        };
        out.push(seam);
        out.push(Paint { y0: row, y1: g.lower_end, bg: Some(stripe_bg), ..seam });
    }
    if g.white_w >= 2 {
        let letter_x: u16 = x + (g.white_w - 1) / 2;
        out.push(
            Paint {
                x0: letter_x,
                x1: letter_x + 1,
                y0: row,
                y1: g.lower_end,
                ch: letter_of(white),
                fg: label_fg,
                bg: Some(stripe_bg),
                bold: state.is_root || state.is_held,
            },
        );
    }
    assert(out@ =~= old(out)@ + white_key(*g, state, octave_offset as int, white as int));
}

fn paint_black(out: &mut Vec<Paint>, g: &Geometry, state: KeyState, octave_offset: u16, black: u16)
    requires
        g.sound(),
        octave_offset < g.octaves,
        black < 5,
    ensures
        final(out)@ == old(out)@ + black_key(*g, state, octave_offset as int, black as int),
{
    let after: u16 = if black < 2 {
        black
    } else {
        black + 1
    };
    let x: u16 = x_of(g, octave_offset, after + 1) - g.black_w / 2;
    let row: u16 = g.upper_end - 1;
    let (body_fg, body_bg) = state.body(true);
    let (label_fg, stripe_bg) = state.stripe(true);
    let blank = Paint {
        x0: x,
        x1: x + g.black_w,
        y0: g.top,
        y1: row,
        ch: ' ',
        fg: body_fg,
        bg: Some(body_bg),
        bold: false,
    };
    out.push(blank);
    out.push(Paint { y0: row, y1: g.upper_end, fg: label_fg, bg: Some(stripe_bg), ..blank });
    if g.black_w >= 2 {
        let name_x: u16 = x + (g.black_w - 2) / 2;
        let letter = Paint {
            x0: name_x,
            x1: name_x + 1,
            y0: row,
            y1: g.upper_end,
            ch: letter_of(after),
            fg: label_fg,
            bg: Some(stripe_bg),
            bold: state.is_root || state.is_held,
        };
        out.push(letter);
        out.push(Paint { x0: name_x + 1, x1: name_x + 2, ch: '#', ..letter });
    }
    assert(out@ =~= old(out)@ + black_key(*g, state, octave_offset as int, black as int));
}

fn note_of(g: &Geometry, octave_offset: u16, pc: u16) -> (note: u16)
    requires
        g.sound(),
        octave_offset < g.octaves,
        pc < 12,
    ensures
        note == g.note(octave_offset as int, pc as int),
{
    ((g.start_octave as i16 + octave_offset as i16 + 1) * 12 + pc as i16) as u16
}

fn paint_label(out: &mut Vec<Paint>, g: &Geometry, octave_offset: u16)
    requires
        g.sound(),
        octave_offset < g.octaves,
    ensures
        final(out)@ == old(out)@ + octave_label(*g, octave_offset as int),
{
    let x: u16 = x_of(g, octave_offset, 0);
    let mut name = "C".to_owned();
    push_signed(&mut name, g.start_octave as i64 + octave_offset as i64);
    let chars = to_chars(name.as_str());
    let ghost whole = octave_label(*g, octave_offset as int);
    let mut i: usize = 0;
    while i < chars.len() && i < g.white_w as usize
        invariant
            g.sound(),
            i <= chars@.len(),
            i <= g.white_w,
            chars@ == octave_name(g.start_octave + octave_offset),
            whole == octave_label(*g, octave_offset as int),
            x == g.white_x(octave_offset as int, 0),
            x + g.white_w <= g.right,
            out@ == old(out)@ + whole.take(i as int),
        decreases chars@.len() - i,
    {
        let at: u16 = x + i as u16;
        let paint = Paint {
            x0: at,
            x1: at + 1,
            y0: g.lower_end,
            y1: g.lower_end + 1,
            ch: chars[i],
            fg: Shade::OctaveLabel,
            bg: None,
            bold: false,
        };
        assert(paint == whole[i as int]);
        out.push(paint);
        assert(whole.take(i + 1) =~= whole.take(i as int).push(whole[i as int]));
        i = i + 1;
    }
    assert(whole.take(i as int) =~= whole);
}

/// What is painted for the keyboard in this area; nothing where it is too small.
pub fn render_keyboard(area: Area, held: &HeldNotes, scale: &ScaleSetting, center_octave: i8) -> (paints: Vec<Paint>)
    requires
        scale.scale_idx < SCALE_COUNT,
        area.x + area.width <= u16::MAX,
        area.y + area.height <= u16::MAX,
        center_octave - chosen_layout(area.width).0 / 2 >= i8::MIN,
    ensures
        paints@ == (if area.width < 14 || area.height < 4 {
            Seq::empty()
        } else {
            keyboard(geometry(area, center_octave), held@, *scale)
        }),
{
    let mut paints: Vec<Paint> = Vec::new();
    if area.width < 14 || area.height < 4 {
        return paints;
    }
    let g = lay_out(area, center_octave);
    let mut k: u16 = 0;
    while k < 7 * g.octaves
        invariant
            g.sound(),
            scale.scale_idx < SCALE_COUNT,
            k <= 7 * g.octaves,
            paints@ == white_keys(g, held@, *scale, k as int),
        decreases 7 * g.octaves - k,
    {
        let octave_offset: u16 = k / 7;
        let white: u16 = k % 7;
        let pc: u16 = if white < 3 {
            white * 2
        } else {
            white * 2 - 1
        };
        let note: u16 = note_of(&g, octave_offset, pc);
        if note <= 127 {
            let state = look_up(held, scale, note as u8);
            paint_white(&mut paints, &g, state, octave_offset, white);
        }
        k = k + 1;
    }
    let ghost whites = paints@;
    let mut k: u16 = 0;
    assert(whites + black_keys(g, held@, *scale, 0) =~= whites);
    while k < 5 * g.octaves
        invariant
            g.sound(),
            scale.scale_idx < SCALE_COUNT,
            k <= 5 * g.octaves,
            paints@ == whites + black_keys(g, held@, *scale, k as int),
        decreases 5 * g.octaves - k,
    {
        let octave_offset: u16 = k / 5;
        let black: u16 = k % 5;
        let pc: u16 = if black < 2 {
            black * 2 + 1
        } else {
            (black + 1) * 2
        };
        let note: u16 = note_of(&g, octave_offset, pc);
        if note <= 127 {
            let state = look_up(held, scale, note as u8);
            paint_black(&mut paints, &g, state, octave_offset, black);
        }
        k = k + 1;
    }
    let ghost keys = paints@;
    let mut k: u16 = 0;
    assert(keys + octave_labels(g, 0) =~= keys);
    while k < g.octaves
        invariant
            g.sound(),
            k <= g.octaves,
            paints@ == keys + octave_labels(g, k as int),
        decreases g.octaves - k,
    {
        paint_label(&mut paints, &g, k);
        k = k + 1;
    }
    paints
}

// ---------------------------------------------------------------------------
// Scale picker
// ---------------------------------------------------------------------------

/// A line of the scale picker.
#[derive(Debug)]
pub struct ScaleEntry {
    pub display: String,
    pub root: u8,
    pub scale_idx: usize,
}

impl View for ScaleEntry {
    type V = (Seq<char>, u8, usize);

    open spec fn view(&self) -> (Seq<char>, u8, usize) {
        (self.display@, self.root, self.scale_idx)
    }
}

/// The line at `index`: all scales on the first root, then on the next.
pub open spec fn scale_entry(index: int) -> (Seq<char>, u8, usize) {
    let root = index / SCALE_COUNT as int;
    let idx = index % SCALE_COUNT as int;
    (NOTE_NAMES@[root]@ + " "@ + SCALE_NAMES@[idx]@, root as u8, idx as usize)
}

/// The lines of the scale picker: every scale on every root.
pub fn scale_picker_entries() -> (entries: Vec<ScaleEntry>)
    ensures
        views(entries@) == Seq::new((12 * SCALE_COUNT) as nat, |i: int| scale_entry(i)),
{
    let mut entries: Vec<ScaleEntry> = Vec::new();
    let mut i: usize = 0;
    while i < 12 * SCALE_COUNT
        invariant
            i <= 12 * SCALE_COUNT,
            entries@.len() == i,
            forall|k: int| 0 <= k < i ==> (#[trigger] entries@[k])@ == scale_entry(k),
        decreases 12 * SCALE_COUNT - i,
    {
        let root: usize = i / SCALE_COUNT;
        let idx: usize = i % SCALE_COUNT;
        let mut display = NOTE_NAMES[root].to_owned();
        display.append(" ");
        display.append(SCALE_NAMES[idx]);
        entries.push(ScaleEntry { display, root: root as u8, scale_idx: idx });
        i = i + 1;
    }
    assert(views(entries@) =~= Seq::new((12 * SCALE_COUNT) as nat, |i: int| scale_entry(i)));
    entries
}

// ---------------------------------------------------------------------------
// Laws
// ---------------------------------------------------------------------------

/// Whether all that is painted stays inside an area.
pub open spec fn inside(paints: Seq<Paint>, g: Geometry) -> bool {
    forall|i: int|
        0 <= i < paints.len() ==> {
            let p = #[trigger] paints[i];
            g.left <= p.x0 && p.x0 <= p.x1 && p.x1 <= g.right && g.top <= p.y0 && p.y0 <= p.y1 && p.y1 <= g.lower_end
                + 1
        }
}

/// Everything that is painted for a keyboard stays inside the area that it is given.
pub proof fn keyboard_stays_inside(area: Area, center: i8, held: Set<u8>, scale: ScaleSetting)
    requires
        area.width >= 14,
        area.height >= 4,
        area.x + area.width <= u16::MAX,
        area.y + area.height <= u16::MAX,
    ensures
        geometry(area, center).sound(),
        inside(keyboard(geometry(area, center), held, scale), geometry(area, center)),
{
    let g = geometry(area, center);
    lemma_octaves_fit(area.width, 5);
    lemma_octaves_fit(area.width, 4);
    lemma_octaves_fit(area.width, 3);
    lemma_octaves_fit(area.width, 2);
    lemma_octaves_fit(area.width, 1);
    let (octaves, white_w) = chosen_layout(area.width);
    assert(7 * white_w * octaves <= area.width);
    assert(0 <= 7 * white_w * octaves) by (nonlinear_arith)
        requires
            white_w >= 1,
            octaves >= 2,
    ;
    lemma_whites_inside(g, held, scale, 7 * g.octaves);
    lemma_blacks_inside(g, held, scale, 5 * g.octaves);
    lemma_labels_inside(g, g.octaves as int);
}

proof fn lemma_whites_inside(g: Geometry, held: Set<u8>, scale: ScaleSetting, count: int)
    requires
        g.sound(),
        count <= 7 * g.octaves,
    ensures
        inside(white_keys(g, held, scale, count), g),
    decreases count,
{
    if count > 0 {
        lemma_whites_inside(g, held, scale, count - 1);
        lemma_white_x(g, (count - 1) / 7, (count - 1) % 7);
    }
}

proof fn lemma_blacks_inside(g: Geometry, held: Set<u8>, scale: ScaleSetting, count: int)
    requires
        g.sound(),
        count <= 5 * g.octaves,
    ensures
        inside(black_keys(g, held, scale, count), g),
    decreases count,
{
    if count > 0 {
        lemma_blacks_inside(g, held, scale, count - 1);
        lemma_white_x(g, (count - 1) / 5, black_after((count - 1) % 5) + 1);
    }
}

proof fn lemma_labels_inside(g: Geometry, count: int)
    requires
        g.sound(),
        count <= g.octaves,
    ensures
        inside(octave_labels(g, count), g),
    decreases count,
{
    if count > 0 {
        lemma_labels_inside(g, count - 1);
        lemma_white_x(g, count - 1, 0);
        let label = octave_label(g, count - 1);
        assert(label.len() <= g.white_w);
        assert(inside(label, g));
    }
}

} // verus!
