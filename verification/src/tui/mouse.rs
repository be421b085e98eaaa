//! What the mouse does. Hits that only a widget can tell are handed in.
use vstd::prelude::*;

use crate::tui::editor::{Editor, EditorView, TAB_COUNT};
use crate::tui::tree::{action_bar_hit, action_list, hits, Area};

verus! {

/// The columns of a parameter's row in front of its bar: the cursor, the name and a blank.
pub const BAR_OFFSET: u16 = 27;

/// The columns of a parameter's row that its bar does not get.
pub const BAR_MARGIN: u16 = 36;

/// Where things are on the screen.
#[derive(Clone, Copy, Debug)]
pub struct Areas {
    pub action_bar: Area,
    pub chain_inner: Area,
    pub param_inner: Area,
}

/// What the widgets say of a click: the tab under it, whether it is on the scrollbar of the
/// parameter list, and the offset that the scrollbar of the help gives.
#[derive(Clone, Copy, Debug)]
pub struct WidgetHit {
    pub tab: Option<usize>,
    pub param_scrollbar: bool,
    pub help_offset: Option<usize>,
}

/// What has to happen outside the editor after a mouse event.
#[derive(Clone, Copy, Debug)]
pub enum MouseEffect<F> {
    Nothing,
    /// The key is pressed.
    Press(char),
    /// The chain list is clicked; where it takes the click, [`Editor::chain_clicked`] follows.
    ClickChain,
    /// The parameter list is clicked, and [`Editor::param_clicked`] follows.
    ClickParam,
    /// The parameter list is scrolled from its scrollbar.
    ScrollParams,
    /// The help is scrolled from its scrollbar.
    ScrollHelp,
    /// The selected parameter is adjusted by one step.
    Adjust { up: bool },
    /// The selected parameter goes to this part of its range: `at` of `of`.
    SetPart { at: u16, of: u16, min: F, max: F },
}

impl Area {
    /// Whether a place is inside.
    pub open spec fn holds(self, x: u16, y: u16) -> bool {
        self.x <= x < self.end() && self.y <= y < self.bottom()
    }

    /// The row behind the last one; it stops at the largest there is.
    pub open spec fn bottom(self) -> int {
        if self.y + self.height > u16::MAX {
            u16::MAX as int
        } else {
            self.y + self.height
        }
    }

    /// Whether a place is inside.
    pub fn contains(&self, x: u16, y: u16) -> (r: bool)
        ensures
            r == self.holds(x, y),
    {
        self.x <= x && x < self.right() && self.y <= y && y < self.y.saturating_add(self.height)
    }

    /// Whether the area ends before the last column there can be.
    pub open spec fn fits(self) -> bool {
        self.x + self.width <= u16::MAX && self.x + BAR_OFFSET <= u16::MAX
    }
}

/// The width of the bars of a parameter list.
pub open spec fn bar_width(area: Area) -> int {
    if area.width >= BAR_MARGIN {
        area.width - BAR_MARGIN
    } else {
        0
    }
}

/// Where a column lies on the bars of a parameter list: so many of so many parts.
pub open spec fn bar_part(x: u16, area: Area) -> Option<(u16, u16)> {
    let start = area.x + BAR_OFFSET;
    if start <= x < start + bar_width(area) {
        Some(
            (
                (x - start) as u16,
                if bar_width(area) > 2 {
                    (bar_width(area) - 1) as u16
                } else {
                    1
                },
            ),
        )
    } else {
        None
    }
}

/// Where a column lies on the bars of a parameter list: so many of so many parts.
pub fn bar_value_at(x: u16, area: Area) -> (part: Option<(u16, u16)>)
    requires
        area.fits(),
    ensures
        part == bar_part(x, area),
        part matches Some((at, of)) ==> at <= of,
{
    let start: u16 = area.x + BAR_OFFSET;
    let width: u16 = area.width.saturating_sub(BAR_MARGIN);
    if width == 0 || x < start || x - start >= width {
        return None;
    }
    let of: u16 = if width > 2 {
        width - 1
    } else {
        1
    };
    Some((x - start, of))
}

/// Whether a click on a choice's row goes to the next choice, or to the one before: the right half
/// of what is behind the name, or the left one.
pub open spec fn choice_half(x: u16, area: Area) -> Option<bool> {
    let start = area.x + BAR_OFFSET;
    if start <= x < area.end() {
        Some(x >= start + (area.end() - start) / 2)
    } else {
        None
    }
}

impl<F> EditorView<F> {
    /// With nothing being dragged.
    pub open spec fn released(self) -> EditorView<F> {
        EditorView { scrollbar_dragging: false, param_dragging: false, param_scrollbar_dragging: false, ..self }
    }

    /// The left button goes down where no tab and no action is.
    pub open spec fn content_clicked(self, x: u16, y: u16, areas: Areas, hit: WidgetHit) -> (
        EditorView<F>,
        MouseEffect<F>,
    ) {
        if self.active_tab == 0 {
            if areas.chain_inner.holds(x, y) {
                (self, MouseEffect::ClickChain)
            } else if areas.param_inner.holds(x, y) {
                if hit.param_scrollbar {
                    (
                        EditorView { focus_params: true, param_scrollbar_dragging: true, ..self },
                        MouseEffect::ScrollParams,
                    )
                } else {
                    (EditorView { focus_params: true, ..self }, MouseEffect::ClickParam)
                }
            } else {
                (self, MouseEffect::Nothing)
            }
        } else if self.active_tab == 3 {
            match hit.help_offset {
                Some(offset) => (
                    EditorView { help_offset: offset, scrollbar_dragging: true, ..self },
                    MouseEffect::Nothing,
                ),
                None => (self, MouseEffect::Nothing),
            }
        } else {
            (self, MouseEffect::Nothing)
        }
    }

    /// Where the selected parameter is dragged to.
    pub open spec fn dragged_part(self, x: u16, area: Area) -> MouseEffect<F> {
        match (bar_part(x, area), self.param_range()) {
            (Some((at, of)), Some((min, max))) => MouseEffect::SetPart { at, of, min, max },
            _ => MouseEffect::Nothing,
        }
    }
}

impl<F: Copy> Editor<F> {
    /// The left button goes down.
    pub fn mouse_down(&mut self, x: u16, y: u16, areas: Areas, hit: WidgetHit) -> (effect: MouseEffect<F>)
        ensures
            ({
                let up = old(self)@.released();
                let bar = areas.action_bar;
                let actions = action_list(up.selected());
                let on_bar = up.active_tab == 0 && y == bar.y && bar.x <= x < bar.end();
                match hit.tab {
                    Some(tab) => (final(self)@, effect) == (
                        EditorView { active_tab: tab, ..up },
                        MouseEffect::<F>::Nothing,
                    ),
                    None => if on_bar && (exists|i: int| #[trigger] hits(actions, i, x - bar.x)) {
                        final(self)@ == up && exists|i: int|
                            #![trigger actions[i]]
                            hits(actions, i, x - bar.x) && effect == MouseEffect::<F>::Press(actions[i].0)
                    } else {
                        (final(self)@, effect) == up.content_clicked(x, y, areas, hit)
                    },
                }
            }),
            old(self)@.wf() && (hit.tab matches Some(tab) ==> tab < TAB_COUNT) ==> final(self)@.wf(),
    {
        self.scrollbar_dragging = false;
        self.param_dragging = false;
        self.param_scrollbar_dragging = false;
        if let Some(tab) = hit.tab {
            self.active_tab = tab;
            return MouseEffect::Nothing;
        }
        if self.active_tab == 0 {
            if let Some(key) = action_bar_hit(x, y, areas.action_bar, self.selected_address()) {
                return MouseEffect::Press(key);
            }
            if areas.chain_inner.contains(x, y) {
                MouseEffect::ClickChain
            } else if areas.param_inner.contains(x, y) {
                self.focus_params = true;
                if hit.param_scrollbar {
                    self.param_scrollbar_dragging = true;
                    MouseEffect::ScrollParams
                } else {
                    MouseEffect::ClickParam
                }
            } else {
                MouseEffect::Nothing
            }
        } else if self.active_tab == 3 {
            if let Some(offset) = hit.help_offset {
                self.help_offset = offset;
                self.scrollbar_dragging = true;
            }
            MouseEffect::Nothing
        } else {
            MouseEffect::Nothing
        }
    }

    /// The chain list has taken a click: the parameter list follows. Says which length it takes.
    pub fn chain_clicked(&mut self) -> (len: Option<usize>)
        ensures
            final(self)@ == (EditorView { focus_params: false, ..old(self)@ }).unfiltered().refiltered(),
            len == old(self)@.row_count(),
    {
        self.focus_params = false;
        self.sync_param_state()
    }

    /// The parameter list has taken a click: a choice goes on or back, a bar is set to where the
    /// click is, and follows the mouse from then on.
    pub fn param_clicked(&mut self, x: u16, area: Area) -> (effect: MouseEffect<F>)
        requires
            area.fits(),
        ensures
            (final(self)@, effect) == (if old(self)@.param_is_enum() {
                (
                    old(self)@,
                    match choice_half(x, area) {
                        Some(up) => MouseEffect::<F>::Adjust { up },
                        None => MouseEffect::<F>::Nothing,
                    },
                )
            } else {
                let part = old(self)@.dragged_part(x, area);
                (
                    if part is SetPart {
                        EditorView { param_dragging: true, ..old(self)@ }
                    } else {
                        old(self)@
                    },
                    part,
                )
            }),
    {
        if self.selected_param_is_enum() {
            let start: u16 = area.x + BAR_OFFSET;
            let end: u16 = area.right();
            if x >= start && x < end {
                let mid: u16 = start + (end - start) / 2;
                return MouseEffect::Adjust { up: x >= mid };
            }
            return MouseEffect::Nothing;
        }
        match (bar_value_at(x, area), self.selected_param_range()) {
            (Some((at, of)), Some((min, max))) => {
                self.param_dragging = true;
                MouseEffect::SetPart { at, of, min, max }
            },
            _ => MouseEffect::Nothing,
        }
    }

    /// The mouse moves with the left button down.
    pub fn mouse_drag(&self, x: u16, area: Area) -> (effect: MouseEffect<F>)
        requires
            area.fits(),
        ensures
            effect == (if self@.scrollbar_dragging && self@.active_tab == 3 {
                MouseEffect::<F>::ScrollHelp
            } else if self@.param_scrollbar_dragging && self@.active_tab == 0 {
                MouseEffect::<F>::ScrollParams
            } else if self@.param_dragging && self@.active_tab == 0 {
                self@.dragged_part(x, area)
            } else {
                MouseEffect::<F>::Nothing
            }),
    {
        if self.scrollbar_dragging && self.active_tab == 3 {
            MouseEffect::ScrollHelp
        } else if self.param_scrollbar_dragging && self.active_tab == 0 {
            MouseEffect::ScrollParams
        } else if self.param_dragging && self.active_tab == 0 {
            match (bar_value_at(x, area), self.selected_param_range()) {
                (Some((at, of)), Some((min, max))) => MouseEffect::SetPart { at, of, min, max },
                _ => MouseEffect::Nothing,
            }
        } else {
            MouseEffect::Nothing
        }
    }

    /// The left button comes up.
    pub fn mouse_up(&mut self)
        ensures
            final(self)@ == old(self)@.released(),
    {
        self.scrollbar_dragging = false;
        self.param_dragging = false;
        self.param_scrollbar_dragging = false;
    }
}

} // verus!
