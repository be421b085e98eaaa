//! The scale that the piano is set to, and whether notes off the scale are let through.
use vstd::prelude::*;

use crate::scale::{ScaleSetting, SCALE_COUNT};

verus! {

/// What happens to notes off the scale.
#[derive(Clone, Copy, Debug, PartialEq, Eq, Structural)]
pub enum PianoMode {
    /// They sound, and are marked as wrong notes.
    Highlight,
    /// They are dropped where they come from.
    Locked,
}

impl PianoMode {
    /// The name of the mode.
    pub open spec fn text(self) -> Seq<char> {
        match self {
            PianoMode::Highlight => "Highlight"@,
            PianoMode::Locked => "Locked"@,
        }
    }

    /// The name of the mode.
    pub fn label(self) -> (label: &'static str)
        ensures
            label@ == self.text(),
    {
        match self {
            PianoMode::Highlight => "Highlight",
            PianoMode::Locked => "Locked",
        }
    }
}

/// Scale and mode, packed into bytes.
#[derive(Clone, Copy, Debug, PartialEq, Eq, Structural)]
pub struct PianoFilter {
    pub root: u8,
    pub scale_idx: u8,
    pub locked: bool,
}

impl PianoFilter {
    /// The scale that is set.
    pub open spec fn setting(self) -> ScaleSetting {
        ScaleSetting { root: self.root, scale_idx: self.scale_idx as usize }
    }

    /// The mode that is set.
    pub open spec fn current_mode(self) -> PianoMode {
        if self.locked {
            PianoMode::Locked
        } else {
            PianoMode::Highlight
        }
    }

    /// A filter with this scale and mode.
    pub fn new(scale: ScaleSetting, mode: PianoMode) -> (f: Self)
        ensures
            f == (PianoFilter {
                root: scale.root,
                scale_idx: scale.scale_idx as u8,
                locked: mode == PianoMode::Locked,
            }),
            scale.scale_idx < 256 ==> f.setting() == scale,
            f.current_mode() == mode,
    {
        PianoFilter { root: scale.root, scale_idx: scale.scale_idx as u8, locked: matches!(mode, PianoMode::Locked) }
    }

    /// The scale that is set.
    pub fn scale(&self) -> (s: ScaleSetting)
        ensures
            s == self.setting(),
    {
        ScaleSetting { root: self.root, scale_idx: self.scale_idx as usize }
    }

    /// Sets the scale.
    pub fn set_scale(&mut self, scale: ScaleSetting)
        ensures
            *final(self) == (PianoFilter {
                root: scale.root,
                scale_idx: scale.scale_idx as u8,
                locked: old(self).locked,
            }),
            scale.scale_idx < 256 ==> final(self).setting() == scale,
    {
        self.root = scale.root;
        self.scale_idx = scale.scale_idx as u8;
    }

    /// The mode that is set.
    pub fn mode(&self) -> (m: PianoMode)
        ensures
            m == self.current_mode(),
    {
        if self.locked {
            PianoMode::Locked
        } else {
            PianoMode::Highlight
        }
    }

    /// Sets the mode.
    pub fn set_mode(&mut self, mode: PianoMode)
        ensures
            *final(self) == (PianoFilter { locked: mode == PianoMode::Locked, ..*old(self) }),
            final(self).current_mode() == mode,
    {
        self.locked = matches!(mode, PianoMode::Locked);
    }

    /// Whether a note-on is to be dropped: off the scale, while locked. Note-offs are never
    /// dropped.
    pub fn block_note_on(&self, note: u8) -> (r: bool)
        requires
            self.locked ==> self.scale_idx < SCALE_COUNT,
        ensures
            r == (self.current_mode() == PianoMode::Locked && !self.setting().has(note as int)),
    {
        self.locked && !self.scale().contains(note)
    }
}

} // verus!
