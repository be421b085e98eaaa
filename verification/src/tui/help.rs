//! The help.
use vstd::prelude::*;

use crate::text::starts_with;

verus! {

/// The lines of the help.
pub const HELP: [&'static str; 45] = [
    "Tang — Terminal Audio Plugin Host",
    "",
    "Global keybindings:",
    "  1 2 3 4    Switch to tab by number",
    "  Tab        Next tab",
    "  Shift+Tab  Previous tab",
    "  Ctrl+S     Save session",
    "  Ctrl+Q     Quit",
    "",
    "Session tab (chain focus):",
    "  Up/Down    Navigate chain",
    "  Shift+↑/↓  Move effect up/down",
    "  Enter      Focus parameter list",
    "  i          Replace instrument",
    "  a          Add effect after selected",
    "  d          Delete selected",
    "  m          Add modulator",
    "  r          Record/stop pattern",
    "  Ctrl+R     Clear pattern",
    "  b          Set BPM",
    "  s          Add split to keyboard",
    "",
    "Modulator (chain focus):",
    "  t          Add modulation target",
    "  d          Delete modulator",
    "",
    "Session tab (param focus):",
    "  Up/Down    Navigate parameters",
    "  Left/Right Adjust value (5%)",
    "  Shift+←/→  Fine adjust (1%)",
    "  Ctrl+←/→   Coarse adjust (10%)",
    "  Enter      Type a value",
    "  /          Search parameters",
    "  Esc        Clear filter / back to chain",
    "",
    "Plugin selector:",
    "  Type       Filter by name/format",
    "  Up/Down    Navigate results",
    "  Enter      Confirm",
    "  Esc        Cancel",
    "",
    "Mouse:",
    "  Click      Select items, tabs, actions",
    "  Drag       Adjust parameter bars",
    "  Scroll     Navigate lists",
];

/// The lines of the help.
pub fn build_help_lines() -> (lines: Vec<String>)
    ensures
        lines@.len() == HELP@.len(),
        forall|i: int| 0 <= i < lines@.len() ==> (#[trigger] lines@[i])@ == HELP@[i]@,
{
    let mut lines: Vec<String> = Vec::new();
    let mut i: usize = 0;
    while i < HELP.len()
        invariant
            i <= HELP@.len(),
            lines@.len() == i,
            forall|k: int| 0 <= k < i ==> (#[trigger] lines@[k])@ == HELP@[k]@,
        decreases HELP@.len() - i,
    {
        lines.push(HELP[i].to_owned());
        i = i + 1;
    }
    lines
}

/// How a line of the help is shown.
#[derive(Clone, Copy, Debug, PartialEq, Eq, Structural)]
pub enum HelpStyle {
    Plain,
    Dim,
    Heading,
}

/// How a line of the help is shown: indented lines are plain, rules are dim, the rest are headings.
pub open spec fn style_of(line: Seq<char>) -> HelpStyle {
    if "  "@.is_prefix_of(line) {
        HelpStyle::Plain
    } else if "---"@.is_prefix_of(line) {
        HelpStyle::Dim
    } else {
        HelpStyle::Heading
    }
}

/// How a line of the help is shown.
pub fn help_style(line: &str) -> (style: HelpStyle)
    ensures
        style == style_of(line@),
{
    if starts_with(line, "  ") {
        HelpStyle::Plain
    } else if starts_with(line, "---") {
        HelpStyle::Dim
    } else {
        HelpStyle::Heading
    }
}

/// The size of a popup: so many hundredths of the screen, but not under a minimum, and not over the
/// screen.
pub open spec fn share(whole: u16, hundredths: u16, min: u16) -> u16 {
    let part = whole * hundredths / 100;
    let wanted = if part < min {
        min as int
    } else {
        part
    };
    if wanted < whole {
        wanted as u16
    } else {
        whole
    }
}

/// The size of a popup.
pub fn popup_extent(whole: u16, hundredths: u16, min: u16) -> (extent: u16)
    requires
        whole * hundredths <= u16::MAX,
    ensures
        extent == share(whole, hundredths, min),
{
    let part: u16 = whole * hundredths / 100;
    let wanted: u16 = if part < min {
        min
    } else {
        part
    };
    if wanted < whole {
        wanted
    } else {
        whole
    }
}

} // verus!
