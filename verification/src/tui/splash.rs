//! What the splash screen shows while a session loads.
use vstd::prelude::*;

use crate::paths::{file_stem, find_stem, System};
use crate::text::{decimal, has_char, push_decimal, starts_with, to_chars};

verus! {

/// The logo, row by row.
pub const LOGO: [&'static str; 6] = [
    "████████╗ █████╗ ███╗   ██╗ ██████╗ ",
    "╚══██╔══╝██╔══██╗████╗  ██║██╔════╝ ",
    "   ██║   ███████║██╔██╗ ██║██║  ███╗",
    "   ██║   ██╔══██║██║╚██╗██║██║   ██║",
    "   ██║   ██║  ██║██║ ╚████║╚██████╔╝",
    "   ╚═╝   ╚═╝  ╚═╝╚═╝  ╚═══╝ ╚═════╝ ",
];

/// What stands under the logo.
pub const TAGLINE: &'static str = "terminal audio plugin host";

/// The frames of the spinner.
pub const SPINNER: [&'static str; 10] = ["⠋", "⠙", "⠹", "⠸", "⠼", "⠴", "⠦", "⠧", "⠇", "⠏"];

/// The columns of the progress bar.
pub const BAR_WIDTH: usize = 36;

/// How many columns of the progress bar are filled; no bar where there is nothing to load.
pub open spec fn filled_columns(done: int, total: int) -> Option<int> {
    if total == 0 {
        None
    } else if done >= total {
        Some(BAR_WIDTH as int)
    } else {
        Some(done * BAR_WIDTH / total)
    }
}

/// How many columns of the progress bar are filled; no bar where there is nothing to load.
pub fn bar_fill(done: usize, total: usize) -> (filled: Option<usize>)
    requires
        done * BAR_WIDTH <= usize::MAX,
    ensures
        match filled {
            Some(n) => filled_columns(done as int, total as int) == Some(n as int) && n <= BAR_WIDTH,
            None => total == 0,
        },
{
    if total == 0 {
        return None;
    }
    let filled: usize = done * BAR_WIDTH / total;
    proof {
        let d = done as int;
        let t = total as int;
        assert(d >= t ==> d * 36 / t >= 36) by (nonlinear_arith)
            requires
                t > 0,
        ;
        assert(d < t ==> d * 36 / t <= 36) by (nonlinear_arith)
            requires
                t > 0,
                d >= 0,
        ;
    }
    if filled < BAR_WIDTH {
        Some(filled)
    } else {
        Some(BAR_WIDTH)
    }
}

/// A character so many times.
pub open spec fn repeated(c: char, count: int) -> Seq<char> {
    Seq::new(count as nat, |i: int| c)
}

/// The progress bar, and how much is done: "▓▓░░ 1/2".
pub open spec fn progress_text(done: int, total: int) -> Option<(Seq<char>, Seq<char>)> {
    match filled_columns(done, total) {
        Some(n) => Some(
            (
                repeated('▓', n) + repeated('░', BAR_WIDTH - n),
                " "@ + decimal(done as nat) + "/"@ + decimal(total as nat),
            ),
        ),
        None => None,
    }
}

fn push_repeated(out: &mut String, c: char, count: usize)
    ensures
        final(out)@ == old(out)@ + repeated(c, count as int),
{
    let mut i: usize = 0;
    assert(old(out)@ + repeated(c, 0) =~= old(out)@);
    while i < count
        invariant
            i <= count,
            out@ == old(out)@ + repeated(c, i as int),
        decreases count - i,
    {
        out.push(c);
        assert(out@ =~= old(out)@ + repeated(c, i + 1));
        i = i + 1;
    }
}

/// The progress bar, and how much is done.
pub fn progress_line(done: usize, total: usize) -> (line: Option<(String, String)>)
    requires
        done * BAR_WIDTH <= usize::MAX,
    ensures
        match line {
            Some((bar, text)) => progress_text(done as int, total as int) == Some((bar@, text@)),
            None => progress_text(done as int, total as int) is None,
        },
{
    match bar_fill(done, total) {
        Some(filled) => {
            let mut bar = String::new();
            push_repeated(&mut bar, '▓', filled);
            push_repeated(&mut bar, '░', BAR_WIDTH - filled);
            assert(bar@ =~= repeated('▓', filled as int) + repeated('░', BAR_WIDTH - filled));
            let mut text = " ".to_owned();
            push_decimal(&mut text, done as u64);
            text.append("/");
            push_decimal(&mut text, total as u64);
            Some((bar, text))
        },
        None => None,
    }
}

// ---------------------------------------------------------------------------
// Names
// ---------------------------------------------------------------------------

/// Whether a text is a path of several parts.
pub open spec fn has_parts(system: System, s: Seq<char>) -> bool {
    s.contains('/') || (system == System::Windows && s.contains('\\'))
}

/// A short name for a plugin source: format prefixes go, and of a path only the file name without
/// its extension stays.
pub open spec fn short_name(system: System, s: Seq<char>) -> Seq<char> {
    if "lv2:"@.is_prefix_of(s) {
        s.skip("lv2:"@.len() as int)
    } else if "clap:"@.is_prefix_of(s) {
        s.skip("clap:"@.len() as int)
    } else if "vst3:"@.is_prefix_of(s) {
        s.skip("vst3:"@.len() as int)
    } else if "builtin:"@.is_prefix_of(s) {
        s.skip("builtin:"@.len() as int)
    } else if has_parts(system, s) && !"http"@.is_prefix_of(s) {
        match file_stem(system, s) {
            Some((start, end)) => s.subrange(start, end),
            None => s,
        }
    } else {
        s
    }
}

fn check_parts(system: System, s: &str) -> (r: bool)
    ensures
        r == has_parts(system, s@),
{
    has_char(s, '/') || (system == System::Windows && has_char(s, '\\'))
}

/// A short name for a plugin source, for status lines: "vst3:Pianoteq 9" is "Pianoteq 9", and
/// "./fx/reverb.lv2" is "reverb".
pub fn display_name(system: System, source: &str) -> (name: String)
    ensures
        name@ == short_name(system, source@),
{
    if starts_with(source, "lv2:") {
        return source.substring_char("lv2:".unicode_len(), source.unicode_len()).to_owned();
    }
    if starts_with(source, "clap:") {
        return source.substring_char("clap:".unicode_len(), source.unicode_len()).to_owned();
    }
    if starts_with(source, "vst3:") {
        return source.substring_char("vst3:".unicode_len(), source.unicode_len()).to_owned();
    }
    if starts_with(source, "builtin:") {
        return source.substring_char("builtin:".unicode_len(), source.unicode_len()).to_owned();
    }
    if check_parts(system, source) && !starts_with(source, "http") {
        match find_stem(system, &to_chars(source)) {
            Some((start, end)) => source.substring_char(start, end).to_owned(),
            None => source.to_owned(),
        }
    } else {
        source.to_owned()
    }
}

} // verus!
