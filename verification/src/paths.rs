//! Paths as text, by the rules of each operating system.
use vstd::prelude::*;

use crate::text::to_chars;

verus! {

/// The operating systems that the host runs on.
#[derive(Clone, Copy, Debug, PartialEq, Eq, Structural)]
pub enum System {
    Linux,
    Mac,
    Windows,
}

/// Whether a character separates the parts of a path.
pub open spec fn separates(system: System, c: char) -> bool {
    c == '/' || (system == System::Windows && c == '\\')
}

/// Where the part of a path that `from` stands in ends.
pub open spec fn part_end(system: System, s: Seq<char>, from: int) -> int
    decreases s.len() - from,
{
    if from >= s.len() {
        s.len() as int
    } else if separates(system, s[from]) {
        from
    } else {
        part_end(system, s, from + 1)
    }
}

/// Whether a path starts with a drive, such as "C:".
pub open spec fn has_drive(system: System, s: Seq<char>) -> bool {
    system == System::Windows && s.len() >= 2 && s[1] == ':' && ('a' <= s[0] <= 'z' || 'A' <= s[0] <= 'Z')
}

/// Where a server and a share that a path starts with end; 0 where it starts with none. A question
/// mark or a dot in the place of a server counts as one.
pub open spec fn share_len(system: System, s: Seq<char>) -> int {
    if system == System::Windows && s.len() >= 2 && separates(system, s[0]) && separates(system, s[1]) {
        let server = part_end(system, s, 2);
        let share = part_end(system, s, server + 1);
        if 2 < server && server + 1 < share {
            share
        } else {
            0
        }
    } else {
        0
    }
}

/// How many characters tell which file system a path is on: a drive, or a server and a share. Only
/// Windows has such paths.
pub open spec fn prefix_len(system: System, s: Seq<char>) -> int {
    if has_drive(system, s) {
        2
    } else {
        share_len(system, s)
    }
}

/// Whether a path stands for itself, wherever one is.
pub open spec fn absolute(system: System, s: Seq<char>) -> bool {
    if system != System::Windows {
        s.len() > 0 && s[0] == '/'
    } else if has_drive(system, s) {
        s.len() > 2 && separates(system, s[2])
    } else {
        share_len(system, s) > 0
    }
}

fn check_separator(system: System, c: char) -> (r: bool)
    ensures
        r == separates(system, c),
{
    c == '/' || (system == System::Windows && c == '\\')
}

fn check_drive(system: System, chars: &Vec<char>) -> (r: bool)
    ensures
        r == has_drive(system, chars@),
{
    if system != System::Windows || chars.len() < 2 || chars[1] != ':' {
        return false;
    }
    let c: char = chars[0];
    ('a' <= c && c <= 'z') || ('A' <= c && c <= 'Z')
}

proof fn lemma_part_end(system: System, s: Seq<char>, from: int)
    ensures
        from <= s.len() ==> from <= part_end(system, s, from) <= s.len(),
        from > s.len() ==> part_end(system, s, from) == s.len(),
    decreases s.len() - from,
{
    if from < s.len() && !separates(system, s[from]) {
        lemma_part_end(system, s, from + 1);
    }
}

fn find_part_end(system: System, chars: &Vec<char>, from: usize) -> (end: usize)
    requires
        from <= chars@.len(),
    ensures
        end == part_end(system, chars@, from as int),
        from <= end <= chars@.len(),
{
    let mut at: usize = from;
    while at < chars.len() && !check_separator(system, chars[at])
        invariant
            from <= at <= chars@.len(),
            part_end(system, chars@, from as int) == part_end(system, chars@, at as int),
        decreases chars@.len() - at,
    {
        at = at + 1;
    }
    at
}

fn find_share(system: System, chars: &Vec<char>) -> (len: usize)
    ensures
        len == share_len(system, chars@),
        len <= chars@.len(),
{
    let n: usize = chars.len();
    if system != System::Windows || n < 2 || !check_separator(system, chars[0]) || !check_separator(system, chars[1]) {
        return 0;
    }
    let server: usize = find_part_end(system, chars, 2);
    if server == n {
        proof {
            lemma_part_end(system, chars@, server + 1);
        }
        return 0;
    }
    let share: usize = find_part_end(system, chars, server + 1);
    if 2 < server && server + 1 < share {
        share
    } else {
        0
    }
}

fn find_prefix(system: System, chars: &Vec<char>) -> (len: usize)
    ensures
        len == prefix_len(system, chars@),
        len <= chars@.len(),
{
    if check_drive(system, chars) {
        2
    } else {
        find_share(system, chars)
    }
}

/// Whether a path stands for itself, wherever one is.
pub fn is_absolute(system: System, path: &str) -> (r: bool)
    ensures
        r == absolute(system, path@),
{
    let chars = to_chars(path);
    if system != System::Windows {
        chars.len() > 0 && chars[0] == '/'
    } else if check_drive(system, &chars) {
        chars.len() > 2 && check_separator(system, chars[2])
    } else {
        find_share(system, &chars) > 0
    }
}

// ---------------------------------------------------------------------------
// Putting paths together
// ---------------------------------------------------------------------------

/// A directory and a path from there as one path. A path that does not depend on the directory
/// stays as it is; one that starts at the root, on Windows, only takes over where the directory is
/// on.
pub open spec fn joined(system: System, dir: Seq<char>, name: Seq<char>) -> Seq<char> {
    if absolute(system, name) || prefix_len(system, name) > 0 {
        name
    } else if name.len() > 0 && separates(system, name[0]) {
        dir.take(prefix_len(system, dir)) + name
    } else if dir.len() == 0 || separates(system, dir.last()) || (dir.len() == 2 && has_drive(system, dir)) {
        dir + name
    } else if system == System::Windows {
        dir + "\\"@ + name
    } else {
        dir + "/"@ + name
    }
}

/// A directory and a path from there as one path.
pub fn join(system: System, dir: &str, name: &str) -> (path: String)
    ensures
        path@ == joined(system, dir@, name@),
{
    let names = to_chars(name);
    if is_absolute(system, name) || find_prefix(system, &names) > 0 {
        return name.to_owned();
    }
    let dirs = to_chars(dir);
    let n: usize = dirs.len();
    if names.len() > 0 && check_separator(system, names[0]) {
        let mut path = dir.substring_char(0, find_prefix(system, &dirs)).to_owned();
        path.append(name);
        assert(path@ =~= joined(system, dir@, name@));
        return path;
    }
    let mut path = dir.to_owned();
    let whole: bool = n == 0 || check_separator(system, dirs[n - 1]) || (n == 2 && check_drive(system, &dirs));
    if !whole {
        if system == System::Windows {
            path.append("\\");
        } else {
            path.append("/");
        }
    }
    path.append(name);
    assert(path@ =~= joined(system, dir@, name@));
    path
}

// ---------------------------------------------------------------------------
// Taking paths apart
// ---------------------------------------------------------------------------

/// Where the last part of a path up to `end` starts: behind a separator, or behind the prefix.
pub open spec fn piece_start(system: System, s: Seq<char>, end: int) -> int
    decreases end,
{
    if end <= prefix_len(system, s) || end <= 0 {
        prefix_len(system, s)
    } else if separates(system, s[end - 1]) {
        end
    } else {
        piece_start(system, s, end - 1)
    }
}

/// The last part of a path, up to `end`, that names something: empty parts and single dots are
/// passed over.
pub open spec fn last_piece(system: System, s: Seq<char>, end: int) -> Option<(int, int)>
    decreases end,
{
    let start = piece_start(system, s, end);
    if start < 0 || start > end {
        None
    } else if start < end && s.subrange(start, end) != "."@ {
        Some((start, end))
    } else if start <= prefix_len(system, s) || start <= 0 {
        None
    } else {
        last_piece(system, s, start - 1)
    }
}

/// Where the last dot of `s` before `end` stands, if it stands behind `start`.
pub open spec fn last_dot(s: Seq<char>, start: int, end: int) -> Option<int>
    decreases end - start,
{
    if end <= start {
        None
    } else if s[end - 1] == '.' {
        Some(end - 1)
    } else {
        last_dot(s, start, end - 1)
    }
}

/// A path's file name without its extension; none where the path ends in two dots or names nothing.
pub open spec fn file_stem(system: System, s: Seq<char>) -> Option<(int, int)> {
    match last_piece(system, s, s.len() as int) {
        Some((start, end)) => if s.subrange(start, end) == ".."@ {
            None
        } else {
            match last_dot(s, start, end) {
                Some(dot) => if dot > start {
                    Some((start, dot))
                } else {
                    Some((start, end))
                },
                None => Some((start, end)),
            }
        },
        None => None,
    }
}

proof fn lemma_piece_start(system: System, s: Seq<char>, end: int)
    requires
        prefix_len(system, s) <= end <= s.len(),
    ensures
        prefix_len(system, s) <= piece_start(system, s, end) <= end,
    decreases end,
{
    if end > prefix_len(system, s) && !separates(system, s[end - 1]) {
        lemma_piece_start(system, s, end - 1);
    }
}

fn find_piece(system: System, chars: &Vec<char>) -> (piece: Option<(usize, usize)>)
    ensures
        match piece {
            Some((start, end)) => last_piece(system, chars@, chars@.len() as int) == Some((start as int, end as int))
                && start < end <= chars@.len(),
            None => last_piece(system, chars@, chars@.len() as int) is None,
        },
{
    proof {
        reveal_strlit(".");
    }
    let prefix: usize = find_prefix(system, chars);
    let mut end: usize = chars.len();
    while end > prefix
        invariant
            prefix <= end <= chars@.len(),
            prefix == prefix_len(system, chars@),
            last_piece(system, chars@, chars@.len() as int) == last_piece(system, chars@, end as int),
        decreases end,
    {
        let mut start: usize = end;
        while start > prefix && !check_separator(system, chars[start - 1])
            invariant
                prefix <= start <= end <= chars@.len(),
                prefix == prefix_len(system, chars@),
                piece_start(system, chars@, end as int) == piece_start(system, chars@, start as int),
            decreases start,
        {
            start = start - 1;
        }
        proof {
            lemma_piece_start(system, chars@, end as int);
        }
        let dot: bool = end - start == 1 && chars[start] == '.';
        proof {
            reveal_strlit(".");
            let part = chars@.subrange(start as int, end as int);
            if dot {
                assert(part =~= "."@);
            } else if part == "."@ {
                assert(part.len() == 1 && part[0] == chars@[start as int]);
            }
        }
        if start < end && !dot {
            return Some((start, end));
        }
        if start == prefix {
            return None;
        }
        end = start - 1;
    }
    None
}

/// A path's file name without its extension.
pub fn find_stem(system: System, chars: &Vec<char>) -> (stem: Option<(usize, usize)>)
    ensures
        match stem {
            Some((start, end)) => file_stem(system, chars@) == Some((start as int, end as int)) && start <= end
                <= chars@.len(),
            None => file_stem(system, chars@) is None,
        },
{
    let (start, end) = match find_piece(system, chars) {
        Some(piece) => piece,
        None => return None,
    };
    let dots: bool = end - start == 2 && chars[start] == '.' && chars[start + 1] == '.';
    proof {
        reveal_strlit("..");
        let part = chars@.subrange(start as int, end as int);
        if dots {
            assert(part =~= ".."@);
        } else if part == ".."@ {
            assert(part.len() == end - start && part.len() == 2);
            assert(part[0] == '.' && part[1] == '.');
        }
    }
    if dots {
        return None;
    }
    let mut at: usize = end;
    while at > start && chars[at - 1] != '.'
        invariant
            start <= at <= end <= chars@.len(),
            last_dot(chars@, start as int, end as int) == last_dot(chars@, start as int, at as int),
        decreases at,
    {
        at = at - 1;
    }
    if at > start + 1 {
        Some((start, at - 1))
    } else {
        Some((start, end))
    }
}

} // verus!
