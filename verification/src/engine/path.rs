//! File names and extensions of paths, as Unix and Windows write them.
use crate::text;
use vstd::prelude::*;
use vstd::string::*;

pub mod laws;

verus! {

/// How a system writes its paths.
#[derive(Debug, Clone, Copy, PartialEq, Eq, Structural)]
pub enum PathStyle {
    /// With `/` between the components.
    Unix,
    /// With `/` or `\` between the components, behind a drive or another prefix.
    Windows,
}

// ---------------------------------------------------------------------------------------
// Components
// ---------------------------------------------------------------------------------------

/// Whether a character stands between components. Behind a verbatim prefix only `\` does.
pub open spec fn separates(c: char, style: PathStyle, verbatim: bool) -> bool {
    (c == '/' && !verbatim) || (c == '\\' && style is Windows)
}

/// Where the last component begins.
pub open spec fn last_component(body: Seq<char>, style: PathStyle, verbatim: bool) -> int
    decreases body.len(),
{
    if body.len() == 0 || separates(body.last(), style, verbatim) {
        body.len() as int
    } else {
        last_component(body.drop_last(), style, verbatim)
    }
}

/// The last component of what follows a prefix, empty components and `.` aside. There is no
/// file name where that is `..`, nor where a verbatim path ends in `.`.
pub open spec fn name_in(body: Seq<char>, style: PathStyle, verbatim: bool) -> Option<Seq<char>>
    decreases body.len(),
{
    let cut = last_component(body, style, verbatim);
    let last = body.skip(cut);
    if last.len() == 0 || (last == "."@ && !verbatim) {
        if 0 < cut <= body.len() {
            name_in(body.take(cut - 1), style, verbatim)
        } else {
            None
        }
    } else if last == "."@ || last == ".."@ {
        None
    } else {
        Some(last)
    }
}

// ---------------------------------------------------------------------------------------
// The prefixes of Windows
// ---------------------------------------------------------------------------------------

pub open spec fn is_slash(c: char) -> bool {
    c == '/' || c == '\\'
}

/// Where the component that begins at `from` ends, in a Windows path.
pub open spec fn component_end(path: Seq<char>, from: int, verbatim: bool) -> int
    decreases path.len() - from,
{
    if 0 <= from < path.len() && !separates(path[from], PathStyle::Windows, verbatim) {
        component_end(path, from + 1, verbatim)
    } else {
        from
    }
}

/// Where the second of the components from `from` on ends. Where it is empty, where the first
/// ends.
pub open spec fn share_end(path: Seq<char>, from: int, verbatim: bool) -> int {
    let server = component_end(path, from, verbatim);
    if server < path.len() && component_end(path, server + 1, verbatim) > server + 1 {
        component_end(path, server + 1, verbatim)
    } else {
        server
    }
}

/// Whether a drive stands at `at`, a letter and a colon.
pub open spec fn has_drive(path: Seq<char>, at: int) -> bool {
    &&& at + 1 < path.len()
    &&& path[at + 1] == ':'
    &&& 'a' <= path[at] <= 'z' || 'A' <= path[at] <= 'Z'
}

/// Where the prefix of a Windows path ends, and whether it is verbatim: `C:`,
/// `\\server\share`, `\\.\device`, and the verbatim `\\?\C:`, `\\?\UNC\server\share` and
/// `\\?\name`. A path without a prefix ends it at its beginning.
pub open spec fn prefix(path: Seq<char>) -> (int, bool) {
    if path.len() >= 2 && is_slash(path[0]) && is_slash(path[1]) {
        if path.len() >= 4 && path.take(4) == seq!['\\', '\\', '?', '\\'] {
            if path.len() >= 8 && path.subrange(4, 7) == seq!['U', 'N', 'C'] && is_slash(path[7]) {
                (share_end(path, 8, true), true)
            } else if has_drive(path, 4) && (path.len() == 6 || is_slash(path[6])) {
                (6, true)
            } else {
                (component_end(path, 4, true), true)
            }
        } else if path.len() >= 4 && path[2] == '.' && is_slash(path[3]) {
            (component_end(path, 4, false), false)
        } else if 2 < component_end(path, 2, false) < share_end(path, 2, false) {
            (share_end(path, 2, false), false)
        } else {
            (0, false)
        }
    } else if has_drive(path, 0) {
        (2, false)
    } else {
        (0, false)
    }
}

/// Where the components of a Windows path begin: behind its prefix, and behind the separator
/// that follows it.
pub open spec fn body_start(path: Seq<char>) -> int {
    let end = prefix(path).0;
    if 0 <= end < path.len() && is_slash(path[end]) {
        end + 1
    } else {
        end
    }
}

/// The file name of a path, its last component.
pub open spec fn file_name(path: Seq<char>, style: PathStyle) -> Option<Seq<char>> {
    match style {
        PathStyle::Unix => name_in(path, style, false),
        PathStyle::Windows => name_in(path.skip(body_start(path)), style, prefix(path).1),
    }
}

/// What follows the last dot of the file name. A name whose only dot is its first character
/// has no extension.
pub open spec fn extension(path: Seq<char>, style: PathStyle) -> Option<Seq<char>> {
    match file_name(path, style) {
        Some(name) => match text::rfind(name, '.') {
            Some(dot) => if dot > 0 {
                Some(name.skip(dot + 1))
            } else {
                None
            },
            None => None,
        },
        None => None,
    }
}

// ---------------------------------------------------------------------------------------
// Lemmas
// ---------------------------------------------------------------------------------------

proof fn lemma_last_component(body: Seq<char>, style: PathStyle, verbatim: bool)
    ensures
        0 <= last_component(body, style, verbatim) <= body.len(),
    decreases body.len(),
{
    if body.len() > 0 && !separates(body.last(), style, verbatim) {
        lemma_last_component(body.drop_last(), style, verbatim);
    }
}

/// The characters of a name are characters of what it stands in.
proof fn lemma_name_chars(body: Seq<char>, style: PathStyle, verbatim: bool, c: char)
    requires
        !body.contains(c),
    ensures
        name_in(body, style, verbatim) matches Some(name) ==> !name.contains(c),
    decreases body.len(),
{
    lemma_last_component(body, style, verbatim);
    let cut = last_component(body, style, verbatim);
    let last = body.skip(cut);
    assert forall|i: int| 0 <= i < last.len() implies last[i] != c by {
        assert(last[i] == body[cut + i]);
    }
    if cut > 0 {
        let shorter = body.take(cut - 1);
        assert forall|i: int| 0 <= i < shorter.len() implies shorter[i] != c by {
            assert(shorter[i] == body[i]);
        }
        lemma_name_chars(shorter, style, verbatim, c);
    }
}

proof fn lemma_component_end(path: Seq<char>, from: int, verbatim: bool)
    requires
        0 <= from <= path.len(),
    ensures
        from <= component_end(path, from, verbatim) <= path.len(),
    decreases path.len() - from,
{
    if from < path.len() && !separates(path[from], PathStyle::Windows, verbatim) {
        lemma_component_end(path, from + 1, verbatim);
    }
}

proof fn lemma_share_end(path: Seq<char>, from: int, verbatim: bool)
    requires
        0 <= from <= path.len(),
    ensures
        from <= share_end(path, from, verbatim) <= path.len(),
{
    lemma_component_end(path, from, verbatim);
    let server = component_end(path, from, verbatim);
    if server < path.len() {
        lemma_component_end(path, server + 1, verbatim);
    }
}

/// A prefix stands within its path.
proof fn lemma_prefix(path: Seq<char>)
    ensures
        0 <= prefix(path).0 <= body_start(path) <= path.len(),
{
    if path.len() >= 2 {
        lemma_share_end(path, 2, false);
    }
    if path.len() >= 4 {
        lemma_component_end(path, 4, true);
        lemma_component_end(path, 4, false);
    }
    if path.len() >= 8 {
        lemma_share_end(path, 8, true);
    }
}

/// A path without a dot has no extension.
pub proof fn lemma_no_extension(path: Seq<char>, style: PathStyle)
    requires
        !path.contains('.'),
    ensures
        extension(path, style) is None,
{
    match style {
        PathStyle::Unix => {
            lemma_name_chars(path, style, false, '.');
        },
        PathStyle::Windows => {
            lemma_prefix(path);
            let start = body_start(path);
            let body = path.skip(start);
            assert forall|i: int| 0 <= i < body.len() implies body[i] != '.' by {
                assert(body[i] == path[start + i]);
            }
            lemma_name_chars(body, style, prefix(path).1, '.');
        },
    }
    match file_name(path, style) {
        Some(name) => {
            text::lemma_rfind(name, '.');
        },
        None => {},
    }
}

// ---------------------------------------------------------------------------------------
// Reading a path
// ---------------------------------------------------------------------------------------

fn is_separator(c: char, style: PathStyle, verbatim: bool) -> (r: bool)
    ensures
        r == separates(c, style, verbatim),
{
    (c == '/' && !verbatim) || (c == '\\' && style == PathStyle::Windows)
}

fn slash(c: char) -> (r: bool)
    ensures
        r == is_slash(c),
{
    c == '/' || c == '\\'
}

fn end_of_component(path: &Vec<char>, from: usize, verbatim: bool) -> (r: usize)
    requires
        from <= path.len(),
    ensures
        r == component_end(path@, from as int, verbatim),
        from <= r <= path.len(),
{
    let mut end = from;
    while end < path.len() && !is_separator(path[end], PathStyle::Windows, verbatim)
        invariant
            from <= end <= path.len(),
            component_end(path@, from as int, verbatim) == component_end(
                path@,
                end as int,
                verbatim,
            ),
        decreases path.len() - end,
    {
        end += 1;
    }
    end
}

fn end_of_share(path: &Vec<char>, from: usize, verbatim: bool) -> (r: usize)
    requires
        from <= path.len(),
    ensures
        r == share_end(path@, from as int, verbatim),
        from <= r <= path.len(),
{
    let server = end_of_component(path, from, verbatim);
    if server < path.len() {
        let share = end_of_component(path, server + 1, verbatim);
        if share > server + 1 {
            return share;
        }
    }
    server
}

fn drive_at(path: &Vec<char>, at: usize) -> (r: bool)
    requires
        at <= path.len(),
    ensures
        r == has_drive(path@, at as int),
{
    path.len() - at > 1 && path[at + 1] == ':' && (('a' <= path[at] && path[at] <= 'z') || ('A'
        <= path[at] && path[at] <= 'Z'))
}

/// Where the prefix of a Windows path ends, and whether it is verbatim.
fn read_prefix(path: &Vec<char>) -> (r: (usize, bool))
    ensures
        r.0 == prefix(path@).0,
        r.1 == prefix(path@).1,
        r.0 <= path.len(),
{
    let n = path.len();
    if n >= 2 && slash(path[0]) && slash(path[1]) {
        if n >= 4 && path[0] == '\\' && path[1] == '\\' && path[2] == '?' && path[3] == '\\' {
            assert(path@.take(4) == seq!['\\', '\\', '?', '\\']);
            if n >= 8 && path[4] == 'U' && path[5] == 'N' && path[6] == 'C' && slash(path[7]) {
                assert(path@.subrange(4, 7) == seq!['U', 'N', 'C']);
                return (end_of_share(path, 8, true), true);
            }
            proof {
                if n >= 8 && path@.subrange(4, 7) == seq!['U', 'N', 'C'] {
                    assert(path@.subrange(4, 7)[0] == path@[4]);
                    assert(path@.subrange(4, 7)[1] == path@[5]);
                    assert(path@.subrange(4, 7)[2] == path@[6]);
                }
            }
            if drive_at(path, 4) && (n == 6 || slash(path[6])) {
                return (6, true);
            }
            return (end_of_component(path, 4, true), true);
        }
        proof {
            if n >= 4 && path@.take(4) == seq!['\\', '\\', '?', '\\'] {
                assert(path@.take(4)[0] == path@[0]);
                assert(path@.take(4)[1] == path@[1]);
                assert(path@.take(4)[2] == path@[2]);
                assert(path@.take(4)[3] == path@[3]);
            }
        }
        if n >= 4 && path[2] == '.' && slash(path[3]) {
            return (end_of_component(path, 4, false), false);
        }
        let server = end_of_component(path, 2, false);
        let share = end_of_share(path, 2, false);
        if 2 < server && server < share {
            return (share, false);
        }
        return (0, false);
    }
    if drive_at(path, 0) {
        (2, false)
    } else {
        (0, false)
    }
}

fn read_name(body: &str, style: PathStyle, verbatim: bool) -> (r: Option<String>)
    ensures
        r is Some <==> name_in(body@, style, verbatim) is Some,
        r matches Some(name) ==> name_in(body@, style, verbatim) == Some(name@),
{
    let mut rest = text::chars(body);
    loop
        invariant
            rest@.is_prefix_of(body@),
            name_in(body@, style, verbatim) == name_in(rest@, style, verbatim),
        decreases rest.len(),
    {
        let mut cut = rest.len();
        assert(rest@.take(cut as int) == rest@);
        while cut > 0 && !is_separator(rest[cut - 1], style, verbatim)
            invariant
                cut <= rest.len(),
                last_component(rest@, style, verbatim) == last_component(
                    rest@.take(cut as int),
                    style,
                    verbatim,
                ),
            decreases cut,
        {
            assert(rest@.take(cut as int).drop_last() == rest@.take(cut - 1));
            cut -= 1;
        }
        assert(cut == last_component(rest@, style, verbatim));
        let last = body.substring_char(cut, rest.len());
        assert(last@ == rest@.skip(cut as int));
        let dot = text::same(last, ".");
        if last.is_empty() || (dot && !verbatim) {
            if cut == 0 {
                return None;
            }
            rest.truncate(cut - 1);
            assert(rest@ == body@.take(cut - 1));
        } else if dot || text::same(last, "..") {
            return None;
        } else {
            return Some(last.to_owned());
        }
    }
}

/// The file name of a path.
pub fn path_file_name(path: &str, style: PathStyle) -> (r: Option<String>)
    ensures
        r is Some <==> file_name(path@, style) is Some,
        r matches Some(name) ==> file_name(path@, style) == Some(name@),
{
    match style {
        PathStyle::Unix => read_name(path, style, false),
        PathStyle::Windows => {
            let cs = text::chars(path);
            let (end, verbatim) = read_prefix(&cs);
            let start = if end < cs.len() && slash(cs[end]) {
                end + 1
            } else {
                end
            };
            let body = path.substring_char(start, cs.len());
            assert(body@ == path@.skip(body_start(path@)));
            read_name(body, style, verbatim)
        },
    }
}

/// The extension of a path.
pub fn path_extension(path: &str, style: PathStyle) -> (r: Option<String>)
    ensures
        r is Some <==> extension(path@, style) is Some,
        r matches Some(ext) ==> extension(path@, style) == Some(ext@),
{
    match path_file_name(path, style) {
        Some(name) => {
            let cs = text::chars(name.as_str());
            match text::rfind_char(&cs, '.') {
                Some(dot) => {
                    if dot > 0 {
                        assert(name@.subrange(dot + 1, name@.len() as int) == name@.skip(dot + 1));
                        Some(name.as_str().substring_char(dot + 1, cs.len()).to_owned())
                    } else {
                        None
                    }
                },
                None => None,
            }
        },
        None => None,
    }
}

} // verus!
