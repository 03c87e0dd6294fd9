//! What file names and extensions are, told by the characters of a path.
use super::{
    component_end, extension, file_name, is_slash, last_component, name_in, prefix, separates,
    PathStyle,
};
use crate::text::{lemma_rfind, lemma_rfind_is};
use vstd::prelude::*;

verus! {

// ---------------------------------------------------------------------------------------
// Extensions
// ---------------------------------------------------------------------------------------

/// The extension is what follows the last dot of a file name, where something stands before
/// that dot.
pub proof fn law_extension_follows_the_last_dot(
    path: Seq<char>,
    style: PathStyle,
    stem: Seq<char>,
    ext: Seq<char>,
)
    requires
        file_name(path, style) == Some(stem + seq!['.'] + ext),
        !ext.contains('.'),
    ensures
        stem.len() > 0 ==> extension(path, style) == Some(ext),
        stem.len() == 0 ==> extension(path, style) is None,
{
    let name = stem + seq!['.'] + ext;
    let dot = stem.len() as int;
    assert(name[dot] == '.');
    assert forall|j: int| dot < j < name.len() implies name[j] != '.' by {
        assert(name[j] == ext[j - dot - 1]);
    }
    lemma_rfind_is(name, '.', dot);
    assert(name.skip(dot + 1) == ext);
}

/// A file name without a dot has no extension, and neither has a path without a file name.
pub proof fn law_no_extension(path: Seq<char>, style: PathStyle)
    requires
        file_name(path, style) matches Some(name) ==> !name.contains('.'),
    ensures
        extension(path, style) is None,
{
    match file_name(path, style) {
        Some(name) => {
            lemma_rfind(name, '.');
        },
        None => {},
    }
}

// ---------------------------------------------------------------------------------------
// File names of Unix
// ---------------------------------------------------------------------------------------

/// Where a separator is followed by none, the last component begins behind it.
proof fn lemma_last(before: Seq<char>, c: char, last: Seq<char>, style: PathStyle, verbatim: bool)
    requires
        separates(c, style, verbatim),
        forall|i: int| 0 <= i < last.len() ==> !separates(#[trigger] last[i], style, verbatim),
    ensures
        last_component(before + seq![c] + last, style, verbatim) == before.len() + 1,
        (before + seq![c] + last).skip(before.len() as int + 1) == last,
        (before + seq![c] + last).take(before.len() as int) == before,
    decreases last.len(),
{
    let s = before + seq![c] + last;
    assert(s.skip(before.len() as int + 1) == last);
    assert(s.take(before.len() as int) == before);
    if last.len() == 0 {
        assert(s.last() == c);
    } else {
        assert(s.last() == last.last());
        let shorter = last.drop_last();
        assert(s.drop_last() == before + seq![c] + shorter);
        assert forall|i: int| 0 <= i < shorter.len() implies !separates(
            #[trigger] shorter[i],
            style,
            verbatim,
        ) by {
            assert(shorter[i] == last[i]);
        }
        lemma_last(before, c, shorter, style, verbatim);
    }
}

/// Without a separator the last component begins with the text.
proof fn lemma_only(last: Seq<char>, style: PathStyle, verbatim: bool)
    requires
        forall|i: int| 0 <= i < last.len() ==> !separates(#[trigger] last[i], style, verbatim),
    ensures
        last_component(last, style, verbatim) == 0,
        last.skip(0) == last,
    decreases last.len(),
{
    assert(last.skip(0) == last);
    if last.len() > 0 {
        let shorter = last.drop_last();
        assert forall|i: int| 0 <= i < shorter.len() implies !separates(
            #[trigger] shorter[i],
            style,
            verbatim,
        ) by {
            assert(shorter[i] == last[i]);
        }
        lemma_only(shorter, style, verbatim);
    }
}

/// What a component at the end of some text makes its name.
proof fn lemma_name(before: Seq<char>, c: char, last: Seq<char>, style: PathStyle, verbatim: bool)
    requires
        separates(c, style, verbatim),
        forall|i: int| 0 <= i < last.len() ==> !separates(#[trigger] last[i], style, verbatim),
    ensures
        ({
            let name = name_in(before + seq![c] + last, style, verbatim);
            &&& last.len() == 0 || (last == seq!['.'] && !verbatim) ==> name == name_in(
                before,
                style,
                verbatim,
            )
            &&& last == seq!['.', '.'] || (last == seq!['.'] && verbatim) ==> name is None
            &&& last.len() > 0 && last != seq!['.'] && last != seq!['.', '.'] ==> name == Some(last)
        }),
{
    reveal_strlit(".");
    reveal_strlit("..");
    lemma_last(before, c, last, style, verbatim);
    assert("."@ == seq!['.']);
    assert(".."@ == seq!['.', '.']);
    assert((before + seq![c] + last).take(before.len() + 1 - 1) == before);
}

/// What a component by itself makes its name.
proof fn lemma_single_name(last: Seq<char>, style: PathStyle, verbatim: bool)
    requires
        forall|i: int| 0 <= i < last.len() ==> !separates(#[trigger] last[i], style, verbatim),
    ensures
        ({
            let name = name_in(last, style, verbatim);
            &&& last.len() == 0 || last == seq!['.'] || last == seq!['.', '.'] ==> name is None
            &&& last.len() > 0 && last != seq!['.'] && last != seq!['.', '.'] ==> name == Some(last)
        }),
{
    reveal_strlit(".");
    reveal_strlit("..");
    lemma_only(last, style, verbatim);
    assert("."@ == seq!['.']);
    assert(".."@ == seq!['.', '.']);
}

/// The file name of a Unix path is its last component, behind any directory.
pub proof fn law_unix_file_name(directory: Seq<char>, name: Seq<char>)
    requires
        name.len() > 0,
        !name.contains('/'),
        name != seq!['.'],
        name != seq!['.', '.'],
    ensures
        file_name(name, PathStyle::Unix) == Some(name),
        file_name(directory + seq!['/'] + name, PathStyle::Unix) == Some(name),
{
    assert(forall|i: int| 0 <= i < name.len() ==> name.contains(#[trigger] name[i]));
    lemma_single_name(name, PathStyle::Unix, false);
    lemma_name(directory, '/', name, PathStyle::Unix, false);
}

/// A slash at the end of a Unix path, and a `.` behind it, change nothing of its file name.
/// A path that ends in `..` has none, and neither has an empty path or `.`.
pub proof fn law_unix_endings(path: Seq<char>)
    ensures
        file_name(path + seq!['/'], PathStyle::Unix) == file_name(path, PathStyle::Unix),
        file_name(path + seq!['/', '.'], PathStyle::Unix) == file_name(path, PathStyle::Unix),
        file_name(path + seq!['/', '.', '.'], PathStyle::Unix) is None,
        file_name(seq!['.', '.'], PathStyle::Unix) is None,
        file_name(seq!['.'], PathStyle::Unix) is None,
        file_name(Seq::empty(), PathStyle::Unix) is None,
{
    lemma_name(path, '/', Seq::empty(), PathStyle::Unix, false);
    lemma_name(path, '/', seq!['.'], PathStyle::Unix, false);
    lemma_name(path, '/', seq!['.', '.'], PathStyle::Unix, false);
    lemma_single_name(seq!['.', '.'], PathStyle::Unix, false);
    lemma_single_name(seq!['.'], PathStyle::Unix, false);
    lemma_single_name(Seq::empty(), PathStyle::Unix, false);
    assert(path + seq!['/'] == path + seq!['/'] + Seq::<char>::empty());
    assert(path + seq!['/', '.'] == path + seq!['/'] + seq!['.']);
    assert(path + seq!['/', '.', '.'] == path + seq!['/'] + seq!['.', '.']);
}

// ---------------------------------------------------------------------------------------
// File names of Windows
// ---------------------------------------------------------------------------------------

/// Whether a path begins with two slashes of either kind, as those on shares and devices do.
pub open spec fn begins_with_slashes(path: Seq<char>) -> bool {
    path.len() >= 2 && (path[0] == '/' || path[0] == '\\') && (path[1] == '/' || path[1] == '\\')
}

/// Whether a path begins with a letter and a colon.
pub open spec fn begins_with_drive(path: Seq<char>) -> bool {
    path.len() >= 2 && path[1] == ':' && ('a' <= path[0] <= 'z' || 'A' <= path[0] <= 'Z')
}

/// A slash at the beginning changes nothing of a name.
proof fn lemma_leading_slash(c: char, body: Seq<char>, style: PathStyle, verbatim: bool)
    requires
        separates(c, style, verbatim),
    ensures
        name_in(seq![c] + body, style, verbatim) == name_in(body, style, verbatim),
    decreases body.len(),
{
    reveal_strlit(".");
    let cut = last_component(body, style, verbatim);
    lemma_cut(body, style, verbatim);
    let last = body.skip(cut);
    let whole = seq![c] + body;
    if cut == 0 {
        assert(body == last);
        let none = Seq::<char>::empty();
        assert(whole == none + seq![c] + last);
        lemma_last(none, c, last, style, verbatim);
        assert(whole.skip(1) == last);
        assert(whole.take(0) == none);
        lemma_single_name(none, style, verbatim);
    } else {
        let before = body.take(cut - 1);
        let d = body[cut - 1];
        assert(body == before + seq![d] + last);
        assert(whole == (seq![c] + before) + seq![d] + last);
        lemma_last(seq![c] + before, d, last, style, verbatim);
        lemma_last(before, d, last, style, verbatim);
        lemma_leading_slash(c, before, style, verbatim);
        assert(whole.take(cut) == seq![c] + before);
    }
}

/// Where the last component begins a separator stands before it, and none stands in it.
proof fn lemma_cut(body: Seq<char>, style: PathStyle, verbatim: bool)
    ensures
        ({
            let cut = last_component(body, style, verbatim);
            &&& 0 <= cut <= body.len()
            &&& cut > 0 ==> separates(body[cut - 1], style, verbatim)
            &&& forall|i: int|
                0 <= i < body.len() - cut ==> !separates(
                    #[trigger] body.skip(cut)[i],
                    style,
                    verbatim,
                )
        }),
    decreases body.len(),
{
    if body.len() > 0 && !separates(body.last(), style, verbatim) {
        let shorter = body.drop_last();
        lemma_cut(shorter, style, verbatim);
        let cut = last_component(body, style, verbatim);
        assert forall|i: int| 0 <= i < body.len() - cut implies !separates(
            #[trigger] body.skip(cut)[i],
            style,
            verbatim,
        ) by {
            if i < body.len() - cut - 1 {
                assert(shorter.skip(cut)[i] == body.skip(cut)[i]);
            } else {
                assert(body.skip(cut)[i] == body.last());
            }
        }
    }
}

/// The file name of a Windows path without a prefix is that of its components.
proof fn lemma_plain(path: Seq<char>)
    requires
        !begins_with_slashes(path),
        !begins_with_drive(path),
    ensures
        file_name(path, PathStyle::Windows) == name_in(path, PathStyle::Windows, false),
{
    assert(prefix(path) == (0int, false));
    if path.len() > 0 && is_slash(path[0]) {
        let rest = path.skip(1);
        assert(path == seq![path[0]] + rest);
        lemma_leading_slash(path[0], rest, PathStyle::Windows, false);
    } else {
        assert(path.skip(0) == path);
    }
}

/// The file name of a Windows path without a prefix is its last component, behind any
/// directory and either kind of slash.
pub proof fn law_windows_file_name(directory: Seq<char>, slash: char, name: Seq<char>)
    requires
        slash == '/' || slash == '\\',
        name.len() > 0,
        !name.contains('/'),
        !name.contains('\\'),
        name != seq!['.'],
        name != seq!['.', '.'],
    ensures
        !begins_with_drive(name) ==> file_name(name, PathStyle::Windows) == Some(name),
        !begins_with_slashes(directory + seq![slash] + name) && !begins_with_drive(
            directory + seq![slash] + name,
        ) ==> file_name(directory + seq![slash] + name, PathStyle::Windows) == Some(name),
{
    assert(forall|i: int| 0 <= i < name.len() ==> name.contains(#[trigger] name[i]));
    lemma_single_name(name, PathStyle::Windows, false);
    lemma_name(directory, slash, name, PathStyle::Windows, false);
    let path = directory + seq![slash] + name;
    if !begins_with_slashes(path) && !begins_with_drive(path) {
        lemma_plain(path);
    }
    if !begins_with_drive(name) {
        assert(name.contains(name[0]));
        lemma_plain(name);
    }
}

/// A slash of either kind at the end of a Windows path without a prefix, and a `.` behind it,
/// change nothing of its file name. A path that ends in `..` has none.
pub proof fn law_windows_endings(path: Seq<char>, slash: char)
    requires
        slash == '/' || slash == '\\',
        !begins_with_drive(path),
        !begins_with_slashes(path + seq![slash]),
    ensures
        file_name(path + seq![slash], PathStyle::Windows) == file_name(path, PathStyle::Windows),
        file_name(path + seq![slash] + seq!['.'], PathStyle::Windows) == file_name(
            path,
            PathStyle::Windows,
        ),
        file_name(path + seq![slash] + seq!['.', '.'], PathStyle::Windows) is None,
        file_name(seq!['.', '.'], PathStyle::Windows) is None,
        file_name(seq!['.'], PathStyle::Windows) is None,
        file_name(Seq::empty(), PathStyle::Windows) is None,
{
    assert(file_name(path, PathStyle::Windows) == name_in(path, PathStyle::Windows, false)) by {
        let start = path + seq![slash];
        if path.len() >= 2 {
            assert(start[0] == path[0] && start[1] == path[1]);
        }
        lemma_plain(path);
    }
    assert(file_name(path + seq![slash], PathStyle::Windows) == name_in(
        path,
        PathStyle::Windows,
        false,
    )) by {
        let none = Seq::<char>::empty();
        lemma_plain_and_component(path, slash, none);
        assert(path + seq![slash] + none == path + seq![slash]);
    }
    lemma_plain_and_component(path, slash, seq!['.']);
    lemma_plain_and_component(path, slash, seq!['.', '.']);
    lemma_dots_alone();
}

proof fn lemma_dots_alone()
    ensures
        file_name(seq!['.', '.'], PathStyle::Windows) is None,
        file_name(seq!['.'], PathStyle::Windows) is None,
        file_name(Seq::empty(), PathStyle::Windows) is None,
{
    lemma_single_name(seq!['.', '.'], PathStyle::Windows, false);
    lemma_single_name(seq!['.'], PathStyle::Windows, false);
    lemma_single_name(Seq::empty(), PathStyle::Windows, false);
    lemma_plain(seq!['.', '.']);
    lemma_plain(seq!['.']);
    lemma_plain(Seq::empty());
}

proof fn lemma_plain_and_component(path: Seq<char>, slash: char, last: Seq<char>)
    requires
        is_slash(slash),
        !begins_with_drive(path),
        !begins_with_slashes(path + seq![slash]),
        last.len() == 0 || last == seq!['.'] || last == seq!['.', '.'],
    ensures
        last != seq!['.', '.'] ==> file_name(path + seq![slash] + last, PathStyle::Windows)
            == name_in(path, PathStyle::Windows, false),
        last == seq!['.', '.'] ==> file_name(
            path + seq![slash] + last,
            PathStyle::Windows,
        ) is None,
{
    let whole = path + seq![slash] + last;
    let start = path + seq![slash];
    if path.len() >= 1 {
        assert(whole[0] == path[0] && start[0] == path[0]);
        if path.len() >= 2 {
            assert(whole[1] == path[1] && start[1] == path[1]);
        } else {
            assert(whole[1] == slash && start[1] == slash);
        }
    } else {
        assert(whole[0] == slash);
        if last.len() > 0 {
            assert(whole[1] == '.');
        }
    }
    lemma_plain(whole);
    lemma_name(path, slash, last, PathStyle::Windows, false);
}

/// A drive is no part of the file name of a Windows path.
pub proof fn law_windows_drives(letter: char, rest: Seq<char>)
    requires
        'a' <= letter <= 'z' || 'A' <= letter <= 'Z',
        !begins_with_slashes(rest),
        !begins_with_drive(rest),
    ensures
        file_name(seq![letter, ':'] + rest, PathStyle::Windows) == file_name(
            rest,
            PathStyle::Windows,
        ),
{
    let path = seq![letter, ':'] + rest;
    assert(path[0] == letter && path[1] == ':');
    assert(prefix(path) == (2int, false));
    assert(path.skip(2) == rest);
    lemma_behind_prefix(path, 2, false, rest);
    lemma_plain(rest);
}

/// Behind a drive the file name is the last component, whatever stands before it, also where
/// that begins with slashes.
pub proof fn law_windows_names_behind_drives(
    letter: char,
    directory: Seq<char>,
    slash: char,
    name: Seq<char>,
)
    requires
        'a' <= letter <= 'z' || 'A' <= letter <= 'Z',
        slash == '/' || slash == '\\',
        is_component(name),
        name != seq!['.'],
        name != seq!['.', '.'],
    ensures
        file_name(seq![letter, ':'] + name, PathStyle::Windows) == Some(name),
        file_name(seq![letter, ':'] + directory + seq![slash] + name, PathStyle::Windows) == Some(
            name,
        ),
{
    lemma_component(name, false);
    lemma_single_name(name, PathStyle::Windows, false);
    lemma_behind_drive(letter, name);
    lemma_drive_and_component(letter, directory, slash, name);
}

/// A slash of either kind at the end of a path with a drive, and a `.` behind it, change
/// nothing of its file name. A path that ends in `..` has none.
pub proof fn law_windows_endings_behind_drives(letter: char, rest: Seq<char>, slash: char)
    requires
        'a' <= letter <= 'z' || 'A' <= letter <= 'Z',
        slash == '/' || slash == '\\',
    ensures
        file_name(seq![letter, ':'] + rest + seq![slash], PathStyle::Windows) == file_name(
            seq![letter, ':'] + rest,
            PathStyle::Windows,
        ),
        file_name(seq![letter, ':'] + rest + seq![slash] + seq!['.'], PathStyle::Windows)
            == file_name(seq![letter, ':'] + rest, PathStyle::Windows),
        file_name(
            seq![letter, ':'] + rest + seq![slash] + seq!['.', '.'],
            PathStyle::Windows,
        ) is None,
{
    let none = Seq::<char>::empty();
    let path = seq![letter, ':'] + rest + seq![slash];
    lemma_behind_drive(letter, rest);
    lemma_drive_and_component(letter, rest, slash, none);
    lemma_drive_and_component(letter, rest, slash, seq!['.']);
    lemma_drive_and_component(letter, rest, slash, seq!['.', '.']);
    assert(path + none == path);
}

proof fn lemma_drive_and_component(letter: char, rest: Seq<char>, slash: char, last: Seq<char>)
    requires
        'a' <= letter <= 'z' || 'A' <= letter <= 'Z',
        is_slash(slash),
        forall|i: int|
            0 <= i < last.len() ==> !separates(#[trigger] last[i], PathStyle::Windows, false),
    ensures
        ({
            let name = file_name(
                seq![letter, ':'] + rest + seq![slash] + last,
                PathStyle::Windows,
            );
            &&& last.len() == 0 || last == seq!['.'] ==> name == name_in(
                rest,
                PathStyle::Windows,
                false,
            )
            &&& last == seq!['.', '.'] ==> name is None
            &&& last.len() > 0 && last != seq!['.'] && last != seq!['.', '.'] ==> name == Some(last)
        }),
{
    let body = rest + seq![slash] + last;
    lemma_name(rest, slash, last, PathStyle::Windows, false);
    lemma_behind_drive(letter, body);
    assert(seq![letter, ':'] + rest + seq![slash] + last == seq![letter, ':'] + body);
}

proof fn lemma_behind_drive(letter: char, rest: Seq<char>)
    requires
        'a' <= letter <= 'z' || 'A' <= letter <= 'Z',
    ensures
        file_name(seq![letter, ':'] + rest, PathStyle::Windows) == name_in(
            rest,
            PathStyle::Windows,
            false,
        ),
{
    let path = seq![letter, ':'] + rest;
    assert(path[0] == letter && path[1] == ':');
    assert(prefix(path) == (2int, false));
    assert(path.skip(2) == rest);
    lemma_behind_prefix(path, 2, false, rest);
}

/// A server without a share is no prefix, but a component as any other.
pub proof fn law_windows_servers_without_shares(
    first: char,
    second: char,
    server: Seq<char>,
    third: char,
    fourth: char,
    name: Seq<char>,
)
    requires
        first == '/' || first == '\\',
        second == '/' || second == '\\',
        third == '/' || third == '\\',
        fourth == '/' || fourth == '\\',
        is_component(server),
        server != seq!['.'],
        server != seq!['?'],
        server != seq!['.', '.'],
        is_component(name),
        name != seq!['.'],
        name != seq!['.', '.'],
    ensures
        file_name(seq![first, second] + server, PathStyle::Windows) == Some(server),
        file_name(seq![first, second] + server + seq![third], PathStyle::Windows) == Some(server),
        file_name(seq![first, second] + server + seq![third, fourth] + name, PathStyle::Windows)
            == Some(name),
{
    lemma_server_alone(first, second, server);
    lemma_server_and_slash(first, second, server, third);
    lemma_server_and_name(first, second, server, third, fourth, name);
}

proof fn lemma_server_alone(first: char, second: char, server: Seq<char>)
    requires
        is_slash(first),
        is_slash(second),
        is_component(server),
        server != seq!['.'],
        server != seq!['?'],
        server != seq!['.', '.'],
    ensures
        name_in(seq![first, second] + server, PathStyle::Windows, false) == Some(server),
        file_name(seq![first, second] + server, PathStyle::Windows) == Some(server),
{
    let none = Seq::<char>::empty();
    let path = seq![first, second] + server;
    lemma_component(server, false);
    assert(path == seq![first] + seq![second] + server);
    lemma_name(seq![first], second, server, PathStyle::Windows, false);
    lemma_no_share(first, second, server, none);
    assert(path + none == path);
}

proof fn lemma_server_and_slash(first: char, second: char, server: Seq<char>, third: char)
    requires
        is_slash(first),
        is_slash(second),
        is_slash(third),
        is_component(server),
        server != seq!['.'],
        server != seq!['?'],
        server != seq!['.', '.'],
    ensures
        file_name(seq![first, second] + server + seq![third], PathStyle::Windows) == Some(server),
{
    let none = Seq::<char>::empty();
    let path = seq![first, second] + server;
    lemma_server_alone(first, second, server);
    lemma_no_share(first, second, server, seq![third]);
    lemma_name(path, third, none, PathStyle::Windows, false);
    assert(path + seq![third] == path + seq![third] + none);
}

proof fn lemma_server_and_name(
    first: char,
    second: char,
    server: Seq<char>,
    third: char,
    fourth: char,
    name: Seq<char>,
)
    requires
        is_slash(first),
        is_slash(second),
        is_slash(third),
        is_slash(fourth),
        is_component(server),
        server != seq!['.'],
        server != seq!['?'],
        is_component(name),
        name != seq!['.'],
        name != seq!['.', '.'],
    ensures
        file_name(seq![first, second] + server + seq![third, fourth] + name, PathStyle::Windows)
            == Some(name),
{
    let path = seq![first, second] + server;
    let rest = seq![third, fourth] + name;
    let deep = path + seq![third, fourth] + name;
    lemma_component(name, false);
    lemma_no_share(first, second, server, rest);
    lemma_name(path + seq![third], fourth, name, PathStyle::Windows, false);
    assert(deep == path + rest);
    assert(deep == path + seq![third] + seq![fourth] + name);
}

proof fn lemma_no_share(first: char, second: char, server: Seq<char>, rest: Seq<char>)
    requires
        is_slash(first),
        is_slash(second),
        is_component(server),
        server != seq!['.'],
        server != seq!['?'],
        rest.len() > 0 ==> is_slash(rest[0]),
        rest.len() > 1 ==> is_slash(rest[1]),
    ensures
        file_name(seq![first, second] + server + rest, PathStyle::Windows) == name_in(
            seq![first, second] + server + rest,
            PathStyle::Windows,
            false,
        ),
{
    let head = seq![first, second];
    let path = head + server + rest;
    lemma_component(server, false);
    lemma_end(head, server, rest, false);
    assert(path[0] == first && path[1] == second);
    assert(server.contains(server[0]));
    assert(path[2] == server[0]);
    if server.len() >= 2 {
        assert(path[3] == server[1]);
        assert(server.contains(server[1]));
    } else {
        assert(server == seq![server[0]]);
    }
    if path.len() >= 4 {
        assert(path.take(4)[2] == path[2] && path.take(4)[3] == path[3]);
    }
    let at: int = 2 + server.len() as int;
    if rest.len() > 1 {
        assert(path[at + 1] == rest[1]);
        assert(component_end(path, at + 1, false) == at + 1);
    } else if rest.len() == 1 {
        assert(component_end(path, at + 1, false) == at + 1);
    }
    assert(prefix(path) == (0int, false));
    assert(path.skip(1) == seq![second] + server + rest);
    assert(path == seq![first] + path.skip(1));
    lemma_leading_slash(first, path.skip(1), PathStyle::Windows, false);
}

/// The file name of a Windows path is that of what stands behind its prefix.
proof fn lemma_behind_prefix(path: Seq<char>, end: int, verbatim: bool, rest: Seq<char>)
    requires
        prefix(path) == (end, verbatim),
        0 <= end <= path.len(),
        path.skip(end) == rest,
        rest.len() > 0 && is_slash(rest[0]) ==> separates(
            rest[0],
            PathStyle::Windows,
            verbatim,
        ),
    ensures
        file_name(path, PathStyle::Windows) == name_in(rest, PathStyle::Windows, verbatim),
{
    if rest.len() > 0 && is_slash(rest[0]) {
        assert(path[end] == rest[0]);
        assert(path.skip(end + 1) == rest.skip(1));
        assert(rest == seq![rest[0]] + rest.skip(1));
        lemma_leading_slash(rest[0], rest.skip(1), PathStyle::Windows, verbatim);
    } else if rest.len() > 0 {
        assert(path[end] == rest[0]);
    }
}

/// A component that is followed by a separator, or by nothing, ends there.
proof fn lemma_end(before: Seq<char>, component: Seq<char>, rest: Seq<char>, verbatim: bool)
    requires
        forall|i: int|
            0 <= i < component.len() ==> !separates(
                #[trigger] component[i],
                PathStyle::Windows,
                verbatim,
            ),
        rest.len() > 0 ==> separates(rest[0], PathStyle::Windows, verbatim),
    ensures
        component_end(before + component + rest, before.len() as int, verbatim) == before.len()
            + component.len(),
    decreases component.len(),
{
    let path = before + component + rest;
    if component.len() > 0 {
        let first = seq![component[0]];
        let others = component.skip(1);
        assert(path == (before + first) + others + rest);
        assert(path[before.len() as int] == component[0]);
        assert forall|i: int| 0 <= i < others.len() implies !separates(
            #[trigger] others[i],
            PathStyle::Windows,
            verbatim,
        ) by {
            assert(others[i] == component[i + 1]);
        }
        lemma_end(before + first, others, rest, verbatim);
    } else if rest.len() > 0 {
        assert(path[before.len() as int] == rest[0]);
    }
}

/// Whether a text is a component of a Windows path.
pub open spec fn is_component(text: Seq<char>) -> bool {
    text.len() > 0 && !text.contains('/') && !text.contains('\\')
}

proof fn lemma_component(text: Seq<char>, verbatim: bool)
    requires
        is_component(text),
    ensures
        forall|i: int|
            0 <= i < text.len() ==> !separates(#[trigger] text[i], PathStyle::Windows, verbatim),
{
    assert(forall|i: int| 0 <= i < text.len() ==> text.contains(#[trigger] text[i]));
}

/// A server and its share are no part of the file name of a Windows path: what follows them
/// has it.
pub proof fn law_windows_shares(
    first: char,
    second: char,
    server: Seq<char>,
    third: char,
    share: Seq<char>,
    rest: Seq<char>,
)
    requires
        first == '/' || first == '\\',
        second == '/' || second == '\\',
        third == '/' || third == '\\',
        is_component(server),
        is_component(share),
        server != seq!['.'],
        server != seq!['?'],
        rest.len() > 0 ==> rest[0] == '/' || rest[0] == '\\',
        !begins_with_slashes(rest),
    ensures
        file_name(
            seq![first, second] + server + seq![third] + share + rest,
            PathStyle::Windows,
        ) == file_name(rest, PathStyle::Windows),
{
    let path = seq![first, second] + server + seq![third] + share + rest;
    let head = seq![first, second];
    lemma_component(server, false);
    lemma_component(share, false);
    let tail = seq![third] + share + rest;
    assert(path == head + server + tail);
    assert(tail[0] == third);
    lemma_end(head, server, tail, false);
    let upto = head + server + seq![third];
    assert(path == upto + share + rest);
    lemma_end(upto, share, rest, false);
    let end = 2 + server.len() + 1 + share.len();
    assert(path[0] == first && path[1] == second);
    assert(server.contains(server[0]));
    assert(path[2] == server[0]);
    if server.len() >= 2 {
        assert(path[3] == server[1]);
        assert(server.contains(server[1]));
    } else {
        assert(path[3] == third);
        assert(server == seq![server[0]]);
    }
    assert(path.take(4)[2] == path[2] && path.take(4)[3] == path[3]);
    assert(prefix(path) == (end as int, false));
    assert(path.skip(end as int) == rest);
    lemma_behind_prefix(path, end as int, false, rest);
    if rest.len() >= 2 {
        assert(!begins_with_drive(rest));
    }
    lemma_plain(rest);
}

/// A device is no part of the file name of a Windows path: what follows it has it.
pub proof fn law_windows_devices(
    first: char,
    second: char,
    third: char,
    device: Seq<char>,
    rest: Seq<char>,
)
    requires
        first == '/' || first == '\\',
        second == '/' || second == '\\',
        third == '/' || third == '\\',
        is_component(device),
        rest.len() > 0 ==> rest[0] == '/' || rest[0] == '\\',
        !begins_with_slashes(rest),
    ensures
        file_name(seq![first, second, '.', third] + device + rest, PathStyle::Windows)
            == file_name(rest, PathStyle::Windows),
{
    let head = seq![first, second, '.', third];
    let path = head + device + rest;
    lemma_component(device, false);
    lemma_end(head, device, rest, false);
    let end = 4 + device.len();
    assert(path[0] == first && path[1] == second && path[2] == '.' && path[3] == third);
    assert(path.take(4)[2] == path[2]);
    assert(prefix(path) == (end as int, false));
    assert(path.skip(end as int) == rest);
    lemma_behind_prefix(path, end as int, false, rest);
    lemma_plain(rest);
}

/// In a verbatim path only `\` separates: the file name is what follows the last one, slashes
/// included. A verbatim path that ends in `.` or `..`, or in its prefix, has none.
pub proof fn law_windows_verbatim(root: Seq<char>, directory: Seq<char>, name: Seq<char>)
    requires
        is_component(root),
        root != seq!['U', 'N', 'C'],
        name.len() > 0,
        !name.contains('\\'),
        name[0] != '/',
    ensures
        ({
            let head = seq!['\\', '\\', '?', '\\'] + root;
            let direct = head + seq!['\\'] + name;
            let deep = head + seq!['\\'] + directory + seq!['\\'] + name;
            &&& file_name(head, PathStyle::Windows) is None
            &&& name == seq!['.'] || name == seq!['.', '.'] ==> file_name(
                direct,
                PathStyle::Windows,
            ) is None && file_name(deep, PathStyle::Windows) is None
            &&& name != seq!['.'] && name != seq!['.', '.'] ==> file_name(
                direct,
                PathStyle::Windows,
            ) == Some(name) && file_name(deep, PathStyle::Windows) == Some(name)
        }),
{
    let none = Seq::<char>::empty();
    let head = seq!['\\', '\\', '?', '\\'] + root;
    assert(forall|i: int| 0 <= i < name.len() ==> name.contains(#[trigger] name[i]));
    lemma_verbatim(root, none);
    lemma_single_name(none, PathStyle::Windows, true);
    assert(head + none == head);
    lemma_verbatim_and_component(root, none, name);
    lemma_verbatim_and_component(root, seq!['\\'] + directory, name);
    assert(head + (none + seq!['\\'] + name) == head + seq!['\\'] + name);
    assert(head + (seq!['\\'] + directory + seq!['\\'] + name) == head + seq!['\\'] + directory
        + seq!['\\'] + name);
}

proof fn lemma_verbatim_and_component(root: Seq<char>, rest: Seq<char>, last: Seq<char>)
    requires
        is_component(root),
        root != seq!['U', 'N', 'C'],
        rest.len() > 0 ==> rest[0] == '\\',
        last.len() > 0,
        forall|i: int|
            0 <= i < last.len() ==> !separates(#[trigger] last[i], PathStyle::Windows, true),
    ensures
        ({
            let name = file_name(
                seq!['\\', '\\', '?', '\\'] + root + (rest + seq!['\\'] + last),
                PathStyle::Windows,
            );
            &&& last == seq!['.', '.'] || last == seq!['.'] ==> name is None
            &&& last != seq!['.'] && last != seq!['.', '.'] ==> name == Some(last)
        }),
{
    let body = rest + seq!['\\'] + last;
    assert(body[0] == '\\');
    lemma_name(rest, '\\', last, PathStyle::Windows, true);
    lemma_verbatim(root, body);
}

proof fn lemma_verbatim(root: Seq<char>, rest: Seq<char>)
    requires
        is_component(root),
        root != seq!['U', 'N', 'C'],
        rest.len() > 0 ==> rest[0] == '\\',
    ensures
        file_name(seq!['\\', '\\', '?', '\\'] + root + rest, PathStyle::Windows) == name_in(
            rest,
            PathStyle::Windows,
            true,
        ),
{
    let mark = seq!['\\', '\\', '?', '\\'];
    let path = mark + root + rest;
    let end = 4 + root.len();
    lemma_component(root, true);
    lemma_end(mark, root, rest, true);
    assert(path.take(4) == mark);
    assert(path[0] == '\\' && path[1] == '\\');
    assert(forall|i: int| 0 <= i < root.len() ==> path[4 + i] == #[trigger] root[i]);
    assert(forall|i: int| 0 <= i < root.len() ==> root.contains(#[trigger] root[i]));
    if path.len() >= 8 && path.subrange(4, 7) == seq!['U', 'N', 'C'] && is_slash(path[7]) {
        if root.len() > 3 {
            assert(path[7] == root[3]);
        } else if root.len() == 3 {
            assert(root == path.subrange(4, 7));
        } else {
            assert(path.subrange(4, 7)[root.len() as int] == rest[0]);
        }
    }
    if root.len() > 2 {
        assert(path[6] == root[2]);
    } else if root.len() == 2 && rest.len() > 0 {
        assert(path[6] == rest[0]);
    } else if root.len() == 1 && rest.len() > 0 {
        assert(path[5] == rest[0]);
    }
    assert(prefix(path) == (end as int, true));
    assert(path.skip(end as int) == rest);
    lemma_behind_prefix(path, end as int, true, rest);
}

/// A share that is reached verbatim is no part of the file name: it is what follows the last
/// `\` behind it, and there is none where nothing follows.
pub proof fn law_windows_verbatim_shares(
    server: Seq<char>,
    share: Seq<char>,
    directory: Seq<char>,
    name: Seq<char>,
)
    requires
        is_component(server),
        is_component(share),
        name.len() > 0,
        !name.contains('\\'),
        name[0] != '/',
        name != seq!['.'],
        name != seq!['.', '.'],
    ensures
        ({
            let head = seq!['\\', '\\', '?', '\\', 'U', 'N', 'C', '\\'] + server + seq!['\\'] + share;
            &&& file_name(head, PathStyle::Windows) is None
            &&& file_name(head + seq!['\\'] + name, PathStyle::Windows) == Some(name)
            &&& file_name(head + seq!['\\'] + directory + seq!['\\'] + name, PathStyle::Windows)
                == Some(name)
        }),
{
    let none = Seq::<char>::empty();
    let head = seq!['\\', '\\', '?', '\\', 'U', 'N', 'C', '\\'] + server + seq!['\\'] + share;
    assert(forall|i: int| 0 <= i < name.len() ==> name.contains(#[trigger] name[i]));
    lemma_verbatim_share(server, share, none);
    lemma_single_name(none, PathStyle::Windows, true);
    assert(head + none == head);
    lemma_verbatim_share_and_component(server, share, none, name);
    lemma_verbatim_share_and_component(server, share, seq!['\\'] + directory, name);
    assert(head + (none + seq!['\\'] + name) == head + seq!['\\'] + name);
    assert(head + (seq!['\\'] + directory + seq!['\\'] + name) == head + seq!['\\'] + directory
        + seq!['\\'] + name);
}

proof fn lemma_verbatim_share_and_component(
    server: Seq<char>,
    share: Seq<char>,
    rest: Seq<char>,
    last: Seq<char>,
)
    requires
        is_component(server),
        is_component(share),
        rest.len() > 0 ==> rest[0] == '\\',
        last.len() > 0,
        last != seq!['.'],
        last != seq!['.', '.'],
        forall|i: int|
            0 <= i < last.len() ==> !separates(#[trigger] last[i], PathStyle::Windows, true),
    ensures
        file_name(
            seq!['\\', '\\', '?', '\\', 'U', 'N', 'C', '\\'] + server + seq!['\\'] + share + (rest
                + seq!['\\'] + last),
            PathStyle::Windows,
        ) == Some(last),
{
    let body = rest + seq!['\\'] + last;
    assert(body[0] == '\\');
    lemma_name(rest, '\\', last, PathStyle::Windows, true);
    lemma_verbatim_share(server, share, body);
}

proof fn lemma_verbatim_share(server: Seq<char>, share: Seq<char>, rest: Seq<char>)
    requires
        is_component(server),
        is_component(share),
        rest.len() > 0 ==> rest[0] == '\\',
    ensures
        file_name(
            seq!['\\', '\\', '?', '\\', 'U', 'N', 'C', '\\'] + server + seq!['\\'] + share + rest,
            PathStyle::Windows,
        ) == name_in(rest, PathStyle::Windows, true),
{
    let mark = seq!['\\', '\\', '?', '\\', 'U', 'N', 'C', '\\'];
    let path = mark + server + seq!['\\'] + share + rest;
    lemma_component(server, true);
    lemma_component(share, true);
    let tail = seq!['\\'] + share + rest;
    assert(path == mark + server + tail);
    lemma_end(mark, server, tail, true);
    let upto = mark + server + seq!['\\'];
    assert(path == upto + share + rest);
    lemma_end(upto, share, rest, true);
    assert(path.take(4) == seq!['\\', '\\', '?', '\\']);
    assert(path.subrange(4, 7) == seq!['U', 'N', 'C']);
    assert(path[0] == '\\' && path[1] == '\\' && path[7] == '\\');
    let end = 8 + server.len() + 1 + share.len();
    assert(prefix(path) == (end as int, true));
    assert(path.skip(end as int) == rest);
    lemma_behind_prefix(path, end as int, true, rest);
}

} // verus!
