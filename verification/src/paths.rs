//! File names and paths, as text.

use crate::text::chars_of;
use vstd::prelude::*;

verus! {

/// The path of `name` inside `dir`; an absolute `name` stands for itself.
pub open spec fn joined_path(dir: Seq<char>, name: Seq<char>) -> Seq<char> {
    if name.len() > 0 && name[0] == '/' {
        name
    } else if dir.len() == 0 || dir.last() == '/' {
        dir + name
    } else {
        dir + "/"@ + name
    }
}

/// The path of `name` inside `dir`.
pub fn join_path(dir: &str, name: &str) -> (path: String)
    ensures
        path@ == joined_path(dir@, name@),
{
    let dir_chars = chars_of(dir);
    let name_chars = chars_of(name);
    if name_chars.len() > 0 && name_chars[0] == '/' {
        name.to_owned()
    } else if dir_chars.len() == 0 || dir_chars[dir_chars.len() - 1] == '/' {
        dir.to_owned().concat(name)
    } else {
        dir.to_owned().concat("/").concat(name)
    }
}

/// The last position of `c` in `s`.
pub open spec fn last_position(s: Seq<char>, c: char) -> Option<int>
    decreases s.len(),
{
    if s.len() == 0 {
        None
    } else if s.last() == c {
        Some(s.len() - 1)
    } else {
        last_position(s.drop_last(), c)
    }
}

/// Where the dot before a file name's extension stands: the last dot, unless it begins the
/// name or the name is `..`.
pub open spec fn extension_dot(name: Seq<char>) -> Option<int> {
    if name == ".."@ {
        None
    } else {
        match last_position(name, '.') {
            Some(i) => if i > 0 {
                Some(i)
            } else {
                None
            },
            None => None,
        }
    }
}

/// What follows the last dot of a file name, if it has an extension.
pub open spec fn extension_of(name: Seq<char>) -> Option<Seq<char>> {
    match extension_dot(name) {
        Some(i) => Some(name.skip(i + 1)),
        None => None,
    }
}

/// A file name without its extension.
pub open spec fn stem_of(name: Seq<char>) -> Seq<char> {
    match extension_dot(name) {
        Some(i) => name.take(i),
        None => name,
    }
}

pub proof fn lemma_last_position(s: Seq<char>, c: char)
    ensures
        match last_position(s, c) {
            Some(i) => 0 <= i < s.len() && s[i] == c && forall|j: int|
                i < j < s.len() ==> s[j] != c,
            None => !s.contains(c),
        },
    decreases s.len(),
{
    if s.len() > 0 && s.last() != c {
        let rest = s.drop_last();
        lemma_last_position(rest, c);
        match last_position(rest, c) {
            Some(i) => {
                assert forall|j: int| i < j < s.len() implies s[j] != c by {
                    if j < s.len() - 1 {
                        assert(rest[j] != c);
                    }
                }
            },
            None => {
                assert forall|j: int| 0 <= j < s.len() implies s[j] != c by {
                    if j < s.len() - 1 {
                        assert(rest[j] == s[j]);
                    }
                }
            },
        }
    }
}

/// `stem` followed by a dot and an extension without a dot is taken apart where it was put
/// together.
pub proof fn lemma_name_with_extension(stem: Seq<char>, extension: Seq<char>)
    requires
        stem.len() > 0,
        extension.len() > 0,
        !extension.contains('.'),
    ensures
        stem_of(stem + seq!['.'] + extension) == stem,
        extension_of(stem + seq!['.'] + extension) == Some(extension),
{
    let name = stem + seq!['.'] + extension;
    lemma_last_position(name, '.');
    assert(name[stem.len() as int] == '.');
    let i = last_position(name, '.').unwrap();
    if i > stem.len() {
        assert(extension[i - stem.len() - 1] == '.');
    }
    reveal_strlit("..");
    assert(name.len() >= 3);
    assert(name.take(i) =~= stem);
    assert(name.skip(i + 1) =~= extension);
}

/// Where the dot before the extension of `name` stands.
fn find_extension_dot(name: &str) -> (r: Option<usize>)
    ensures
        match r {
            Some(i) => extension_dot(name@) == Some(i as int) && i < name@.len(),
            None => extension_dot(name@) is None,
        },
{
    if crate::text::same(name, "..") {
        return None;
    }
    let chars = chars_of(name);
    let mut end: usize = chars.len();
    assert(name@.take(end as int) == name@);
    while end > 0 && chars[end - 1] != '.'
        invariant
            chars@ == name@,
            end <= chars.len(),
            last_position(name@, '.') == last_position(name@.take(end as int), '.'),
        decreases end,
    {
        assert(name@.take(end as int).drop_last() == name@.take(end - 1));
        end -= 1;
    }
    if end > 1 {
        Some(end - 1)
    } else {
        None
    }
}

/// The extension of `name`.
pub fn extension<'a>(name: &'a str) -> (r: Option<&'a str>)
    ensures
        match r {
            Some(text) => extension_of(name@) == Some(text@),
            None => extension_of(name@) is None,
        },
{
    match find_extension_dot(name) {
        Some(i) => {
            let end: usize = name.unicode_len();
            let text = name.substring_char(i + 1, end);
            assert(text@ == name@.skip(i + 1));
            Some(text)
        },
        None => None,
    }
}

/// `name` without its extension.
pub fn file_stem<'a>(name: &'a str) -> (r: &'a str)
    ensures
        r@ == stem_of(name@),
{
    match find_extension_dot(name) {
        Some(i) => {
            let text = name.substring_char(0, i);
            assert(text@ == name@.take(i as int));
            text
        },
        None => name,
    }
}

/// A path without the slashes at its end, and without the dots at its end that stand for the
/// directory before them.
pub open spec fn path_body(path: Seq<char>) -> Seq<char>
    decreases path.len(),
{
    if path.len() > 0 && path.last() == '/' {
        path_body(path.drop_last())
    } else if path.len() >= 2 && path.last() == '.' && path[path.len() - 2] == '/' {
        path_body(path.drop_last())
    } else {
        path
    }
}

/// Where the last component of a path begins.
pub open spec fn name_start(body: Seq<char>) -> int {
    match last_position(body, '/') {
        Some(i) => i + 1,
        None => 0,
    }
}

/// A path with another extension; a path that does not end in a file name stays as it is.
pub open spec fn with_extension_of(path: Seq<char>, extension: Seq<char>) -> Seq<char> {
    let body = path_body(path);
    let start = name_start(body);
    let name = body.skip(start);
    if name.len() == 0 || name == "."@ || name == ".."@ {
        path
    } else {
        body.take(start) + stem_of(name) + "."@ + extension
    }
}

/// A path with another extension, which is not empty.
pub fn with_extension(path: &str, extension: &str) -> (r: String)
    requires
        extension@.len() > 0,
    ensures
        r@ == with_extension_of(path@, extension@),
{
    let chars = chars_of(path);
    let mut end: usize = chars.len();
    assert(path@.take(end as int) == path@);
    while end > 0 && (chars[end - 1] == '/' || (end >= 2 && chars[end - 1] == '.' && chars[end - 2]
        == '/'))
        invariant
            chars@ == path@,
            end <= chars.len(),
            path_body(path@) == path_body(path@.take(end as int)),
        decreases end,
    {
        assert(path@.take(end as int).drop_last() == path@.take(end - 1));
        end -= 1;
    }
    let ghost body = path@.take(end as int);
    assert(path_body(path@) == body);
    let mut start: usize = end;
    assert(body.take(start as int) == body);
    while start > 0 && chars[start - 1] != '/'
        invariant
            chars@ == path@,
            start <= end <= chars.len(),
            body == path@.take(end as int),
            last_position(body, '/') == last_position(body.take(start as int), '/'),
        decreases start,
    {
        assert(body.take(start as int).drop_last() == body.take(start - 1));
        assert(body.take(start as int).last() == chars@[start - 1]);
        start -= 1;
    }
    assert(start > 0 ==> body.take(start as int).last() == '/');
    assert(name_start(body) == start);
    let name = path.substring_char(start, end);
    assert(name@ == body.skip(start as int));
    if name.is_empty() || crate::text::same(name, ".") || crate::text::same(name, "..") {
        path.to_owned()
    } else {
        let dir = path.substring_char(0, start);
        assert(dir@ == body.take(start as int));
        dir.to_owned().concat(file_stem(name)).concat(".").concat(extension)
    }
}

/// A name inside a directory is the directory, one slash and the name; an absolute name, and a
/// name inside no directory, stands alone.
pub proof fn names_stand_behind_one_slash(dir: Seq<char>, name: Seq<char>)
    requires
        name.len() > 0 ==> name[0] != '/',
    ensures
        joined_path(Seq::empty(), name) == name,
        joined_path(dir + seq!['/'], name) == dir + seq!['/'] + name,
        dir.len() > 0 && dir.last() != '/' ==> joined_path(dir, name) == dir + seq!['/'] + name,
        joined_path(dir, seq!['/'] + name) == seq!['/'] + name,
{
    reveal_strlit("/");
    assert("/"@ =~= seq!['/']);
    assert(Seq::<char>::empty() + name =~= name);
}

/// The extension of a file name takes the place of the one that a path has, and nothing else
/// of the path changes.
pub proof fn extensions_are_exchanged(
    dir: Seq<char>,
    stem: Seq<char>,
    extension: Seq<char>,
    other: Seq<char>,
)
    requires
        dir.len() > 0 ==> dir.last() == '/',
        stem.len() > 0,
        !stem.contains('/'),
        extension.len() > 0,
        !extension.contains('.'),
        !extension.contains('/'),
    ensures
        with_extension_of(dir + stem + seq!['.'] + extension, other) == dir + stem + seq!['.']
            + other,
{
    let name = stem + seq!['.'] + extension;
    let path = dir + stem + seq!['.'] + extension;
    assert(path =~= dir + name);
    assert(path.last() == extension[extension.len() - 1]);
    assert(extension.contains(extension[extension.len() - 1]));
    assert(path_body(path) == path);
    lemma_last_position(path, '/');
    assert forall|i: int| dir.len() <= i < path.len() implies path[i] != '/' by {
        if i < dir.len() + stem.len() {
            assert(path[i] == stem[i - dir.len()]);
            assert(stem.contains(stem[i - dir.len()]));
        } else if i > dir.len() + stem.len() {
            assert(path[i] == extension[i - dir.len() - stem.len() - 1]);
            assert(extension.contains(extension[i - dir.len() - stem.len() - 1]));
        }
    }
    if dir.len() > 0 {
        assert(path[dir.len() - 1] == '/');
    }
    assert(name_start(path) == dir.len());
    assert(path.skip(dir.len() as int) =~= name);
    assert(path.take(dir.len() as int) =~= dir);
    lemma_name_with_extension(stem, extension);
    reveal_strlit(".");
    reveal_strlit("..");
    assert(name.len() >= 3);
    assert(dir + stem + "."@ + other =~= dir + stem + seq!['.'] + other);
}

/// A name without a dot, a name that begins with its only dot, and the name of the directory
/// above have no extension.
pub proof fn some_names_have_no_extension(name: Seq<char>)
    requires
        !name.contains('.'),
    ensures
        extension_of(name) is None && stem_of(name) == name,
        extension_of(seq!['.'] + name) is None && stem_of(seq!['.'] + name) == seq!['.'] + name,
        extension_of(seq!['.', '.']) is None && stem_of(seq!['.', '.']) == seq!['.', '.'],
{
    reveal_strlit("..");
    assert(".."@ =~= seq!['.', '.']);
    let hidden = seq!['.'] + name;
    lemma_last_position(name, '.');
    lemma_last_position(hidden, '.');
    if let Some(i) = last_position(name, '.') {
        assert(name.contains(name[i]));
    }
    if let Some(i) = last_position(hidden, '.') {
        if i > 0 {
            assert(name[i - 1] == '.');
            assert(name.contains(name[i - 1]));
        }
    }
}

/// Slashes at the end of a path, and dots there that stand for the directory before them, do
/// not count when its extension is exchanged.
pub proof fn trailing_slashes_do_not_count(path: Seq<char>)
    ensures
        path_body(path + seq!['/']) == path_body(path),
        path_body(path + seq!['/', '.']) == path_body(path),
        path.len() > 0 && path.last() != '/' && path.last() != '.' ==> path_body(path) == path,
{
    let once = path + seq!['/'];
    let dotted = path + seq!['/', '.'];
    assert(once.drop_last() =~= path);
    assert(dotted.drop_last() =~= once);
    assert(dotted[dotted.len() - 2] == '/');
    assert(dotted.last() == '.' && path_body(dotted) == path_body(once));
    assert(once.last() == '/' && path_body(once) == path_body(path));
}

} // verus!
