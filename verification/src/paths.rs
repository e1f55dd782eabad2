//! The std path functions that the library relies on, over UTF-8 text.
//! How they split and join paths depends on the platform's separators, so
//! their results are taken as given.

use vstd::prelude::*;

verus! {

/// Whether `piece` occurs in `text` right after a `.`.
pub open spec fn follows_dot(text: Seq<char>, piece: Seq<char>) -> bool {
    exists|i: int| 0 <= i && i + 1 + piece.len() <= text.len() && text[i] == '.'
        && #[trigger] text.subrange(i + 1, i + 1 + piece.len()) == piece
}

/// Whether `piece` occurs in `text`.
pub open spec fn occurs_in(text: Seq<char>, piece: Seq<char>) -> bool {
    exists|i: int| 0 <= i && i + piece.len() <= text.len()
        && #[trigger] text.subrange(i, i + piece.len()) == piece
}

/// Whether `text` ends with `piece`.
pub open spec fn ends_with(text: Seq<char>, piece: Seq<char>) -> bool {
    piece.len() <= text.len() && text.subrange(text.len() - piece.len(), text.len() as int) == piece
}

/// A path that is relative on every platform: not empty, not starting with
/// a separator (`/` or `\`), and with no `:`, so no drive or other prefix.
pub open spec fn plainly_relative(name: Seq<char>) -> bool {
    &&& name.len() > 0
    &&& name[0] != '/'
    &&& name[0] != '\\'
    &&& forall|i: int| 0 <= i < name.len() ==> #[trigger] name[i] != ':'
}

/// A Windows verbatim prefix, under which joining normalizes the path.
pub open spec fn verbatim_prefix() -> Seq<char> {
    seq!['\\', '\\', '?', '\\']
}

/// Whether `base` starts with a Windows verbatim prefix.
pub open spec fn has_verbatim_prefix(base: Seq<char>) -> bool {
    verbatim_prefix().len() <= base.len() && base.subrange(0, verbatim_prefix().len() as int) == verbatim_prefix()
}

/// A base onto which joining only appends: no `:` (so no drive or other
/// prefix) and no verbatim prefix.
pub open spec fn plain_base(base: Seq<char>) -> bool {
    &&& forall|i: int| 0 <= i < base.len() ==> #[trigger] base[i] != ':'
    &&& !has_verbatim_prefix(base)
}

/// `p` is `name` joined onto `base`: `name` alone onto an empty base;
/// `base` then `name` where `base` ends with `/`; and otherwise `base`, a
/// separator, then `name`. A base ending with `\` is followed by `/` where
/// `\` is no separator (Unix) and by nothing where it is one (Windows); any
/// other base is followed by the platform's separator, `/` or `\`.
pub open spec fn joined(base: Seq<char>, name: Seq<char>, p: Seq<char>) -> bool {
    if base.len() == 0 {
        p == name
    } else if base.last() == '/' {
        p == base + name
    } else if base.last() == '\\' {
        p == base + name || p == base + seq!['/'] + name
    } else {
        p == base + seq!['/'] + name || p == base + seq!['\\'] + name
    }
}

/// The position of the last `c` in `s`, or -1 where there is none.
pub open spec fn last_index_of(s: Seq<char>, c: char) -> int
    decreases s.len(),
{
    if s.len() == 0 {
        -1
    } else if s.last() == c {
        s.len() - 1
    } else {
        last_index_of(s.drop_last(), c)
    }
}

/// The text after the last `/` of a path.
pub open spec fn final_name(p: Seq<char>) -> Seq<char> {
    p.skip(last_index_of(p, '/') + 1)
}

/// A path whose file name every platform reads alike: no `\` and no `:`,
/// not starting with `//`, and a last part after its last `/` that is a
/// name (not empty, `.` or `..`).
pub open spec fn has_plain_name(p: Seq<char>) -> bool {
    &&& forall|i: int| 0 <= i < p.len() ==> #[trigger] p[i] != '\\' && p[i] != ':'
    &&& !(p.len() >= 2 && p[0] == '/' && p[1] == '/')
    &&& final_name(p).len() > 0
    &&& final_name(p) != seq!['.']
    &&& final_name(p) != seq!['.', '.']
}

/// The extension of a file name: the text after its last `.`, where that
/// `.` is not its first character.
pub open spec fn name_extension(name: Seq<char>) -> Option<Seq<char>> {
    let k = last_index_of(name, '.');
    if k <= 0 {
        None
    } else {
        Some(name.skip(k + 1))
    }
}

/// The stem of a file name: the text before its last `.`, or the whole
/// name where the only `.` starts it or there is none.
pub open spec fn name_stem(name: Seq<char>) -> Seq<char> {
    let k = last_index_of(name, '.');
    if k <= 0 {
        name
    } else {
        name.take(k)
    }
}

/// What `Path::extension` gives of `path`, as far as it is stated: a piece
/// after a `.`, and for a path with a plain name, exactly that name's
/// extension.
pub open spec fn extension_fact(path: Seq<char>, e: Option<Seq<char>>) -> bool {
    &&& (e matches Some(x) ==> follows_dot(path, x))
    &&& (has_plain_name(path) ==> e == name_extension(final_name(path)))
}

/// What `Path::file_stem` gives of `path`, as far as it is stated: a piece
/// of the path, and for a path with a plain name, exactly that name's stem.
pub open spec fn stem_fact(path: Seq<char>, s: Option<Seq<char>>) -> bool {
    &&& (s matches Some(x) ==> occurs_in(path, x))
    &&& (has_plain_name(path) ==> s == Some(name_stem(final_name(path))))
}

pub open spec fn opt_chars(o: Option<String>) -> Option<Seq<char>> {
    match o {
        Some(s) => Some(s@),
        None => None,
    }
}

/// `p` is `base`, then `name`, directly or after one `/` or `\\`.
pub open spec fn joined_loosely(base: Seq<char>, name: Seq<char>, p: Seq<char>) -> bool {
    ||| p == base + name
    ||| p == base + seq!['/'] + name
    ||| p == base + seq!['\\'] + name
}

/// `Path::join` of `name` onto `base`, as text: `None` where the joined path
/// is not UTF-8. Pushing a relative path extends the existing path: onto a
/// base without verbatim prefix (under which the path is normalized), a
/// plainly relative `name` is appended to `base`, after a separator or not,
/// which gives UTF-8 text again. Onto a base without `:` either (so without
/// a drive prefix), the separator comes exactly where the base is not empty
/// and does not end with one (see `joined`). Which separator is used
/// depends on the platform and is not said; nor is anything said of other
/// joins.
#[verifier::external_body]
pub fn join_path(base: &str, name: &str) -> (r: Option<String>)
    ensures
        plainly_relative(name@) && !has_verbatim_prefix(base@) ==> (r matches Some(p) ==> ends_with(p@, name@)),
        plainly_relative(name@) && !has_verbatim_prefix(base@) ==> r is Some,
        plainly_relative(name@) && !has_verbatim_prefix(base@) ==> (r matches Some(p) ==> joined_loosely(base@, name@, p@)),
        plainly_relative(name@) && plain_base(base@) ==> (r matches Some(p) ==> joined(base@, name@, p@)),
{
    std::path::Path::new(base).join(name).to_str().map(|s| s.to_owned())
}

/// `Path::extension`: the part of the path's file name after its last `.`,
/// if the name has one that does not start it. The extension is a piece of
/// the path that follows a `.`; for a path with a plain name (see
/// `has_plain_name`) it is exactly the name's extension. For other paths,
/// which part is the file name depends on the platform and is not said.
#[verifier::external_body]
pub fn path_extension(path: &str) -> (r: Option<String>)
    ensures
        extension_fact(path@, opt_chars(r)),
{
    std::path::Path::new(path).extension().and_then(|e| e.to_str()).map(|s| s.to_owned())
}

/// `Path::file_stem`: the path's file name without its extension. The stem
/// is a piece of the path; for a path with a plain name it is exactly the
/// name's stem.
#[verifier::external_body]
pub fn path_file_stem(path: &str) -> (r: Option<String>)
    ensures
        stem_fact(path@, opt_chars(r)),
{
    std::path::Path::new(path).file_stem().and_then(|e| e.to_str()).map(|s| s.to_owned())
}

} // verus!
