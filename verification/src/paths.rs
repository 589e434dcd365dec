//! File-path parts, as std's `Path` splits them.
//!
//! How `Path` splits a path depends on the platform (which characters separate
//! components, drive and network prefixes). For a plain path, one without `\`
//! and `:` that does not begin with two slashes, every platform splits it at
//! its slashes alike; the contracts below say exactly what the calls give for
//! such paths, and of other paths only that a part they return is a piece of
//! the path text.
use vstd::prelude::*;

use crate::text::{contains_seq, opt_view};

verus! {

/// `c` occurs in `s`.
pub open spec fn has_char(s: Seq<char>, c: char) -> bool {
    exists|k: int| 0 <= k < s.len() && s[k] == c
}

/// A path that std's `Path` splits the same way on every platform: no `\`,
/// no `:`, and not two slashes at its start.
pub open spec fn plain_path(p: Seq<char>) -> bool {
    &&& !has_char(p, '\\')
    &&& !has_char(p, ':')
    &&& !(p.len() >= 2 && p[0] == '/' && p[1] == '/')
}

/// The text after the last `/` of `p` (all of `p` where it has none).
pub open spec fn last_component(p: Seq<char>) -> Seq<char>
    decreases p.len(),
{
    if p.len() == 0 {
        p
    } else if p.last() == '/' {
        Seq::empty()
    } else {
        last_component(p.drop_last()).push(p.last())
    }
}

/// A plain path whose last component names a file: the text after its last
/// `/` is neither empty nor `.` nor `..`.
pub open spec fn names_file(p: Seq<char>) -> bool {
    &&& plain_path(p)
    &&& last_component(p).len() > 0
    &&& last_component(p) != seq!['.']
    &&& last_component(p) != seq!['.', '.']
}

/// A plain path with no file name: empty, the root `/` alone, or one that
/// ends in `..` (`Path::file_name` documents `None` for it).
pub open spec fn names_no_file(p: Seq<char>) -> bool {
    &&& plain_path(p)
    &&& p.len() == 0 || p == seq!['/'] || last_component(p) == seq!['.', '.']
}

/// Position of the last `.` of `n`.
pub open spec fn last_dot(n: Seq<char>) -> Option<int>
    decreases n.len(),
{
    if n.len() == 0 {
        None
    } else if n.last() == '.' {
        Some(n.len() - 1)
    } else {
        last_dot(n.drop_last())
    }
}

/// The stem of a file name, as `Path::file_stem` documents it: the part before
/// the last `.`, or the whole name where it has no `.` but a leading one.
pub open spec fn stem_of(n: Seq<char>) -> Seq<char> {
    match last_dot(n) {
        Some(i) => if i > 0 {
            n.take(i)
        } else {
            n
        },
        None => n,
    }
}

/// The extension of a file name, as `Path::extension` documents it: the part
/// after the last `.`, and none where the name has no `.` but a leading one.
pub open spec fn extension_of(n: Seq<char>) -> Option<Seq<char>> {
    match last_dot(n) {
        Some(i) => if i > 0 {
            Some(n.skip(i + 1))
        } else {
            None
        },
        None => None,
    }
}

/// A name that is one plain path component: not empty, no `/`, `\` or `:`.
pub open spec fn plain_name(n: Seq<char>) -> bool {
    n.len() > 0 && !has_char(n, '/') && !has_char(n, '\\') && !has_char(n, ':')
}

/// `r` is `base` joined with the plain name `name`, as `Path::join` does it for a
/// plain base: the name alone after an empty base, appended after a base that
/// ends with `/`, else after a separator (`/`, or `\` on Windows).
pub open spec fn joined(base: Seq<char>, name: Seq<char>, r: Seq<char>) -> bool {
    if base.len() == 0 {
        r == name
    } else if base.last() == '/' {
        r == base + name
    } else {
        r == base + seq!['/'] + name || r == base + seq!['\\'] + name
    }
}

/// std's `Path::file_name`, as text. Trusted: a returned name occurs in `path`;
/// for a path that names a file (see `names_file`) it is the text after the
/// last `/`, the final component; for a plain path with no file name (see
/// `names_no_file`) there is none. Of other paths, which piece is left unsaid.
#[verifier::external_body]
pub(crate) fn path_file_name(path: &str) -> (r: Option<String>)
    ensures
        r matches Some(n) ==> contains_seq(path@, n@),
        names_file(path@) ==> opt_view(r) == Some(last_component(path@)),
        names_no_file(path@) ==> r is None,
{
    match std::path::Path::new(path).file_name() {
        Some(name) => name.to_str().map(String::from),
        None => None,
    }
}

/// std's `Path::file_stem`, as text. Trusted: a returned stem occurs in `path`;
/// for a path that names a file it is the stem of its final component (see
/// `stem_of`). Of other paths, which piece is left unsaid.
#[verifier::external_body]
pub(crate) fn path_file_stem(path: &str) -> (r: Option<String>)
    ensures
        r matches Some(n) ==> contains_seq(path@, n@),
        names_file(path@) ==> opt_view(r) == Some(stem_of(last_component(path@))),
{
    match std::path::Path::new(path).file_stem() {
        Some(stem) => stem.to_str().map(String::from),
        None => None,
    }
}

/// std's `Path::extension`, as text. Trusted: a returned extension occurs in
/// `path`; for a path that names a file it is the extension of its final
/// component (see `extension_of`). Of other paths, which piece is left unsaid.
#[verifier::external_body]
pub(crate) fn path_extension(path: &str) -> (r: Option<String>)
    ensures
        r matches Some(n) ==> contains_seq(path@, n@),
        names_file(path@) ==> opt_view(r) == extension_of(last_component(path@)),
{
    match std::path::Path::new(path).extension() {
        Some(ext) => ext.to_str().map(String::from),
        None => None,
    }
}

/// std's `Path::join` of a path and a file name, as text. Trusted: for a plain
/// base and a plain name the result is the two joined as `joined` says. Which
/// separator goes between them is left unsaid (it is the platform's), and so is
/// the result for other bases and names, which `PathBuf::push` may rebuild
/// (a Windows verbatim prefix) or replace (an absolute name).
#[verifier::external_body]
pub(crate) fn path_join(base: &str, name: &str) -> (r: String)
    ensures
        plain_path(base@) && plain_name(name@) ==> joined(base@, name@, r@),
{
    std::path::Path::new(base).join(name).to_string_lossy().to_string()
}

/// The last component of a path holds no `/`, and every character of it is
/// one of the path's.
pub proof fn lemma_last_component(p: Seq<char>)
    ensures
        !has_char(last_component(p), '/'),
        forall|c: char| has_char(last_component(p), c) ==> has_char(p, c),
        last_component(p).len() <= p.len(),
    decreases p.len(),
{
    if p.len() > 0 && p.last() != '/' {
        let q = p.drop_last();
        lemma_last_component(q);
        let l = last_component(p);
        assert(l == last_component(q).push(p.last()));
        assert forall|c: char| has_char(l, c) implies has_char(p, c) by {
            let k = choose|k: int| 0 <= k < l.len() && l[k] == c;
            if k < l.len() - 1 {
                assert(last_component(q)[k] == c);
                assert(has_char(last_component(q), c));
                assert(has_char(q, c));
                let j = choose|j: int| 0 <= j < q.len() && q[j] == c;
                assert(p[j] == q[j]);
            } else {
                assert(p[p.len() - 1] == c);
            }
        }
        if has_char(l, '/') {
            let k = choose|k: int| 0 <= k < l.len() && l[k] == '/';
            if k < l.len() - 1 {
                assert(last_component(q)[k] == '/');
            }
        }
    }
}

} // verus!
