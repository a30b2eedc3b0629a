//! `basename`, `dirname`, `extname`, `stem` and `join_path`: the parts of a
//! path and the joining of paths, by `std::path`. What a path's parts are
//! is the platform's rule (separators, prefixes, roots); for the plain
//! paths that every platform reads alike (see [`plain_path`]) the parts are
//! stated, as `std::path`'s documentation gives them.

use vstd::prelude::*;
use crate::funcs::split_parts;

verus! {

#[verifier::external_type_specification]
#[verifier::external_body]
pub struct ExPathBuf(std::path::PathBuf);

/// A path's text after its leading `/`, if any.
pub open spec fn path_body(p: Seq<char>) -> Seq<char> {
    if p.len() > 0 && p[0] == '/' { p.skip(1) } else { p }
}

/// The `/`-separated names of a path.
pub open spec fn path_names(p: Seq<char>) -> Seq<Seq<char>> {
    split_parts(path_body(p), "/"@)
}

/// A name that is neither empty nor `.` nor `..`.
pub open spec fn plain_name(n: Seq<char>) -> bool {
    n.len() > 0 && n != "."@ && n != ".."@
}

/// A path that Unix and Windows read the same way: no backslash and no
/// colon (so no Windows prefix), an optional leading `/`, then one or more
/// names separated by single `/`s, none of them `.` or `..`.
pub open spec fn plain_path(p: Seq<char>) -> bool {
    &&& !p.contains('\\')
    &&& !p.contains(':')
    &&& path_body(p).len() > 0
    &&& forall|i: int| 0 <= i < path_names(p).len() ==> plain_name(#[trigger] path_names(p)[i])
}

/// The file name of a plain path: its last name.
pub open spec fn file_name_of(p: Seq<char>) -> Seq<char> {
    path_names(p).last()
}

/// The parent of a plain path: the path without its last name and the `/`
/// before it (`""` for a single relative name, `/` for a single absolute
/// one).
pub open spec fn parent_of(p: Seq<char>) -> Seq<char> {
    let cut = file_name_of(p).len() + if path_names(p).len() > 1 { 1int } else { 0int };
    p.take(p.len() - cut)
}

/// The index of the last `.` among the first `k` characters of `n`.
pub open spec fn last_dot(n: Seq<char>, k: int) -> Option<int>
    decreases k,
{
    if k <= 0 || k > n.len() {
        None
    } else if n[k - 1] == '.' {
        Some(k - 1)
    } else {
        last_dot(n, k - 1)
    }
}

/// The extension of a file name: what follows its last `.`, and none when
/// it has no `.` or its only `.` is its first character.
pub open spec fn extension_of(n: Seq<char>) -> Option<Seq<char>> {
    match last_dot(n, n.len() as int) {
        Some(k) => if k == 0 { None } else { Some(n.skip(k + 1)) },
        None => None,
    }
}

/// The stem of a file name: what precedes its last `.`, and the whole name
/// when it has no `.` or its only `.` is its first character.
pub open spec fn stem_of(n: Seq<char>) -> Seq<char> {
    match last_dot(n, n.len() as int) {
        Some(k) => if k == 0 { n } else { n.take(k) },
        None => n,
    }
}

/// `x` stands somewhere in `p`, as a run of its characters.
pub open spec fn is_infix(x: Seq<char>, p: Seq<char>) -> bool {
    exists|i: int, j: int| 0 <= i <= j <= p.len() && #[trigger] p.subrange(i, j) == x
}

/// What `PathBuf` holds, as text.
pub uninterp spec fn path_text(p: std::path::PathBuf) -> Seq<char>;

/// `Path::file_name`, as text (lossily): a component of the path, so a run
/// of its characters. For a plain path, its last name.
#[verifier::external_body]
fn path_file_name(p: &str) -> (r: Option<String>)
    ensures
        match r {
            Some(s) => is_infix(s@, p@),
            None => true,
        },
        plain_path(p@) ==> match r {
            Some(s) => s@ == file_name_of(p@),
            None => false,
        },
{
    std::path::Path::new(p).file_name().map(|s| s.to_string_lossy().into_owned())
}

/// `Path::parent`, as text (lossily): the path without its final
/// component, so a run of its characters. For a plain path, the path
/// without its last name.
#[verifier::external_body]
fn path_parent(p: &str) -> (r: Option<String>)
    ensures
        match r {
            Some(s) => is_infix(s@, p@),
            None => true,
        },
        plain_path(p@) ==> match r {
            Some(s) => s@ == parent_of(p@),
            None => false,
        },
{
    std::path::Path::new(p).parent().map(|s| s.to_string_lossy().into_owned())
}

/// `Path::extension`, as text (lossily): a part of the file name, so a run
/// of the path's characters. For a plain path, the extension of its last
/// name.
#[verifier::external_body]
fn path_extension(p: &str) -> (r: Option<String>)
    ensures
        match r {
            Some(s) => is_infix(s@, p@),
            None => true,
        },
        plain_path(p@) ==> match r {
            Some(s) => extension_of(file_name_of(p@)) == Some(s@),
            None => extension_of(file_name_of(p@)) is None,
        },
{
    std::path::Path::new(p).extension().map(|s| s.to_string_lossy().into_owned())
}

/// `Path::file_stem`, as text (lossily): a part of the file name, so a run
/// of the path's characters. For a plain path, the stem of its last name.
#[verifier::external_body]
fn path_file_stem(p: &str) -> (r: Option<String>)
    ensures
        match r {
            Some(s) => is_infix(s@, p@),
            None => true,
        },
        plain_path(p@) ==> match r {
            Some(s) => s@ == stem_of(file_name_of(p@)),
            None => false,
        },
{
    std::path::Path::new(p).file_stem().map(|s| s.to_string_lossy().into_owned())
}

/// `PathBuf::from` a text: it holds that text.
#[verifier::external_body]
fn path_buf_from(p: &str) -> (r: std::path::PathBuf)
    ensures
        path_text(r) == p@,
{
    std::path::PathBuf::from(p)
}

/// `PathBuf::push`. The separator it adds and whether the segment replaces
/// the path are the platform's rules, so nothing is stated of the result.
#[verifier::external_body]
fn path_buf_push(p: &mut std::path::PathBuf, segment: &str) {
    p.push(segment)
}

/// `Path::to_string_lossy`, owned: the text it holds (built from text, it
/// has nothing to replace).
#[verifier::external_body]
fn path_buf_text(p: &std::path::PathBuf) -> (r: String)
    ensures
        r@ == path_text(*p),
{
    p.to_string_lossy().into_owned()
}

/// The part of a plain path that each path function gives; nothing where
/// there is none.
pub open spec fn path_part_of(name: Seq<char>, p: Seq<char>) -> Seq<char> {
    if name == "basename"@ {
        file_name_of(p)
    } else if name == "dirname"@ {
        parent_of(p)
    } else if name == "extname"@ {
        match extension_of(file_name_of(p)) {
            Some(e) => e,
            None => Seq::empty(),
        }
    } else {
        stem_of(file_name_of(p))
    }
}

/// The part of `path` that `name` asks for (`basename`: the file name,
/// `dirname`: the parent, `extname`: the extension, `stem`: the file stem,
/// which is also what any other name gets), or nothing when the path has
/// none. It is always a run of the path's characters; for a plain path it
/// is the part [`path_part_of`] names.
pub fn path_part(name: &str, path: &str) -> (r: String)
    ensures
        is_infix(r@, path@),
        plain_path(path@) ==> r@ == path_part_of(name@, path@),
{
    let c = crate::text::chars_of(name);
    let part = if crate::text::eq_lit(&c, "basename") {
        path_file_name(path)
    } else if crate::text::eq_lit(&c, "dirname") {
        path_parent(path)
    } else if crate::text::eq_lit(&c, "extname") {
        path_extension(path)
    } else {
        path_file_stem(path)
    };
    match part {
        Some(s) => s,
        None => {
            assert(path@.subrange(0, 0) =~= Seq::<char>::empty());
            String::new()
        },
    }
}

/// The first path with each following segment pushed onto it; a single
/// path comes back as it is.
pub fn join_path(parts: &Vec<String>) -> (r: String)
    requires
        parts.len() >= 1,
    ensures
        parts.len() == 1 ==> r@ == parts@[0]@,
{
    let mut p = path_buf_from(parts[0].as_str());
    let mut i: usize = 1;
    while i < parts.len()
        invariant
            1 <= i <= parts.len(),
            i == 1 ==> path_text(p) == parts@[0]@,
        decreases parts.len() - i,
    {
        path_buf_push(&mut p, parts[i].as_str());
        i += 1;
    }
    path_buf_text(&p)
}

} // verus!
