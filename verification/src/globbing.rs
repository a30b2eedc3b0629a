//! The iterations of a `for glob:` block: which of the files found under the
//! working directory a glob pattern selects, in sorted order. Patterns are
//! compiled and matched by `globset`; walking the file system is the
//! caller's.

use vstd::prelude::*;
use crate::text::{chars_of, string_of};
use crate::values::texts_view;
use crate::extract::{strs_view, texts_of};
use crate::control::ControlFlowError;

verus! {

#[verifier::external_type_specification]
#[verifier::external_body]
pub struct ExGlob(globset::Glob);

#[verifier::external_type_specification]
#[verifier::external_body]
pub struct ExGlobSet(globset::GlobSet);

/// The text holds no backslash. Whether a backslash escapes the next character
/// of a pattern, and whether it separates the parts of a path, is the
/// platform's rule in `globset`; without one, patterns and paths read the
/// same everywhere.
pub open spec fn no_backslash(s: Seq<char>) -> bool {
    !s.contains('\\')
}

/// What `globset::Glob::new` says of a pattern without backslashes: `None`
/// when it parses, the text of its error when it does not.
pub uninterp spec fn glob_rejection(pattern: Seq<char>) -> Option<Seq<char>>;

/// What `GlobSet::is_match` answers for the set of the one glob `pattern`
/// and a path, both without backslashes.
pub uninterp spec fn glob_hit(pattern: Seq<char>, path: Seq<char>) -> bool;

/// `globset::Glob::new`: for a pattern without backslashes, parses exactly
/// the patterns that `glob_rejection` does not reject. Of a pattern with a
/// backslash nothing is stated, since its reading depends on the platform.
#[verifier::external_body]
fn glob_new(pattern: &str) -> (r: Result<globset::Glob, String>)
    ensures
        no_backslash(pattern@) ==> match r {
            Ok(_) => glob_rejection(pattern@) is None,
            Err(m) => glob_rejection(pattern@) == Some(m@),
        },
{
    globset::Glob::new(pattern).map_err(|e| e.to_string())
}

/// `globset::GlobSet::new` with one glob. Building compiles the glob's
/// regular expression, which the crate expects never to fail for a parsed
/// glob; nothing is stated of the outcome.
#[verifier::external_body]
fn glob_set_new(g: globset::Glob) -> (r: Result<globset::GlobSet, String>) {
    globset::GlobSet::new([g]).map_err(|e| e.to_string())
}

/// A compiled glob with the pattern it was compiled from.
pub struct GlobPattern {
    set: globset::GlobSet,
    source: Ghost<Seq<char>>,
}

impl GlobPattern {
    pub closed spec fn source(&self) -> Seq<char> {
        self.source@
    }
}

/// Compiles `pattern`, or gives the text of the error.
pub fn compile_glob(pattern: &str) -> (r: Result<GlobPattern, String>)
    ensures
        match r {
            Ok(p) => (no_backslash(pattern@) ==> glob_rejection(pattern@) is None) && p.source() == pattern@,
            Err(m) => no_backslash(pattern@) ==> (glob_rejection(pattern@) is None || glob_rejection(pattern@) == Some(m@)),
        },
{
    match glob_new(pattern) {
        Err(m) => Err(m),
        Ok(g) => match glob_set_new(g) {
            Ok(set) => Ok(GlobPattern { set, source: Ghost(pattern@) }),
            Err(m) => Err(m),
        },
    }
}

/// `GlobSet::is_match` on a path: named where neither the pattern nor the
/// path holds a backslash (elsewhere `globset` reads it by the platform).
#[verifier::external_body]
pub(crate) fn glob_is_match(p: &GlobPattern, path: &str) -> (r: bool)
    ensures
        no_backslash(p.source()) && no_backslash(path@) ==> r == glob_hit(p.source(), path@),
{
    p.set.is_match(path)
}

/// Lexicographic order of texts by code point, the order of `String`.
pub open spec fn text_le(a: Seq<char>, b: Seq<char>) -> bool
    decreases a.len(),
{
    if a.len() == 0 {
        true
    } else if b.len() == 0 {
        false
    } else if a[0] != b[0] {
        (a[0] as u32) < (b[0] as u32)
    } else {
        text_le(a.drop_first(), b.drop_first())
    }
}

/// `x` put before the first element of `s` that it does not follow.
pub open spec fn insert_sorted(x: Seq<char>, s: Seq<Seq<char>>) -> Seq<Seq<char>>
    decreases s.len(),
{
    if s.len() == 0 {
        seq![x]
    } else if text_le(x, s[0]) {
        seq![x] + s
    } else {
        seq![s[0]] + insert_sorted(x, s.drop_first())
    }
}

/// `s` in ascending order.
pub open spec fn sort_texts(s: Seq<Seq<char>>) -> Seq<Seq<char>>
    decreases s.len(),
{
    if s.len() == 0 {
        Seq::empty()
    } else {
        insert_sorted(s.last(), sort_texts(s.drop_last()))
    }
}

/// The elements of `paths` that the glob `pattern` selects, in order.
pub open spec fn glob_hits(pattern: Seq<char>, paths: Seq<Seq<char>>) -> Seq<Seq<char>>
    decreases paths.len(),
{
    if paths.len() == 0 {
        Seq::empty()
    } else {
        glob_hits(pattern, paths.drop_last()) + if glob_hit(pattern, paths.last()) {
            seq![paths.last()]
        } else {
            Seq::empty()
        }
    }
}

fn text_le_x(a: &Vec<char>, b: &Vec<char>) -> (r: bool)
    ensures
        r == text_le(a@, b@),
{
    let mut i: usize = 0;
    assert(a@.skip(0) =~= a@);
    assert(b@.skip(0) =~= b@);
    while i < a.len() && i < b.len() && a[i] == b[i]
        invariant
            i <= a.len(),
            i <= b.len(),
            text_le(a@, b@) == text_le(a@.skip(i as int), b@.skip(i as int)),
        decreases a.len() - i,
    {
        assert(a@.skip(i as int).drop_first() =~= a@.skip(i + 1));
        assert(b@.skip(i as int).drop_first() =~= b@.skip(i + 1));
        i += 1;
    }
    if i == a.len() {
        assert(a@.skip(i as int).len() == 0);
        true
    } else if i == b.len() {
        assert(b@.skip(i as int).len() == 0);
        false
    } else {
        assert(a@.skip(i as int)[0] == a@[i as int]);
        assert(b@.skip(i as int)[0] == b@[i as int]);
        (a[i] as u32) < (b[i] as u32)
    }
}

proof fn lemma_insert_at(x: Seq<char>, s: Seq<Seq<char>>, k: int)
    requires
        0 <= k <= s.len(),
        forall|j: int| 0 <= j < k ==> !text_le(x, #[trigger] s[j]),
        k < s.len() ==> text_le(x, s[k]),
    ensures
        insert_sorted(x, s) == s.take(k).push(x) + s.skip(k),
    decreases s.len(),
{
    if s.len() == 0 {
        assert(s.take(k).push(x) + s.skip(k) =~= seq![x]);
    } else if k == 0 {
        assert(s.take(0).push(x) + s.skip(0) =~= seq![x] + s);
    } else {
        let t = s.drop_first();
        assert forall|j: int| 0 <= j < k - 1 implies !text_le(x, #[trigger] t[j]) by {
            assert(t[j] == s[j + 1]);
        }
        if k - 1 < t.len() {
            assert(t[k - 1] == s[k]);
        }
        lemma_insert_at(x, t, k - 1);
        assert(seq![s[0]] + (t.take(k - 1).push(x) + t.skip(k - 1)) =~= s.take(k).push(x) + s.skip(k));
    }
}

/// Inserts `x` into the sorted texts `out`, as `insert_sorted` does.
fn insert_sorted_x(out: &mut Vec<Vec<char>>, x: Vec<char>)
    ensures
        texts_view(final(out)@) == insert_sorted(x@, texts_view(old(out)@)),
{
    let ghost s = texts_view(out@);
    let mut k: usize = 0;
    while k < out.len() && !text_le_x(&x, &out[k])
        invariant
            k <= out.len(),
            s == texts_view(out@),
            out@ == old(out)@,
            forall|j: int| 0 <= j < k ==> !text_le(x@, #[trigger] s[j]),
        decreases out.len() - k,
    {
        assert(s[k as int] == out@[k as int]@);
        k += 1;
    }
    proof {
        if k < out.len() {
            assert(s[k as int] == out@[k as int]@);
        }
        lemma_insert_at(x@, s, k as int);
    }
    let ghost xv = x@;
    out.insert(k, x);
    proof {
        assert(texts_view(out@).len() == s.len() + 1);
        assert forall|j: int| 0 <= j < texts_view(out@).len() implies #[trigger] texts_view(out@)[j] == (s.take(k as int).push(xv) + s.skip(k as int))[j] by {
            if j < k {
                assert(out@[j] == old(out)@[j]);
            } else if j > k {
                assert(out@[j] == old(out)@[j - 1]);
            }
        }
        assert(texts_view(out@) =~= s.take(k as int).push(xv) + s.skip(k as int));
    }
}

/// No text of `s` holds a backslash.
pub open spec fn all_no_backslash(s: Seq<Seq<char>>) -> bool {
    forall|i: int| 0 <= i < s.len() ==> no_backslash(#[trigger] s[i])
}

/// Which of `candidates` (paths relative to the working directory, with
/// `/` separators) the glob `pattern` selects, sorted; a pattern that does
/// not compile is `BadGlob`. Exact where neither the pattern nor a
/// candidate holds a backslash.
pub fn select_glob_matches(pattern: &str, candidates: &[String]) -> (r: Result<Vec<String>, ControlFlowError>)
    ensures
        match r {
            Ok(v) => no_backslash(pattern@) && all_no_backslash(strs_view(candidates@)) ==> glob_rejection(pattern@) is None
                && strs_view(v@) == sort_texts(glob_hits(pattern@, strs_view(candidates@))),
            Err(ControlFlowError::BadGlob(p, m)) => p@ == pattern@
                && (no_backslash(pattern@) ==> (glob_rejection(pattern@) is None || glob_rejection(pattern@) == Some(m@))),
            Err(_) => false,
        },
{
    let g = match compile_glob(pattern) {
        Ok(g) => g,
        Err(m) => {
            return Err(ControlFlowError::BadGlob(string_of(&chars_of(pattern)), m));
        },
    };
    let ghost paths = strs_view(candidates@);
    let mut sorted: Vec<Vec<char>> = Vec::new();
    let mut i: usize = 0;
    while i < candidates.len()
        invariant
            i <= candidates.len(),
            paths == strs_view(candidates@),
            g.source() == pattern@,
            no_backslash(pattern@) && all_no_backslash(paths) ==> texts_view(sorted@) == sort_texts(glob_hits(pattern@, paths.take(i as int))),
        decreases candidates.len() - i,
    {
        let ghost pre = paths.take(i + 1);
        assert(pre.drop_last() =~= paths.take(i as int));
        assert(pre.last() == candidates@[i as int]@);
        assert(all_no_backslash(paths) ==> no_backslash(paths[i as int]));
        if glob_is_match(&g, candidates[i].as_str()) {
            proof {
                if no_backslash(pattern@) && all_no_backslash(paths) {
                    let hs = glob_hits(pattern@, paths.take(i as int));
                    assert(glob_hits(pattern@, pre) == hs.push(candidates@[i as int]@)) by {
                        assert(hs + seq![candidates@[i as int]@] =~= hs.push(candidates@[i as int]@));
                    }
                    assert(hs.push(candidates@[i as int]@).drop_last() =~= hs);
                }
            }
            insert_sorted_x(&mut sorted, chars_of(candidates[i].as_str()));
        } else {
            proof {
                if no_backslash(pattern@) && all_no_backslash(paths) {
                    assert(glob_hits(pattern@, pre) =~= glob_hits(pattern@, paths.take(i as int)));
                }
            }
        }
        i += 1;
    }
    assert(paths.take(i as int) =~= paths);
    let mut out: Vec<String> = Vec::new();
    let mut k: usize = 0;
    while k < sorted.len()
        invariant
            k <= sorted.len(),
            out.len() == k,
            forall|j: int| 0 <= j < k ==> (#[trigger] out@[j])@ == sorted@[j]@,
        decreases sorted.len() - k,
    {
        out.push(string_of(&sorted[k]));
        k += 1;
    }
    proof {
        assert forall|j: int| 0 <= j < out.len() implies #[trigger] strs_view(out@)[j] == texts_view(sorted@)[j] by {}
        assert(strs_view(out@) =~= texts_view(sorted@));
    }
    Ok(out)
}

} // verus!
