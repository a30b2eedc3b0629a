//! Dotted paths into JSON documents (`users.0.name`), as `json_get` and
//! `json_set` read them.

use vstd::prelude::*;
use crate::errors::{SubstitutionError, ErrV};
use crate::text::{is_ws, char_is_ws, trim, lead, trail, chars_of, string_of, push_str};
use crate::funcs::{split_parts, split_parts_x, parse_count, parse_count_x, all_digits, digits_value};
use crate::values::texts_view;

verus! {

/// One step of a JSON path: an object key or an array index.
#[derive(Debug, Clone)]
pub enum JsonPathSegment {
    Key(String),
    Index(usize),
}

/// A step by its value.
pub enum JsonStep {
    Key(Seq<char>),
    Index(nat),
}

pub open spec fn step_view(s: JsonPathSegment) -> JsonStep {
    match s {
        JsonPathSegment::Key(k) => JsonStep::Key(k@),
        JsonPathSegment::Index(i) => JsonStep::Index(i as nat),
    }
}

/// `s.parse::<usize>()`: an optional `+`, at least one ASCII digit and
/// nothing else, with a value that fits in `usize`.
pub open spec fn usize_text(s: Seq<char>) -> Option<nat> {
    let d = if s.len() > 0 && s[0] == '+' { s.skip(1) } else { s };
    if d.len() > 0 && all_digits(d) && digits_value(d) <= usize::MAX {
        Some(digits_value(d))
    } else {
        None
    }
}

/// A segment is an index when it reads as a `usize`, else a key.
pub open spec fn step_of(seg: Seq<char>) -> JsonStep {
    match usize_text(seg) {
        Some(n) => JsonStep::Index(n),
        None => JsonStep::Key(seg),
    }
}

pub open spec fn empty_segment_text() -> Seq<char> {
    "empty segment (consecutive `.` or leading/trailing `.`)"@
}

/// The steps of a path: none for the empty path; otherwise one per
/// `.`-separated segment, and an error when a segment is empty.
pub open spec fn json_path(path: Seq<char>) -> Result<Seq<JsonStep>, ErrV> {
    let parts = split_parts(path, "."@);
    if path.len() == 0 {
        Ok(Seq::empty())
    } else if exists|i: int| 0 <= i < parts.len() && (#[trigger] parts[i]).len() == 0 {
        Err(ErrV::InvalidJsonPath(path, empty_segment_text()))
    } else {
        Ok(parts.map_values(|p: Seq<char>| step_of(p)))
    }
}

pub open spec fn path_view(r: Result<Vec<JsonPathSegment>, SubstitutionError>) -> Result<Seq<JsonStep>, ErrV> {
    match r {
        Ok(v) => Ok(v@.map_values(|s: JsonPathSegment| step_view(s))),
        Err(e) => Err(e@),
    }
}

fn index_of_x(seg: &Vec<char>) -> (r: Option<usize>)
    requires
        seg.len() > 0,
    ensures
        match r {
            Some(n) => usize_text(seg@) == Some(n as nat),
            None => usize_text(seg@) is None,
        },
{
    let ghost s = seg@;
    if char_is_ws(seg[0]) {
        proof {
            let d = if s.len() > 0 && s[0] == '+' { s.skip(1) } else { s };
            assert(d == s);
            assert(!crate::funcs::is_digit(d[0]));
        }
        return None;
    }
    if char_is_ws(seg[seg.len() - 1]) {
        proof {
            let d = if s.len() > 0 && s[0] == '+' { s.skip(1) } else { s };
            if d.len() > 0 {
                assert(d[d.len() - 1] == s[s.len() - 1]);
                assert(!crate::funcs::is_digit(d[d.len() - 1]));
            }
        }
        return None;
    }
    proof {
        assert(lead(s, 0) == 0);
        assert(s.subrange(0, s.len() as int) =~= s);
        assert(trail(s, s.len() as int) == s.len());
        assert(trim(s) =~= s);
    }
    parse_count_x(seg)
}

/// Parses a dotted JSON path. A segment that reads as a `usize` is an array
/// index (an object holding it as a key is still found by `json_get`);
/// every other segment is a key. The empty path is the whole document.
pub fn parse_json_path(path: &str) -> (r: Result<Vec<JsonPathSegment>, SubstitutionError>)
    ensures
        path_view(r) == json_path(path@),
{
    let p = chars_of(path);
    if p.len() == 0 {
        let v: Vec<JsonPathSegment> = Vec::new();
        assert(v@.map_values(|s: JsonPathSegment| step_view(s)) =~= Seq::<JsonStep>::empty());
        return Ok(v);
    }
    let dot = chars_of(".");
    let parts = split_parts_x(&p, &dot);
    let ghost ps = texts_view(parts@);
    let mut out: Vec<JsonPathSegment> = Vec::new();
    let mut i: usize = 0;
    while i < parts.len()
        invariant
            i <= parts.len(),
            p@ == path@,
            p.len() > 0,
            ps == texts_view(parts@),
            ps == split_parts(path@, "."@),
            forall|j: int| 0 <= j < i ==> (#[trigger] ps[j]).len() > 0,
            out.len() == i,
            forall|j: int| 0 <= j < i ==> step_view(#[trigger] out@[j]) == step_of(ps[j]),
        decreases parts.len() - i,
    {
        assert(ps[i as int] == parts@[i as int]@);
        if parts[i].len() == 0 {
            let mut m: Vec<char> = Vec::new();
            push_str(&mut m, "empty segment (consecutive `.` or leading/trailing `.`)");
            assert(ps[i as int].len() == 0);
            assert(exists|j: int| 0 <= j < ps.len() && (#[trigger] ps[j]).len() == 0);
            assert(m@ =~= empty_segment_text());
            let e = SubstitutionError::InvalidJsonPath(string_of(&p), string_of(&m));
            assert(e@ == ErrV::InvalidJsonPath(path@, empty_segment_text()));
            assert(path@.len() != 0);
            assert(split_parts(path@, "."@)[i as int].len() == 0);
            assert(json_path(path@) == Err::<Seq<JsonStep>, ErrV>(ErrV::InvalidJsonPath(path@, empty_segment_text())));
            return Err(e);
        }
        match index_of_x(&parts[i]) {
            Some(n) => out.push(JsonPathSegment::Index(n)),
            None => out.push(JsonPathSegment::Key(string_of(&parts[i]))),
        }
        i += 1;
    }
    proof {
        assert(!(exists|j: int| 0 <= j < ps.len() && (#[trigger] ps[j]).len() == 0));
        assert(out@.map_values(|s: JsonPathSegment| step_view(s)) =~= ps.map_values(|q: Seq<char>| step_of(q)));
    }
    Ok(out)
}

} // verus!
