//! Executable lookups and scans used by the evaluator, each proved equal to
//! its spec function in [`crate::model`].

use vstd::prelude::*;
use crate::model::{lookup_first, lookup_last, lookup_folded, env_lookup, run_key, find_from,
    lemma_find_from, ident_start, ident_char, is_ident, ident_end, lemma_ident_end, call_open, whole_block,
    dsl_scan, looks_like_dsl, comparison, ternary, parse_args, pieces_from, flat, Chunk};
use crate::values::{pairs_view, opt_view, texts_view, chunks_view, ChunkX, CtxX, copy_chars};
use crate::text::{chars_of, seq_eq, eq_lit, occurs_at, occurs_at_exec, occurs_lit, trim, trim_exec,
    is_ws, char_is_ws, slice_of, push_all, string_of, ends_with, lemma_trim_len};
use crate::scan::{at, at2, at2_exec, find_close, find_close_exec, lemma_find_close, opt_usize,
    skip_unit, skip_unit_exec, lemma_skip_unit, find_top_from, find_top_exec, split_top, split_top_exec,
    lemma_split_top, ranges_ok};
use crate::outside::{lower, to_lower_text};

verus! {

/// The lower-cased text of `v`.
pub fn lower_chars(v: &Vec<char>) -> (r: Vec<char>)
    ensures
        r@ == lower(v@),
{
    let s = string_of(v);
    let l = to_lower_text(s.as_str());
    chars_of(l.as_str())
}

pub fn lookup_first_x(p: &Vec<(Vec<char>, Vec<char>)>, k: &Vec<char>) -> (r: Option<Vec<char>>)
    ensures
        opt_view(r) == lookup_first(pairs_view(p@), k@),
{
    let mut i: usize = 0;
    assert(pairs_view(p@).skip(0) =~= pairs_view(p@));
    while i < p.len()
        invariant
            i <= p.len(),
            lookup_first(pairs_view(p@), k@) == lookup_first(pairs_view(p@).skip(i as int), k@),
        decreases p.len() - i,
    {
        let ghost rest = pairs_view(p@).skip(i as int);
        assert(rest[0] == (p@[i as int].0@, p@[i as int].1@));
        if seq_eq(&p[i].0, k) {
            return Some(copy_chars(&p[i].1));
        }
        assert(rest.skip(1) =~= pairs_view(p@).skip(i + 1));
        i += 1;
    }
    assert(pairs_view(p@).skip(i as int).len() == 0);
    None
}

pub fn lookup_last_x(p: &Vec<(Vec<char>, Vec<char>)>, k: &Vec<char>) -> (r: Option<Vec<char>>)
    ensures
        opt_view(r) == lookup_last(pairs_view(p@), k@),
{
    let mut j: usize = p.len();
    assert(pairs_view(p@).take(j as int) =~= pairs_view(p@));
    while j > 0
        invariant
            j <= p.len(),
            lookup_last(pairs_view(p@), k@) == lookup_last(pairs_view(p@).take(j as int), k@),
        decreases j,
    {
        let ghost pre = pairs_view(p@).take(j as int);
        assert(pre.last() == (p@[j - 1].0@, p@[j - 1].1@));
        if seq_eq(&p[j - 1].0, k) {
            return Some(copy_chars(&p[j - 1].1));
        }
        assert(pre.drop_last() =~= pairs_view(p@).take(j - 1));
        j -= 1;
    }
    None
}

pub fn lookup_folded_x(p: &Vec<(Vec<char>, Vec<char>)>, lk: &Vec<char>) -> (r: Option<Vec<char>>)
    ensures
        opt_view(r) == lookup_folded(pairs_view(p@), lk@),
{
    let mut i: usize = 0;
    assert(pairs_view(p@).skip(0) =~= pairs_view(p@));
    while i < p.len()
        invariant
            i <= p.len(),
            lookup_folded(pairs_view(p@), lk@) == lookup_folded(pairs_view(p@).skip(i as int), lk@),
        decreases p.len() - i,
    {
        let ghost rest = pairs_view(p@).skip(i as int);
        assert(rest[0] == (p@[i as int].0@, p@[i as int].1@));
        let l = lower_chars(&p[i].0);
        if seq_eq(&l, lk) {
            return Some(copy_chars(&p[i].1));
        }
        assert(rest.skip(1) =~= pairs_view(p@).skip(i + 1));
        i += 1;
    }
    assert(pairs_view(p@).skip(i as int).len() == 0);
    None
}

pub fn env_lookup_x(env: &Vec<(Vec<char>, Vec<char>)>, k: &Vec<char>) -> (r: Option<Vec<char>>)
    ensures
        opt_view(r) == env_lookup(pairs_view(env@), k@),
{
    match lookup_first_x(env, k) {
        Some(v) => Some(v),
        None => {
            let lk = lower_chars(k);
            lookup_folded_x(env, &lk)
        },
    }
}

pub fn run_key_x(c: &CtxX, k: &Vec<char>) -> (r: Option<Vec<char>>)
    ensures
        opt_view(r) == run_key(c@, k@),
{
    if eq_lit(k, "os") {
        Some(copy_chars(&c.os))
    } else if eq_lit(k, "shell") {
        Some(copy_chars(&c.shell))
    } else if eq_lit(k, "arch") {
        Some(copy_chars(&c.arch))
    } else if eq_lit(k, "parent") {
        Some(copy_chars(&c.parent))
    } else {
        None
    }
}

pub fn find_from_x(t: &Vec<char>, p: &str) -> (r: Option<usize>)
    ensures
        opt_usize(r, find_from(t@, p@, 0)),
{
    let pv = chars_of(p);
    let mut i: usize = 0;
    while i < t.len()
        invariant
            i <= t.len(),
            pv@ == p@,
            find_from(t@, p@, 0) == find_from(t@, p@, i as int),
        decreases t.len() - i,
    {
        if occurs_at_exec(t, i, &pv) {
            return Some(i);
        }
        i += 1;
    }
    None
}

/// The branches of a `FLAGS.` ternary.
pub fn ternary_x(rest: &Vec<char>) -> (r: (Vec<char>, Vec<char>))
    ensures
        (r.0@, r.1@) == ternary(rest@),
{
    proof {
        lemma_find_from(rest@, " : "@, 0);
    }
    let sep = chars_of(" : ");
    match find_from_x(rest, " : ") {
        Some(p) => {
            assert(occurs_at(rest@, p as int, " : "@));
            assert(sep@ == " : "@);
            assert(p + sep@.len() <= rest@.len());
            let a = slice_of(rest, 0, p);
            let sl = sep.len();
            assert(sl == sep@.len());
            assert(p + sl <= rest.len());
            let b = slice_of(rest, p + sl, rest.len());
            assert(a@ == rest@.take(p as int));
            assert(b@ == rest@.skip(p + " : "@.len()));
            (trim_exec(&a), trim_exec(&b))
        },
        None => {
            let tr = trim_exec(rest);
            let colon = chars_of(" :");
            if tr.len() >= colon.len() && occurs_at_exec(&tr, tr.len() - colon.len(), &colon) {
                let a = slice_of(&tr, 0, tr.len() - colon.len());
                assert(a@ == tr@.take(tr@.len() - " :"@.len()));
                (trim_exec(&a), Vec::new())
            } else {
                (tr, Vec::new())
            }
        },
    }
}

pub fn ident_start_x(c: char) -> (r: bool)
    ensures
        r == ident_start(c),
{
    ('a' <= c && c <= 'z') || ('A' <= c && c <= 'Z') || c == '_'
}

pub fn ident_char_x(c: char) -> (r: bool)
    ensures
        r == ident_char(c),
{
    ident_start_x(c) || ('0' <= c && c <= '9')
}

pub fn ident_end_x(t: &Vec<char>, i0: usize) -> (r: usize)
    requires
        i0 <= t.len(),
    ensures
        r as int == ident_end(t@, i0 as int),
{
    let mut i = i0;
    while i < t.len() && ident_char_x(t[i])
        invariant
            i0 <= i <= t.len(),
            ident_end(t@, i0 as int) == ident_end(t@, i as int),
        decreases t.len() - i,
    {
        i += 1;
    }
    i
}

pub fn is_ident_x(t: &Vec<char>) -> (r: bool)
    ensures
        r == is_ident(t@),
{
    if t.len() == 0 || !ident_start_x(t[0]) {
        return false;
    }
    let mut i: usize = 0;
    while i < t.len()
        invariant
            i <= t.len(),
            forall|k: int| 0 <= k < i ==> ident_char(#[trigger] t@[k]),
        decreases t.len() - i,
    {
        if !ident_char_x(t[i]) {
            return false;
        }
        i += 1;
    }
    true
}

pub fn call_open_x(t: &Vec<char>) -> (r: Option<usize>)
    ensures
        opt_usize(r, call_open(t@)),
{
    if t.len() == 0 || !ident_start_x(t[0]) {
        return None;
    }
    let p = ident_end_x(t, 0);
    if p < t.len() && t[p] == '(' {
        Some(p)
    } else {
        None
    }
}

pub fn whole_block_x(t: &Vec<char>) -> (r: bool)
    ensures
        r == whole_block(t@),
{
    if !at2_exec(t, 0, '{', '{') {
        return false;
    }
    proof {
        lemma_find_close(t@, 2, 1);
    }
    match find_close_exec(t, 2) {
        Some(j) => {
            assert(find_close(t@, 2, 1) == Some(j as int));
            assert(j + 1 < t.len());
            j + 2 == t.len()
        },
        None => false,
    }
}

pub fn looks_like_dsl_x(t: &Vec<char>) -> (r: bool)
    ensures
        r == looks_like_dsl(t@),
{
    let mut i: usize = 0;
    while i < t.len()
        invariant
            i <= t.len(),
            looks_like_dsl(t@) == dsl_scan(t@, i as int),
        decreases t.len() - i,
    {
        if occurs_lit(t, i, "==") || occurs_lit(t, i, "&&") || occurs_lit(t, i, "||") || t[i] == '!' {
            return true;
        }
        proof {
            lemma_skip_unit(t@, i as int);
        }
        i = skip_unit_exec(t, i);
    }
    false
}

pub fn comparison_x(t: &Vec<char>) -> (r: Option<(usize, bool)>)
    ensures
        match r {
            Some((p, eq)) => comparison(t@) == Some((p as int, eq)),
            None => comparison(t@) is None,
        },
{
    let e = chars_of("==");
    let n = chars_of("!=");
    let fe = find_top_exec(t, &e);
    let fneq = find_top_exec(t, &n);
    match (fe, fneq) {
        (Some(a), Some(b)) => if a < b { Some((a, true)) } else { Some((b, false)) },
        (Some(a), None) => Some((a, true)),
        (None, Some(b)) => Some((b, false)),
        (None, None) => None,
    }
}

/// The arguments of a call (see [`parse_args`]).
pub fn parse_args_x(inner: &Vec<char>) -> (r: Result<Vec<Vec<char>>, Vec<char>>)
    ensures
        match r {
            Ok(ps) => parse_args(inner@) == Ok::<Seq<Seq<char>>, Seq<char>>(texts_view(ps@)),
            Err(m) => parse_args(inner@) == Err::<Seq<Seq<char>>, Seq<char>>(m@),
        },
{
    let tr = trim_exec(inner);
    if tr.len() == 0 {
        let e: Vec<Vec<char>> = Vec::new();
        assert(texts_view(e@) =~= Seq::<Seq<char>>::empty());
        return Ok(e);
    }
    let comma = chars_of(",");
    let rs = split_top_exec(inner, &comma);
    let ghost rsv = rs@.map_values(|p: (usize, usize)| (p.0 as int, p.1 as int));
    proof {
        lemma_split_top(inner@, ","@);
    }
    let mut acc: Vec<Vec<char>> = Vec::new();
    assert(texts_view(acc@) =~= Seq::<Seq<char>>::empty());
    let mut k: usize = 0;
    while k < rs.len()
        invariant
            k <= rs.len(),
            rsv == split_top(inner@, ","@),
            rsv == rs@.map_values(|p: (usize, usize)| (p.0 as int, p.1 as int)),
            ranges_ok(inner@, rsv),
            parse_args(inner@) == pieces_from(inner@, rsv, k as int, texts_view(acc@)),
        decreases rs.len() - k,
    {
        assert(rsv[k as int] == (rs@[k as int].0 as int, rs@[k as int].1 as int));
        let (lo, hi) = rs[k];
        let raw = slice_of(inner, lo, hi);
        if k + 1 < rs.len() && raw.len() > 0 && char_is_ws(raw[raw.len() - 1]) {
            return Err(chars_of("unexpected space before `,`"));
        }
        if k > 0 && !(raw.len() > 0 && raw[0] == ' ') {
            return Err(chars_of("missing space after `,`"));
        }
        let piece = trim_exec(&raw);
        if k > 0 && (raw.len() < 2 || char_is_ws(raw[1])) {
            if piece.len() == 0 {
                return Err(chars_of("empty argument after `,`"));
            } else {
                return Err(chars_of("more than one space after `,`"));
            }
        }
        if piece.len() == 0 {
            return Err(chars_of("empty argument"));
        }
        let ghost old_acc = acc@;
        acc.push(piece);
        assert(texts_view(acc@) =~= texts_view(old_acc).push(piece@));
        k += 1;
    }
    Ok(acc)
}

/// The text of chunks, with `rest` in place of every `{{ ARGS }}`.
pub fn flat_x(cs: &Vec<ChunkX>, rest: &Vec<char>) -> (r: Vec<char>)
    ensures
        r@ == flat(chunks_view(cs@), rest@),
{
    let mut out: Vec<char> = Vec::new();
    let mut i: usize = 0;
    assert(chunks_view(cs@).take(0) =~= Seq::<Chunk>::empty());
    while i < cs.len()
        invariant
            i <= cs.len(),
            out@ == flat(chunks_view(cs@).take(i as int), rest@),
        decreases cs.len() - i,
    {
        let ghost pre = chunks_view(cs@).take(i as int + 1);
        assert(pre.drop_last() =~= chunks_view(cs@).take(i as int));
        assert(pre.last() == cs@[i as int]@);
        match &cs[i] {
            ChunkX::Text(v) => push_all(&mut out, v),
            ChunkX::Rest => push_all(&mut out, rest),
        }
        i += 1;
    }
    assert(chunks_view(cs@).take(cs.len() as int) =~= chunks_view(cs@));
    out
}

} // verus!
