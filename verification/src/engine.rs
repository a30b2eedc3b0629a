//! The evaluator: executable, and proved equal, function by function, to
//! the language of [`crate::model`].

use vstd::prelude::*;
use crate::model::{Chunk, Stop, St, SegOut, source_step, seg_step, ask_value, flag_present, mark_flag, consume, host_call, apply_fn, chain_end,
    walk, body_value, arg_value, flag_value, literal_value, chain_from, call_value, args_from, dsl_or, or_from,
    dsl_and, and_from, dsl_term, dsl_operand, seg_count, segment, lemma_segment, lemma_find_from, lemma_ternary,
    lemma_ident_end, lemma_parse_args, call_open, comparison};
use crate::values::{ChunkX, QueryX, AnswerX, StopX, StX, CtxX, chunks_view, texts_view, answers_view, opt_view,
    rv, rb, copy_chars, copy_texts, copy_error, text};
use crate::errors::{SubstitutionError, ErrV};
use crate::text::{chars_of, eq_lit, occurs_lit, push_all, push_str, slice_of, trim, trim_exec, starts_with,
    occurs_at, lemma_trim_len, dec_exec};
use crate::scan::{at, at2, at2_exec, escape_at, escape_at_exec, find_close, find_close_exec, lemma_find_close,
    close_paren, close_paren_exec, lemma_close_paren, split_top, split_top_exec, lemma_split_top, opt_usize};
use crate::lex::{lookup_first_x, lookup_last_x, env_lookup_x, run_key_x, find_from_x, ternary_x, ident_end_x,
    is_ident_x, call_open_x, whole_block_x, looks_like_dsl_x, comparison_x, parse_args_x, flat_x};
use crate::builtins::{FnOut, FnOutX, fn_result, fn_result_x};
use crate::funcs::bool_text_x;

verus! {

pub open spec fn rc(r: Result<Vec<ChunkX>, StopX>) -> Result<Seq<Chunk>, Stop> {
    match r {
        Ok(v) => Ok(chunks_view(v@)),
        Err(e) => Err(e@),
    }
}

pub open spec fn ro(r: Result<Option<Vec<char>>, StopX>) -> Result<Option<Seq<char>>, Stop> {
    match r {
        Ok(v) => Ok(opt_view(v)),
        Err(e) => Err(e@),
    }
}

pub open spec fn le_view(le: Option<SubstitutionError>) -> Option<ErrV> {
    match le {
        Some(e) => Some(e@),
        None => None,
    }
}

fn err(e: SubstitutionError) -> (r: StopX)
    ensures
        r@ == Stop::Fail(e@),
{
    StopX::Fail(e)
}

fn lit(s: &str) -> (r: Vec<char>)
    ensures
        r@ == s@,
{
    chars_of(s)
}

fn ask_value_x(c: &CtxX, key: &Vec<char>, default: Option<Vec<char>>, s: &mut StX) -> (r: Result<Option<Vec<char>>, StopX>)
    ensures
        (ro(r), final(s)@) == ask_value(c@, key@, opt_view(default), old(s)@),
{
    if s.pos < c.answers.len() {
        let a = match &c.answers[s.pos] {
            AnswerX::Value(Some(v)) => Some(copy_chars(v)),
            _ => None,
        };
        assert(answers_view(c.answers@)[s.pos as int] == c.answers@[s.pos as int]@);
        s.pos = s.pos + 1;
        Ok(a)
    } else {
        Err(StopX::Ask(QueryX::Value { key: copy_chars(key), default }))
    }
}

fn flag_present_x(c: &CtxX, key: &Vec<char>, s: &mut StX) -> (r: Result<bool, StopX>)
    ensures
        (rb(r), final(s)@) == flag_present(c@, key@, old(s)@),
{
    if lookup_first_x(&c.named, key).is_some() {
        Ok(true)
    } else if c.prompt {
        if s.pos < c.answers.len() {
            let b = match &c.answers[s.pos] {
                AnswerX::Flag(b) => *b,
                _ => false,
            };
            assert(answers_view(c.answers@)[s.pos as int] == c.answers@[s.pos as int]@);
            s.pos = s.pos + 1;
            Ok(b)
        } else {
            let mut k = lit("--");
            push_all(&mut k, key);
            Err(StopX::Ask(QueryX::Flag { key: k }))
        }
    } else {
        Ok(false)
    }
}

fn mark_flag_x(s: &mut StX, key: &Vec<char>)
    ensures
        final(s)@ == mark_flag(old(s)@, key@),
{
    let ghost o = s@;
    s.consumed.push(copy_chars(key));
    s.flags.push(copy_chars(key));
    assert(s@.consumed =~= o.consumed.push(key@));
    assert(s@.flags =~= o.flags.push(key@));
}

fn consume_x(s: &mut StX, key: &Vec<char>)
    ensures
        final(s)@ == consume(old(s)@, key@),
{
    let ghost o = s@;
    s.consumed.push(copy_chars(key));
    assert(s@.consumed =~= o.consumed.push(key@));
}

fn host_call_x(c: &CtxX, name: &Vec<char>, args: &Vec<Vec<char>>, s: &mut StX) -> (r: Result<Vec<char>, StopX>)
    ensures
        (rv(r), final(s)@) == host_call(c@, name@, texts_view(args@), old(s)@),
{
    if s.pos < c.answers.len() {
        assert(answers_view(c.answers@)[s.pos as int] == c.answers@[s.pos as int]@);
        let r = match &c.answers[s.pos] {
            AnswerX::Call(Ok(v)) => Ok(copy_chars(v)),
            AnswerX::Call(Err(e)) => Err(StopX::Fail(copy_error(e))),
            _ => Err(StopX::Fail(SubstitutionError::FunctionUnavailable(text(name)))),
        };
        s.pos = s.pos + 1;
        r
    } else {
        Err(StopX::Ask(QueryX::Call { name: copy_chars(name), args: copy_texts(args) }))
    }
}

fn apply_fn_x(c: &CtxX, name: &Vec<char>, vals: &Vec<Vec<char>>, s: &mut StX) -> (r: Result<Vec<char>, StopX>)
    ensures
        (rv(r), final(s)@) == apply_fn(c@, name@, texts_view(vals@), old(s)@),
{
    match fn_result_x(&c.shell, c.redact, c.dry_run, name, vals) {
        FnOutX::Value(Ok(v)) => Ok(v),
        FnOutX::Value(Err(e)) => Err(StopX::Fail(e)),
        FnOutX::Host => host_call_x(c, name, vals, s),
        FnOutX::Unknown => Err(StopX::Fail(SubstitutionError::UnknownFunction(text(name)))),
    }
}

fn chain_end_x(c: &CtxX, pk: Option<Vec<char>>, le: Option<SubstitutionError>, s: &mut StX) -> (r: Result<Vec<char>, StopX>)
    ensures
        (rv(r), final(s)@) == chain_end(c@, opt_view(pk), le_view(le), old(s)@),
{
    match pk {
        Some(key) => {
            match ask_value_x(c, &key, None, s) {
                Err(e) => Err(e),
                Ok(Some(x)) => Ok(x),
                Ok(None) => match le {
                    Some(e) => Err(StopX::Fail(e)),
                    None => Ok(Vec::new()),
                },
            }
        },
        None => match le {
            Some(e) => Err(StopX::Fail(e)),
            None => Ok(Vec::new()),
        },
    }
}

/// Walks template `t` (see [`walk`]).
pub fn walk_x(c: &CtxX, t: &Vec<char>, nested: bool, s: &mut StX) -> (r: Result<Vec<ChunkX>, StopX>)
    ensures
        (rc(r), final(s)@) == walk(c@, t@, nested, 0, Seq::empty(), old(s)@),
    decreases t@.len(), 1int, 0int,
{
    let mut out: Vec<ChunkX> = Vec::new();
    let mut i: usize = 0;
    let ghost s0 = s@;
    assert(chunks_view(out@) =~= Seq::<Chunk>::empty());
    while i < t.len()
        invariant
            old(s)@ == s0,
            i <= t.len(),
            walk(c@, t@, nested, 0, Seq::empty(), s0) == walk(c@, t@, nested, i as int, chunks_view(out@), s@),
        decreases t.len() - i,
    {
        let ghost o = chunks_view(out@);
        let ghost oo = out@;
        if escape_at_exec(t, i) {
            let ch = t[i + 1];
            let mut two: Vec<char> = Vec::new();
            two.push(ch);
            two.push(ch);
            assert(two@ =~= seq![t@[i + 1], t@[i + 1]]);
            out.push(ChunkX::Text(two));
            assert(out@ == oo.push(ChunkX::Text(two)));
            assert(chunks_view(out@) =~= o.push(Chunk::Text(seq![t@[i + 1], t@[i + 1]])));
            i = i + 3;
        } else if at2_exec(t, i, '{', '{') {
            proof {
                lemma_find_close(t@, i + 2, 1);
            }
            match find_close_exec(t, i + 2) {
                None => {
                    let rest = slice_of(t, i, t.len());
                    let m = lit("unclosed `{{`");
                    return Err(err(SubstitutionError::MalformedSubstitution(text(&rest), text(&m))));
                },
                Some(j) => {
                    let raw = slice_of(t, i + 2, j);
                    proof {
                        lemma_trim_len(raw@);
                    }
                    let body = trim_exec(&raw);
                    if eq_lit(&body, "ARGS") {
                        if nested {
                            let m = lit("`{{ ARGS }}` stands only at the top level of a command");
                            return Err(err(SubstitutionError::MalformedSubstitution(text(&body), text(&m))));
                        }
                        out.push(ChunkX::Rest);
                        assert(out@ == oo.push(ChunkX::Rest));
                        assert(chunks_view(out@) =~= o.push(Chunk::Rest));
                    } else {
                        let r = body_value_x(c, &body, s);
                        match r {
                            Ok(v) => {
                                let ghost vv = v@;
                                out.push(ChunkX::Text(v));
                                assert(out@ == oo.push(ChunkX::Text(v)));
                                assert(chunks_view(out@) =~= o.push(Chunk::Text(vv)));
                            },
                            Err(StopX::Fail(SubstitutionError::TryFailed { .. })) => {},
                            Err(e) => {
                                return Err(e);
                            },
                        }
                    }
                    i = j + 2;
                },
            }
        } else {
            let mut one: Vec<char> = Vec::new();
            one.push(t[i]);
            assert(one@ =~= seq![t@[i as int]]);
            out.push(ChunkX::Text(one));
            assert(out@ == oo.push(ChunkX::Text(one)));
            assert(chunks_view(out@) =~= o.push(Chunk::Text(seq![t@[i as int]])));
            i = i + 1;
        }
    }
    Ok(out)
}

/// The value of a block's body (see [`body_value`]).
pub fn body_value_x(c: &CtxX, b: &Vec<char>, s: &mut StX) -> (r: Result<Vec<char>, StopX>)
    ensures
        (rv(r), final(s)@) == body_value(c@, b@, old(s)@),
    decreases b@.len(), 12int, 0int,
{
    proof {
        lemma_trim_len(b@);
    }
    let t = trim_exec(b);
    if looks_like_dsl_x(&t) {
        match dsl_or_x(c, &t, s) {
            Ok(x) => Ok(bool_text_x(x)),
            Err(e) => Err(e),
        }
    } else {
        arg_value_x(c, &t, s)
    }
}

/// The value of an argument expression (see [`arg_value`]).
pub fn arg_value_x(c: &CtxX, a: &Vec<char>, s: &mut StX) -> (r: Result<Vec<char>, StopX>)
    ensures
        (rv(r), final(s)@) == arg_value(c@, a@, old(s)@),
    decreases a@.len(), 5int, 0int,
{
    proof {
        lemma_trim_len(a@);
    }
    let t = trim_exec(a);
    if occurs_lit(&t, 0, "FLAGS.") {
        flag_value_x(c, &t, s)
    } else {
        chain_x(c, &t, s)
    }
}

/// A `FLAGS.` expression (see [`flag_value`]).
pub fn flag_value_x(c: &CtxX, a: &Vec<char>, s: &mut StX) -> (r: Result<Vec<char>, StopX>)
    requires
        starts_with(a@, "FLAGS."@),
    ensures
        (rv(r), final(s)@) == flag_value(c@, a@, old(s)@),
    decreases a@.len(), 4int, 0int,
{
    let pre = lit("FLAGS.");
    let after = slice_of(a, pre.len(), a.len());
    assert(after@ == a@.skip("FLAGS."@.len() as int));
    proof {
        lemma_find_from(after@, "?"@, 0);
    }
    let q = find_from_x(&after, "?");
    let key = match q {
        Some(p) => {
            let k0 = slice_of(&after, 0, p);
            assert(k0@ == after@.take(p as int));
            trim_exec(&k0)
        },
        None => trim_exec(&after),
    };
    if key.len() == 0 {
        let mut out = lit("{{ ");
        push_all(&mut out, a);
        push_str(&mut out, " }}");
        return Ok(out);
    }
    let present = match flag_present_x(c, &key, s) {
        Err(e) => {
            return Err(e);
        },
        Ok(b) => b,
    };
    mark_flag_x(s, &key);
    match q {
        None => Ok(bool_text_x(present)),
        Some(p) => {
            assert(occurs_at(after@, p as int, "?"@));
            proof {
                reveal_strlit("?");
            }
            let rest = slice_of(&after, p + 1, after.len());
            assert(rest@ == after@.skip(p + 1));
            proof {
                lemma_ternary(rest@);
            }
            let br = ternary_x(&rest);
            let chosen = if present { br.0 } else { br.1 };
            if chosen.len() == 0 {
                Ok(Vec::new())
            } else if chosen.len() < a.len() {
                arg_value_x(c, &chosen, s)
            } else {
                Ok(Vec::new())
            }
        },
    }
}

/// A literal segment (see [`literal_value`]).
pub fn literal_value_x(c: &CtxX, seg: &Vec<char>, s: &mut StX) -> (r: Result<Vec<char>, StopX>)
    ensures
        (rv(r), final(s)@) == literal_value(c@, seg@, old(s)@),
    decreases seg@.len(), 2int, 0int,
{
    let n = seg.len();
    let ghost s_before = s@;
    if n == 0 {
        assert(literal_value(c@, seg@, s_before) == (Ok::<Seq<char>, Stop>(Seq::empty()), s_before));
        let e: Vec<char> = Vec::new();
        assert(e@ =~= Seq::<char>::empty());
        Ok(e)
    } else if n >= 2 && seg[0] == '\'' && seg[n - 1] == '\'' {
        let inner = slice_of(seg, 1, n - 1);
        assert(inner@ == seg@.subrange(1, seg@.len() - 1));
        match walk_x(c, &inner, true, s) {
            Ok(cs) => {
                let e: Vec<char> = Vec::new();
                assert(e@ =~= Seq::<char>::empty());
                let f = flat_x(&cs, &e);
                Ok(f)
            },
            Err(e) => Err(e),
        }
    } else if n >= 2 && seg[0] == '"' && seg[n - 1] == '"' {
        Ok(copy_chars(seg))
    } else if whole_block_x(seg) {
        match walk_x(c, seg, true, s) {
            Ok(cs) => {
                let e: Vec<char> = Vec::new();
                assert(e@ =~= Seq::<char>::empty());
                let f = flat_x(&cs, &e);
                Ok(f)
            },
            Err(e) => Err(e),
        }
    } else {
        Err(err(SubstitutionError::BarewordLiteralNotAllowed(text(seg))))
    }
}

pub open spec fn seg_matches(o: SegOut, r: Option<Result<Vec<char>, StopX>>, pk: Option<Vec<char>>, le: Option<SubstitutionError>, s: St) -> bool {
    match o {
        SegOut::Done(res, s2) => r matches Some(x) && rv(x) == res && s == s2,
        SegOut::Next(pk2, le2, s2) => r is None && opt_view(pk) == pk2 && le_view(le) == le2 && s == s2,
    }
}

fn key_after(seg: &Vec<char>, pre: &str) -> (r: Vec<char>)
    requires
        starts_with(seg@, pre@),
    ensures
        r@ == trim(seg@.skip(pre@.len() as int)),
{
    let p = lit(pre);
    let k0 = slice_of(seg, p.len(), seg.len());
    assert(k0@ == seg@.skip(pre@.len() as int));
    trim_exec(&k0)
}

/// A source reference (see [`source_step`]); `None` when `seg` is none.
pub fn source_step_x(c: &CtxX, seg: &Vec<char>, last: bool, pk: &mut Option<Vec<char>>, le: &mut Option<SubstitutionError>, s: &mut StX)
    -> (r: Option<Option<Result<Vec<char>, StopX>>>)
    ensures
        match source_step(c@, seg@, last, opt_view(*old(pk)), le_view(*old(le)), old(s)@) {
            Some(o) => r matches Some(x) && seg_matches(o, x, *final(pk), *final(le), final(s)@),
            None => r is None && *final(pk) == *old(pk) && *final(le) == *old(le) && final(s)@ == old(s)@,
        },
{
    if occurs_lit(seg, 0, "ARGS.") {
        let key = key_after(seg, "ARGS.");
        match lookup_first_x(&c.named, &key) {
            Some(v) => {
                consume_x(s, &key);
                Some(Some(Ok(v)))
            },
            None => {
                if c.prompt && pk.is_none() {
                    let mut pkey = lit("ARGS.");
                    push_all(&mut pkey, &key);
                    *pk = Some(pkey);
                }
                *le = Some(SubstitutionError::MissingArg(text(&key)));
                Some(None)
            },
        }
    } else if occurs_lit(seg, 0, "ENV.") {
        let key = key_after(seg, "ENV.");
        match env_lookup_x(&c.env, &key) {
            Some(v) => Some(Some(Ok(if c.redact { lit("***") } else { v }))),
            None => {
                if c.prompt && pk.is_none() {
                    let mut pkey = lit("ENV.");
                    push_all(&mut pkey, &key);
                    *pk = Some(pkey);
                }
                *le = Some(SubstitutionError::MissingEnv(text(&key)));
                Some(None)
            },
        }
    } else if occurs_lit(seg, 0, "VARS.") {
        let key = key_after(seg, "VARS.");
        match lookup_last_x(&s.vars, &key) {
            Some(v) => Some(Some(Ok(v))),
            None => {
                *le = Some(SubstitutionError::MissingVar(text(&key)));
                Some(None)
            },
        }
    } else if occurs_lit(seg, 0, "LOOP.") {
        let key = key_after(seg, "LOOP.");
        match lookup_last_x(&c.loopv, &key) {
            Some(v) => Some(Some(Ok(v))),
            None => {
                if last {
                    *le = Some(SubstitutionError::MissingLoopVar(text(&key)));
                }
                Some(None)
            },
        }
    } else if occurs_lit(seg, 0, "RUN.") {
        let key = key_after(seg, "RUN.");
        match run_key_x(c, &key) {
            Some(v) => Some(Some(Ok(v))),
            None => {
                if last {
                    *le = Some(SubstitutionError::UnknownRunKey(text(&key)));
                }
                Some(None)
            },
        }
    } else if occurs_lit(seg, 0, "FLAGS.") {
        let key = key_after(seg, "FLAGS.");
        match flag_present_x(c, &key, s) {
            Ok(present) => {
                mark_flag_x(s, &key);
                Some(Some(Ok(bool_text_x(present))))
            },
            Err(e) => Some(Some(Err(e))),
        }
    } else {
        None
    }
}

/// One segment of a chain (see [`seg_step`]).
pub fn seg_step_x(c: &CtxX, seg: &Vec<char>, last: bool, pk: &mut Option<Vec<char>>, le: &mut Option<SubstitutionError>, s: &mut StX)
    -> (r: Option<Result<Vec<char>, StopX>>)
    ensures
        seg_matches(seg_step(c@, seg@, last, opt_view(*old(pk)), le_view(*old(le)), old(s)@), r, *final(pk), *final(le), final(s)@),
    decreases seg@.len(), 3int, 0int,
{
    match source_step_x(c, seg, last, pk, le, s) {
        Some(x) => {
            return x;
        },
        None => {},
    }
    if call_open_x(seg).is_some() {
        let r = call_value_x(c, seg, s);
        match r {
            Err(StopX::Fail(SubstitutionError::TryFailed { source })) => {
                *le = Some(SubstitutionError::TryFailed { source });
                None
            },
            _ => Some(r),
        }
    } else {
        let r = literal_value_x(c, seg, s);
        match r {
            Err(e) => Some(Err(e)),
            Ok(v) => match pk {
                Some(key) => {
                    let dv = copy_chars(&v);
                    match ask_value_x(c, key, Some(dv), s) {
                        Err(e) => Some(Err(e)),
                        Ok(Some(x)) => Some(Ok(x)),
                        Ok(None) => Some(Ok(v)),
                    }
                },
                None => Some(Ok(v)),
            },
        }
    }
}

/// A chain of segments (see [`chain_from`]).
pub fn chain_x(c: &CtxX, a: &Vec<char>, s: &mut StX) -> (r: Result<Vec<char>, StopX>)
    ensures
        (rv(r), final(s)@) == chain_from(c@, a@, 0, None, None, old(s)@),
    decreases a@.len(), 4int, 0int,
{
    let q = lit("?");
    let rs = split_top_exec(a, &q);
    let ghost rsv = rs@.map_values(|p: (usize, usize)| (p.0 as int, p.1 as int));
    proof {
        lemma_split_top(a@, "?"@);
    }
    let mut pk: Option<Vec<char>> = None;
    let mut le: Option<SubstitutionError> = None;
    let mut k: usize = 0;
    let ghost s0 = s@;
    while k < rs.len()
        invariant
            old(s)@ == s0,
            k <= rs.len(),
            rsv == split_top(a@, "?"@),
            rsv == rs@.map_values(|p: (usize, usize)| (p.0 as int, p.1 as int)),
            crate::scan::ranges_ok(a@, rsv),
            seg_count(a@) == rs.len(),
            chain_from(c@, a@, 0, None, None, s0) == chain_from(c@, a@, k as int, opt_view(pk), le_view(le), s@),
        decreases rs.len() - k,
    {
        assert(rsv[k as int] == (rs@[k as int].0 as int, rs@[k as int].1 as int));
        let (lo, hi) = rs[k];
        let raw = slice_of(a, lo, hi);
        let seg = trim_exec(&raw);
        assert(seg@ == segment(a@, k as int));
        proof {
            lemma_segment(a@, k as int);
        }
        let last = k + 1 == rs.len();
        match seg_step_x(c, &seg, last, &mut pk, &mut le, s) {
            Some(r) => {
                return r;
            },
            None => {},
        }
        k += 1;
    }
    chain_end_x(c, pk, le, s)
}

/// A function call (see [`call_value`]).
pub fn call_value_x(c: &CtxX, seg: &Vec<char>, s: &mut StX) -> (r: Result<Vec<char>, StopX>)
    requires
        call_open(seg@) is Some,
    ensures
        (rv(r), final(s)@) == call_value(c@, seg@, old(s)@),
    decreases seg@.len(), 2int, 0int,
{
    let p = ident_end_x(seg, 0);
    assert(call_open(seg@) == Some(p as int));
    assert(p < seg.len());
    proof {
        lemma_ident_end(seg@, 0);
        lemma_close_paren(seg@, p + 1, 1);
    }
    let name = slice_of(seg, 0, p);
    assert(name@ == seg@.take(p as int));
    match close_paren_exec(seg, p + 1) {
        None => Err(err(SubstitutionError::UnbalancedParens(text(seg)))),
        Some(q) => {
            assert(close_paren(seg@, p + 1, 1) == Some(q as int));
            assert(q < seg.len());
            if q + 1 != seg.len() || p + 1 > q {
                let m = lit("unexpected text after the closing `)`");
                return Err(err(SubstitutionError::MalformedSubstitution(text(seg), text(&m))));
            }
            let inner = slice_of(seg, p + 1, q);
            proof {
                lemma_parse_args(inner@);
            }
            match parse_args_x(&inner) {
                Err(m) => Err(err(SubstitutionError::MalformedSubstitution(text(seg), text(&m)))),
                Ok(ps) => {
                    let n = ps.len();
                    assert(texts_view(ps@).len() == n);
                    assert(forall|i: int| 0 <= i < n ==> #[trigger] texts_view(ps@)[i] == ps@[i]@);
                    if eq_lit(&name, "try") {
                        if n != 1 {
                            return Err(err(SubstitutionError::FunctionArity {
                                name: text(&name),
                                expected: text(&dec_exec(1)),
                                got: n,
                            }));
                        }
                        let saved_consumed = copy_texts(&s.consumed);
                        let saved_flags = copy_texts(&s.flags);
                        let r = arg_value_x(c, &ps[0], s);
                        match r {
                            Err(StopX::Fail(e)) => {
                                s.consumed = saved_consumed;
                                s.flags = saved_flags;
                                Err(StopX::Fail(SubstitutionError::TryFailed { source: Box::new(e) }))
                            },
                            _ => r,
                        }
                    } else if eq_lit(&name, "define") {
                        if n != 2 {
                            return Err(err(SubstitutionError::FunctionArity {
                                name: text(&name),
                                expected: text(&dec_exec(2)),
                                got: n,
                            }));
                        }
                        if !is_ident_x(&ps[0]) {
                            return Err(err(SubstitutionError::InvalidVarName(text(&ps[0]))));
                        }
                        match arg_value_x(c, &ps[1], s) {
                            Ok(v) => {
                                if !c.redact {
                                    let ghost o = s@;
                                    let entry = (copy_chars(&ps[0]), v);
                                    s.vars.push(entry);
                                    assert(s@.vars =~= o.vars.push((ps@[0]@, entry.1@)));
                                }
                                Ok(Vec::new())
                            },
                            Err(e) => Err(e),
                        }
                    } else {
                        args_x(c, seg, &name, &ps, s)
                    }
                },
            }
        },
    }
}

/// The arguments of a call, then the call itself (see [`args_from`]).
pub fn args_x(c: &CtxX, seg: &Vec<char>, name: &Vec<char>, ps: &Vec<Vec<char>>, s: &mut StX) -> (r: Result<Vec<char>, StopX>)
    ensures
        (rv(r), final(s)@) == args_from(c@, seg@, name@, texts_view(ps@), 0, Seq::empty(), old(s)@),
    decreases seg@.len(), 1int, 0int,
{
    let mut vals: Vec<Vec<char>> = Vec::new();
    let mut k: usize = 0;
    let ghost s0 = s@;
    assert(texts_view(vals@) =~= Seq::<Seq<char>>::empty());
    while k < ps.len()
        invariant
            old(s)@ == s0,
            k <= ps.len(),
            args_from(c@, seg@, name@, texts_view(ps@), 0, Seq::empty(), s0)
                == args_from(c@, seg@, name@, texts_view(ps@), k as int, texts_view(vals@), s@),
        decreases ps.len() - k,
    {
        assert(texts_view(ps@)[k as int] == ps@[k as int]@);
        if ps[k].len() >= seg.len() {
            return Err(err(SubstitutionError::MalformedSubstitution(text(seg), String::new())));
        }
        match arg_value_x(c, &ps[k], s) {
            Ok(v) => {
                let ghost tv = texts_view(vals@);
                let ghost ov = vals@;
                let ghost vv = v@;
                vals.push(v);
                assert(vals@ == ov.push(v));
                assert(texts_view(vals@) =~= tv.push(vv));
            },
            Err(e) => {
                return Err(e);
            },
        }
        k += 1;
    }
    apply_fn_x(c, name, &vals, s)
}

/// `||` of `&&` groups (see [`dsl_or`]).
pub fn dsl_or_x(c: &CtxX, b: &Vec<char>, s: &mut StX) -> (r: Result<bool, StopX>)
    ensures
        (rb(r), final(s)@) == dsl_or(c@, b@, old(s)@),
    decreases b@.len(), 11int, 0int,
{
    let op = lit("||");
    let rs = split_top_exec(b, &op);
    let ghost rsv = rs@.map_values(|p: (usize, usize)| (p.0 as int, p.1 as int));
    proof {
        lemma_split_top(b@, "||"@);
    }
    let mut k: usize = 0;
    let ghost s0 = s@;
    while k < rs.len()
        invariant
            old(s)@ == s0,
            k <= rs.len(),
            rsv == split_top(b@, "||"@),
            rsv == rs@.map_values(|p: (usize, usize)| (p.0 as int, p.1 as int)),
            crate::scan::ranges_ok(b@, rsv),
            dsl_or(c@, b@, s0) == or_from(c@, b@, k as int, s@),
        decreases rs.len() - k,
    {
        assert(rsv[k as int] == (rs@[k as int].0 as int, rs@[k as int].1 as int));
        let (lo, hi) = rs[k];
        let part = slice_of(b, lo, hi);
        match dsl_and_x(c, &part, s) {
            Ok(true) => {
                return Ok(true);
            },
            Ok(false) => {},
            Err(e) => {
                return Err(e);
            },
        }
        k += 1;
    }
    Ok(false)
}

/// `&&` of terms (see [`dsl_and`]).
pub fn dsl_and_x(c: &CtxX, b: &Vec<char>, s: &mut StX) -> (r: Result<bool, StopX>)
    ensures
        (rb(r), final(s)@) == dsl_and(c@, b@, old(s)@),
    decreases b@.len(), 9int, 0int,
{
    let op = lit("&&");
    let rs = split_top_exec(b, &op);
    let ghost rsv = rs@.map_values(|p: (usize, usize)| (p.0 as int, p.1 as int));
    proof {
        lemma_split_top(b@, "&&"@);
    }
    let mut k: usize = 0;
    let ghost s0 = s@;
    while k < rs.len()
        invariant
            old(s)@ == s0,
            k <= rs.len(),
            rsv == split_top(b@, "&&"@),
            rsv == rs@.map_values(|p: (usize, usize)| (p.0 as int, p.1 as int)),
            crate::scan::ranges_ok(b@, rsv),
            dsl_and(c@, b@, s0) == and_from(c@, b@, k as int, s@),
        decreases rs.len() - k,
    {
        assert(rsv[k as int] == (rs@[k as int].0 as int, rs@[k as int].1 as int));
        let (lo, hi) = rs[k];
        let part = slice_of(b, lo, hi);
        match dsl_term_x(c, &part, s) {
            Ok(false) => {
                return Ok(false);
            },
            Ok(true) => {},
            Err(e) => {
                return Err(e);
            },
        }
        k += 1;
    }
    Ok(true)
}

/// A term (see [`dsl_term`]).
pub fn dsl_term_x(c: &CtxX, u: &Vec<char>, s: &mut StX) -> (r: Result<bool, StopX>)
    ensures
        (rb(r), final(s)@) == dsl_term(c@, u@, old(s)@),
    decreases u@.len(), 7int, 0int,
{
    proof {
        lemma_trim_len(u@);
    }
    let t = trim_exec(u);
    if t.len() > 0 && t[0] == '!' && !(t.len() > 1 && t[1] == '=') {
        let rest = slice_of(&t, 1, t.len());
        assert(rest@ == t@.skip(1));
        return match dsl_term_x(c, &rest, s) {
            Ok(x) => Ok(!x),
            Err(e) => Err(e),
        };
    }
    match comparison_x(&t) {
        Some((p, eq)) => {
            proof {
                crate::scan::lemma_find_top_from(t@, "=="@, 0);
                crate::scan::lemma_find_top_from(t@, "!="@, 0);
                reveal_strlit("==");
                reveal_strlit("!=");
            }
            let l0 = slice_of(&t, 0, p);
            let r0 = slice_of(&t, p + 2, t.len());
            assert(l0@ == t@.take(p as int));
            assert(r0@ == t@.skip(p + 2));
            proof {
                lemma_trim_len(l0@);
                lemma_trim_len(r0@);
            }
            let l = trim_exec(&l0);
            let r = trim_exec(&r0);
            if l.len() == 0 || r.len() == 0 {
                let mut m = lit("missing operand in `");
                push_all(&mut m, &t);
                push_str(&mut m, "`");
                return Err(err(SubstitutionError::DslError(text(&m))));
            }
            let x = match dsl_operand_x(c, &l, s) {
                Err(e) => {
                    return Err(e);
                },
                Ok(x) => x,
            };
            let y = match dsl_operand_x(c, &r, s) {
                Err(e) => {
                    return Err(e);
                },
                Ok(y) => y,
            };
            let same = crate::text::seq_eq(&x, &y);
            Ok(if eq { same } else { !same })
        },
        None => {
            match dsl_operand_x(c, &t, s) {
                Err(e) => Err(e),
                Ok(x) => {
                    if eq_lit(&x, "true") {
                        Ok(true)
                    } else if eq_lit(&x, "false") || x.len() == 0 {
                        Ok(false)
                    } else {
                        Err(err(SubstitutionError::DslValueNotBoolean { value: text(&x) }))
                    }
                },
            }
        },
    }
}

/// An operand (see [`dsl_operand`]).
pub fn dsl_operand_x(c: &CtxX, v: &Vec<char>, s: &mut StX) -> (r: Result<Vec<char>, StopX>)
    ensures
        (rv(r), final(s)@) == dsl_operand(c@, v@, old(s)@),
    decreases v@.len(), 6int, 0int,
{
    if whole_block_x(v) {
        match walk_x(c, v, true, s) {
            Ok(cs) => Ok(flat_x(&cs, &Vec::new())),
            Err(e) => Err(e),
        }
    } else {
        arg_value_x(c, v, s)
    }
}

} // verus!
