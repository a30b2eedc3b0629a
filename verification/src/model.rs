//! What a `{{ ... }}` template means: the substitution language as spec
//! functions over character sequences.
//!
//! A template is walked left to right. `\{{` and `\}}` stand for literal
//! braces; `{{ body }}` is replaced by the value of its body. A body is a
//! boolean expression when `==`, `!=`, `&&`, `||` or `!` stands at its top
//! level, and an argument expression otherwise. An argument expression is a
//! `FLAGS.` ternary or a chain of segments separated by top-level `?`, the
//! first that yields a value winning. Segments are source references
//! (`ARGS.`, `ENV.`, `VARS.`, `LOOP.`, `RUN.`, `FLAGS.`), function calls, and
//! literals (`'...'` walked as a nested template, `"..."` kept verbatim, or
//! nothing at all).
//!
//! Evaluation threads a state ([`St`]): the argument keys consumed, the keys
//! read as flags, the variables defined, and how many outside answers have
//! been used. Outside answers (a prompt for a missing value or flag, a call
//! into the host for a function that touches the machine) come from
//! `Ctx::answers` in the order asked; when they run out, evaluation stops
//! with the question it needs answered ([`Stop::Ask`]).

use vstd::prelude::*;
use crate::text::{is_ws, trim, starts_with, ends_with, occurs_at, lemma_trim_len};
use crate::scan::{at, at2, escape_at, find_close, lemma_find_close, close_paren, lemma_close_paren,
    split_top, lemma_split_top, find_top_from, lemma_find_top_from, skip_unit, lemma_skip_unit};
use crate::errors::ErrV;
use crate::funcs::bool_text;
use crate::builtins::{FnOut, fn_result};

verus! {

/// A piece of a substituted template: text, or the place where the
/// remaining command-line arguments go (`{{ ARGS }}`).
pub enum Chunk {
    Text(Seq<char>),
    Rest,
}

/// A question that only the outside can answer.
pub enum Query {
    /// A prompt for a missing `ARGS.`/`ENV.` value, with the chain's literal
    /// default when it has one.
    Value { key: Seq<char>, default: Option<Seq<char>> },
    /// A prompt for whether a flag (`--key`) is set.
    Flag { key: Seq<char> },
    /// A function that the host computes (the file system, the clock, a
    /// shell, floating point).
    Call { name: Seq<char>, args: Seq<Seq<char>> },
}

/// An answer to a [`Query`].
pub enum Answer {
    Value(Option<Seq<char>>),
    Flag(bool),
    Call(Result<Seq<char>, ErrV>),
}

/// Why evaluation stopped without a value.
pub enum Stop {
    Fail(ErrV),
    Ask(Query),
}

/// Evaluation state.
pub struct St {
    /// Named-argument keys read, in order (repeats allowed).
    pub consumed: Seq<Seq<char>>,
    /// Keys read as flags, in order.
    pub flags: Seq<Seq<char>>,
    /// Variables: the store's entries, then each `define`, latest last.
    pub vars: Seq<(Seq<char>, Seq<char>)>,
    /// How many answers have been used.
    pub pos: nat,
}

/// What a substitution is evaluated against.
pub struct Ctx {
    pub original: Seq<Seq<char>>,
    pub named: Seq<(Seq<char>, Seq<char>)>,
    pub env: Seq<(Seq<char>, Seq<char>)>,
    pub loopv: Seq<(Seq<char>, Seq<char>)>,
    pub os: Seq<char>,
    pub shell: Seq<char>,
    pub arch: Seq<char>,
    pub parent: Seq<char>,
    pub redact: bool,
    pub dry_run: bool,
    pub prompt: bool,
    pub answers: Seq<Answer>,
}

// ── lookups ─────────────────────────────────────────────────────────────

/// Value of the first entry with key `k`.
pub open spec fn lookup_first(p: Seq<(Seq<char>, Seq<char>)>, k: Seq<char>) -> Option<Seq<char>>
    decreases p.len(),
{
    if p.len() == 0 {
        None
    } else if p[0].0 == k {
        Some(p[0].1)
    } else {
        lookup_first(p.skip(1), k)
    }
}

/// Value of the last entry with key `k`.
pub open spec fn lookup_last(p: Seq<(Seq<char>, Seq<char>)>, k: Seq<char>) -> Option<Seq<char>>
    decreases p.len(),
{
    if p.len() == 0 {
        None
    } else if p.last().0 == k {
        Some(p.last().1)
    } else {
        lookup_last(p.drop_last(), k)
    }
}

/// Value of the first entry whose lower-cased key is `lk`.
pub open spec fn lookup_folded(p: Seq<(Seq<char>, Seq<char>)>, lk: Seq<char>) -> Option<Seq<char>>
    decreases p.len(),
{
    if p.len() == 0 {
        None
    } else if crate::outside::lower(p[0].0) == lk {
        Some(p[0].1)
    } else {
        lookup_folded(p.skip(1), lk)
    }
}

/// An environment variable: the exact key first, then any key that matches
/// it when both are lower-cased.
pub open spec fn env_lookup(env: Seq<(Seq<char>, Seq<char>)>, k: Seq<char>) -> Option<Seq<char>> {
    match lookup_first(env, k) {
        Some(v) => Some(v),
        None => lookup_folded(env, crate::outside::lower(k)),
    }
}

/// `RUN.<key>`.
pub open spec fn run_key(c: Ctx, k: Seq<char>) -> Option<Seq<char>> {
    if k == "os"@ {
        Some(c.os)
    } else if k == "shell"@ {
        Some(c.shell)
    } else if k == "arch"@ {
        Some(c.arch)
    } else if k == "parent"@ {
        Some(c.parent)
    } else {
        None
    }
}

// ── small scanning helpers ──────────────────────────────────────────────

/// First position at or after `i` where `p` occurs.
pub open spec fn find_from(t: Seq<char>, p: Seq<char>, i: int) -> Option<int>
    decreases t.len() - i,
{
    if i < 0 || i >= t.len() {
        None
    } else if occurs_at(t, i, p) {
        Some(i)
    } else {
        find_from(t, p, i + 1)
    }
}

pub proof fn lemma_find_from(t: Seq<char>, p: Seq<char>, i: int)
    ensures
        find_from(t, p, i) matches Some(j) ==> i <= j && occurs_at(t, j, p),
    decreases t.len() - i,
{
    if 0 <= i < t.len() && !occurs_at(t, i, p) {
        lemma_find_from(t, p, i + 1);
    }
}

pub open spec fn ident_start(c: char) -> bool {
    ('a' <= c <= 'z') || ('A' <= c <= 'Z') || c == '_'
}

pub open spec fn ident_char(c: char) -> bool {
    ident_start(c) || ('0' <= c <= '9')
}

/// A name: a letter or `_`, then letters, digits and `_`.
pub open spec fn is_ident(t: Seq<char>) -> bool {
    t.len() > 0 && ident_start(t[0]) && forall|i: int| 0 <= i < t.len() ==> ident_char(#[trigger] t[i])
}

/// End of the run of name characters that starts at `i`.
pub open spec fn ident_end(t: Seq<char>, i: int) -> int
    decreases t.len() - i,
{
    if 0 <= i < t.len() && ident_char(t[i]) {
        ident_end(t, i + 1)
    } else {
        i
    }
}

pub proof fn lemma_ident_end(t: Seq<char>, i: int)
    requires
        0 <= i <= t.len(),
    ensures
        i <= ident_end(t, i) <= t.len(),
        forall|k: int| i <= k < ident_end(t, i) ==> ident_char(#[trigger] t[k]),
        ident_end(t, i) < t.len() ==> !ident_char(t[ident_end(t, i)]),
    decreases t.len() - i,
{
    if i < t.len() && ident_char(t[i]) {
        lemma_ident_end(t, i + 1);
    }
}

/// Where the `(` of a call `name(...)` stands, when `t` starts with one.
pub open spec fn call_open(t: Seq<char>) -> Option<int> {
    let p = ident_end(t, 0);
    if t.len() > 0 && ident_start(t[0]) && at(t, p, '(') {
        Some(p)
    } else {
        None
    }
}

/// `t` is one whole `{{ ... }}` block.
pub open spec fn whole_block(t: Seq<char>) -> bool {
    at2(t, 0, '{', '{') && find_close(t, 2, 1) == Some(t.len() - 2)
}

/// A top-level `==`, `!=`, `&&`, `||` or `!` at or after `i`.
pub open spec fn dsl_scan(t: Seq<char>, i: int) -> bool
    decreases t.len() - i,
{
    if i < 0 || i >= t.len() {
        false
    } else if occurs_at(t, i, "=="@) || occurs_at(t, i, "&&"@) || occurs_at(t, i, "||"@) || t[i] == '!' {
        true
    } else {
        proof {
            lemma_skip_unit(t, i);
        }
        dsl_scan(t, skip_unit(t, i))
    }
}

/// Whether a body is a boolean expression.
pub open spec fn looks_like_dsl(t: Seq<char>) -> bool {
    dsl_scan(t, 0)
}

/// The first top-level comparison operator: its position, and whether it is
/// `==`.
pub open spec fn comparison(t: Seq<char>) -> Option<(int, bool)> {
    match (find_top_from(t, "=="@, 0), find_top_from(t, "!="@, 0)) {
        (Some(e), Some(n)) => if e < n { Some((e, true)) } else { Some((n, false)) },
        (Some(e), None) => Some((e, true)),
        (None, Some(n)) => Some((n, false)),
        (None, None) => None,
    }
}

/// The two branches of `? a : b` (or `? a :`, or `? a`).
pub open spec fn ternary(rest: Seq<char>) -> (Seq<char>, Seq<char>) {
    match find_from(rest, " : "@, 0) {
        Some(p) => (trim(rest.take(p)), trim(rest.skip(p + " : "@.len()))),
        None => {
            let tr = trim(rest);
            if tr.len() >= " :"@.len() && ends_with(tr, " :"@) {
                (trim(tr.take(tr.len() - " :"@.len())), Seq::empty())
            } else {
                (tr, Seq::empty())
            }
        },
    }
}

pub proof fn lemma_ternary(rest: Seq<char>)
    ensures
        ternary(rest).0.len() <= rest.len(),
        ternary(rest).1.len() <= rest.len(),
{
    lemma_find_from(rest, " : "@, 0);
    lemma_trim_len(rest);
    match find_from(rest, " : "@, 0) {
        Some(p) => {
            lemma_trim_len(rest.take(p));
            lemma_trim_len(rest.skip(p + " : "@.len()));
        },
        None => {
            let tr = trim(rest);
            if tr.len() >= " :"@.len() && ends_with(tr, " :"@) {
                lemma_trim_len(tr.take(tr.len() - " :"@.len()));
            }
        },
    }
}

/// The arguments of a call, from the text between its parentheses: split at
/// top-level commas, each comma followed by exactly one space and preceded
/// by none; each argument trimmed.
pub open spec fn parse_args(inner: Seq<char>) -> Result<Seq<Seq<char>>, Seq<char>> {
    if trim(inner).len() == 0 {
        Ok(Seq::empty())
    } else {
        pieces_from(inner, split_top(inner, ","@), 0, Seq::empty())
    }
}

pub open spec fn pieces_from(inner: Seq<char>, rs: Seq<(int, int)>, k: int, acc: Seq<Seq<char>>) -> Result<Seq<Seq<char>>, Seq<char>>
    decreases rs.len() - k,
{
    if k < 0 || k >= rs.len() {
        Ok(acc)
    } else {
        let raw = inner.subrange(rs[k].0, rs[k].1);
        if k + 1 < rs.len() && raw.len() > 0 && is_ws(raw.last()) {
            Err("unexpected space before `,`"@)
        } else if k > 0 && !(raw.len() > 0 && raw[0] == ' ') {
            Err("missing space after `,`"@)
        } else if k > 0 && (raw.len() < 2 || is_ws(raw[1])) {
            if trim(raw).len() == 0 {
                Err("empty argument after `,`"@)
            } else {
                Err("more than one space after `,`"@)
            }
        } else if trim(raw).len() == 0 {
            Err("empty argument"@)
        } else {
            pieces_from(inner, rs, k + 1, acc.push(trim(raw)))
        }
    }
}

pub proof fn lemma_pieces_from(inner: Seq<char>, rs: Seq<(int, int)>, k: int, acc: Seq<Seq<char>>)
    requires
        crate::scan::ranges_ok(inner, rs),
        forall|i: int| 0 <= i < acc.len() ==> (#[trigger] acc[i]).len() <= inner.len(),
    ensures
        pieces_from(inner, rs, k, acc) matches Ok(ps) ==> forall|i: int| 0 <= i < ps.len() ==> (#[trigger] ps[i]).len() <= inner.len(),
    decreases rs.len() - k,
{
    if 0 <= k < rs.len() {
        let raw = inner.subrange(rs[k].0, rs[k].1);
        lemma_trim_len(raw);
        let acc2 = acc.push(trim(raw));
        assert forall|i: int| 0 <= i < acc2.len() implies (#[trigger] acc2[i]).len() <= inner.len() by {
            if i < acc.len() {
                assert(acc2[i] == acc[i]);
            }
        }
        lemma_pieces_from(inner, rs, k + 1, acc2);
    }
}

pub proof fn lemma_parse_args(inner: Seq<char>)
    ensures
        parse_args(inner) matches Ok(ps) ==> forall|i: int| 0 <= i < ps.len() ==> (#[trigger] ps[i]).len() <= inner.len(),
{
    lemma_split_top(inner, ","@);
    lemma_pieces_from(inner, split_top(inner, ","@), 0, Seq::empty());
}

// ── state helpers ───────────────────────────────────────────────────────

pub open spec fn consume(s: St, k: Seq<char>) -> St {
    St { consumed: s.consumed.push(k), flags: s.flags, vars: s.vars, pos: s.pos }
}

pub open spec fn mark_flag(s: St, k: Seq<char>) -> St {
    St { consumed: s.consumed.push(k), flags: s.flags.push(k), vars: s.vars, pos: s.pos }
}

pub open spec fn advance(s: St) -> St {
    St { consumed: s.consumed, flags: s.flags, vars: s.vars, pos: s.pos + 1 }
}

pub open spec fn answer_value(a: Answer) -> Option<Seq<char>> {
    match a {
        Answer::Value(v) => v,
        _ => None,
    }
}

pub open spec fn answer_flag(a: Answer) -> bool {
    match a {
        Answer::Flag(b) => b,
        _ => false,
    }
}

pub open spec fn answer_call(a: Answer, name: Seq<char>) -> Result<Seq<char>, ErrV> {
    match a {
        Answer::Call(r) => r,
        _ => Err(ErrV::FunctionUnavailable(name)),
    }
}

/// Asks for a value, or takes the next answer.
pub open spec fn ask_value(c: Ctx, key: Seq<char>, default: Option<Seq<char>>, s: St) -> (Result<Option<Seq<char>>, Stop>, St) {
    if s.pos < c.answers.len() {
        (Ok(answer_value(c.answers[s.pos as int])), advance(s))
    } else {
        (Err(Stop::Ask(Query::Value { key, default })), s)
    }
}

/// Whether flag `key` is set: passed on the command line, or, with a
/// prompter, answered yes.
pub open spec fn flag_present(c: Ctx, key: Seq<char>, s: St) -> (Result<bool, Stop>, St) {
    if lookup_first(c.named, key) is Some {
        (Ok(true), s)
    } else if c.prompt {
        if s.pos < c.answers.len() {
            (Ok(answer_flag(c.answers[s.pos as int])), advance(s))
        } else {
            (Err(Stop::Ask(Query::Flag { key: "--"@ + key })), s)
        }
    } else {
        (Ok(false), s)
    }
}

/// A function the host computes: the next answer, or the question.
pub open spec fn host_call(c: Ctx, name: Seq<char>, args: Seq<Seq<char>>, s: St) -> (Result<Seq<char>, Stop>, St) {
    if s.pos < c.answers.len() {
        (
            match answer_call(c.answers[s.pos as int], name) {
                Ok(v) => Ok(v),
                Err(e) => Err(Stop::Fail(e)),
            },
            advance(s),
        )
    } else {
        (Err(Stop::Ask(Query::Call { name, args })), s)
    }
}

/// Applies a function to its evaluated arguments.
pub open spec fn apply_fn(c: Ctx, name: Seq<char>, vals: Seq<Seq<char>>, s: St) -> (Result<Seq<char>, Stop>, St) {
    match fn_result(c.shell, c.redact, c.dry_run, name, vals) {
        FnOut::Value(Ok(v)) => (Ok(v), s),
        FnOut::Value(Err(e)) => (Err(Stop::Fail(e)), s),
        FnOut::Host => host_call(c, name, vals, s),
        FnOut::Unknown => (Err(Stop::Fail(ErrV::UnknownFunction(name))), s),
    }
}

/// The chunks' text, with `rest` where the remaining arguments go.
pub open spec fn flat(cs: Seq<Chunk>, rest: Seq<char>) -> Seq<char>
    decreases cs.len(),
{
    if cs.len() == 0 {
        Seq::empty()
    } else {
        flat(cs.drop_last(), rest) + match cs.last() {
            Chunk::Text(v) => v,
            Chunk::Rest => rest,
        }
    }
}

/// End of a chain that produced no value: a last prompt, then the last
/// error, or the empty string when no segment could have failed.
pub open spec fn chain_end(c: Ctx, pk: Option<Seq<char>>, le: Option<ErrV>, s: St) -> (Result<Seq<char>, Stop>, St) {
    let fallback = match le {
        Some(e) => Err(Stop::Fail(e)),
        None => Ok(Seq::empty()),
    };
    match pk {
        Some(key) => {
            let (r, s2) = ask_value(c, key, None, s);
            match r {
                Err(e) => (Err(e), s2),
                Ok(Some(x)) => (Ok(x), s2),
                Ok(None) => (fallback, s2),
            }
        },
        None => (fallback, s),
    }
}

// ── the evaluator ───────────────────────────────────────────────────────

/// Walks template `t` from `i`, after `out`. In a nested template (a
/// single-quoted literal or a block used as a value) `{{ ARGS }}` is refused.
pub open spec fn walk(c: Ctx, t: Seq<char>, nested: bool, i: int, out: Seq<Chunk>, s: St) -> (Result<Seq<Chunk>, Stop>, St)
    decreases t.len(), 1int, t.len() - i,
{
    if i < 0 || i >= t.len() {
        (Ok(out), s)
    } else if escape_at(t, i) {
        walk(c, t, nested, i + 3, out.push(Chunk::Text(seq![t[i + 1], t[i + 1]])), s)
    } else if at2(t, i, '{', '{') {
        match find_close(t, i + 2, 1) {
            None => (Err(Stop::Fail(ErrV::MalformedSubstitution(t.subrange(i, t.len() as int), "unclosed `{{`"@))), s),
            Some(j) => {
                proof {
                    lemma_find_close(t, i + 2, 1);
                    lemma_trim_len(t.subrange(i + 2, j));
                }
                let body = trim(t.subrange(i + 2, j));
                if body == "ARGS"@ {
                    if nested {
                        (Err(Stop::Fail(ErrV::MalformedSubstitution(body, "`{{ ARGS }}` stands only at the top level of a command"@))), s)
                    } else {
                        walk(c, t, nested, j + 2, out.push(Chunk::Rest), s)
                    }
                } else {
                    let (r, s2) = body_value(c, body, s);
                    match r {
                        Ok(v) => walk(c, t, nested, j + 2, out.push(Chunk::Text(v)), s2),
                        Err(Stop::Fail(ErrV::TryFailed(_))) => walk(c, t, nested, j + 2, out, s2),
                        Err(e) => (Err(e), s2),
                    }
                }
            },
        }
    } else {
        walk(c, t, nested, i + 1, out.push(Chunk::Text(seq![t[i]])), s)
    }
}

/// The value of a block's body.
pub open spec fn body_value(c: Ctx, b: Seq<char>, s: St) -> (Result<Seq<char>, Stop>, St)
    decreases b.len(), 12int, 0int,
{
    proof {
        lemma_trim_len(b);
    }
    let t = trim(b);
    if looks_like_dsl(t) {
        let (r, s2) = dsl_or(c, t, s);
        match r {
            Ok(x) => (Ok(bool_text(x)), s2),
            Err(e) => (Err(e), s2),
        }
    } else {
        arg_value(c, t, s)
    }
}

/// The value of an argument expression: a `FLAGS.` ternary or a chain.
pub open spec fn arg_value(c: Ctx, a: Seq<char>, s: St) -> (Result<Seq<char>, Stop>, St)
    decreases a.len(), 5int, 0int,
{
    proof {
        lemma_trim_len(a);
    }
    let t = trim(a);
    if starts_with(t, "FLAGS."@) {
        flag_value(c, t, s)
    } else {
        chain_from(c, t, 0, None, None, s)
    }
}

/// `FLAGS.key`, `FLAGS.key ? a`, `FLAGS.key ? a : b`: whether `--key` was
/// passed, or the branch that this selects.
pub open spec fn flag_value(c: Ctx, a: Seq<char>, s: St) -> (Result<Seq<char>, Stop>, St)
    decreases a.len(), 4int, 0int,
{
    let after = a.skip("FLAGS."@.len() as int);
    let q = find_from(after, "?"@, 0);
    let key = match q {
        Some(p) => trim(after.take(p)),
        None => trim(after),
    };
    if key.len() == 0 {
        (Ok("{{ "@ + a + " }}"@), s)
    } else {
        let (pr, s1) = flag_present(c, key, s);
        match pr {
            Err(e) => (Err(e), s1),
            Ok(present) => {
                let s2 = mark_flag(s1, key);
                match q {
                    None => (Ok(bool_text(present)), s2),
                    Some(p) => {
                        proof {
                            lemma_find_from(after, "?"@, 0);
                            lemma_ternary(after.skip(p + 1));
                        }
                        let br = ternary(after.skip(p + 1));
                        let chosen = if present { br.0 } else { br.1 };
                        if chosen.len() == 0 {
                            (Ok(Seq::empty()), s2)
                        } else if chosen.len() < a.len() {
                            arg_value(c, chosen, s2)
                        } else {
                            (Ok(Seq::empty()), s2)
                        }
                    },
                }
            },
        }
    }
}

/// A single-quoted literal (a nested template), a double-quoted literal
/// (verbatim), a whole block, or nothing; anything else is refused.
pub open spec fn literal_value(c: Ctx, seg: Seq<char>, s: St) -> (Result<Seq<char>, Stop>, St)
    decreases seg.len(), 2int, 0int,
{
    if seg.len() == 0 {
        (Ok(Seq::empty()), s)
    } else if seg.len() >= 2 && seg[0] == '\'' && seg.last() == '\'' {
        let (r, s2) = walk(c, seg.subrange(1, seg.len() - 1), true, 0, Seq::empty(), s);
        match r {
            Ok(cs) => (Ok(flat(cs, Seq::empty())), s2),
            Err(e) => (Err(e), s2),
        }
    } else if seg.len() >= 2 && seg[0] == '"' && seg.last() == '"' {
        (Ok(seg), s)
    } else if whole_block(seg) {
        let (r, s2) = walk(c, seg, true, 0, Seq::empty(), s);
        match r {
            Ok(cs) => (Ok(flat(cs, Seq::empty())), s2),
            Err(e) => (Err(e), s2),
        }
    } else {
        (Err(Stop::Fail(ErrV::BarewordLiteralNotAllowed(seg))), s)
    }
}

/// The segment count of chain `a`.
pub open spec fn seg_count(a: Seq<char>) -> int {
    split_top(a, "?"@).len() as int
}

/// The `k`-th segment of chain `a`, trimmed.
pub open spec fn segment(a: Seq<char>, k: int) -> Seq<char> {
    let r = split_top(a, "?"@)[k];
    trim(a.subrange(r.0, r.1))
}

pub proof fn lemma_segment(a: Seq<char>, k: int)
    requires
        0 <= k < seg_count(a),
    ensures
        segment(a, k).len() <= a.len(),
{
    lemma_split_top(a, "?"@);
    let r = split_top(a, "?"@)[k];
    assert(0 <= r.0 <= r.1 <= a.len());
    lemma_trim_len(a.subrange(r.0, r.1));
}

/// What one segment of a chain gives: a final outcome, or the prompt key,
/// last error and state to go on with.
pub enum SegOut {
    Done(Result<Seq<char>, Stop>, St),
    Next(Option<Seq<char>>, Option<ErrV>, St),
}

/// A source reference (`ARGS.`, `ENV.`, `VARS.`, `LOOP.`, `RUN.`, `FLAGS.`),
/// or `None` when the segment is not one.
pub open spec fn source_step(c: Ctx, seg: Seq<char>, last: bool, pk: Option<Seq<char>>, le: Option<ErrV>, s: St) -> Option<SegOut> {
    if starts_with(seg, "ARGS."@) {
        let key = trim(seg.skip("ARGS."@.len() as int));
        Some(match lookup_first(c.named, key) {
            Some(v) => SegOut::Done(Ok(v), consume(s, key)),
            None => SegOut::Next(
                if c.prompt && pk is None { Some("ARGS."@ + key) } else { pk },
                Some(ErrV::MissingArg(key)),
                s,
            ),
        })
    } else if starts_with(seg, "ENV."@) {
        let key = trim(seg.skip("ENV."@.len() as int));
        Some(match env_lookup(c.env, key) {
            Some(v) => SegOut::Done(Ok(if c.redact { "***"@ } else { v }), s),
            None => SegOut::Next(
                if c.prompt && pk is None { Some("ENV."@ + key) } else { pk },
                Some(ErrV::MissingEnv(key)),
                s,
            ),
        })
    } else if starts_with(seg, "VARS."@) {
        let key = trim(seg.skip("VARS."@.len() as int));
        Some(match lookup_last(s.vars, key) {
            Some(v) => SegOut::Done(Ok(v), s),
            None => SegOut::Next(pk, Some(ErrV::MissingVar(key)), s),
        })
    } else if starts_with(seg, "LOOP."@) {
        let key = trim(seg.skip("LOOP."@.len() as int));
        Some(match lookup_last(c.loopv, key) {
            Some(v) => SegOut::Done(Ok(v), s),
            None => SegOut::Next(pk, if last { Some(ErrV::MissingLoopVar(key)) } else { le }, s),
        })
    } else if starts_with(seg, "RUN."@) {
        let key = trim(seg.skip("RUN."@.len() as int));
        Some(match run_key(c, key) {
            Some(v) => SegOut::Done(Ok(v), s),
            None => SegOut::Next(pk, if last { Some(ErrV::UnknownRunKey(key)) } else { le }, s),
        })
    } else if starts_with(seg, "FLAGS."@) {
        let key = trim(seg.skip("FLAGS."@.len() as int));
        let (pr, s1) = flag_present(c, key, s);
        Some(match pr {
            Ok(present) => SegOut::Done(Ok(bool_text(present)), mark_flag(s1, key)),
            Err(e) => SegOut::Done(Err(e), s1),
        })
    } else {
        None
    }
}

/// One segment of a chain: a source reference, a call (a failed `try` falls
/// through to the next segment), or a literal, which a prompter may
/// override.
pub open spec fn seg_step(c: Ctx, seg: Seq<char>, last: bool, pk: Option<Seq<char>>, le: Option<ErrV>, s: St) -> SegOut
    decreases seg.len(), 3int, 0int,
{
    match source_step(c, seg, last, pk, le, s) {
        Some(o) => o,
        None => if call_open(seg) is Some {
            let (r, s2) = call_value(c, seg, s);
            match r {
                Err(Stop::Fail(ErrV::TryFailed(src))) => SegOut::Next(pk, Some(ErrV::TryFailed(src)), s2),
                _ => SegOut::Done(r, s2),
            }
        } else {
            let (r, s2) = literal_value(c, seg, s);
            match r {
                Err(e) => SegOut::Done(Err(e), s2),
                Ok(v) => match pk {
                    Some(key) => {
                        let (ar, s3) = ask_value(c, key, Some(v), s2);
                        match ar {
                            Err(e) => SegOut::Done(Err(e), s3),
                            Ok(Some(x)) => SegOut::Done(Ok(x), s3),
                            Ok(None) => SegOut::Done(Ok(v), s3),
                        }
                    },
                    None => SegOut::Done(Ok(v), s2),
                },
            }
        },
    }
}

/// Chain `a` from segment `k`, with the prompt key and the last error so far.
pub open spec fn chain_from(c: Ctx, a: Seq<char>, k: int, pk: Option<Seq<char>>, le: Option<ErrV>, s: St) -> (Result<Seq<char>, Stop>, St)
    decreases a.len(), 4int, seg_count(a) - k,
{
    if k < 0 || k >= seg_count(a) {
        chain_end(c, pk, le, s)
    } else {
        proof {
            lemma_segment(a, k);
        }
        match seg_step(c, segment(a, k), k == seg_count(a) - 1, pk, le, s) {
            SegOut::Done(r, s2) => (r, s2),
            SegOut::Next(pk2, le2, s2) => chain_from(c, a, k + 1, pk2, le2, s2),
        }
    }
}

/// A call `name(arg, ...)`: `try` and `define` first, then every other
/// function on its evaluated arguments.
pub open spec fn call_value(c: Ctx, seg: Seq<char>, s: St) -> (Result<Seq<char>, Stop>, St)
    decreases seg.len(), 2int, 0int,
{
    let p = ident_end(seg, 0);
    let name = seg.take(p);
    match close_paren(seg, p + 1, 1) {
        None => (Err(Stop::Fail(ErrV::UnbalancedParens(seg))), s),
        Some(q) => {
            if q + 1 != seg.len() || p < 0 || p + 1 > q {
                (Err(Stop::Fail(ErrV::MalformedSubstitution(seg, "unexpected text after the closing `)`"@))), s)
            } else {
                proof {
                    lemma_parse_args(seg.subrange(p + 1, q));
                }
                match parse_args(seg.subrange(p + 1, q)) {
                    Err(m) => (Err(Stop::Fail(ErrV::MalformedSubstitution(seg, m))), s),
                    Ok(ps) => {
                        let n = ps.len();
                        if name == "try"@ {
                            if n != 1 {
                                (Err(Stop::Fail(ErrV::FunctionArity(name, crate::text::dec(1), n))), s)
                            } else {
                                let (r, s2) = arg_value(c, ps[0], s);
                                match r {
                                    Err(Stop::Fail(e)) => (
                                        Err(Stop::Fail(ErrV::TryFailed(Box::new(e)))),
                                        St { consumed: s.consumed, flags: s.flags, vars: s2.vars, pos: s2.pos },
                                    ),
                                    _ => (r, s2),
                                }
                            }
                        } else if name == "define"@ {
                            if n != 2 {
                                (Err(Stop::Fail(ErrV::FunctionArity(name, crate::text::dec(2), n))), s)
                            } else if !is_ident(ps[0]) {
                                (Err(Stop::Fail(ErrV::InvalidVarName(ps[0]))), s)
                            } else {
                                let (r, s2) = arg_value(c, ps[1], s);
                                match r {
                                    Ok(v) => (
                                        Ok(Seq::empty()),
                                        if c.redact {
                                            s2
                                        } else {
                                            St { consumed: s2.consumed, flags: s2.flags, vars: s2.vars.push((ps[0], v)), pos: s2.pos }
                                        },
                                    ),
                                    Err(e) => (Err(e), s2),
                                }
                            }
                        } else {
                            args_from(c, seg, name, ps, 0, Seq::empty(), s)
                        }
                    },
                }
            }
        },
    }
}

/// Evaluates the arguments of a call from the `k`-th, then applies it.
pub open spec fn args_from(c: Ctx, seg: Seq<char>, name: Seq<char>, ps: Seq<Seq<char>>, k: int, vals: Seq<Seq<char>>, s: St) -> (Result<Seq<char>, Stop>, St)
    decreases seg.len(), 1int, ps.len() - k,
{
    if k < 0 || k >= ps.len() {
        apply_fn(c, name, vals, s)
    } else if ps[k].len() < seg.len() {
        let (r, s2) = arg_value(c, ps[k], s);
        match r {
            Ok(v) => args_from(c, seg, name, ps, k + 1, vals.push(v), s2),
            Err(e) => (Err(e), s2),
        }
    } else {
        (Err(Stop::Fail(ErrV::MalformedSubstitution(seg, Seq::empty()))), s)
    }
}

/// `||` of the top-level `&&` groups of `b`, left to right, stopping at the
/// first true one.
pub open spec fn dsl_or(c: Ctx, b: Seq<char>, s: St) -> (Result<bool, Stop>, St)
    decreases b.len(), 11int, 0int,
{
    or_from(c, b, 0, s)
}

pub open spec fn or_from(c: Ctx, b: Seq<char>, k: int, s: St) -> (Result<bool, Stop>, St)
    decreases b.len(), 10int, split_top(b, "||"@).len() - k,
{
    let rs = split_top(b, "||"@);
    if k < 0 || k >= rs.len() {
        (Ok(false), s)
    } else {
        proof {
            lemma_split_top(b, "||"@);
            assert(0 <= rs[k].0 <= rs[k].1 <= b.len());
        }
        let (r, s2) = dsl_and(c, b.subrange(rs[k].0, rs[k].1), s);
        match r {
            Ok(true) => (Ok(true), s2),
            Ok(false) => or_from(c, b, k + 1, s2),
            Err(e) => (Err(e), s2),
        }
    }
}

/// `&&` of the top-level terms of `b`, left to right, stopping at the first
/// false one.
pub open spec fn dsl_and(c: Ctx, b: Seq<char>, s: St) -> (Result<bool, Stop>, St)
    decreases b.len(), 9int, 0int,
{
    and_from(c, b, 0, s)
}

pub open spec fn and_from(c: Ctx, b: Seq<char>, k: int, s: St) -> (Result<bool, Stop>, St)
    decreases b.len(), 8int, split_top(b, "&&"@).len() - k,
{
    let rs = split_top(b, "&&"@);
    if k < 0 || k >= rs.len() {
        (Ok(true), s)
    } else {
        proof {
            lemma_split_top(b, "&&"@);
            assert(0 <= rs[k].0 <= rs[k].1 <= b.len());
        }
        let (r, s2) = dsl_term(c, b.subrange(rs[k].0, rs[k].1), s);
        match r {
            Ok(false) => (Ok(false), s2),
            Ok(true) => and_from(c, b, k + 1, s2),
            Err(e) => (Err(e), s2),
        }
    }
}

/// A term: `!term`, a comparison `a == b` / `a != b`, or a value that must
/// read `true`, `false` or nothing.
pub open spec fn dsl_term(c: Ctx, u: Seq<char>, s: St) -> (Result<bool, Stop>, St)
    decreases u.len(), 7int, 0int,
{
    proof {
        lemma_trim_len(u);
    }
    let t = trim(u);
    if t.len() > 0 && t[0] == '!' && !at(t, 1, '=') {
        let (r, s2) = dsl_term(c, t.skip(1), s);
        match r {
            Ok(x) => (Ok(!x), s2),
            Err(e) => (Err(e), s2),
        }
    } else {
        match comparison(t) {
            Some((p, eq)) => {
                proof {
                    lemma_find_top_from(t, "=="@, 0);
                    lemma_find_top_from(t, "!="@, 0);
                    reveal_strlit("==");
                    reveal_strlit("!=");
                    lemma_trim_len(t.take(p));
                    lemma_trim_len(t.skip(p + 2));
                }
                let l = trim(t.take(p));
                let r = trim(t.skip(p + 2));
                if l.len() == 0 || r.len() == 0 {
                    (Err(Stop::Fail(ErrV::DslError("missing operand in `"@ + t + "`"@))), s)
                } else {
                    let (lv, s2) = dsl_operand(c, l, s);
                    match lv {
                        Err(e) => (Err(e), s2),
                        Ok(x) => {
                            let (rv, s3) = dsl_operand(c, r, s2);
                            match rv {
                                Err(e) => (Err(e), s3),
                                Ok(y) => (Ok(if eq { x == y } else { x != y }), s3),
                            }
                        },
                    }
                }
            },
            None => {
                let (v, s2) = dsl_operand(c, t, s);
                match v {
                    Err(e) => (Err(e), s2),
                    Ok(x) => if x == "true"@ {
                        (Ok(true), s2)
                    } else if x == "false"@ || x.len() == 0 {
                        (Ok(false), s2)
                    } else {
                        (Err(Stop::Fail(ErrV::DslValueNotBoolean(x))), s2)
                    },
                }
            },
        }
    }
}

/// An operand: a whole block is walked, anything else is an argument
/// expression.
pub open spec fn dsl_operand(c: Ctx, v: Seq<char>, s: St) -> (Result<Seq<char>, Stop>, St)
    decreases v.len(), 6int, 0int,
{
    if whole_block(v) {
        let (r, s2) = walk(c, v, true, 0, Seq::empty(), s);
        match r {
            Ok(cs) => (Ok(flat(cs, Seq::empty())), s2),
            Err(e) => (Err(e), s2),
        }
    } else {
        arg_value(c, v, s)
    }
}

} // verus!
