//! Properties that hold across the library's operations: what a
//! substitution leaves alone, what the loop scope gives back, how reading
//! output in chunks relates to reading it at once, what an env file's keys
//! look like, that some cleanings are idempotent, how scanning commands
//! composes, which calls are refused for their arity, and how a target's
//! walk turns failed and stays so.

use vstd::prelude::*;
use crate::model::{Ctx, St, Chunk, walk, flat, source_step, lookup_first, lookup_folded, env_lookup, chain_from, seg_count, segment, lemma_segment, Stop, SegOut, seg_step, consume};
use crate::scan::{at, at2, escape_at};
use crate::errors::ErrV;
use crate::args::{result_of, outcome, lookup_last_spec, RunArgs, strings_view};
use crate::validate::{validate_result, non_named_from};
use crate::outside::text_map;
use crate::output::{Feed, feed, byte_step, trim_ascii, ws_lead, ws_trail, ascii_ws, strip_from, csi_final, osc_end, esc,
    lemma_csi_final, lemma_osc_end};
use crate::envfile::{env_from, env_step, env_file, EnvStep, value_step, line_end, skip_ws, char_in, export_at, comment_at,
    lemma_line_end, lemma_skip_ws, lemma_char_in};
use crate::funcs::{url_encode_from, url_decode_from, unreserved, hex_val, hex_upper, replace_from, replace_all, quote_for_shell};
use crate::extract::{quote_escape, bash_assignment, powershell_quote, fish_quote, needs_quoting, special};
use crate::text::{occurs_at, starts_with, ends_with};
use crate::funcs::{parts_from, split_parts, join_seq, last_occurrence, last_part, parse_count, bool_text, contains_seq, repeat_seq};
use crate::globbing::{text_le, insert_sorted, sort_texts};
use vstd::multiset::Multiset;
use crate::uuid::uuid_bytes;
use crate::validate::{scan_all, scan_template, body_keys, ref_at, key_end, lemma_key_end};
use crate::scan::{find_close, lemma_find_close};
use crate::calls::{WhenCondition, meet};
use crate::builtins::{fn_result, arity, ok, FnOut, group_text};
use crate::outside::{regex_rejection, regex_found, regex_every};
use crate::control::{regex_case, regex_key, exact_case, match_fits, MatchCases, MatchBranch, ControlFlowError};
use crate::extract::strs_view;
use crate::text::dec;
use crate::walk::{WalkState, CommandStatus, WhenFrame, after_status, after_dependency, settled, left, succeeded, when_holds,
    after_iteration, block_finish};
use crate::logging::{grown, shrunk};
use vstd::utf8::{encode_utf8, decode_utf8, valid_utf8, is_ascii_chars, is_ascii_chars_encode_utf8, encode_utf8_valid_utf8, encode_utf8_decode_utf8};
use crate::text::{is_ws, trim, trim_start, trim_end, lead, trail, lemma_lead_bounds, lemma_trail_bounds};

verus! {

// ── substitution leaves plain text alone ────────────────────────────────

/// No two equal braces stand side by side: the text holds no `{{` and no `}}`.
pub open spec fn no_double_brace(t: Seq<char>) -> bool {
    forall|k: int| 0 <= k < t.len() - 1 ==> !(#[trigger] t[k] == '{' && t[k + 1] == '{') && !(t[k] == '}' && t[k + 1] == '}')
}

proof fn lemma_walk_plain(c: Ctx, t: Seq<char>, nested: bool, i: int, out: Seq<Chunk>, s: St)
    requires
        no_double_brace(t),
        0 <= i <= t.len(),
    ensures
        walk(c, t, nested, i, out, s).1 == s,
        walk(c, t, nested, i, out, s).0 matches Ok(cs) && forall|rest: Seq<char>| #[trigger] flat(cs, rest) == flat(out, rest) + t.subrange(i, t.len() as int),
    decreases t.len() - i,
{
    if i < t.len() {
        assert(!escape_at(t, i)) by {
            if at(t, i, '\\') && at2(t, i + 1, '{', '{') {
                assert(t[i + 1] == '{' && t[i + 2] == '{');
            }
            if at(t, i, '\\') && at2(t, i + 1, '}', '}') {
                assert(t[i + 1] == '}' && t[i + 2] == '}');
            }
        }
        assert(!at2(t, i, '{', '{')) by {
            if at2(t, i, '{', '{') {
                assert(t[i] == '{' && t[i + 1] == '{');
            }
        }
        let out2 = out.push(Chunk::Text(seq![t[i]]));
        lemma_walk_plain(c, t, nested, i + 1, out2, s);
        let cs = walk(c, t, nested, i + 1, out2, s).0->Ok_0;
        assert forall|rest: Seq<char>| #[trigger] flat(cs, rest) == flat(out, rest) + t.subrange(i, t.len() as int) by {
            assert(out2.drop_last() == out);
            assert(flat(out2, rest) == flat(out, rest) + seq![t[i]]);
            assert(t.subrange(i, t.len() as int) =~= seq![t[i]] + t.subrange(i + 1, t.len() as int));
        }
    } else {
        assert forall|rest: Seq<char>| #[trigger] flat(out, rest) == flat(out, rest) + t.subrange(i, t.len() as int) by {
            assert(t.subrange(i, t.len() as int) =~= Seq::<char>::empty());
        }
    }
}

/// Text with no `{{` and no `}}` comes back from a substitution as it was,
/// whatever the arguments, environment, loop scope and variables: a result
/// that the substitution functions' contracts allow for it is `Ok` of the
/// text itself.
pub proof fn law_plain_text_unchanged(c: Ctx, t: Seq<char>, s0: St, r: Result<Seq<char>, ErrV>)
    requires
        no_double_brace(t),
        result_of(c, t, s0, r),
    ensures
        r == Ok::<Seq<char>, ErrV>(t),
{
    lemma_walk_plain(c, t, false, 0, Seq::empty(), s0);
    let cs = outcome(c, t, s0).0->Ok_0;
    let rest = crate::args::remaining(c, outcome(c, t, s0).1);
    assert(flat(cs, rest) == flat(Seq::<Chunk>::empty(), rest) + t.subrange(0, t.len() as int));
    assert(flat(Seq::<Chunk>::empty(), rest) == Seq::<char>::empty());
    assert(t.subrange(0, t.len() as int) =~= t);
}

// ── loop scope ──────────────────────────────────────────────────────────

/// After binding `name` to `value`, looking `name` up gives `value`, and
/// every other name gives what it gave before.
pub proof fn law_scope_push_then_get(p: Seq<(Seq<char>, Seq<char>)>, name: Seq<char>, value: Seq<char>, other: Seq<char>)
    ensures
        lookup_last_spec(p.push((name, value)), name) == Some(value),
        other != name ==> lookup_last_spec(p.push((name, value)), other) == lookup_last_spec(p, other),
{
    assert(p.push((name, value)).drop_last() =~= p);
}

/// Dropping the innermost binding undoes the binding before it: an inner
/// loop variable that shadowed an outer one gives the outer value back.
pub proof fn law_scope_pop_undoes_push(p: Seq<(Seq<char>, Seq<char>)>, name: Seq<char>, value: Seq<char>)
    ensures
        p.push((name, value)).drop_last() == p,
        p.push((name, value)).len() != 0,
{
    assert(p.push((name, value)).drop_last() =~= p);
}

// ── argument validation ─────────────────────────────────────────────────

/// A run without arguments is accepted, whatever its commands.
pub proof fn law_no_arguments_accepted(args: RunArgs, cmds: Seq<Seq<char>>, r: Result<(), ErrV>)
    requires
        args.original@.len() == 0,
        validate_result(args, cmds, r),
    ensures
        r is Ok,
{
    assert(strings_view(args.original@).len() == 0);
}

// ── scanning templates for argument use ─────────────────────────────────

proof fn lemma_body_keys_acc(b: Seq<char>, i: int, acc: Seq<Seq<char>>)
    ensures
        body_keys(b, i, acc) == acc + body_keys(b, i, Seq::empty()),
    decreases b.len() - i,
{
    if i < 0 || i >= b.len() {
        assert(acc + Seq::<Seq<char>>::empty() =~= acc);
    } else {
        let pre = if ref_at(b, i, "ARGS."@) {
            "ARGS."@
        } else if ref_at(b, i, "FLAGS."@) {
            "FLAGS."@
        } else {
            Seq::empty()
        };
        if pre.len() > 0 {
            let k0 = i + pre.len();
            lemma_key_end(b, k0);
            let e = key_end(b, k0);
            if e > k0 {
                let x = b.subrange(k0, e);
                lemma_body_keys_acc(b, e, acc.push(x));
                lemma_body_keys_acc(b, e, Seq::<Seq<char>>::empty().push(x));
                assert(acc.push(x) =~= acc + Seq::<Seq<char>>::empty().push(x));
                assert((acc + Seq::<Seq<char>>::empty().push(x)) + body_keys(b, e, Seq::empty())
                    =~= acc + (Seq::<Seq<char>>::empty().push(x) + body_keys(b, e, Seq::empty())));
            } else {
                lemma_body_keys_acc(b, e, acc);
            }
        } else {
            lemma_body_keys_acc(b, i + 1, acc);
        }
    }
}

proof fn lemma_scan_template_acc(t: Seq<char>, i: int, pos: bool, acc: Seq<Seq<char>>)
    ensures
        scan_template(t, i, pos, acc).0 == (pos || scan_template(t, i, false, Seq::empty()).0),
        scan_template(t, i, pos, acc).1 == acc + scan_template(t, i, false, Seq::empty()).1,
    decreases t.len() - i,
{
    if i < 0 || i >= t.len() {
        assert(acc + Seq::<Seq<char>>::empty() =~= acc);
    } else if escape_at(t, i) {
        lemma_scan_template_acc(t, i + 3, pos, acc);
        lemma_scan_template_acc(t, i + 3, false, Seq::empty());
    } else if at2(t, i, '{', '{') {
        match find_close(t, i + 2, 1) {
            None => {
                assert(acc + Seq::<Seq<char>>::empty() =~= acc);
            },
            Some(j) => {
                lemma_find_close(t, i + 2, 1);
                let b = trim(t.subrange(i + 2, j));
                if b == "ARGS"@ {
                    lemma_scan_template_acc(t, j + 2, true, acc);
                    lemma_scan_template_acc(t, j + 2, true, Seq::empty());
                    assert(Seq::<Seq<char>>::empty() + scan_template(t, j + 2, false, Seq::empty()).1
                        =~= scan_template(t, j + 2, false, Seq::empty()).1);
                } else {
                    let k = body_keys(b, 0, Seq::empty());
                    lemma_body_keys_acc(b, 0, acc);
                    lemma_scan_template_acc(t, j + 2, pos, acc + k);
                    lemma_scan_template_acc(t, j + 2, false, k);
                    let rest = scan_template(t, j + 2, false, Seq::empty()).1;
                    assert((acc + k) + rest =~= acc + (k + rest));
                }
            },
        }
    } else {
        lemma_scan_template_acc(t, i + 1, pos, acc);
        lemma_scan_template_acc(t, i + 1, false, Seq::empty());
    }
}

proof fn lemma_scan_all_acc(cmds: Seq<Seq<char>>, k: int, pos: bool, acc: Seq<Seq<char>>)
    ensures
        scan_all(cmds, k, pos, acc).0 == (pos || scan_all(cmds, k, false, Seq::empty()).0),
        scan_all(cmds, k, pos, acc).1 == acc + scan_all(cmds, k, false, Seq::empty()).1,
    decreases cmds.len() - k,
{
    if k < 0 || k >= cmds.len() {
        assert(acc + Seq::<Seq<char>>::empty() =~= acc);
    } else {
        let r = scan_template(cmds[k], 0, pos, acc);
        let r0 = scan_template(cmds[k], 0, false, Seq::empty());
        lemma_scan_template_acc(cmds[k], 0, pos, acc);
        lemma_scan_all_acc(cmds, k + 1, r.0, r.1);
        lemma_scan_all_acc(cmds, k + 1, r0.0, r0.1);
        let rest = scan_all(cmds, k + 1, false, Seq::empty()).1;
        assert((acc + r0.1) + rest =~= acc + (r0.1 + rest));
    }
}

proof fn lemma_scan_all_concat(a: Seq<Seq<char>>, b: Seq<Seq<char>>, k: int, pos: bool, acc: Seq<Seq<char>>)
    requires
        0 <= k <= a.len(),
    ensures
        scan_all(a + b, k, pos, acc) == scan_all(b, 0, scan_all(a, k, pos, acc).0, scan_all(a, k, pos, acc).1),
    decreases a.len() - k,
{
    if k < a.len() {
        assert((a + b)[k] == a[k]);
        let r = scan_template(a[k], 0, pos, acc);
        lemma_scan_all_concat(a, b, k + 1, r.0, r.1);
    } else {
        assert(b =~= (a + b).skip(a.len() as int));
        lemma_scan_all_shift(a, b, 0, pos, acc);
    }
}

proof fn lemma_scan_all_shift(a: Seq<Seq<char>>, b: Seq<Seq<char>>, k: int, pos: bool, acc: Seq<Seq<char>>)
    requires
        0 <= k <= b.len(),
    ensures
        scan_all(a + b, a.len() + k, pos, acc) == scan_all(b, k, pos, acc),
    decreases b.len() - k,
{
    if k < b.len() {
        assert((a + b)[a.len() + k] == b[k]);
        let r = scan_template(b[k], 0, pos, acc);
        lemma_scan_all_shift(a, b, k + 1, r.0, r.1);
    }
}

/// Scanning two lists of commands one after the other is scanning each:
/// `{{ ARGS }}` occurs in the whole when it occurs in either part, and the
/// referenced keys are those of the first part followed by those of the
/// second (so as sets, their union); scanning nothing finds nothing.
pub proof fn law_scan_concat(a: Seq<Seq<char>>, b: Seq<Seq<char>>)
    ensures
        scan_all(a + b, 0, false, Seq::empty()).0 == (scan_all(a, 0, false, Seq::empty()).0 || scan_all(b, 0, false, Seq::empty()).0),
        scan_all(a + b, 0, false, Seq::empty()).1 == scan_all(a, 0, false, Seq::empty()).1 + scan_all(b, 0, false, Seq::empty()).1,
        scan_all(Seq::empty(), 0, false, Seq::empty()) == (false, Seq::<Seq<char>>::empty()),
{
    lemma_scan_all_concat(a, b, 0, false, Seq::empty());
    let ra = scan_all(a, 0, false, Seq::empty());
    lemma_scan_all_acc(b, 0, ra.0, ra.1);
}

// ── reading output in chunks ────────────────────────────────────────────

proof fn lemma_feed_out(f: Feed, b: Seq<u8>)
    ensures
        ({
            let g = feed(Feed { line: f.line, prev_cr: f.prev_cr, out: Seq::empty() }, b);
            &&& feed(f, b).out == f.out + g.out
            &&& feed(f, b).line == g.line
            &&& feed(f, b).prev_cr == g.prev_cr
        }),
    decreases b.len(),
{
    let f0 = Feed { line: f.line, prev_cr: f.prev_cr, out: Seq::empty() };
    if b.len() == 0 {
        assert(f.out + Seq::<Seq<u8>>::empty() =~= f.out);
    } else {
        lemma_feed_out(f, b.drop_last());
        let x = feed(f, b.drop_last());
        let y = feed(f0, b.drop_last());
        let c = b.last();
        if c == 10 {
            if !x.prev_cr {
                assert(x.out.push(x.line) =~= f.out + y.out.push(y.line));
            }
        } else if c == 13 {
            if x.line.len() > 0 {
                assert(x.out.push(x.line) =~= f.out + y.out.push(y.line));
            }
        }
    }
}

/// Reading output in two chunks emits the same lines, and leaves the same
/// partial line, as reading it at once: where the pipe happens to cut the
/// bytes does not matter, not even between the `\r` and `\n` of a pair.
pub proof fn law_chunks_compose(line: Seq<u8>, prev_cr: bool, a: Seq<u8>, b: Seq<u8>)
    ensures
        ({
            let f = Feed { line, prev_cr, out: Seq::empty() };
            let f1 = feed(f, a);
            let f2 = feed(Feed { line: f1.line, prev_cr: f1.prev_cr, out: Seq::empty() }, b);
            let whole = feed(f, a + b);
            &&& whole.out == f1.out + f2.out
            &&& whole.line == f2.line
            &&& whole.prev_cr == f2.prev_cr
        }),
{
    let f = Feed { line, prev_cr, out: Seq::empty() };
    lemma_feed_concat(f, a, b);
    lemma_feed_out(feed(f, a), b);
}

proof fn lemma_feed_concat(f: Feed, a: Seq<u8>, b: Seq<u8>)
    ensures
        feed(f, a + b) == feed(feed(f, a), b),
    decreases b.len(),
{
    if b.len() == 0 {
        assert(a + b =~= a);
    } else {
        assert((a + b).drop_last() =~= a + b.drop_last());
        assert((a + b).last() == b.last());
        lemma_feed_concat(f, a, b.drop_last());
    }
}

// ── env file keys ───────────────────────────────────────────────────────

/// A key as the parser gives it: not empty, no `=`, no whitespace at
/// either end.
pub open spec fn key_ok(k: Seq<char>) -> bool {
    &&& k.len() > 0
    &&& forall|j: int| 0 <= j < k.len() ==> #[trigger] k[j] != '='
    &&& !is_ws(k[0])
    &&& !is_ws(k[k.len() - 1])
}

proof fn lemma_trim_index(x: Seq<char>)
    ensures
        forall|j: int| 0 <= j < trim(x).len() ==> #[trigger] trim(x)[j] == x[lead(x, 0) + j],
        lead(x, 0) + trim(x).len() <= x.len(),
        trim(x).len() > 0 ==> !is_ws(trim(x)[0]) && !is_ws(trim(x)[trim(x).len() - 1]),
{
    lemma_lead_bounds(x, 0);
    let y = trim_start(x);
    lemma_trail_bounds(y, y.len() as int);
}

proof fn lemma_step_key(s: Seq<char>, i: int)
    requires
        0 <= i < s.len(),
    ensures
        env_step(s, i) matches EnvStep::Entry(k, v, n) ==> key_ok(k),
{
    let e = line_end(s, i);
    lemma_line_end(s, i);
    let a = skip_ws(s, i, e);
    lemma_skip_ws(s, i, e);
    if !(a >= e || comment_at(s, a, e)) {
        let b = if export_at(s, a, e) { skip_ws(s, a + 7, e) } else { a };
        if export_at(s, a, e) {
            lemma_skip_ws(s, a + 7, e);
        }
        let eq = char_in(s, '=', b, e);
        lemma_char_in(s, '=', b, e);
        if eq < e {
            let x = s.subrange(b, eq);
            let key = trim(x);
            lemma_trim_index(x);
            if key.len() > 0 {
                assert(0 <= b <= eq <= s.len());
                lemma_lead_bounds(x, 0);
                assert forall|j: int| 0 <= j < key.len() implies #[trigger] key[j] != '=' by {
                    let m = lead(x, 0) + j;
                    assert(0 <= m < x.len());
                    assert(key[j] == x[m]);
                    assert(x[m] == s[b + m]);
                    assert(b <= b + m < eq);
                }
                assert(key_ok(key));
                assert(value_step(s, key, eq, e) matches EnvStep::Entry(k, v, n) ==> k == key);
            }
        }
    }
}

proof fn lemma_env_keys(s: Seq<char>, i: int)
    ensures
        env_from(s, i) matches Ok(ps) ==> forall|k: int| 0 <= k < ps.len() ==> key_ok(#[trigger] ps[k].0),
    decreases s.len() - i,
{
    if 0 <= i < s.len() {
        lemma_step_key(s, i);
        match env_step(s, i) {
            EnvStep::Skip(next) => {
                if next > i {
                    lemma_env_keys(s, next);
                }
            },
            EnvStep::Entry(k, v, next) => {
                if next > i {
                    lemma_env_keys(s, next);
                    if let Ok(rest) = env_from(s, next) {
                        let ps = seq![(k, v)] + rest;
                        assert forall|m: int| 0 <= m < ps.len() implies key_ok(#[trigger] ps[m].0) by {
                            if m > 0 {
                                assert(ps[m] == rest[m - 1]);
                            }
                        }
                    }
                }
            },
            EnvStep::Fail(_) => {},
        }
    }
}

/// Every key that parsing an env file gives is non-empty, holds no `=` and
/// has no whitespace at either end.
pub proof fn law_env_keys_well_formed(s: Seq<char>)
    ensures
        env_file(s) matches Ok(ps) ==> forall|k: int| 0 <= k < ps.len() ==> key_ok(#[trigger] ps[k].0),
{
    lemma_env_keys(s, 0);
}

// ── cleaning output ─────────────────────────────────────────────────────

proof fn lemma_ws_lead(s: Seq<u8>, i: int)
    requires
        0 <= i <= s.len(),
    ensures
        i <= ws_lead(s, i) <= s.len(),
        ws_lead(s, i) < s.len() ==> !ascii_ws(s[ws_lead(s, i)]),
    decreases s.len() - i,
{
    if i < s.len() && ascii_ws(s[i]) {
        lemma_ws_lead(s, i + 1);
    }
}

proof fn lemma_ws_trail(s: Seq<u8>, lo: int, j: int)
    requires
        0 <= lo <= j <= s.len(),
    ensures
        lo <= ws_trail(s, lo, j) <= j,
        ws_trail(s, lo, j) > lo ==> !ascii_ws(s[ws_trail(s, lo, j) - 1]),
    decreases j - lo,
{
    if lo < j && ascii_ws(s[j - 1]) {
        lemma_ws_trail(s, lo, j - 1);
    }
}

/// Trimming layout whitespace twice trims no more than once.
pub proof fn law_trim_ascii_idempotent(s: Seq<u8>)
    ensures
        trim_ascii(trim_ascii(s)) == trim_ascii(s),
{
    let a = ws_lead(s, 0);
    lemma_ws_lead(s, 0);
    lemma_ws_trail(s, a, s.len() as int);
    let t = trim_ascii(s);
    assert(ws_lead(t, 0) == 0) by {
        if t.len() > 0 {
            assert(t[0] == s[a]);
        }
    }
    assert(ws_trail(t, 0, t.len() as int) == t.len()) by {
        if t.len() > 0 {
            assert(t[t.len() - 1] == s[ws_trail(s, a, s.len() as int) - 1]);
        }
    }
    assert(t.subrange(0, t.len() as int) =~= t);
}

// ── percent-encoding ────────────────────────────────────────────────────

/// Characters taken as bytes.
pub open spec fn ascii_bytes(cs: Seq<char>) -> Seq<u8> {
    cs.map_values(|c: char| c as u8)
}

proof fn lemma_decode_shift(s: Seq<u8>, i: int)
    requires
        0 <= i <= s.len(),
    ensures
        url_decode_from(s, i) == url_decode_from(s.skip(i), 0),
    decreases s.len() - i,
{
    let t = s.skip(i);
    if i < s.len() {
        if s[i] == 0x25 {
            if i + 2 < s.len() {
                lemma_decode_shift(s, i + 3);
                lemma_decode_shift(t, 3);
                assert(t.skip(3) =~= s.skip(i + 3));
            }
        } else {
            lemma_decode_shift(s, i + 1);
            lemma_decode_shift(t, 1);
            assert(t.skip(1) =~= s.skip(i + 1));
        }
    }
}

proof fn lemma_hex_round_trip(d: nat)
    requires
        d < 16,
    ensures
        hex_val(hex_upper(d) as u8) == Some(d as u8),
        (hex_upper(d) as u32) < 128,
{
    if d == 0 {} else if d == 1 {} else if d == 2 {} else if d == 3 {} else if d == 4 {} else if d == 5 {}
    else if d == 6 {} else if d == 7 {} else if d == 8 {} else if d == 9 {} else if d == 10 {}
    else if d == 11 {} else if d == 12 {} else if d == 13 {} else if d == 14 {} else {}
}

proof fn lemma_encode_ascii(b: Seq<u8>, i: int)
    requires
        0 <= i <= b.len(),
    ensures
        is_ascii_chars(url_encode_from(b, i)),
    decreases b.len() - i,
{
    if i < b.len() {
        lemma_encode_ascii(b, i + 1);
        let x = b[i];
        let rest = url_encode_from(b, i + 1);
        let piece = if unreserved(x) {
            seq![x as char]
        } else {
            lemma_hex_round_trip((x / 16) as nat);
            lemma_hex_round_trip((x % 16) as nat);
            seq!['%', hex_upper((x / 16) as nat), hex_upper((x % 16) as nat)]
        };
        assert(url_encode_from(b, i) == piece + rest);
        assert forall|k: int| 0 <= k < (piece + rest).len() implies '\0' <= #[trigger] (piece + rest)[k] <= '\u{7f}' by {
            if k < piece.len() {
                if unreserved(x) {
                    assert((x as char) as u32 == x as u32);
                }
            } else {
                assert((piece + rest)[k] == rest[k - piece.len()]);
            }
        }
    }
}

proof fn lemma_decode_encoded(b: Seq<u8>, i: int)
    requires
        0 <= i <= b.len(),
    ensures
        url_decode_from(ascii_bytes(url_encode_from(b, i)), 0) == Some(b.skip(i)),
    decreases b.len() - i,
{
    if i == b.len() {
        assert(b.skip(i) =~= Seq::<u8>::empty());
    } else {
        lemma_decode_encoded(b, i + 1);
        let x = b[i];
        let e = ascii_bytes(url_encode_from(b, i));
        let e1 = ascii_bytes(url_encode_from(b, i + 1));
        if unreserved(x) {
            let piece = seq![x as char];
            assert(url_encode_from(b, i) == piece + url_encode_from(b, i + 1));
            assert((x as char) as u8 == x);
            assert(e =~= seq![x] + e1);
            lemma_decode_shift(e, 1);
            assert(e.skip(1) =~= e1);
            assert(b.skip(i) =~= seq![x] + b.skip(i + 1));
        } else {
            let hi = (x / 16) as nat;
            let lo = (x % 16) as nat;
            lemma_hex_round_trip(hi);
            lemma_hex_round_trip(lo);
            let piece = seq!['%', hex_upper(hi), hex_upper(lo)];
            assert(url_encode_from(b, i) == piece + url_encode_from(b, i + 1));
            assert(e =~= seq![0x25u8, hex_upper(hi) as u8, hex_upper(lo) as u8] + e1);
            lemma_decode_shift(e, 3);
            assert(e.skip(3) =~= e1);
            assert((hi * 16 + lo) as u8 == x);
            assert(b.skip(i) =~= seq![x] + b.skip(i + 1));
        }
    }
}

/// Percent-decoding undoes percent-encoding: the encoding of any bytes,
/// read back as the bytes of its (ASCII) text, decodes to those bytes.
pub proof fn law_url_round_trip(b: Seq<u8>)
    ensures
        url_decode_from(encode_utf8(url_encode_from(b, 0)), 0) == Some(b),
{
    let cs = url_encode_from(b, 0);
    lemma_encode_ascii(b, 0);
    is_ascii_chars_encode_utf8(cs);
    assert(encode_utf8(cs) =~= ascii_bytes(cs));
    lemma_decode_encoded(b, 0);
    assert(b.skip(0) =~= b);
}

/// `url_decode(url_encode(s)) == s` for every text `s`: the bytes come back
/// and they are valid UTF-8 decoding to `s`.
pub proof fn law_url_text_round_trip(s: Seq<char>)
    ensures
        url_decode_from(encode_utf8(url_encode_from(encode_utf8(s), 0)), 0) == Some(encode_utf8(s)),
        valid_utf8(encode_utf8(s)),
        decode_utf8(encode_utf8(s)) == s,
{
    law_url_round_trip(encode_utf8(s));
    encode_utf8_valid_utf8(s);
    encode_utf8_decode_utf8(s);
}

// ── dropping escapes twice ──────────────────────────────────────────────

proof fn lemma_csi_shift(s: Seq<u8>, i: int, j: int)
    requires
        0 <= i <= j,
        i <= s.len(),
    ensures
        csi_final(s, j) == csi_final(s.skip(i), j - i) + i,
    decreases s.len() - j,
{
    if j < s.len() {
        assert(s.skip(i)[j - i] == s[j]);
        if !(0x40 <= s[j] <= 0x7e) {
            lemma_csi_shift(s, i, j + 1);
        }
    } else {
        assert(s.skip(i).len() == s.len() - i);
    }
}

proof fn lemma_osc_shift(s: Seq<u8>, i: int, j: int)
    requires
        0 <= i <= j,
        i <= s.len(),
    ensures
        osc_end(s, j) == match osc_end(s.skip(i), j - i) {
            Some(n) => Some(n + i),
            None => None::<int>,
        },
    decreases s.len() - j,
{
    if j < s.len() {
        assert(s.skip(i)[j - i] == s[j]);
        if j + 1 < s.len() {
            assert(s.skip(i)[j + 1 - i] == s[j + 1]);
        }
        if s[j] != 7 && !(s[j] == esc() && j + 1 < s.len() && s[j + 1] == 0x5c) {
            lemma_osc_shift(s, i, j + 1);
        }
    }
}

proof fn lemma_strip_shift(s: Seq<u8>, i: int)
    requires
        0 <= i <= s.len(),
    ensures
        strip_from(s, i) == strip_from(s.skip(i), 0),
    decreases s.len() - i,
{
    let t = s.skip(i);
    if i < s.len() {
        assert(t[0] == s[i]);
        if i + 1 < s.len() {
            assert(t[1] == s[i + 1]);
        }
        if s[i] == esc() && i + 1 < s.len() {
            if s[i + 1] == 0x5b {
                lemma_csi_shift(s, i, i + 2);
                lemma_csi_final(s, i + 2);
                let j = csi_final(s, i + 2);
                if j < s.len() {
                    assert(t[j - i] == s[j]);
                    lemma_strip_shift(s, j + 1);
                    lemma_strip_shift(t, j + 1 - i);
                    assert(t.skip(j + 1 - i) =~= s.skip(j + 1));
                    assert(t.subrange(0, j + 1 - i) =~= s.subrange(i, j + 1));
                }
            } else if s[i + 1] == 0x5d {
                lemma_osc_shift(s, i, i + 2);
                lemma_osc_end(s, i + 2);
                if let Some(n) = osc_end(s, i + 2) {
                    lemma_strip_shift(s, n);
                    lemma_strip_shift(t, n - i);
                    assert(t.skip(n - i) =~= s.skip(n));
                }
            } else {
                lemma_strip_shift(s, i + 2);
                lemma_strip_shift(t, 2);
                assert(t.skip(2) =~= s.skip(i + 2));
            }
        } else {
            lemma_strip_shift(s, i + 1);
            lemma_strip_shift(t, 1);
            assert(t.skip(1) =~= s.skip(i + 1));
        }
    }
}

/// A colour sequence: `ESC [`, parameter bytes, `m`.
pub open spec fn sgr(p: Seq<u8>) -> bool {
    &&& p.len() >= 3
    &&& p[0] == esc() && p[1] == 0x5b && p[p.len() - 1] == 0x6d
    &&& forall|k: int| 2 <= k < p.len() - 1 ==> !(0x40 <= #[trigger] p[k] <= 0x7e)
}

proof fn lemma_csi_final_of_sgr(p: Seq<u8>, rest: Seq<u8>, j: int)
    requires
        sgr(p),
        2 <= j <= p.len() - 1,
    ensures
        csi_final(p + rest, j) == p.len() - 1,
    decreases p.len() - j,
{
    let s = p + rest;
    assert(s[j] == p[j]);
    if j < p.len() - 1 {
        lemma_csi_final_of_sgr(p, rest, j + 1);
    }
}

proof fn lemma_strip_keeps_piece(p: Seq<u8>, rest: Seq<u8>)
    requires
        (p.len() == 1 && p[0] != esc()) || sgr(p),
    ensures
        strip_from(p + rest, 0) == p + strip_from(rest, 0),
{
    let s = p + rest;
    assert(s.skip(p.len() as int) =~= rest);
    lemma_strip_shift(s, p.len() as int);
    assert(s[0] == p[0]);
    if p.len() == 1 {
        assert(seq![s[0]] =~= p);
    } else {
        assert(s[1] == p[1]);
        lemma_csi_final_of_sgr(p, rest, 2);
        assert(s[p.len() - 1] == p[p.len() - 1]);
        assert(s.subrange(0, p.len() as int) =~= p);
    }
}

proof fn lemma_strip_twice(s: Seq<u8>, i: int)
    requires
        0 <= i <= s.len(),
    ensures
        strip_from(strip_from(s, i), 0) == strip_from(s, i),
    decreases s.len() - i,
{
    if i < s.len() {
        if s[i] == esc() && i + 1 < s.len() {
            if s[i + 1] == 0x5b {
                lemma_csi_final(s, i + 2);
                let j = csi_final(s, i + 2);
                if j < s.len() {
                    lemma_strip_twice(s, j + 1);
                    if s[j] == 0x6d {
                        let p = s.subrange(i, j + 1);
                        assert forall|k: int| 2 <= k < p.len() - 1 implies !(0x40 <= #[trigger] p[k] <= 0x7e) by {
                            assert(p[k] == s[i + k]);
                            lemma_csi_before(s, i + 2, i + k);
                        }
                        lemma_strip_keeps_piece(p, strip_from(s, j + 1));
                    }
                } else {
                    assert(strip_from(Seq::<u8>::empty(), 0) == Seq::<u8>::empty());
                }
            } else if s[i + 1] == 0x5d {
                lemma_osc_end(s, i + 2);
                if let Some(n) = osc_end(s, i + 2) {
                    lemma_strip_twice(s, n);
                }
            } else {
                lemma_strip_twice(s, i + 2);
            }
        } else {
            lemma_strip_twice(s, i + 1);
            if s[i] != esc() {
                lemma_strip_keeps_piece(seq![s[i]], strip_from(s, i + 1));
            } else {
                assert(strip_from(s, i + 1) == Seq::<u8>::empty());
                let t = seq![s[i]] + Seq::<u8>::empty();
                assert(t =~= seq![esc()]);
                assert(strip_from(t, 1) == Seq::<u8>::empty());
            }
        }
    }
}

proof fn lemma_csi_before(s: Seq<u8>, j: int, k: int)
    requires
        0 <= j <= k < csi_final(s, j),
        csi_final(s, j) <= s.len(),
    ensures
        !(0x40 <= s[k] <= 0x7e),
    decreases k - j,
{
    if j < k {
        lemma_csi_before(s, j + 1, k);
    }
}

/// Dropping the escapes of output that has already lost them changes
/// nothing: what is left are plain bytes and colour sequences, and both
/// pass through again as they are.
pub proof fn law_strip_idempotent(s: Seq<u8>)
    ensures
        strip_from(strip_from(s, 0), 0) == strip_from(s, 0),
{
    lemma_strip_twice(s, 0);
}

// ── quoting reads back ──────────────────────────────────────────────────

/// `v` in front of what `r` holds.
pub open spec fn prefix_text(v: Seq<char>, r: Option<Seq<char>>) -> Option<Seq<char>> {
    match r {
        Some(x) => Some(v + x),
        None => None,
    }
}

/// How a POSIX shell reads a word made of single-quoted runs and unquoted
/// characters, from `i`, inside a quoted run or not: inside, every
/// character stands for itself until the closing quote; outside, a quote
/// opens a run, `\c` stands for `c`, and any other character for itself.
/// `None` when a run is left open.
pub open spec fn posix_read(w: Seq<char>, i: int, quoted: bool) -> Option<Seq<char>>
    decreases w.len() - i,
{
    if i < 0 || i >= w.len() {
        if quoted { None } else { Some(Seq::empty()) }
    } else if quoted {
        if w[i] == '\'' {
            posix_read(w, i + 1, false)
        } else {
            prefix_text(seq![w[i]], posix_read(w, i + 1, true))
        }
    } else if w[i] == '\'' {
        posix_read(w, i + 1, true)
    } else if w[i] == '\\' && i + 1 < w.len() {
        prefix_text(seq![w[i + 1]], posix_read(w, i + 2, false))
    } else {
        prefix_text(seq![w[i]], posix_read(w, i + 1, false))
    }
}

/// How PowerShell reads a word made of single-quoted runs: inside a run a
/// doubled quote stands for one quote and a single quote closes the run.
pub open spec fn ps_read(w: Seq<char>, i: int, quoted: bool) -> Option<Seq<char>>
    decreases w.len() - i,
{
    if i < 0 || i >= w.len() {
        if quoted { None } else { Some(Seq::empty()) }
    } else if quoted {
        if w[i] == '\'' {
            if i + 1 < w.len() && w[i + 1] == '\'' {
                prefix_text(seq!['\''], ps_read(w, i + 2, true))
            } else {
                ps_read(w, i + 1, false)
            }
        } else {
            prefix_text(seq![w[i]], ps_read(w, i + 1, true))
        }
    } else if w[i] == '\'' {
        ps_read(w, i + 1, true)
    } else {
        prefix_text(seq![w[i]], ps_read(w, i + 1, false))
    }
}

proof fn lemma_posix_shift(w: Seq<char>, i: int, q: bool)
    requires
        0 <= i <= w.len(),
    ensures
        posix_read(w, i, q) == posix_read(w.skip(i), 0, q),
    decreases w.len() - i,
{
    let t = w.skip(i);
    if i < w.len() {
        assert(t[0] == w[i]);
        if i + 1 < w.len() {
            assert(t[1] == w[i + 1]);
        }
        lemma_posix_shift(w, i + 1, true);
        lemma_posix_shift(w, i + 1, false);
        lemma_posix_shift(t, 1, true);
        lemma_posix_shift(t, 1, false);
        assert(t.skip(1) =~= w.skip(i + 1));
        if i + 2 <= w.len() {
            lemma_posix_shift(w, i + 2, false);
            lemma_posix_shift(t, 2, false);
            assert(t.skip(2) =~= w.skip(i + 2));
        }
    }
}

proof fn lemma_ps_shift(w: Seq<char>, i: int, q: bool)
    requires
        0 <= i <= w.len(),
    ensures
        ps_read(w, i, q) == ps_read(w.skip(i), 0, q),
    decreases w.len() - i,
{
    let t = w.skip(i);
    if i < w.len() {
        assert(t[0] == w[i]);
        if i + 1 < w.len() {
            assert(t[1] == w[i + 1]);
        }
        lemma_ps_shift(w, i + 1, true);
        lemma_ps_shift(w, i + 1, false);
        lemma_ps_shift(t, 1, true);
        lemma_ps_shift(t, 1, false);
        assert(t.skip(1) =~= w.skip(i + 1));
        if i + 2 <= w.len() {
            lemma_ps_shift(w, i + 2, true);
            lemma_ps_shift(t, 2, true);
            assert(t.skip(2) =~= w.skip(i + 2));
        }
    }
}

/// `'` closes a POSIX run, `\'` stands for a quote, `'` opens the next run.
pub open spec fn posix_quote_escape() -> Seq<char> {
    seq!['\'', '\\', '\'', '\'']
}

proof fn lemma_posix_run(v: Seq<char>, k: int, rest: Seq<char>)
    requires
        0 <= k <= v.len(),
    ensures
        posix_read(replace_from(v, seq!['\''], posix_quote_escape(), k) + rest, 0, true)
            == prefix_text(v.skip(k), posix_read(rest, 0, true)),
    decreases v.len() - k,
{
    let e = posix_quote_escape();
    if k == v.len() {
        assert(replace_from(v, seq!['\''], e, k) + rest =~= rest);
        assert(v.skip(k) =~= Seq::<char>::empty());
        match posix_read(rest, 0, true) {
            Some(x) => assert(Seq::<char>::empty() + x =~= x),
            None => {},
        }
    } else {
        lemma_posix_run(v, k + 1, rest);
        let tail = replace_from(v, seq!['\''], e, k + 1) + rest;
        if v[k] == '\'' {
            assert(v.subrange(k, k + 1) =~= seq!['\'']);
            assert(occurs_at(v, k, seq!['\'']));
            let w = e + tail;
            assert(replace_from(v, seq!['\''], e, k) + rest =~= w);
            lemma_posix_shift(w, 4, true);
            assert(w.skip(4) =~= tail);
            assert(w[0] == '\'' && w[1] == '\\' && w[2] == '\'' && w[3] == '\'');
            assert(posix_read(w, 0, true) == posix_read(w, 1, false));
            assert(posix_read(w, 1, false) == prefix_text(seq!['\''], posix_read(w, 3, false)));
            assert(posix_read(w, 3, false) == posix_read(w, 4, true));
        } else {
            assert(!occurs_at(v, k, seq!['\''])) by {
                if occurs_at(v, k, seq!['\'']) {
                    assert(v.subrange(k, k + 1)[0] == v[k]);
                }
            }
            let w = seq![v[k]] + tail;
            assert(replace_from(v, seq!['\''], e, k) + rest =~= w);
            lemma_posix_shift(w, 1, true);
            assert(w.skip(1) =~= tail);
        }
        assert(v.skip(k) =~= seq![v[k]] + v.skip(k + 1));
        match posix_read(rest, 0, true) {
            Some(x) => assert(seq![v[k]] + (v.skip(k + 1) + x) =~= v.skip(k) + x),
            None => {},
        }
    }
}

proof fn lemma_ps_run(v: Seq<char>, k: int, rest: Seq<char>)
    requires
        0 <= k <= v.len(),
    ensures
        ps_read(replace_from(v, seq!['\''], seq!['\'', '\''], k) + rest, 0, true)
            == prefix_text(v.skip(k), ps_read(rest, 0, true)),
    decreases v.len() - k,
{
    let e = seq!['\'', '\''];
    if k == v.len() {
        assert(replace_from(v, seq!['\''], e, k) + rest =~= rest);
        assert(v.skip(k) =~= Seq::<char>::empty());
        match ps_read(rest, 0, true) {
            Some(x) => assert(Seq::<char>::empty() + x =~= x),
            None => {},
        }
    } else {
        lemma_ps_run(v, k + 1, rest);
        let tail = replace_from(v, seq!['\''], e, k + 1) + rest;
        if v[k] == '\'' {
            assert(v.subrange(k, k + 1) =~= seq!['\'']);
            assert(occurs_at(v, k, seq!['\'']));
            let w = e + tail;
            assert(replace_from(v, seq!['\''], e, k) + rest =~= w);
            lemma_ps_shift(w, 2, true);
            assert(w.skip(2) =~= tail);
        } else {
            assert(!occurs_at(v, k, seq!['\''])) by {
                if occurs_at(v, k, seq!['\'']) {
                    assert(v.subrange(k, k + 1)[0] == v[k]);
                }
            }
            let w = seq![v[k]] + tail;
            assert(replace_from(v, seq!['\''], e, k) + rest =~= w);
            lemma_ps_shift(w, 1, true);
            assert(w.skip(1) =~= tail);
        }
        assert(v.skip(k) =~= seq![v[k]] + v.skip(k + 1));
        match ps_read(rest, 0, true) {
            Some(x) => assert(seq![v[k]] + (v.skip(k + 1) + x) =~= v.skip(k) + x),
            None => {},
        }
    }
}

proof fn lemma_close_run()
    ensures
        posix_read(seq!['\''], 0, true) == Some(Seq::<char>::empty()),
        ps_read(seq!['\''], 0, true) == Some(Seq::<char>::empty()),
{
    let w = seq!['\''];
    assert(posix_read(w, 1, false) == Some(Seq::<char>::empty()));
    assert(ps_read(w, 1, false) == Some(Seq::<char>::empty()));
}

/// `shell_quote` for a POSIX shell (and any shell it does not know): the
/// shell reads the quoted word back as exactly the value.
pub proof fn law_posix_shell_quote_reads_back(v: Seq<char>, shell: Seq<char>)
    requires
        shell != "powershell"@,
        shell != "cmd"@,
        shell != "fish"@,
    ensures
        posix_read(quote_for_shell(v, shell), 0, false) == Some(v),
{
    let body = replace_all(v, seq!['\''], posix_quote_escape());
    let w = seq!['\''] + body + seq!['\''];
    assert(quote_for_shell(v, shell) == w);
    lemma_posix_run(v, 0, seq!['\'']);
    lemma_close_run();
    lemma_posix_shift(w, 1, true);
    assert(w.skip(1) =~= body + seq!['\'']);
    assert(v.skip(0) =~= v);
    assert(v + Seq::<char>::empty() =~= v);
}

/// `shell_quote` for PowerShell: the quoted word reads back as the value.
pub proof fn law_powershell_shell_quote_reads_back(v: Seq<char>)
    ensures
        ps_read(quote_for_shell(v, "powershell"@), 0, false) == Some(v),
{
    let body = replace_all(v, seq!['\''], seq!['\'', '\'']);
    let w = seq!['\''] + body + seq!['\''];
    assert(quote_for_shell(v, "powershell"@) == w);
    lemma_ps_run(v, 0, seq!['\'']);
    lemma_close_run();
    lemma_ps_shift(w, 1, true);
    assert(w.skip(1) =~= body + seq!['\'']);
    assert(v.skip(0) =~= v);
    assert(v + Seq::<char>::empty() =~= v);
}

/// What a run of `quote_escape` adds for one character.
pub open spec fn quote_piece(c: char, rep: Seq<char>) -> Seq<char> {
    if c == '\'' { rep } else { seq![c] }
}

proof fn lemma_replace_push(v: Seq<char>, c: char, rep: Seq<char>, k: int)
    requires
        0 <= k <= v.len(),
    ensures
        replace_from(v.push(c), seq!['\''], rep, k) == replace_from(v, seq!['\''], rep, k) + quote_piece(c, rep),
    decreases v.len() - k,
{
    let w = v.push(c);
    if k == v.len() {
        assert(w[k] == c);
        if c == '\'' {
            assert(w.subrange(k, k + 1) =~= seq!['\'']);
        } else {
            assert(!occurs_at(w, k, seq!['\''])) by {
                if occurs_at(w, k, seq!['\'']) {
                    assert(w.subrange(k, k + 1)[0] == w[k]);
                }
            }
        }
        assert(replace_from(w, seq!['\''], rep, k + 1) == Seq::<char>::empty());
        assert(replace_from(v, seq!['\''], rep, k) == Seq::<char>::empty());
        assert(quote_piece(c, rep) + Seq::<char>::empty() =~= quote_piece(c, rep));
        assert(Seq::<char>::empty() + quote_piece(c, rep) =~= quote_piece(c, rep));
    } else {
        lemma_replace_push(v, c, rep, k + 1);
        assert(w[k] == v[k]);
        assert(w.subrange(k, k + 1) =~= v.subrange(k, k + 1));
        if occurs_at(v, k, seq!['\'']) {
            assert(rep + (replace_from(v, seq!['\''], rep, k + 1) + quote_piece(c, rep)) =~= (rep + replace_from(v, seq!['\''], rep, k + 1)) + quote_piece(c, rep));
        } else {
            assert(seq![v[k]] + (replace_from(v, seq!['\''], rep, k + 1) + quote_piece(c, rep)) =~= (seq![v[k]] + replace_from(v, seq!['\''], rep, k + 1)) + quote_piece(c, rep));
        }
    }
}

proof fn lemma_quote_escape_replace(v: Seq<char>, rep: Seq<char>)
    ensures
        quote_escape(v, rep) == replace_from(v, seq!['\''], rep, 0),
    decreases v.len(),
{
    if v.len() > 0 {
        lemma_quote_escape_replace(v.drop_last(), rep);
        lemma_replace_push(v.drop_last(), v.last(), rep, 0);
        assert(v.drop_last().push(v.last()) =~= v);
    }
}

proof fn lemma_posix_plain(v: Seq<char>, i: int)
    requires
        0 <= i <= v.len(),
        forall|k: int| 0 <= k < v.len() ==> !special(#[trigger] v[k]),
    ensures
        posix_read(v, i, false) == Some(v.skip(i)),
    decreases v.len() - i,
{
    if i < v.len() {
        assert(!special(v[i]));
        lemma_posix_plain(v, i + 1);
        assert(v.skip(i) =~= seq![v[i]] + v.skip(i + 1));
    } else {
        assert(v.skip(i) =~= Seq::<char>::empty());
    }
}

/// The value written by a POSIX environment assignment: the value itself
/// when it needs no quotes, else single-quoted.
pub open spec fn bash_value(v: Seq<char>) -> Seq<char> {
    if needs_quoting(v) {
        "'"@ + quote_escape(v, "'\\''"@) + "'"@
    } else {
        v
    }
}

/// A printed POSIX environment assignment is `KEY=` and a word that the
/// shell reads back as exactly the value.
pub proof fn law_bash_assignment_reads_back(k: Seq<char>, v: Seq<char>)
    ensures
        bash_assignment(k, v) == k + "="@ + bash_value(v),
        posix_read(bash_value(v), 0, false) == Some(v),
{
    if needs_quoting(v) {
        reveal_strlit("='");
        reveal_strlit("=");
        reveal_strlit("'");
        reveal_strlit("'\\''");
        assert("='"@ =~= "="@ + "'"@);
        assert(bash_assignment(k, v) =~= k + "="@ + bash_value(v));
        assert("'\\''"@ =~= posix_quote_escape());
        lemma_quote_escape_replace(v, posix_quote_escape());
        let body = quote_escape(v, posix_quote_escape());
        let w = seq!['\''] + body + seq!['\''];
        assert(bash_value(v) =~= w);
        lemma_posix_run(v, 0, seq!['\'']);
        lemma_close_run();
        lemma_posix_shift(w, 1, true);
        assert(w.skip(1) =~= body + seq!['\'']);
        assert(v.skip(0) =~= v);
        assert(v + Seq::<char>::empty() =~= v);
    } else {
        assert forall|j: int| 0 <= j < v.len() implies !special(#[trigger] v[j]) by {}
        lemma_posix_plain(v, 0);
        assert(v.skip(0) =~= v);
    }
}

/// A value quoted for PowerShell reads back as exactly the value.
pub proof fn law_powershell_quote_reads_back(v: Seq<char>)
    ensures
        ps_read(powershell_quote(v), 0, false) == Some(v),
{
    reveal_strlit("''");
    reveal_strlit("'");
    assert("''"@ =~= seq!['\'', '\'']);
    lemma_quote_escape_replace(v, seq!['\'', '\'']);
    let body = quote_escape(v, seq!['\'', '\'']);
    let w = seq!['\''] + body + seq!['\''];
    assert(powershell_quote(v) =~= w);
    lemma_ps_run(v, 0, seq!['\'']);
    lemma_close_run();
    lemma_ps_shift(w, 1, true);
    assert(w.skip(1) =~= body + seq!['\'']);
    assert(v.skip(0) =~= v);
    assert(v + Seq::<char>::empty() =~= v);
}

/// How fish reads a word made of single-quoted runs and unquoted
/// characters: inside a run, `\\` and `\'` stand for `\` and `'`, any other
/// character (a lone backslash too) for itself, and a quote closes the run;
/// outside, a quote opens a run and `\c` stands for `c`.
pub open spec fn fish_read(w: Seq<char>, i: int, quoted: bool) -> Option<Seq<char>>
    decreases w.len() - i,
{
    if i < 0 || i >= w.len() {
        if quoted { None } else { Some(Seq::empty()) }
    } else if quoted {
        if w[i] == '\'' {
            fish_read(w, i + 1, false)
        } else if w[i] == '\\' && i + 1 < w.len() && (w[i + 1] == '\\' || w[i + 1] == '\'') {
            prefix_text(seq![w[i + 1]], fish_read(w, i + 2, true))
        } else {
            prefix_text(seq![w[i]], fish_read(w, i + 1, true))
        }
    } else if w[i] == '\'' {
        fish_read(w, i + 1, true)
    } else if w[i] == '\\' && i + 1 < w.len() {
        prefix_text(seq![w[i + 1]], fish_read(w, i + 2, false))
    } else {
        prefix_text(seq![w[i]], fish_read(w, i + 1, false))
    }
}

proof fn lemma_fish_shift(w: Seq<char>, i: int, q: bool)
    requires
        0 <= i <= w.len(),
    ensures
        fish_read(w, i, q) == fish_read(w.skip(i), 0, q),
    decreases w.len() - i,
{
    let t = w.skip(i);
    if i < w.len() {
        assert(t[0] == w[i]);
        if i + 1 < w.len() {
            assert(t[1] == w[i + 1]);
        }
        lemma_fish_shift(w, i + 1, true);
        lemma_fish_shift(w, i + 1, false);
        lemma_fish_shift(t, 1, true);
        lemma_fish_shift(t, 1, false);
        assert(t.skip(1) =~= w.skip(i + 1));
        if i + 2 <= w.len() {
            lemma_fish_shift(w, i + 2, false);
            lemma_fish_shift(t, 2, false);
            lemma_fish_shift(w, i + 2, true);
            lemma_fish_shift(t, 2, true);
            assert(t.skip(2) =~= w.skip(i + 2));
        }
    }
}

proof fn lemma_fish_run(v: Seq<char>, k: int, rest: Seq<char>)
    requires
        0 <= k <= v.len(),
        forall|j: int| 0 <= j < v.len() ==> #[trigger] v[j] != '\\',
    ensures
        fish_read(replace_from(v, seq!['\''], posix_quote_escape(), k) + rest, 0, true)
            == prefix_text(v.skip(k), fish_read(rest, 0, true)),
    decreases v.len() - k,
{
    let e = posix_quote_escape();
    if k == v.len() {
        assert(replace_from(v, seq!['\''], e, k) + rest =~= rest);
        assert(v.skip(k) =~= Seq::<char>::empty());
        match fish_read(rest, 0, true) {
            Some(x) => assert(Seq::<char>::empty() + x =~= x),
            None => {},
        }
    } else {
        lemma_fish_run(v, k + 1, rest);
        let tail = replace_from(v, seq!['\''], e, k + 1) + rest;
        if v[k] == '\'' {
            assert(v.subrange(k, k + 1) =~= seq!['\'']);
            let w = e + tail;
            assert(replace_from(v, seq!['\''], e, k) + rest =~= w);
            lemma_fish_shift(w, 4, true);
            assert(w.skip(4) =~= tail);
            assert(w[0] == '\'' && w[1] == '\\' && w[2] == '\'' && w[3] == '\'');
            assert(fish_read(w, 0, true) == fish_read(w, 1, false));
            assert(fish_read(w, 1, false) == prefix_text(seq!['\''], fish_read(w, 3, false)));
            assert(fish_read(w, 3, false) == fish_read(w, 4, true));
        } else {
            assert(!occurs_at(v, k, seq!['\''])) by {
                if occurs_at(v, k, seq!['\'']) {
                    assert(v.subrange(k, k + 1)[0] == v[k]);
                }
            }
            let w = seq![v[k]] + tail;
            assert(replace_from(v, seq!['\''], e, k) + rest =~= w);
            assert(w[0] != '\\');
            lemma_fish_shift(w, 1, true);
            assert(w.skip(1) =~= tail);
        }
        assert(v.skip(k) =~= seq![v[k]] + v.skip(k + 1));
        match fish_read(rest, 0, true) {
            Some(x) => assert(seq![v[k]] + (v.skip(k + 1) + x) =~= v.skip(k) + x),
            None => {},
        }
    }
}

proof fn lemma_fish_plain(v: Seq<char>, i: int)
    requires
        0 <= i <= v.len(),
        forall|k: int| 0 <= k < v.len() ==> !special(#[trigger] v[k]),
    ensures
        fish_read(v, i, false) == Some(v.skip(i)),
    decreases v.len() - i,
{
    if i < v.len() {
        assert(!special(v[i]));
        lemma_fish_plain(v, i + 1);
        assert(v.skip(i) =~= seq![v[i]] + v.skip(i + 1));
    } else {
        assert(v.skip(i) =~= Seq::<char>::empty());
    }
}

/// A value without backslashes, quoted for fish in a printed `env`
/// assignment, reads back as exactly the value. (With a backslash it may
/// not: fish reads `\'` and `\\` inside single quotes as escapes.)
pub proof fn law_fish_quote_reads_back(v: Seq<char>)
    requires
        forall|j: int| 0 <= j < v.len() ==> #[trigger] v[j] != '\\',
    ensures
        fish_read(fish_quote(v), 0, false) == Some(v),
{
    if needs_quoting(v) {
        reveal_strlit("'");
        reveal_strlit("'\\''");
        assert("'\\''"@ =~= posix_quote_escape());
        lemma_quote_escape_replace(v, posix_quote_escape());
        let body = quote_escape(v, posix_quote_escape());
        let w = seq!['\''] + body + seq!['\''];
        assert(fish_quote(v) =~= w);
        lemma_fish_run(v, 0, seq!['\'']);
        assert(fish_read(seq!['\''], 1, false) == Some(Seq::<char>::empty()));
        lemma_fish_shift(w, 1, true);
        assert(w.skip(1) =~= body + seq!['\'']);
        assert(v.skip(0) =~= v);
        assert(v + Seq::<char>::empty() =~= v);
    } else {
        assert forall|j: int| 0 <= j < v.len() implies !special(#[trigger] v[j]) by {}
        lemma_fish_plain(v, 0);
        assert(v.skip(0) =~= v);
    }
}

// ── sorted glob matches ─────────────────────────────────────────────────

proof fn lemma_text_le_total(a: Seq<char>, b: Seq<char>)
    ensures
        text_le(a, b) || text_le(b, a),
    decreases a.len(),
{
    if a.len() > 0 && b.len() > 0 {
        if a[0] == b[0] {
            lemma_text_le_total(a.drop_first(), b.drop_first());
        } else {
            vstd::utf8::char_u32_cast(a[0], a[0] as u32);
            vstd::utf8::char_u32_cast(b[0], b[0] as u32);
        }
    }
}

proof fn lemma_text_le_trans(a: Seq<char>, b: Seq<char>, c: Seq<char>)
    requires
        text_le(a, b),
        text_le(b, c),
    ensures
        text_le(a, c),
    decreases a.len(),
{
    if a.len() > 0 && b.len() > 0 && c.len() > 0 && a[0] == b[0] && b[0] == c[0] {
        lemma_text_le_trans(a.drop_first(), b.drop_first(), c.drop_first());
    }
}

/// Each text is at most every later one.
pub open spec fn sorted_texts(s: Seq<Seq<char>>) -> bool {
    forall|i: int, j: int| 0 <= i < j < s.len() ==> text_le(#[trigger] s[i], #[trigger] s[j])
}

proof fn lemma_empty_multiset()
    ensures
        Seq::<Seq<char>>::empty().to_multiset() =~= Multiset::<Seq<char>>::empty(),
{
    broadcast use vstd::seq_lib::group_to_multiset_ensures, vstd::multiset::group_multiset_axioms;

    assert(Seq::<Seq<char>>::empty().to_multiset().len() == 0);
}

proof fn lemma_singleton_multiset(x: Seq<char>)
    ensures
        seq![x].to_multiset() == Multiset::<Seq<char>>::empty().insert(x),
{
    broadcast use vstd::seq_lib::group_to_multiset_ensures, vstd::multiset::group_multiset_axioms;

    lemma_empty_multiset();
    vstd::seq_lib::to_multiset_build(Seq::<Seq<char>>::empty(), x);
    assert(Seq::<Seq<char>>::empty().push(x) =~= seq![x]);
}

proof fn lemma_insert_sorted(x: Seq<char>, s: Seq<Seq<char>>)
    requires
        sorted_texts(s),
    ensures
        sorted_texts(insert_sorted(x, s)),
        insert_sorted(x, s).to_multiset() == s.to_multiset().insert(x),
    decreases s.len(),
{
    broadcast use vstd::seq_lib::group_to_multiset_ensures, vstd::multiset::group_multiset_axioms;

    let r = insert_sorted(x, s);
    if s.len() == 0 {
        assert(r =~= seq![x]);
        lemma_singleton_multiset(x);
        lemma_empty_multiset();
    } else if text_le(x, s[0]) {
        assert(r =~= seq![x] + s);
        assert forall|i: int, j: int| 0 <= i < j < r.len() implies text_le(#[trigger] r[i], #[trigger] r[j]) by {
            if i == 0 {
                if j > 1 {
                    assert(text_le(s[0], s[j - 1]));
                    lemma_text_le_trans(x, s[0], s[j - 1]);
                }
            } else {
                assert(r[i] == s[i - 1] && r[j] == s[j - 1]);
            }
        }
        vstd::seq_lib::lemma_multiset_commutative(seq![x], s);
        lemma_singleton_multiset(x);
        assert(seq![x].to_multiset().add(s.to_multiset()) =~= s.to_multiset().insert(x));
    } else {
        let t = s.drop_first();
        assert(sorted_texts(t)) by {
            assert forall|i: int, j: int| 0 <= i < j < t.len() implies text_le(#[trigger] t[i], #[trigger] t[j]) by {
                assert(t[i] == s[i + 1] && t[j] == s[j + 1]);
            }
        }
        lemma_insert_sorted(x, t);
        let u = insert_sorted(x, t);
        assert(r =~= seq![s[0]] + u);
        lemma_text_le_total(x, s[0]);
        assert forall|k: int| 0 <= k < u.len() implies text_le(s[0], #[trigger] u[k]) by {
            assert(u.contains(u[k]));
            assert(u.to_multiset().count(u[k]) > 0);
            assert(t.to_multiset().insert(x).count(u[k]) > 0);
            if u[k] != x {
                assert(t.to_multiset().count(u[k]) > 0);
                assert(t.contains(u[k]));
                let m = choose|m: int| 0 <= m < t.len() && t[m] == u[k];
                assert(s[m + 1] == t[m]);
                assert(text_le(s[0], s[m + 1]));
            }
        }
        assert forall|i: int, j: int| 0 <= i < j < r.len() implies text_le(#[trigger] r[i], #[trigger] r[j]) by {
            if i == 0 {
                assert(r[j] == u[j - 1]);
            } else {
                assert(r[i] == u[i - 1] && r[j] == u[j - 1]);
            }
        }
        vstd::seq_lib::lemma_multiset_commutative(seq![s[0]], u);
        vstd::seq_lib::lemma_multiset_commutative(seq![s[0]], t);
        assert(s =~= seq![s[0]] + t);
        lemma_singleton_multiset(s[0]);
        assert(r.to_multiset() =~= s.to_multiset().insert(x));
    }
}

/// The matches of a `for glob:` come out sorted, each exactly as often as it
/// was selected.
pub proof fn law_sorted_texts(s: Seq<Seq<char>>)
    ensures
        sorted_texts(sort_texts(s)),
        sort_texts(s).to_multiset() == s.to_multiset(),
    decreases s.len(),
{
    broadcast use vstd::seq_lib::group_to_multiset_ensures, vstd::multiset::group_multiset_axioms;

    if s.len() == 0 {
        assert(sort_texts(s) =~= Seq::<Seq<char>>::empty());
        assert(s =~= Seq::<Seq<char>>::empty());
    } else {
        law_sorted_texts(s.drop_last());
        lemma_insert_sorted(s.last(), sort_texts(s.drop_last()));
        vstd::seq_lib::to_multiset_build(s.drop_last(), s.last());
        assert(s.drop_last().push(s.last()) =~= s);
    }
}

// ── small promises ──────────────────────────────────────────────────────

/// A UUID has the shape of version 4, variant RFC 4122, whatever the seed:
/// the high nibble of byte 6 is 4 and the two high bits of byte 8 are `10`.
pub proof fn law_uuid_version_and_variant(seed: u64)
    ensures
        uuid_bytes(seed)[6] >> 4u8 == 4,
        uuid_bytes(seed)[8] >> 6u8 == 2,
{
    assert(forall|r: u8| #![auto] ((r & 0x0Fu8) | 0x40u8) >> 4u8 == 4u8) by (bit_vector);
    assert(forall|r: u8| #![auto] ((r & 0x3Fu8) | 0x80u8) >> 6u8 == 2u8) by (bit_vector);
}

/// The console mode update only ever adds the two bits it needs: every bit
/// of the current mode stays set, and both needed bits are set after it.
pub proof fn law_console_mode_keeps_bits(current: u32)
    ensures
        (current | 5u32) & current == current,
        (current | 5u32) & 5u32 == 5u32,
{
    assert((current | 5u32) & current == current) by (bit_vector);
    assert((current | 5u32) & 5u32 == 5u32) by (bit_vector);
}

/// No line break in a text.
pub open spec fn no_breaks(l: Seq<u8>) -> bool {
    forall|k: int| 0 <= k < l.len() ==> #[trigger] l[k] != 10 && l[k] != 13
}

/// The lines that reading output emits, and the partial line it keeps,
/// never hold a `\n` or `\r`.
pub proof fn law_lines_hold_no_breaks(f: Feed, chunk: Seq<u8>)
    requires
        no_breaks(f.line),
        forall|i: int| 0 <= i < f.out.len() ==> no_breaks(#[trigger] f.out[i]),
    ensures
        no_breaks(feed(f, chunk).line),
        forall|i: int| 0 <= i < feed(f, chunk).out.len() ==> no_breaks(#[trigger] feed(f, chunk).out[i]),
    decreases chunk.len(),
{
    if chunk.len() > 0 {
        law_lines_hold_no_breaks(f, chunk.drop_last());
        let g = feed(f, chunk.drop_last());
        let b = chunk.last();
        let h = byte_step(g, b);
        assert(no_breaks(h.line)) by {
            if b != 10 && b != 13 {
                assert forall|k: int| 0 <= k < h.line.len() implies #[trigger] h.line[k] != 10 && h.line[k] != 13 by {
                    if k < g.line.len() {
                        assert(h.line[k] == g.line[k]);
                    }
                }
            }
        }
        assert forall|i: int| 0 <= i < h.out.len() implies no_breaks(#[trigger] h.out[i]) by {
            if i < g.out.len() {
                assert(h.out[i] == g.out[i]);
            } else {
                assert(h.out[i] == g.line);
            }
        }
    }
}

/// When a command holds `{{ ARGS }}`, every argument is accepted.
pub proof fn law_passthrough_accepts_all(args: RunArgs, cmds: Seq<Seq<char>>, r: Result<(), ErrV>)
    requires
        scan_all(cmds, 0, false, Seq::empty()).0,
        validate_result(args, cmds, r),
    ensures
        r is Ok,
{
}

/// `meet` carried through a guard that may already be "never".
pub open spec fn meet_opt(a: Option<WhenCondition>, b: WhenCondition) -> Option<WhenCondition> {
    match a {
        Some(x) => meet(x, b),
        None => None,
    }
}

/// Nesting `when:` guards does not depend on the order of the guards: the
/// combination is commutative and associative, `always` changes nothing,
/// and a guard combined with itself is itself.
pub proof fn law_when_guards_combine(a: WhenCondition, b: WhenCondition, c: WhenCondition)
    ensures
        meet(a, b) == meet(b, a),
        meet_opt(meet(a, b), c) == match meet(b, c) {
            Some(y) => meet(a, y),
            None => None::<WhenCondition>,
        },
        meet(WhenCondition::Always, a) == Some(a),
        meet(a, a) == Some(a),
{
}

// ── the walk of a target ────────────────────────────────────────────────

/// Once a target is failed it stays failed: no command outcome, dependency,
/// settling or (not ignoring) `when:` block clears the flag.
pub proof fn law_failed_is_sticky(s: WalkState, status: CommandStatus, run: usize, failures: usize, pre: usize, ignore: bool, frame: WhenFrame)
    requires
        s.failed,
    ensures
        after_status(s, status).failed,
        after_dependency(s, run, failures, status).failed,
        settled(s, pre, ignore).failed,
        left(s, frame, false).failed,
{
}

/// A command that fails in a target that does not ignore errors makes it
/// failed: from then on `when: success` steps are skipped and `when:
/// failure` and `when: always` steps run.
pub proof fn law_failure_switches_guards(s: WalkState, status: CommandStatus)
    requires
        !succeeded(status),
        s.failures < usize::MAX,
    ensures
        settled(after_status(s, status), s.failures, false).failed,
        !when_holds(WhenCondition::Success, settled(after_status(s, status), s.failures, false).failed),
        when_holds(WhenCondition::Failure, settled(after_status(s, status), s.failures, false).failed),
        when_holds(WhenCondition::Always, settled(after_status(s, status), s.failures, false).failed),
{
}

/// With `ignoreErrors`, no step makes the target failed.
pub proof fn law_ignore_errors_never_fails(s: WalkState, pre: usize)
    ensures
        settled(s, pre, true).failed == s.failed,
{
}

/// A `when:` block with `ignoreErrors` leaves the target's failed flag and
/// failure count as they were before it, whatever ran inside.
pub proof fn law_ignored_block_restores(before: WalkState, inside: WalkState)
    ensures
        left(inside, WhenFrame { outer_failed: before.failed, pre_failures: before.failures }, true).failed == before.failed,
        left(inside, WhenFrame { outer_failed: before.failed, pre_failures: before.failures }, true).failures == before.failures,
{
}

// ── the step counter ────────────────────────────────────────────────────

/// Adding to the total never shrinks it, and subtracting never takes it
/// below zero nor above where it was.
pub proof fn law_total_updates(t: usize, n: usize)
    ensures
        grown(t, n) >= t,
        t + n <= usize::MAX ==> grown(t, n) == t + n,
        shrunk(t, n) <= t,
        t >= n ==> shrunk(t, n) == t - n,
{
}

/// A `for` with `ignoreErrors` isolates its failures: no iteration stops
/// the loop, each iteration starts unfailed, and the target's failed flag
/// and failure count come out as they went in.
pub proof fn law_ignored_for_isolates(s: WalkState, l: WalkState, errored: bool)
    ensures
        !after_iteration(l, errored, true).1,
        !after_iteration(l, errored, true).0.failed,
        block_finish(s, l, true).failed == s.failed,
        block_finish(s, l, true).failures == s.failures,
{
}

// ── function arity ──────────────────────────────────────────────────────

/// The number of arguments a built-in function with a fixed arity takes.
pub open spec fn fixed_arity(name: Seq<char>) -> Option<nat> {
    if name == "to_upper"@ || name == "to_lower"@ || name == "base64_encode"@ || name == "base64_decode"@
        || name == "capitalize"@ || name == "trim"@ || name == "trim_start"@ || name == "trim_end"@
        || name == "length"@ || name == "escape"@ || name == "sha256"@ || name == "md5"@
        || name == "shell_quote"@ || name == "url_encode"@ || name == "url_decode"@
        || name == "read_file"@ || name == "file_exists"@ || name == "now"@ || name == "capture"@
        || name == "error"@ || name == "set_cwd"@ || name == "basename"@ || name == "dirname"@
        || name == "extname"@ || name == "stem"@ {
        Some(1)
    } else if name == "remove_all"@ || name == "starts_with"@ || name == "ends_with"@ || name == "contains"@
        || name == "repeat"@ || name == "first"@ || name == "last"@ || name == "count_parts"@
        || name == "regex_remove"@ || name == "regex_matches"@ || name == "json_get"@ || name == "write_file"@ {
        Some(2)
    } else if name == "replace_all"@ || name == "nth"@ || name == "regex_replace"@ || name == "regex_capture"@
        || name == "json_set"@ {
        Some(3)
    } else if name == "regex_capture_all"@ {
        Some(4)
    } else if name == "uuid"@ || name == "temp_dir"@ {
        Some(0)
    } else {
        None
    }
}

/// A built-in function with a fixed arity, called with another number of
/// arguments, fails with `FunctionArity` naming it, the arity it expects
/// and the count it got, whatever the arguments, shell or mode.
#[verifier::rlimit(100)]
#[verifier::spinoff_prover]
pub proof fn law_fixed_arity_refused(shell: Seq<char>, redact: bool, dry_run: bool, name: Seq<char>, v: Seq<Seq<char>>)
    requires
        fixed_arity(name) is Some,
        v.len() != fixed_arity(name)->0,
    ensures
        fn_result(shell, redact, dry_run, name, v) == arity(name, dec(fixed_arity(name)->0), v.len()),
{
    reveal_strlit("1 or more");
    assert("1 or more"@.len() == 9);
    reveal_strlit("abs");
    assert("abs"@.len() == 3);
    reveal_strlit("add");
    assert("add"@.len() == 3);
    reveal_strlit("base64_decode");
    assert("base64_decode"@.len() == 13);
    reveal_strlit("base64_encode");
    assert("base64_encode"@.len() == 13);
    reveal_strlit("basename");
    assert("basename"@.len() == 8);
    reveal_strlit("capitalize");
    assert("capitalize"@.len() == 10);
    reveal_strlit("capture");
    assert("capture"@.len() == 7);
    reveal_strlit("ceil");
    assert("ceil"@.len() == 4);
    reveal_strlit("concat");
    assert("concat"@.len() == 6);
    reveal_strlit("contains");
    assert("contains"@.len() == 8);
    reveal_strlit("count_parts");
    assert("count_parts"@.len() == 11);
    reveal_strlit("dirname");
    assert("dirname"@.len() == 7);
    reveal_strlit("divide");
    assert("divide"@.len() == 6);
    reveal_strlit("ends_with");
    assert("ends_with"@.len() == 9);
    reveal_strlit("error");
    assert("error"@.len() == 5);
    reveal_strlit("escape");
    assert("escape"@.len() == 6);
    reveal_strlit("extname");
    assert("extname"@.len() == 7);
    reveal_strlit("file_exists");
    assert("file_exists"@.len() == 11);
    reveal_strlit("first");
    assert("first"@.len() == 5);
    reveal_strlit("floor");
    assert("floor"@.len() == 5);
    reveal_strlit("greater_than");
    assert("greater_than"@.len() == 12);
    reveal_strlit("greater_than_or_equal");
    assert("greater_than_or_equal"@.len() == 21);
    reveal_strlit("is_number");
    assert("is_number"@.len() == 9);
    reveal_strlit("join");
    assert("join"@.len() == 4);
    reveal_strlit("join_path");
    assert("join_path"@.len() == 9);
    reveal_strlit("json_get");
    assert("json_get"@.len() == 8);
    reveal_strlit("json_set");
    assert("json_set"@.len() == 8);
    reveal_strlit("last");
    assert("last"@.len() == 4);
    reveal_strlit("length");
    assert("length"@.len() == 6);
    reveal_strlit("less_than");
    assert("less_than"@.len() == 9);
    reveal_strlit("less_than_or_equal");
    assert("less_than_or_equal"@.len() == 18);
    reveal_strlit("max");
    assert("max"@.len() == 3);
    reveal_strlit("md5");
    assert("md5"@.len() == 3);
    reveal_strlit("min");
    assert("min"@.len() == 3);
    reveal_strlit("modulo");
    assert("modulo"@.len() == 6);
    reveal_strlit("multiply");
    assert("multiply"@.len() == 8);
    reveal_strlit("now");
    assert("now"@.len() == 3);
    reveal_strlit("nth");
    assert("nth"@.len() == 3);
    reveal_strlit("one_of");
    assert("one_of"@.len() == 6);
    reveal_strlit("power");
    assert("power"@.len() == 5);
    reveal_strlit("read_file");
    assert("read_file"@.len() == 9);
    reveal_strlit("regex_capture");
    assert("regex_capture"@.len() == 13);
    reveal_strlit("regex_capture_all");
    assert("regex_capture_all"@.len() == 17);
    reveal_strlit("regex_matches");
    assert("regex_matches"@.len() == 13);
    reveal_strlit("regex_remove");
    assert("regex_remove"@.len() == 12);
    reveal_strlit("regex_replace");
    assert("regex_replace"@.len() == 13);
    reveal_strlit("remove_all");
    assert("remove_all"@.len() == 10);
    reveal_strlit("repeat");
    assert("repeat"@.len() == 6);
    reveal_strlit("replace_all");
    assert("replace_all"@.len() == 11);
    reveal_strlit("round");
    assert("round"@.len() == 5);
    reveal_strlit("set_cwd");
    assert("set_cwd"@.len() == 7);
    reveal_strlit("sha256");
    assert("sha256"@.len() == 6);
    reveal_strlit("shell_quote");
    assert("shell_quote"@.len() == 11);
    reveal_strlit("starts_with");
    assert("starts_with"@.len() == 11);
    reveal_strlit("stem");
    assert("stem"@.len() == 4);
    reveal_strlit("substring");
    assert("substring"@.len() == 9);
    reveal_strlit("subtract");
    assert("subtract"@.len() == 8);
    reveal_strlit("temp_dir");
    assert("temp_dir"@.len() == 8);
    reveal_strlit("temp_file");
    assert("temp_file"@.len() == 9);
    reveal_strlit("to_lower");
    assert("to_lower"@.len() == 8);
    reveal_strlit("to_upper");
    assert("to_upper"@.len() == 8);
    reveal_strlit("trim");
    assert("trim"@.len() == 4);
    reveal_strlit("trim_end");
    assert("trim_end"@.len() == 8);
    reveal_strlit("trim_start");
    assert("trim_start"@.len() == 10);
    reveal_strlit("url_decode");
    assert("url_decode"@.len() == 10);
    reveal_strlit("url_encode");
    assert("url_encode"@.len() == 10);
    reveal_strlit("uuid");
    assert("uuid"@.len() == 4);
    reveal_strlit("write_file");
    assert("write_file"@.len() == 10);
    if name == "to_upper"@ {
        assert(name[0] != "basename"@[0]);
        assert(name[0] != "contains"@[0]);
        assert(name[0] != "json_get"@[0]);
        assert(name[0] != "json_set"@[0]);
        assert(name[0] != "multiply"@[0]);
        assert(name[0] != "subtract"@[0]);
        assert(name[1] != "temp_dir"@[1]);
        assert(name[3] != "to_lower"@[3]);
        assert(name[1] != "trim_end"@[1]);
        assert(fn_result(shell, redact, dry_run, name, v) == arity(name, dec(fixed_arity(name)->0), v.len()));
    } else if name == "to_lower"@ {
        assert(name[0] != "basename"@[0]);
        assert(name[0] != "contains"@[0]);
        assert(name[0] != "json_get"@[0]);
        assert(name[0] != "json_set"@[0]);
        assert(name[0] != "multiply"@[0]);
        assert(name[0] != "subtract"@[0]);
        assert(name[1] != "temp_dir"@[1]);
        assert(name[3] != "to_upper"@[3]);
        assert(name[1] != "trim_end"@[1]);
        assert(fn_result(shell, redact, dry_run, name, v) == arity(name, dec(fixed_arity(name)->0), v.len()));
    } else if name == "base64_encode"@ {
        assert(name[7] != "base64_decode"@[7]);
        assert(name[0] != "regex_capture"@[0]);
        assert(name[0] != "regex_matches"@[0]);
        assert(name[0] != "regex_replace"@[0]);
        assert(fn_result(shell, redact, dry_run, name, v) == arity(name, dec(fixed_arity(name)->0), v.len()));
    } else if name == "base64_decode"@ {
        assert(name[7] != "base64_encode"@[7]);
        assert(name[0] != "regex_capture"@[0]);
        assert(name[0] != "regex_matches"@[0]);
        assert(name[0] != "regex_replace"@[0]);
        assert(fn_result(shell, redact, dry_run, name, v) == arity(name, dec(fixed_arity(name)->0), v.len()));
    } else if name == "capitalize"@ {
        assert(name[0] != "remove_all"@[0]);
        assert(name[0] != "trim_start"@[0]);
        assert(name[0] != "url_decode"@[0]);
        assert(name[0] != "url_encode"@[0]);
        assert(name[0] != "write_file"@[0]);
        assert(fn_result(shell, redact, dry_run, name, v) == arity(name, dec(fixed_arity(name)->0), v.len()));
    } else if name == "trim"@ {
        assert(name[0] != "ceil"@[0]);
        assert(name[0] != "join"@[0]);
        assert(name[0] != "last"@[0]);
        assert(name[0] != "stem"@[0]);
        assert(name[0] != "uuid"@[0]);
        assert(fn_result(shell, redact, dry_run, name, v) == arity(name, dec(fixed_arity(name)->0), v.len()));
    } else if name == "trim_start"@ {
        assert(name[0] != "capitalize"@[0]);
        assert(name[0] != "remove_all"@[0]);
        assert(name[0] != "url_decode"@[0]);
        assert(name[0] != "url_encode"@[0]);
        assert(name[0] != "write_file"@[0]);
        assert(fn_result(shell, redact, dry_run, name, v) == arity(name, dec(fixed_arity(name)->0), v.len()));
    } else if name == "trim_end"@ {
        assert(name[0] != "basename"@[0]);
        assert(name[0] != "contains"@[0]);
        assert(name[0] != "json_get"@[0]);
        assert(name[0] != "json_set"@[0]);
        assert(name[0] != "multiply"@[0]);
        assert(name[0] != "subtract"@[0]);
        assert(name[1] != "temp_dir"@[1]);
        assert(name[1] != "to_lower"@[1]);
        assert(name[1] != "to_upper"@[1]);
        assert(fn_result(shell, redact, dry_run, name, v) == arity(name, dec(fixed_arity(name)->0), v.len()));
    } else if name == "length"@ {
        assert(name[0] != "concat"@[0]);
        assert(name[0] != "divide"@[0]);
        assert(name[0] != "escape"@[0]);
        assert(name[0] != "modulo"@[0]);
        assert(name[0] != "one_of"@[0]);
        assert(name[0] != "repeat"@[0]);
        assert(name[0] != "sha256"@[0]);
        assert(fn_result(shell, redact, dry_run, name, v) == arity(name, dec(fixed_arity(name)->0), v.len()));
    } else if name == "escape"@ {
        assert(name[0] != "concat"@[0]);
        assert(name[0] != "divide"@[0]);
        assert(name[0] != "length"@[0]);
        assert(name[0] != "modulo"@[0]);
        assert(name[0] != "one_of"@[0]);
        assert(name[0] != "repeat"@[0]);
        assert(name[0] != "sha256"@[0]);
        assert(fn_result(shell, redact, dry_run, name, v) == arity(name, dec(fixed_arity(name)->0), v.len()));
    } else if name == "sha256"@ {
        assert(name[0] != "concat"@[0]);
        assert(name[0] != "divide"@[0]);
        assert(name[0] != "escape"@[0]);
        assert(name[0] != "length"@[0]);
        assert(name[0] != "modulo"@[0]);
        assert(name[0] != "one_of"@[0]);
        assert(name[0] != "repeat"@[0]);
        assert(fn_result(shell, redact, dry_run, name, v) == arity(name, dec(fixed_arity(name)->0), v.len()));
    } else if name == "md5"@ {
        assert(name[0] != "abs"@[0]);
        assert(name[0] != "add"@[0]);
        assert(name[1] != "max"@[1]);
        assert(name[1] != "min"@[1]);
        assert(name[0] != "now"@[0]);
        assert(name[0] != "nth"@[0]);
        assert(fn_result(shell, redact, dry_run, name, v) == arity(name, dec(fixed_arity(name)->0), v.len()));
    } else if name == "shell_quote"@ {
        assert(name[0] != "count_parts"@[0]);
        assert(name[0] != "file_exists"@[0]);
        assert(name[0] != "replace_all"@[0]);
        assert(name[1] != "starts_with"@[1]);
        assert(fn_result(shell, redact, dry_run, name, v) == arity(name, dec(fixed_arity(name)->0), v.len()));
    } else if name == "url_encode"@ {
        assert(name[0] != "capitalize"@[0]);
        assert(name[0] != "remove_all"@[0]);
        assert(name[0] != "trim_start"@[0]);
        assert(name[4] != "url_decode"@[4]);
        assert(name[0] != "write_file"@[0]);
        assert(fn_result(shell, redact, dry_run, name, v) == arity(name, dec(fixed_arity(name)->0), v.len()));
    } else if name == "url_decode"@ {
        assert(name[0] != "capitalize"@[0]);
        assert(name[0] != "remove_all"@[0]);
        assert(name[0] != "trim_start"@[0]);
        assert(name[4] != "url_encode"@[4]);
        assert(name[0] != "write_file"@[0]);
        assert(fn_result(shell, redact, dry_run, name, v) == arity(name, dec(fixed_arity(name)->0), v.len()));
    } else if name == "read_file"@ {
        assert(name[0] != "ends_with"@[0]);
        assert(name[0] != "is_number"@[0]);
        assert(name[0] != "join_path"@[0]);
        assert(name[0] != "less_than"@[0]);
        assert(name[0] != "substring"@[0]);
        assert(name[0] != "temp_file"@[0]);
        assert(fn_result(shell, redact, dry_run, name, v) == arity(name, dec(fixed_arity(name)->0), v.len()));
    } else if name == "file_exists"@ {
        assert(name[0] != "count_parts"@[0]);
        assert(name[0] != "replace_all"@[0]);
        assert(name[0] != "shell_quote"@[0]);
        assert(name[0] != "starts_with"@[0]);
        assert(fn_result(shell, redact, dry_run, name, v) == arity(name, dec(fixed_arity(name)->0), v.len()));
    } else if name == "now"@ {
        assert(name[0] != "abs"@[0]);
        assert(name[0] != "add"@[0]);
        assert(name[0] != "max"@[0]);
        assert(name[0] != "md5"@[0]);
        assert(name[0] != "min"@[0]);
        assert(name[1] != "nth"@[1]);
        assert(fn_result(shell, redact, dry_run, name, v) == arity(name, dec(fixed_arity(name)->0), v.len()));
    } else if name == "capture"@ {
        assert(name[0] != "dirname"@[0]);
        assert(name[0] != "extname"@[0]);
        assert(name[0] != "set_cwd"@[0]);
        assert(fn_result(shell, redact, dry_run, name, v) == arity(name, dec(fixed_arity(name)->0), v.len()));
    } else if name == "error"@ {
        assert(name[0] != "first"@[0]);
        assert(name[0] != "floor"@[0]);
        assert(name[0] != "power"@[0]);
        assert(name[0] != "round"@[0]);
        assert(fn_result(shell, redact, dry_run, name, v) == arity(name, dec(fixed_arity(name)->0), v.len()));
    } else if name == "set_cwd"@ {
        assert(name[0] != "capture"@[0]);
        assert(name[0] != "dirname"@[0]);
        assert(name[0] != "extname"@[0]);
        assert(fn_result(shell, redact, dry_run, name, v) == arity(name, dec(fixed_arity(name)->0), v.len()));
    } else if name == "basename"@ {
        assert(name[0] != "contains"@[0]);
        assert(name[0] != "json_get"@[0]);
        assert(name[0] != "json_set"@[0]);
        assert(name[0] != "multiply"@[0]);
        assert(name[0] != "subtract"@[0]);
        assert(name[0] != "temp_dir"@[0]);
        assert(name[0] != "to_lower"@[0]);
        assert(name[0] != "to_upper"@[0]);
        assert(name[0] != "trim_end"@[0]);
        assert(fn_result(shell, redact, dry_run, name, v) == arity(name, dec(fixed_arity(name)->0), v.len()));
    } else if name == "dirname"@ {
        assert(name[0] != "capture"@[0]);
        assert(name[0] != "extname"@[0]);
        assert(name[0] != "set_cwd"@[0]);
        assert(fn_result(shell, redact, dry_run, name, v) == arity(name, dec(fixed_arity(name)->0), v.len()));
    } else if name == "extname"@ {
        assert(name[0] != "capture"@[0]);
        assert(name[0] != "dirname"@[0]);
        assert(name[0] != "set_cwd"@[0]);
        assert(fn_result(shell, redact, dry_run, name, v) == arity(name, dec(fixed_arity(name)->0), v.len()));
    } else if name == "stem"@ {
        assert(name[0] != "ceil"@[0]);
        assert(name[0] != "join"@[0]);
        assert(name[0] != "last"@[0]);
        assert(name[0] != "trim"@[0]);
        assert(name[0] != "uuid"@[0]);
        assert(fn_result(shell, redact, dry_run, name, v) == arity(name, dec(fixed_arity(name)->0), v.len()));
    } else if name == "remove_all"@ {
        assert(name[0] != "capitalize"@[0]);
        assert(name[0] != "trim_start"@[0]);
        assert(name[0] != "url_decode"@[0]);
        assert(name[0] != "url_encode"@[0]);
        assert(name[0] != "write_file"@[0]);
        assert(fn_result(shell, redact, dry_run, name, v) == arity(name, dec(fixed_arity(name)->0), v.len()));
    } else if name == "starts_with"@ {
        assert(name[0] != "count_parts"@[0]);
        assert(name[0] != "file_exists"@[0]);
        assert(name[0] != "replace_all"@[0]);
        assert(name[1] != "shell_quote"@[1]);
        assert(fn_result(shell, redact, dry_run, name, v) == arity(name, dec(fixed_arity(name)->0), v.len()));
    } else if name == "ends_with"@ {
        assert(name[0] != "is_number"@[0]);
        assert(name[0] != "join_path"@[0]);
        assert(name[0] != "less_than"@[0]);
        assert(name[0] != "read_file"@[0]);
        assert(name[0] != "substring"@[0]);
        assert(name[0] != "temp_file"@[0]);
        assert(fn_result(shell, redact, dry_run, name, v) == arity(name, dec(fixed_arity(name)->0), v.len()));
    } else if name == "contains"@ {
        assert(name[0] != "basename"@[0]);
        assert(name[0] != "json_get"@[0]);
        assert(name[0] != "json_set"@[0]);
        assert(name[0] != "multiply"@[0]);
        assert(name[0] != "subtract"@[0]);
        assert(name[0] != "temp_dir"@[0]);
        assert(name[0] != "to_lower"@[0]);
        assert(name[0] != "to_upper"@[0]);
        assert(name[0] != "trim_end"@[0]);
        assert(fn_result(shell, redact, dry_run, name, v) == arity(name, dec(fixed_arity(name)->0), v.len()));
    } else if name == "repeat"@ {
        assert(name[0] != "concat"@[0]);
        assert(name[0] != "divide"@[0]);
        assert(name[0] != "escape"@[0]);
        assert(name[0] != "length"@[0]);
        assert(name[0] != "modulo"@[0]);
        assert(name[0] != "one_of"@[0]);
        assert(name[0] != "sha256"@[0]);
        assert(fn_result(shell, redact, dry_run, name, v) == arity(name, dec(fixed_arity(name)->0), v.len()));
    } else if name == "first"@ {
        assert(name[0] != "error"@[0]);
        assert(name[1] != "floor"@[1]);
        assert(name[0] != "power"@[0]);
        assert(name[0] != "round"@[0]);
        assert(fn_result(shell, redact, dry_run, name, v) == arity(name, dec(fixed_arity(name)->0), v.len()));
    } else if name == "last"@ {
        assert(name[0] != "ceil"@[0]);
        assert(name[0] != "join"@[0]);
        assert(name[0] != "stem"@[0]);
        assert(name[0] != "trim"@[0]);
        assert(name[0] != "uuid"@[0]);
        assert(fn_result(shell, redact, dry_run, name, v) == arity(name, dec(fixed_arity(name)->0), v.len()));
    } else if name == "count_parts"@ {
        assert(name[0] != "file_exists"@[0]);
        assert(name[0] != "replace_all"@[0]);
        assert(name[0] != "shell_quote"@[0]);
        assert(name[0] != "starts_with"@[0]);
        assert(fn_result(shell, redact, dry_run, name, v) == arity(name, dec(fixed_arity(name)->0), v.len()));
    } else if name == "regex_remove"@ {
        assert(name[0] != "greater_than"@[0]);
        assert(fn_result(shell, redact, dry_run, name, v) == arity(name, dec(fixed_arity(name)->0), v.len()));
    } else if name == "regex_matches"@ {
        assert(name[0] != "base64_decode"@[0]);
        assert(name[0] != "base64_encode"@[0]);
        assert(name[6] != "regex_capture"@[6]);
        assert(name[6] != "regex_replace"@[6]);
        assert(fn_result(shell, redact, dry_run, name, v) == arity(name, dec(fixed_arity(name)->0), v.len()));
    } else if name == "json_get"@ {
        assert(name[0] != "basename"@[0]);
        assert(name[0] != "contains"@[0]);
        assert(name[5] != "json_set"@[5]);
        assert(name[0] != "multiply"@[0]);
        assert(name[0] != "subtract"@[0]);
        assert(name[0] != "temp_dir"@[0]);
        assert(name[0] != "to_lower"@[0]);
        assert(name[0] != "to_upper"@[0]);
        assert(name[0] != "trim_end"@[0]);
        assert(fn_result(shell, redact, dry_run, name, v) == arity(name, dec(fixed_arity(name)->0), v.len()));
    } else if name == "write_file"@ {
        assert(name[0] != "capitalize"@[0]);
        assert(name[0] != "remove_all"@[0]);
        assert(name[0] != "trim_start"@[0]);
        assert(name[0] != "url_decode"@[0]);
        assert(name[0] != "url_encode"@[0]);
        assert(fn_result(shell, redact, dry_run, name, v) == arity(name, dec(fixed_arity(name)->0), v.len()));
    } else if name == "replace_all"@ {
        assert(name[0] != "count_parts"@[0]);
        assert(name[0] != "file_exists"@[0]);
        assert(name[0] != "shell_quote"@[0]);
        assert(name[0] != "starts_with"@[0]);
        assert(fn_result(shell, redact, dry_run, name, v) == arity(name, dec(fixed_arity(name)->0), v.len()));
    } else if name == "nth"@ {
        assert(name[0] != "abs"@[0]);
        assert(name[0] != "add"@[0]);
        assert(name[0] != "max"@[0]);
        assert(name[0] != "md5"@[0]);
        assert(name[0] != "min"@[0]);
        assert(name[1] != "now"@[1]);
        assert(fn_result(shell, redact, dry_run, name, v) == arity(name, dec(fixed_arity(name)->0), v.len()));
    } else if name == "regex_replace"@ {
        assert(name[0] != "base64_decode"@[0]);
        assert(name[0] != "base64_encode"@[0]);
        assert(name[6] != "regex_capture"@[6]);
        assert(name[6] != "regex_matches"@[6]);
        assert(fn_result(shell, redact, dry_run, name, v) == arity(name, dec(fixed_arity(name)->0), v.len()));
    } else if name == "regex_capture"@ {
        assert(name[0] != "base64_decode"@[0]);
        assert(name[0] != "base64_encode"@[0]);
        assert(name[6] != "regex_matches"@[6]);
        assert(name[6] != "regex_replace"@[6]);
        assert(fn_result(shell, redact, dry_run, name, v) == arity(name, dec(fixed_arity(name)->0), v.len()));
    } else if name == "json_set"@ {
        assert(name[0] != "basename"@[0]);
        assert(name[0] != "contains"@[0]);
        assert(name[5] != "json_get"@[5]);
        assert(name[0] != "multiply"@[0]);
        assert(name[0] != "subtract"@[0]);
        assert(name[0] != "temp_dir"@[0]);
        assert(name[0] != "to_lower"@[0]);
        assert(name[0] != "to_upper"@[0]);
        assert(name[0] != "trim_end"@[0]);
        assert(fn_result(shell, redact, dry_run, name, v) == arity(name, dec(fixed_arity(name)->0), v.len()));
    } else if name == "regex_capture_all"@ {
        assert(fn_result(shell, redact, dry_run, name, v) == arity(name, dec(fixed_arity(name)->0), v.len()));
    } else if name == "uuid"@ {
        assert(name[0] != "ceil"@[0]);
        assert(name[0] != "join"@[0]);
        assert(name[0] != "last"@[0]);
        assert(name[0] != "stem"@[0]);
        assert(name[0] != "trim"@[0]);
        assert(fn_result(shell, redact, dry_run, name, v) == arity(name, dec(fixed_arity(name)->0), v.len()));
    } else if name == "temp_dir"@ {
        assert(name[0] != "basename"@[0]);
        assert(name[0] != "contains"@[0]);
        assert(name[0] != "json_get"@[0]);
        assert(name[0] != "json_set"@[0]);
        assert(name[0] != "multiply"@[0]);
        assert(name[0] != "subtract"@[0]);
        assert(name[1] != "to_lower"@[1]);
        assert(name[1] != "to_upper"@[1]);
        assert(name[1] != "trim_end"@[1]);
        assert(fn_result(shell, redact, dry_run, name, v) == arity(name, dec(fixed_arity(name)->0), v.len()));
    }
}


// ── splitting text ──────────────────────────────────────────────────────

proof fn lemma_join_front(x: Seq<char>, r: Seq<Seq<char>>, sep: Seq<char>)
    requires
        r.len() >= 1,
    ensures
        join_seq(seq![x] + r, sep) == x + sep + join_seq(r, sep),
    decreases r.len(),
{
    let whole = seq![x] + r;
    if r.len() == 1 {
        assert(whole.drop_last() =~= seq![x]);
        assert(whole.last() == r[0]);
        assert(join_seq(seq![x], sep) == x);
        assert(join_seq(r, sep) == r[0]);
        assert(join_seq(whole, sep) == join_seq(whole.drop_last(), sep) + sep + whole.last());
    } else {
        lemma_join_front(x, r.drop_last(), sep);
        assert(whole.drop_last() =~= seq![x] + r.drop_last());
        assert(whole.last() == r.last());
        assert(join_seq(whole, sep) == join_seq(whole.drop_last(), sep) + sep + whole.last());
        assert(join_seq(r, sep) == join_seq(r.drop_last(), sep) + sep + r.last());
        assert(x + sep + join_seq(r.drop_last(), sep) + sep + r.last() =~= x + sep + (join_seq(r.drop_last(), sep) + sep + r.last()));
    }
}

proof fn lemma_parts_join(s: Seq<char>, sep: Seq<char>, i: int, start: int)
    requires
        sep.len() > 0,
        0 <= start <= i,
        start <= s.len(),
    ensures
        parts_from(s, sep, i, start).len() >= 1,
        join_seq(parts_from(s, sep, i, start), sep) == s.subrange(start, s.len() as int),
    decreases s.len() - i,
{
    if i < 0 || i >= s.len() {
    } else if occurs_at(s, i, sep) {
        let k = sep.len() as int;
        lemma_parts_join(s, sep, i + k, i + k);
        let rest = parts_from(s, sep, i + k, i + k);
        lemma_join_front(s.subrange(start, i), rest, sep);
        assert(s.subrange(i, i + k) == sep);
        assert(s.subrange(start, i) + sep + s.subrange(i + k, s.len() as int) =~= s.subrange(start, s.len() as int));
    } else {
        lemma_parts_join(s, sep, i + 1, start);
    }
}

/// Splitting text at a non-empty separator gives at least one part (so
/// `count_parts` is never below 1), and joining the parts with the
/// separator gives the text back: no character is lost or added.
pub proof fn law_split_join(s: Seq<char>, sep: Seq<char>)
    requires
        sep.len() > 0,
    ensures
        split_parts(s, sep).len() >= 1,
        join_seq(split_parts(s, sep), sep) == s,
{
    lemma_parts_join(s, sep, 0, 0);
    assert(s.subrange(0, s.len() as int) =~= s);
}

// ── argument validation, as a whole ───────────────────────────────────

/// The arguments of a run are accepted exactly when there are none, when a
/// command holds `{{ ARGS }}`, or when the commands reference some keys,
/// every named argument is one of them, and no other word was given. A
/// refusal names all the words when the commands reference no key, else a
/// named argument that no command references, else the words that are not
/// named arguments.
pub proof fn law_validate_accepts_iff(args: RunArgs, cmds: Seq<Seq<char>>, r: Result<(), ErrV>)
    requires
        validate_result(args, cmds, r),
    ensures
        r is Err && scan_all(cmds, 0, false, Seq::empty()).1.len() == 0
            ==> r == Err::<(), ErrV>(ErrV::UnexpectedArgs(join_seq(strings_view(args.original@), " "@))),
        r is Err && scan_all(cmds, 0, false, Seq::empty()).1.len() > 0 && (exists|k: Seq<char>| #[trigger] text_map(args.named).contains_key(k)
            && !scan_all(cmds, 0, false, Seq::empty()).1.contains(k))
            ==> (r matches Err(ErrV::UnknownNamedArg(k)) && text_map(args.named).contains_key(k) && !scan_all(cmds, 0, false, Seq::empty()).1.contains(k)),
        r is Err && scan_all(cmds, 0, false, Seq::empty()).1.len() > 0 && (forall|k: Seq<char>| #[trigger] text_map(args.named).contains_key(k)
            ==> scan_all(cmds, 0, false, Seq::empty()).1.contains(k))
            ==> r == Err::<(), ErrV>(ErrV::UnexpectedArgs(join_seq(non_named_from(strings_view(args.original@), text_map(args.named), 0), " "@))),
        (r is Ok) <==> (
            strings_view(args.original@).len() == 0
            || scan_all(cmds, 0, false, Seq::empty()).0
            || (scan_all(cmds, 0, false, Seq::empty()).1.len() > 0
                && (forall|k: Seq<char>| #[trigger] text_map(args.named).contains_key(k) ==> scan_all(cmds, 0, false, Seq::empty()).1.contains(k))
                && non_named_from(strings_view(args.original@), text_map(args.named), 0).len() == 0)
        ),
{
}


// ── the split functions read one split ───────────────────────────────

/// No two occurrences of `sep` in `s` overlap.
pub open spec fn apart(s: Seq<char>, sep: Seq<char>) -> bool {
    forall|p: int, q: int| #![trigger occurs_at(s, p, sep), occurs_at(s, q, sep)]
        p < q && occurs_at(s, p, sep) && occurs_at(s, q, sep) ==> q >= p + sep.len()
}

proof fn lemma_parts_none(s: Seq<char>, sep: Seq<char>, i: int, start: int)
    requires
        sep.len() > 0,
        0 <= i,
        forall|q: int| i <= q ==> !#[trigger] occurs_at(s, q, sep),
    ensures
        parts_from(s, sep, i, start) == seq![s.subrange(start, s.len() as int)],
    decreases s.len() - i,
{
    if i < s.len() {
        assert(!occurs_at(s, i, sep));
        lemma_parts_none(s, sep, i + 1, start);
    }
}

proof fn lemma_parts_last(s: Seq<char>, sep: Seq<char>, i: int, start: int, p: int)
    requires
        sep.len() > 0,
        0 <= i <= p,
        occurs_at(s, p, sep),
        forall|q: int| p < q ==> !#[trigger] occurs_at(s, q, sep),
        apart(s, sep),
    ensures
        parts_from(s, sep, i, start).len() >= 1,
        parts_from(s, sep, i, start).last() == s.subrange(p + sep.len(), s.len() as int),
    decreases s.len() - i,
{
    let k = sep.len() as int;
    assert(i < s.len());
    if occurs_at(s, i, sep) {
        let rest = parts_from(s, sep, i + k, i + k);
        if i == p {
            lemma_parts_none(s, sep, i + k, i + k);
        } else {
            assert(p >= i + k);
            lemma_parts_last(s, sep, i + k, i + k, p);
        }
        assert(parts_from(s, sep, i, start) == seq![s.subrange(start, i)] + rest);
        assert((seq![s.subrange(start, i)] + rest).last() == rest.last());
    } else {
        lemma_parts_last(s, sep, i + 1, start, p);
    }
}

proof fn lemma_last_occurrence(s: Seq<char>, sep: Seq<char>, j: int)
    requires
        0 <= j,
    ensures
        match last_occurrence(s, sep, j) {
            Some(p) => 0 <= p < j && occurs_at(s, p, sep) && forall|q: int| p < q < j ==> !#[trigger] occurs_at(s, q, sep),
            None => forall|q: int| 0 <= q < j ==> !#[trigger] occurs_at(s, q, sep),
        },
    decreases j,
{
    if j > 0 && !occurs_at(s, j - 1, sep) {
        lemma_last_occurrence(s, sep, j - 1);
    }
}

/// With a non-empty separator, `first`, `nth`, `last` and `count_parts`
/// read one split of the text: `count_parts` is its number of parts (never
/// below 1), `first` its first part, `nth` the part at the index (empty
/// past the end), and `last` its last part wherever no two occurrences of
/// the separator overlap (where they do, `last` reads from the right, as
/// `str::rsplit` does, and may take another occurrence).
#[verifier::rlimit(100)]
#[verifier::spinoff_prover]
pub proof fn law_split_functions(shell: Seq<char>, redact: bool, dry_run: bool, s: Seq<char>, sep: Seq<char>, t: Seq<char>)
    requires
        sep.len() > 0,
    ensures
        split_parts(s, sep).len() >= 1,
        fn_result(shell, redact, dry_run, "count_parts"@, seq![s, sep]) == ok(dec(split_parts(s, sep).len())),
        fn_result(shell, redact, dry_run, "first"@, seq![s, sep]) == ok(split_parts(s, sep)[0]),
        parse_count(t) is Some ==> fn_result(shell, redact, dry_run, "nth"@, seq![s, sep, t]) == ok(
            if parse_count(t)->0 < split_parts(s, sep).len() { split_parts(s, sep)[parse_count(t)->0 as int] } else { Seq::empty() }),
        apart(s, sep) ==> fn_result(shell, redact, dry_run, "last"@, seq![s, sep]) == ok(split_parts(s, sep).last()),
{
    reveal_strlit("to_upper");
    assert("to_upper"@.len() == 8);
    reveal_strlit("to_lower");
    assert("to_lower"@.len() == 8);
    reveal_strlit("base64_encode");
    assert("base64_encode"@.len() == 13);
    reveal_strlit("base64_decode");
    assert("base64_decode"@.len() == 13);
    reveal_strlit("concat");
    assert("concat"@.len() == 6);
    reveal_strlit("join");
    assert("join"@.len() == 4);
    reveal_strlit("replace_all");
    assert("replace_all"@.len() == 11);
    reveal_strlit("remove_all");
    assert("remove_all"@.len() == 10);
    reveal_strlit("starts_with");
    assert("starts_with"@.len() == 11);
    reveal_strlit("ends_with");
    assert("ends_with"@.len() == 9);
    reveal_strlit("contains");
    assert("contains"@.len() == 8);
    reveal_strlit("capitalize");
    assert("capitalize"@.len() == 10);
    reveal_strlit("trim");
    assert("trim"@.len() == 4);
    reveal_strlit("trim_start");
    assert("trim_start"@.len() == 10);
    reveal_strlit("trim_end");
    assert("trim_end"@.len() == 8);
    reveal_strlit("length");
    assert("length"@.len() == 6);
    reveal_strlit("escape");
    assert("escape"@.len() == 6);
    reveal_strlit("repeat");
    assert("repeat"@.len() == 6);
    reveal_strlit("nth");
    assert("nth"@.len() == 3);
    reveal_strlit("first");
    assert("first"@.len() == 5);
    reveal_strlit("last");
    assert("last"@.len() == 4);
    reveal_strlit("count_parts");
    assert("count_parts"@.len() == 11);
    assert("last"@[0] != "join"@[0] && "last"@[0] != "trim"@[0]);
    assert("count_parts"@[0] != "replace_all"@[0] && "count_parts"@[0] != "starts_with"@[0]);
    lemma_parts_join(s, sep, 0, 0);
    if apart(s, sep) {
        let n = s.len() as int;
        lemma_last_occurrence(s, sep, n);
        match last_occurrence(s, sep, n) {
            Some(p) => {
                assert forall|q: int| p < q implies !#[trigger] occurs_at(s, q, sep) by {
                    if q >= n {
                        assert(!occurs_at(s, q, sep));
                    }
                }
                lemma_parts_last(s, sep, 0, 0, p);
            },
            None => {
                assert forall|q: int| 0 <= q implies !#[trigger] occurs_at(s, q, sep) by {
                    if q >= n {
                        assert(!occurs_at(s, q, sep));
                    }
                }
                lemma_parts_none(s, sep, 0, 0);
                assert(s.subrange(0, n) =~= s);
            },
        }
    }
}


// ── a redacted `ENV` reference ───────────────────────────────────────

/// `k` is the key of some entry of `e`.
pub open spec fn has_env_key(e: Seq<(Seq<char>, Seq<char>)>, k: Seq<char>) -> bool {
    exists|i: int| 0 <= i < e.len() && #[trigger] e[i].0 == k
}

proof fn lemma_lookup_first_some(p: Seq<(Seq<char>, Seq<char>)>, k: Seq<char>)
    ensures
        lookup_first(p, k) is Some <==> has_env_key(p, k),
    decreases p.len(),
{
    if p.len() > 0 {
        lemma_lookup_first_some(p.skip(1), k);
        if has_env_key(p, k) && p[0].0 != k {
            let i = choose|i: int| 0 <= i < p.len() && #[trigger] p[i].0 == k;
            assert(p.skip(1)[i - 1].0 == k);
        }
        if has_env_key(p.skip(1), k) {
            let i = choose|i: int| 0 <= i < p.skip(1).len() && #[trigger] p.skip(1)[i].0 == k;
            assert(p[i + 1].0 == k);
        }
    }
}

proof fn lemma_lookup_folded_some(p: Seq<(Seq<char>, Seq<char>)>, lk: Seq<char>)
    ensures
        lookup_folded(p, lk) is Some <==> exists|i: int| 0 <= i < p.len() && #[trigger] crate::outside::lower(p[i].0) == lk,
    decreases p.len(),
{
    if p.len() > 0 {
        lemma_lookup_folded_some(p.skip(1), lk);
        if exists|i: int| 0 <= i < p.len() && #[trigger] crate::outside::lower(p[i].0) == lk {
            let i = choose|i: int| 0 <= i < p.len() && #[trigger] crate::outside::lower(p[i].0) == lk;
            if i > 0 {
                assert(crate::outside::lower(p.skip(1)[i - 1].0) == lk);
            }
        }
        if exists|i: int| 0 <= i < p.skip(1).len() && #[trigger] crate::outside::lower(p.skip(1)[i].0) == lk {
            let i = choose|i: int| 0 <= i < p.skip(1).len() && #[trigger] crate::outside::lower(p.skip(1)[i].0) == lk;
            assert(crate::outside::lower(p[i + 1].0) == lk);
        }
    }
}

/// When substituting for the log (redacted), an `ENV.` reference reads the
/// same whatever the environment's values: two contexts that differ only in
/// their environment, whose environments have the same keys, give the same
/// outcome for every source reference, an `ENV.` one rendering as `***`
/// or as missing alike.
pub proof fn law_redacted_env_reference(c1: Ctx, c2: Ctx, seg: Seq<char>, last: bool, pk: Option<Seq<char>>, le: Option<ErrV>, s: St)
    requires
        c1.redact,
        c2 == (Ctx { env: c2.env, ..c1 }),
        forall|k: Seq<char>| has_env_key(c1.env, k) <==> has_env_key(c2.env, k),
    ensures
        source_step(c1, seg, last, pk, le, s) == source_step(c2, seg, last, pk, le, s),
{
    let key = trim(seg.skip("ENV."@.len() as int));
    lemma_lookup_first_some(c1.env, key);
    lemma_lookup_first_some(c2.env, key);
    let lk = crate::outside::lower(key);
    lemma_lookup_folded_some(c1.env, lk);
    lemma_lookup_folded_some(c2.env, lk);
    if exists|i: int| 0 <= i < c1.env.len() && #[trigger] crate::outside::lower(c1.env[i].0) == lk {
        let i = choose|i: int| 0 <= i < c1.env.len() && #[trigger] crate::outside::lower(c1.env[i].0) == lk;
        assert(has_env_key(c1.env, c1.env[i].0));
        let j = choose|j: int| 0 <= j < c2.env.len() && #[trigger] c2.env[j].0 == c1.env[i].0;
        assert(crate::outside::lower(c2.env[j].0) == lk);
    }
    if exists|i: int| 0 <= i < c2.env.len() && #[trigger] crate::outside::lower(c2.env[i].0) == lk {
        let i = choose|i: int| 0 <= i < c2.env.len() && #[trigger] crate::outside::lower(c2.env[i].0) == lk;
        assert(has_env_key(c2.env, c2.env[i].0));
        let j = choose|j: int| 0 <= j < c1.env.len() && #[trigger] c1.env[j].0 == c2.env[i].0;
        assert(crate::outside::lower(c1.env[j].0) == lk);
    }
    assert(env_lookup(c1.env, key) is Some <==> env_lookup(c2.env, key) is Some);
}


// ── `substring` ──────────────────────────────────────────────────────

/// `substring(s, start, len)` gives the characters of `s` from `start` on,
/// at most `len` of them: exactly `min(len, max(0, |s| - start))`
/// characters, the `i`-th being `s[start + i]`. Without a length it gives
/// all of them.
#[verifier::spinoff_prover]
pub proof fn law_substring(shell: Seq<char>, redact: bool, dry_run: bool, s: Seq<char>, t1: Seq<char>, t2: Seq<char>)
    requires
        parse_count(t1) is Some,
    ensures
        parse_count(t2) is Some ==> match fn_result(shell, redact, dry_run, "substring"@, seq![s, t1, t2]) {
            FnOut::Value(Ok(r)) => {
                let a = parse_count(t1)->0;
                let l = parse_count(t2)->0;
                &&& r.len() == (if a >= s.len() { 0 } else if l <= s.len() - a { l as int } else { s.len() - a })
                &&& forall|i: int| 0 <= i < r.len() ==> #[trigger] r[i] == s[a + i]
            },
            _ => false,
        },
        match fn_result(shell, redact, dry_run, "substring"@, seq![s, t1]) {
            FnOut::Value(Ok(r)) => {
                let a = parse_count(t1)->0;
                &&& r.len() == (if a >= s.len() { 0 } else { s.len() - a })
                &&& forall|i: int| 0 <= i < r.len() ==> #[trigger] r[i] == s[a + i]
            },
            _ => false,
        },
{
    reveal_strlit("substring");
    assert("substring"@.len() == 9);
    reveal_strlit("ends_with");
    assert("ends_with"@.len() == 9);
    assert("substring"@[0] != "ends_with"@[0]);
    let names = seq!["to_upper"@, "to_lower"@, "base64_encode"@, "base64_decode"@, "concat"@, "join"@, "replace_all"@,
        "remove_all"@, "starts_with"@, "capitalize"@, "contains"@, "trim"@, "trim_start"@, "trim_end"@, "length"@, "escape"@,
        "repeat"@, "nth"@, "first"@, "last"@, "count_parts"@];
    reveal_strlit("to_upper");
    reveal_strlit("to_lower");
    reveal_strlit("base64_encode");
    reveal_strlit("base64_decode");
    reveal_strlit("concat");
    reveal_strlit("join");
    reveal_strlit("replace_all");
    reveal_strlit("remove_all");
    reveal_strlit("starts_with");
    reveal_strlit("capitalize");
    reveal_strlit("contains");
    reveal_strlit("trim");
    reveal_strlit("trim_start");
    reveal_strlit("trim_end");
    reveal_strlit("length");
    reveal_strlit("escape");
    reveal_strlit("repeat");
    reveal_strlit("nth");
    reveal_strlit("first");
    reveal_strlit("last");
    reveal_strlit("count_parts");
    assert(forall|k: int| 0 <= k < names.len() ==> #[trigger] names[k].len() != 9);
}

// ── `one_of` ─────────────────────────────────────────────────────────

/// `one_of(value, options...)` gives the value back whenever it equals any
/// one of the options, and fails whenever it equals none of them.
#[verifier::spinoff_prover]
pub proof fn law_one_of(shell: Seq<char>, redact: bool, dry_run: bool, v: Seq<Seq<char>>)
    requires
        v.len() >= 2,
    ensures
        (exists|j: int| 1 <= j < v.len() && #[trigger] v[j] == v[0]) ==> fn_result(shell, redact, dry_run, "one_of"@, v) == ok(v[0]),
        (forall|j: int| 1 <= j < v.len() ==> #[trigger] v[j] != v[0]) ==> (fn_result(shell, redact, dry_run, "one_of"@, v) matches FnOut::Value(Err(_))),
{
    reveal_strlit("one_of");
    reveal_strlit("concat");
    reveal_strlit("length");
    reveal_strlit("escape");
    reveal_strlit("repeat");
    reveal_strlit("sha256");
    reveal_strlit("md5");
    reveal_strlit("shell_quote");
    reveal_strlit("to_upper");
    reveal_strlit("to_lower");
    reveal_strlit("base64_encode");
    reveal_strlit("base64_decode");
    reveal_strlit("join");
    reveal_strlit("replace_all");
    reveal_strlit("remove_all");
    reveal_strlit("starts_with");
    reveal_strlit("ends_with");
    reveal_strlit("capitalize");
    reveal_strlit("contains");
    reveal_strlit("trim");
    reveal_strlit("trim_start");
    reveal_strlit("trim_end");
    reveal_strlit("nth");
    reveal_strlit("first");
    reveal_strlit("last");
    reveal_strlit("count_parts");
    reveal_strlit("substring");
    reveal_strlit("regex_replace");
    reveal_strlit("regex_remove");
    reveal_strlit("regex_matches");
    reveal_strlit("regex_capture");
    reveal_strlit("regex_capture_all");
    assert("one_of"@.len() == 6);
    assert("one_of"@[0] != "concat"@[0] && "one_of"@[0] != "length"@[0] && "one_of"@[0] != "escape"@[0]);
    assert("one_of"@[0] != "repeat"@[0] && "one_of"@[0] != "sha256"@[0]);
    if exists|j: int| 1 <= j < v.len() && #[trigger] v[j] == v[0] {
        let j = choose|j: int| 1 <= j < v.len() && #[trigger] v[j] == v[0];
        assert(v.skip(1)[j - 1] == v[0]);
    }
    if v.skip(1).contains(v[0]) {
        let j = choose|j: int| 0 <= j < v.skip(1).len() && v.skip(1)[j] == v[0];
        assert(v[j + 1] == v[0]);
    }
}

// ── `regex_capture_all` ──────────────────────────────────────────────

/// The total length of some texts.
pub open spec fn lens_sum(p: Seq<Seq<char>>) -> int
    decreases p.len(),
{
    if p.len() == 0 { 0 } else { lens_sum(p.drop_last()) + p.last().len() }
}

proof fn lemma_join_len(items: Seq<Seq<char>>, sep: Seq<char>)
    requires
        items.len() >= 1,
    ensures
        join_seq(items, sep).len() == lens_sum(items) + (items.len() - 1) * sep.len(),
    decreases items.len(),
{
    if items.len() > 1 {
        lemma_join_len(items.drop_last(), sep);
        let n = items.len() as int;
        let k = sep.len() as int;
        assert(join_seq(items, sep) == join_seq(items.drop_last(), sep) + sep + items.last());
        assert(lens_sum(items) == lens_sum(items.drop_last()) + items.last().len());
        assert(items.drop_last().len() == n - 1);
        assert((items.drop_last().len() - 1) * sep.len() == (n - 2) * k);
        assert((n - 2) * k + k == (n - 1) * k) by (nonlinear_arith);
        assert((items.len() - 1) * sep.len() == (n - 1) * k);
    } else {
        assert(items.drop_last().len() == 0);
        assert(lens_sum(items.drop_last()) == 0);
        assert(lens_sum(items) == items[0].len());
        assert((items.len() - 1) * sep.len() == 0);
    }
}

/// `regex_capture_all(haystack, pattern, group, sep)`, for a pattern that
/// compiles and a group index that parses, gives the chosen group of every
/// match with `sep` between neighbours: nothing without a match, the one
/// group for one match, and for more the first group, then `sep`, then the
/// rest, `sep` standing once between each neighbouring pair so that the
/// length is the groups' total plus one `sep` fewer than there are matches.
#[verifier::spinoff_prover]
pub proof fn law_regex_capture_all(shell: Seq<char>, redact: bool, dry_run: bool, h: Seq<char>, pat: Seq<char>, t: Seq<char>, sep: Seq<char>)
    requires
        regex_rejection(pat) is None,
        parse_count(t) is Some,
    ensures
        ({
            let parts = regex_every(pat, h).map_values(|gs: Seq<Option<Seq<char>>>| group_text(gs, parse_count(t)->0));
            match fn_result(shell, redact, dry_run, "regex_capture_all"@, seq![h, pat, t, sep]) {
                FnOut::Value(Ok(r)) => {
                    &&& parts.len() == 0 ==> r.len() == 0
                    &&& parts.len() == 1 ==> r == parts[0]
                    &&& parts.len() >= 2 ==> exists|rest: Seq<char>| r == parts[0] + sep + rest
                    &&& parts.len() >= 1 ==> r.len() == lens_sum(parts) + (parts.len() - 1) * sep.len()
                },
                _ => false,
            }
        }),
{
    reveal_strlit("regex_capture_all");
    reveal_strlit("regex_capture");
    reveal_strlit("regex_replace");
    reveal_strlit("regex_remove");
    reveal_strlit("regex_matches");
    let names = seq!["to_upper"@, "to_lower"@, "base64_encode"@, "base64_decode"@, "concat"@, "join"@, "replace_all"@,
        "remove_all"@, "starts_with"@, "ends_with"@, "capitalize"@, "contains"@, "trim"@, "trim_start"@, "trim_end"@, "length"@,
        "escape"@, "repeat"@, "nth"@, "first"@, "last"@, "count_parts"@, "substring"@, "regex_replace"@, "regex_remove"@,
        "regex_matches"@, "regex_capture"@];
    reveal_strlit("to_upper");
    reveal_strlit("to_lower");
    reveal_strlit("base64_encode");
    reveal_strlit("base64_decode");
    reveal_strlit("concat");
    reveal_strlit("join");
    reveal_strlit("replace_all");
    reveal_strlit("remove_all");
    reveal_strlit("starts_with");
    reveal_strlit("ends_with");
    reveal_strlit("capitalize");
    reveal_strlit("contains");
    reveal_strlit("trim");
    reveal_strlit("trim_start");
    reveal_strlit("trim_end");
    reveal_strlit("length");
    reveal_strlit("escape");
    reveal_strlit("repeat");
    reveal_strlit("nth");
    reveal_strlit("first");
    reveal_strlit("last");
    reveal_strlit("count_parts");
    reveal_strlit("substring");
    assert("regex_capture_all"@.len() == 17);
    assert(forall|k: int| 0 <= k < names.len() ==> #[trigger] names[k].len() != 17);
    let parts = regex_every(pat, h).map_values(|gs: Seq<Option<Seq<char>>>| group_text(gs, parse_count(t)->0));
    if parts.len() >= 1 {
        lemma_join_len(parts, sep);
    }
    if parts.len() >= 2 {
        lemma_join_front(parts[0], parts.skip(1), sep);
        assert(seq![parts[0]] + parts.skip(1) =~= parts);
        assert(join_seq(parts, sep) == parts[0] + sep + join_seq(parts.skip(1), sep));
    }
}

// ── the case a `match` takes ─────────────────────────────────────────

/// A key that cannot take a value: not a `/pattern/` key, or one whose
/// pattern compiles and does not match it.
pub open spec fn regex_passes(key: Seq<char>, v: Seq<char>) -> bool {
    match regex_key(key) {
        None => true,
        Some(p) => regex_rejection(p) is None && !regex_found(p, v),
    }
}

proof fn lemma_exact_case(keys: Seq<Seq<char>>, v: Seq<char>, k: int)
    requires
        0 <= k,
    ensures
        match exact_case(keys, v, k) {
            Some(i) => k <= i < keys.len() && keys[i] == v && forall|j: int| k <= j < i ==> #[trigger] keys[j] != v,
            None => forall|j: int| k <= j < keys.len() ==> #[trigger] keys[j] != v,
        },
    decreases keys.len() - k,
{
    if k < keys.len() && keys[k] != v {
        lemma_exact_case(keys, v, k + 1);
    }
}

proof fn lemma_regex_case(keys: Seq<Seq<char>>, v: Seq<char>, k: int)
    requires
        0 <= k,
    ensures
        match regex_case(keys, v, k) {
            Some(Ok(i)) => k <= i < keys.len() && regex_key(keys[i]) is Some && regex_rejection(regex_key(keys[i])->0) is None
                && regex_found(regex_key(keys[i])->0, v) && forall|j: int| k <= j < i ==> #[trigger] regex_passes(keys[j], v),
            Some(Err((key, m))) => exists|i: int| k <= i < keys.len() && #[trigger] keys[i] == key && regex_key(key) is Some
                && regex_rejection(regex_key(key)->0) == Some(m) && forall|j: int| k <= j < i ==> #[trigger] regex_passes(keys[j], v),
            None => forall|j: int| k <= j < keys.len() ==> #[trigger] regex_passes(keys[j], v),
        },
    decreases keys.len() - k,
{
    if k < keys.len() {
        lemma_regex_case(keys, v, k + 1);
        match regex_case(keys, v, k) {
            Some(Err((key, m))) => {
                if keys[k] != key || regex_key(keys[k]) is None || regex_rejection(regex_key(keys[k])->0) is None {
                    let i = choose|i: int| k + 1 <= i < keys.len() && #[trigger] keys[i] == key && regex_key(key) is Some
                        && regex_rejection(regex_key(key)->0) == Some(m) && forall|j: int| k + 1 <= j < i ==> #[trigger] regex_passes(keys[j], v);
                    assert(regex_passes(keys[k], v));
                    assert(forall|j: int| k <= j < i ==> #[trigger] regex_passes(keys[j], v));
                } else {
                    assert(keys[k] == key);
                }
            },
            _ => {},
        }
    }
}

/// The case a `match` takes, for a value that resolved: the first key
/// equal to the value when there is one; else a `/pattern/` key whose
/// pattern compiles and matches the value, every key before it being one
/// that cannot take the value; and a refused pattern is reported only when
/// every key before it cannot take the value.
#[verifier::spinoff_prover]
pub proof fn law_match_case_order(step: MatchCases, v: Seq<char>, r: Result<MatchBranch, ControlFlowError>)
    requires
        match_fits(step, Ok(v), r),
    ensures
        ({
            let keys = strs_view(step.keys@);
            &&& (exists|j: int| 0 <= j < keys.len() && #[trigger] keys[j] == v) ==> (r matches Ok(MatchBranch::Case(i))
                && i < keys.len() && keys[i as int] == v && forall|j: int| 0 <= j < i ==> #[trigger] keys[j] != v)
            &&& (forall|j: int| 0 <= j < keys.len() ==> #[trigger] keys[j] != v) && (r matches Ok(MatchBranch::Case(_))) ==> (r matches Ok(MatchBranch::Case(i))
                && i < keys.len() && regex_key(keys[i as int]) is Some && regex_rejection(regex_key(keys[i as int])->0) is None
                && regex_found(regex_key(keys[i as int])->0, v) && forall|j: int| 0 <= j < i ==> #[trigger] regex_passes(keys[j], v))
            &&& match r {
                Err(ControlFlowError::BadRegexCase { key, message }) => exists|i: int| 0 <= i < keys.len()
                    && #[trigger] keys[i] == key@ && regex_key(key@) is Some && regex_rejection(regex_key(key@)->0) == Some(message@)
                    && forall|j: int| 0 <= j < i ==> #[trigger] regex_passes(keys[j], v),
                _ => true,
            }
        }),
{
    let keys = strs_view(step.keys@);
    assert(keys.len() == step.keys@.len());
    assert(step.keys@.len() == step.keys.len());
    lemma_exact_case(keys, v, 0);
    lemma_regex_case(keys, v, 0);
    match exact_case(keys, v, 0) {
        Some(i) => {
            assert((i as usize) as int == i);
        },
        None => {
            match regex_case(keys, v, 0) {
                Some(Ok(i)) => {
                    assert((i as usize) as int == i);
                },
                _ => {},
            }
        },
    }
    if exists|j: int| 0 <= j < keys.len() && #[trigger] keys[j] == v {
        let j = choose|j: int| 0 <= j < keys.len() && #[trigger] keys[j] == v;
        assert(exact_case(keys, v, 0) is Some);
    }
}


// ── the text functions ───────────────────────────────────────────────

/// The `q`-th block of `m` characters of `r`.
pub open spec fn block_of(r: Seq<char>, q: int, m: int) -> Seq<char> {
    r.subrange(q * m, q * m + m)
}

/// `join(sep, items...)` puts `sep` once between each neighbouring pair of
/// items (the length is the items' total plus one `sep` fewer than there
/// are items); `concat` puts its texts one after another.
#[verifier::spinoff_prover]
pub proof fn law_join_concat(shell: Seq<char>, redact: bool, dry_run: bool, v: Seq<Seq<char>>)
    requires
        v.len() >= 1,
    ensures
        ({
            let parts = v.skip(1);
            let sep = v[0];
            match fn_result(shell, redact, dry_run, "join"@, v) {
                FnOut::Value(Ok(r)) => {
                    &&& parts.len() == 0 ==> r.len() == 0
                    &&& parts.len() == 1 ==> r == parts[0]
                    &&& parts.len() >= 2 ==> exists|rest: Seq<char>| r == parts[0] + sep + rest
                    &&& parts.len() >= 1 ==> r.len() == lens_sum(parts) + (parts.len() - 1) * sep.len()
                },
                _ => false,
            }
        }),
        match fn_result(shell, redact, dry_run, "concat"@, v) {
            FnOut::Value(Ok(r)) => {
                &&& r.len() == lens_sum(v)
                &&& v.len() == 1 ==> r == v[0]
                &&& v.len() >= 2 ==> exists|rest: Seq<char>| r == v[0] + rest
            },
            _ => false,
        },
{
    reveal_strlit("to_upper");
    reveal_strlit("to_lower");
    reveal_strlit("base64_encode");
    reveal_strlit("base64_decode");
    reveal_strlit("concat");
    reveal_strlit("join");
    reveal_strlit("replace_all");
    reveal_strlit("remove_all");
    reveal_strlit("starts_with");
    reveal_strlit("ends_with");
    reveal_strlit("contains");
    reveal_strlit("capitalize");
    reveal_strlit("trim");
    reveal_strlit("length");
    assert("to_upper"@.len() == 8);
    assert("to_lower"@.len() == 8);
    assert("base64_encode"@.len() == 13);
    assert("base64_decode"@.len() == 13);
    assert("concat"@.len() == 6);
    assert("join"@.len() == 4);
    assert("replace_all"@.len() == 11);
    assert("remove_all"@.len() == 10);
    assert("starts_with"@.len() == 11);
    assert("ends_with"@.len() == 9);
    assert("contains"@.len() == 8);
    assert("capitalize"@.len() == 10);
    assert("trim"@.len() == 4);
    assert("length"@.len() == 6);
    assert("starts_with"@[0] != "replace_all"@[0]);
    assert("contains"@[0] != "to_upper"@[0] && "contains"@[0] != "to_lower"@[0]);
    assert("trim"@[0] != "join"@[0]);
    assert("length"@[0] != "concat"@[0]);
    let parts = v.skip(1);
    let sep = v[0];
    if parts.len() >= 1 {
        lemma_join_len(parts, sep);
    }
    if parts.len() >= 2 {
        lemma_join_front(parts[0], parts.skip(1), sep);
        assert(seq![parts[0]] + parts.skip(1) =~= parts);
    }
    lemma_join_len(v, Seq::empty());
    assert((v.len() - 1) * 0 == 0) by (nonlinear_arith);
    if v.len() >= 2 {
        lemma_join_front(v[0], v.skip(1), Seq::empty());
        assert(seq![v[0]] + v.skip(1) =~= v);
        assert(v[0] + Seq::<char>::empty() =~= v[0]);
    }
}

/// `starts_with`, `ends_with` and `contains` answer whether the second text
/// stands at the start, at the end, or anywhere in the first.
#[verifier::spinoff_prover]
pub proof fn law_text_tests(shell: Seq<char>, redact: bool, dry_run: bool, a: Seq<char>, p: Seq<char>)
    ensures
        fn_result(shell, redact, dry_run, "starts_with"@, seq![a, p])
            == ok(bool_text(p.len() <= a.len() && forall|i: int| 0 <= i < p.len() ==> #[trigger] a[i] == p[i])),
        fn_result(shell, redact, dry_run, "ends_with"@, seq![a, p])
            == ok(bool_text(p.len() <= a.len() && forall|i: int| 0 <= i < p.len() ==> #[trigger] p[i] == a[a.len() - p.len() + i])),
        fn_result(shell, redact, dry_run, "contains"@, seq![a, p])
            == ok(bool_text(exists|i: int| 0 <= i && i + p.len() <= a.len() && #[trigger] a.subrange(i, i + p.len()) == p)),
{
    reveal_strlit("to_upper");
    reveal_strlit("to_lower");
    reveal_strlit("base64_encode");
    reveal_strlit("base64_decode");
    reveal_strlit("concat");
    reveal_strlit("join");
    reveal_strlit("replace_all");
    reveal_strlit("remove_all");
    reveal_strlit("starts_with");
    reveal_strlit("ends_with");
    reveal_strlit("contains");
    reveal_strlit("capitalize");
    reveal_strlit("trim");
    reveal_strlit("length");
    assert("to_upper"@.len() == 8);
    assert("to_lower"@.len() == 8);
    assert("base64_encode"@.len() == 13);
    assert("base64_decode"@.len() == 13);
    assert("concat"@.len() == 6);
    assert("join"@.len() == 4);
    assert("replace_all"@.len() == 11);
    assert("remove_all"@.len() == 10);
    assert("starts_with"@.len() == 11);
    assert("ends_with"@.len() == 9);
    assert("contains"@.len() == 8);
    assert("capitalize"@.len() == 10);
    assert("trim"@.len() == 4);
    assert("length"@.len() == 6);
    assert("starts_with"@[0] != "replace_all"@[0]);
    assert("contains"@[0] != "to_upper"@[0] && "contains"@[0] != "to_lower"@[0]);
    assert("trim"@[0] != "join"@[0]);
    assert("length"@[0] != "concat"@[0]);
    let pre = p.len() <= a.len() && forall|i: int| 0 <= i < p.len() ==> #[trigger] a[i] == p[i];
    let suf = p.len() <= a.len() && forall|i: int| 0 <= i < p.len() ==> #[trigger] p[i] == a[a.len() - p.len() + i];
    let inn = exists|i: int| 0 <= i && i + p.len() <= a.len() && #[trigger] a.subrange(i, i + p.len()) == p;
    if p.len() <= a.len() {
        if forall|i: int| 0 <= i < p.len() ==> #[trigger] a[i] == p[i] {
            assert(a.subrange(0, p.len() as int) =~= p);
        }
        if a.subrange(0, p.len() as int) == p {
            assert forall|i: int| 0 <= i < p.len() implies #[trigger] a[i] == p[i] by {
                assert(a.subrange(0, p.len() as int)[i] == a[i]);
            }
        }
        let o = a.len() - p.len();
        if forall|i: int| 0 <= i < p.len() ==> #[trigger] p[i] == a[a.len() - p.len() + i] {
            assert(a.subrange(o, o + p.len()) =~= p);
        }
        if a.subrange(o, o + p.len()) == p {
            assert forall|i: int| 0 <= i < p.len() implies #[trigger] p[i] == a[a.len() - p.len() + i] by {
                assert(a.subrange(o, o + p.len())[i] == a[o + i]);
            }
        }
    }
    assert(pre == starts_with(a, p));
    assert(suf == (p.len() <= a.len() && ends_with(a, p)));
    if inn {
        let i = choose|i: int| 0 <= i && i + p.len() <= a.len() && #[trigger] a.subrange(i, i + p.len()) == p;
        assert(occurs_at(a, i, p));
    }
    if contains_seq(a, p) {
        let i = choose|i: int| #[trigger] occurs_at(a, i, p);
        assert(a.subrange(i, i + p.len()) == p);
    }
    assert(inn == contains_seq(a, p));
}

/// `length` counts the characters; `trim` gives the part of the text
/// between its leading and trailing whitespace, which starts and ends with
/// a character that is not whitespace.
#[verifier::spinoff_prover]
pub proof fn law_length_trim(shell: Seq<char>, redact: bool, dry_run: bool, a: Seq<char>)
    ensures
        fn_result(shell, redact, dry_run, "length"@, seq![a]) == ok(dec(a.len())),
        match fn_result(shell, redact, dry_run, "trim"@, seq![a]) {
            FnOut::Value(Ok(r)) => exists|i: int, j: int| 0 <= i <= j <= a.len() && #[trigger] a.subrange(i, j) == r
                && (forall|k: int| 0 <= k < i ==> is_ws(#[trigger] a[k]))
                && (forall|k: int| j <= k < a.len() ==> is_ws(#[trigger] a[k]))
                && (r.len() > 0 ==> !is_ws(r[0]) && !is_ws(r[r.len() - 1])),
            _ => false,
        },
{
    reveal_strlit("to_upper");
    reveal_strlit("to_lower");
    reveal_strlit("base64_encode");
    reveal_strlit("base64_decode");
    reveal_strlit("concat");
    reveal_strlit("join");
    reveal_strlit("replace_all");
    reveal_strlit("remove_all");
    reveal_strlit("starts_with");
    reveal_strlit("ends_with");
    reveal_strlit("contains");
    reveal_strlit("capitalize");
    reveal_strlit("trim");
    reveal_strlit("length");
    assert("to_upper"@.len() == 8);
    assert("to_lower"@.len() == 8);
    assert("base64_encode"@.len() == 13);
    assert("base64_decode"@.len() == 13);
    assert("concat"@.len() == 6);
    assert("join"@.len() == 4);
    assert("replace_all"@.len() == 11);
    assert("remove_all"@.len() == 10);
    assert("starts_with"@.len() == 11);
    assert("ends_with"@.len() == 9);
    assert("contains"@.len() == 8);
    assert("capitalize"@.len() == 10);
    assert("trim"@.len() == 4);
    assert("length"@.len() == 6);
    assert("starts_with"@[0] != "replace_all"@[0]);
    assert("contains"@[0] != "to_upper"@[0] && "contains"@[0] != "to_lower"@[0]);
    assert("trim"@[0] != "join"@[0]);
    assert("length"@[0] != "concat"@[0]);
    reveal_strlit("trim_start");
    reveal_strlit("trim_end");
    assert("trim_start"@.len() == 10);
    assert("trim_end"@.len() == 8);
    let n = a.len() as int;
    lemma_lead_bounds(a, 0);
    let l = lead(a, 0);
    let t1 = a.subrange(l, n);
    lemma_trail_bounds(t1, t1.len() as int);
    let tt = trail(t1, t1.len() as int);
    assert(trim(a) == t1.subrange(0, tt));
    assert(t1.subrange(0, tt) =~= a.subrange(l, l + tt));
    assert forall|k: int| l + tt <= k < n implies is_ws(#[trigger] a[k]) by {
        assert(t1[k - l] == a[k]);
    }
    let r = trim(a);
    if r.len() > 0 {
        assert(r[0] == a[l]);
        assert(r[r.len() - 1] == t1[tt - 1]);
    }
    assert(a.subrange(l, l + tt) == r);
}

proof fn lemma_repeat_blocks(s: Seq<char>, k: nat)
    ensures
        repeat_seq(s, k).len() == k * s.len(),
        forall|q: int| 0 <= q < k ==> #[trigger] block_of(repeat_seq(s, k), q, s.len() as int) == s,
    decreases k,
{
    let m = s.len() as int;
    if k > 0 {
        let k1 = (k - 1) as nat;
        lemma_repeat_blocks(s, k1);
        let prev = repeat_seq(s, k1);
        let r = repeat_seq(s, k);
        assert(r == prev + s);
        assert(k1 * m + m == k * m) by (nonlinear_arith)
            requires k1 == k - 1;
        assert(r.len() == k * m);
        assert(k * s.len() == k * m);
        assert forall|q: int| 0 <= q < k implies #[trigger] block_of(r, q, m) == s by {
            if q < k1 {
                assert(block_of(prev, q, m) == s);
                assert(q * m + m <= k1 * m) by (nonlinear_arith)
                    requires q < k1, m >= 0;
                assert(0 <= q * m) by (nonlinear_arith)
                    requires q >= 0, m >= 0;
                assert(block_of(r, q, m) =~= block_of(prev, q, m));
            } else {
                assert(q == k1);
                assert(block_of(r, q, m) =~= s);
            }
        }
    } else {
        assert(k * s.len() == 0) by (nonlinear_arith)
            requires k == 0;
    }
}

/// `repeat(s, n)`, when it succeeds, gives `n` copies of `s` one after
/// another: its length is `n` times that of `s`, and each block of `|s|`
/// characters is `s`.
#[verifier::spinoff_prover]
pub proof fn law_repeat(shell: Seq<char>, redact: bool, dry_run: bool, s: Seq<char>, t: Seq<char>)
    requires
        parse_count(t) is Some,
    ensures
        match fn_result(shell, redact, dry_run, "repeat"@, seq![s, t]) {
            FnOut::Value(Ok(r)) => {
                &&& r.len() == parse_count(t)->0 * s.len()
                &&& forall|q: int| 0 <= q < parse_count(t)->0 ==> #[trigger] block_of(r, q, s.len() as int) == s
            },
            _ => true,
        },
{
    reveal_strlit("repeat");
    reveal_strlit("concat");
    reveal_strlit("length");
    reveal_strlit("escape");
    assert("repeat"@.len() == 6);
    assert("repeat"@[0] != "concat"@[0] && "repeat"@[0] != "length"@[0] && "repeat"@[0] != "escape"@[0]);
    let names = seq!["to_upper"@, "to_lower"@, "base64_encode"@, "base64_decode"@, "join"@, "replace_all"@,
        "remove_all"@, "starts_with"@, "ends_with"@, "capitalize"@, "contains"@, "trim"@, "trim_start"@, "trim_end"@];
    reveal_strlit("to_upper");
    reveal_strlit("to_lower");
    reveal_strlit("base64_encode");
    reveal_strlit("base64_decode");
    reveal_strlit("join");
    reveal_strlit("replace_all");
    reveal_strlit("remove_all");
    reveal_strlit("starts_with");
    reveal_strlit("ends_with");
    reveal_strlit("capitalize");
    reveal_strlit("contains");
    reveal_strlit("trim");
    reveal_strlit("trim_start");
    reveal_strlit("trim_end");
    assert(forall|k: int| 0 <= k < names.len() ==> #[trigger] names[k].len() != 6);
    lemma_repeat_blocks(s, parse_count(t)->0);
}


// ── `replace_all`, `remove_all`, `regex_remove` ─────────────────────

proof fn lemma_replace_unchanged(s: Seq<char>, f: Seq<char>, t: Seq<char>, i: int)
    requires
        f.len() > 0,
        0 <= i <= s.len(),
        t == f || forall|k: int| i <= k ==> !#[trigger] occurs_at(s, k, f),
    ensures
        replace_from(s, f, t, i) == s.subrange(i, s.len() as int),
    decreases s.len() - i,
{
    if i < s.len() {
        if occurs_at(s, i, f) {
            lemma_replace_unchanged(s, f, t, i + f.len());
            assert(s.subrange(i, s.len() as int) =~= s.subrange(i, i + f.len()) + s.subrange(i + f.len(), s.len() as int));
        } else {
            lemma_replace_unchanged(s, f, t, i + 1);
            assert(s.subrange(i, s.len() as int) =~= seq![s[i]] + s.subrange(i + 1, s.len() as int));
        }
    } else {
        assert(s.subrange(i, s.len() as int) =~= Seq::<char>::empty());
    }
}

/// `replace_all(s, from, to)` with a non-empty `from` replaces what it
/// finds and nothing else: a text holding no `from` comes back unchanged,
/// replacing `from` by itself changes nothing, and a text that is exactly
/// `from` becomes `to`. `remove_all(s, x)` is `replace_all(s, x, "")`.
#[verifier::spinoff_prover]
pub proof fn law_replace_all(shell: Seq<char>, redact: bool, dry_run: bool, s: Seq<char>, f: Seq<char>, t: Seq<char>)
    ensures
        f.len() > 0 && (forall|k: int| 0 <= k ==> !#[trigger] occurs_at(s, k, f))
            ==> fn_result(shell, redact, dry_run, "replace_all"@, seq![s, f, t]) == ok(s),
        f.len() > 0 ==> fn_result(shell, redact, dry_run, "replace_all"@, seq![s, f, f]) == ok(s),
        f.len() > 0 ==> fn_result(shell, redact, dry_run, "replace_all"@, seq![f, f, t]) == ok(t),
        fn_result(shell, redact, dry_run, "remove_all"@, seq![s, f]) == fn_result(shell, redact, dry_run, "replace_all"@, seq![s, f, Seq::empty()]),
{
    reveal_strlit("to_upper");
    reveal_strlit("to_lower");
    reveal_strlit("base64_encode");
    reveal_strlit("base64_decode");
    reveal_strlit("concat");
    reveal_strlit("join");
    reveal_strlit("replace_all");
    reveal_strlit("remove_all");
    assert("to_upper"@.len() == 8 && "to_lower"@.len() == 8 && "base64_encode"@.len() == 13 && "base64_decode"@.len() == 13);
    assert("concat"@.len() == 6 && "join"@.len() == 4 && "replace_all"@.len() == 11 && "remove_all"@.len() == 10);
    if f.len() > 0 {
        if forall|k: int| 0 <= k ==> !#[trigger] occurs_at(s, k, f) {
            lemma_replace_unchanged(s, f, t, 0);
        }
        lemma_replace_unchanged(s, f, f, 0);
        assert(s.subrange(0, s.len() as int) =~= s);
        assert(occurs_at(f, 0, f)) by {
            assert(f.subrange(0, f.len() as int) =~= f);
        }
        assert(replace_from(f, f, t, f.len() as int) == Seq::<char>::empty());
        assert(t + Seq::<char>::empty() =~= t);
    }
}

/// For a pattern that compiles, `regex_remove(s, p)` is
/// `regex_replace(s, p, "")` (a refused pattern is reported under each
/// function's own name).
#[verifier::spinoff_prover]
pub proof fn law_regex_remove(shell: Seq<char>, redact: bool, dry_run: bool, s: Seq<char>, p: Seq<char>)
    requires
        regex_rejection(p) is None,
    ensures
        fn_result(shell, redact, dry_run, "regex_remove"@, seq![s, p]) == fn_result(shell, redact, dry_run, "regex_replace"@, seq![s, p, Seq::empty()]),
{
    let names = seq!["to_upper"@, "to_lower"@, "concat"@, "join"@, "replace_all"@,
        "remove_all"@, "starts_with"@, "ends_with"@, "contains"@, "capitalize"@, "trim"@, "trim_start"@, "trim_end"@, "length"@,
        "escape"@, "repeat"@, "nth"@, "first"@, "last"@, "count_parts"@, "substring"@];
    reveal_strlit("to_upper");
    reveal_strlit("to_lower");
    reveal_strlit("base64_encode");
    reveal_strlit("base64_decode");
    reveal_strlit("concat");
    reveal_strlit("join");
    reveal_strlit("replace_all");
    reveal_strlit("remove_all");
    reveal_strlit("starts_with");
    reveal_strlit("ends_with");
    reveal_strlit("contains");
    reveal_strlit("capitalize");
    reveal_strlit("trim");
    reveal_strlit("trim_start");
    reveal_strlit("trim_end");
    reveal_strlit("length");
    reveal_strlit("escape");
    reveal_strlit("repeat");
    reveal_strlit("nth");
    reveal_strlit("first");
    reveal_strlit("last");
    reveal_strlit("count_parts");
    reveal_strlit("substring");
    reveal_strlit("regex_replace");
    reveal_strlit("regex_remove");
    assert("regex_replace"@.len() == 13);
    assert("regex_remove"@.len() == 12);
    assert("base64_encode"@.len() == 13 && "base64_decode"@.len() == 13);
    assert("regex_replace"@[0] != "base64_encode"@[0] && "regex_replace"@[0] != "base64_decode"@[0]);
    assert(forall|k: int| 0 <= k < names.len() ==> #[trigger] names[k].len() != 12 && names[k].len() != 13);
}


// ── fallbacks: `{{ A ? B }}` ─────────────────────────────────────────

/// In a chain of fallbacks `A ? B ? ...`, the first source that resolves
/// gives the value: a first `ARGS.key` that was given yields its value,
/// and when it was not given (and nothing is prompted for), a second
/// `ARGS.key` that was given yields its value.
#[verifier::spinoff_prover]
pub proof fn law_fallback_first_present(c: Ctx, a: Seq<char>, s: St)
    requires
        seg_count(a) >= 1,
        starts_with(segment(a, 0), "ARGS."@),
    ensures
        ({
            let k0 = trim(segment(a, 0).skip("ARGS."@.len() as int));
            lookup_first(c.named, k0) is Some ==> chain_from(c, a, 0, None, None, s).0 == Ok::<Seq<char>, Stop>(lookup_first(c.named, k0)->0)
        }),
        ({
            let k0 = trim(segment(a, 0).skip("ARGS."@.len() as int));
            let k1 = trim(segment(a, 1).skip("ARGS."@.len() as int));
            (seg_count(a) >= 2 && !c.prompt && lookup_first(c.named, k0) is None && starts_with(segment(a, 1), "ARGS."@)
                && lookup_first(c.named, k1) is Some)
                ==> chain_from(c, a, 0, None, None, s).0 == Ok::<Seq<char>, Stop>(lookup_first(c.named, k1)->0)
        }),
{
    lemma_segment(a, 0);
    let k0 = trim(segment(a, 0).skip("ARGS."@.len() as int));
    let last0 = 0 == seg_count(a) - 1;
    match lookup_first(c.named, k0) {
        Some(v) => {
            assert(source_step(c, segment(a, 0), last0, None, None, s) == Some(SegOut::Done(Ok(v), consume(s, k0))));
            assert(seg_step(c, segment(a, 0), last0, None, None, s) == SegOut::Done(Ok(v), consume(s, k0)));
            assert(chain_from(c, a, 0, None, None, s) == (Ok::<Seq<char>, Stop>(v), consume(s, k0)));
        },
        None => {
            if seg_count(a) >= 2 && !c.prompt && starts_with(segment(a, 1), "ARGS."@) {
                lemma_segment(a, 1);
                let k1 = trim(segment(a, 1).skip("ARGS."@.len() as int));
                let le = Some(ErrV::MissingArg(k0));
                assert(source_step(c, segment(a, 0), last0, None, None, s) == Some(SegOut::Next(None, le, s)));
                assert(seg_step(c, segment(a, 0), last0, None, None, s) == SegOut::Next(None, le, s));
                assert(chain_from(c, a, 0, None, None, s) == chain_from(c, a, 1, None, le, s));
                match lookup_first(c.named, k1) {
                    Some(v1) => {
                        let last1 = 1 == seg_count(a) - 1;
                        assert(source_step(c, segment(a, 1), last1, None, le, s) == Some(SegOut::Done(Ok(v1), consume(s, k1))));
                        assert(seg_step(c, segment(a, 1), last1, None, le, s) == SegOut::Done(Ok(v1), consume(s, k1)));
                        assert(chain_from(c, a, 1, None, le, s) == (Ok::<Seq<char>, Stop>(v1), consume(s, k1)));
                    },
                    None => {},
                }
            }
        },
    }
}

} // verus!
