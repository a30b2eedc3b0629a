//! Which arguments a target's commands read, and whether the arguments of a
//! run are ones they accept.

use vstd::prelude::*;
use std::collections::{HashMap, HashSet};
use crate::errors::{SubstitutionError, ErrV};
use crate::model::{ident_char, find_from, lemma_find_from};
use crate::args::{RunArgs, strings_view, describes};
use crate::values::{texts_view, pairs_view, copy_chars, text};
use crate::text::{is_ws, char_is_ws, trim, trim_exec, chars_of, occurs_at, occurs_lit, slice_of, eq_lit, starts_with,
    lemma_trim_len, seq_eq};
use crate::scan::{at2, at2_exec, escape_at, escape_at_exec, find_close, find_close_exec, lemma_find_close};
use crate::funcs::{join_seq, join_from_x};
use crate::outside::{text_map, text_set, text_set_new, text_set_insert, lower};
use crate::lex::{ident_char_x, find_from_x, lower_chars};

verus! {

/// A character of an argument key as it stands in a template.
pub open spec fn key_char(c: char) -> bool {
    !is_ws(c) && c != '?' && c != '(' && c != ')' && c != ',' && c != '\'' && c != '"' && c != '{' && c != '}'
        && c != '!' && c != '=' && c != '&' && c != '|' && c != ':'
}

/// End of the run of key characters that starts at `i`.
pub open spec fn key_end(b: Seq<char>, i: int) -> int
    decreases b.len() - i,
{
    if 0 <= i < b.len() && key_char(b[i]) {
        key_end(b, i + 1)
    } else {
        i
    }
}

pub proof fn lemma_key_end(b: Seq<char>, i: int)
    requires
        0 <= i <= b.len(),
    ensures
        i <= key_end(b, i) <= b.len(),
    decreases b.len() - i,
{
    if i < b.len() && key_char(b[i]) {
        lemma_key_end(b, i + 1);
    }
}

/// A reference `pre` (`ARGS.` or `FLAGS.`) that starts a word at `i`.
pub open spec fn ref_at(b: Seq<char>, i: int, pre: Seq<char>) -> bool {
    occurs_at(b, i, pre) && (i == 0 || !(ident_char(b[i - 1]) || b[i - 1] == '.'))
}

/// The keys of the `ARGS.<key>` and `FLAGS.<key>` references in body `b`
/// from `i` on, after `acc`.
pub open spec fn body_keys(b: Seq<char>, i: int, acc: Seq<Seq<char>>) -> Seq<Seq<char>>
    decreases b.len() - i,
{
    if i < 0 || i >= b.len() {
        acc
    } else {
        let pre = if ref_at(b, i, "ARGS."@) {
            "ARGS."@
        } else if ref_at(b, i, "FLAGS."@) {
            "FLAGS."@
        } else {
            Seq::empty()
        };
        if pre.len() > 0 {
            let k0 = i + pre.len();
            proof {
                lemma_key_end(b, k0);
            }
            let e = key_end(b, k0);
            body_keys(b, e, if e > k0 { acc.push(b.subrange(k0, e)) } else { acc })
        } else {
            body_keys(b, i + 1, acc)
        }
    }
}

/// Scans template `t` from `i`: whether it holds `{{ ARGS }}`, and the keys
/// it references, after `pos` and `acc`. Escaped braces are no blocks.
pub open spec fn scan_template(t: Seq<char>, i: int, pos: bool, acc: Seq<Seq<char>>) -> (bool, Seq<Seq<char>>)
    decreases t.len() - i,
{
    if i < 0 || i >= t.len() {
        (pos, acc)
    } else if escape_at(t, i) {
        scan_template(t, i + 3, pos, acc)
    } else if at2(t, i, '{', '{') {
        match find_close(t, i + 2, 1) {
            None => (pos, acc),
            Some(j) => {
                proof {
                    lemma_find_close(t, i + 2, 1);
                }
                let b = trim(t.subrange(i + 2, j));
                if b == "ARGS"@ {
                    scan_template(t, j + 2, true, acc)
                } else {
                    scan_template(t, j + 2, pos, body_keys(b, 0, acc))
                }
            },
        }
    } else {
        scan_template(t, i + 1, pos, acc)
    }
}

/// Scans templates `cmds` from the `k`-th.
pub open spec fn scan_all(cmds: Seq<Seq<char>>, k: int, pos: bool, acc: Seq<Seq<char>>) -> (bool, Seq<Seq<char>>)
    decreases cmds.len() - k,
{
    if k < 0 || k >= cmds.len() {
        (pos, acc)
    } else {
        let r = scan_template(cmds[k], 0, pos, acc);
        scan_all(cmds, k + 1, r.0, r.1)
    }
}

pub fn key_char_x(c: char) -> (r: bool)
    ensures
        r == key_char(c),
{
    !char_is_ws(c) && c != '?' && c != '(' && c != ')' && c != ',' && c != '\'' && c != '"' && c != '{' && c != '}'
        && c != '!' && c != '=' && c != '&' && c != '|' && c != ':'
}

fn ref_at_x(b: &Vec<char>, i: usize, pre: &str) -> (r: bool)
    ensures
        r == ref_at(b@, i as int, pre@),
{
    occurs_lit(b, i, pre) && (i == 0 || !(ident_char_x(b[i - 1]) || b[i - 1] == '.'))
}

fn key_end_x(b: &Vec<char>, k0: usize) -> (r: usize)
    requires
        k0 <= b.len(),
    ensures
        r as int == key_end(b@, k0 as int),
        k0 <= r <= b.len(),
{
    proof {
        lemma_key_end(b@, k0 as int);
    }
    let mut e = k0;
    while e < b.len() && key_char_x(b[e])
        invariant
            k0 <= e <= b.len(),
            key_end(b@, k0 as int) == key_end(b@, e as int),
        decreases b.len() - e,
    {
        e += 1;
    }
    e
}

fn body_keys_x(b: &Vec<char>, acc: &mut Vec<Vec<char>>)
    ensures
        texts_view(final(acc)@) == body_keys(b@, 0, texts_view(old(acc)@)),
{
    let mut i: usize = 0;
    let ghost a0 = texts_view(acc@);
    while i < b.len()
        invariant
            i <= b.len(),
            a0 == texts_view(old(acc)@),
            body_keys(b@, 0, a0) == body_keys(b@, i as int, texts_view(acc@)),
        decreases b.len() - i,
    {
        proof {
            reveal_strlit("ARGS.");
            reveal_strlit("FLAGS.");
        }
        let is_args = ref_at_x(b, i, "ARGS.");
        let is_flags = !is_args && ref_at_x(b, i, "FLAGS.");
        if is_args || is_flags {
            let pre = if is_args { chars_of("ARGS.") } else { chars_of("FLAGS.") };
            assert(occurs_at(b@, i as int, pre@));
            let k0 = i + pre.len();
            let e = key_end_x(b, k0);
            if e > k0 {
                let k = slice_of(b, k0, e);
                let ghost ta = texts_view(acc@);
                let ghost oa = acc@;
                acc.push(k);
                assert(acc@ == oa.push(k));
                assert(texts_view(acc@) =~= ta.push(b@.subrange(k0 as int, e as int)));
            }
            i = e;
        } else {
            i += 1;
        }
    }
}

fn scan_template_x(t: &Vec<char>, pos: &mut bool, acc: &mut Vec<Vec<char>>)
    ensures
        (*final(pos), texts_view(final(acc)@)) == scan_template(t@, 0, *old(pos), texts_view(old(acc)@)),
{
    let mut i: usize = 0;
    let ghost p0 = *pos;
    let ghost a0 = texts_view(acc@);
    while i < t.len()
        invariant
            i <= t.len(),
            p0 == *old(pos),
            a0 == texts_view(old(acc)@),
            scan_template(t@, 0, p0, a0) == scan_template(t@, i as int, *pos, texts_view(acc@)),
        decreases t.len() - i,
    {
        if escape_at_exec(t, i) {
            i = i + 3;
        } else if at2_exec(t, i, '{', '{') {
            proof {
                lemma_find_close(t@, i + 2, 1);
            }
            match find_close_exec(t, i + 2) {
                None => {
                    return;
                },
                Some(j) => {
                    let raw = slice_of(t, i + 2, j);
                    let b = trim_exec(&raw);
                    if eq_lit(&b, "ARGS") {
                        *pos = true;
                    } else {
                        body_keys_x(&b, acc);
                    }
                    i = j + 2;
                },
            }
        } else {
            i = i + 1;
        }
    }
}

/// What the templates read: whether one of them holds `{{ ARGS }}`, and the
/// keys of the named arguments and flags they reference.
pub fn scan_args_usage(commands: &[String]) -> (r: (bool, HashSet<String>))
    ensures
        r.0 == scan_all(strings_view(commands@), 0, false, Seq::empty()).0,
        text_set(r.1) == scan_all(strings_view(commands@), 0, false, Seq::empty()).1.to_set(),
{
    let (pos, keys) = scan_keys(commands);
    let mut set = text_set_new();
    let mut i: usize = 0;
    while i < keys.len()
        invariant
            i <= keys.len(),
            text_set(set) == texts_view(keys@).take(i as int).to_set(),
        decreases keys.len() - i,
    {
        text_set_insert(&mut set, text(&keys[i]));
        assert(texts_view(keys@).take(i + 1) =~= texts_view(keys@).take(i as int).push(keys@[i as int]@));
        proof {
            texts_view(keys@).take(i as int).lemma_push_to_set_commute(keys@[i as int]@);
        }
        i += 1;
    }
    assert(texts_view(keys@).take(keys.len() as int) =~= texts_view(keys@));
    (pos, set)
}

fn scan_keys(commands: &[String]) -> (r: (bool, Vec<Vec<char>>))
    ensures
        (r.0, texts_view(r.1@)) == scan_all(strings_view(commands@), 0, false, Seq::empty()),
{
    let mut pos = false;
    let mut acc: Vec<Vec<char>> = Vec::new();
    let ghost cv = strings_view(commands@);
    assert(texts_view(acc@) =~= Seq::<Seq<char>>::empty());
    let mut k: usize = 0;
    while k < commands.len()
        invariant
            k <= commands.len(),
            cv == strings_view(commands@),
            scan_all(cv, 0, false, Seq::empty()) == scan_all(cv, k as int, pos, texts_view(acc@)),
        decreases commands.len() - k,
    {
        let t = chars_of(commands[k].as_str());
        assert(t@ == cv[k as int]);
        scan_template_x(&t, &mut pos, &mut acc);
        k += 1;
    }
    (pos, acc)
}

/// The words of `orig` from `i` on that belong to no named argument: every
/// word that does not start with `--`, and a bare `--`.
pub open spec fn non_named_from(orig: Seq<Seq<char>>, m: Map<Seq<char>, Seq<char>>, i: int) -> Seq<Seq<char>>
    decreases orig.len() - i,
{
    if i < 0 || i >= orig.len() {
        Seq::empty()
    } else {
        let a = orig[i];
        if starts_with(a, "--"@) {
            let st = a.skip("--"@.len() as int);
            if find_from(st, "="@, 0) is Some {
                non_named_from(orig, m, i + 1)
            } else if st.len() > 0 {
                if i + 1 < orig.len() && !starts_with(orig[i + 1], "--"@) && m.contains_key(st) && m[st].len() > 0 {
                    non_named_from(orig, m, i + 2)
                } else {
                    non_named_from(orig, m, i + 1)
                }
            } else {
                seq![a] + non_named_from(orig, m, i + 1)
            }
        } else {
            seq![a] + non_named_from(orig, m, i + 1)
        }
    }
}

fn map_value_nonempty(named: &Vec<(Vec<char>, Vec<char>)>, k: &Vec<char>) -> (r: bool)
    requires
        crate::args::distinct_keys(pairs_view(named@)),
    ensures
        r == (exists|i: int| 0 <= i < named.len() && (#[trigger] pairs_view(named@)[i]).0 == k@ && pairs_view(named@)[i].1.len() > 0),
{
    let mut i: usize = 0;
    while i < named.len()
        invariant
            i <= named.len(),
            forall|j: int| 0 <= j < i ==> !((#[trigger] pairs_view(named@)[j]).0 == k@ && pairs_view(named@)[j].1.len() > 0),
        decreases named.len() - i,
    {
        assert(pairs_view(named@)[i as int] == (named@[i as int].0@, named@[i as int].1@));
        if seq_eq(&named[i].0, k) && named[i].1.len() > 0 {
            return true;
        }
        i += 1;
    }
    false
}

fn non_named_x(orig: &Vec<Vec<char>>, named: &Vec<(Vec<char>, Vec<char>)>, Ghost(m): Ghost<Map<Seq<char>, Seq<char>>>) -> (r: Vec<Vec<char>>)
    requires
        describes(pairs_view(named@), m),
    ensures
        texts_view(r@) == non_named_from(texts_view(orig@), m, 0),
{
    let ghost ov = texts_view(orig@);
    let n = orig.len();
    let mut out: Vec<Vec<char>> = Vec::new();
    let mut i: usize = 0;
    assert(non_named_from(ov, m, 0) =~= texts_view(out@) + non_named_from(ov, m, 0));
    while i < n
        invariant
            i <= n + 1,
            n == orig.len(),
            ov == texts_view(orig@),
            describes(pairs_view(named@), m),
            non_named_from(ov, m, 0) == texts_view(out@) + non_named_from(ov, m, i as int),
        decreases n + 1 - i,
    {
        let a = &orig[i];
        assert(ov[i as int] == a@);
        let ghost to = texts_view(out@);
        let ghost rest1 = non_named_from(ov, m, i + 1);
        let mut keep = false;
        let mut step: usize = 1;
        if occurs_lit(a, 0, "--") {
            let dd = chars_of("--");
            let st = slice_of(a, dd.len(), a.len());
            assert(st@ == a@.skip("--"@.len() as int));
            if find_from_x(&st, "=").is_some() {
            } else if st.len() > 0 {
                if i + 1 < n && !occurs_lit(&orig[i + 1], 0, "--") {
                    assert(ov[i + 1] == orig@[i + 1]@);
                    let has = map_value_nonempty(named, &st);
                    proof {
                        if has {
                            let j = choose|j: int| 0 <= j < named.len() && (#[trigger] pairs_view(named@)[j]).0 == st@ && pairs_view(named@)[j].1.len() > 0;
                            assert(m.contains_key(pairs_view(named@)[j].0));
                        } else if m.contains_key(st@) {
                            let j = choose|j: int| 0 <= j < pairs_view(named@).len() && (#[trigger] pairs_view(named@)[j]).0 == st@;
                            assert(m[st@] == pairs_view(named@)[j].1);
                        }
                    }
                    if has {
                        step = 2;
                    }
                }
            } else {
                keep = true;
            }
        } else {
            keep = true;
        }
        if keep {
            let x = copy_chars(a);
            let ghost oo = out@;
            out.push(x);
            assert(out@ == oo.push(x));
            assert(texts_view(out@) =~= to.push(a@));
            assert(to + (seq![a@] + rest1) =~= texts_view(out@) + rest1);
        }
        i += step;
    }
    assert(texts_view(out@) + non_named_from(ov, m, i as int) =~= texts_view(out@));
    out
}

pub open spec fn validate_result(args: RunArgs, cmds: Seq<Seq<char>>, r: Result<(), ErrV>) -> bool {
    let orig = strings_view(args.original@);
    let m = text_map(args.named);
    let (pos, keys) = scan_all(cmds, 0, false, Seq::empty());
    if orig.len() == 0 || pos {
        r is Ok
    } else if keys.len() == 0 {
        r == Err::<(), ErrV>(ErrV::UnexpectedArgs(join_seq(orig, " "@)))
    } else if exists|k: Seq<char>| #[trigger] m.contains_key(k) && !keys.contains(k) {
        r matches Err(ErrV::UnknownNamedArg(k)) && m.contains_key(k) && !keys.contains(k)
    } else if non_named_from(orig, m, 0).len() > 0 {
        r == Err::<(), ErrV>(ErrV::UnexpectedArgs(join_seq(non_named_from(orig, m, 0), " "@)))
    } else {
        r is Ok
    }
}

pub open spec fn unit_view(r: Result<(), SubstitutionError>) -> Result<(), ErrV> {
    match r {
        Ok(_) => Ok(()),
        Err(e) => Err(e@),
    }
}

/// Whether the arguments of a run are ones the commands accept: none at all;
/// anything when a command holds `{{ ARGS }}`; otherwise named arguments
/// whose keys the commands reference, and no other word.
pub fn validate_args(args: &RunArgs, all_commands: &[String]) -> (r: Result<(), SubstitutionError>)
    ensures
        validate_result(*args, strings_view(all_commands@), unit_view(r)),
{
    if args.original.len() == 0 {
        return Ok(());
    }
    let (pos, keys) = scan_keys(all_commands);
    let orig = crate::args::strings_x(&args.original);
    let ghost ov = strings_view(args.original@);
    assert(texts_view(orig@) == ov);
    assert(ov.len() > 0);
    if pos {
        return Ok(());
    }
    if keys.len() == 0 {
        let sep = chars_of(" ");
        let j = join_from_x(&orig, 0, &sep);
        assert(texts_view(orig@).skip(0) =~= texts_view(orig@));
        return Err(SubstitutionError::UnexpectedArgs(text(&j)));
    }
    let named = crate::args::entries_x(&args.named);
    let ghost m = text_map(args.named);
    let ghost kv = texts_view(keys@);
    let mut i: usize = 0;
    while i < named.len()
        invariant
            i <= named.len(),
            describes(pairs_view(named@), m),
            kv == texts_view(keys@),
            m == text_map(args.named),
            ov == strings_view(args.original@),
            ov.len() > 0,
            !pos,
            kv.len() > 0,
            (pos, kv) == scan_all(strings_view(all_commands@), 0, false, Seq::empty()),
            forall|j: int| 0 <= j < i ==> kv.contains(#[trigger] pairs_view(named@)[j].0),
        decreases named.len() - i,
    {
        assert(pairs_view(named@)[i as int] == (named@[i as int].0@, named@[i as int].1@));
        let mut found = false;
        let mut k: usize = 0;
        while k < keys.len()
            invariant
                k <= keys.len(),
                i < named.len(),
                kv == texts_view(keys@),
                !found ==> forall|q: int| 0 <= q < k ==> kv[q] != named@[i as int].0@,
                found ==> kv.contains(named@[i as int].0@),
            decreases keys.len() - k,
        {
            if !found && seq_eq(&keys[k], &named[i].0) {
                assert(kv[k as int] == named@[i as int].0@);
                found = true;
            }
            k += 1;
        }
        if !found {
            proof {
                assert(m.contains_key(pairs_view(named@)[i as int].0));
                assert(!kv.contains(named@[i as int].0@)) by {
                    if kv.contains(named@[i as int].0@) {
                        let q = choose|q: int| 0 <= q < kv.len() && kv[q] == named@[i as int].0@;
                    }
                }
            }
            return Err(SubstitutionError::UnknownNamedArg(text(&named[i].0)));
        }
        i += 1;
    }
    assert(!(exists|k: Seq<char>| #[trigger] m.contains_key(k) && !kv.contains(k))) by {
        assert forall|k: Seq<char>| #[trigger] m.contains_key(k) implies kv.contains(k) by {
            let j = choose|j: int| 0 <= j < pairs_view(named@).len() && (#[trigger] pairs_view(named@)[j]).0 == k;
        }
    }
    let nn = non_named_x(&orig, &named, Ghost(m));
    if nn.len() > 0 {
        let sep = chars_of(" ");
        let j = join_from_x(&nn, 0, &sep);
        assert(texts_view(nn@).skip(0) =~= texts_view(nn@));
        return Err(SubstitutionError::UnexpectedArgs(text(&j)));
    }
    Ok(())
}

/// Whether two keys of `env` differ and are equal when lower-cased.
pub open spec fn casing_clash(env: Map<Seq<char>, Seq<char>>, a: Seq<char>, b: Seq<char>) -> bool {
    env.contains_key(a) && env.contains_key(b) && a != b && lower(a) == lower(b)
}

/// Refuses an environment with two keys that differ only in case.
pub fn check_env_case_duplicates(env: &HashMap<String, String>) -> (r: Result<(), SubstitutionError>)
    ensures
        r is Ok <==> !(exists|a: Seq<char>, b: Seq<char>| #[trigger] casing_clash(text_map(*env), a, b)),
        r matches Err(e) ==> (e@ matches ErrV::DuplicateEnvCasing(a, b) && casing_clash(text_map(*env), a, b)),
{
    let p = crate::args::entries_x(env);
    let ghost m = text_map(*env);
    let ghost pv = pairs_view(p@);
    let mut lows: Vec<Vec<char>> = Vec::new();
    let mut i: usize = 0;
    while i < p.len()
        invariant
            i <= p.len(),
            pv == pairs_view(p@),
            m == text_map(*env),
            describes(pv, m),
            lows.len() == i,
            forall|x: int| 0 <= x < i ==> #[trigger] lows@[x]@ == lower(pv[x].0),
            forall|x: int, y: int| 0 <= x < y < i ==> lower(#[trigger] pv[x].0) != lower(#[trigger] pv[y].0),
        decreases p.len() - i,
    {
        assert(pv[i as int] == (p@[i as int].0@, p@[i as int].1@));
        let li = lower_chars(&p[i].0);
        let mut x: usize = 0;
        while x < i
            invariant
                x <= i < p.len(),
                pv == pairs_view(p@),
                m == text_map(*env),
                describes(pv, m),
                lows.len() == i,
                li@ == lower(pv[i as int].0),
                forall|z: int| 0 <= z < i ==> #[trigger] lows@[z]@ == lower(pv[z].0),
                forall|z: int| 0 <= z < x ==> lower(#[trigger] pv[z].0) != li@,
            decreases i - x,
        {
            if seq_eq(&lows[x], &li) {
                assert(lower(pv[x as int].0) == lower(pv[i as int].0));
                assert(pv[x as int].0 != pv[i as int].0);
                assert(casing_clash(m, pv[x as int].0, pv[i as int].0));
                return Err(SubstitutionError::DuplicateEnvCasing(text(&p[x].0), text(&p[i].0)));
            }
            x += 1;
        }
        lows.push(li);
        i += 1;
    }
    assert forall|a: Seq<char>, b: Seq<char>| !#[trigger] casing_clash(m, a, b) by {
        if casing_clash(m, a, b) {
            let x = choose|x: int| 0 <= x < pv.len() && (#[trigger] pv[x]).0 == a;
            let y = choose|y: int| 0 <= y < pv.len() && (#[trigger] pv[y]).0 == b;
            if x < y {
            } else if y < x {
            }
        }
    }
    Ok(())
}

} // verus!
