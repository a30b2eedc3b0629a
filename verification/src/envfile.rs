//! The `.env` file format: one `KEY=value` assignment per line, blank lines
//! and `#` / `//` comment lines skipped, an optional `export ` prefix,
//! unquoted values with trailing ` # ...` / ` // ...` comments, single-quoted
//! raw values and double-quoted values with backslash escapes. Quoted values
//! may span several lines.

use vstd::prelude::*;
use crate::text::{is_ws, char_is_ws, trim, trim_end, slice_of, trim_exec, trim_end_exec, string_of, push_str};

verus! {

/// Why a line of an env file was refused.
#[derive(Clone, Copy, PartialEq, Eq, Structural, Debug)]
pub enum EnvIssue {
    MissingEquals,
    EmptyKey,
    UnterminatedDouble,
    UnterminatedSingle,
}

/// The message reported for each refusal.
pub open spec fn issue_message(k: EnvIssue) -> Seq<char> {
    match k {
        EnvIssue::MissingEquals => "expected KEY=VALUE"@,
        EnvIssue::EmptyKey => "empty key"@,
        EnvIssue::UnterminatedDouble => "unterminated double-quoted value"@,
        EnvIssue::UnterminatedSingle => "unterminated single-quoted value"@,
    }
}

/// Index of the `\n` that ends the line holding `i`, or the length.
pub open spec fn line_end(s: Seq<char>, i: int) -> int
    decreases s.len() - i,
{
    if i < 0 || i >= s.len() {
        s.len() as int
    } else if s[i] == '\n' {
        i
    } else {
        line_end(s, i + 1)
    }
}

/// First index in `[i, e)` that is not whitespace, or `e`.
pub open spec fn skip_ws(s: Seq<char>, i: int, e: int) -> int
    decreases e - i,
{
    if i < e && 0 <= i < s.len() && is_ws(s[i]) {
        skip_ws(s, i + 1, e)
    } else {
        i
    }
}

/// First index in `[i, e)` holding `c`, or `e`.
pub open spec fn char_in(s: Seq<char>, c: char, i: int, e: int) -> int
    decreases e - i,
{
    if i >= e || i < 0 || i >= s.len() {
        e
    } else if s[i] == c {
        i
    } else {
        char_in(s, c, i + 1, e)
    }
}

/// Whether a comment (`#` or `//`) starts at `a`, inside a line ending at `e`.
pub open spec fn comment_at(s: Seq<char>, a: int, e: int) -> bool {
    &&& 0 <= a < e <= s.len()
    &&& (s[a] == '#' || (a + 1 < e && s[a] == '/' && s[a + 1] == '/'))
}

/// Whether the line ending at `e` spells `export ` at `a`.
pub open spec fn export_at(s: Seq<char>, a: int, e: int) -> bool {
    &&& 0 <= a && a + 7 <= e <= s.len()
    &&& s[a] == 'e' && s[a + 1] == 'x' && s[a + 2] == 'p' && s[a + 3] == 'o'
    &&& s[a + 4] == 'r' && s[a + 5] == 't' && s[a + 6] == ' '
}

/// Where the value of an unquoted assignment in `[v, e)` ends: at the first
/// comment that follows whitespace, else at the end of the line.
pub open spec fn value_cut(s: Seq<char>, k: int, e: int) -> int
    decreases e - k,
{
    if k >= e || k < 1 {
        e
    } else if is_ws(s[k - 1]) && comment_at(s, k, e) {
        k
    } else {
        value_cut(s, k + 1, e)
    }
}

/// What a backslash followed by `c` stands for inside double quotes.
pub open spec fn unescape(c: char) -> Seq<char> {
    if c == 'n' {
        seq!['\n']
    } else if c == 't' {
        seq!['\t']
    } else if c == 'r' {
        seq!['\r']
    } else if c == '\\' {
        seq!['\\']
    } else if c == '"' {
        seq!['"']
    } else {
        seq!['\\', c]
    }
}

/// The body of a double-quoted value that starts at `p` (after the opening
/// quote), with `acc` already read: the unescaped text and the index of the
/// closing quote, or `None` when no closing quote follows.
pub open spec fn dq_body(s: Seq<char>, p: int, acc: Seq<char>) -> Option<(Seq<char>, int)>
    decreases s.len() - p,
{
    if p < 0 || p >= s.len() {
        None
    } else if s[p] == '"' {
        Some((acc, p))
    } else if s[p] == '\\' {
        if p + 1 >= s.len() {
            None
        } else {
            dq_body(s, p + 2, acc + unescape(s[p + 1]))
        }
    } else {
        dq_body(s, p + 1, acc.push(s[p]))
    }
}

/// What the line starting at `i` contributes.
pub enum EnvStep {
    /// Blank or comment line; go on at the given index.
    Skip(int),
    /// An assignment; go on at the given index.
    Entry(Seq<char>, Seq<char>, int),
    /// A refused line.
    Fail(EnvIssue),
}

/// The index after the line break at `e`, or the end of the text.
pub open spec fn past(s: Seq<char>, e: int) -> int {
    if e < s.len() {
        e + 1
    } else {
        s.len() as int
    }
}

/// The value part of an assignment whose key ends at `eq`, on the line
/// `[.., e)`.
pub open spec fn value_step(s: Seq<char>, key: Seq<char>, eq: int, e: int) -> EnvStep {
    let v = skip_ws(s, eq + 1, e);
    if v < e && s[v] == '"' {
        match dq_body(s, v + 1, seq![]) {
            Some((val, q)) => EnvStep::Entry(key, val, past(s, line_end(s, q + 1))),
            None => EnvStep::Fail(EnvIssue::UnterminatedDouble),
        }
    } else if v < e && s[v] == '\'' {
        let q = char_in(s, '\'', v + 1, s.len() as int);
        if q < s.len() {
            EnvStep::Entry(key, s.subrange(v + 1, q), past(s, line_end(s, q + 1)))
        } else {
            EnvStep::Fail(EnvIssue::UnterminatedSingle)
        }
    } else {
        EnvStep::Entry(key, trim_end(s.subrange(v, value_cut(s, v + 1, e))), past(s, e))
    }
}

/// The line starting at `i` (`0 <= i < s.len()`).
pub open spec fn env_step(s: Seq<char>, i: int) -> EnvStep {
    let e = line_end(s, i);
    let a = skip_ws(s, i, e);
    if a >= e || comment_at(s, a, e) {
        EnvStep::Skip(past(s, e))
    } else {
        let b = if export_at(s, a, e) { skip_ws(s, a + 7, e) } else { a };
        let eq = char_in(s, '=', b, e);
        if eq >= e {
            EnvStep::Fail(EnvIssue::MissingEquals)
        } else {
            let key = trim(s.subrange(b, eq));
            if key.len() == 0 {
                EnvStep::Fail(EnvIssue::EmptyKey)
            } else {
                value_step(s, key, eq, e)
            }
        }
    }
}

/// Number of line breaks in `s[..n]`.
pub open spec fn breaks_before(s: Seq<char>, n: int) -> int
    decreases n,
{
    if n <= 0 || n > s.len() {
        0
    } else {
        breaks_before(s, n - 1) + if s[n - 1] == '\n' { 1int } else { 0int }
    }
}

/// The assignments of `s` from index `i` on, in order, or the first refusal
/// with its 1-based line number and message.
pub open spec fn env_from(s: Seq<char>, i: int) -> Result<Seq<(Seq<char>, Seq<char>)>, (int, Seq<char>)>
    decreases s.len() - i,
{
    if i < 0 || i >= s.len() {
        Ok(seq![])
    } else {
        match env_step(s, i) {
            EnvStep::Skip(next) => if next <= i { Ok(seq![]) } else { env_from(s, next) },
            EnvStep::Entry(k, v, next) => if next <= i {
                Ok(seq![])
            } else {
                match env_from(s, next) {
                    Ok(rest) => Ok(seq![(k, v)] + rest),
                    Err(x) => Err(x),
                }
            },
            EnvStep::Fail(k) => Err((breaks_before(s, i) + 1, issue_message(k))),
        }
    }
}

/// The contents of an env file.
pub open spec fn env_file(s: Seq<char>) -> Result<Seq<(Seq<char>, Seq<char>)>, (int, Seq<char>)> {
    env_from(s, 0)
}

/// `acc` put in front of what `r` holds.
pub open spec fn prepend(acc: Seq<(Seq<char>, Seq<char>)>, r: Result<Seq<(Seq<char>, Seq<char>)>, (int, Seq<char>)>) -> Result<Seq<(Seq<char>, Seq<char>)>, (int, Seq<char>)> {
    match r {
        Ok(rest) => Ok(acc + rest),
        Err(x) => Err(x),
    }
}

/// The pairs of strings by their characters.
pub open spec fn pairs_of(v: Seq<(String, String)>) -> Seq<(Seq<char>, Seq<char>)> {
    v.map_values(|p: (String, String)| (p.0@, p.1@))
}

/// The parse result by its characters.
pub open spec fn env_result_view(r: Result<Vec<(String, String)>, (usize, String)>) -> Result<Seq<(Seq<char>, Seq<char>)>, (int, Seq<char>)> {
    match r {
        Ok(v) => Ok(pairs_of(v@)),
        Err((n, m)) => Err((n as int, m@)),
    }
}

pub proof fn lemma_line_end(s: Seq<char>, i: int)
    requires
        0 <= i <= s.len(),
    ensures
        i <= line_end(s, i) <= s.len(),
        line_end(s, i) < s.len() ==> s[line_end(s, i)] == '\n',
        forall|k: int| i <= k < line_end(s, i) ==> s[k] != '\n',
    decreases s.len() - i,
{
    if i < s.len() && s[i] != '\n' {
        lemma_line_end(s, i + 1);
    }
}

pub proof fn lemma_skip_ws(s: Seq<char>, i: int, e: int)
    requires
        0 <= i <= e <= s.len(),
    ensures
        i <= skip_ws(s, i, e) <= e,
    decreases e - i,
{
    if i < e && is_ws(s[i]) {
        lemma_skip_ws(s, i + 1, e);
    }
}

pub proof fn lemma_char_in(s: Seq<char>, c: char, i: int, e: int)
    requires
        0 <= i <= e <= s.len(),
    ensures
        i <= char_in(s, c, i, e) <= e,
        char_in(s, c, i, e) < e ==> s[char_in(s, c, i, e)] == c,
        forall|k: int| i <= k < char_in(s, c, i, e) ==> s[k] != c,
    decreases e - i,
{
    if i < e && s[i] != c {
        lemma_char_in(s, c, i + 1, e);
    }
}

pub proof fn lemma_value_cut(s: Seq<char>, k: int, e: int)
    requires
        1 <= k,
        e <= s.len(),
    ensures
        k <= e ==> k <= value_cut(s, k, e) <= e,
        k > e ==> value_cut(s, k, e) == e,
    decreases e - k,
{
    if k < e && !(is_ws(s[k - 1]) && comment_at(s, k, e)) {
        lemma_value_cut(s, k + 1, e);
    }
}

pub proof fn lemma_dq_body(s: Seq<char>, p: int, acc: Seq<char>)
    requires
        0 <= p,
    ensures
        dq_body(s, p, acc) matches Some((v, q)) ==> p <= q < s.len(),
    decreases s.len() - p,
{
    if p < s.len() && s[p] != '"' {
        if s[p] == '\\' {
            if p + 1 < s.len() {
                lemma_dq_body(s, p + 2, acc + unescape(s[p + 1]));
            }
        } else {
            lemma_dq_body(s, p + 1, acc.push(s[p]));
        }
    }
}

fn line_end_x(s: &Vec<char>, i: usize) -> (r: usize)
    requires
        i <= s.len(),
    ensures
        r == line_end(s@, i as int),
{
    let mut k = i;
    while k < s.len() && s[k] != '\n'
        invariant
            i <= k <= s.len(),
            line_end(s@, i as int) == line_end(s@, k as int),
        decreases s.len() - k,
    {
        k += 1;
    }
    k
}

fn skip_ws_x(s: &Vec<char>, i: usize, e: usize) -> (r: usize)
    requires
        i <= e <= s.len(),
    ensures
        r == skip_ws(s@, i as int, e as int),
{
    let mut k = i;
    while k < e && char_is_ws(s[k])
        invariant
            i <= k <= e <= s.len(),
            skip_ws(s@, i as int, e as int) == skip_ws(s@, k as int, e as int),
        decreases e - k,
    {
        k += 1;
    }
    k
}

fn char_in_x(s: &Vec<char>, c: char, i: usize, e: usize) -> (r: usize)
    requires
        i <= e <= s.len(),
    ensures
        r == char_in(s@, c, i as int, e as int),
{
    let mut k = i;
    while k < e && s[k] != c
        invariant
            i <= k <= e <= s.len(),
            char_in(s@, c, i as int, e as int) == char_in(s@, c, k as int, e as int),
        decreases e - k,
    {
        k += 1;
    }
    k
}

fn comment_at_x(s: &Vec<char>, a: usize, e: usize) -> (r: bool)
    requires
        e <= s.len(),
    ensures
        r == comment_at(s@, a as int, e as int),
{
    a < e && (s[a] == '#' || (a + 1 < e && s[a] == '/' && s[a + 1] == '/'))
}

fn export_at_x(s: &Vec<char>, a: usize, e: usize) -> (r: bool)
    requires
        e <= s.len(),
    ensures
        r == export_at(s@, a as int, e as int),
{
    a <= e && e - a >= 7 && s[a] == 'e' && s[a + 1] == 'x' && s[a + 2] == 'p' && s[a + 3] == 'o'
        && s[a + 4] == 'r' && s[a + 5] == 't' && s[a + 6] == ' '
}

fn value_cut_x(s: &Vec<char>, k0: usize, e: usize) -> (r: usize)
    requires
        1 <= k0,
        e <= s.len(),
    ensures
        r == value_cut(s@, k0 as int, e as int),
{
    let mut k = k0;
    while k < e && !(char_is_ws(s[k - 1]) && comment_at_x(s, k, e))
        invariant
            1 <= k0 <= k,
            e <= s.len(),
            value_cut(s@, k0 as int, e as int) == value_cut(s@, k as int, e as int),
        decreases e - k,
    {
        k += 1;
    }
    if k >= e {
        e
    } else {
        k
    }
}

fn unescape_x(c: char, out: &mut Vec<char>)
    ensures
        final(out)@ == old(out)@ + unescape(c),
{
    if c == 'n' {
        out.push('\n');
    } else if c == 't' {
        out.push('\t');
    } else if c == 'r' {
        out.push('\r');
    } else if c == '\\' {
        out.push('\\');
    } else if c == '"' {
        out.push('"');
    } else {
        out.push('\\');
        out.push(c);
    }
    assert(out@ =~= old(out)@ + unescape(c));
}

fn dq_body_x(s: &Vec<char>, p0: usize) -> (r: Option<(Vec<char>, usize)>)
    requires
        p0 <= s.len(),
    ensures
        match r {
            Some((v, q)) => dq_body(s@, p0 as int, seq![]) == Some((v@, q as int)),
            None => dq_body(s@, p0 as int, seq![]) is None,
        },
{
    let mut acc: Vec<char> = Vec::new();
    let mut p = p0;
    while p < s.len()
        invariant
            p0 <= p <= s.len(),
            dq_body(s@, p0 as int, seq![]) == dq_body(s@, p as int, acc@),
        decreases s.len() - p,
    {
        if s[p] == '"' {
            return Some((acc, p));
        } else if s[p] == '\\' {
            if p + 1 >= s.len() {
                return None;
            }
            unescape_x(s[p + 1], &mut acc);
            p = p + 2;
        } else {
            acc.push(s[p]);
            p = p + 1;
        }
    }
    None
}

/// What the line starting at `i` contributes, computed.
enum EnvStepX {
    Skip(usize),
    Entry(Vec<char>, Vec<char>, usize),
    Fail(EnvIssue),
}

impl EnvStepX {
    spec fn view(&self) -> EnvStep {
        match self {
            EnvStepX::Skip(n) => EnvStep::Skip(*n as int),
            EnvStepX::Entry(k, v, n) => EnvStep::Entry(k@, v@, *n as int),
            EnvStepX::Fail(x) => EnvStep::Fail(*x),
        }
    }
}

fn past_x(s: &Vec<char>, e: usize) -> (r: usize)
    ensures
        r as int == past(s@, e as int),
{
    if e < s.len() {
        e + 1
    } else {
        s.len()
    }
}

/// Where reading goes on after a closing quote at `q`.
fn next_line_x(s: &Vec<char>, q: usize) -> (r: usize)
    requires
        q < s.len(),
    ensures
        r as int == past(s@, line_end(s@, q + 1)),
{
    proof {
        lemma_line_end(s@, q + 1);
    }
    let e = line_end_x(s, q + 1);
    past_x(s, e)
}

fn value_step_x(s: &Vec<char>, key: Vec<char>, eq: usize, e: usize) -> (r: EnvStepX)
    requires
        eq < e <= s.len(),
        e == line_end(s@, eq as int),
    ensures
        r.view() == value_step(s@, key@, eq as int, e as int),
{
    proof {
        lemma_skip_ws(s@, eq + 1, e as int);
        lemma_line_end(s@, eq as int);
    }
    let v = skip_ws_x(s, eq + 1, e);
    if v < e && s[v] == '"' {
        match dq_body_x(s, v + 1) {
            Some((val, q)) => {
                proof {
                    lemma_dq_body(s@, v + 1, seq![]);
                }
                let n = next_line_x(s, q);
                EnvStepX::Entry(key, val, n)
            },
            None => EnvStepX::Fail(EnvIssue::UnterminatedDouble),
        }
    } else if v < e && s[v] == '\'' {
        proof {
            lemma_char_in(s@, '\'', v + 1, s.len() as int);
        }
        let q = char_in_x(s, '\'', v + 1, s.len());
        if q < s.len() {
            let val = slice_of(s, v + 1, q);
            let n = next_line_x(s, q);
            EnvStepX::Entry(key, val, n)
        } else {
            EnvStepX::Fail(EnvIssue::UnterminatedSingle)
        }
    } else {
        proof {
            lemma_value_cut(s@, v + 1, e as int);
        }
        let cut = if v < e {
            value_cut_x(s, v + 1, e)
        } else {
            e
        };
        let raw = slice_of(s, v, cut);
        let val = trim_end_exec(&raw);
        EnvStepX::Entry(key, val, past_x(s, e))
    }
}

fn env_step_x(s: &Vec<char>, i: usize) -> (r: EnvStepX)
    requires
        i < s.len(),
    ensures
        r.view() == env_step(s@, i as int),
{
    proof {
        lemma_line_end(s@, i as int);
    }
    let e = line_end_x(s, i);
    proof {
        lemma_skip_ws(s@, i as int, e as int);
    }
    let a = skip_ws_x(s, i, e);
    if a >= e || comment_at_x(s, a, e) {
        return EnvStepX::Skip(past_x(s, e));
    }
    let b = if export_at_x(s, a, e) {
        proof {
            lemma_skip_ws(s@, a + 7, e as int);
        }
        skip_ws_x(s, a + 7, e)
    } else {
        a
    };
    proof {
        lemma_char_in(s@, '=', b as int, e as int);
    }
    let eq = char_in_x(s, '=', b, e);
    if eq >= e {
        return EnvStepX::Fail(EnvIssue::MissingEquals);
    }
    let raw = slice_of(s, b, eq);
    let key = trim_exec(&raw);
    if key.len() == 0 {
        return EnvStepX::Fail(EnvIssue::EmptyKey);
    }
    proof {
        assert(line_end(s@, eq as int) == e) by {
            lemma_line_end_mid(s@, i as int, eq as int);
        }
    }
    value_step_x(s, key, eq, e)
}

/// Inside a line, the line end seen from any later index is the same.
pub proof fn lemma_line_end_mid(s: Seq<char>, i: int, k: int)
    requires
        0 <= i <= k <= line_end(s, i),
        i <= s.len(),
    ensures
        line_end(s, k) == line_end(s, i),
    decreases k - i,
{
    lemma_line_end(s, i);
    if i < k {
        assert(s[i] != '\n');
        lemma_line_end_mid(s, i + 1, k);
    }
}

fn breaks_before_x(s: &Vec<char>, n: usize) -> (r: usize)
    requires
        n <= s.len(),
    ensures
        r == breaks_before(s@, n as int),
        r <= n,
{
    let mut k: usize = 0;
    let mut count: usize = 0;
    while k < n
        invariant
            k <= n <= s.len(),
            count <= k,
            count == breaks_before(s@, k as int),
        decreases n - k,
    {
        if s[k] == '\n' {
            count += 1;
        }
        k += 1;
    }
    count
}

/// The message for a refusal.
fn issue_text(k: EnvIssue) -> (r: String)
    ensures
        r@ == issue_message(k),
{
    let mut m: Vec<char> = Vec::new();
    match k {
        EnvIssue::MissingEquals => push_str(&mut m, "expected KEY=VALUE"),
        EnvIssue::EmptyKey => push_str(&mut m, "empty key"),
        EnvIssue::UnterminatedDouble => push_str(&mut m, "unterminated double-quoted value"),
        EnvIssue::UnterminatedSingle => push_str(&mut m, "unterminated single-quoted value"),
    }
    string_of(&m)
}

/// Parses the contents of an env file into its `KEY=value` assignments, in
/// file order. A refused line gives its 1-based line number and a message:
/// a line without `=`, an empty key, or a quoted value whose closing quote
/// never comes.
pub fn parse_env_file(content: &str) -> (r: Result<Vec<(String, String)>, (usize, String)>)
    ensures
        env_result_view(r) == env_file(content@),
{
    let s = crate::text::chars_of(content);
    let mut out: Vec<(String, String)> = Vec::new();
    let mut i: usize = 0;
    while i < s.len()
        invariant
            s@ == content@,
            env_file(s@) == prepend(pairs_of(out@), env_from(s@, i as int)),
        decreases s.len() - i,
    {
        let step = env_step_x(&s, i);
        match step {
            EnvStepX::Skip(next) => {
                if next <= i {
                    proof {
                        assert(pairs_of(out@) + seq![] =~= pairs_of(out@));
                    }
                    return Ok(out);
                }
                i = next;
            },
            EnvStepX::Entry(k, v, next) => {
                if next <= i {
                    proof {
                        assert(pairs_of(out@) + seq![] =~= pairs_of(out@));
                    }
                    return Ok(out);
                }
                let ghost before = out@;
                let ghost kv = (k@, v@);
                out.push((string_of(&k), string_of(&v)));
                proof {
                    assert(pairs_of(out@) =~= pairs_of(before).push(kv));
                    match env_from(s@, next as int) {
                        Ok(rest) => {
                            assert(pairs_of(before) + (seq![kv] + rest) =~= pairs_of(out@) + rest);
                        },
                        Err(_) => {},
                    }
                }
                i = next;
            },
            EnvStepX::Fail(kind) => {
                let n = breaks_before_x(&s, i);
                let msg = issue_text(kind);
                return Err((n + 1, msg));
            },
        }
    }
    proof {
        assert(pairs_of(out@) + seq![] =~= pairs_of(out@));
    }
    Ok(out)
}

} // verus!
