//! Lexical scanning of substitution bodies: matching `{{ ... }}` blocks,
//! quoted literals and parenthesised groups, and splitting a body at a
//! separator that stands at its top level (outside every such unit).

use vstd::prelude::*;

verus! {

pub open spec fn at(t: Seq<char>, i: int, c: char) -> bool {
    0 <= i < t.len() && t[i] == c
}

pub open spec fn at2(t: Seq<char>, i: int, a: char, b: char) -> bool {
    at(t, i, a) && at(t, i + 1, b)
}

/// An escape `\{{` or `\}}` starts at `i`.
pub open spec fn escape_at(t: Seq<char>, i: int) -> bool {
    at(t, i, '\\') && (at2(t, i + 1, '{', '{') || at2(t, i + 1, '}', '}'))
}

pub open spec fn opt_usize(r: Option<usize>, s: Option<int>) -> bool {
    match r {
        Some(j) => s == Some(j as int),
        None => s is None,
    }
}

/// Position of the `}}` that closes a block whose body starts at `k`, with
/// `depth` blocks still open. Escaped braces are skipped.
pub open spec fn find_close(t: Seq<char>, k: int, depth: int) -> Option<int>
    decreases t.len() - k,
{
    if k < 0 || k >= t.len() || depth < 1 {
        None
    } else if escape_at(t, k) {
        find_close(t, k + 3, depth)
    } else if at2(t, k, '{', '{') {
        find_close(t, k + 2, depth + 1)
    } else if at2(t, k, '}', '}') {
        if depth == 1 {
            Some(k)
        } else {
            find_close(t, k + 2, depth - 1)
        }
    } else {
        find_close(t, k + 1, depth)
    }
}

pub proof fn lemma_find_close(t: Seq<char>, k: int, depth: int)
    ensures
        find_close(t, k, depth) matches Some(j) ==> k <= j && j + 1 < t.len() && at2(t, j, '}', '}'),
    decreases t.len() - k,
{
    if k < 0 || k >= t.len() || depth < 1 {
    } else if escape_at(t, k) {
        lemma_find_close(t, k + 3, depth);
    } else if at2(t, k, '{', '{') {
        lemma_find_close(t, k + 2, depth + 1);
    } else if at2(t, k, '}', '}') {
        if depth != 1 {
            lemma_find_close(t, k + 2, depth - 1);
        }
    } else {
        lemma_find_close(t, k + 1, depth);
    }
}

pub fn escape_at_exec(t: &Vec<char>, i: usize) -> (r: bool)
    ensures
        r == escape_at(t@, i as int),
{
    i < t.len() && t[i] == '\\' && t.len() - i > 2 && ((t[i + 1] == '{' && t[i + 2] == '{') || (
    t[i + 1] == '}' && t[i + 2] == '}'))
}

pub fn at2_exec(t: &Vec<char>, i: usize, a: char, b: char) -> (r: bool)
    ensures
        r == at2(t@, i as int, a, b),
{
    i < t.len() && t[i] == a && i + 1 < t.len() && t[i + 1] == b
}

pub fn find_close_exec(t: &Vec<char>, k0: usize) -> (r: Option<usize>)
    ensures
        opt_usize(r, find_close(t@, k0 as int, 1)),
{
    let mut k = k0;
    let mut depth: usize = 1;
    while k < t.len()
        invariant
            find_close(t@, k0 as int, 1) == find_close(t@, k as int, depth as int),
            1 <= depth <= k + 1,
        decreases t.len() - k,
    {
        if escape_at_exec(t, k) {
            k = k + 3;
        } else if at2_exec(t, k, '{', '{') {
            k = k + 2;
            depth = depth + 1;
        } else if at2_exec(t, k, '}', '}') {
            if depth == 1 {
                return Some(k);
            }
            k = k + 2;
            depth = depth - 1;
        } else {
            k = k + 1;
        }
    }
    None
}

/// Position of the `'` closing a single-quoted literal whose content starts at
/// `k`; nested `{{ ... }}` blocks inside the literal are skipped whole.
pub open spec fn close_single(t: Seq<char>, k: int) -> Option<int>
    decreases t.len() - k,
{
    if k < 0 || k >= t.len() {
        None
    } else if at2(t, k, '{', '{') {
        match find_close(t, k + 2, 1) {
            Some(j) => {
                proof {
                    lemma_find_close(t, k + 2, 1);
                }
                close_single(t, j + 2)
            },
            None => None,
        }
    } else if at(t, k, '\'') {
        Some(k)
    } else {
        close_single(t, k + 1)
    }
}

pub proof fn lemma_close_single(t: Seq<char>, k: int)
    ensures
        close_single(t, k) matches Some(j) ==> k <= j < t.len() && t[j] == '\'',
    decreases t.len() - k,
{
    if k < 0 || k >= t.len() {
    } else if at2(t, k, '{', '{') {
        lemma_find_close(t, k + 2, 1);
        if let Some(j) = find_close(t, k + 2, 1) {
            lemma_close_single(t, j + 2);
        }
    } else if at(t, k, '\'') {
    } else {
        lemma_close_single(t, k + 1);
    }
}

pub fn close_single_exec(t: &Vec<char>, k0: usize) -> (r: Option<usize>)
    ensures
        opt_usize(r, close_single(t@, k0 as int)),
{
    let mut k = k0;
    while k < t.len()
        invariant
            close_single(t@, k0 as int) == close_single(t@, k as int),
        decreases t.len() - k,
    {
        if at2_exec(t, k, '{', '{') {
            proof {
                lemma_find_close(t@, k + 2, 1);
            }
            match find_close_exec(t, k + 2) {
                Some(j) => {
                    k = j + 2;
                },
                None => {
                    return None;
                },
            }
        } else if t[k] == '\'' {
            return Some(k);
        } else {
            k = k + 1;
        }
    }
    None
}

/// Position of the first `"` at or after `k`.
pub open spec fn close_double(t: Seq<char>, k: int) -> Option<int>
    decreases t.len() - k,
{
    if k < 0 || k >= t.len() {
        None
    } else if t[k] == '"' {
        Some(k)
    } else {
        close_double(t, k + 1)
    }
}

pub proof fn lemma_close_double(t: Seq<char>, k: int)
    ensures
        close_double(t, k) matches Some(j) ==> k <= j < t.len() && t[j] == '"',
    decreases t.len() - k,
{
    if 0 <= k < t.len() && t[k] != '"' {
        lemma_close_double(t, k + 1);
    }
}

pub fn close_double_exec(t: &Vec<char>, k0: usize) -> (r: Option<usize>)
    ensures
        opt_usize(r, close_double(t@, k0 as int)),
{
    let mut k = k0;
    while k < t.len()
        invariant
            close_double(t@, k0 as int) == close_double(t@, k as int),
        decreases t.len() - k,
    {
        if t[k] == '"' {
            return Some(k);
        }
        k = k + 1;
    }
    None
}

/// End (exclusive) of a quoted literal or `{{ ... }}` block starting at `i`,
/// or `i + 1` for any other character. An unterminated unit runs to the end.
pub open spec fn skip_flat(t: Seq<char>, i: int) -> int {
    if at2(t, i, '{', '{') {
        match find_close(t, i + 2, 1) {
            Some(j) => j + 2,
            None => t.len() as int,
        }
    } else if at(t, i, '\'') {
        match close_single(t, i + 1) {
            Some(j) => j + 1,
            None => t.len() as int,
        }
    } else if at(t, i, '"') {
        match close_double(t, i + 1) {
            Some(j) => j + 1,
            None => t.len() as int,
        }
    } else {
        i + 1
    }
}

pub proof fn lemma_skip_flat(t: Seq<char>, i: int)
    requires
        0 <= i < t.len(),
    ensures
        i < skip_flat(t, i) <= t.len(),
{
    lemma_find_close(t, i + 2, 1);
    lemma_close_single(t, i + 1);
    lemma_close_double(t, i + 1);
}

pub fn skip_flat_exec(t: &Vec<char>, i: usize) -> (r: usize)
    requires
        i < t.len(),
    ensures
        r == skip_flat(t@, i as int),
{
    proof {
        lemma_skip_flat(t@, i as int);
        lemma_find_close(t@, i + 2, 1);
        lemma_close_single(t@, i + 1);
        lemma_close_double(t@, i + 1);
    }
    if at2_exec(t, i, '{', '{') {
        match find_close_exec(t, i + 2) {
            Some(j) => j + 2,
            None => t.len(),
        }
    } else if t[i] == '\'' {
        match close_single_exec(t, i + 1) {
            Some(j) => j + 1,
            None => t.len(),
        }
    } else if t[i] == '"' {
        match close_double_exec(t, i + 1) {
            Some(j) => j + 1,
            None => t.len(),
        }
    } else {
        i + 1
    }
}

/// Position of the `)` closing a group whose content starts at `k`, with
/// `depth` groups open; quoted literals and blocks are skipped whole.
pub open spec fn close_paren(t: Seq<char>, k: int, depth: int) -> Option<int>
    decreases t.len() - k,
{
    if k < 0 || k >= t.len() || depth < 1 {
        None
    } else if t[k] == ')' {
        if depth == 1 {
            Some(k)
        } else {
            close_paren(t, k + 1, depth - 1)
        }
    } else if t[k] == '(' {
        close_paren(t, k + 1, depth + 1)
    } else {
        proof {
            lemma_skip_flat(t, k);
        }
        close_paren(t, skip_flat(t, k), depth)
    }
}

pub proof fn lemma_close_paren(t: Seq<char>, k: int, depth: int)
    ensures
        close_paren(t, k, depth) matches Some(j) ==> k <= j < t.len() && t[j] == ')',
    decreases t.len() - k,
{
    if k < 0 || k >= t.len() || depth < 1 {
    } else if t[k] == ')' {
        if depth != 1 {
            lemma_close_paren(t, k + 1, depth - 1);
        }
    } else if t[k] == '(' {
        lemma_close_paren(t, k + 1, depth + 1);
    } else {
        lemma_skip_flat(t, k);
        lemma_close_paren(t, skip_flat(t, k), depth);
    }
}

pub fn close_paren_exec(t: &Vec<char>, k0: usize) -> (r: Option<usize>)
    requires
        k0 >= 1,
    ensures
        opt_usize(r, close_paren(t@, k0 as int, 1)),
{
    let mut k = k0;
    let mut depth: usize = 1;
    while k < t.len()
        invariant
            close_paren(t@, k0 as int, 1) == close_paren(t@, k as int, depth as int),
            k0 >= 1,
            k0 <= k,
            1 <= depth <= k - k0 + 1,
        decreases t.len() - k,
    {
        if t[k] == ')' {
            if depth == 1 {
                return Some(k);
            }
            depth = depth - 1;
            k = k + 1;
        } else if t[k] == '(' {
            depth = depth + 1;
            k = k + 1;
        } else {
            proof {
                lemma_skip_flat(t@, k as int);
            }
            k = skip_flat_exec(t, k);
        }
    }
    None
}

/// End (exclusive) of the unit starting at `i`: a block, a quoted literal, a
/// parenthesised group, or a single character.
pub open spec fn skip_unit(t: Seq<char>, i: int) -> int {
    if at(t, i, '(') {
        match close_paren(t, i + 1, 1) {
            Some(j) => j + 1,
            None => t.len() as int,
        }
    } else {
        skip_flat(t, i)
    }
}

pub proof fn lemma_skip_unit(t: Seq<char>, i: int)
    requires
        0 <= i < t.len(),
    ensures
        i < skip_unit(t, i) <= t.len(),
{
    lemma_skip_flat(t, i);
    lemma_close_paren(t, i + 1, 1);
}

pub fn skip_unit_exec(t: &Vec<char>, i: usize) -> (r: usize)
    requires
        i < t.len(),
    ensures
        r == skip_unit(t@, i as int),
{
    proof {
        lemma_close_paren(t@, i + 1, 1);
    }
    if t[i] == '(' {
        match close_paren_exec(t, i + 1) {
            Some(j) => j + 1,
            None => t.len(),
        }
    } else {
        skip_flat_exec(t, i)
    }
}

/// Pieces of `t` between top-level occurrences of `sep`, as `(start, end)`
/// ranges, continuing a scan at `i` whose current piece began at `start`.
pub open spec fn split_from(t: Seq<char>, sep: Seq<char>, i: int, start: int, acc: Seq<(int, int)>) -> Seq<(int, int)>
    decreases t.len() - i,
{
    if i < 0 || i >= t.len() || sep.len() == 0 {
        acc.push((start, t.len() as int))
    } else if occurs_at_s(t, i, sep) {
        split_from(t, sep, i + sep.len(), i + sep.len(), acc.push((start, i)))
    } else {
        proof {
            lemma_skip_unit(t, i);
        }
        split_from(t, sep, skip_unit(t, i), start, acc)
    }
}

pub open spec fn occurs_at_s(v: Seq<char>, i: int, p: Seq<char>) -> bool {
    crate::text::occurs_at(v, i, p)
}

/// Pieces of `t` separated by top-level occurrences of `sep`.
pub open spec fn split_top(t: Seq<char>, sep: Seq<char>) -> Seq<(int, int)> {
    split_from(t, sep, 0, 0, Seq::empty())
}

pub open spec fn ranges_ok(t: Seq<char>, r: Seq<(int, int)>) -> bool {
    forall|k: int| 0 <= k < r.len() ==> 0 <= #[trigger] r[k].0 <= r[k].1 <= t.len()
}

pub proof fn lemma_split_from(t: Seq<char>, sep: Seq<char>, i: int, start: int, acc: Seq<(int, int)>)
    requires
        0 <= start <= i <= t.len() || (i >= t.len() && 0 <= start <= t.len()),
        ranges_ok(t, acc),
    ensures
        ranges_ok(t, split_from(t, sep, i, start, acc)),
        split_from(t, sep, i, start, acc).len() > acc.len(),
    decreases t.len() - i,
{
    if i < 0 || i >= t.len() || sep.len() == 0 {
    } else if occurs_at_s(t, i, sep) {
        lemma_split_from(t, sep, i + sep.len(), i + sep.len(), acc.push((start, i)));
    } else {
        lemma_skip_unit(t, i);
        lemma_split_from(t, sep, skip_unit(t, i), start, acc);
    }
}

pub proof fn lemma_split_top(t: Seq<char>, sep: Seq<char>)
    ensures
        ranges_ok(t, split_top(t, sep)),
        split_top(t, sep).len() >= 1,
{
    lemma_split_from(t, sep, 0, 0, Seq::empty());
}

pub fn split_top_exec(t: &Vec<char>, sep: &Vec<char>) -> (r: Vec<(usize, usize)>)
    ensures
        r@.map_values(|p: (usize, usize)| (p.0 as int, p.1 as int)) == split_top(t@, sep@),
{
    let mut acc: Vec<(usize, usize)> = Vec::new();
    let mut i: usize = 0;
    let mut start: usize = 0;
    if sep.len() == 0 {
        acc.push((0, t.len()));
        proof {
            assert(acc@.map_values(|p: (usize, usize)| (p.0 as int, p.1 as int)) =~= Seq::<(int, int)>::empty().push((0, t.len() as int)));
        }
        return acc;
    }
    proof {
        assert(acc@.map_values(|p: (usize, usize)| (p.0 as int, p.1 as int)) =~= Seq::<(int, int)>::empty());
    }
    while i < t.len()
        invariant
            start <= i <= t.len(),
            sep.len() > 0,
            split_top(t@, sep@) == split_from(t@, sep@, i as int, start as int, acc@.map_values(|p: (usize, usize)| (p.0 as int, p.1 as int))),
        decreases t.len() - i,
    {
        let ghost old_acc = acc@;
        if crate::text::occurs_at_exec(t, i, sep) {
            acc.push((start, i));
            proof {
                assert(acc@.map_values(|p: (usize, usize)| (p.0 as int, p.1 as int)) =~= old_acc.map_values(|p: (usize, usize)| (p.0 as int, p.1 as int)).push((start as int, i as int)));
            }
            i = i + sep.len();
            start = i;
        } else {
            proof {
                lemma_skip_unit(t@, i as int);
            }
            i = skip_unit_exec(t, i);
        }
    }
    let ghost old_acc = acc@;
    acc.push((start, t.len()));
    proof {
        assert(acc@.map_values(|p: (usize, usize)| (p.0 as int, p.1 as int)) =~= old_acc.map_values(|p: (usize, usize)| (p.0 as int, p.1 as int)).push((start as int, t.len() as int)));
    }
    acc
}

/// First top-level occurrence of `sep` at or after `i`.
pub open spec fn find_top_from(t: Seq<char>, sep: Seq<char>, i: int) -> Option<int>
    decreases t.len() - i,
{
    if i < 0 || i >= t.len() || sep.len() == 0 {
        None
    } else if occurs_at_s(t, i, sep) {
        Some(i)
    } else {
        proof {
            lemma_skip_unit(t, i);
        }
        find_top_from(t, sep, skip_unit(t, i))
    }
}

pub proof fn lemma_find_top_from(t: Seq<char>, sep: Seq<char>, i: int)
    ensures
        find_top_from(t, sep, i) matches Some(j) ==> i <= j && crate::text::occurs_at(t, j, sep) && sep.len() > 0,
    decreases t.len() - i,
{
    if i < 0 || i >= t.len() || sep.len() == 0 {
    } else if occurs_at_s(t, i, sep) {
    } else {
        lemma_skip_unit(t, i);
        lemma_find_top_from(t, sep, skip_unit(t, i));
    }
}

pub fn find_top_exec(t: &Vec<char>, sep: &Vec<char>) -> (r: Option<usize>)
    ensures
        opt_usize(r, find_top_from(t@, sep@, 0)),
{
    if sep.len() == 0 {
        return None;
    }
    let mut i: usize = 0;
    while i < t.len()
        invariant
            i <= t.len(),
            sep.len() > 0,
            find_top_from(t@, sep@, 0) == find_top_from(t@, sep@, i as int),
        decreases t.len() - i,
    {
        if crate::text::occurs_at_exec(t, i, sep) {
            return Some(i);
        }
        proof {
            lemma_skip_unit(t@, i as int);
        }
        i = skip_unit_exec(t, i);
    }
    None
}

} // verus!
