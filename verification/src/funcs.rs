//! The built-in functions of `{{ name(...) }}` calls that compute on their
//! arguments alone: what each returns, as a spec function, and the verified
//! code that computes it.

use vstd::prelude::*;
use crate::text::{digit_char, is_ws, occurs_at, trim, occurs_at_exec, push_all, slice_of, trim_exec,
    char_is_ws, chars_of, string_of, lemma_trim_len};
use crate::outside::{char_upper, char_to_upper};
use crate::values::texts_view;
use vstd::utf8::encode_utf8;

verus! {

/// Whether `n` occurs anywhere in `h` (`str::contains`; the empty needle
/// occurs everywhere).
pub open spec fn contains_seq(h: Seq<char>, n: Seq<char>) -> bool {
    exists|i: int| #[trigger] occurs_at(h, i, n)
}

/// `"true"` or `"false"`, the way `bool::to_string` renders it.
pub open spec fn bool_text(b: bool) -> Seq<char> {
    if b { seq!['t', 'r', 'u', 'e'] } else { seq!['f', 'a', 'l', 's', 'e'] }
}

/// `s.replace(from, to)` scanning from `i`, for a non-empty `from`: every
/// occurrence, left to right and without overlap, becomes `to`.
pub open spec fn replace_from(s: Seq<char>, from: Seq<char>, to: Seq<char>, i: int) -> Seq<char>
    decreases s.len() - i,
{
    if i < 0 || i >= s.len() || from.len() == 0 {
        Seq::empty()
    } else if occurs_at(s, i, from) {
        to + replace_from(s, from, to, i + from.len())
    } else {
        seq![s[i]] + replace_from(s, from, to, i + 1)
    }
}

/// Each character of `s` from `i` on, followed by `to`.
pub open spec fn interleave_from(s: Seq<char>, to: Seq<char>, i: int) -> Seq<char>
    decreases s.len() - i,
{
    if i < 0 || i >= s.len() {
        Seq::empty()
    } else {
        seq![s[i]] + to + interleave_from(s, to, i + 1)
    }
}

/// `str::replace`: with an empty `from`, `to` is put before every character
/// and at the end.
pub open spec fn replace_all(s: Seq<char>, from: Seq<char>, to: Seq<char>) -> Seq<char> {
    if from.len() == 0 {
        to + interleave_from(s, to, 0)
    } else {
        replace_from(s, from, to, 0)
    }
}

/// The parts of `s` split at every occurrence of a non-empty `sep`, scanning
/// from `i` with the current part starting at `start`.
pub open spec fn parts_from(s: Seq<char>, sep: Seq<char>, i: int, start: int) -> Seq<Seq<char>>
    decreases s.len() - i,
{
    if i < 0 || i >= s.len() || sep.len() == 0 {
        seq![s.subrange(start, s.len() as int)]
    } else if occurs_at(s, i, sep) {
        seq![s.subrange(start, i)] + parts_from(s, sep, i + sep.len(), i + sep.len())
    } else {
        parts_from(s, sep, i + 1, start)
    }
}

/// The one-character sequences of `s` from `i` on.
pub open spec fn singles_from(s: Seq<char>, i: int) -> Seq<Seq<char>>
    decreases s.len() - i,
{
    if i < 0 || i >= s.len() {
        Seq::empty()
    } else {
        seq![seq![s[i]]] + singles_from(s, i + 1)
    }
}

/// `str::split` with a string pattern: an empty pattern matches at every
/// character boundary, so the parts are `""`, each character, and `""`.
pub open spec fn split_parts(s: Seq<char>, sep: Seq<char>) -> Seq<Seq<char>> {
    if sep.len() == 0 {
        seq![Seq::<char>::empty()] + singles_from(s, 0) + seq![Seq::<char>::empty()]
    } else {
        parts_from(s, sep, 0, 0)
    }
}

/// Start of the right-most occurrence of `sep` in `s` that begins before `j`.
pub open spec fn last_occurrence(s: Seq<char>, sep: Seq<char>, j: int) -> Option<int>
    decreases j,
{
    if j <= 0 {
        None
    } else if occurs_at(s, j - 1, sep) {
        Some(j - 1)
    } else {
        last_occurrence(s, sep, j - 1)
    }
}

/// The first part that `str::rsplit` yields: what follows the right-most
/// occurrence of `sep` (all of `s` when there is none; `""` for an empty `sep`).
pub open spec fn last_part(s: Seq<char>, sep: Seq<char>) -> Seq<char> {
    if sep.len() == 0 {
        Seq::empty()
    } else {
        match last_occurrence(s, sep, s.len() as int) {
            Some(i) => s.subrange(i + sep.len(), s.len() as int),
            None => s,
        }
    }
}

/// `items` joined with `sep` between neighbours.
pub open spec fn join_seq(items: Seq<Seq<char>>, sep: Seq<char>) -> Seq<char>
    decreases items.len(),
{
    if items.len() == 0 {
        Seq::empty()
    } else if items.len() == 1 {
        items[0]
    } else {
        join_seq(items.drop_last(), sep) + sep + items.last()
    }
}

/// Lower-case hexadecimal digit.
pub open spec fn hex_lower(d: nat) -> char {
    if d < 10 { digit_char(d) }
    else if d == 10 { 'a' }
    else if d == 11 { 'b' }
    else if d == 12 { 'c' }
    else if d == 13 { 'd' }
    else if d == 14 { 'e' }
    else { 'f' }
}

/// Upper-case hexadecimal digit.
pub open spec fn hex_upper(d: nat) -> char {
    if d < 10 { digit_char(d) }
    else if d == 10 { 'A' }
    else if d == 11 { 'B' }
    else if d == 12 { 'C' }
    else if d == 13 { 'D' }
    else if d == 14 { 'E' }
    else { 'F' }
}

/// How `escape` renders one character.
pub open spec fn escape_char(c: char) -> Seq<char> {
    if c == '\\' {
        seq!['\\', '\\']
    } else if c == '\n' {
        seq!['\\', 'n']
    } else if c == '\r' {
        seq!['\\', 'r']
    } else if c == '\t' {
        seq!['\\', 't']
    } else if c == '\0' {
        seq!['\\', '0']
    } else if c == '"' {
        seq!['\\', '"']
    } else if (c as u32) < 0x20 {
        seq!['\\', 'x', hex_lower((c as u32 / 16) as nat), hex_lower((c as u32 % 16) as nat)]
    } else {
        seq![c]
    }
}

/// `escape`: backslash escapes for `\`, `"` and control characters.
pub open spec fn escape_from(s: Seq<char>, i: int) -> Seq<char>
    decreases s.len() - i,
{
    if i < 0 || i >= s.len() {
        Seq::empty()
    } else {
        escape_char(s[i]) + escape_from(s, i + 1)
    }
}

/// Value of a run of ASCII decimal digits.
pub open spec fn digits_value(d: Seq<char>) -> nat
    decreases d.len(),
{
    if d.len() == 0 {
        0
    } else {
        digits_value(d.drop_last()) * 10 + digit_of(d.last())
    }
}

pub open spec fn is_digit(c: char) -> bool {
    '0' <= c <= '9'
}

pub open spec fn digit_of(c: char) -> nat {
    (c as u32 - '0' as u32) as nat
}

pub open spec fn all_digits(d: Seq<char>) -> bool {
    forall|i: int| 0 <= i < d.len() ==> is_digit(#[trigger] d[i])
}

/// `s.trim().parse::<usize>()`: an optional `+`, then at least one digit, and
/// a value that fits in `usize`.
pub open spec fn parse_count(s: Seq<char>) -> Option<nat> {
    let t = trim(s);
    let d = if t.len() > 0 && t[0] == '+' { t.skip(1) } else { t };
    if d.len() > 0 && all_digits(d) && digits_value(d) <= usize::MAX {
        Some(digits_value(d))
    } else {
        None
    }
}

/// `s` repeated `n` times.
pub open spec fn repeat_seq(s: Seq<char>, n: nat) -> Seq<char>
    decreases n,
{
    if n == 0 {
        Seq::empty()
    } else {
        repeat_seq(s, (n - 1) as nat) + s
    }
}

/// `value` quoted for `shell`, so that the shell reads it back as one word.
pub open spec fn quote_for_shell(value: Seq<char>, shell: Seq<char>) -> Seq<char> {
    if shell == "powershell"@ {
        seq!['\''] + replace_all(value, seq!['\''], seq!['\'', '\'']) + seq!['\'']
    } else if shell == "cmd"@ {
        seq!['"'] + replace_all(value, seq!['"'], seq!['"', '"']) + seq!['"']
    } else if shell == "fish"@ {
        seq!['\''] + replace_all(
            replace_all(value, seq!['\\'], seq!['\\', '\\']),
            seq!['\''],
            seq!['\\', '\''],
        ) + seq!['\'']
    } else {
        seq!['\''] + replace_all(value, seq!['\''], seq!['\'', '\\', '\'', '\'']) + seq!['\'']
    }
}

/// RFC 3986 unreserved bytes: `A-Z a-z 0-9 - _ . ~`.
pub open spec fn unreserved(b: u8) -> bool {
    (0x41 <= b <= 0x5A) || (0x61 <= b <= 0x7A) || (0x30 <= b <= 0x39) || b == 0x2D || b == 0x5F
        || b == 0x2E || b == 0x7E
}

/// Percent-encoding of `bytes` from `i` on: unreserved bytes pass, every
/// other byte becomes `%XX` with upper-case hex digits.
pub open spec fn url_encode_from(bytes: Seq<u8>, i: int) -> Seq<char>
    decreases bytes.len() - i,
{
    if i < 0 || i >= bytes.len() {
        Seq::empty()
    } else {
        let b = bytes[i];
        let piece = if unreserved(b) {
            seq![b as char]
        } else {
            seq!['%', hex_upper((b / 16) as nat), hex_upper((b % 16) as nat)]
        };
        piece + url_encode_from(bytes, i + 1)
    }
}

/// Value of a hexadecimal digit byte.
pub open spec fn hex_val(b: u8) -> Option<u8> {
    if 0x30 <= b <= 0x39 {
        Some((b - 0x30) as u8)
    } else if 0x61 <= b <= 0x66 {
        Some((b - 0x61 + 10) as u8)
    } else if 0x41 <= b <= 0x46 {
        Some((b - 0x41 + 10) as u8)
    } else {
        None
    }
}

/// Bytes of `bytes` from `i` on with every `%XX` escape decoded; `None` when
/// a `%` is not followed by two hexadecimal digits.
pub open spec fn url_decode_from(bytes: Seq<u8>, i: int) -> Option<Seq<u8>>
    decreases bytes.len() - i,
{
    if i < 0 || i >= bytes.len() {
        Some(Seq::empty())
    } else if bytes[i] == 0x25 {
        if i + 2 < bytes.len() && hex_val(bytes[i + 1]) is Some && hex_val(bytes[i + 2]) is Some {
            match url_decode_from(bytes, i + 3) {
                Some(rest) => Some(
                    seq![(hex_val(bytes[i + 1])->0 * 16 + hex_val(bytes[i + 2])->0) as u8] + rest,
                ),
                None => None,
            }
        } else {
            None
        }
    } else {
        match url_decode_from(bytes, i + 1) {
            Some(rest) => Some(seq![bytes[i]] + rest),
            None => None,
        }
    }
}

/// `capitalize` from `i` on: the first character of every run of
/// non-whitespace is upper-cased, everything else is kept.
pub open spec fn capitalize_from(s: Seq<char>, i: int, at_start: bool) -> Seq<char>
    decreases s.len() - i,
{
    if i < 0 || i >= s.len() {
        Seq::empty()
    } else if is_ws(s[i]) {
        seq![s[i]] + capitalize_from(s, i + 1, true)
    } else if at_start {
        char_upper(s[i]) + capitalize_from(s, i + 1, false)
    } else {
        seq![s[i]] + capitalize_from(s, i + 1, false)
    }
}

/// `"o"` for each option, joined with `", "`, as `one_of` lists them.
pub open spec fn quoted_options(opts: Seq<Seq<char>>) -> Seq<char> {
    join_seq(opts.map_values(|o: Seq<char>| seq!['"'] + o + seq!['"']), seq![',', ' '])
}

/// `s.chars().skip(start)`, then at most `len` characters of it.
pub open spec fn substring(s: Seq<char>, start: nat, len: Option<nat>) -> Seq<char> {
    let b = if start <= s.len() { start as int } else { s.len() as int };
    let e = match len {
        Some(n) => if b + n <= s.len() { b + n } else { s.len() as int },
        None => s.len() as int,
    };
    s.subrange(b, e)
}


pub proof fn lemma_parts_from_nonempty(s: Seq<char>, sep: Seq<char>, i: int, start: int)
    ensures
        parts_from(s, sep, i, start).len() >= 1,
    decreases s.len() - i,
{
    if 0 <= i < s.len() && sep.len() > 0 {
        if occurs_at(s, i, sep) {
            lemma_parts_from_nonempty(s, sep, i + sep.len(), i + sep.len());
        } else {
            lemma_parts_from_nonempty(s, sep, i + 1, start);
        }
    }
}

pub proof fn lemma_split_nonempty(s: Seq<char>, sep: Seq<char>)
    ensures
        split_parts(s, sep).len() >= 1,
{
    lemma_parts_from_nonempty(s, sep, 0, 0);
}

// ── executable counterparts ─────────────────────────────────────────────

pub proof fn lemma_assoc(a: Seq<char>, b: Seq<char>, c: Seq<char>)
    ensures
        (a + b) + c == a + (b + c),
{
    assert((a + b) + c =~= a + (b + c));
}

pub fn bool_text_x(b: bool) -> (r: Vec<char>)
    ensures
        r@ == bool_text(b),
{
    if b {
        vec!['t', 'r', 'u', 'e']
    } else {
        vec!['f', 'a', 'l', 's', 'e']
    }
}

pub fn contains_x(h: &Vec<char>, n: &Vec<char>) -> (r: bool)
    ensures
        r == contains_seq(h@, n@),
{
    if n.len() > h.len() {
        assert forall|i: int| !#[trigger] occurs_at(h@, i, n@) by {}
        return false;
    }
    let lim = h.len() - n.len();
    let mut i: usize = 0;
    while i < lim
        invariant
            n.len() <= h.len(),
            lim == h.len() - n.len(),
            i <= lim,
            forall|k: int| 0 <= k < i ==> !#[trigger] occurs_at(h@, k, n@),
        decreases lim - i,
    {
        if occurs_at_exec(h, i, n) {
            return true;
        }
        i += 1;
    }
    if occurs_at_exec(h, lim, n) {
        return true;
    }
    assert forall|k: int| !#[trigger] occurs_at(h@, k, n@) by {
        if 0 <= k < i {
        }
    }
    false
}

pub fn replace_all_x(s: &Vec<char>, from: &Vec<char>, to: &Vec<char>) -> (r: Vec<char>)
    ensures
        r@ == replace_all(s@, from@, to@),
{
    let mut out: Vec<char> = Vec::new();
    let mut i: usize = 0;
    if from.len() == 0 {
        push_all(&mut out, to);
        while i < s.len()
            invariant
                from@.len() == 0,
                i <= s.len(),
                replace_all(s@, from@, to@) == out@ + interleave_from(s@, to@, i as int),
            decreases s.len() - i,
        {
            proof {
                lemma_assoc(out@, seq![s@[i as int]] + to@, interleave_from(s@, to@, i + 1));
                lemma_assoc(seq![s@[i as int]], to@, interleave_from(s@, to@, i + 1));
            }
            let ghost o = out@;
            out.push(s[i]);
            push_all(&mut out, to);
            assert(out@ == o + (seq![s@[i as int]] + to@));
            i += 1;
        }
        assert(out@ + interleave_from(s@, to@, i as int) =~= out@);
        return out;
    }
    while i < s.len()
        invariant
            from@.len() > 0,
            i <= s.len(),
            replace_all(s@, from@, to@) == out@ + replace_from(s@, from@, to@, i as int),
        decreases s.len() - i,
    {
        let ghost o = out@;
        if occurs_at_exec(s, i, from) {
            proof {
                lemma_assoc(o, to@, replace_from(s@, from@, to@, i + from@.len()));
            }
            push_all(&mut out, to);
            i += from.len();
        } else {
            proof {
                lemma_assoc(o, seq![s@[i as int]], replace_from(s@, from@, to@, i + 1));
            }
            out.push(s[i]);
            assert(out@ == o + seq![s@[i as int]]);
            i += 1;
        }
    }
    assert(out@ + replace_from(s@, from@, to@, i as int) =~= out@);
    out
}

pub fn split_parts_x(s: &Vec<char>, sep: &Vec<char>) -> (r: Vec<Vec<char>>)
    ensures
        texts_view(r@) == split_parts(s@, sep@),
{
    let mut acc: Vec<Vec<char>> = Vec::new();
    if sep.len() == 0 {
        acc.push(Vec::new());
        let mut i: usize = 0;
        assert(texts_view(acc@) =~= seq![Seq::<char>::empty()]);
        while i < s.len()
            invariant
                i <= s.len(),
                seq![Seq::<char>::empty()] + singles_from(s@, 0) == texts_view(acc@) + singles_from(s@, i as int),
            decreases s.len() - i,
        {
            let ghost a = texts_view(acc@);
            let ghost old_acc = acc@;
            let mut one: Vec<char> = Vec::new();
            one.push(s[i]);
            assert(one@ =~= seq![s@[i as int]]);
            acc.push(one);
            assert(acc@ == old_acc.push(one));
            assert(texts_view(acc@).len() == a.len() + 1);
            assert(texts_view(acc@) =~= a.push(seq![s@[i as int]]));
            assert(a + singles_from(s@, i as int) =~= texts_view(acc@) + singles_from(s@, i + 1));
            i += 1;
        }
        let ghost a = texts_view(acc@);
        acc.push(Vec::new());
        assert(texts_view(acc@) =~= a.push(Seq::<char>::empty()));
        assert(a + singles_from(s@, i as int) =~= a);
        assert(texts_view(acc@) =~= seq![Seq::<char>::empty()] + singles_from(s@, 0) + seq![Seq::<char>::empty()]);
        return acc;
    }
    let mut i: usize = 0;
    let mut start: usize = 0;
    assert(texts_view(acc@) =~= Seq::<Seq<char>>::empty());
    while i < s.len()
        invariant
            sep@.len() > 0,
            start <= i <= s.len(),
            split_parts(s@, sep@) == texts_view(acc@) + parts_from(s@, sep@, i as int, start as int),
        decreases s.len() - i,
    {
        let ghost a = texts_view(acc@);
        if occurs_at_exec(s, i, sep) {
            let piece = slice_of(s, start, i);
            acc.push(piece);
            assert(texts_view(acc@) =~= a.push(s@.subrange(start as int, i as int)));
            assert(a + (seq![s@.subrange(start as int, i as int)] + parts_from(s@, sep@, i + sep@.len(), i + sep@.len()))
                =~= texts_view(acc@) + parts_from(s@, sep@, i + sep@.len(), i + sep@.len()));
            i += sep.len();
            start = i;
        } else {
            i += 1;
        }
    }
    let ghost a = texts_view(acc@);
    let piece = slice_of(s, start, s.len());
    acc.push(piece);
    assert(texts_view(acc@) =~= a.push(s@.subrange(start as int, s.len() as int)));
    assert(a + seq![s@.subrange(start as int, s.len() as int)] =~= texts_view(acc@));
    acc
}

pub fn last_part_x(s: &Vec<char>, sep: &Vec<char>) -> (r: Vec<char>)
    ensures
        r@ == last_part(s@, sep@),
{
    if sep.len() == 0 {
        return Vec::new();
    }
    let mut j: usize = s.len();
    while j > 0
        invariant
            j <= s.len(),
            sep@.len() > 0,
            last_occurrence(s@, sep@, s.len() as int) == last_occurrence(s@, sep@, j as int),
        decreases j,
    {
        if occurs_at_exec(s, j - 1, sep) {
            return slice_of(s, j - 1 + sep.len(), s.len());
        }
        j -= 1;
    }
    copy_all(s)
}

pub fn copy_all(s: &Vec<char>) -> (r: Vec<char>)
    ensures
        r@ == s@,
{
    let r = slice_of(s, 0, s.len());
    assert(s@.subrange(0, s.len() as int) =~= s@);
    r
}

/// `items[start..]` joined with `sep`.
pub fn join_from_x(items: &Vec<Vec<char>>, start: usize, sep: &Vec<char>) -> (r: Vec<char>)
    requires
        start <= items.len(),
    ensures
        r@ == join_seq(texts_view(items@).skip(start as int), sep@),
{
    let ghost xs = texts_view(items@).skip(start as int);
    let mut out: Vec<char> = Vec::new();
    let mut k: usize = start;
    assert(xs.take(0) =~= Seq::<Seq<char>>::empty());
    while k < items.len()
        invariant
            start <= k <= items.len(),
            xs == texts_view(items@).skip(start as int),
            out@ == join_seq(xs.take(k - start), sep@),
        decreases items.len() - k,
    {
        let ghost pre = xs.take(k - start + 1);
        assert(pre.drop_last() =~= xs.take(k - start));
        assert(pre.last() == items@[k as int]@);
        if k > start {
            push_all(&mut out, sep);
        } else {
            assert(pre.len() == 1);
            assert(out@ =~= Seq::<char>::empty());
        }
        push_all(&mut out, &items[k]);
        k += 1;
        proof {
            if k - start >= 2 {
                lemma_assoc(join_seq(pre.drop_last(), sep@), sep@, pre.last());
            } else {
                assert(out@ =~= pre[0]);
            }
        }
    }
    assert(xs.take(k - start) =~= xs);
    out
}

pub fn hex_lower_x(d: u32) -> (c: char)
    requires
        d < 16,
    ensures
        c == hex_lower(d as nat),
{
    if d < 10 {
        crate::text::digit_char_x(d as usize)
    } else if d == 10 { 'a' }
    else if d == 11 { 'b' }
    else if d == 12 { 'c' }
    else if d == 13 { 'd' }
    else if d == 14 { 'e' }
    else { 'f' }
}

pub fn hex_upper_x(d: u8) -> (c: char)
    requires
        d < 16,
    ensures
        c == hex_upper(d as nat),
{
    if d < 10 {
        crate::text::digit_char_x(d as usize)
    } else if d == 10 { 'A' }
    else if d == 11 { 'B' }
    else if d == 12 { 'C' }
    else if d == 13 { 'D' }
    else if d == 14 { 'E' }
    else { 'F' }
}

pub fn escape_char_x(c: char, out: &mut Vec<char>)
    ensures
        final(out)@ == old(out)@ + escape_char(c),
{
    let ghost o = out@;
    if c == '\\' {
        out.push('\\');
        out.push('\\');
    } else if c == '\n' {
        out.push('\\');
        out.push('n');
    } else if c == '\r' {
        out.push('\\');
        out.push('r');
    } else if c == '\t' {
        out.push('\\');
        out.push('t');
    } else if c == '\0' {
        out.push('\\');
        out.push('0');
    } else if c == '"' {
        out.push('\\');
        out.push('"');
    } else if (c as u32) < 0x20 {
        let u = c as u32;
        out.push('\\');
        out.push('x');
        out.push(hex_lower_x(u / 16));
        out.push(hex_lower_x(u % 16));
    } else {
        out.push(c);
    }
    assert(out@ =~= o + escape_char(c));
}

pub fn escape_x(s: &Vec<char>) -> (r: Vec<char>)
    ensures
        r@ == escape_from(s@, 0),
{
    let mut out: Vec<char> = Vec::new();
    let mut i: usize = 0;
    while i < s.len()
        invariant
            i <= s.len(),
            escape_from(s@, 0) == out@ + escape_from(s@, i as int),
        decreases s.len() - i,
    {
        proof {
            lemma_assoc(out@, escape_char(s@[i as int]), escape_from(s@, i + 1));
        }
        escape_char_x(s[i], &mut out);
        i += 1;
    }
    assert(out@ + escape_from(s@, i as int) =~= out@);
    out
}

pub fn capitalize_x(s: &Vec<char>) -> (r: Vec<char>)
    ensures
        r@ == capitalize_from(s@, 0, true),
{
    let mut out: Vec<char> = Vec::new();
    let mut at_start = true;
    let mut i: usize = 0;
    while i < s.len()
        invariant
            i <= s.len(),
            capitalize_from(s@, 0, true) == out@ + capitalize_from(s@, i as int, at_start),
        decreases s.len() - i,
    {
        let c = s[i];
        let ghost o = out@;
        if char_is_ws(c) {
            proof {
                lemma_assoc(o, seq![c], capitalize_from(s@, i + 1, true));
            }
            out.push(c);
            assert(out@ == o + seq![c]);
            at_start = true;
        } else if at_start {
            let u = char_to_upper(c);
            proof {
                lemma_assoc(o, char_upper(c), capitalize_from(s@, i + 1, false));
            }
            push_all(&mut out, &u);
            at_start = false;
        } else {
            proof {
                lemma_assoc(o, seq![c], capitalize_from(s@, i + 1, false));
            }
            out.push(c);
            assert(out@ == o + seq![c]);
        }
        i += 1;
    }
    assert(out@ + capitalize_from(s@, i as int, at_start) =~= out@);
    out
}

pub proof fn lemma_digits_grow(d: Seq<char>, m: int, n: int)
    requires
        0 <= m <= n <= d.len(),
    ensures
        digits_value(d.take(m)) <= digits_value(d.take(n)),
    decreases n - m,
{
    if m < n {
        lemma_digits_grow(d, m, n - 1);
        assert(d.take(n).drop_last() =~= d.take(n - 1));
    }
}

/// `s.trim().parse::<usize>()`.
pub fn parse_count_x(s: &Vec<char>) -> (r: Option<usize>)
    ensures
        match r {
            Some(n) => parse_count(s@) == Some(n as nat),
            None => parse_count(s@) is None,
        },
{
    let t = trim_exec(s);
    let d = if t.len() > 0 && t[0] == '+' { slice_of(&t, 1, t.len()) } else { copy_all(&t) };
    assert(d@ == (if t@.len() > 0 && t@[0] == '+' { t@.skip(1) } else { t@ }));
    let ghost dd = d@;
    if d.len() == 0 {
        return None;
    }
    let mut acc: usize = 0;
    let mut k: usize = 0;
    assert(d@.take(0) =~= Seq::<char>::empty());
    while k < d.len()
        invariant
            k <= d.len(),
            d.len() > 0,
            dd == d@,
            dd == (if trim(s@).len() > 0 && trim(s@)[0] == '+' { trim(s@).skip(1) } else { trim(s@) }),
            acc as nat == digits_value(d@.take(k as int)),
            forall|i: int| 0 <= i < k ==> is_digit(#[trigger] d@[i]),
        decreases d.len() - k,
    {
        let c = d[k];
        assert(d@.take(k + 1).drop_last() =~= d@.take(k as int));
        assert(d@.take(k + 1).last() == c);
        if !('0' <= c && c <= '9') {
            assert(!is_digit(d@[k as int]));
            assert(!all_digits(d@));
            return None;
        }
        let v = (c as u32 - '0' as u32) as usize;
        if acc > (usize::MAX - v) / 10 {
            proof {
                assert(acc * 10 + v > usize::MAX) by (nonlinear_arith)
                    requires
                        acc > (usize::MAX - v) / 10,
                        v <= 9;
                lemma_digits_grow(d@, k + 1, d@.len() as int);
                assert(d@.take(d@.len() as int) =~= d@);
                assert(digit_of(c) == v);
                assert(digits_value(d@) > usize::MAX);
            }
            return None;
        }
        proof {
            assert(acc * 10 + v <= usize::MAX) by (nonlinear_arith)
                requires
                    acc <= (usize::MAX - v) / 10,
                    v <= 9;
        }
        acc = acc * 10 + v;
        k += 1;
    }
    assert(d@.take(d@.len() as int) =~= d@);
    Some(acc)
}

pub fn repeat_x(s: &Vec<char>, n: usize) -> (r: Vec<char>)
    ensures
        r@ == repeat_seq(s@, n as nat),
{
    let mut out: Vec<char> = Vec::new();
    let mut k: usize = 0;
    while k < n
        invariant
            k <= n,
            out@ == repeat_seq(s@, k as nat),
        decreases n - k,
    {
        push_all(&mut out, s);
        k += 1;
    }
    out
}

pub fn quote_for_shell_x(value: &Vec<char>, shell: &Vec<char>) -> (r: Vec<char>)
    ensures
        r@ == quote_for_shell(value@, shell@),
{
    let q1: Vec<char> = vec!['\''];
    let dq: Vec<char> = vec!['"'];
    let bs: Vec<char> = vec!['\\'];
    assert(q1@ =~= seq!['\'']);
    assert(dq@ =~= seq!['"']);
    assert(bs@ =~= seq!['\\']);
    let (open, body, close) = if crate::text::eq_lit(shell, "powershell") {
        let rep: Vec<char> = vec!['\'', '\''];
        assert(rep@ =~= seq!['\'', '\'']);
        (copy_all(&q1), replace_all_x(value, &q1, &rep), copy_all(&q1))
    } else if crate::text::eq_lit(shell, "cmd") {
        let rep: Vec<char> = vec!['"', '"'];
        assert(rep@ =~= seq!['"', '"']);
        (copy_all(&dq), replace_all_x(value, &dq, &rep), copy_all(&dq))
    } else if crate::text::eq_lit(shell, "fish") {
        let rep1: Vec<char> = vec!['\\', '\\'];
        let rep2: Vec<char> = vec!['\\', '\''];
        assert(rep1@ =~= seq!['\\', '\\']);
        assert(rep2@ =~= seq!['\\', '\'']);
        let a = replace_all_x(value, &bs, &rep1);
        (copy_all(&q1), replace_all_x(&a, &q1, &rep2), copy_all(&q1))
    } else {
        let rep: Vec<char> = vec!['\'', '\\', '\'', '\''];
        assert(rep@ =~= seq!['\'', '\\', '\'', '\'']);
        (copy_all(&q1), replace_all_x(value, &q1, &rep), copy_all(&q1))
    };
    let mut out = open;
    push_all(&mut out, &body);
    push_all(&mut out, &close);
    out
}

pub fn unreserved_x(b: u8) -> (r: bool)
    ensures
        r == unreserved(b),
{
    (0x41 <= b && b <= 0x5A) || (0x61 <= b && b <= 0x7A) || (0x30 <= b && b <= 0x39) || b == 0x2D
        || b == 0x5F || b == 0x2E || b == 0x7E
}

/// The UTF-8 bytes of a text.
pub fn utf8_bytes(v: &Vec<char>) -> (r: Vec<u8>)
    ensures
        r@ == encode_utf8(v@),
{
    let s = string_of(v);
    let b = s.as_str().as_bytes();
    let mut r: Vec<u8> = Vec::new();
    let mut i: usize = 0;
    while i < b.len()
        invariant
            i <= b.len(),
            r@ == b@.take(i as int),
        decreases b.len() - i,
    {
        r.push(b[i]);
        i += 1;
        assert(r@ =~= b@.take(i as int));
    }
    assert(b@.take(b.len() as int) =~= b@);
    r
}

pub fn url_encode_x(bytes: &Vec<u8>) -> (r: Vec<char>)
    ensures
        r@ == url_encode_from(bytes@, 0),
{
    let mut out: Vec<char> = Vec::new();
    let mut i: usize = 0;
    while i < bytes.len()
        invariant
            i <= bytes.len(),
            url_encode_from(bytes@, 0) == out@ + url_encode_from(bytes@, i as int),
        decreases bytes.len() - i,
    {
        let b = bytes[i];
        let ghost o = out@;
        let ghost piece = if unreserved(b) {
            seq![b as char]
        } else {
            seq!['%', hex_upper((b / 16) as nat), hex_upper((b % 16) as nat)]
        };
        proof {
            lemma_assoc(o, piece, url_encode_from(bytes@, i + 1));
        }
        if unreserved_x(b) {
            out.push(b as char);
        } else {
            out.push('%');
            out.push(hex_upper_x(b / 16));
            out.push(hex_upper_x(b % 16));
        }
        assert(out@ =~= o + piece);
        i += 1;
    }
    assert(out@ + url_encode_from(bytes@, i as int) =~= out@);
    out
}

pub fn hex_val_x(b: u8) -> (r: Option<u8>)
    ensures
        r == hex_val(b),
{
    if 0x30 <= b && b <= 0x39 {
        Some(b - 0x30)
    } else if 0x61 <= b && b <= 0x66 {
        Some(b - 0x61 + 10)
    } else if 0x41 <= b && b <= 0x46 {
        Some(b - 0x41 + 10)
    } else {
        None
    }
}

pub open spec fn opt_cat(pre: Seq<u8>, r: Option<Seq<u8>>) -> Option<Seq<u8>> {
    match r {
        Some(x) => Some(pre + x),
        None => None,
    }
}

pub fn url_decode_x(bytes: &Vec<u8>) -> (r: Option<Vec<u8>>)
    ensures
        match r {
            Some(v) => url_decode_from(bytes@, 0) == Some(v@),
            None => url_decode_from(bytes@, 0) is None,
        },
{
    let mut out: Vec<u8> = Vec::new();
    let mut i: usize = 0;
    assert(opt_cat(out@, url_decode_from(bytes@, 0)) == url_decode_from(bytes@, 0)) by {
        match url_decode_from(bytes@, 0) {
            Some(x) => assert(out@ + x =~= x),
            None => {},
        }
    }
    while i < bytes.len()
        invariant
            i <= bytes.len(),
            url_decode_from(bytes@, 0) == opt_cat(out@, url_decode_from(bytes@, i as int)),
        decreases bytes.len() - i,
    {
        let b = bytes[i];
        let ghost o = out@;
        if b == 0x25 {
            if bytes.len() - i > 2 {
                let hi = hex_val_x(bytes[i + 1]);
                let lo = hex_val_x(bytes[i + 2]);
                match (hi, lo) {
                    (Some(h), Some(l)) => {
                        let byte = h * 16 + l;
                        out.push(byte);
                        proof {
                            match url_decode_from(bytes@, i + 3) {
                                Some(x) => assert(o + (seq![byte] + x) =~= out@ + x),
                                None => {},
                            }
                        }
                        i += 3;
                    },
                    _ => {
                        return None;
                    },
                }
            } else {
                return None;
            }
        } else {
            out.push(b);
            proof {
                match url_decode_from(bytes@, i + 1) {
                    Some(x) => assert(o + (seq![b] + x) =~= out@ + x),
                    None => {},
                }
            }
            i += 1;
        }
    }
    assert(out@ + Seq::<u8>::empty() =~= out@);
    Some(out)
}

pub fn substring_x(s: &Vec<char>, start: usize, len: Option<usize>) -> (r: Vec<char>)
    ensures
        r@ == substring(s@, start as nat, match len { Some(n) => Some(n as nat), None => None }),
{
    let b = if start <= s.len() { start } else { s.len() };
    let e = match len {
        Some(n) => if n <= s.len() - b { b + n } else { s.len() },
        None => s.len(),
    };
    slice_of(s, b, e)
}

/// The options of `one_of`, each in double quotes, joined with `", "`.
pub fn quoted_options_x(v: &Vec<Vec<char>>) -> (r: Vec<char>)
    requires
        v.len() >= 1,
    ensures
        r@ == quoted_options(texts_view(v@).skip(1)),
{
    let ghost opts = texts_view(v@).skip(1);
    let mut q: Vec<Vec<char>> = Vec::new();
    let mut i: usize = 1;
    while i < v.len()
        invariant
            1 <= i <= v.len(),
            opts == texts_view(v@).skip(1),
            texts_view(q@) == opts.take(i - 1).map_values(|o: Seq<char>| seq!['"'] + o + seq!['"']),
        decreases v.len() - i,
    {
        let mut one: Vec<char> = Vec::new();
        one.push('"');
        push_all(&mut one, &v[i]);
        one.push('"');
        let ghost tq = texts_view(q@);
        let ghost old_q = q@;
        assert(one@ =~= seq!['"'] + v@[i as int]@ + seq!['"']);
        q.push(one);
        assert(q@ == old_q.push(one));
        assert(texts_view(q@).len() == tq.len() + 1);
        assert(texts_view(q@) =~= tq.push(seq!['"'] + v@[i as int]@ + seq!['"']));
        assert(opts.take(i as int).map_values(|o: Seq<char>| seq!['"'] + o + seq!['"']) =~= texts_view(q@));
        i += 1;
    }
    assert(opts.take(i - 1) =~= opts);
    let sep = vec![',', ' '];
    let r = join_from_x(&q, 0, &sep);
    assert(texts_view(q@).skip(0) =~= texts_view(q@));
    r
}

} // verus!
