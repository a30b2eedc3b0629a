//! Turning the raw output of commands that run side by side into whole,
//! prefixed lines: bytes are cut into lines at `\n` and `\r` (a `\r\n` pair
//! counts once), a line is cut again at every ANSI escape that moves the
//! cursor or erases, escapes other than colour (SGR) are dropped, layout
//! whitespace is trimmed and empty pieces are left out. Also the bracketed
//! prefix put in front of each line.

use vstd::prelude::*;
use crate::text::{trim, push_str, push_all, string_of, chars_of};
use crate::funcs::utf8_bytes;
use crate::envfile::line_end;

verus! {

pub open spec fn esc() -> u8 {
    0x1b
}

/// Where a partial line stands between two chunks of output.
pub struct LineState {
    /// The bytes of the line read so far.
    pub line: Vec<u8>,
    /// Whether the last byte read was `\r`, so that a `\n` right after it
    /// ends no second line.
    pub prev_cr: bool,
}

/// The reader's state and the lines it has emitted.
pub struct Feed {
    pub line: Seq<u8>,
    pub prev_cr: bool,
    pub out: Seq<Seq<u8>>,
}

/// One byte of output read.
pub open spec fn byte_step(f: Feed, b: u8) -> Feed {
    if b == 10 {
        if f.prev_cr {
            Feed { line: f.line, prev_cr: false, out: f.out }
        } else {
            Feed { line: Seq::empty(), prev_cr: false, out: f.out.push(f.line) }
        }
    } else if b == 13 {
        if f.line.len() > 0 {
            Feed { line: Seq::empty(), prev_cr: true, out: f.out.push(f.line) }
        } else {
            Feed { line: f.line, prev_cr: true, out: f.out }
        }
    } else {
        Feed { line: f.line.push(b), prev_cr: false, out: f.out }
    }
}

/// The bytes of `chunk` read one after the other.
pub open spec fn feed(f: Feed, chunk: Seq<u8>) -> Feed
    decreases chunk.len(),
{
    if chunk.len() == 0 {
        f
    } else {
        byte_step(feed(f, chunk.drop_last()), chunk.last())
    }
}

impl LineState {
    pub open spec fn start(&self) -> Feed {
        Feed { line: self.line@, prev_cr: self.prev_cr, out: Seq::empty() }
    }

    /// An empty line, with no `\r` just read.
    pub fn new() -> (r: Self)
        ensures
            r.line@ == Seq::<u8>::empty(),
            !r.prev_cr,
    {
        LineState { line: Vec::new(), prev_cr: false }
    }
}

/// Reads a chunk of output: returns the lines it completes, in order, and
/// leaves the unfinished rest of a line in `state`.
pub fn process_chunk(chunk: &[u8], state: &mut LineState) -> (r: Vec<Vec<u8>>)
    ensures
        ({
            let f = feed(old(state).start(), chunk@);
            &&& r@.map_values(|l: Vec<u8>| l@) == f.out
            &&& final(state).line@ == f.line
            &&& final(state).prev_cr == f.prev_cr
        }),
{
    let ghost f0 = state.start();
    let mut out: Vec<Vec<u8>> = Vec::new();
    let mut i: usize = 0;
    while i < chunk.len()
        invariant
            i <= chunk.len(),
            f0 == old(state).start(),
            ({
                let f = feed(f0, chunk@.take(i as int));
                &&& out@.map_values(|l: Vec<u8>| l@) == f.out
                &&& state.line@ == f.line
                &&& state.prev_cr == f.prev_cr
            }),
        decreases chunk.len() - i,
    {
        let b = chunk[i];
        let ghost before = out@;
        assert(chunk@.take(i + 1).drop_last() =~= chunk@.take(i as int));
        assert(chunk@.take(i + 1).last() == b);
        if b == 10 {
            if state.prev_cr {
                state.prev_cr = false;
            } else {
                let mut l: Vec<u8> = Vec::new();
                std::mem::swap(&mut l, &mut state.line);
                out.push(l);
            }
        } else if b == 13 {
            if state.line.len() > 0 {
                let mut l: Vec<u8> = Vec::new();
                std::mem::swap(&mut l, &mut state.line);
                out.push(l);
            }
            state.prev_cr = true;
        } else {
            state.line.push(b);
            state.prev_cr = false;
        }
        assert(out@.map_values(|l: Vec<u8>| l@) =~= feed(f0, chunk@.take(i + 1)).out);
        i += 1;
    }
    assert(chunk@.take(chunk.len() as int) =~= chunk@);
    out
}

/// Whether a control sequence ending in `final_byte` moves the cursor,
/// erases or scrolls, and so ends a visible row.
pub open spec fn line_boundary(final_byte: u8) -> bool {
    (0x41 <= final_byte <= 0x48) || final_byte == 0x4a || final_byte == 0x4b || final_byte == 0x53
        || final_byte == 0x54 || final_byte == 0x64 || final_byte == 0x66
}

pub fn is_line_boundary_csi(final_byte: u8) -> (r: bool)
    ensures
        r == line_boundary(final_byte),
{
    (0x41 <= final_byte && final_byte <= 0x48) || final_byte == 0x4a || final_byte == 0x4b
        || final_byte == 0x53 || final_byte == 0x54 || final_byte == 0x64 || final_byte == 0x66
}

/// The index of the final byte (`0x40..=0x7e`) of a control sequence whose
/// parameters start at `j`, or the length when the sequence is cut off.
pub open spec fn csi_final(s: Seq<u8>, j: int) -> int
    decreases s.len() - j,
{
    if j < 0 || j >= s.len() {
        s.len() as int
    } else if 0x40 <= s[j] <= 0x7e {
        j
    } else {
        csi_final(s, j + 1)
    }
}

/// Whether a control sequence (`ESC [`) starts at `i`.
pub open spec fn csi_at(s: Seq<u8>, i: int) -> bool {
    0 <= i && i + 1 < s.len() && s[i] == esc() && s[i + 1] == 0x5b
}

/// The pieces of `s` between row-ending control sequences, scanning from
/// `i` with the current piece starting at `start`.
pub open spec fn split_from(s: Seq<u8>, i: int, start: int) -> Seq<Seq<u8>>
    decreases s.len() - i,
{
    if i < 0 || i >= s.len() {
        seq![s.subrange(start, s.len() as int)]
    } else if csi_at(s, i) {
        let j = csi_final(s, i + 2);
        proof {
            lemma_csi_final(s, i + 2);
        }
        if j >= s.len() {
            seq![s.subrange(start, s.len() as int)]
        } else if line_boundary(s[j]) {
            seq![s.subrange(start, i)] + split_from(s, j + 1, j + 1)
        } else {
            split_from(s, j + 1, start)
        }
    } else {
        split_from(s, i + 1, start)
    }
}

/// The end of an operating-system command (`ESC ]`) whose text starts at
/// `j`: the index after its BEL or `ESC \`, or `None` when it is cut off.
pub open spec fn osc_end(s: Seq<u8>, j: int) -> Option<int>
    decreases s.len() - j,
{
    if j < 0 || j >= s.len() {
        None
    } else if s[j] == 7 {
        Some(j + 1)
    } else if s[j] == esc() && j + 1 < s.len() && s[j + 1] == 0x5c {
        Some(j + 2)
    } else {
        osc_end(s, j + 1)
    }
}

/// `s` from `i` on without its escapes, colour sequences (`ESC [ .. m`) kept.
pub open spec fn strip_from(s: Seq<u8>, i: int) -> Seq<u8>
    decreases s.len() - i,
{
    if i < 0 || i >= s.len() {
        Seq::empty()
    } else if s[i] == esc() && i + 1 < s.len() {
        if s[i + 1] == 0x5b {
            let j = csi_final(s, i + 2);
            proof {
                lemma_csi_final(s, i + 2);
            }
            if j >= s.len() {
                Seq::empty()
            } else if s[j] == 0x6d {
                s.subrange(i, j + 1) + strip_from(s, j + 1)
            } else {
                strip_from(s, j + 1)
            }
        } else if s[i + 1] == 0x5d {
            proof {
                lemma_osc_end(s, i + 2);
            }
            match osc_end(s, i + 2) {
                Some(n) => strip_from(s, n),
                None => Seq::empty(),
            }
        } else {
            strip_from(s, i + 2)
        }
    } else {
        seq![s[i]] + strip_from(s, i + 1)
    }
}

/// `u8::is_ascii_whitespace`.
pub open spec fn ascii_ws(b: u8) -> bool {
    b == 0x20 || b == 0x09 || b == 0x0a || b == 0x0c || b == 0x0d
}

/// Index of the first byte at or after `i` that is not ASCII whitespace.
pub open spec fn ws_lead(s: Seq<u8>, i: int) -> int
    decreases s.len() - i,
{
    if 0 <= i < s.len() && ascii_ws(s[i]) {
        ws_lead(s, i + 1)
    } else {
        i
    }
}

/// One past the last byte before `j` that is not ASCII whitespace, or `lo`.
pub open spec fn ws_trail(s: Seq<u8>, lo: int, j: int) -> int
    decreases j - lo,
{
    if lo < j && j <= s.len() && ascii_ws(s[j - 1]) {
        ws_trail(s, lo, j - 1)
    } else {
        j
    }
}

/// `s` without ASCII whitespace at either end.
pub open spec fn trim_ascii(s: Seq<u8>) -> Seq<u8> {
    let a = ws_lead(s, 0);
    s.subrange(a, ws_trail(s, a, s.len() as int))
}

/// The line written for one piece of output: the prefix, the cleaned piece
/// and the line ending; nothing when the piece is only whitespace.
pub open spec fn segment_line(prefix: Seq<u8>, segment: Seq<u8>, crlf: bool) -> Option<Seq<u8>> {
    let body = trim_ascii(strip_from(segment, 0));
    if body.len() == 0 {
        None
    } else {
        Some(prefix + body + if crlf { seq![13u8, 10u8] } else { seq![10u8] })
    }
}

/// The lines written for each piece, in order, the empty ones left out.
pub open spec fn lines_of(prefix: Seq<u8>, segs: Seq<Seq<u8>>, crlf: bool) -> Seq<Seq<u8>>
    decreases segs.len(),
{
    if segs.len() == 0 {
        Seq::empty()
    } else {
        lines_of(prefix, segs.drop_last(), crlf) + match segment_line(prefix, segs.last(), crlf) {
            Some(l) => seq![l],
            None => Seq::empty(),
        }
    }
}

pub proof fn lemma_csi_final(s: Seq<u8>, j: int)
    requires
        0 <= j,
    ensures
        j <= s.len() ==> j <= csi_final(s, j) <= s.len(),
        csi_final(s, j) < s.len() ==> 0x40 <= s[csi_final(s, j)] <= 0x7e,
    decreases s.len() - j,
{
    if j < s.len() && !(0x40 <= s[j] <= 0x7e) {
        lemma_csi_final(s, j + 1);
    }
}

pub proof fn lemma_osc_end(s: Seq<u8>, j: int)
    requires
        0 <= j,
    ensures
        osc_end(s, j) matches Some(n) ==> j < n <= s.len(),
    decreases s.len() - j,
{
    if j < s.len() && s[j] != 7 && !(s[j] == esc() && j + 1 < s.len() && s[j + 1] == 0x5c) {
        lemma_osc_end(s, j + 1);
    }
}

fn csi_final_x(s: &[u8], j0: usize) -> (r: usize)
    requires
        j0 <= s.len(),
    ensures
        r == csi_final(s@, j0 as int),
{
    let mut j = j0;
    while j < s.len() && !(0x40 <= s[j] && s[j] <= 0x7e)
        invariant
            j0 <= j <= s.len(),
            csi_final(s@, j0 as int) == csi_final(s@, j as int),
        decreases s.len() - j,
    {
        j += 1;
    }
    j
}

fn osc_end_x(s: &[u8], j0: usize) -> (r: Option<usize>)
    requires
        j0 <= s.len(),
    ensures
        match r {
            Some(n) => osc_end(s@, j0 as int) == Some(n as int),
            None => osc_end(s@, j0 as int) is None,
        },
{
    let mut j = j0;
    while j < s.len()
        invariant
            j0 <= j <= s.len(),
            osc_end(s@, j0 as int) == osc_end(s@, j as int),
        decreases s.len() - j,
    {
        if s[j] == 7 {
            return Some(j + 1);
        }
        if s[j] == 0x1b && j + 1 < s.len() && s[j + 1] == 0x5c {
            return Some(j + 2);
        }
        j += 1;
    }
    None
}

fn copy_range(s: &[u8], lo: usize, hi: usize, out: &mut Vec<u8>)
    requires
        lo <= hi <= s.len(),
    ensures
        final(out)@ == old(out)@ + s@.subrange(lo as int, hi as int),
{
    let mut k = lo;
    while k < hi
        invariant
            lo <= k <= hi <= s.len(),
            out@ == old(out)@ + s@.subrange(lo as int, k as int),
        decreases hi - k,
    {
        out.push(s[k]);
        k += 1;
        assert(out@ =~= old(out)@ + s@.subrange(lo as int, k as int));
    }
}

/// Cuts output at every control sequence that moves the cursor, erases or
/// scrolls, so that each visible row of a redrawn frame becomes its own
/// piece. Colour sequences stay inside their piece.
pub fn split_at_cursor_escapes(input: &[u8]) -> (r: Vec<Vec<u8>>)
    ensures
        r@.map_values(|v: Vec<u8>| v@) == split_from(input@, 0, 0),
{
    let ghost s = input@;
    let mut segs: Vec<Vec<u8>> = Vec::new();
    let mut start: usize = 0;
    let mut i: usize = 0;
    while i < input.len()
        invariant
            s == input@,
            start <= i <= input.len(),
            split_from(s, 0, 0) == segs@.map_values(|v: Vec<u8>| v@) + split_from(s, i as int, start as int),
        decreases input.len() - i,
    {
        if input[i] == 0x1b && i + 1 < input.len() && input[i + 1] == 0x5b {
            proof {
                lemma_csi_final(s, i + 2);
            }
            let j = csi_final_x(input, i + 2);
            if j >= input.len() {
                i = input.len();
                proof {
                    assert(split_from(s, i as int, start as int) == seq![s.subrange(start as int, s.len() as int)]);
                }
            } else if is_line_boundary_csi(input[j]) {
                let mut seg: Vec<u8> = Vec::new();
                copy_range(input, start, i, &mut seg);
                let ghost before = segs@;
                segs.push(seg);
                proof {
                    assert(segs@.map_values(|v: Vec<u8>| v@) =~= before.map_values(|v: Vec<u8>| v@).push(s.subrange(start as int, i as int)));
                    assert(split_from(s, 0, 0) =~= segs@.map_values(|v: Vec<u8>| v@) + split_from(s, j + 1, j + 1));
                }
                start = j + 1;
                i = j + 1;
            } else {
                i = j + 1;
            }
        } else {
            i += 1;
        }
    }
    let mut last: Vec<u8> = Vec::new();
    copy_range(input, start, input.len(), &mut last);
    let ghost before = segs@;
    segs.push(last);
    proof {
        assert(segs@.map_values(|v: Vec<u8>| v@) =~= before.map_values(|v: Vec<u8>| v@) + seq![s.subrange(start as int, s.len() as int)]);
    }
    segs
}

/// Drops the escapes of `input` other than colour sequences: cursor
/// movement and erasing (`ESC [ .. X` with `X` not `m`), operating-system
/// commands (`ESC ] .. BEL` or `ESC ] .. ESC \`) and two-byte escapes.
pub fn strip_cursor_escapes(input: &[u8]) -> (r: Vec<u8>)
    ensures
        r@ == strip_from(input@, 0),
{
    let ghost s = input@;
    let mut out: Vec<u8> = Vec::new();
    let mut i: usize = 0;
    while i < input.len()
        invariant
            s == input@,
            i <= input.len(),
            strip_from(s, 0) == out@ + strip_from(s, i as int),
        decreases input.len() - i,
    {
        let b = input[i];
        if b == 0x1b && i + 1 < input.len() {
            if input[i + 1] == 0x5b {
                proof {
                    lemma_csi_final(s, i + 2);
                }
                let j = csi_final_x(input, i + 2);
                if j >= input.len() {
                    proof {
                        assert(out@ + Seq::<u8>::empty() =~= out@);
                    }
                    i = input.len();
                } else {
                    if input[j] == 0x6d {
                        let ghost before = out@;
                        copy_range(input, i, j + 1, &mut out);
                        assert(before + (s.subrange(i as int, j + 1) + strip_from(s, j + 1)) =~= out@ + strip_from(s, j + 1));
                    }
                    i = j + 1;
                }
            } else if input[i + 1] == 0x5d {
                proof {
                    lemma_osc_end(s, i + 2);
                }
                match osc_end_x(input, i + 2) {
                    Some(n) => {
                        i = n;
                    },
                    None => {
                        proof {
                            assert(out@ + Seq::<u8>::empty() =~= out@);
                        }
                        i = input.len();
                    },
                }
            } else {
                i = i + 2;
            }
        } else {
            let ghost before = out@;
            out.push(b);
            assert(before + (seq![b] + strip_from(s, i + 1)) =~= out@ + strip_from(s, i + 1));
            i += 1;
        }
    }
    assert(out@ + Seq::<u8>::empty() =~= out@);
    out
}

pub fn is_ascii_ws(b: u8) -> (r: bool)
    ensures
        r == ascii_ws(b),
{
    b == 0x20 || b == 0x09 || b == 0x0a || b == 0x0c || b == 0x0d
}

/// `s` without ASCII whitespace at either end.
pub fn trim_ascii_whitespace(s: &[u8]) -> (r: Vec<u8>)
    ensures
        r@ == trim_ascii(s@),
{
    let mut a: usize = 0;
    while a < s.len() && is_ascii_ws(s[a])
        invariant
            a <= s.len(),
            ws_lead(s@, 0) == ws_lead(s@, a as int),
        decreases s.len() - a,
    {
        a += 1;
    }
    let mut e: usize = s.len();
    while a < e && is_ascii_ws(s[e - 1])
        invariant
            a <= e <= s.len(),
            ws_lead(s@, 0) == a,
            ws_trail(s@, a as int, s.len() as int) == ws_trail(s@, a as int, e as int),
        decreases e - a,
    {
        e -= 1;
    }
    let mut out: Vec<u8> = Vec::new();
    copy_range(s, a, e, &mut out);
    assert(out@ =~= s@.subrange(a as int, e as int));
    out
}

/// The line written for one piece of output, if it holds anything but
/// whitespace once its escapes are dropped.
pub fn segment_line_x(prefix: &Vec<u8>, segment: &[u8], crlf: bool) -> (r: Option<Vec<u8>>)
    ensures
        match r {
            Some(l) => segment_line(prefix@, segment@, crlf) == Some(l@),
            None => segment_line(prefix@, segment@, crlf) is None,
        },
{
    let cleaned = strip_cursor_escapes(segment);
    let body = trim_ascii_whitespace(cleaned.as_slice());
    if body.len() == 0 {
        return None;
    }
    let mut out: Vec<u8> = Vec::new();
    copy_range(prefix.as_slice(), 0, prefix.len(), &mut out);
    copy_range(body.as_slice(), 0, body.len(), &mut out);
    if crlf {
        out.push(13);
    }
    out.push(10);
    proof {
        assert(prefix@.subrange(0, prefix.len() as int) =~= prefix@);
        assert(body@.subrange(0, body.len() as int) =~= body@);
        if crlf {
            assert(out@ =~= prefix@ + body@ + seq![13u8, 10u8]);
        } else {
            assert(out@ =~= prefix@ + body@ + seq![10u8]);
        }
    }
    Some(out)
}

/// The prefixed lines written for one line of a command's output: one per
/// visible row, cleaned of escapes, with the whitespace-only rows left out.
/// `crlf` selects `\r\n` line endings (Windows consoles) over `\n`.
pub fn render_line(prefix: &str, content: &[u8], crlf: bool) -> (r: Vec<Vec<u8>>)
    ensures
        r@.map_values(|v: Vec<u8>| v@) == lines_of(vstd::utf8::encode_utf8(prefix@), split_from(content@, 0, 0), crlf),
{
    let p = utf8_bytes(&chars_of(prefix));
    let segs = split_at_cursor_escapes(content);
    let ghost sv = segs@.map_values(|v: Vec<u8>| v@);
    let mut out: Vec<Vec<u8>> = Vec::new();
    let mut k: usize = 0;
    while k < segs.len()
        invariant
            k <= segs.len(),
            p@ == vstd::utf8::encode_utf8(prefix@),
            sv == segs@.map_values(|v: Vec<u8>| v@),
            out@.map_values(|v: Vec<u8>| v@) == lines_of(p@, sv.take(k as int), crlf),
        decreases segs.len() - k,
    {
        assert(sv.take(k + 1).drop_last() =~= sv.take(k as int));
        assert(sv.take(k + 1).last() == segs@[k as int]@);
        let ghost before = out@;
        match segment_line_x(&p, segs[k].as_slice(), crlf) {
            Some(l) => {
                out.push(l);
                assert(out@.map_values(|v: Vec<u8>| v@) =~= before.map_values(|v: Vec<u8>| v@) + seq![l@]);
            },
            None => {
                assert(out@.map_values(|v: Vec<u8>| v@) =~= before.map_values(|v: Vec<u8>| v@) + Seq::<Seq<u8>>::empty());
            },
        }
        k += 1;
    }
    assert(sv.take(segs.len() as int) =~= sv);
    out
}

/// The colour of the `n`-th entry of the palette that prefixes cycle
/// through: cyan, yellow, magenta, green, blue, red.
pub open spec fn palette(n: int) -> Seq<char> {
    if n == 0 {
        "\x1b[36m"@
    } else if n == 1 {
        "\x1b[33m"@
    } else if n == 2 {
        "\x1b[35m"@
    } else if n == 3 {
        "\x1b[32m"@
    } else if n == 4 {
        "\x1b[34m"@
    } else {
        "\x1b[31m"@
    }
}

/// The prefix of a parallel command's lines.
pub open spec fn parallel_prefix(step: nat, label: Seq<char>, no_color: bool) -> Seq<char> {
    if no_color {
        "["@ + label + "] "@
    } else {
        let n = if step == 0 { 0int } else { (step - 1) % 6 };
        palette(n) + "["@ + label + "]"@ + "\x1b[0m"@ + " "@
    }
}

fn palette_x(n: usize) -> (r: &'static str)
    requires
        n < 6,
    ensures
        r@ == palette(n as int),
{
    if n == 0 {
        "\x1b[36m"
    } else if n == 1 {
        "\x1b[33m"
    } else if n == 2 {
        "\x1b[35m"
    } else if n == 3 {
        "\x1b[32m"
    } else if n == 4 {
        "\x1b[34m"
    } else {
        "\x1b[31m"
    }
}

/// The bracketed prefix of a parallel command's lines. `step` picks the
/// colour so that neighbouring commands differ; `no_color` (the `NO_COLOR`
/// convention) asks for the plain form.
pub fn format_parallel_prefix(step: usize, label: &str, no_color: bool) -> (r: String)
    ensures
        r@ == parallel_prefix(step as nat, label@, no_color),
{
    let mut out: Vec<char> = Vec::new();
    if no_color {
        push_str(&mut out, "[");
        push_str(&mut out, label);
        push_str(&mut out, "] ");
        assert(out@ =~= "["@ + label@ + "] "@);
    } else {
        let n: usize = if step == 0 { 0 } else { (step - 1) % 6 };
        push_str(&mut out, palette_x(n));
        push_str(&mut out, "[");
        push_str(&mut out, label);
        push_str(&mut out, "]");
        push_str(&mut out, "\x1b[0m");
        push_str(&mut out, " ");
        assert(out@ =~= palette(n as int) + "["@ + label@ + "]"@ + "\x1b[0m"@ + " "@);
    }
    string_of(&out)
}

/// The first line of `s`, from `i` on, that holds more than whitespace,
/// trimmed; empty when there is none.
pub open spec fn first_content_line(s: Seq<char>, i: int) -> Seq<char>
    decreases s.len() - i,
{
    if i < 0 || i >= s.len() {
        Seq::empty()
    } else {
        let e = line_end(s, i);
        let t = trim(s.subrange(i, e));
        if t.len() > 0 || e >= s.len() || e < i {
            t
        } else {
            first_content_line(s, e + 1)
        }
    }
}

/// The bracket label of a shell command: its first line that holds more
/// than whitespace, trimmed, cut to twelve characters.
pub open spec fn prefix_label(s: Seq<char>) -> Seq<char> {
    let t = first_content_line(s, 0);
    if t.len() <= 12 {
        t
    } else {
        t.take(12)
    }
}

fn first_content_line_x(s: &Vec<char>) -> (r: Vec<char>)
    ensures
        r@ == first_content_line(s@, 0),
{
    let mut i: usize = 0;
    while i < s.len()
        invariant
            i <= s.len(),
            first_content_line(s@, 0) == first_content_line(s@, i as int),
        decreases s.len() - i,
    {
        proof {
            crate::envfile::lemma_line_end(s@, i as int);
        }
        let mut e = i;
        while e < s.len() && s[e] != '\n'
            invariant
                i <= e <= s.len(),
                line_end(s@, i as int) == line_end(s@, e as int),
            decreases s.len() - e,
        {
            e += 1;
        }
        let piece = crate::text::slice_of(s, i, e);
        let t = crate::text::trim_exec(&piece);
        if t.len() > 0 || e >= s.len() {
            return t;
        }
        i = e + 1;
    }
    Vec::new()
}

/// The bracket label of a shell command: its first line that holds more
/// than whitespace, trimmed, cut to twelve characters.
pub fn shell_prefix_label(substituted: &str) -> (r: String)
    ensures
        r@ == prefix_label(substituted@),
{
    let s = chars_of(substituted);
    let found = first_content_line_x(&s);
    let mut out: Vec<char> = Vec::new();
    let mut k: usize = 0;
    while k < found.len() && k < 12
        invariant
            k <= found.len(),
            k <= 12,
            out@ == found@.take(k as int),
        decreases found.len() - k,
    {
        out.push(found[k]);
        k += 1;
        assert(out@ =~= found@.take(k as int));
    }
    proof {
        if found@.len() <= 12 {
            assert(found@.take(k as int) =~= found@);
        }
    }
    string_of(&out)
}

} // verus!
