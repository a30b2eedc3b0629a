//! What the interactive prompt shows and how it reads the user's answers;
//! the reading and writing of the terminal itself is the caller's.

use vstd::prelude::*;
use crate::text::{trim, push_str, push_all, string_of, chars_of, trim_exec, eq_lit};
use crate::outside::{lower, to_lower_text};

verus! {

/// What follows the key in a value prompt: the default in brackets,
/// `[empty]` for an empty default, or `(required)`.
pub open spec fn value_suffix(default: Option<Seq<char>>) -> Seq<char> {
    match default {
        Some(d) => if d.len() == 0 {
            " \x1b[2m[empty]\x1b[0m: "@
        } else {
            " \x1b[2m["@ + d + "]\x1b[0m: "@
        },
        None => " \x1b[2m(required)\x1b[0m: "@,
    }
}

/// The prompt for a value.
pub open spec fn value_prompt(key: Seq<char>, default: Option<Seq<char>>) -> Seq<char> {
    "\x1b[1m\x1b[36m[runfile]\x1b[0m enter \x1b[1m"@ + key + value_suffix(default)
}

/// The prompt for a flag.
pub open spec fn flag_prompt(key: Seq<char>) -> Seq<char> {
    "\x1b[1m\x1b[36m[runfile]\x1b[0m pass \x1b[1m"@ + key + "\x1b[0m? \x1b[2m(y/N)\x1b[0m: "@
}

pub fn value_prompt_text(key: &str, default: Option<&str>) -> (r: String)
    ensures
        r@ == value_prompt(key@, match default { Some(d) => Some(d@), None => None }),
{
    let mut m: Vec<char> = Vec::new();
    push_str(&mut m, "\x1b[1m\x1b[36m[runfile]\x1b[0m enter \x1b[1m");
    push_str(&mut m, key);
    match default {
        Some(d) => {
            let dc = chars_of(d);
            if dc.len() == 0 {
                push_str(&mut m, " \x1b[2m[empty]\x1b[0m: ");
            } else {
                push_str(&mut m, " \x1b[2m[");
                push_all(&mut m, &dc);
                push_str(&mut m, "]\x1b[0m: ");
            }
        },
        None => push_str(&mut m, " \x1b[2m(required)\x1b[0m: "),
    }
    string_of(&m)
}

pub fn flag_prompt_text(key: &str) -> (r: String)
    ensures
        r@ == flag_prompt(key@),
{
    let mut m: Vec<char> = Vec::new();
    push_str(&mut m, "\x1b[1m\x1b[36m[runfile]\x1b[0m pass \x1b[1m");
    push_str(&mut m, key);
    push_str(&mut m, "\x1b[0m? \x1b[2m(y/N)\x1b[0m: ");
    string_of(&m)
}

/// A line without the line breaks (`\n`, `\r`) at its end.
pub open spec fn strip_breaks(s: Seq<char>) -> Seq<char>
    decreases s.len(),
{
    if s.len() > 0 && (s.last() == '\n' || s.last() == '\r') {
        strip_breaks(s.drop_last())
    } else {
        s
    }
}

/// The answer to a value prompt: the line without its line breaks, or
/// `None` when that is empty.
pub fn value_answer(line: &str) -> (r: Option<String>)
    ensures
        match r {
            Some(v) => v@ == strip_breaks(line@) && v@.len() > 0,
            None => strip_breaks(line@).len() == 0,
        },
{
    let c = chars_of(line);
    let mut n = c.len();
    assert(c@.take(n as int) =~= c@);
    while n > 0 && (c[n - 1] == '\n' || c[n - 1] == '\r')
        invariant
            n <= c.len(),
            c@ == line@,
            strip_breaks(line@) == strip_breaks(c@.take(n as int)),
        decreases n,
    {
        assert(c@.take(n as int).drop_last() =~= c@.take(n - 1));
        n -= 1;
    }
    proof {
        assert(strip_breaks(c@.take(n as int)) == c@.take(n as int));
    }
    if n == 0 {
        return None;
    }
    let v = crate::text::slice_of(&c, 0, n);
    assert(v@ =~= c@.take(n as int));
    Some(string_of(&v))
}

/// Whether the answer to a flag prompt sets the flag: `y`, `yes`, `true`
/// or `1`, in any case, around whitespace.
pub open spec fn flag_answer_set(line: Seq<char>) -> bool {
    let a = lower(trim(line));
    a == "y"@ || a == "yes"@ || a == "true"@ || a == "1"@
}

pub fn flag_answer(line: &str) -> (r: bool)
    ensures
        r == flag_answer_set(line@),
{
    let t = trim_exec(&chars_of(line));
    let ts = string_of(&t);
    let l = to_lower_text(ts.as_str());
    let a = chars_of(l.as_str());
    eq_lit(&a, "y") || eq_lit(&a, "yes") || eq_lit(&a, "true") || eq_lit(&a, "1")
}

} // verus!
