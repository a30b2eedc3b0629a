//! Which function a call names, and what it returns for its evaluated
//! arguments: a value or an error, a question for the host (functions that
//! touch the file system, the clock, a shell, or compute in floating point),
//! or no such function.

use vstd::prelude::*;
use crate::text::{dec, trim, trim_start, trim_end, starts_with, ends_with};
use crate::errors::ErrV;
use crate::funcs::{bool_text, contains_seq, capitalize_from, escape_from, parse_count, repeat_seq,
    replace_all, split_parts, last_part, join_seq, quote_for_shell, quoted_options, substring,
    url_encode_from, url_decode_from};
use crate::outside::{upper, lower, char_upper, b64_encode, b64_decoding, sha256_digest, md5_digest,
    hex_text, regex_rejection, regex_replaced, regex_found, regex_first, regex_every};
use vstd::utf8::{encode_utf8, valid_utf8, decode_utf8};
use crate::errors::SubstitutionError;
use crate::json::{json_get_result, json_set_result, json_get, json_set};
use crate::values::{texts_view, text};
use crate::text::{chars_of, eq_lit, push_all, push_str, dec_exec, trim_exec, trim_start_exec, trim_end_exec,
    string_of, occurs_at_exec};
use crate::funcs::{bool_text_x, contains_x, replace_all_x, split_parts_x, last_part_x, join_from_x,
    escape_x, capitalize_x, parse_count_x, repeat_x, quote_for_shell_x, utf8_bytes, url_encode_x,
    url_decode_x, substring_x, quoted_options_x, copy_all};
use crate::outside::{to_upper_text, to_lower_text, base64_encode, base64_decode, utf8_text, sha256_of,
    md5_of, hex_encode, compile_pattern, regex_replace_all, regex_is_match, regex_captures,
    regex_captures_all, opt_text};

verus! {

pub enum FnOut {
    Value(Result<Seq<char>, ErrV>),
    Host,
    Unknown,
}

/// Largest output of `repeat`, in bytes.
pub const MAX_REPEAT_BYTES: usize = 8388608;

pub open spec fn arity(name: Seq<char>, expected: Seq<char>, got: nat) -> FnOut {
    FnOut::Value(Err(ErrV::FunctionArity(name, expected, got)))
}

pub open spec fn ok(v: Seq<char>) -> FnOut {
    FnOut::Value(Ok(v))
}

pub open spec fn fail(e: ErrV) -> FnOut {
    FnOut::Value(Err(e))
}

/// The error for an argument that is not a count.
pub open spec fn bad_count(name: Seq<char>, arg: Seq<char>, value: Seq<char>) -> ErrV {
    ErrV::InvalidNumber(name, "argument `"@ + arg + "` got `"@ + value + "`"@)
}

/// The error for a pattern that does not compile.
pub open spec fn bad_regex(name: Seq<char>, pattern: Seq<char>, msg: Seq<char>) -> ErrV {
    ErrV::InvalidRegex(name, "`"@ + pattern + "`: "@ + msg)
}

/// Bytes decoded as UTF-8 text.
pub open spec fn utf8_result(b: Seq<u8>) -> Result<Seq<char>, ErrV> {
    if valid_utf8(b) {
        Ok(decode_utf8(b))
    } else {
        Err(ErrV::NonUtf8Decoded)
    }
}

/// Group `g` of a match, or nothing.
pub open spec fn group_text(gs: Seq<Option<Seq<char>>>, g: nat) -> Seq<char> {
    if g < gs.len() && gs[g as int] is Some {
        gs[g as int]->0
    } else {
        Seq::empty()
    }
}

/// The functions computed outside the evaluator: by the host, or (for
/// paths) by the platform's path rules.
pub open spec fn is_host_fn(name: Seq<char>) -> bool {
    ||| name == "read_file"@
    ||| name == "write_file"@
    ||| name == "file_exists"@
    ||| name == "capture"@
    ||| name == "uuid"@
    ||| name == "temp_file"@
    ||| name == "temp_dir"@
    ||| name == "error"@
    ||| name == "set_cwd"@
    ||| name == "now"@
    ||| name == "add"@
    ||| name == "subtract"@
    ||| name == "multiply"@
    ||| name == "divide"@
    ||| name == "modulo"@
    ||| name == "power"@
    ||| name == "min"@
    ||| name == "max"@
    ||| name == "abs"@
    ||| name == "round"@
    ||| name == "floor"@
    ||| name == "ceil"@
    ||| name == "less_than"@
    ||| name == "less_than_or_equal"@
    ||| name == "greater_than"@
    ||| name == "greater_than_or_equal"@
    ||| name == "is_number"@
    ||| name == "basename"@
    ||| name == "dirname"@
    ||| name == "extname"@
    ||| name == "stem"@
    ||| name == "join_path"@
}

/// What a host function needs before the host is asked: its arity, and the
/// placeholder that stands for it on a dry run or in a redacted log.
pub open spec fn host_guard(redact: bool, dry_run: bool, name: Seq<char>, v: Seq<Seq<char>>) -> FnOut {
    let n = v.len();
    if name == "read_file"@ {
        if n != 1 { arity(name, dec(1), n) }
        else if redact { ok("<read_file: '"@ + v[0] + "'>"@) }
        else { FnOut::Host }
    } else if name == "write_file"@ {
        if n != 2 { arity(name, dec(2), n) }
        else if dry_run || redact { ok(Seq::empty()) }
        else { FnOut::Host }
    } else if name == "file_exists"@ || name == "now"@ {
        if n != 1 { arity(name, dec(1), n) } else { FnOut::Host }
    } else if name == "capture"@ {
        if n != 1 { arity(name, dec(1), n) }
        else if dry_run || redact { ok("<capture: '"@ + v[0] + "'>"@) }
        else { FnOut::Host }
    } else if name == "uuid"@ {
        if n != 0 { arity(name, dec(0), n) }
        else if dry_run { ok("<uuid>"@) }
        else { FnOut::Host }
    } else if name == "temp_file"@ {
        if n > 2 { arity(name, "0, 1, or 2"@, n) }
        else if dry_run || redact { ok("<temp_file>"@) }
        else { FnOut::Host }
    } else if name == "temp_dir"@ {
        if n != 0 { arity(name, dec(0), n) }
        else if dry_run || redact { ok("<temp_dir>"@) }
        else { FnOut::Host }
    } else if name == "error"@ {
        if n != 1 { arity(name, dec(1), n) }
        else if dry_run { ok("<error: '"@ + v[0] + "'>"@) }
        else if redact { fail(ErrV::UserError(v[0])) }
        else { FnOut::Host }
    } else if name == "set_cwd"@ {
        if n != 1 { arity(name, dec(1), n) }
        else if redact { ok(Seq::empty()) }
        else { FnOut::Host }
    } else if is_path_fn(name) {
        if name == "join_path"@ {
            if n == 0 { arity(name, "1 or more"@, 0) } else { FnOut::Host }
        } else if n != 1 {
            arity(name, dec(1), n)
        } else {
            FnOut::Host
        }
    } else {
        FnOut::Host
    }
}

/// The functions on paths, which the platform's path rules decide.
pub open spec fn is_path_fn(name: Seq<char>) -> bool {
    name == "basename"@ || name == "dirname"@ || name == "extname"@ || name == "stem"@ || name == "join_path"@
}

pub fn is_path_fn_x(name: &Vec<char>) -> (r: bool)
    ensures
        r == is_path_fn(name@),
{
    eq_lit(name, "basename") || eq_lit(name, "dirname") || eq_lit(name, "extname") || eq_lit(name, "stem") || eq_lit(name, "join_path")
}

/// Whether `name` is one of the functions on text.
pub open spec fn in_text_fn(name: Seq<char>) -> bool {
    name == "to_upper"@ || name == "to_lower"@ || name == "base64_encode"@ || name == "base64_decode"@ || name == "concat"@ || name == "join"@ || name == "replace_all"@ || name == "remove_all"@ || name == "starts_with"@ || name == "ends_with"@ || name == "contains"@ || name == "capitalize"@ || name == "trim"@ || name == "trim_start"@ || name == "trim_end"@ || name == "length"@ || name == "escape"@
}

/// Functions on text.
pub open spec fn text_fn(name: Seq<char>, v: Seq<Seq<char>>) -> FnOut {
    let n = v.len();
    if name == "to_upper"@ {
        if n != 1 { arity(name, dec(1), n) } else { ok(upper(v[0])) }
    } else if name == "to_lower"@ {
        if n != 1 { arity(name, dec(1), n) } else { ok(lower(v[0])) }
    } else if name == "base64_encode"@ {
        if n != 1 { arity(name, dec(1), n) } else { ok(b64_encode(encode_utf8(v[0]))) }
    } else if name == "base64_decode"@ {
        if n != 1 {
            arity(name, dec(1), n)
        } else {
            match b64_decoding(v[0]) {
                Err(m) => fail(ErrV::InvalidBase64(m)),
                Ok(b) => FnOut::Value(utf8_result(b)),
            }
        }
    } else if name == "concat"@ {
        if n == 0 { arity(name, "1 or more"@, 0) } else { ok(join_seq(v, Seq::empty())) }
    } else if name == "join"@ {
        if n == 0 { arity(name, "1 or more (separator, then 0+ items)"@, 0) } else { ok(join_seq(v.skip(1), v[0])) }
    } else if name == "replace_all"@ {
        if n != 3 { arity(name, dec(3), n) } else { ok(replace_all(v[0], v[1], v[2])) }
    } else if name == "remove_all"@ {
        if n != 2 { arity(name, dec(2), n) } else { ok(replace_all(v[0], v[1], Seq::empty())) }
    } else if name == "starts_with"@ {
        if n != 2 { arity(name, dec(2), n) } else { ok(bool_text(starts_with(v[0], v[1]))) }
    } else if name == "ends_with"@ {
        if n != 2 { arity(name, dec(2), n) } else { ok(bool_text(v[1].len() <= v[0].len() && ends_with(v[0], v[1]))) }
    } else if name == "contains"@ {
        if n != 2 { arity(name, dec(2), n) } else { ok(bool_text(contains_seq(v[0], v[1]))) }
    } else if name == "capitalize"@ {
        if n != 1 { arity(name, dec(1), n) } else { ok(capitalize_from(v[0], 0, true)) }
    } else if name == "trim"@ {
        if n != 1 { arity(name, dec(1), n) } else { ok(trim(v[0])) }
    } else if name == "trim_start"@ {
        if n != 1 { arity(name, dec(1), n) } else { ok(trim_start(v[0])) }
    } else if name == "trim_end"@ {
        if n != 1 { arity(name, dec(1), n) } else { ok(trim_end(v[0])) }
    } else if name == "length"@ {
        if n != 1 { arity(name, dec(1), n) } else { ok(dec(v[0].len())) }
    } else if name == "escape"@ {
        if n != 1 { arity(name, dec(1), n) } else { ok(escape_from(v[0], 0)) }
    } else {
        FnOut::Unknown
    }
}

/// Whether `name` is one of the functions that take a count or an index.
pub open spec fn in_count_fn(name: Seq<char>) -> bool {
    name == "repeat"@ || name == "nth"@ || name == "first"@ || name == "last"@ || name == "count_parts"@ || name == "substring"@
}

/// Functions that take a count or an index.
pub open spec fn count_fn(name: Seq<char>, v: Seq<Seq<char>>) -> FnOut {
    let n = v.len();
    if name == "repeat"@ {
        if n != 2 {
            arity(name, dec(2), n)
        } else {
            match parse_count(v[1]) {
                None => fail(bad_count(name, "count"@, v[1])),
                Some(k) => {
                    let bytes = encode_utf8(v[0]).len();
                    if bytes * k > MAX_REPEAT_BYTES {
                        fail(ErrV::InvalidNumber(
                            name,
                            "repeat would produce more than "@ + dec(MAX_REPEAT_BYTES as nat) + " bytes ("@ + dec(bytes) + " × "@ + dec(k) + ")"@,
                        ))
                    } else {
                        ok(repeat_seq(v[0], k))
                    }
                },
            }
        }
    } else if name == "nth"@ {
        if n != 3 {
            arity(name, dec(3), n)
        } else {
            match parse_count(v[2]) {
                None => fail(bad_count(name, "index"@, v[2])),
                Some(k) => {
                    let parts = split_parts(v[0], v[1]);
                    ok(if k < parts.len() { parts[k as int] } else { Seq::empty() })
                },
            }
        }
    } else if name == "first"@ {
        if n != 2 { arity(name, dec(2), n) } else { ok(split_parts(v[0], v[1])[0]) }
    } else if name == "last"@ {
        if n != 2 { arity(name, dec(2), n) } else { ok(last_part(v[0], v[1])) }
    } else if name == "count_parts"@ {
        if n != 2 { arity(name, dec(2), n) } else { ok(dec(split_parts(v[0], v[1]).len())) }
    } else if name == "substring"@ {
        if n != 2 && n != 3 {
            arity(name, "2 or 3"@, n)
        } else {
            match parse_count(v[1]) {
                None => fail(bad_count(name, "start"@, v[1])),
                Some(st) => if n == 3 {
                    match parse_count(v[2]) {
                        None => fail(bad_count(name, "length"@, v[2])),
                        Some(len) => ok(substring(v[0], st, Some(len))),
                    }
                } else {
                    ok(substring(v[0], st, None))
                },
            }
        }
    } else {
        FnOut::Unknown
    }
}

/// Whether `name` is one of the regular-expression functions.
pub open spec fn in_regex_fn(name: Seq<char>) -> bool {
    name == "regex_replace"@ || name == "regex_remove"@ || name == "regex_matches"@ || name == "regex_capture"@ || name == "regex_capture_all"@
}

/// Regular-expression functions.
pub open spec fn regex_fn(name: Seq<char>, v: Seq<Seq<char>>) -> FnOut {
    let n = v.len();
    if name == "regex_replace"@ || name == "regex_remove"@ || name == "regex_matches"@ {
        let want = if name == "regex_replace"@ { 3nat } else { 2nat };
        if n != want {
            arity(name, dec(want), n)
        } else {
            match regex_rejection(v[1]) {
                Some(m) => fail(bad_regex(name, v[1], m)),
                None => if name == "regex_replace"@ {
                    ok(regex_replaced(v[1], v[0], v[2]))
                } else if name == "regex_remove"@ {
                    ok(regex_replaced(v[1], v[0], Seq::empty()))
                } else {
                    ok(bool_text(regex_found(v[1], v[0])))
                },
            }
        }
    } else if name == "regex_capture"@ || name == "regex_capture_all"@ {
        let want = if name == "regex_capture"@ { 3nat } else { 4nat };
        if n != want {
            arity(name, dec(want), n)
        } else {
            match regex_rejection(v[1]) {
                Some(m) => fail(bad_regex(name, v[1], m)),
                None => match parse_count(v[2]) {
                    None => fail(bad_count(name, "group"@, v[2])),
                    Some(g) => if name == "regex_capture"@ {
                        match regex_first(v[1], v[0]) {
                            Some(gs) => ok(group_text(gs, g)),
                            None => ok(Seq::empty()),
                        }
                    } else {
                        ok(join_seq(regex_every(v[1], v[0]).map_values(|gs: Seq<Option<Seq<char>>>| group_text(gs, g)), v[3]))
                    },
                },
            }
        }
    } else {
        FnOut::Unknown
    }
}

/// Whether `name` is one of the digests, quoting, choice, percent-encoding
/// and JSON functions.
pub open spec fn in_misc_fn(name: Seq<char>) -> bool {
    name == "sha256"@ || name == "md5"@ || name == "shell_quote"@ || name == "one_of"@ || name == "url_encode"@ || name == "url_decode"@
        || name == "json_get"@ || name == "json_set"@
}

/// Digests, quoting, choice, percent-encoding and JSON.
pub open spec fn misc_fn(shell: Seq<char>, name: Seq<char>, v: Seq<Seq<char>>) -> FnOut {
    let n = v.len();
    if name == "sha256"@ {
        if n != 1 { arity(name, dec(1), n) } else { ok(hex_text(sha256_digest(encode_utf8(v[0])))) }
    } else if name == "md5"@ {
        if n != 1 { arity(name, dec(1), n) } else { ok(hex_text(md5_digest(encode_utf8(v[0])))) }
    } else if name == "shell_quote"@ {
        if n != 1 { arity(name, dec(1), n) } else { ok(quote_for_shell(v[0], shell)) }
    } else if name == "one_of"@ {
        if n < 2 {
            arity(name, "2 or more (value, then 1+ allowed options)"@, n)
        } else if v.skip(1).contains(v[0]) {
            ok(v[0])
        } else {
            fail(ErrV::OneOfNoMatch(v[0], quoted_options(v.skip(1))))
        }
    } else if name == "url_encode"@ {
        if n != 1 { arity(name, dec(1), n) } else { ok(url_encode_from(encode_utf8(v[0]), 0)) }
    } else if name == "url_decode"@ {
        if n != 1 {
            arity(name, dec(1), n)
        } else {
            match url_decode_from(encode_utf8(v[0]), 0) {
                None => fail(ErrV::InvalidUrlEncoding(v[0])),
                Some(b) => FnOut::Value(utf8_result(b)),
            }
        }
    } else if name == "json_get"@ {
        if n != 2 { arity(name, dec(2), n) } else { FnOut::Value(json_get_result(v[0], v[1])) }
    } else if name == "json_set"@ {
        if n != 3 { arity(name, dec(3), n) } else { FnOut::Value(json_set_result(v[0], v[1], v[2])) }
    } else {
        FnOut::Unknown
    }
}

/// What a call of `name` on the evaluated arguments `v` gives, under the
/// shell `shell`, in a redacted pass or not, on a dry run or not.
pub open spec fn fn_result(shell: Seq<char>, redact: bool, dry_run: bool, name: Seq<char>, v: Seq<Seq<char>>) -> FnOut {
    if in_text_fn(name) {
        text_fn(name, v)
    } else if in_count_fn(name) {
        count_fn(name, v)
    } else if in_regex_fn(name) {
        regex_fn(name, v)
    } else if in_misc_fn(name) {
        misc_fn(shell, name, v)
    } else if is_host_fn(name) {
        host_guard(redact, dry_run, name, v)
    } else {
        FnOut::Unknown
    }
}

// ── executable dispatch ─────────────────────────────────────────────────

pub enum FnOutX {
    Value(Result<Vec<char>, SubstitutionError>),
    Host,
    Unknown,
}

impl View for FnOutX {
    type V = FnOut;

    open spec fn view(&self) -> FnOut {
        match self {
            FnOutX::Value(Ok(v)) => FnOut::Value(Ok(v@)),
            FnOutX::Value(Err(e)) => FnOut::Value(Err(e@)),
            FnOutX::Host => FnOut::Host,
            FnOutX::Unknown => FnOut::Unknown,
        }
    }
}

fn arity_x(name: &Vec<char>, expected: Vec<char>, got: usize) -> (r: FnOutX)
    ensures
        r@ == arity(name@, expected@, got as nat),
{
    FnOutX::Value(Err(SubstitutionError::FunctionArity { name: text(name), expected: text(&expected), got }))
}

fn ok_x(v: Vec<char>) -> (r: FnOutX)
    ensures
        r@ == ok(v@),
{
    FnOutX::Value(Ok(v))
}

fn lit(s: &str) -> (r: Vec<char>)
    ensures
        r@ == s@,
{
    chars_of(s)
}

fn cat3(a: &str, b: &Vec<char>, c: &str) -> (r: Vec<char>)
    ensures
        r@ == a@ + b@ + c@,
{
    let mut out = chars_of(a);
    push_all(&mut out, b);
    push_str(&mut out, c);
    out
}

fn bad_count_x(name: &Vec<char>, arg: &str, value: &Vec<char>) -> (r: SubstitutionError)
    ensures
        r@ == bad_count(name@, arg@, value@),
{
    let mut m = chars_of("argument `");
    push_str(&mut m, arg);
    push_str(&mut m, "` got `");
    push_all(&mut m, value);
    push_str(&mut m, "`");
    SubstitutionError::InvalidNumber { name: text(name), message: text(&m) }
}

fn bad_regex_x(name: &Vec<char>, pattern: &Vec<char>, msg: &String) -> (r: SubstitutionError)
    ensures
        r@ == bad_regex(name@, pattern@, msg@),
{
    let mut m = chars_of("`");
    push_all(&mut m, pattern);
    push_str(&mut m, "`: ");
    push_str(&mut m, msg.as_str());
    SubstitutionError::InvalidRegex { name: text(name), message: text(&m) }
}

fn utf8_result_x(b: Vec<u8>) -> (r: Result<Vec<char>, SubstitutionError>)
    ensures
        match r {
            Ok(v) => utf8_result(b@) == Ok::<Seq<char>, ErrV>(v@),
            Err(e) => utf8_result(b@) == Err::<Seq<char>, ErrV>(e@),
        },
{
    match utf8_text(b) {
        Some(s) => Ok(chars_of(s.as_str())),
        None => Err(SubstitutionError::NonUtf8Decoded),
    }
}

fn group_text_x(gs: &Vec<Option<String>>, g: usize) -> (r: Vec<char>)
    ensures
        r@ == group_text(gs@.map_values(|x: Option<String>| opt_text(x)), g as nat),
{
    if g < gs.len() {
        match &gs[g] {
            Some(t) => chars_of(t.as_str()),
            None => Vec::new(),
        }
    } else {
        Vec::new()
    }
}

pub fn is_host_fn_x(name: &Vec<char>) -> (r: bool)
    ensures
        r == is_host_fn(name@),
{
    eq_lit(name, "read_file") || eq_lit(name, "write_file") || eq_lit(name, "file_exists")
        || eq_lit(name, "capture") || eq_lit(name, "uuid") || eq_lit(name, "temp_file")
        || eq_lit(name, "temp_dir") || eq_lit(name, "error") || eq_lit(name, "set_cwd")
        || eq_lit(name, "now")
        || eq_lit(name, "add") || eq_lit(name, "subtract") || eq_lit(name, "multiply")
        || eq_lit(name, "divide") || eq_lit(name, "modulo") || eq_lit(name, "power")
        || eq_lit(name, "min") || eq_lit(name, "max") || eq_lit(name, "abs") || eq_lit(name, "round")
        || eq_lit(name, "floor") || eq_lit(name, "ceil") || eq_lit(name, "less_than")
        || eq_lit(name, "less_than_or_equal") || eq_lit(name, "greater_than")
        || eq_lit(name, "greater_than_or_equal") || eq_lit(name, "is_number")
        || eq_lit(name, "basename") || eq_lit(name, "dirname") || eq_lit(name, "extname")
        || eq_lit(name, "stem") || eq_lit(name, "join_path")
}

pub fn host_guard_x(redact: bool, dry_run: bool, name: &Vec<char>, v: &Vec<Vec<char>>) -> (r: FnOutX)
    ensures
        r@ == host_guard(redact, dry_run, name@, texts_view(v@)),
{
    let n = v.len();
    assert(texts_view(v@).len() == n);
    if eq_lit(name, "read_file") {
        if n != 1 { arity_x(name, dec_exec(1), n) }
        else if redact { ok_x(cat3("<read_file: '", &v[0], "'>")) }
        else { FnOutX::Host }
    } else if eq_lit(name, "write_file") {
        if n != 2 { arity_x(name, dec_exec(2), n) }
        else if dry_run || redact { ok_x(Vec::new()) }
        else { FnOutX::Host }
    } else if eq_lit(name, "file_exists") || eq_lit(name, "now") {
        if n != 1 { arity_x(name, dec_exec(1), n) } else { FnOutX::Host }
    } else if eq_lit(name, "capture") {
        if n != 1 { arity_x(name, dec_exec(1), n) }
        else if dry_run || redact { ok_x(cat3("<capture: '", &v[0], "'>")) }
        else { FnOutX::Host }
    } else if eq_lit(name, "uuid") {
        if n != 0 { arity_x(name, dec_exec(0), n) }
        else if dry_run { ok_x(lit("<uuid>")) }
        else { FnOutX::Host }
    } else if eq_lit(name, "temp_file") {
        if n > 2 { arity_x(name, lit("0, 1, or 2"), n) }
        else if dry_run || redact { ok_x(lit("<temp_file>")) }
        else { FnOutX::Host }
    } else if eq_lit(name, "temp_dir") {
        if n != 0 { arity_x(name, dec_exec(0), n) }
        else if dry_run || redact { ok_x(lit("<temp_dir>")) }
        else { FnOutX::Host }
    } else if eq_lit(name, "error") {
        if n != 1 { arity_x(name, dec_exec(1), n) }
        else if dry_run { ok_x(cat3("<error: '", &v[0], "'>")) }
        else if redact { FnOutX::Value(Err(SubstitutionError::UserError(text(&v[0])))) }
        else { FnOutX::Host }
    } else if eq_lit(name, "set_cwd") {
        if n != 1 { arity_x(name, dec_exec(1), n) }
        else if redact { ok_x(Vec::new()) }
        else { FnOutX::Host }
    } else if is_path_fn_x(name) {
        if eq_lit(name, "join_path") {
            if n == 0 { arity_x(name, lit("1 or more"), 0) } else { FnOutX::Host }
        } else if n != 1 {
            arity_x(name, dec_exec(1), n)
        } else {
            FnOutX::Host
        }
    } else {
        FnOutX::Host
    }
}

pub fn in_text_fn_x(name: &Vec<char>) -> (r: bool)
    ensures
        r == in_text_fn(name@),
{
    eq_lit(name, "to_upper") || eq_lit(name, "to_lower") || eq_lit(name, "base64_encode") || eq_lit(name, "base64_decode") || eq_lit(name, "concat") || eq_lit(name, "join") || eq_lit(name, "replace_all") || eq_lit(name, "remove_all") || eq_lit(name, "starts_with") || eq_lit(name, "ends_with") || eq_lit(name, "contains") || eq_lit(name, "capitalize") || eq_lit(name, "trim") || eq_lit(name, "trim_start") || eq_lit(name, "trim_end") || eq_lit(name, "length") || eq_lit(name, "escape")
}

pub fn text_fn_x(name: &Vec<char>, v: &Vec<Vec<char>>) -> (r: FnOutX)
    ensures
        r@ == text_fn(name@, texts_view(v@)),
{
    let n = v.len();
    let ghost vv = texts_view(v@);
    assert(vv.len() == n);
    assert(forall|i: int| 0 <= i < n ==> #[trigger] vv[i] == v@[i]@);
    if eq_lit(name, "to_upper") {
        if n != 1 { return arity_x(name, dec_exec(1), n); }
        let s = string_of(&v[0]);
        return ok_x(chars_of(to_upper_text(s.as_str()).as_str()));
    }
    if eq_lit(name, "to_lower") {
        if n != 1 { return arity_x(name, dec_exec(1), n); }
        let s = string_of(&v[0]);
        return ok_x(chars_of(to_lower_text(s.as_str()).as_str()));
    }
    if eq_lit(name, "base64_encode") {
        if n != 1 { return arity_x(name, dec_exec(1), n); }
        let b = utf8_bytes(&v[0]);
        return ok_x(chars_of(base64_encode(b.as_slice()).as_str()));
    }
    if eq_lit(name, "base64_decode") {
        if n != 1 { return arity_x(name, dec_exec(1), n); }
        let s = string_of(&v[0]);
        return match base64_decode(s.as_str()) {
            Err(m) => FnOutX::Value(Err(SubstitutionError::InvalidBase64(m))),
            Ok(b) => FnOutX::Value(utf8_result_x(b)),
        };
    }
    if eq_lit(name, "concat") {
        if n == 0 { return arity_x(name, lit("1 or more"), 0); }
        let r = join_from_x(v, 0, &Vec::new());
        assert(vv.skip(0) =~= vv);
        return ok_x(r);
    }
    if eq_lit(name, "join") {
        if n == 0 { return arity_x(name, lit("1 or more (separator, then 0+ items)"), 0); }
        return ok_x(join_from_x(v, 1, &v[0]));
    }
    if eq_lit(name, "replace_all") {
        if n != 3 { return arity_x(name, dec_exec(3), n); }
        return ok_x(replace_all_x(&v[0], &v[1], &v[2]));
    }
    if eq_lit(name, "remove_all") {
        if n != 2 { return arity_x(name, dec_exec(2), n); }
        return ok_x(replace_all_x(&v[0], &v[1], &Vec::new()));
    }
    if eq_lit(name, "starts_with") {
        if n != 2 { return arity_x(name, dec_exec(2), n); }
        return ok_x(bool_text_x(occurs_at_exec(&v[0], 0, &v[1])));
    }
    if eq_lit(name, "ends_with") {
        if n != 2 { return arity_x(name, dec_exec(2), n); }
        let b = v[1].len() <= v[0].len() && occurs_at_exec(&v[0], v[0].len() - v[1].len(), &v[1]);
        return ok_x(bool_text_x(b));
    }
    if eq_lit(name, "contains") {
        if n != 2 { return arity_x(name, dec_exec(2), n); }
        return ok_x(bool_text_x(contains_x(&v[0], &v[1])));
    }
    if eq_lit(name, "capitalize") {
        if n != 1 { return arity_x(name, dec_exec(1), n); }
        return ok_x(capitalize_x(&v[0]));
    }
    if eq_lit(name, "trim") {
        if n != 1 { return arity_x(name, dec_exec(1), n); }
        return ok_x(trim_exec(&v[0]));
    }
    if eq_lit(name, "trim_start") {
        if n != 1 { return arity_x(name, dec_exec(1), n); }
        return ok_x(trim_start_exec(&v[0]));
    }
    if eq_lit(name, "trim_end") {
        if n != 1 { return arity_x(name, dec_exec(1), n); }
        return ok_x(trim_end_exec(&v[0]));
    }
    if eq_lit(name, "length") {
        if n != 1 { return arity_x(name, dec_exec(1), n); }
        return ok_x(dec_exec(v[0].len()));
    }
    if eq_lit(name, "escape") {
        if n != 1 { return arity_x(name, dec_exec(1), n); }
        return ok_x(escape_x(&v[0]));
    }
    FnOutX::Unknown
}

pub fn in_count_fn_x(name: &Vec<char>) -> (r: bool)
    ensures
        r == in_count_fn(name@),
{
    eq_lit(name, "repeat") || eq_lit(name, "nth") || eq_lit(name, "first") || eq_lit(name, "last") || eq_lit(name, "count_parts") || eq_lit(name, "substring")
}

pub fn count_fn_x(name: &Vec<char>, v: &Vec<Vec<char>>) -> (r: FnOutX)
    ensures
        r@ == count_fn(name@, texts_view(v@)),
{
    let n = v.len();
    let ghost vv = texts_view(v@);
    assert(vv.len() == n);
    assert(forall|i: int| 0 <= i < n ==> #[trigger] vv[i] == v@[i]@);
    if eq_lit(name, "repeat") {
        if n != 2 { return arity_x(name, dec_exec(2), n); }
        return match parse_count_x(&v[1]) {
            None => FnOutX::Value(Err(bad_count_x(name, "count", &v[1]))),
            Some(k) => {
                let ub = utf8_bytes(&v[0]);
                let bytes = ub.len();
                assert(bytes == encode_utf8(v[0]@).len());
                match bytes.checked_mul(k) {
                    Some(total) if total <= MAX_REPEAT_BYTES => ok_x(repeat_x(&v[0], k)),
                    _ => {
                        let mut m = chars_of("repeat would produce more than ");
                        push_all(&mut m, &dec_exec(MAX_REPEAT_BYTES));
                        push_str(&mut m, " bytes (");
                        push_all(&mut m, &dec_exec(bytes));
                        push_str(&mut m, " × ");
                        push_all(&mut m, &dec_exec(k));
                        push_str(&mut m, ")");
                        FnOutX::Value(Err(SubstitutionError::InvalidNumber { name: text(name), message: text(&m) }))
                    },
                }
            },
        };
    }
    if eq_lit(name, "nth") {
        if n != 3 { return arity_x(name, dec_exec(3), n); }
        return match parse_count_x(&v[2]) {
            None => FnOutX::Value(Err(bad_count_x(name, "index", &v[2]))),
            Some(k) => {
                let parts = split_parts_x(&v[0], &v[1]);
                assert(texts_view(parts@).len() == parts.len());
                if k < parts.len() {
                    ok_x(copy_all(&parts[k]))
                } else {
                    ok_x(Vec::new())
                }
            },
        };
    }
    if eq_lit(name, "first") {
        if n != 2 { return arity_x(name, dec_exec(2), n); }
        let parts = split_parts_x(&v[0], &v[1]);
        proof {
            crate::funcs::lemma_split_nonempty(v@[0]@, v@[1]@);
        }
        assert(texts_view(parts@).len() == parts.len());
        return ok_x(copy_all(&parts[0]));
    }
    if eq_lit(name, "last") {
        if n != 2 { return arity_x(name, dec_exec(2), n); }
        return ok_x(last_part_x(&v[0], &v[1]));
    }
    if eq_lit(name, "count_parts") {
        if n != 2 { return arity_x(name, dec_exec(2), n); }
        let parts = split_parts_x(&v[0], &v[1]);
        assert(texts_view(parts@).len() == parts.len());
        return ok_x(dec_exec(parts.len()));
    }
    if eq_lit(name, "substring") {
        if n != 2 && n != 3 { return arity_x(name, lit("2 or 3"), n); }
        return match parse_count_x(&v[1]) {
            None => FnOutX::Value(Err(bad_count_x(name, "start", &v[1]))),
            Some(st) => if n == 3 {
                match parse_count_x(&v[2]) {
                    None => FnOutX::Value(Err(bad_count_x(name, "length", &v[2]))),
                    Some(len) => ok_x(substring_x(&v[0], st, Some(len))),
                }
            } else {
                ok_x(substring_x(&v[0], st, None))
            },
        };
    }
    FnOutX::Unknown
}

pub fn in_regex_fn_x(name: &Vec<char>) -> (r: bool)
    ensures
        r == in_regex_fn(name@),
{
    eq_lit(name, "regex_replace") || eq_lit(name, "regex_remove") || eq_lit(name, "regex_matches") || eq_lit(name, "regex_capture") || eq_lit(name, "regex_capture_all")
}

pub fn regex_fn_x(name: &Vec<char>, v: &Vec<Vec<char>>) -> (r: FnOutX)
    ensures
        r@ == regex_fn(name@, texts_view(v@)),
{
    let n = v.len();
    let ghost vv = texts_view(v@);
    assert(vv.len() == n);
    assert(forall|i: int| 0 <= i < n ==> #[trigger] vv[i] == v@[i]@);
    if eq_lit(name, "regex_replace") || eq_lit(name, "regex_remove") || eq_lit(name, "regex_matches") {
        let is_replace = eq_lit(name, "regex_replace");
        let want: usize = if is_replace { 3 } else { 2 };
        if n != want { return arity_x(name, dec_exec(want), n); }
        let ps = string_of(&v[1]);
        return match compile_pattern(ps.as_str()) {
            Err(m) => FnOutX::Value(Err(bad_regex_x(name, &v[1], &m))),
            Ok(p) => {
                let h = string_of(&v[0]);
                if is_replace {
                    let rep = string_of(&v[2]);
                    ok_x(chars_of(regex_replace_all(&p, h.as_str(), rep.as_str()).as_str()))
                } else if eq_lit(name, "regex_remove") {
                    {
                    let e = String::new();
                    ok_x(chars_of(regex_replace_all(&p, h.as_str(), e.as_str()).as_str()))
                }
                } else {
                    ok_x(bool_text_x(regex_is_match(&p, h.as_str())))
                }
            },
        };
    }
    if eq_lit(name, "regex_capture") || eq_lit(name, "regex_capture_all") {
        let single = eq_lit(name, "regex_capture");
        let want: usize = if single { 3 } else { 4 };
        if n != want { return arity_x(name, dec_exec(want), n); }
        let ps = string_of(&v[1]);
        return match compile_pattern(ps.as_str()) {
            Err(m) => FnOutX::Value(Err(bad_regex_x(name, &v[1], &m))),
            Ok(p) => match parse_count_x(&v[2]) {
                None => FnOutX::Value(Err(bad_count_x(name, "group", &v[2]))),
                Some(g) => {
                    let h = string_of(&v[0]);
                    if single {
                        match regex_captures(&p, h.as_str()) {
                            Some(gs) => ok_x(group_text_x(&gs, g)),
                            None => ok_x(Vec::new()),
                        }
                    } else {
                        let all = regex_captures_all(&p, h.as_str());
                        let ghost every = crate::outside::regex_every(p.source(), h@);
                        let mut parts: Vec<Vec<char>> = Vec::new();
                        let mut i: usize = 0;
                        while i < all.len()
                            invariant
                                i <= all.len(),
                                all@.map_values(|gs: Vec<Option<String>>| gs@.map_values(|x: Option<String>| opt_text(x))) == every,
                                texts_view(parts@) == every.take(i as int).map_values(|gs: Seq<Option<Seq<char>>>| group_text(gs, g as nat)),
                            decreases all.len() - i,
                        {
                            let one = group_text_x(&all[i], g);
                            let ghost tp = texts_view(parts@);
                            let ghost old_parts = parts@;
                            parts.push(one);
                            assert(parts@ == old_parts.push(one));
                            assert(texts_view(parts@).len() == tp.len() + 1);
                            assert(every[i as int] == all@[i as int]@.map_values(|x: Option<String>| opt_text(x)));
                            assert forall|j: int| 0 <= j <= i implies #[trigger] texts_view(parts@)[j] == every.take(i + 1).map_values(|gs: Seq<Option<Seq<char>>>| group_text(gs, g as nat))[j] by {
                                if j < i {
                                    assert(texts_view(parts@)[j] == tp[j]);
                                }
                            }
                            assert(texts_view(parts@) =~= every.take(i + 1).map_values(|gs: Seq<Option<Seq<char>>>| group_text(gs, g as nat)));
                            i += 1;
                        }
                        assert(every.take(i as int) =~= every);
                        let r = join_from_x(&parts, 0, &v[3]);
                        assert(texts_view(parts@).skip(0) =~= texts_view(parts@));
                        ok_x(r)
                    }
                },
            },
        };
    }
    FnOutX::Unknown
}

pub fn in_misc_fn_x(name: &Vec<char>) -> (r: bool)
    ensures
        r == in_misc_fn(name@),
{
    eq_lit(name, "sha256") || eq_lit(name, "md5") || eq_lit(name, "shell_quote") || eq_lit(name, "one_of") || eq_lit(name, "url_encode") || eq_lit(name, "url_decode")
        || eq_lit(name, "json_get") || eq_lit(name, "json_set")
}

pub fn misc_fn_x(shell: &Vec<char>, name: &Vec<char>, v: &Vec<Vec<char>>) -> (r: FnOutX)
    ensures
        r@ == misc_fn(shell@, name@, texts_view(v@)),
{
    let n = v.len();
    let ghost vv = texts_view(v@);
    assert(vv.len() == n);
    assert(forall|i: int| 0 <= i < n ==> #[trigger] vv[i] == v@[i]@);
    if eq_lit(name, "sha256") {
        if n != 1 { return arity_x(name, dec_exec(1), n); }
        let b = utf8_bytes(&v[0]);
        let d = sha256_of(b.as_slice());
        return ok_x(chars_of(hex_encode(d.as_slice()).as_str()));
    }
    if eq_lit(name, "md5") {
        if n != 1 { return arity_x(name, dec_exec(1), n); }
        let b = utf8_bytes(&v[0]);
        let d = md5_of(b.as_slice());
        return ok_x(chars_of(hex_encode(d.as_slice()).as_str()));
    }
    if eq_lit(name, "shell_quote") {
        if n != 1 { return arity_x(name, dec_exec(1), n); }
        return ok_x(quote_for_shell_x(&v[0], shell));
    }
    if eq_lit(name, "one_of") {
        if n < 2 { return arity_x(name, lit("2 or more (value, then 1+ allowed options)"), n); }
        let mut i: usize = 1;
        assert(misc_fn(shell@, name@, vv) == (if vv.skip(1).contains(vv[0]) {
            ok(vv[0])
        } else {
            fail(ErrV::OneOfNoMatch(vv[0], quoted_options(vv.skip(1))))
        }));
        while i < n
            invariant
                1 <= i <= n,
                n == v.len(),
                vv == texts_view(v@),
                misc_fn(shell@, name@, vv) == (if vv.skip(1).contains(vv[0]) {
                    ok(vv[0])
                } else {
                    fail(ErrV::OneOfNoMatch(vv[0], quoted_options(vv.skip(1))))
                }),
                forall|j: int| 1 <= j < i ==> #[trigger] vv[j] != vv[0],
            decreases n - i,
        {
            if crate::text::seq_eq(&v[i], &v[0]) {
                assert(vv.skip(1)[i - 1] == vv[0]);
                assert(vv.skip(1).contains(vv[0]));
                return ok_x(copy_all(&v[0]));
            }
            i += 1;
        }
        assert(!vv.skip(1).contains(vv[0])) by {
            if vv.skip(1).contains(vv[0]) {
                let j = choose|j: int| 0 <= j < vv.skip(1).len() && vv.skip(1)[j] == vv[0];
                assert(vv[j + 1] == vv[0]);
            }
        }
        let opts = quoted_options_x(v);
        return FnOutX::Value(Err(SubstitutionError::OneOfNoMatch { value: text(&v[0]), options: text(&opts) }));
    }
    if eq_lit(name, "url_encode") {
        if n != 1 { return arity_x(name, dec_exec(1), n); }
        let b = utf8_bytes(&v[0]);
        return ok_x(url_encode_x(&b));
    }
    if eq_lit(name, "url_decode") {
        if n != 1 { return arity_x(name, dec_exec(1), n); }
        let b = utf8_bytes(&v[0]);
        return match url_decode_x(&b) {
            None => FnOutX::Value(Err(SubstitutionError::InvalidUrlEncoding(text(&v[0])))),
            Some(d) => FnOutX::Value(utf8_result_x(d)),
        };
    }
    if eq_lit(name, "json_get") {
        if n != 2 { return arity_x(name, dec_exec(2), n); }
        let d = text(&v[0]);
        let p = text(&v[1]);
        return match json_get(d.as_str(), p.as_str()) {
            Ok(s) => ok_x(chars_of(s.as_str())),
            Err(e) => FnOutX::Value(Err(e)),
        };
    }
    if eq_lit(name, "json_set") {
        if n != 3 { return arity_x(name, dec_exec(3), n); }
        let d = text(&v[0]);
        let p = text(&v[1]);
        let x = text(&v[2]);
        return match json_set(d.as_str(), p.as_str(), x.as_str()) {
            Ok(s) => ok_x(chars_of(s.as_str())),
            Err(e) => FnOutX::Value(Err(e)),
        };
    }
    FnOutX::Unknown
}

/// What a call gives (see [`fn_result`]).
pub fn fn_result_x(shell: &Vec<char>, redact: bool, dry_run: bool, name: &Vec<char>, v: &Vec<Vec<char>>) -> (r: FnOutX)
    ensures
        r@ == fn_result(shell@, redact, dry_run, name@, texts_view(v@)),
{
    if in_text_fn_x(name) {
        text_fn_x(name, v)
    } else if in_count_fn_x(name) {
        count_fn_x(name, v)
    } else if in_regex_fn_x(name) {
        regex_fn_x(name, v)
    } else if in_misc_fn_x(name) {
        misc_fn_x(shell, name, v)
    } else if is_host_fn_x(name) {
        host_guard_x(redact, dry_run, name, v)
    } else {
        FnOutX::Unknown
    }
}

} // verus!
