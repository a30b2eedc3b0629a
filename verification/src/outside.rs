//! Trusted items: the calls into std and into outside crates that the
//! library's logic makes, each with the contract that its source or its
//! documentation gives it. Nothing in this file is proved.

use vstd::prelude::*;
use std::collections::{HashMap, HashSet};
use std::sync::{Arc, Mutex};
use base64::Engine;
use sha2::Digest;

verus! {

// ── text ────────────────────────────────────────────────────────────────

/// What `str::to_uppercase` returns for a string.
pub uninterp spec fn upper(s: Seq<char>) -> Seq<char>;

/// What `str::to_lowercase` returns for a string.
pub uninterp spec fn lower(s: Seq<char>) -> Seq<char>;

/// The characters that `char::to_uppercase` yields for a character.
pub uninterp spec fn char_upper(c: char) -> Seq<char>;

/// `str::to_uppercase`: the result is named, not stated; Unicode's case
/// tables decide it.
#[verifier::external_body]
pub(crate) fn to_upper_text(s: &str) -> (r: String)
    ensures
        r@ == upper(s@),
{
    s.to_uppercase()
}

/// `str::to_lowercase`: the result is named, not stated.
#[verifier::external_body]
pub(crate) fn to_lower_text(s: &str) -> (r: String)
    ensures
        r@ == lower(s@),
{
    s.to_lowercase()
}

/// `char::to_uppercase`, collected: the result is named, not stated.
#[verifier::external_body]
pub(crate) fn char_to_upper(c: char) -> (r: Vec<char>)
    ensures
        r@ == char_upper(c),
{
    c.to_uppercase().collect()
}

/// `String::from_utf8`: `Some` exactly when the bytes are valid UTF-8, with
/// the characters they encode.
#[verifier::external_body]
pub(crate) fn utf8_text(bytes: Vec<u8>) -> (r: Option<String>)
    ensures
        r is Some <==> vstd::utf8::valid_utf8(bytes@),
        r matches Some(s) ==> s@ == vstd::utf8::decode_utf8(bytes@),
{
    String::from_utf8(bytes).ok()
}

// ── base64 ──────────────────────────────────────────────────────────────

/// The standard alphabet of RFC 4648.
pub open spec fn b64_digit(v: nat) -> char {
    if v < 26 {
        ('A' as u32 + v) as char
    } else if v < 52 {
        ('a' as u32 + (v - 26)) as char
    } else if v < 62 {
        ('0' as u32 + (v - 52)) as char
    } else if v == 62 {
        '+'
    } else {
        '/'
    }
}

/// Standard base64 with `=` padding (RFC 4648, section 4).
pub open spec fn b64_encode(b: Seq<u8>) -> Seq<char>
    decreases b.len(),
{
    if b.len() == 0 {
        Seq::empty()
    } else if b.len() == 1 {
        seq![b64_digit((b[0] / 4) as nat), b64_digit(((b[0] % 4) * 16) as nat), '=', '=']
    } else if b.len() == 2 {
        seq![
            b64_digit((b[0] / 4) as nat),
            b64_digit(((b[0] % 4) * 16 + b[1] / 16) as nat),
            b64_digit(((b[1] % 16) * 4) as nat),
            '=',
        ]
    } else {
        seq![
            b64_digit((b[0] / 4) as nat),
            b64_digit(((b[0] % 4) * 16 + b[1] / 16) as nat),
            b64_digit(((b[1] % 16) * 4 + b[2] / 64) as nat),
            b64_digit((b[2] % 64) as nat),
        ] + b64_encode(b.skip(3))
    }
}

/// What `base64`'s `STANDARD.decode` returns for an input: the bytes, or the
/// text of its error.
pub uninterp spec fn b64_decoding(input: Seq<char>) -> Result<Seq<u8>, Seq<char>>;

/// `base64::engine::general_purpose::STANDARD.encode`: standard alphabet,
/// padded.
#[verifier::external_body]
pub(crate) fn base64_encode(bytes: &[u8]) -> (r: String)
    ensures
        r@ == b64_encode(bytes@),
{
    base64::engine::general_purpose::STANDARD.encode(bytes)
}

/// `base64::engine::general_purpose::STANDARD.decode`: the result is named;
/// what is stated is that a padded standard encoding decodes back to the
/// bytes it encodes.
#[verifier::external_body]
pub(crate) fn base64_decode(input: &str) -> (r: Result<Vec<u8>, String>)
    ensures
        r matches Ok(v) ==> (b64_decoding(input@) matches Ok(d) && d == v@),
        r matches Err(m) ==> (b64_decoding(input@) matches Err(e) && e == m@),
        r is Err ==> forall|x: Seq<u8>| #[trigger] b64_encode(x) != input@,
        r matches Ok(v) ==> (forall|x: Seq<u8>| #[trigger] b64_encode(x) == input@ ==> x == v@),
{
    base64::engine::general_purpose::STANDARD.decode(input).map_err(|e| e.to_string())
}

// ── digests and hex ─────────────────────────────────────────────────────

/// What `sha2::Sha256::digest` returns for a byte string.
pub uninterp spec fn sha256_digest(bytes: Seq<u8>) -> Seq<u8>;

/// What `md5::Md5::digest` returns for a byte string.
pub uninterp spec fn md5_digest(bytes: Seq<u8>) -> Seq<u8>;

/// `sha2::Sha256::digest`: 32 bytes, named.
#[verifier::external_body]
pub(crate) fn sha256_of(bytes: &[u8]) -> (r: Vec<u8>)
    ensures
        r@ == sha256_digest(bytes@),
        r@.len() == 32,
{
    sha2::Sha256::digest(bytes).to_vec()
}

/// `md5::Md5::digest`: 16 bytes, named.
#[verifier::external_body]
pub(crate) fn md5_of(bytes: &[u8]) -> (r: Vec<u8>)
    ensures
        r@ == md5_digest(bytes@),
        r@.len() == 16,
{
    md5::Md5::digest(bytes).to_vec()
}

/// Two lower-case hexadecimal digits per byte, high nibble first.
pub open spec fn hex_text(b: Seq<u8>) -> Seq<char>
    decreases b.len(),
{
    if b.len() == 0 {
        Seq::empty()
    } else {
        seq![
            crate::funcs::hex_lower((b[0] / 16) as nat),
            crate::funcs::hex_lower((b[0] % 16) as nat),
        ] + hex_text(b.skip(1))
    }
}

/// `hex::encode`: lower-case digits, two per byte.
#[verifier::external_body]
pub(crate) fn hex_encode(bytes: &[u8]) -> (r: String)
    ensures
        r@ == hex_text(bytes@),
{
    hex::encode(bytes)
}

// ── regex ───────────────────────────────────────────────────────────────

#[verifier::external_type_specification]
#[verifier::external_body]
pub struct ExRegex(regex::Regex);

/// What `regex::Regex::new` says of a pattern: `None` when it compiles, the
/// text of its error when it does not.
pub uninterp spec fn regex_rejection(pattern: Seq<char>) -> Option<Seq<char>>;

/// What `Regex::replace_all` returns, the replacement read with `$n` and
/// `${name}` group references.
pub uninterp spec fn regex_replaced(pattern: Seq<char>, haystack: Seq<char>, rep: Seq<char>) -> Seq<char>;

/// What `Regex::is_match` returns.
pub uninterp spec fn regex_found(pattern: Seq<char>, haystack: Seq<char>) -> bool;

/// What `Regex::captures` finds: each group of the first match, `None` for a
/// group that did not take part; `None` when nothing matches.
pub uninterp spec fn regex_first(pattern: Seq<char>, haystack: Seq<char>) -> Option<Seq<Option<Seq<char>>>>;

/// What `Regex::captures_iter` yields: the groups of every match, in order.
pub uninterp spec fn regex_every(pattern: Seq<char>, haystack: Seq<char>) -> Seq<Seq<Option<Seq<char>>>>;

/// A compiled regular expression with the pattern it was compiled from.
pub struct Pattern {
    re: regex::Regex,
    source: Ghost<Seq<char>>,
}

impl Pattern {
    /// The pattern this expression was compiled from.
    pub closed spec fn source(&self) -> Seq<char> {
        self.source@
    }
}

/// `regex::Regex::new`: compiles exactly the patterns that `regex_rejection`
/// does not reject.
#[verifier::external_body]
fn regex_new(pattern: &str) -> (r: Result<regex::Regex, String>)
    ensures
        match r {
            Ok(_) => regex_rejection(pattern@) is None,
            Err(m) => regex_rejection(pattern@) == Some(m@),
        },
{
    regex::Regex::new(pattern).map_err(|e| e.to_string())
}

/// Compiles `pattern`, or gives the text of the compile error.
pub fn compile_pattern(pattern: &str) -> (r: Result<Pattern, String>)
    ensures
        match r {
            Ok(p) => regex_rejection(pattern@) is None && p.source() == pattern@,
            Err(m) => regex_rejection(pattern@) == Some(m@),
        },
{
    match regex_new(pattern) {
        Ok(re) => Ok(Pattern { re, source: Ghost(pattern@) }),
        Err(m) => Err(m),
    }
}

/// `Regex::replace_all` with a `&str` replacement: named.
#[verifier::external_body]
pub(crate) fn regex_replace_all(p: &Pattern, haystack: &str, rep: &str) -> (r: String)
    ensures
        r@ == regex_replaced(p.source(), haystack@, rep@),
{
    p.re.replace_all(haystack, rep).into_owned()
}

/// `Regex::is_match`: named.
#[verifier::external_body]
pub(crate) fn regex_is_match(p: &Pattern, haystack: &str) -> (r: bool)
    ensures
        r == regex_found(p.source(), haystack@),
{
    p.re.is_match(haystack)
}

/// `Regex::captures`, each group turned into its text: named.
#[verifier::external_body]
pub(crate) fn regex_captures(p: &Pattern, haystack: &str) -> (r: Option<Vec<Option<String>>>)
    ensures
        match r {
            Some(g) => regex_first(p.source(), haystack@) == Some(
                g@.map_values(|x: Option<String>| opt_text(x)),
            ),
            None => regex_first(p.source(), haystack@) is None,
        },
{
    p.re.captures(haystack).map(|c| c.iter().map(|m| m.map(|m| m.as_str().to_string())).collect())
}

/// `Regex::captures_iter`, each group turned into its text: named.
#[verifier::external_body]
pub(crate) fn regex_captures_all(p: &Pattern, haystack: &str) -> (r: Vec<Vec<Option<String>>>)
    ensures
        r@.map_values(|g: Vec<Option<String>>| g@.map_values(|x: Option<String>| opt_text(x)))
            == regex_every(p.source(), haystack@),
{
    p.re.captures_iter(haystack).map(|c| c.iter().map(|m| m.map(|m| m.as_str().to_string())).collect()).collect()
}

pub open spec fn opt_text(x: Option<String>) -> Option<Seq<char>> {
    match x {
        Some(s) => Some(s@),
        None => None,
    }
}

// ── debug rendering ─────────────────────────────────────────────────────

/// What `{:?}` prints for a string: the text in double quotes, each
/// character passed through `char::escape_debug`.
pub uninterp spec fn debug_text(s: Seq<char>) -> Seq<char>;

/// `<str as Debug>::fmt`: named.
#[verifier::external_body]
pub(crate) fn debug_str(s: &str) -> (r: String)
    ensures
        r@ == debug_text(s@),
{
    format!("{:?}", s)
}

// ── string maps and sets ────────────────────────────────────────────────

/// The entries of a `HashMap<String, String>`, keyed and valued by text.
pub uninterp spec fn text_map(m: HashMap<String, String>) -> Map<Seq<char>, Seq<char>>;

/// The members of a `HashSet<String>`, as text.
pub uninterp spec fn text_set(s: HashSet<String>) -> Set<Seq<char>>;

pub open spec fn empty_text_map() -> Map<Seq<char>, Seq<char>> {
    Map::empty()
}

/// `HashMap::new`: empty.
#[verifier::external_body]
pub(crate) fn text_map_new() -> (r: HashMap<String, String>)
    ensures
        text_map(r) == empty_text_map(),
{
    HashMap::new()
}

/// `HashMap::insert`: the key now maps to the value, and nothing else
/// changed.
#[verifier::external_body]
pub(crate) fn text_map_insert(m: &mut HashMap<String, String>, k: String, v: String)
    ensures
        text_map(*final(m)) == text_map(*old(m)).insert(k@, v@),
{
    m.insert(k, v);
}

/// `HashMap::iter`, each entry cloned: every entry once, in the map's own
/// order, which is not stated.
#[verifier::external_body]
pub(crate) fn text_map_entries(m: &HashMap<String, String>) -> (r: Vec<(String, String)>)
    ensures
        forall|i: int| 0 <= i < r.len() ==> #[trigger] text_map(*m).contains_key(r@[i].0@)
            && text_map(*m)[r@[i].0@] == r@[i].1@,
        forall|k: Seq<char>| #[trigger] text_map(*m).contains_key(k) ==> exists|i: int|
            0 <= i < r.len() && (#[trigger] r@[i]).0@ == k,
        forall|i: int, j: int| 0 <= i < j < r.len() ==> (#[trigger] r@[i]).0@ != (#[trigger] r@[j]).0@,
{
    m.iter().map(|(k, v)| (k.clone(), v.clone())).collect()
}

/// `HashSet::new`: empty.
#[verifier::external_body]
pub(crate) fn text_set_new() -> (r: HashSet<String>)
    ensures
        text_set(r) == Set::<Seq<char>>::empty(),
{
    HashSet::new()
}

/// `HashSet::insert`: the value is now a member, and nothing else changed.
#[verifier::external_body]
pub(crate) fn text_set_insert(s: &mut HashSet<String>, v: String)
    ensures
        text_set(*final(s)) == text_set(*old(s)).insert(v@),
{
    s.insert(v);
}

/// `HashSet::contains`.
#[verifier::external_body]
pub(crate) fn text_set_contains(s: &HashSet<String>, v: &str) -> (r: bool)
    ensures
        r == text_set(*s).contains(v@),
{
    s.contains(v)
}

// ── the run-wide variable store ─────────────────────────────────────────

#[verifier::external_type_specification]
#[verifier::external_body]
#[verifier::reject_recursive_types(T)]
pub struct ExMutex<T: ?Sized>(Mutex<T>);

/// A fresh, empty store.
#[verifier::external_body]
pub(crate) fn shared_map_new() -> (r: Arc<Mutex<HashMap<String, String>>>)
{
    Arc::new(Mutex::new(HashMap::new()))
}

/// `Mutex::lock`, then every entry cloned. What the store holds depends on
/// every earlier write through any clone of the `Arc`, so of the result only
/// the map's own guarantee is stated: no key occurs twice.
#[verifier::external_body]
pub(crate) fn shared_map_entries(m: &Arc<Mutex<HashMap<String, String>>>) -> (r: Vec<(String, String)>)
    ensures
        forall|i: int, j: int| 0 <= i < j < r.len() ==> (#[trigger] r@[i]).0@ != (#[trigger] r@[j]).0@,
{
    m.lock().unwrap_or_else(|e| e.into_inner()).iter().map(|(k, v)| (k.clone(), v.clone())).collect()
}

/// `Mutex::lock`, then `HashMap::insert`: a write to the shared store, which
/// Verus cannot see through the shared reference.
#[verifier::external_body]
pub(crate) fn shared_map_insert(m: &Arc<Mutex<HashMap<String, String>>>, k: String, v: String)
{
    m.lock().unwrap_or_else(|e| e.into_inner()).insert(k, v);
}

/// `Mutex::lock`, then `HashMap::remove`: a write to the shared store, which
/// Verus cannot see through the shared reference.
#[verifier::external_body]
pub(crate) fn shared_map_remove(m: &Arc<Mutex<HashMap<String, String>>>, k: &str)
{
    m.lock().unwrap_or_else(|e| e.into_inner()).remove(k);
}

} // verus!
