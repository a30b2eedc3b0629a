//! JSON documents as `json_get` and `json_set` read and write them: the
//! document is parsed by `serde_json` into a [`JsonValue`], walked along a
//! dotted path, and rendered back by `serde_json`.

use vstd::prelude::*;
use crate::errors::{SubstitutionError, ErrV};
use crate::jsonpath::{JsonPathSegment, JsonStep, step_view, json_path, path_view, parse_json_path};
use crate::text::{dec, dec_exec, chars_of, string_of, push_str, push_all, seq_eq};

verus! {

/// A JSON value. Object entries keep their keys distinct; a number is held
/// as the text that `serde_json` prints for it.
#[derive(Debug)]
pub enum JsonValue {
    Null,
    Bool(bool),
    Number(String),
    Str(String),
    Array(Vec<JsonValue>),
    Object(Vec<(String, JsonValue)>),
}

/// A JSON value by its contents.
pub enum JVal {
    Null,
    Bool(bool),
    Number(Seq<char>),
    Str(Seq<char>),
    Array(Seq<JVal>),
    Object(Seq<(Seq<char>, JVal)>),
}

pub open spec fn jv(v: JsonValue) -> JVal
    decreases v, 1nat,
{
    match v {
        JsonValue::Null => JVal::Null,
        JsonValue::Bool(b) => JVal::Bool(b),
        JsonValue::Number(n) => JVal::Number(n@),
        JsonValue::Str(s) => JVal::Str(s@),
        JsonValue::Array(a) => JVal::Array(jv_list(a@, a@.len() as int)),
        JsonValue::Object(es) => JVal::Object(jv_entries(es@, es@.len() as int)),
    }
}

/// The first `n` items, by their contents.
pub open spec fn jv_list(s: Seq<JsonValue>, n: int) -> Seq<JVal>
    decreases s, 0nat, n,
{
    if n <= 0 || n > s.len() {
        Seq::empty()
    } else {
        jv_list(s, n - 1).push(jv(s[n - 1]))
    }
}

/// The first `n` entries, by their contents.
pub open spec fn jv_entries(s: Seq<(String, JsonValue)>, n: int) -> Seq<(Seq<char>, JVal)>
    decreases s, 0nat, n,
{
    if n <= 0 || n > s.len() {
        Seq::empty()
    } else {
        jv_entries(s, n - 1).push((s[n - 1].0@, jv(s[n - 1].1)))
    }
}

impl View for JsonValue {
    type V = JVal;

    open spec fn view(&self) -> JVal {
        jv(*self)
    }
}

proof fn lemma_jv_list(s: Seq<JsonValue>, n: int)
    requires
        0 <= n <= s.len(),
    ensures
        jv_list(s, n).len() == n,
        forall|i: int| 0 <= i < n ==> #[trigger] jv_list(s, n)[i] == jv(s[i]),
    decreases n,
{
    if n > 0 {
        lemma_jv_list(s, n - 1);
    }
}

proof fn lemma_jv_entries(s: Seq<(String, JsonValue)>, n: int)
    requires
        0 <= n <= s.len(),
    ensures
        jv_entries(s, n).len() == n,
        forall|i: int| 0 <= i < n ==> #[trigger] jv_entries(s, n)[i] == (s[i].0@, jv(s[i].1)),
    decreases n,
{
    if n > 0 {
        lemma_jv_entries(s, n - 1);
    }
}

/// The items of an array, by their contents.
pub open spec fn items(a: Seq<JsonValue>) -> Seq<JVal> {
    jv_list(a, a.len() as int)
}

/// The entries of an object, by their contents.
pub open spec fn entries(es: Seq<(String, JsonValue)>) -> Seq<(Seq<char>, JVal)> {
    jv_entries(es, es.len() as int)
}

proof fn lemma_items(a: Seq<JsonValue>)
    ensures
        items(a).len() == a.len(),
        forall|i: int| 0 <= i < a.len() ==> #[trigger] items(a)[i] == jv(a[i]),
{
    lemma_jv_list(a, a.len() as int);
}

proof fn lemma_entries(es: Seq<(String, JsonValue)>)
    ensures
        entries(es).len() == es.len(),
        forall|i: int| 0 <= i < es.len() ==> #[trigger] entries(es)[i] == (es[i].0@, jv(es[i].1)),
{
    lemma_jv_entries(es, es.len() as int);
}

// ── serde_json ──────────────────────────────────────────────────────────

#[verifier::external_type_specification]
#[verifier::external_body]
pub struct ExJsonDocument(serde_json::Value);

/// What `serde_json::from_str::<serde_json::Value>` reads from a text: the
/// value, or the text of its error.
pub uninterp spec fn json_read(doc: Seq<char>) -> Result<JVal, Seq<char>>;

/// What `serde_json::to_string` prints for a value: compact JSON.
pub uninterp spec fn json_text(v: JVal) -> Seq<char>;

/// A `serde_json::Value` as a [`JsonValue`], node for node: a number keeps
/// the text that `Number`'s `Display` gives, an object its entries in the
/// map's (key) order.
#[verifier::external_body]
fn value_of(v: serde_json::Value) -> JsonValue {
    match v {
        serde_json::Value::Null => JsonValue::Null,
        serde_json::Value::Bool(b) => JsonValue::Bool(b),
        serde_json::Value::Number(n) => JsonValue::Number(n.to_string()),
        serde_json::Value::String(s) => JsonValue::Str(s),
        serde_json::Value::Array(a) => JsonValue::Array(a.into_iter().map(value_of).collect()),
        serde_json::Value::Object(m) => JsonValue::Object(m.into_iter().map(|(k, x)| (k, value_of(x))).collect()),
    }
}

/// A [`JsonValue`] as a `serde_json::Value`, node for node: a number's text
/// is read back by `Number`'s `FromStr`.
#[verifier::external_body]
fn serde_value_of(v: &JsonValue) -> serde_json::Value {
    match v {
        JsonValue::Null => serde_json::Value::Null,
        JsonValue::Bool(b) => serde_json::Value::Bool(*b),
        JsonValue::Number(n) => n.parse::<serde_json::Number>().map(serde_json::Value::Number).unwrap_or(serde_json::Value::Null),
        JsonValue::Str(s) => serde_json::Value::String(s.clone()),
        JsonValue::Array(a) => serde_json::Value::Array(a.iter().map(serde_value_of).collect()),
        JsonValue::Object(es) => serde_json::Value::Object(es.iter().map(|(k, x)| (k.clone(), serde_value_of(x))).collect()),
    }
}

/// `serde_json::from_str::<serde_json::Value>`: the value read (named
/// [`json_read`]), or the text of the error.
#[verifier::external_body]
fn json_parse(doc: &str) -> (r: Result<JsonValue, String>)
    ensures
        match r {
            Ok(v) => json_read(doc@) == Ok::<JVal, Seq<char>>(v@),
            Err(e) => json_read(doc@) == Err::<JVal, Seq<char>>(e@),
        },
{
    match serde_json::from_str::<serde_json::Value>(doc) {
        Ok(v) => Ok(value_of(v)),
        Err(e) => Err(e.to_string()),
    }
}

/// `serde_json::to_string` of the value (named [`json_text`]).
#[verifier::external_body]
fn json_compact(v: &JsonValue) -> (r: String)
    ensures
        r@ == json_text(v@),
{
    serde_json::to_string(&serde_value_of(v)).unwrap_or_default()
}

// ── the path walk ───────────────────────────────────────────────────────

/// The steps of parsed path segments.
pub open spec fn steps_of(p: Seq<JsonPathSegment>) -> Seq<JsonStep> {
    p.map_values(|s: JsonPathSegment| step_view(s))
}

/// The index of the first entry with key `k`, searching from `i`.
pub open spec fn find_key(es: Seq<(Seq<char>, JVal)>, k: Seq<char>, i: int) -> Option<int>
    decreases es.len() - i,
{
    if i < 0 || i >= es.len() {
        None
    } else if es[i].0 == k {
        Some(i)
    } else {
        find_key(es, k, i + 1)
    }
}

proof fn lemma_find_key(es: Seq<(Seq<char>, JVal)>, k: Seq<char>, i: int)
    requires
        0 <= i,
    ensures
        match find_key(es, k, i) {
            Some(j) => i <= j < es.len() && es[j].0 == k,
            None => forall|j: int| i <= j < es.len() ==> (#[trigger] es[j]).0 != k,
        },
    decreases es.len() - i,
{
    if i < es.len() && es[i].0 != k {
        lemma_find_key(es, k, i + 1);
    }
}

/// The value at `path` below `v`: a key reads an object's entry, an index
/// an array's item or, on an object, the entry keyed by the index's digits;
/// `None` where the path leads nowhere.
pub open spec fn json_lookup(v: JVal, path: Seq<JsonStep>) -> Option<JVal>
    decreases path.len(),
{
    if path.len() == 0 {
        Some(v)
    } else {
        match (v, path[0]) {
            (JVal::Object(es), JsonStep::Key(k)) => match find_key(es, k, 0) {
                Some(i) => json_lookup(es[i].1, path.skip(1)),
                None => None,
            },
            (JVal::Array(a), JsonStep::Index(i)) => if i < a.len() {
                json_lookup(a[i as int], path.skip(1))
            } else {
                None
            },
            (JVal::Object(es), JsonStep::Index(i)) => match find_key(es, dec(i), 0) {
                Some(j) => json_lookup(es[j].1, path.skip(1)),
                None => None,
            },
            _ => None,
        }
    }
}

/// Largest array index that `json_set` creates.
pub const MAX_JSON_SET_INDEX: usize = 1000000;

pub open spec fn index_limit_text(i: nat) -> Seq<char> {
    "array index "@ + dec(i) + " exceeds the maximum of 1000000"@
}

/// `a` extended with nulls to length `m`.
pub open spec fn padded(a: Seq<JVal>, m: int) -> Seq<JVal> {
    if a.len() >= m {
        a
    } else {
        a + Seq::new((m - a.len()) as nat, |j: int| JVal::Null)
    }
}

/// `v` with the value at `path` set to `new`. A key makes `v` an object
/// (replacing any other value) and adds the key, as `null`, when missing;
/// an index makes `v` an array and extends it with `null`s to reach the
/// index, and is refused above [`MAX_JSON_SET_INDEX`].
pub open spec fn json_assign(v: JVal, path: Seq<JsonStep>, new: JVal) -> Result<JVal, ErrV>
    decreases path.len(),
{
    if path.len() == 0 {
        Ok(new)
    } else {
        match path[0] {
            JsonStep::Key(k) => {
                let es = match v {
                    JVal::Object(es) => es,
                    _ => Seq::empty(),
                };
                match find_key(es, k, 0) {
                    Some(i) => match json_assign(es[i].1, path.skip(1), new) {
                        Ok(c) => Ok(JVal::Object(es.update(i, (k, c)))),
                        Err(e) => Err(e),
                    },
                    None => match json_assign(JVal::Null, path.skip(1), new) {
                        Ok(c) => Ok(JVal::Object(es.push((k, c)))),
                        Err(e) => Err(e),
                    },
                }
            },
            JsonStep::Index(i) => if i > MAX_JSON_SET_INDEX {
                Err(ErrV::InvalidJsonPath(dec(i), index_limit_text(i)))
            } else {
                let a = padded(match v {
                    JVal::Array(a) => a,
                    _ => Seq::empty(),
                }, i + 1int);
                match json_assign(a[i as int], path.skip(1), new) {
                    Ok(c) => Ok(JVal::Array(a.update(i as int, c))),
                    Err(e) => Err(e),
                }
            },
        }
    }
}

/// The text `json_get` gives for a value: a string itself, `null`, `true`
/// or `false`, a number's text, and compact JSON for arrays and objects.
pub open spec fn rendered(v: JVal) -> Seq<char> {
    match v {
        JVal::Str(s) => s,
        JVal::Null => "null"@,
        JVal::Bool(b) => if b { "true"@ } else { "false"@ },
        JVal::Number(n) => n,
        _ => json_text(v),
    }
}

/// `json_get(doc, path)`: the rendered value at `path`, or nothing where
/// the path leads nowhere; an error for a document that does not parse or
/// a malformed path.
pub open spec fn json_get_result(doc: Seq<char>, path: Seq<char>) -> Result<Seq<char>, ErrV> {
    match json_read(doc) {
        Err(m) => Err(ErrV::InvalidJson("json_get"@, m)),
        Ok(v) => match json_path(path) {
            Err(e) => Err(e),
            Ok(p) => Ok(match json_lookup(v, p) {
                Some(x) => rendered(x),
                None => Seq::empty(),
            }),
        },
    }
}

/// `json_set(doc, path, value)`: the document with the value at `path` set
/// to `value` read as JSON (or as a string when it does not parse), printed
/// compactly.
pub open spec fn json_set_result(doc: Seq<char>, path: Seq<char>, value: Seq<char>) -> Result<Seq<char>, ErrV> {
    match json_read(doc) {
        Err(m) => Err(ErrV::InvalidJson("json_set"@, m)),
        Ok(v) => match json_path(path) {
            Err(e) => Err(e),
            Ok(p) => {
                let nv = match json_read(value) {
                    Ok(x) => x,
                    Err(_) => JVal::Str(value),
                };
                match json_assign(v, p, nv) {
                    Err(e) => Err(e),
                    Ok(r) => Ok(json_text(r)),
                }
            },
        },
    }
}

fn text_lit(s: &str) -> (r: String)
    ensures
        r@ == s@,
{
    let mut v: Vec<char> = Vec::new();
    push_str(&mut v, s);
    string_of(&v)
}

proof fn lemma_items_push(a: Seq<JsonValue>, x: JsonValue)
    ensures
        items(a.push(x)) == items(a).push(jv(x)),
{
    lemma_items(a);
    lemma_items(a.push(x));
    assert(items(a.push(x)) =~= items(a).push(jv(x)));
}

/// The index of the first entry keyed `k`.
fn find_key_x(es: &Vec<(String, JsonValue)>, k: &str) -> (r: Option<usize>)
    ensures
        match r {
            Some(i) => find_key(entries(es@), k@, 0) == Some(i as int) && i < es@.len() && es@[i as int].0@ == k@,
            None => find_key(entries(es@), k@, 0) is None,
        },
{
    proof {
        lemma_entries(es@);
    }
    let want = chars_of(k);
    let mut i: usize = 0;
    while i < es.len()
        invariant
            i <= es.len(),
            want@ == k@,
            entries(es@).len() == es@.len(),
            forall|j: int| 0 <= j < es@.len() ==> #[trigger] entries(es@)[j] == (es@[j].0@, jv(es@[j].1)),
            find_key(entries(es@), k@, 0) == find_key(entries(es@), k@, i as int),
        decreases es.len() - i,
    {
        let key = chars_of(es[i].0.as_str());
        if seq_eq(&key, &want) {
            return Some(i);
        }
        i += 1;
    }
    None
}

/// The value at `path` below `v`.
fn lookup<'a>(v: &'a JsonValue, path: &Vec<JsonPathSegment>) -> (r: Option<&'a JsonValue>)
    ensures
        match r {
            Some(x) => json_lookup(v@, steps_of(path@)) == Some(x@),
            None => json_lookup(v@, steps_of(path@)) is None,
        },
{
    let mut cur: &'a JsonValue = v;
    let mut k: usize = 0;
    assert(steps_of(path@).skip(0) =~= steps_of(path@));
    while k < path.len()
        invariant
            k <= path.len(),
            json_lookup(v@, steps_of(path@)) == json_lookup(cur@, steps_of(path@).skip(k as int)),
        decreases path.len() - k,
    {
        let ghost rest = steps_of(path@).skip(k as int);
        assert(rest.skip(1) =~= steps_of(path@).skip(k + 1));
        assert(rest[0] == step_view(path@[k as int]));
        match cur {
            JsonValue::Object(es) => {
                proof {
                    lemma_entries(es@);
                }
                let i = match &path[k] {
                    JsonPathSegment::Key(key) => find_key_x(es, key.as_str()),
                    JsonPathSegment::Index(n) => {
                        let key = string_of(&dec_exec(*n));
                        find_key_x(es, key.as_str())
                    },
                };
                match i {
                    Some(i) => {
                        cur = &es[i].1;
                    },
                    None => {
                        return None;
                    },
                }
            },
            JsonValue::Array(a) => {
                proof {
                    lemma_items(a@);
                }
                match &path[k] {
                    JsonPathSegment::Index(n) => {
                        if *n < a.len() {
                            cur = &a[*n];
                        } else {
                            return None;
                        }
                    },
                    JsonPathSegment::Key(_) => {
                        return None;
                    },
                }
            },
            _ => {
                return None;
            },
        }
        k += 1;
    }
    assert(steps_of(path@).skip(k as int).len() == 0);
    Some(cur)
}

/// The message for an index above [`MAX_JSON_SET_INDEX`].
fn index_limit_x(i: usize) -> (r: String)
    ensures
        r@ == index_limit_text(i as nat),
{
    let mut m: Vec<char> = Vec::new();
    push_str(&mut m, "array index ");
    let d = dec_exec(i);
    push_all(&mut m, &d);
    push_str(&mut m, " exceeds the maximum of 1000000");
    string_of(&m)
}

/// `v` with the value at the steps of `path` from `k` on set to `new`.
fn assign(v: JsonValue, path: &Vec<JsonPathSegment>, k: usize, new: JsonValue) -> (r: Result<JsonValue, SubstitutionError>)
    requires
        k <= path.len(),
    ensures
        match r {
            Ok(x) => json_assign(v@, steps_of(path@).skip(k as int), new@) == Ok::<JVal, ErrV>(x@),
            Err(e) => json_assign(v@, steps_of(path@).skip(k as int), new@) == Err::<JVal, ErrV>(e@),
        },
    decreases path.len() - k,
{
    let ghost rest = steps_of(path@).skip(k as int);
    let ghost vv = v@;
    if k == path.len() {
        assert(rest.len() == 0);
        return Ok(new);
    }
    assert(rest.skip(1) =~= steps_of(path@).skip(k + 1));
    assert(rest[0] == step_view(path@[k as int]));
    match &path[k] {
        JsonPathSegment::Key(key) => {
            let mut es: Vec<(String, JsonValue)> = match v {
                JsonValue::Object(es) => es,
                _ => Vec::new(),
            };
            assert(entries(es@) == match vv {
                JVal::Object(e) => e,
                _ => Seq::<(Seq<char>, JVal)>::empty(),
            });
            let ghost e0 = es@;
            proof {
                lemma_entries(e0);
            }
            match find_key_x(&es, key.as_str()) {
                Some(i) => {
                    let (kk, child) = es.remove(i);
                    assert(kk@ == key@) by {
                        lemma_find_key(entries(e0), key@, 0);
                    }
                    let sub = assign(child, path, k + 1, new);
                    match sub {
                        Ok(c) => {
                            let ghost cv = c@;
                            es.insert(i, (kk, c));
                            proof {
                                lemma_entries(es@);
                                assert(entries(es@) =~= entries(e0).update(i as int, (key@, cv)));
                            }
                            Ok(JsonValue::Object(es))
                        },
                        Err(e) => Err(e),
                    }
                },
                None => {
                    let sub = assign(JsonValue::Null, path, k + 1, new);
                    match sub {
                        Ok(c) => {
                            let ghost cv = c@;
                            es.push((key.clone(), c));
                            proof {
                                lemma_entries(es@);
                                assert(entries(es@) =~= entries(e0).push((key@, cv)));
                            }
                            Ok(JsonValue::Object(es))
                        },
                        Err(e) => Err(e),
                    }
                },
            }
        },
        JsonPathSegment::Index(n) => {
            let i = *n;
            if i > MAX_JSON_SET_INDEX {
                return Err(SubstitutionError::InvalidJsonPath(string_of(&dec_exec(i)), index_limit_x(i)));
            }
            let mut a: Vec<JsonValue> = match v {
                JsonValue::Array(a) => a,
                _ => Vec::new(),
            };
            let ghost a0 = items(a@);
            assert(a0 == match vv {
                JVal::Array(x) => x,
                _ => Seq::<JVal>::empty(),
            });
            proof {
                lemma_items(a@);
                assert(padded(a0, a@.len() as int) == a0);
            }
            while a.len() <= i
                invariant
                    i <= MAX_JSON_SET_INDEX,
                    a@.len() >= a0.len(),
                    a@.len() == a0.len() || a@.len() <= i + 1,
                    items(a@) == padded(a0, a@.len() as int),
                decreases i + 1 - a.len(),
            {
                let ghost before = a@;
                a.push(JsonValue::Null);
                proof {
                    lemma_items_push(before, JsonValue::Null);
                    assert(padded(a0, a@.len() as int) =~= padded(a0, before.len() as int).push(JVal::Null));
                }
            }
            assert(items(a@) == padded(a0, i + 1));
            proof {
                lemma_items(a@);
            }
            let ghost a1 = a@;
            let child = a.remove(i);
            let sub = assign(child, path, k + 1, new);
            match sub {
                Ok(c) => {
                    let ghost cv = c@;
                    a.insert(i, c);
                    proof {
                        lemma_items(a@);
                        assert(items(a@) =~= items(a1).update(i as int, cv));
                    }
                    Ok(JsonValue::Array(a))
                },
                Err(e) => Err(e),
            }
        },
    }
}

/// The text of a value as `json_get` gives it.
fn render_x(v: &JsonValue) -> (r: String)
    ensures
        r@ == rendered(v@),
{
    match v {
        JsonValue::Str(s) => s.clone(),
        JsonValue::Null => text_lit("null"),
        JsonValue::Bool(b) => if *b { text_lit("true") } else { text_lit("false") },
        JsonValue::Number(n) => n.clone(),
        _ => json_compact(v),
    }
}

/// `json_get(doc, path)` (see [`json_get_result`]).
pub fn json_get(doc: &str, path: &str) -> (r: Result<String, SubstitutionError>)
    ensures
        match r {
            Ok(s) => json_get_result(doc@, path@) == Ok::<Seq<char>, ErrV>(s@),
            Err(e) => json_get_result(doc@, path@) == Err::<Seq<char>, ErrV>(e@),
        },
{
    let v = match json_parse(doc) {
        Ok(v) => v,
        Err(m) => {
            return Err(SubstitutionError::InvalidJson(text_lit("json_get"), m));
        },
    };
    let p = match parse_json_path(path) {
        Ok(p) => p,
        Err(e) => {
            return Err(e);
        },
    };
    match lookup(&v, &p) {
        Some(x) => Ok(render_x(x)),
        None => Ok(String::new()),
    }
}

/// `json_set(doc, path, value)` (see [`json_set_result`]).
pub fn json_set(doc: &str, path: &str, value: &str) -> (r: Result<String, SubstitutionError>)
    ensures
        match r {
            Ok(s) => json_set_result(doc@, path@, value@) == Ok::<Seq<char>, ErrV>(s@),
            Err(e) => json_set_result(doc@, path@, value@) == Err::<Seq<char>, ErrV>(e@),
        },
{
    let v = match json_parse(doc) {
        Ok(v) => v,
        Err(m) => {
            return Err(SubstitutionError::InvalidJson(text_lit("json_set"), m));
        },
    };
    let p = match parse_json_path(path) {
        Ok(p) => p,
        Err(e) => {
            return Err(e);
        },
    };
    let nv = match json_parse(value) {
        Ok(x) => x,
        Err(_) => JsonValue::Str(text_lit(value)),
    };
    assert(steps_of(p@).skip(0) =~= steps_of(p@));
    match assign(v, &p, 0, nv) {
        Ok(r) => Ok(json_compact(&r)),
        Err(e) => Err(e),
    }
}

} // verus!
