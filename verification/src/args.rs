//! Command-line arguments of a target run, the execution context, and the
//! substitution of `{{ ... }}` templates against them.

use vstd::prelude::*;
use std::collections::{HashMap, HashSet};
use std::sync::{Arc, Mutex};
use crate::errors::{SubstitutionError, ErrV};
use crate::model::{Chunk, Query, Answer, Stop, St, Ctx, walk, flat, lookup_first, find_from, lemma_find_from};
use crate::values::{ChunkX, QueryX, AnswerX, StopX, StX, CtxX, pairs_view, texts_view, chunks_view, answers_view,
    copy_chars, copy_pairs, text};
use crate::text::{chars_of, string_of, starts_with, occurs_lit, slice_of, seq_eq, push_all, push_str};
use crate::text::eq_lit;
use crate::builtins::{is_path_fn, is_path_fn_x};
use crate::paths::{path_part, join_path};
use crate::funcs::join_seq;
use crate::outside::{text_map, text_set, text_map_new, text_map_insert, text_map_entries, shared_map_new,
    shared_map_entries, shared_map_insert, text_set_new, text_set_insert, text_set_contains, lower};
use crate::engine::walk_x;
use crate::lex::{find_from_x, flat_x, lower_chars};

verus! {

// ── the execution context ───────────────────────────────────────────────

/// The operating system, architecture, shell and Runfile directory that
/// `{{ RUN.* }}` reads, and the merged Runfile's namespaces.
#[derive(Debug, Clone)]
pub struct RunContext {
    /// `"windows"`, `"linux"` or `"mac"`.
    pub os: String,
    /// `"x86-64"`, `"arm64"`, `"riscv64"` or `"unknown"`.
    pub arch: String,
    /// The resolved shell, lower case.
    pub shell: String,
    /// Directory of the Runfile that defines the running target.
    pub parent: String,
    /// Namespace prefixes of the merged Runfile, sorted and deduplicated.
    pub namespaces: Arc<Vec<String>>,
}

impl Default for RunContext {
    fn default() -> (r: Self)
        ensures
            r.os@ == Seq::<char>::empty(),
            r.arch@ == Seq::<char>::empty(),
            r.shell@ == Seq::<char>::empty(),
            r.parent@ == Seq::<char>::empty(),
            r.namespaces@.len() == 0,
    {
        RunContext {
            os: String::new(),
            arch: String::new(),
            shell: String::new(),
            parent: String::new(),
            namespaces: Arc::new(Vec::new()),
        }
    }
}

impl RunContext {
    /// A context for the given platform and shell, with no namespaces.
    pub fn for_platform(os: String, arch: String, shell: String) -> (r: Self)
        ensures
            r.os@ == os@,
            r.arch@ == arch@,
            r.shell@ == shell@,
            r.parent@ == Seq::<char>::empty(),
            r.namespaces@.len() == 0,
    {
        RunContext { os, arch, shell, parent: String::new(), namespaces: Arc::new(Vec::new()) }
    }

    /// A context for the platform that `target_os` and `target_arch` name
    /// (the values of `std::env::consts::OS` and `ARCH`), with no namespaces.
    pub fn for_target(target_os: &str, target_arch: &str, shell: String) -> (r: Self)
        ensures
            r.os@ == os_name(target_os@),
            r.arch@ == arch_name(target_arch@),
            r.shell@ == shell@,
            r.parent@ == Seq::<char>::empty(),
            r.namespaces@.len() == 0,
    {
        let os = os_name_x(target_os);
        let arch = arch_name_x(target_arch);
        RunContext::for_platform(os, arch, shell)
    }

    /// Builder: the namespace list, replacing any earlier one.
    pub fn with_namespaces(self, namespaces: Arc<Vec<String>>) -> (r: Self)
        ensures
            r.namespaces == namespaces,
            r.os == self.os,
            r.arch == self.arch,
            r.shell == self.shell,
            r.parent == self.parent,
    {
        RunContext { os: self.os, arch: self.arch, shell: self.shell, parent: self.parent, namespaces }
    }
}

/// The `{{ RUN.os }}` name of a target OS: `windows`, `mac` for `macos`,
/// and `linux` for every other.
pub open spec fn os_name(target_os: Seq<char>) -> Seq<char> {
    if target_os == "windows"@ {
        "windows"@
    } else if target_os == "macos"@ {
        "mac"@
    } else {
        "linux"@
    }
}

/// The `{{ RUN.arch }}` name of a target architecture: `x86-64`, `arm64`,
/// `riscv64`, or `unknown` for every other.
pub open spec fn arch_name(target_arch: Seq<char>) -> Seq<char> {
    if target_arch == "x86_64"@ {
        "x86-64"@
    } else if target_arch == "aarch64"@ {
        "arm64"@
    } else if target_arch == "riscv64"@ {
        "riscv64"@
    } else {
        "unknown"@
    }
}

fn lit_string(s: &str) -> (r: String)
    ensures
        r@ == s@,
{
    let mut v: Vec<char> = Vec::new();
    push_str(&mut v, s);
    string_of(&v)
}

fn os_name_x(target_os: &str) -> (r: String)
    ensures
        r@ == os_name(target_os@),
{
    let c = chars_of(target_os);
    if crate::text::eq_lit(&c, "windows") {
        lit_string("windows")
    } else if crate::text::eq_lit(&c, "macos") {
        lit_string("mac")
    } else {
        lit_string("linux")
    }
}

fn arch_name_x(target_arch: &str) -> (r: String)
    ensures
        r@ == arch_name(target_arch@),
{
    let c = chars_of(target_arch);
    if crate::text::eq_lit(&c, "x86_64") {
        lit_string("x86-64")
    } else if crate::text::eq_lit(&c, "aarch64") {
        lit_string("arm64")
    } else if crate::text::eq_lit(&c, "riscv64") {
        lit_string("riscv64")
    } else {
        lit_string("unknown")
    }
}

// ── loop bindings ───────────────────────────────────────────────────────

/// The bindings of the `for` loops around a command, innermost last, read
/// by `{{ LOOP.<name> }}`.
#[derive(Debug, Clone)]
pub struct LoopScope {
    bindings: Vec<(String, String)>,
}

pub open spec fn string_pairs(p: Seq<(String, String)>) -> Seq<(Seq<char>, Seq<char>)> {
    p.map_values(|e: (String, String)| (e.0@, e.1@))
}

impl View for LoopScope {
    type V = Seq<(Seq<char>, Seq<char>)>;

    closed spec fn view(&self) -> Seq<(Seq<char>, Seq<char>)> {
        string_pairs(self.bindings@)
    }
}

impl LoopScope {
    /// No bindings.
    pub fn new() -> (r: Self)
        ensures
            r@ == Seq::<(Seq<char>, Seq<char>)>::empty(),
    {
        let r = LoopScope { bindings: Vec::new() };
        assert(r@ =~= Seq::<(Seq<char>, Seq<char>)>::empty());
        r
    }

    /// Binds `name` to `value`, innermost.
    pub fn push(&mut self, name: String, value: String)
        ensures
            final(self)@ == old(self)@.push((name@, value@)),
    {
        let ghost o = self.bindings@;
        let ghost nv = (name@, value@);
        self.bindings.push((name, value));
        assert(self.bindings@ == o.push((name, value)));
        assert(string_pairs(self.bindings@).len() == string_pairs(o).len() + 1);
        assert(string_pairs(self.bindings@) =~= string_pairs(o).push(nv));
    }

    /// Drops the innermost binding; nothing happens when there is none.
    pub fn pop(&mut self)
        ensures
            final(self)@ == if old(self)@.len() == 0 { old(self)@ } else { old(self)@.drop_last() },
    {
        let ghost o = self.bindings@;
        if self.bindings.len() > 0 {
            self.bindings.pop();
            assert(self.bindings@ == o.drop_last());
            assert(string_pairs(self.bindings@) =~= string_pairs(o).drop_last());
        }
    }

    /// The value of the innermost binding of `name`.
    pub fn get(&self, name: &str) -> (r: Option<String>)
        ensures
            match r {
                Some(v) => lookup_last_spec(self@, name@) == Some(v@),
                None => lookup_last_spec(self@, name@) is None,
            },
    {
        let mut j = self.bindings.len();
        assert(self@.take(j as int) =~= self@);
        while j > 0
            invariant
                j <= self.bindings.len(),
                lookup_last_spec(self@, name@) == lookup_last_spec(self@.take(j as int), name@),
            decreases j,
        {
            let ghost pre = self@.take(j as int);
            assert(pre.last() == (self.bindings@[j - 1].0@, self.bindings@[j - 1].1@));
            let key = chars_of(self.bindings[j - 1].0.as_str());
            let want = chars_of(name);
            if seq_eq(&key, &want) {
                return Some(self.bindings[j - 1].1.clone());
            }
            assert(pre.drop_last() =~= self@.take(j - 1));
            j -= 1;
        }
        None
    }

    /// Whether there is no binding.
    pub fn is_empty(&self) -> (r: bool)
        ensures
            r == (self@.len() == 0),
    {
        self.bindings.len() == 0
    }

    /// The bindings, as character vectors.
    fn pairs(&self) -> (r: Vec<(Vec<char>, Vec<char>)>)
        ensures
            pairs_view(r@) == self@,
    {
        string_pairs_x(&self.bindings)
    }
}

pub open spec fn lookup_last_spec(p: Seq<(Seq<char>, Seq<char>)>, k: Seq<char>) -> Option<Seq<char>> {
    crate::model::lookup_last(p, k)
}

fn string_pairs_x(v: &Vec<(String, String)>) -> (r: Vec<(Vec<char>, Vec<char>)>)
    ensures
        pairs_view(r@) == string_pairs(v@),
{
    let mut r: Vec<(Vec<char>, Vec<char>)> = Vec::new();
    let mut i: usize = 0;
    while i < v.len()
        invariant
            i <= v.len(),
            pairs_view(r@) == string_pairs(v@).take(i as int),
        decreases v.len() - i,
    {
        let x = (chars_of(v[i].0.as_str()), chars_of(v[i].1.as_str()));
        let ghost old_r = r@;
        assert(pairs_view(old_r).len() == i);
        r.push(x);
        assert(r@ == old_r.push(x));
        assert(pairs_view(r@).len() == i + 1);
        assert(pairs_view(r@) =~= string_pairs(v@).take(i + 1));
        i += 1;
    }
    assert(string_pairs(v@).take(v.len() as int) =~= string_pairs(v@));
    r
}

// ── outside answers ─────────────────────────────────────────────────────

/// Asks the user for values that a substitution is missing, when the run
/// was started with `--stdin-args`. Implementations keep their answers, so
/// that a key is asked at most once per run.
pub trait StdinPrompter: Send + Sync {
    /// `answer` is an answer this prompter may give when asked for `key`
    /// with the hint `default`; each implementation says what that means
    /// for it. An implementation that does not say admits every answer.
    closed spec fn gave_value(&self, key: Seq<char>, default: Option<Seq<char>>, answer: Option<Seq<char>>) -> bool {
        true
    }

    /// `answer` is an answer this prompter may give when asked whether the
    /// flag `key` is set. An implementation that does not say admits both.
    closed spec fn gave_flag(&self, key: Seq<char>, answer: bool) -> bool {
        true
    }

    /// A value for `key` (`"ARGS.foo"`, `"ENV.HOST"`), with the chain's
    /// literal default when it has one; `None` for an empty answer.
    fn prompt_value(&self, key: &str, default: Option<&str>) -> (r: Option<String>)
        ensures
            self.gave_value(key@, match default { Some(d) => Some(d@), None => None }, match r { Some(s) => Some(s@), None => None }),
    ;

    /// Whether the flag `key` (`"--verbose"`) is to be taken as set.
    fn prompt_flag(&self, key: &str) -> (r: bool)
        ensures
            self.gave_flag(key@, r),
    ;
}

/// Computes the functions that touch the machine (files, the clock, a
/// shell, temporary files, the working directory, floating point).
/// `None` when it does not know the function.
pub trait FunctionHost: Send + Sync {
    fn call(&self, name: &str, args: &[String]) -> Option<Result<String, SubstitutionError>>;
}

// ── the arguments ───────────────────────────────────────────────────────

/// The arguments of a run: the words as given, the named ones among them,
/// the execution context, and the run-wide variable store.
#[derive(Clone)]
pub struct RunArgs {
    /// The arguments exactly as passed, in order.
    pub original: Vec<String>,
    /// Named arguments, from `--key=value` or `--key value` (or `--key`).
    pub named: HashMap<String, String>,
    /// What `{{ RUN.* }}` reads.
    pub run_context: RunContext,
    /// When present, missing values and flags are asked for.
    pub stdin_prompter: Option<Arc<dyn StdinPrompter>>,
    /// The variables of `define`, shared by every clone.
    pub vars: Arc<Mutex<HashMap<String, String>>>,
    /// A dry run: functions with effects answer with a placeholder.
    pub dry_run: bool,
    /// Computes the functions that touch the machine.
    pub host: Option<Arc<dyn FunctionHost>>,
}

/// The named arguments of `args` from `i` on, added to `m`: `--k=v`,
/// `--k v` when the next word does not start with `--`, and `--k` alone
/// (empty value); a later occurrence of a key wins.
pub open spec fn named_from(args: Seq<Seq<char>>, i: int, m: Map<Seq<char>, Seq<char>>) -> Map<Seq<char>, Seq<char>>
    decreases args.len() - i,
{
    if i < 0 || i >= args.len() {
        m
    } else if starts_with(args[i], "--"@) {
        let st = args[i].skip("--"@.len() as int);
        match find_from(st, "="@, 0) {
            Some(p) => named_from(args, i + 1, m.insert(st.take(p), st.skip(p + "="@.len()))),
            None => if st.len() == 0 {
                named_from(args, i + 1, m)
            } else if i + 1 < args.len() && !starts_with(args[i + 1], "--"@) {
                named_from(args, i + 2, m.insert(st, args[i + 1]))
            } else {
                named_from(args, i + 1, m.insert(st, Seq::empty()))
            },
        }
    } else {
        named_from(args, i + 1, m)
    }
}

pub open spec fn strings_view(v: Seq<String>) -> Seq<Seq<char>> {
    v.map_values(|s: String| s@)
}

impl RunArgs {
    /// Parses the words of a run.
    pub fn parse(args: &[String]) -> (r: Self)
        ensures
            strings_view(r.original@) == strings_view(args@),
            text_map(r.named) == named_from(strings_view(args@), 0, Map::empty()),
            r.run_context.os@ == Seq::<char>::empty(),
            r.run_context.shell@ == Seq::<char>::empty(),
            r.stdin_prompter is None,
            r.host is None,
            !r.dry_run,
    {
        let ghost av = strings_view(args@);
        let mut original: Vec<String> = Vec::new();
        let mut k: usize = 0;
        while k < args.len()
            invariant
                k <= args.len(),
                av == strings_view(args@),
                strings_view(original@) == av.take(k as int),
            decreases args.len() - k,
        {
            let x = args[k].clone();
            let ghost o = original@;
            assert(strings_view(o).len() == k);
            original.push(x);
            assert(original@ == o.push(x));
            assert(strings_view(original@).len() == k + 1);
            assert(strings_view(original@) =~= av.take(k + 1));
            k += 1;
        }
        assert(av.take(args.len() as int) =~= av);
        let mut named = text_map_new();
        let mut i: usize = 0;
        while i < args.len()
            invariant
                i <= args.len(),
                av == strings_view(args@),
                named_from(av, 0, Map::empty()) == named_from(av, i as int, text_map(named)),
            decreases args.len() - i,
        {
            let a = chars_of(args[i].as_str());
            assert(a@ == av[i as int]);
            if occurs_lit(&a, 0, "--") {
                let dd = chars_of("--");
                let st = slice_of(&a, dd.len(), a.len());
                assert(st@ == av[i as int].skip("--"@.len() as int));
                proof {
                    lemma_find_from(st@, "="@, 0);
                }
                match find_from_x(&st, "=") {
                    Some(p) => {
                        let eq = chars_of("=");
                        assert(p + eq@.len() <= st@.len());
                        let key = slice_of(&st, 0, p);
                        let value = slice_of(&st, p + eq.len(), st.len());
                        assert(key@ == st@.take(p as int));
                        assert(value@ == st@.skip(p + "="@.len()));
                        text_map_insert(&mut named, string_of(&key), string_of(&value));
                        i += 1;
                    },
                    None => {
                        if st.len() == 0 {
                            i += 1;
                        } else if i + 1 < args.len() && !occurs_lit(&chars_of(args[i + 1].as_str()), 0, "--") {
                            text_map_insert(&mut named, string_of(&st), args[i + 1].clone());
                            i += 2;
                        } else {
                            text_map_insert(&mut named, string_of(&st), String::new());
                            i += 1;
                        }
                    },
                }
            } else {
                i += 1;
            }
        }
        RunArgs {
            original,
            named,
            run_context: RunContext::default(),
            stdin_prompter: None,
            vars: shared_map_new(),
            dry_run: false,
            host: None,
        }
    }

    /// Builder: the execution context.
    pub fn with_run_context(self, run_context: RunContext) -> (r: Self)
        ensures
            r.run_context == run_context,
            r.original == self.original,
            r.named == self.named,
            r.stdin_prompter == self.stdin_prompter,
            r.dry_run == self.dry_run,
    {
        RunArgs { run_context, ..self }
    }

    /// Builder: the prompter for missing values (`None` to fail on them).
    pub fn with_stdin_prompter(self, prompter: Option<Arc<dyn StdinPrompter>>) -> (r: Self)
        ensures
            r.stdin_prompter == prompter,
            r.original == self.original,
            r.named == self.named,
            r.run_context == self.run_context,
            r.dry_run == self.dry_run,
    {
        RunArgs { stdin_prompter: prompter, ..self }
    }

    /// Builder: the host of the functions that touch the machine.
    pub fn with_host(self, host: Option<Arc<dyn FunctionHost>>) -> (r: Self)
        ensures
            r.host == host,
            r.original == self.original,
            r.named == self.named,
            r.run_context == self.run_context,
            r.stdin_prompter == self.stdin_prompter,
            r.dry_run == self.dry_run,
    {
        RunArgs { host, ..self }
    }

    /// Builder: whether this is a dry run.
    pub fn with_dry_run(self, dry_run: bool) -> (r: Self)
        ensures
            r.dry_run == dry_run,
            r.original == self.original,
            r.named == self.named,
            r.run_context == self.run_context,
            r.stdin_prompter == self.stdin_prompter,
    {
        RunArgs { dry_run, ..self }
    }
}

impl Default for RunArgs {
    fn default() -> (r: Self)
        ensures
            r.original@.len() == 0,
            text_map(r.named) == Map::<Seq<char>, Seq<char>>::empty(),
            r.stdin_prompter is None,
            r.host is None,
            !r.dry_run,
    {
        RunArgs {
            original: Vec::new(),
            named: text_map_new(),
            run_context: RunContext::default(),
            stdin_prompter: None,
            vars: shared_map_new(),
            dry_run: false,
            host: None,
        }
    }
}


// ── the remaining arguments ─────────────────────────────────────────────

/// The words of `orig` from `i` on that `{{ ARGS }}` passes through: a
/// `--key=value` or `--key` whose key was read is left out, and so is the
/// value word after `--key` when the key was read as a named argument (not
/// as a flag) and has a non-empty value.
pub open spec fn kept_from(orig: Seq<Seq<char>>, named: Seq<(Seq<char>, Seq<char>)>, consumed: Seq<Seq<char>>, flags: Seq<Seq<char>>, i: int) -> Seq<Seq<char>>
    decreases orig.len() - i,
{
    if i < 0 || i >= orig.len() {
        Seq::empty()
    } else {
        let a = orig[i];
        if starts_with(a, "--"@) {
            let st = a.skip("--"@.len() as int);
            match find_from(st, "="@, 0) {
                Some(p) => if consumed.contains(st.take(p)) {
                    kept_from(orig, named, consumed, flags, i + 1)
                } else {
                    seq![a] + kept_from(orig, named, consumed, flags, i + 1)
                },
                None => if st.len() > 0 && consumed.contains(st) {
                    if !flags.contains(st) && i + 1 < orig.len() && !starts_with(orig[i + 1], "--"@)
                        && (lookup_first(named, st) matches Some(v) && v.len() > 0) {
                        kept_from(orig, named, consumed, flags, i + 2)
                    } else {
                        kept_from(orig, named, consumed, flags, i + 1)
                    }
                } else {
                    seq![a] + kept_from(orig, named, consumed, flags, i + 1)
                },
            }
        } else {
            seq![a] + kept_from(orig, named, consumed, flags, i + 1)
        }
    }
}

/// What `{{ ARGS }}` stands for once evaluation ended in state `s`.
pub open spec fn remaining(c: Ctx, s: St) -> Seq<char> {
    join_seq(kept_from(c.original, c.named, s.consumed, s.flags, 0), " "@)
}

fn contains_text_x(v: &Vec<Vec<char>>, k: &Vec<char>) -> (r: bool)
    ensures
        r == texts_view(v@).contains(k@),
{
    let mut i: usize = 0;
    while i < v.len()
        invariant
            i <= v.len(),
            forall|j: int| 0 <= j < i ==> #[trigger] texts_view(v@)[j] != k@,
        decreases v.len() - i,
    {
        assert(texts_view(v@)[i as int] == v@[i as int]@);
        if seq_eq(&v[i], k) {
            assert(texts_view(v@)[i as int] == k@);
            return true;
        }
        i += 1;
    }
    false
}

fn remaining_x(c: &CtxX, s: &StX) -> (r: Vec<char>)
    ensures
        r@ == remaining(c@, s@),
{
    let ghost cv = c@;
    let ghost sv = s@;
    let n = c.original.len();
    assert(cv.original.len() == n);
    let mut kept: Vec<Vec<char>> = Vec::new();
    let mut i: usize = 0;
    assert(texts_view(kept@) =~= Seq::<Seq<char>>::empty());
    assert(kept_from(cv.original, cv.named, sv.consumed, sv.flags, 0) =~= texts_view(kept@) + kept_from(cv.original, cv.named, sv.consumed, sv.flags, 0));
    while i < n
        invariant
            i <= n + 1,
            n == c.original.len(),
            cv == c@,
            sv == s@,
            kept_from(cv.original, cv.named, sv.consumed, sv.flags, 0)
                == texts_view(kept@) + kept_from(cv.original, cv.named, sv.consumed, sv.flags, i as int),
        decreases n + 1 - i,
    {
        let a = &c.original[i];
        assert(cv.original[i as int] == a@);
        let ghost tk = texts_view(kept@);
        let ghost rest1 = kept_from(cv.original, cv.named, sv.consumed, sv.flags, i + 1);
        let mut keep = true;
        let mut skip_two = false;
        if occurs_lit(a, 0, "--") {
            let dd = chars_of("--");
            let st = slice_of(a, dd.len(), a.len());
            assert(st@ == a@.skip("--"@.len() as int));
            proof {
                lemma_find_from(st@, "="@, 0);
            }
            match find_from_x(&st, "=") {
                Some(p) => {
                    let key = slice_of(&st, 0, p);
                    assert(key@ == st@.take(p as int));
                    if contains_text_x(&s.consumed, &key) {
                        keep = false;
                    }
                },
                None => {
                    if st.len() > 0 && contains_text_x(&s.consumed, &st) {
                        keep = false;
                        if !contains_text_x(&s.flags, &st) && i + 1 < n {
                            let next = &c.original[i + 1];
                            assert(cv.original[i + 1] == next@);
                            if !occurs_lit(next, 0, "--") {
                                match crate::lex::lookup_first_x(&c.named, &st) {
                                    Some(v) => {
                                        if v.len() > 0 {
                                            skip_two = true;
                                        }
                                    },
                                    None => {},
                                }
                            }
                        }
                    }
                },
            }
        }
        if keep {
            let x = copy_chars(a);
            let ghost ok = kept@;
            kept.push(x);
            assert(kept@ == ok.push(x));
            assert(texts_view(kept@) =~= tk.push(a@));
            assert(tk + (seq![a@] + rest1) =~= texts_view(kept@) + rest1);
            i += 1;
        } else if skip_two {
            i += 2;
        } else {
            i += 1;
        }
    }
    assert(texts_view(kept@) + kept_from(cv.original, cv.named, sv.consumed, sv.flags, i as int) =~= texts_view(kept@));
    let sep = chars_of(" ");
    let r = crate::funcs::join_from_x(&kept, 0, &sep);
    assert(texts_view(kept@).skip(0) =~= texts_view(kept@));
    r
}

// ── running a substitution ──────────────────────────────────────────────

/// How a run of the evaluator on template `t` ends, from state `s0`.
pub open spec fn outcome(c: Ctx, t: Seq<char>, s0: St) -> (Result<Seq<Chunk>, Stop>, St) {
    walk(c, t, false, 0, Seq::empty(), s0)
}

/// `c` with the answers `a`.
pub open spec fn with_answers(c: Ctx, a: Seq<Answer>) -> Ctx {
    Ctx {
        original: c.original,
        named: c.named,
        env: c.env,
        loopv: c.loopv,
        os: c.os,
        shell: c.shell,
        arch: c.arch,
        parent: c.parent,
        redact: c.redact,
        dry_run: c.dry_run,
        prompt: c.prompt,
        answers: a,
    }
}

/// An answer that `a` gives to a question: the prompter's answer for the
/// question's own key and default (no value and no flag without a
/// prompter); for a path function, a text, which the platform's path rules
/// decide; for another function, the host's result, and
/// `FunctionUnavailable` without a host.
pub open spec fn answers_fit(a: RunArgs, q: Query, ans: Answer) -> bool {
    match (q, ans) {
        (Query::Value { key, default }, Answer::Value(v)) => match a.stdin_prompter {
            Some(p) => p.gave_value(key, default, v),
            None => v is None,
        },
        (Query::Flag { key }, Answer::Flag(b)) => match a.stdin_prompter {
            Some(p) => p.gave_flag(key, b),
            None => !b,
        },
        (Query::Call { name, args }, Answer::Call(r)) => if is_path_fn(name) {
            r is Ok
        } else {
            match a.host {
                Some(_) => true,
                None => r == Err::<Seq<char>, ErrV>(ErrV::FunctionUnavailable(name)),
            }
        },
        _ => false,
    }
}

/// Each answer in `c` is what `a` answers to the question that the
/// evaluator, given the answers before it, stopped to ask.
pub open spec fn answered(a: RunArgs, c: Ctx, t: Seq<char>, s0: St) -> bool {
    forall|i: int| 0 <= i < c.answers.len() ==> (#[trigger] outcome(with_answers(c, c.answers.take(i)), t, s0).0 matches Err(Stop::Ask(q))
        && answers_fit(a, q, c.answers[i]))
}

pub open spec fn res_view(r: Result<String, SubstitutionError>) -> Result<Seq<char>, ErrV> {
    match r {
        Ok(s) => Ok(s@),
        Err(e) => Err(e@),
    }
}

/// What a substitution returns for the run that ended with answers
/// `c.answers`: the chunks' text with the remaining arguments in place of
/// `{{ ARGS }}`, or the error.
pub open spec fn result_of(c: Ctx, t: Seq<char>, s0: St, r: Result<Seq<char>, ErrV>) -> bool {
    match outcome(c, t, s0) {
        (Ok(cs), s1) => r == Ok::<Seq<char>, ErrV>(flat(cs, remaining(c, s1))),
        (Err(Stop::Fail(e)), _) => r == Err::<Seq<char>, ErrV>(e),
        (Err(Stop::Ask(_)), _) => r == Err::<Seq<char>, ErrV>(ErrV::TooManyQueries) && c.answers.len() == usize::MAX,
    }
}

/// `p` lists the entries of `m`, each key once.
pub open spec fn describes(p: Seq<(Seq<char>, Seq<char>)>, m: Map<Seq<char>, Seq<char>>) -> bool {
    &&& forall|i: int, j: int| 0 <= i < j < p.len() ==> (#[trigger] p[i]).0 != (#[trigger] p[j]).0
    &&& forall|i: int| 0 <= i < p.len() ==> m.contains_key((#[trigger] p[i]).0) && m[p[i].0] == p[i].1
    &&& forall|k: Seq<char>| #[trigger] m.contains_key(k) ==> exists|i: int| 0 <= i < p.len() && (#[trigger] p[i]).0 == k
}

/// No key occurs twice.
pub open spec fn distinct_keys(p: Seq<(Seq<char>, Seq<char>)>) -> bool {
    forall|i: int, j: int| 0 <= i < j < p.len() ==> (#[trigger] p[i]).0 != (#[trigger] p[j]).0
}

/// `c` and `s0` are what a substitution of `a` starts from, with the
/// environment `env`, the loop bindings `loopv`, redacted or not.
pub open spec fn setup(a: RunArgs, env: Map<Seq<char>, Seq<char>>, loopv: Seq<(Seq<char>, Seq<char>)>, redact: bool, c: Ctx, s0: St) -> bool {
    &&& c.original == strings_view(a.original@)
    &&& describes(c.named, text_map(a.named))
    &&& describes(c.env, env)
    &&& c.loopv == loopv
    &&& c.os == a.run_context.os@
    &&& c.shell == a.run_context.shell@
    &&& c.arch == a.run_context.arch@
    &&& c.parent == a.run_context.parent@
    &&& c.redact == redact
    &&& c.dry_run == a.dry_run
    &&& c.prompt == (a.stdin_prompter is Some)
    &&& s0.consumed == Seq::<Seq<char>>::empty()
    &&& s0.flags == Seq::<Seq<char>>::empty()
    &&& s0.pos == 0
    &&& distinct_keys(s0.vars)
}

pub(crate) fn strings_x(v: &Vec<String>) -> (r: Vec<Vec<char>>)
    ensures
        texts_view(r@) == strings_view(v@),
{
    let mut r: Vec<Vec<char>> = Vec::new();
    let mut i: usize = 0;
    while i < v.len()
        invariant
            i <= v.len(),
            texts_view(r@) == strings_view(v@).take(i as int),
        decreases v.len() - i,
    {
        let x = chars_of(v[i].as_str());
        let ghost o = r@;
        assert(texts_view(o).len() == i);
        r.push(x);
        assert(r@ == o.push(x));
        assert(texts_view(r@).len() == i + 1);
        assert(texts_view(r@) =~= strings_view(v@).take(i + 1));
        i += 1;
    }
    assert(strings_view(v@).take(v.len() as int) =~= strings_view(v@));
    r
}

pub(crate) fn entries_x(m: &HashMap<String, String>) -> (r: Vec<(Vec<char>, Vec<char>)>)
    ensures
        describes(pairs_view(r@), text_map(*m)),
{
    let e = text_map_entries(m);
    let r = string_pairs_x(&e);
    let ghost p = pairs_view(r@);
    assert(p == string_pairs(e@));
    assert forall|i: int| 0 <= i < p.len() implies text_map(*m).contains_key((#[trigger] p[i]).0) && text_map(*m)[p[i].0] == p[i].1 by {
        assert(p[i] == (e@[i].0@, e@[i].1@));
        assert(0 <= i < e.len());
        assert(text_map(*m).contains_key(e@[i].0@));
    }
    assert forall|i: int, j: int| 0 <= i < j < p.len() implies (#[trigger] p[i]).0 != (#[trigger] p[j]).0 by {
        assert(p[i] == (e@[i].0@, e@[i].1@));
        assert(p[j] == (e@[j].0@, e@[j].1@));
    }
    assert forall|k: Seq<char>| #[trigger] text_map(*m).contains_key(k) implies exists|i: int| 0 <= i < p.len() && (#[trigger] p[i]).0 == k by {
        let i = choose|i: int| 0 <= i < e.len() && (#[trigger] e@[i]).0@ == k;
        assert(p[i] == (e@[i].0@, e@[i].1@));
    }
    r
}

fn store_entries_x(m: &Arc<Mutex<HashMap<String, String>>>) -> (r: Vec<(Vec<char>, Vec<char>)>)
    ensures
        distinct_keys(pairs_view(r@)),
{
    let e = shared_map_entries(m);
    let r = string_pairs_x(&e);
    let ghost p = pairs_view(r@);
    assert forall|i: int, j: int| 0 <= i < j < p.len() implies (#[trigger] p[i]).0 != (#[trigger] p[j]).0 by {
        assert(p[i] == (e@[i].0@, e@[i].1@));
        assert(p[j] == (e@[j].0@, e@[j].1@));
    }
    r
}

impl RunArgs {
    /// The answer to a question, from the prompter or the host.
    fn answer(&self, q: &QueryX) -> (r: AnswerX)
        ensures
            answers_fit(*self, q@, r@),
    {
        match q {
            QueryX::Value { key, default } => {
                let v = match &self.stdin_prompter {
                    Some(p) => {
                        let k = text(key);
                        let ans = match default {
                            Some(d) => {
                                let ds = text(d);
                                p.prompt_value(k.as_str(), Some(ds.as_str()))
                            },
                            None => p.prompt_value(k.as_str(), None),
                        };
                        match ans {
                            Some(x) => Some(chars_of(x.as_str())),
                            None => None,
                        }
                    },
                    None => None,
                };
                AnswerX::Value(v)
            },
            QueryX::Flag { key } => {
                let b = match &self.stdin_prompter {
                    Some(p) => {
                        let k = text(key);
                        p.prompt_flag(k.as_str())
                    },
                    None => false,
                };
                AnswerX::Flag(b)
            },
            QueryX::Call { name, args } => {
                if is_path_fn_x(name) {
                    if eq_lit(name, "join_path") && args.len() > 0 {
                        let mut a: Vec<String> = Vec::new();
                        let mut i: usize = 0;
                        while i < args.len()
                            invariant
                                a.len() == i,
                                i <= args.len(),
                            decreases args.len() - i,
                        {
                            a.push(text(&args[i]));
                            i += 1;
                        }
                        let j = join_path(&a);
                        return AnswerX::Call(Ok(chars_of(j.as_str())));
                    }
                    let n = text(name);
                    let first = if args.len() > 0 { text(&args[0]) } else { String::new() };
                    let part = path_part(n.as_str(), first.as_str());
                    return AnswerX::Call(Ok(chars_of(part.as_str())));
                }
                let r = match &self.host {
                    Some(h) => {
                        let n = text(name);
                        let mut a: Vec<String> = Vec::new();
                        let mut i: usize = 0;
                        while i < args.len()
                            decreases args.len() - i,
                        {
                            a.push(text(&args[i]));
                            i += 1;
                        }
                        match h.call(n.as_str(), a.as_slice()) {
                            Some(Ok(v)) => Ok(chars_of(v.as_str())),
                            Some(Err(e)) => Err(e),
                            None => Err(SubstitutionError::UnknownFunction(n)),
                        }
                    },
                    None => Err(SubstitutionError::FunctionUnavailable(text(name))),
                };
                AnswerX::Call(r)
            },
        }
    }

    /// Writes the variables defined from index `from` on into the shared
    /// store.
    fn commit_vars(&self, vars: &Vec<(Vec<char>, Vec<char>)>, from: usize) {
        let mut i = from;
        while i < vars.len()
            decreases vars.len() - i,
        {
            shared_map_insert(&self.vars, text(&vars[i].0), text(&vars[i].1));
            i += 1;
        }
    }

    /// Substitutes every `{{ ... }}` block of `input`: the evaluator runs
    /// until it needs no further answer, each question it stops at going to
    /// the prompter or the host. The variables that `define` sets are
    /// written to the shared store.
    pub fn run(&self, input: &str, env: &HashMap<String, String>, scope: &LoopScope, redact: bool) -> (r: Result<String, SubstitutionError>)
        ensures
            exists|c: Ctx, s0: St| #[trigger] setup(*self, text_map(*env), scope@, redact, c, s0)
                && answered(*self, c, input@, s0) && result_of(c, input@, s0, res_view(r)),
    {
        let t = chars_of(input);
        let mut ctx = CtxX {
            original: strings_x(&self.original),
            named: entries_x(&self.named),
            env: entries_x(env),
            loopv: scope.pairs(),
            os: chars_of(self.run_context.os.as_str()),
            shell: chars_of(self.run_context.shell.as_str()),
            arch: chars_of(self.run_context.arch.as_str()),
            parent: chars_of(self.run_context.parent.as_str()),
            redact,
            dry_run: self.dry_run,
            prompt: self.stdin_prompter.is_some(),
            answers: Vec::new(),
        };
        let vars0 = store_entries_x(&self.vars);
        let ghost s0 = St { consumed: Seq::empty(), flags: Seq::empty(), vars: pairs_view(vars0@), pos: 0 };
        let ghost base = ctx@;
        assert(setup(*self, text_map(*env), scope@, redact, base, s0));
        assert(answers_view(ctx.answers@) =~= Seq::<Answer>::empty());
        loop
            invariant
                t@ == input@,
                setup(*self, text_map(*env), scope@, redact, base, s0),
                ctx@ == with_answers(base, answers_view(ctx.answers@)),
                answered(*self, ctx@, t@, s0),
                s0 == (St { consumed: Seq::empty(), flags: Seq::empty(), vars: pairs_view(vars0@), pos: 0 }),
            decreases usize::MAX - ctx.answers.len(),
        {
            let mut st = StX { consumed: Vec::new(), flags: Vec::new(), vars: copy_pairs(&vars0), pos: 0 };
            assert(st@.consumed =~= s0.consumed);
            assert(st@.flags =~= s0.flags);
            assert(st@.vars =~= s0.vars);
            assert(st@ == s0);
            let r = walk_x(&ctx, &t, false, &mut st);
            assert(setup(*self, text_map(*env), scope@, redact, ctx@, s0));
            match r {
                Ok(cs) => {
                    self.commit_vars(&st.vars, vars0.len());
                    let rest = remaining_x(&ctx, &st);
                    let out = flat_x(&cs, &rest);
                    let res = string_of(&out);
                    assert(result_of(ctx@, input@, s0, Ok::<Seq<char>, ErrV>(res@)));
                    return Ok(res);
                },
                Err(StopX::Fail(e)) => {
                    self.commit_vars(&st.vars, vars0.len());
                    assert(result_of(ctx@, input@, s0, Err::<Seq<char>, ErrV>(e@)));
                    return Err(e);
                },
                Err(StopX::Ask(q)) => {
                    if ctx.answers.len() == usize::MAX {
                        assert(result_of(ctx@, input@, s0, Err::<Seq<char>, ErrV>(ErrV::TooManyQueries)));
                        return Err(SubstitutionError::TooManyQueries);
                    }
                    let a = self.answer(&q);
                    let ghost old_ans = answers_view(ctx.answers@);
                    let ghost old_c = ctx@;
                    let ghost old_raw = ctx.answers@;
                    ctx.answers.push(a);
                    assert(ctx.answers@ == old_raw.push(a));
                    assert(answers_view(ctx.answers@) =~= old_ans.push(a@));
                    assert forall|i: int| 0 <= i < answers_view(ctx.answers@).len() implies (#[trigger] outcome(with_answers(ctx@, ctx@.answers.take(i)), t@, s0).0 matches Err(Stop::Ask(q2))
                        && answers_fit(*self, q2, ctx@.answers[i])) by {
                        if i < old_ans.len() {
                            assert(ctx@.answers.take(i) =~= old_c.answers.take(i));
                            assert(with_answers(ctx@, ctx@.answers.take(i)) == with_answers(old_c, old_c.answers.take(i)));
                            assert(ctx@.answers[i] == old_c.answers[i]);
                        } else {
                            assert(ctx@.answers.take(i) =~= old_c.answers);
                            assert(with_answers(ctx@, ctx@.answers.take(i)) == old_c);
                        }
                    }
                },
            }
        }
    }

    /// Substitutes `input` (see [`RunArgs::run`]).
    pub fn substitute(&self, input: &str, env: &HashMap<String, String>) -> (r: Result<String, SubstitutionError>)
        ensures
            exists|c: Ctx, s0: St| #[trigger] setup(*self, text_map(*env), Seq::empty(), false, c, s0)
                && answered(*self, c, input@, s0) && result_of(c, input@, s0, res_view(r)),
    {
        let scope = LoopScope::new();
        self.run(input, env, &scope, false)
    }

    /// Substitutes `input` for a log line: `{{ ENV.* }}` values read `***`,
    /// and functions with effects stand for themselves.
    pub fn substitute_redacted(&self, input: &str, env: &HashMap<String, String>) -> (r: Result<String, SubstitutionError>)
        ensures
            exists|c: Ctx, s0: St| #[trigger] setup(*self, text_map(*env), Seq::empty(), true, c, s0)
                && answered(*self, c, input@, s0) && result_of(c, input@, s0, res_view(r)),
    {
        let scope = LoopScope::new();
        self.run(input, env, &scope, true)
    }

    /// [`RunArgs::substitute`] inside `for` loops.
    pub fn substitute_with_loop(&self, input: &str, env: &HashMap<String, String>, scope: &LoopScope) -> (r: Result<String, SubstitutionError>)
        ensures
            exists|c: Ctx, s0: St| #[trigger] setup(*self, text_map(*env), scope@, false, c, s0)
                && answered(*self, c, input@, s0) && result_of(c, input@, s0, res_view(r)),
    {
        self.run(input, env, scope, false)
    }

    /// [`RunArgs::substitute_redacted`] inside `for` loops.
    pub fn substitute_redacted_with_loop(&self, input: &str, env: &HashMap<String, String>, scope: &LoopScope) -> (r: Result<String, SubstitutionError>)
        ensures
            exists|c: Ctx, s0: St| #[trigger] setup(*self, text_map(*env), scope@, true, c, s0)
                && answered(*self, c, input@, s0) && result_of(c, input@, s0, res_view(r)),
    {
        self.run(input, env, scope, true)
    }
}

} // verus!
