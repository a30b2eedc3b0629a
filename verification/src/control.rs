//! The errors of running a target's steps and the decisions of its control
//! flow that do not need the Runfile itself: whether an `if` condition holds,
//! which `match` branch runs, how a `@target` call is labelled.

use vstd::prelude::*;
use std::collections::HashMap;
use crate::errors::{SubstitutionError, ErrV, message_of};
use crate::text::{dec, dec_exec, push_str, push_all, string_of, chars_of, seq_eq, eq_lit};
use crate::funcs::{join_seq, join_from_x};
use crate::values::texts_view;
use crate::outside::{debug_text, debug_str, regex_rejection, regex_found, compile_pattern, regex_is_match, text_map};
use crate::model::{Ctx, St};
use crate::args::{RunArgs, setup, answered, result_of, res_view};
use crate::extract::strs_view;

verus! {

/// A signed number in decimal.
pub open spec fn int_text(i: int) -> Seq<char> {
    if i < 0 {
        "-"@ + dec((-i) as nat)
    } else {
        dec(i as nat)
    }
}

pub fn i32_text(i: i32) -> (r: Vec<char>)
    ensures
        r@ == int_text(i as int),
{
    if i < 0 {
        let n: i64 = -(i as i64);
        let mut out: Vec<char> = Vec::new();
        push_str(&mut out, "-");
        let d = dec_exec(n as usize);
        push_all(&mut out, &d);
        out
    } else {
        dec_exec(i as usize)
    }
}

/// Errors of the control-flow steps (`if`, `for`, `match`).
#[derive(Debug)]
pub enum ControlFlowError {
    Substitution(SubstitutionError),
    UnparsedCondition,
    IfConditionNotBoolean { condition: String, resolved: String },
    BadGlob(String, String),
    ShellIteratorFailed(String, i32),
    /// The iterator command could not be started; the text of the I/O error.
    ShellIteratorSpawn(String),
    GlobWalk(String, String),
    MatchValueUnresolved { match_expr: String, valid_cases: String, source: SubstitutionError },
    MatchNoCase { match_expr: String, value: String, valid_cases: String },
    BadRegexCase { key: String, message: String },
}

/// The message of each control-flow error.
pub open spec fn control_flow_text(e: ControlFlowError) -> Seq<char> {
    match e {
        ControlFlowError::Substitution(s) => message_of(s@),
        ControlFlowError::UnparsedCondition => "Internal error: `if` condition was not pre-parsed (this is a bug)"@,
        ControlFlowError::IfConditionNotBoolean { condition, resolved } =>
            "`if` condition `"@ + condition@ + "` resolved to "@ + debug_text(resolved@)
                + ", which is not a boolean. The condition must resolve to exactly the string \"true\" (truthy), \"false\" (falsy), or \"\" (empty, also falsy). Wrap in a boolean DSL expression — e.g. `{{ "@
                + condition@ + " == 'value' }}` — or compare explicitly."@,
        ControlFlowError::BadGlob(p, m) => "Failed to expand `for glob` pattern \""@ + p@ + "\": "@ + m@,
        ControlFlowError::ShellIteratorFailed(c, code) => "`for shell` iterator failed: command \""@ + c@ + "\" exited with status "@ + int_text(code as int),
        ControlFlowError::ShellIteratorSpawn(m) => "Failed to spawn `for shell` iterator command: "@ + m@,
        ControlFlowError::GlobWalk(p, m) => "Failed to walk filesystem for `for glob` pattern \""@ + p@ + "\": "@ + m@,
        ControlFlowError::MatchValueUnresolved { match_expr, valid_cases, source } =>
            "Could not resolve value for `match` \""@ + match_expr@ + "\": "@ + message_of(source@) + "\n  Valid cases: "@ + valid_cases@,
        ControlFlowError::MatchNoCase { match_expr, value, valid_cases } =>
            "No case matched value \""@ + value@ + "\" for `match` \""@ + match_expr@ + "\"\n  Valid cases: "@ + valid_cases@,
        ControlFlowError::BadRegexCase { key, message } => "Invalid regex in `match` case `"@ + key@ + "`: "@ + message@,
    }
}

impl ControlFlowError {
    /// The error's message.
    pub fn message(&self) -> (r: String)
        ensures
            r@ == control_flow_text(*self),
    {
        let mut m: Vec<char> = Vec::new();
        match self {
            ControlFlowError::Substitution(s) => {
                let t = s.message();
                push_str(&mut m, t.as_str());
            },
            ControlFlowError::UnparsedCondition => {
                push_str(&mut m, "Internal error: `if` condition was not pre-parsed (this is a bug)");
            },
            ControlFlowError::IfConditionNotBoolean { condition, resolved } => {
                push_str(&mut m, "`if` condition `");
                push_str(&mut m, condition.as_str());
                push_str(&mut m, "` resolved to ");
                let d = debug_str(resolved.as_str());
                push_str(&mut m, d.as_str());
                push_str(&mut m, ", which is not a boolean. The condition must resolve to exactly the string \"true\" (truthy), \"false\" (falsy), or \"\" (empty, also falsy). Wrap in a boolean DSL expression — e.g. `{{ ");
                push_str(&mut m, condition.as_str());
                push_str(&mut m, " == 'value' }}` — or compare explicitly.");
            },
            ControlFlowError::BadGlob(p, e) => {
                push_str(&mut m, "Failed to expand `for glob` pattern \"");
                push_str(&mut m, p.as_str());
                push_str(&mut m, "\": ");
                push_str(&mut m, e.as_str());
            },
            ControlFlowError::ShellIteratorFailed(c, code) => {
                push_str(&mut m, "`for shell` iterator failed: command \"");
                push_str(&mut m, c.as_str());
                push_str(&mut m, "\" exited with status ");
                let d = i32_text(*code);
                push_all(&mut m, &d);
            },
            ControlFlowError::ShellIteratorSpawn(e) => {
                push_str(&mut m, "Failed to spawn `for shell` iterator command: ");
                push_str(&mut m, e.as_str());
            },
            ControlFlowError::GlobWalk(p, e) => {
                push_str(&mut m, "Failed to walk filesystem for `for glob` pattern \"");
                push_str(&mut m, p.as_str());
                push_str(&mut m, "\": ");
                push_str(&mut m, e.as_str());
            },
            ControlFlowError::MatchValueUnresolved { match_expr, valid_cases, source } => {
                push_str(&mut m, "Could not resolve value for `match` \"");
                push_str(&mut m, match_expr.as_str());
                push_str(&mut m, "\": ");
                let t = source.message();
                push_str(&mut m, t.as_str());
                push_str(&mut m, "\n  Valid cases: ");
                push_str(&mut m, valid_cases.as_str());
            },
            ControlFlowError::MatchNoCase { match_expr, value, valid_cases } => {
                push_str(&mut m, "No case matched value \"");
                push_str(&mut m, value.as_str());
                push_str(&mut m, "\" for `match` \"");
                push_str(&mut m, match_expr.as_str());
                push_str(&mut m, "\"\n  Valid cases: ");
                push_str(&mut m, valid_cases.as_str());
            },
            ControlFlowError::BadRegexCase { key, message } => {
                push_str(&mut m, "Invalid regex in `match` case `");
                push_str(&mut m, key.as_str());
                push_str(&mut m, "`: ");
                push_str(&mut m, message.as_str());
            },
        }
        string_of(&m)
    }
}

/// Where a `@target` call was found that cannot stand there.
#[derive(Debug, Clone, Copy, PartialEq, Eq, Structural)]
pub enum ShellLeafContext {
    /// A `detach: true` target: each command is started on its own.
    Detach,
    /// A `sameShell: true` target: all commands run in one shell.
    SameShell,
}

pub open spec fn target_call_text(ctx: ShellLeafContext, target: Seq<char>) -> Seq<char> {
    match ctx {
        ShellLeafContext::Detach => "`@target` invocations are not supported inside `detach: true` targets — detach is meant for fire-and-forget shell commands. Found `@"@
            + target + "` in detached target."@,
        ShellLeafContext::SameShell => "`@target` invocations are not supported inside `sameShell: true` targets — sameShell joins all command steps into a single shell invocation, and `@target` calls run in their own shell context. Found `@"@
            + target + "`."@,
    }
}

impl ShellLeafContext {
    /// Why a `@target` call is refused in this kind of target.
    pub fn target_call_message(self, target: &str) -> (r: String)
        ensures
            r@ == target_call_text(self, target@),
    {
        let mut m: Vec<char> = Vec::new();
        match self {
            ShellLeafContext::Detach => {
                push_str(&mut m, "`@target` invocations are not supported inside `detach: true` targets — detach is meant for fire-and-forget shell commands. Found `@");
                push_str(&mut m, target);
                push_str(&mut m, "` in detached target.");
            },
            ShellLeafContext::SameShell => {
                push_str(&mut m, "`@target` invocations are not supported inside `sameShell: true` targets — sameShell joins all command steps into a single shell invocation, and `@target` calls run in their own shell context. Found `@");
                push_str(&mut m, target);
                push_str(&mut m, "`.");
            },
        }
        string_of(&m)
    }
}

/// Errors of flattening a target's steps into plain shell commands.
#[derive(Debug)]
pub enum ShellLeafFlattenError {
    Substitution(SubstitutionError),
    ControlFlow(ControlFlowError),
    TargetCallNotAllowed(String),
}

pub open spec fn flatten_text(e: ShellLeafFlattenError) -> Seq<char> {
    match e {
        ShellLeafFlattenError::Substitution(s) => message_of(s@),
        ShellLeafFlattenError::ControlFlow(c) => control_flow_text(c),
        ShellLeafFlattenError::TargetCallNotAllowed(m) => m@,
    }
}

impl ShellLeafFlattenError {
    pub fn message(&self) -> (r: String)
        ensures
            r@ == flatten_text(*self),
    {
        match self {
            ShellLeafFlattenError::Substitution(s) => s.message(),
            ShellLeafFlattenError::ControlFlow(c) => c.message(),
            ShellLeafFlattenError::TargetCallNotAllowed(m) => m.clone(),
        }
    }
}

/// Errors of running a target's commands.
#[derive(Debug)]
pub enum ExecuteError {
    /// A command could not be started; the text of the I/O error.
    Spawn(String),
    NonZeroExit(String, i32),
    Signal(String),
    Substitution(SubstitutionError),
    /// An env file was refused; its message.
    EnvFile(String),
    ControlFlow(ControlFlowError),
    ShellLeafFlatten(ShellLeafFlattenError),
    DependencyFailed(String, String),
}

pub open spec fn execute_text(e: ExecuteError) -> Seq<char> {
    match e {
        ExecuteError::Spawn(m) => "Failed to spawn command: "@ + m@,
        ExecuteError::NonZeroExit(c, code) => "Command \""@ + c@ + "\" exited with status "@ + int_text(code as int),
        ExecuteError::Signal(c) => "Command \""@ + c@ + "\" was terminated by signal"@,
        ExecuteError::Substitution(s) => message_of(s@),
        ExecuteError::EnvFile(m) => m@,
        ExecuteError::ControlFlow(c) => control_flow_text(c),
        ExecuteError::ShellLeafFlatten(f) => flatten_text(f),
        ExecuteError::DependencyFailed(t, m) => "Failed to invoke target dependency `@"@ + t@ + "`: "@ + m@,
    }
}

impl ExecuteError {
    pub fn message(&self) -> (r: String)
        ensures
            r@ == execute_text(*self),
    {
        let mut m: Vec<char> = Vec::new();
        match self {
            ExecuteError::Spawn(e) => {
                push_str(&mut m, "Failed to spawn command: ");
                push_str(&mut m, e.as_str());
            },
            ExecuteError::NonZeroExit(c, code) => {
                push_str(&mut m, "Command \"");
                push_str(&mut m, c.as_str());
                push_str(&mut m, "\" exited with status ");
                let d = i32_text(*code);
                push_all(&mut m, &d);
            },
            ExecuteError::Signal(c) => {
                push_str(&mut m, "Command \"");
                push_str(&mut m, c.as_str());
                push_str(&mut m, "\" was terminated by signal");
            },
            ExecuteError::Substitution(s) => {
                let t = s.message();
                push_str(&mut m, t.as_str());
            },
            ExecuteError::EnvFile(e) => {
                push_str(&mut m, e.as_str());
            },
            ExecuteError::ControlFlow(c) => {
                let t = c.message();
                push_str(&mut m, t.as_str());
            },
            ExecuteError::ShellLeafFlatten(f) => {
                let t = f.message();
                push_str(&mut m, t.as_str());
            },
            ExecuteError::DependencyFailed(t, e) => {
                push_str(&mut m, "Failed to invoke target dependency `@");
                push_str(&mut m, t.as_str());
                push_str(&mut m, "`: ");
                push_str(&mut m, e.as_str());
            },
        }
        string_of(&m)
    }
}

/// The short phrase for a failed dependency in the summary of a parallel run.
pub open spec fn failure_detail(e: ExecuteError) -> Seq<char> {
    match e {
        ExecuteError::NonZeroExit(_, code) => "exit code "@ + int_text(code as int),
        ExecuteError::Signal(_) => "terminated by signal"@,
        _ => "error: "@ + execute_text(e),
    }
}

pub fn execute_error_failure_detail(err: &ExecuteError) -> (r: String)
    ensures
        r@ == failure_detail(*err),
{
    let mut m: Vec<char> = Vec::new();
    match err {
        ExecuteError::NonZeroExit(_, code) => {
            push_str(&mut m, "exit code ");
            let d = i32_text(*code);
            push_all(&mut m, &d);
        },
        ExecuteError::Signal(_) => {
            push_str(&mut m, "terminated by signal");
        },
        _ => {
            push_str(&mut m, "error: ");
            let t = err.message();
            push_str(&mut m, t.as_str());
        },
    }
    string_of(&m)
}

/// The refusal given by a runner that has no way to run `@target` calls.
pub struct NoOpDependencyResolver;

pub open spec fn no_resolver_text() -> Seq<char> {
    "no dependency resolver wired (this code path is for tests / standalone use)"@
}

impl NoOpDependencyResolver {
    /// Refuses every dependency.
    pub fn run_dependency(&self, target_name: &str) -> (r: Result<(), ExecuteError>)
        ensures
            r matches Err(ExecuteError::DependencyFailed(t, m)) && t@ == target_name@ && m@ == no_resolver_text(),
    {
        let mut t: Vec<char> = Vec::new();
        push_str(&mut t, target_name);
        let mut m: Vec<char> = Vec::new();
        push_str(&mut m, "no dependency resolver wired (this code path is for tests / standalone use)");
        Err(ExecuteError::DependencyFailed(string_of(&t), string_of(&m)))
    }
}

/// Errors of printing a target's commands.
#[derive(Debug)]
pub enum ExtractError {
    CycleDetected(String),
    UnknownTarget(String),
    Substitution(SubstitutionError),
    /// An env file was refused; its message.
    EnvFile(String),
    ControlFlow(ControlFlowError),
    ShellLeafFlatten(ShellLeafFlattenError),
}

pub open spec fn extract_text(e: ExtractError) -> Seq<char> {
    match e {
        ExtractError::CycleDetected(c) => "Dependency cycle detected: "@ + c@,
        ExtractError::UnknownTarget(t) => "Unknown target \""@ + t@ + "\" referenced via @target"@,
        ExtractError::Substitution(s) => message_of(s@),
        ExtractError::EnvFile(m) => m@,
        ExtractError::ControlFlow(c) => control_flow_text(c),
        ExtractError::ShellLeafFlatten(f) => flatten_text(f),
    }
}

impl ExtractError {
    pub fn message(&self) -> (r: String)
        ensures
            r@ == extract_text(*self),
    {
        let mut m: Vec<char> = Vec::new();
        match self {
            ExtractError::CycleDetected(c) => {
                push_str(&mut m, "Dependency cycle detected: ");
                push_str(&mut m, c.as_str());
            },
            ExtractError::UnknownTarget(t) => {
                push_str(&mut m, "Unknown target \"");
                push_str(&mut m, t.as_str());
                push_str(&mut m, "\" referenced via @target");
            },
            ExtractError::Substitution(s) => {
                let t = s.message();
                push_str(&mut m, t.as_str());
            },
            ExtractError::EnvFile(e) => {
                push_str(&mut m, e.as_str());
            },
            ExtractError::ControlFlow(c) => {
                let t = c.message();
                push_str(&mut m, t.as_str());
            },
            ExtractError::ShellLeafFlatten(f) => {
                let t = f.message();
                push_str(&mut m, t.as_str());
            },
        }
        string_of(&m)
    }
}

// ── decisions ───────────────────────────────────────────────────────────

/// Only the empty string is falsy.
pub fn is_truthy(s: &str) -> (r: bool)
    ensures
        r == (s@.len() > 0),
{
    s.unicode_len() > 0
}

/// The pattern of a `match` key written as `/pattern/`.
pub open spec fn regex_key(k: Seq<char>) -> Option<Seq<char>> {
    if k.len() >= 2 && k[0] == '/' && k[k.len() - 1] == '/' {
        Some(k.subrange(1, k.len() - 1))
    } else {
        None
    }
}

/// The pattern inside a key wrapped in slashes (`/.../`, at least two
/// characters); `None` for a key compared literally.
pub fn strip_regex_delimiters(key: &str) -> (r: Option<String>)
    ensures
        match r {
            Some(p) => regex_key(key@) == Some(p@),
            None => regex_key(key@) is None,
        },
{
    let k = chars_of(key);
    if k.len() < 2 {
        return None;
    }
    if k[0] != '/' || k[k.len() - 1] != '/' {
        return None;
    }
    let inner = crate::text::slice_of(&k, 1, k.len() - 1);
    Some(string_of(&inner))
}

/// The label of a `@target` call in logs: `@name` or `@?name`, then the
/// arguments separated by spaces.
pub open spec fn call_label(target: Seq<char>, argv: Seq<Seq<char>>, optional: bool) -> Seq<char> {
    let head = (if optional { "@?"@ } else { "@"@ }) + target;
    if argv.len() == 0 {
        head
    } else {
        head + " "@ + join_seq(argv, " "@)
    }
}

pub fn format_target_call_label(target: &str, argv: &[String], optional: bool) -> (r: String)
    ensures
        r@ == call_label(target@, strs_view(argv@), optional),
{
    let mut m: Vec<char> = Vec::new();
    if optional {
        push_str(&mut m, "@?");
    } else {
        push_str(&mut m, "@");
    }
    push_str(&mut m, target);
    if argv.len() > 0 {
        push_str(&mut m, " ");
        let items = crate::extract::texts_of(argv);
        let sep = chars_of(" ");
        let joined = join_from_x(&items, 0, &sep);
        proof {
            assert(texts_view(items@).skip(0) =~= texts_view(items@));
        }
        push_all(&mut m, &joined);
    }
    string_of(&m)
}

/// What a substitution of `input` with `a` and `env` may return.
pub open spec fn substitutes(a: RunArgs, env: HashMap<String, String>, input: Seq<char>, r: Result<Seq<char>, ErrV>) -> bool {
    exists|c: Ctx, s0: St| #[trigger] setup(a, text_map(env), Seq::empty(), false, c, s0)
        && answered(a, c, input, s0) && result_of(c, input, s0, r)
}

/// How an `if` ends once its condition is resolved: exactly `true` takes
/// the `then` branch, `false` or the empty string the `else` branch; any
/// other text is an error, and so is a failed substitution.
pub open spec fn if_fits(cond: Seq<char>, res: Result<Seq<char>, ErrV>, r: Result<bool, ControlFlowError>) -> bool {
    match res {
        Err(e) => r matches Err(ControlFlowError::Substitution(x)) && x@ == e,
        Ok(v) => if v == "true"@ {
            r matches Ok(b) && b
        } else if v == "false"@ || v.len() == 0 {
            r matches Ok(b) && !b
        } else {
            r matches Err(ControlFlowError::IfConditionNotBoolean { condition: c, resolved: x }) && c@ == cond && x@ == v
        },
    }
}

/// The outcome of an `if` whose condition `condition` resolved to `resolved`.
pub fn if_outcome(condition: &str, resolved: Result<String, SubstitutionError>) -> (r: Result<bool, ControlFlowError>)
    ensures
        if_fits(condition@, res_view(resolved), r),
{
    match resolved {
        Err(e) => Err(ControlFlowError::Substitution(e)),
        Ok(v) => {
            let c = chars_of(v.as_str());
            if eq_lit(&c, "true") {
                Ok(true)
            } else if eq_lit(&c, "false") || c.len() == 0 {
                Ok(false)
            } else {
                let mut cond: Vec<char> = Vec::new();
                push_str(&mut cond, condition);
                Err(ControlFlowError::IfConditionNotBoolean { condition: string_of(&cond), resolved: v })
            }
        },
    }
}

/// Resolves an `if` condition and decides the branch.
pub fn evaluate_if_condition(condition: &str, args: &RunArgs, env: &HashMap<String, String>) -> (r: Result<bool, ControlFlowError>)
    ensures
        exists|res: Result<Seq<char>, ErrV>| #[trigger] substitutes(*args, *env, condition@, res) && if_fits(condition@, res, r),
{
    let resolved = args.substitute(condition, env);
    let ghost res = res_view(resolved);
    assert(substitutes(*args, *env, condition@, res));
    if_outcome(condition, resolved)
}

/// A `match` step as its decision reads it: the template of the value, the
/// case keys in the order they are tried, and whether a `default` exists.
#[derive(Debug, Clone)]
pub struct MatchCases {
    pub expr: String,
    pub keys: Vec<String>,
    pub has_default: bool,
}

/// The branch a `match` takes.
#[derive(Debug, Clone, Copy, PartialEq, Eq, Structural)]
pub enum MatchBranch {
    /// The case with this index among the keys.
    Case(usize),
    Default,
}

/// The first key from `i` on that equals `v`.
pub open spec fn exact_case(keys: Seq<Seq<char>>, v: Seq<char>, i: int) -> Option<int>
    decreases keys.len() - i,
{
    if i < 0 || i >= keys.len() {
        None
    } else if keys[i] == v {
        Some(i)
    } else {
        exact_case(keys, v, i + 1)
    }
}

/// The first `/pattern/` key from `i` on whose pattern matches `v`, or the
/// first such key before it whose pattern does not compile, with the error.
pub open spec fn regex_case(keys: Seq<Seq<char>>, v: Seq<char>, i: int) -> Option<Result<int, (Seq<char>, Seq<char>)>>
    decreases keys.len() - i,
{
    if i < 0 || i >= keys.len() {
        None
    } else {
        match regex_key(keys[i]) {
            None => regex_case(keys, v, i + 1),
            Some(p) => match regex_rejection(p) {
                Some(m) => Some(Err((keys[i], m))),
                None => if regex_found(p, v) {
                    Some(Ok(i))
                } else {
                    regex_case(keys, v, i + 1)
                },
            },
        }
    }
}

/// The keys listed in an error: each in double quotes, separated by commas,
/// or `(none)`.
pub open spec fn cases_text(keys: Seq<Seq<char>>) -> Seq<char> {
    if keys.len() == 0 {
        "(none)"@
    } else {
        join_seq(keys.map_values(|k: Seq<char>| "\""@ + k + "\""@), ", "@)
    }
}

/// How a `match` ends once its value is resolved.
pub open spec fn match_fits(step: MatchCases, res: Result<Seq<char>, ErrV>, r: Result<MatchBranch, ControlFlowError>) -> bool {
    let keys = strs_view(step.keys@);
    match res {
        Err(e) => if step.has_default {
            r == Ok::<MatchBranch, ControlFlowError>(MatchBranch::Default)
        } else {
            r matches Err(ControlFlowError::MatchValueUnresolved { match_expr, valid_cases, source })
                && match_expr@ == step.expr@ && valid_cases@ == cases_text(keys) && source@ == e
        },
        Ok(v) => match exact_case(keys, v, 0) {
            Some(i) => r == Ok::<MatchBranch, ControlFlowError>(MatchBranch::Case(i as usize)),
            None => match regex_case(keys, v, 0) {
                Some(Ok(i)) => r == Ok::<MatchBranch, ControlFlowError>(MatchBranch::Case(i as usize)),
                Some(Err((k, m))) => r matches Err(ControlFlowError::BadRegexCase { key, message }) && key@ == k && message@ == m,
                None => if step.has_default {
                    r == Ok::<MatchBranch, ControlFlowError>(MatchBranch::Default)
                } else {
                    r matches Err(ControlFlowError::MatchNoCase { match_expr, value, valid_cases })
                        && match_expr@ == step.expr@ && value@ == v && valid_cases@ == cases_text(keys)
                },
            },
        },
    }
}

/// The keys of a `match` listed for an error message.
pub fn format_match_cases(keys: &Vec<String>) -> (r: String)
    ensures
        r@ == cases_text(strs_view(keys@)),
{
    if keys.len() == 0 {
        let mut m: Vec<char> = Vec::new();
        push_str(&mut m, "(none)");
        return string_of(&m);
    }
    let ghost ks = strs_view(keys@);
    let ghost quoted = ks.map_values(|k: Seq<char>| "\""@ + k + "\""@);
    let mut items: Vec<Vec<char>> = Vec::new();
    let mut i: usize = 0;
    while i < keys.len()
        invariant
            i <= keys.len(),
            ks == strs_view(keys@),
            quoted == ks.map_values(|k: Seq<char>| "\""@ + k + "\""@),
            items.len() == i,
            texts_view(items@) == quoted.take(i as int),
        decreases keys.len() - i,
    {
        let mut q: Vec<char> = Vec::new();
        push_str(&mut q, "\"");
        push_str(&mut q, keys[i].as_str());
        push_str(&mut q, "\"");
        let ghost before = items@;
        items.push(q);
        proof {
            assert(quoted[i as int] == q@);
            assert forall|j: int| 0 <= j <= i implies #[trigger] texts_view(items@)[j] == quoted.take(i + 1)[j] by {
                if j < i {
                    assert(items@[j] == before[j]);
                    assert(texts_view(before)[j] == quoted.take(i as int)[j]);
                }
            }
        }
        assert(texts_view(items@) =~= quoted.take(i + 1));
        i += 1;
    }
    assert(quoted.take(i as int) =~= quoted);
    assert(texts_view(items@).skip(0) =~= texts_view(items@));
    let sep = chars_of(", ");
    let joined = join_from_x(&items, 0, &sep);
    string_of(&joined)
}

fn exact_case_x(keys: &Vec<String>, v: &str) -> (r: Option<usize>)
    ensures
        match r {
            Some(i) => exact_case(strs_view(keys@), v@, 0) == Some(i as int),
            None => exact_case(strs_view(keys@), v@, 0) is None,
        },
{
    let vc = chars_of(v);
    let mut i: usize = 0;
    while i < keys.len()
        invariant
            i <= keys.len(),
            vc@ == v@,
            exact_case(strs_view(keys@), v@, 0) == exact_case(strs_view(keys@), v@, i as int),
        decreases keys.len() - i,
    {
        let kc = chars_of(keys[i].as_str());
        if seq_eq(&kc, &vc) {
            return Some(i);
        }
        i += 1;
    }
    None
}

fn regex_case_x(keys: &Vec<String>, v: &str) -> (r: Option<Result<usize, (String, String)>>)
    ensures
        match r {
            Some(Ok(i)) => regex_case(strs_view(keys@), v@, 0) == Some(Ok::<int, (Seq<char>, Seq<char>)>(i as int)),
            Some(Err((k, m))) => regex_case(strs_view(keys@), v@, 0) == Some(Err::<int, (Seq<char>, Seq<char>)>((k@, m@))),
            None => regex_case(strs_view(keys@), v@, 0) is None,
        },
{
    let mut i: usize = 0;
    while i < keys.len()
        invariant
            i <= keys.len(),
            regex_case(strs_view(keys@), v@, 0) == regex_case(strs_view(keys@), v@, i as int),
        decreases keys.len() - i,
    {
        match strip_regex_delimiters(keys[i].as_str()) {
            None => {},
            Some(p) => {
                match compile_pattern(p.as_str()) {
                    Err(m) => {
                        return Some(Err((keys[i].clone(), m)));
                    },
                    Ok(pat) => {
                        if regex_is_match(&pat, v) {
                            return Some(Ok(i));
                        }
                    },
                }
            },
        }
        i += 1;
    }
    None
}

/// The branch of a `match` whose value resolved to `resolved`: a case whose
/// key equals the value, else the first `/pattern/` case that matches it,
/// else `default`; a failed substitution goes to `default` when there is
/// one.
pub fn match_outcome(step: &MatchCases, resolved: Result<String, SubstitutionError>) -> (r: Result<MatchBranch, ControlFlowError>)
    ensures
        match_fits(*step, res_view(resolved), r),
{
    match resolved {
        Err(e) => {
            if step.has_default {
                Ok(MatchBranch::Default)
            } else {
                Err(ControlFlowError::MatchValueUnresolved {
                    match_expr: step.expr.clone(),
                    valid_cases: format_match_cases(&step.keys),
                    source: e,
                })
            }
        },
        Ok(v) => {
            match exact_case_x(&step.keys, v.as_str()) {
                Some(i) => Ok(MatchBranch::Case(i)),
                None => match regex_case_x(&step.keys, v.as_str()) {
                    Some(Ok(i)) => Ok(MatchBranch::Case(i)),
                    Some(Err((k, m))) => Err(ControlFlowError::BadRegexCase { key: k, message: m }),
                    None => {
                        if step.has_default {
                            Ok(MatchBranch::Default)
                        } else {
                            let valid = format_match_cases(&step.keys);
                            Err(ControlFlowError::MatchNoCase { match_expr: step.expr.clone(), value: v, valid_cases: valid })
                        }
                    },
                },
            }
        },
    }
}

/// Resolves a `match` value and picks the branch.
pub fn resolve_match_branch(step: &MatchCases, args: &RunArgs, env: &HashMap<String, String>) -> (r: Result<MatchBranch, ControlFlowError>)
    ensures
        exists|res: Result<Seq<char>, ErrV>| #[trigger] substitutes(*args, *env, step.expr@, res) && match_fits(*step, res, r),
{
    let resolved = args.substitute(step.expr.as_str(), env);
    let ghost res = res_view(resolved);
    assert(substitutes(*args, *env, step.expr@, res));
    match_outcome(step, resolved)
}

} // verus!
