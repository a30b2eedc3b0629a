//! `@target` calls inside a target's steps: the arguments a call passes on,
//! tokenized with `shlex`; how `when:` guards combine as blocks nest; and the
//! phrase that sums up a failed dependency.

use vstd::prelude::*;
use std::collections::HashMap;
use crate::errors::{SubstitutionError, ErrV};
use crate::text::{trim, trim_exec, chars_of, string_of, push_str, push_all};
use crate::args::{RunArgs, res_view};
use crate::control::{ExecuteError, substitutes, int_text, i32_text};
use crate::extract::strs_view;
use crate::text::dec;

verus! {

/// A `@target` step: the target (a template), the template of its
/// arguments, and whether a missing target is skipped (`@?target`).
#[derive(Debug, Clone)]
pub struct TargetCallStep {
    pub target: String,
    pub args_template: String,
    pub optional: bool,
}

/// What `shlex::split` returns: the words of a POSIX-style command line, or
/// `None` for erroneous input (an unclosed quote, a trailing backslash).
pub uninterp spec fn shell_words(s: Seq<char>) -> Option<Seq<Seq<char>>>;

/// `shlex::split`: named.
#[verifier::external_body]
fn shlex_split(s: &str) -> (r: Option<Vec<String>>)
    ensures
        match r {
            Some(v) => shell_words(s@) == Some(strs_view(v@)),
            None => shell_words(s@) is None,
        },
{
    shlex::split(s)
}

pub open spec fn tokenize_error(template: Seq<char>) -> Seq<char> {
    "could not tokenize args template `"@ + template + "` (unbalanced quotes?)"@
}

/// The arguments of a call whose template was substituted to `res`: none
/// for a template that is empty or comes out blank, else its words; an
/// error when the substitution fails or the words do not tokenize.
pub open spec fn argv_fits(call: TargetCallStep, res: Result<Seq<char>, ErrV>, r: Result<Vec<String>, ExecuteError>) -> bool {
    match res {
        Err(e) => r matches Err(ExecuteError::Substitution(x)) && x@ == e,
        Ok(s) => if trim(s).len() == 0 {
            r matches Ok(v) && v@.len() == 0
        } else {
            match shell_words(trim(s)) {
                Some(ws) => r matches Ok(v) && strs_view(v@) == ws,
                None => r matches Err(ExecuteError::DependencyFailed(t, m))
                    && t@ == call.target@ && m@ == tokenize_error(call.args_template@),
            }
        },
    }
}

/// The arguments of `call` once its template was substituted to
/// `substituted`.
pub fn argv_outcome(call: &TargetCallStep, substituted: Result<String, SubstitutionError>) -> (r: Result<Vec<String>, ExecuteError>)
    ensures
        argv_fits(*call, res_view(substituted), r),
{
    match substituted {
        Err(e) => Err(ExecuteError::Substitution(e)),
        Ok(s) => {
            let t = trim_exec(&chars_of(s.as_str()));
            if t.len() == 0 {
                return Ok(Vec::new());
            }
            let ts = string_of(&t);
            match shlex_split(ts.as_str()) {
                Some(v) => Ok(v),
                None => {
                    let mut m: Vec<char> = Vec::new();
                    push_str(&mut m, "could not tokenize args template `");
                    push_str(&mut m, call.args_template.as_str());
                    push_str(&mut m, "` (unbalanced quotes?)");
                    let mut t2: Vec<char> = Vec::new();
                    push_str(&mut t2, call.target.as_str());
                    Err(ExecuteError::DependencyFailed(string_of(&t2), string_of(&m)))
                },
            }
        },
    }
}

/// The arguments a `@target` call passes on: its template substituted and
/// split into words; no arguments for an empty template, which is not
/// substituted at all.
pub fn resolve_target_call_argv(call: &TargetCallStep, args: &RunArgs, env: &HashMap<String, String>) -> (r: Result<Vec<String>, ExecuteError>)
    ensures
        call.args_template@.len() == 0 ==> (r matches Ok(v) && v@.len() == 0),
        call.args_template@.len() > 0 ==> exists|res: Result<Seq<char>, ErrV>|
            #[trigger] substitutes(*args, *env, call.args_template@, res) && argv_fits(*call, res, r),
{
    if call.args_template.unicode_len() == 0 {
        return Ok(Vec::new());
    }
    let substituted = args.substitute(call.args_template.as_str(), env);
    let ghost res = res_view(substituted);
    assert(substitutes(*args, *env, call.args_template@, res));
    argv_outcome(call, substituted)
}

/// The words of an argument template as printing a target reads them: like
/// a run, except that words which do not tokenize give no arguments.
pub fn extract_argv(substituted: &str) -> (r: Vec<String>)
    ensures
        trim(substituted@).len() == 0 ==> r@.len() == 0,
        trim(substituted@).len() > 0 ==> match shell_words(trim(substituted@)) {
            Some(ws) => strs_view(r@) == ws,
            None => r@.len() == 0,
        },
{
    let t = trim_exec(&chars_of(substituted));
    if t.len() == 0 {
        return Vec::new();
    }
    let ts = string_of(&t);
    match shlex_split(ts.as_str()) {
        Some(v) => v,
        None => Vec::new(),
    }
}

/// When a step runs, relative to the outcome of the steps before it.
#[derive(Debug, Clone, Copy, PartialEq, Eq, Structural)]
pub enum WhenCondition {
    Success,
    Failure,
    Always,
}

/// The guard of a block nested with guard `inner` inside one with guard
/// `outer`: `Always` defers to the other, equal guards stay, and `Success`
/// inside `Failure` (or the reverse) can never run.
pub open spec fn meet(outer: WhenCondition, inner: WhenCondition) -> Option<WhenCondition> {
    if outer == WhenCondition::Always {
        Some(inner)
    } else if inner == WhenCondition::Always || inner == outer {
        Some(outer)
    } else {
        None
    }
}

pub fn intersect_when(outer: WhenCondition, inner: WhenCondition) -> (r: Option<WhenCondition>)
    ensures
        r == meet(outer, inner),
{
    match (outer, inner) {
        (WhenCondition::Success, WhenCondition::Success) => Some(WhenCondition::Success),
        (WhenCondition::Success, WhenCondition::Failure) => None,
        (WhenCondition::Success, WhenCondition::Always) => Some(WhenCondition::Success),
        (WhenCondition::Failure, WhenCondition::Success) => None,
        (WhenCondition::Failure, WhenCondition::Failure) => Some(WhenCondition::Failure),
        (WhenCondition::Failure, WhenCondition::Always) => Some(WhenCondition::Failure),
        (WhenCondition::Always, inner) => Some(inner),
    }
}

/// The phrase for a dependency that reported failures without an error:
/// nothing without failures; else its exit code, the number of failed
/// commands when the last exit was 0, or the signal that ended it.
pub open spec fn dependency_detail(failures: nat, code: Option<i32>) -> Option<Seq<char>> {
    if failures == 0 {
        None
    } else {
        match code {
            Some(c) => if c == 0 {
                Some(dec(failures) + " command(s) failed"@)
            } else {
                Some("exit code "@ + int_text(c as int))
            },
            None => Some("terminated by signal"@),
        }
    }
}

/// [`dependency_detail`] for a dependency's result: its failure count and
/// the exit code of its last command (`None` when a signal ended it).
pub fn dep_result_failure_detail(failures: usize, code: Option<i32>) -> (r: Option<String>)
    ensures
        match r {
            Some(s) => dependency_detail(failures as nat, code) == Some(s@),
            None => dependency_detail(failures as nat, code) is None,
        },
{
    if failures == 0 {
        return None;
    }
    let mut m: Vec<char> = Vec::new();
    match code {
        Some(c) => {
            if c == 0 {
                let d = crate::text::dec_exec(failures);
                push_all(&mut m, &d);
                push_str(&mut m, " command(s) failed");
            } else {
                push_str(&mut m, "exit code ");
                let d = i32_text(c);
                push_all(&mut m, &d);
            }
        },
        None => push_str(&mut m, "terminated by signal"),
    }
    Some(string_of(&m))
}

} // verus!
