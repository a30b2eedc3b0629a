//! The commands a target would run, collected without running them (for
//! `--dry-run` and extraction): its steps walked as a run would walk them,
//! each command line substituted and each `@target` call recorded with the
//! arguments it passes, for the caller to resolve. `if` and `match` take
//! their branch; `for` runs its body once per value, a `for shell:` once
//! with the placeholder `<var>` (the iterator does not run); the values of
//! a `for glob:` come from the caller, in the order the walk meets them
//! (when it meets one more, it stops with the substituted pattern).

use vstd::prelude::*;
use std::collections::HashMap;
use crate::args::{RunArgs, res_view};
use crate::calls::{extract_argv, shell_words};
use crate::control::{substitutes, if_fits, match_fits, evaluate_if_condition, resolve_match_branch, MatchCases,
    ControlFlowError, MatchBranch, ExtractError};
use crate::errors::ErrV;
use crate::extract::{strs_view, ExtractedCommand, shell_iterator_placeholder};
use crate::flatten::{values_view, case_keys, literal_values, literal_values_x, store_value, restore_store, copy_texts};
use crate::outside::shared_map_insert;
use crate::steps::{CommandStep, ForSource};
use crate::text::{trim, trim_exec, chars_of};

verus! {

/// What a walk collects: a command with the environment it is printed
/// with, or an `@target` call with its target, arguments and whether a
/// missing target is skipped.
#[derive(Debug)]
pub enum ExtractItem {
    Command(ExtractedCommand),
    Call { target: String, argv: Vec<String>, optional: bool },
}

/// An item by value.
pub enum XItem {
    Command(Seq<char>, Seq<(Seq<char>, Seq<char>)>),
    Call(Seq<char>, Seq<Seq<char>>, bool),
}

pub open spec fn pairs_text(v: Seq<(String, String)>) -> Seq<(Seq<char>, Seq<char>)> {
    v.map_values(|p: (String, String)| (p.0@, p.1@))
}

pub open spec fn item_view(i: ExtractItem) -> XItem {
    match i {
        ExtractItem::Command(c) => XItem::Command(c.command@, pairs_text(c.env_vars@)),
        ExtractItem::Call { target, argv, optional } => XItem::Call(target@, strs_view(argv@), optional),
    }
}

pub open spec fn items_view(v: Seq<ExtractItem>) -> Seq<XItem> {
    v.map_values(|i: ExtractItem| item_view(i))
}

/// The walk's state: the items collected so far, and how many of the given
/// `for glob:` value lists were used.
pub type XSt = (Seq<XItem>, nat);

/// How a walk ended, by value.
pub enum XEnd {
    Done,
    Substitution(ErrV),
    /// A control-flow error other than a failed substitution.
    ControlFlow(ControlFlowError),
    /// A substitution failed inside an `if`, a `match` or a `for glob:`
    /// pattern.
    CfSubstitution(ErrV),
    /// A `for glob:` with this (substituted) pattern was met and no values were left.
    NeedGlob(Seq<char>),
    /// An error that walking the steps does not produce.
    Other,
}

/// Why a walk stopped before its end.
#[derive(Debug)]
pub enum ExtractStop {
    Failed(ExtractError),
    /// A `for glob:` was met for which no values were given, with its
    /// pattern substituted where the walk met it: the caller expands the
    /// pattern and walks again with the values appended.
    NeedGlob(String),
}

pub open spec fn xend_of(r: Result<(), ExtractStop>) -> XEnd {
    match r {
        Ok(_) => XEnd::Done,
        Err(ExtractStop::Failed(ExtractError::Substitution(e))) => XEnd::Substitution(e@),
        Err(ExtractStop::Failed(ExtractError::ControlFlow(c))) => cf_end(c),
        Err(ExtractStop::Failed(_)) => XEnd::Other,
        Err(ExtractStop::NeedGlob(g)) => XEnd::NeedGlob(g@),
    }
}

/// How a control-flow error ends a walk.
pub open spec fn cf_end(c: ControlFlowError) -> XEnd {
    match c {
        ControlFlowError::Substitution(e) => XEnd::CfSubstitution(e@),
        _ => XEnd::ControlFlow(c),
    }
}

/// The arguments an `@target` call passes, from its substituted template:
/// none when blank, else its words, none when they do not tokenize.
pub open spec fn call_args(s: Seq<char>) -> Seq<Seq<char>> {
    if trim(s).len() == 0 {
        Seq::empty()
    } else {
        match shell_words(trim(s)) {
            Some(ws) => ws,
            None => Seq::empty(),
        }
    }
}

/// What each step of a walk met.
pub enum XTrace {
    Command(Result<Seq<char>, ErrV>),
    /// The target substituted, then (for a non-empty template) the arguments.
    Call(Result<Seq<char>, ErrV>, Option<Result<Seq<char>, ErrV>>),
    Steps(Seq<XTrace>),
    Branch(Result<Seq<char>, ErrV>, Result<bool, ControlFlowError>, Seq<XTrace>),
    Case(MatchCases, Result<Seq<char>, ErrV>, Result<MatchBranch, ControlFlowError>, Seq<XTrace>),
    Loop(Seq<Result<Seq<char>, ErrV>>, Seq<Seq<XTrace>>),
}

/// One step walked from state `s` as the record `p` says, each command
/// printed with `extra`: how it ends and the state after it, or `None`
/// when `p` is not a record of walking it.
pub open spec fn x_step(a: RunArgs, env: HashMap<String, String>, extra: Seq<(Seq<char>, Seq<char>)>, globs: Seq<Seq<Seq<char>>>, step: CommandStep, p: XTrace, s: XSt) -> Option<(XEnd, XSt)>
    decreases step, 2nat,
{
    match step {
        CommandStep::Shell(x) => match p {
            XTrace::Command(res) => if substitutes(a, env, x@, res) {
                match res {
                    Ok(v) => if trim(v).len() == 0 {
                        Some((XEnd::Done, s))
                    } else {
                        Some((XEnd::Done, (s.0.push(XItem::Command(v, extra)), s.1)))
                    },
                    Err(er) => Some((XEnd::Substitution(er), s)),
                }
            } else {
                None
            },
            _ => None,
        },
        CommandStep::TargetCall(c) => match p {
            XTrace::Call(rt, ra) => if substitutes(a, env, c.target@, rt) {
                match rt {
                    Err(er) => if ra is None { Some((XEnd::Substitution(er), s)) } else { None },
                    Ok(tv) => if c.args_template@.len() == 0 {
                        if ra is None {
                            Some((XEnd::Done, (s.0.push(XItem::Call(tv, Seq::empty(), c.optional)), s.1)))
                        } else {
                            None
                        }
                    } else {
                        match ra {
                            Some(rav) => if substitutes(a, env, c.args_template@, rav) {
                                match rav {
                                    Err(er) => Some((XEnd::Substitution(er), s)),
                                    Ok(av) => Some((XEnd::Done, (s.0.push(XItem::Call(tv, call_args(av), c.optional)), s.1))),
                                }
                            } else {
                                None
                            },
                            None => None,
                        }
                    },
                }
            } else {
                None
            },
            _ => None,
        },
        CommandStep::When { commands, .. } => match p {
            XTrace::Steps(ps) => x_list(a, env, extra, globs, commands@, ps, 0, s),
            _ => None,
        },
        CommandStep::If { condition, then, otherwise, .. } => match p {
            XTrace::Branch(res, r, ps) => if substitutes(a, env, condition@, res) && if_fits(condition@, res, r) {
                match r {
                    Err(ce) => if ps.len() == 0 { Some((cf_end(ce), s)) } else { None },
                    Ok(b) => if b {
                        x_list(a, env, extra, globs, then@, ps, 0, s)
                    } else {
                        match otherwise {
                            Some(o) => x_list(a, env, extra, globs, o@, ps, 0, s),
                            None => if ps.len() == 0 { Some((XEnd::Done, s)) } else { None },
                        }
                    },
                }
            } else {
                None
            },
            _ => None,
        },
        CommandStep::Match { expr, cases, default, .. } => match p {
            XTrace::Case(mc, res, r, ps) => if mc.expr@ == expr@ && strs_view(mc.keys@) == case_keys(cases@)
                && mc.has_default == (default is Some) && substitutes(a, env, expr@, res) && match_fits(mc, res, r) {
                match r {
                    Err(ce) => if ps.len() == 0 { Some((cf_end(ce), s)) } else { None },
                    Ok(MatchBranch::Case(i)) => if i < cases@.len() {
                        x_list(a, env, extra, globs, cases@[i as int].1@, ps, 0, s)
                    } else if ps.len() == 0 {
                        Some((XEnd::Done, s))
                    } else {
                        None
                    },
                    Ok(MatchBranch::Default) => match default {
                        Some(d) => x_list(a, env, extra, globs, d@, ps, 0, s),
                        None => if ps.len() == 0 { Some((XEnd::Done, s)) } else { None },
                    },
                }
            } else {
                None
            },
            _ => None,
        },
        CommandStep::For { var, source, glob, .. } => match p {
            XTrace::Loop(outs, runs) => match source {
                Some(ForSource::Literal(items)) => match literal_values(a, env, items@, outs, 0, Seq::empty()) {
                    Some(Ok(vals)) => x_for(a, env, extra, globs, step, vals, runs, 0, s),
                    Some(Err(er)) => if runs.len() == 0 { Some((XEnd::Substitution(er), s)) } else { None },
                    None => None,
                },
                Some(ForSource::Namespaces) => if outs.len() == 0 {
                    x_for(a, env, extra, globs, step, strs_view(a.run_context.namespaces@), runs, 0, s)
                } else {
                    None
                },
                None => match glob {
                    Some(g) => if outs.len() == 1 && substitutes(a, env, g@, outs[0]) {
                        match outs[0] {
                            Err(er) => if runs.len() == 0 { Some((XEnd::CfSubstitution(er), s)) } else { None },
                            Ok(pv) => if s.1 < globs.len() {
                                x_for(a, env, extra, globs, step, globs[s.1 as int], runs, 0, (s.0, (s.1 + 1) as nat))
                            } else if runs.len() == 0 {
                                Some((XEnd::NeedGlob(pv), s))
                            } else {
                                None
                            },
                        }
                    } else {
                        None
                    },
                    None => if outs.len() == 0 {
                        x_for(a, env, extra, globs, step, seq!["<"@ + var@ + ">"@], runs, 0, s)
                    } else {
                        None
                    },
                },
            },
            _ => None,
        },
    }
}

/// The body of the `for` step `step` walked once per value from the
/// `j`-th, `runs[j]` recording each; the first stop ends it.
pub open spec fn x_for(a: RunArgs, env: HashMap<String, String>, extra: Seq<(Seq<char>, Seq<char>)>, globs: Seq<Seq<Seq<char>>>, step: CommandStep, vals: Seq<Seq<char>>, runs: Seq<Seq<XTrace>>, j: int, s: XSt) -> Option<(XEnd, XSt)>
    decreases step, 1nat, vals.len() - j,
{
    match step {
        CommandStep::For { body, .. } => if j < 0 || j >= vals.len() {
            if runs.len() == vals.len() { Some((XEnd::Done, s)) } else { None }
        } else if j >= runs.len() {
            None
        } else {
            match x_list(a, env, extra, globs, body@, runs[j], 0, s) {
                Some((e1, m)) => if e1 is Done {
                    x_for(a, env, extra, globs, step, vals, runs, j + 1, m)
                } else if runs.len() == j + 1 {
                    Some((e1, m))
                } else {
                    None
                },
                None => None,
            }
        },
        _ => None,
    }
}

/// The steps of `steps` from the `k`-th walked in order, `ps[k]` recording
/// each; the first stop ends the walk.
pub open spec fn x_list(a: RunArgs, env: HashMap<String, String>, extra: Seq<(Seq<char>, Seq<char>)>, globs: Seq<Seq<Seq<char>>>, steps: Seq<CommandStep>, ps: Seq<XTrace>, k: int, s: XSt) -> Option<(XEnd, XSt)>
    decreases steps, 0nat, steps.len() - k,
{
    if k < 0 || k >= steps.len() {
        if ps.len() == steps.len() { Some((XEnd::Done, s)) } else { None }
    } else if k >= ps.len() {
        None
    } else {
        match x_step(a, env, extra, globs, steps[k], ps[k], s) {
            Some((e1, m)) => if e1 is Done {
                x_list(a, env, extra, globs, steps, ps, k + 1, m)
            } else if ps.len() == k + 1 {
                Some((e1, m))
            } else {
                None
            },
            None => None,
        }
    }
}

/// The body of the `for` step `step` once per value of `vals`, the loop
/// variable bound to each value in the variable store (and what it held
/// before put back afterwards).
fn x_for_x(step: &CommandStep, vals: &Vec<String>, args: &RunArgs, env: &HashMap<String, String>, extra: &Vec<(String, String)>,
    iters: &Vec<Vec<String>>, out: &mut Vec<ExtractItem>, it: &mut usize) -> (r: (Result<(), ExtractStop>, Ghost<Seq<Seq<XTrace>>>))
    requires
        *old(it) <= iters.len(),
        *step is For,
    ensures
        *final(it) <= iters.len(),
        x_for(*args, *env, pairs_text(extra@), values_view(iters@), *step, strs_view(vals@), r.1@, 0, (items_view(old(out)@), *old(it) as nat))
            == Some((xend_of(r.0), (items_view(final(out)@), *final(it) as nat))),
    decreases *step, 1nat,
{
    let ghost iv = values_view(iters@);
    let ghost vv = strs_view(vals@);
    let ghost init: XSt = (items_view(out@), *it as nat);
    let ghost mut runs: Seq<Seq<XTrace>> = Seq::empty();
    match step {
        CommandStep::For { var, body, .. } => {
            let prior = store_value(args, var);
            let mut j: usize = 0;
            while j < vals.len()
                invariant
                    j <= vals.len(),
                    *it <= iters.len(),
                    iv == values_view(iters@),
                    vv == strs_view(vals@),
                    init == (items_view(old(out)@), *old(it) as nat),
                    *step matches CommandStep::For { body: b, .. } && b == *body,
                    runs.len() == j,
                    forall|q: Seq<Seq<XTrace>>| #![trigger x_for(*args, *env, pairs_text(extra@), iv, *step, vv, q, 0, init)]
                        q.len() >= j && q.take(j as int) == runs ==>
                        x_for(*args, *env, pairs_text(extra@), iv, *step, vv, q, 0, init) == x_for(*args, *env, pairs_text(extra@), iv, *step, vv, q, j as int, (items_view(out@), *it as nat)),
                decreases vals.len() - j,
            {
                let ghost cur: XSt = (items_view(out@), *it as nat);
                shared_map_insert(&args.vars, var.clone(), vals[j].clone());
                let (r, g) = x_list_x(body, args, env, extra, iters, out, it);
                let ghost m: XSt = (items_view(out@), *it as nat);
                let ghost pk = g@;
                let ghost nruns = runs.push(pk);
                proof {
                    assert forall|q: Seq<Seq<XTrace>>| q.len() >= j + 1 && q.take(j + 1) == nruns implies
                        x_for(*args, *env, pairs_text(extra@), iv, *step, vv, q, 0, init) == x_for(*args, *env, pairs_text(extra@), iv, *step, vv, q, j as int, cur) by {
                        assert(q.take(j as int) =~= nruns.take(j as int));
                        assert(nruns.take(j as int) =~= runs);
                    }
                    assert forall|q: Seq<Seq<XTrace>>| q.len() >= j + 1 && q.take(j + 1) == nruns implies
                        #[trigger] q[j as int] == pk by {
                        assert(q.take(j + 1)[j as int] == q[j as int]);
                    }
                }
                if r.is_err() {
                    proof {
                        assert(nruns.take(j + 1) =~= nruns);
                        assert(nruns.take(j as int) =~= runs);
                        assert(nruns[j as int] == pk);
                        assert(x_list(*args, *env, pairs_text(extra@), iv, body@, pk, 0, cur) == Some((xend_of(r), m)));
                        assert(x_for(*args, *env, pairs_text(extra@), iv, *step, vv, nruns, j as int, cur) == Some((xend_of(r), m)));
                        assert(x_for(*args, *env, pairs_text(extra@), iv, *step, vv, nruns, 0, init) == Some((xend_of(r), m)));
                    }
                    restore_store(args, var, prior);
                    return (r, Ghost(nruns));
                }
                proof {
                    runs = nruns;
                }
                j += 1;
            }
            restore_store(args, var, prior);
            proof {
                assert(runs.take(j as int) =~= runs);
            }
            (Ok(()), Ghost(runs))
        },
        _ => (Ok(()), Ghost(runs)),
    }
}

/// An `if` step walked (see [`x_step`]).
fn x_if_x(step: &CommandStep, args: &RunArgs, env: &HashMap<String, String>, extra: &Vec<(String, String)>,
    iters: &Vec<Vec<String>>, out: &mut Vec<ExtractItem>, it: &mut usize) -> (r: (Result<(), ExtractStop>, Ghost<XTrace>))
    requires
        *old(it) <= iters.len(),
        *step is If,
    ensures
        *final(it) <= iters.len(),
        x_step(*args, *env, pairs_text(extra@), values_view(iters@), *step, r.1@, (items_view(old(out)@), *old(it) as nat))
            == Some((xend_of(r.0), (items_view(final(out)@), *final(it) as nat))),
    decreases *step, 2nat, 0nat,
{
    let ghost iv = values_view(iters@);
    match step {
        CommandStep::If { condition, then, otherwise, .. } => {
            let r = evaluate_if_condition(condition.as_str(), args, env);
            let ghost rg = r;
            let ghost res = choose|res: Result<Seq<char>, ErrV>| #[trigger] substitutes(*args, *env, condition@, res) && if_fits(condition@, res, r);
            assert(substitutes(*args, *env, condition@, res) && if_fits(condition@, res, r));
            match r {
                Err(ce) => (Err(ExtractStop::Failed(ExtractError::ControlFlow(ce))), Ghost(XTrace::Branch(res, rg, Seq::empty()))),
                Ok(b) => {
                    if b {
                        let (r2, g) = x_list_x(then, args, env, extra, iters, out, it);
                        (r2, Ghost(XTrace::Branch(res, rg, g@)))
                    } else {
                        match otherwise {
                            Some(o) => {
                                let (r2, g) = x_list_x(o, args, env, extra, iters, out, it);
                                (r2, Ghost(XTrace::Branch(res, rg, g@)))
                            },
                            None => (Ok(()), Ghost(XTrace::Branch(res, rg, Seq::empty()))),
                        }
                    }
                },
            }
        },
        _ => (Ok(()), Ghost(XTrace::Steps(Seq::empty()))),
    }
}

/// A `match` step walked (see [`x_step`]).
fn x_match_x(step: &CommandStep, args: &RunArgs, env: &HashMap<String, String>, extra: &Vec<(String, String)>,
    iters: &Vec<Vec<String>>, out: &mut Vec<ExtractItem>, it: &mut usize) -> (r: (Result<(), ExtractStop>, Ghost<XTrace>))
    requires
        *old(it) <= iters.len(),
        *step is Match,
    ensures
        *final(it) <= iters.len(),
        x_step(*args, *env, pairs_text(extra@), values_view(iters@), *step, r.1@, (items_view(old(out)@), *old(it) as nat))
            == Some((xend_of(r.0), (items_view(final(out)@), *final(it) as nat))),
    decreases *step, 2nat, 0nat,
{
    let ghost iv = values_view(iters@);
    match step {
        CommandStep::Match { expr, cases, default, .. } => {
            let mut keys: Vec<String> = Vec::new();
            let mut i: usize = 0;
            while i < cases.len()
                invariant
                    i <= cases.len(),
                    strs_view(keys@) == case_keys(cases@).take(i as int),
                decreases cases.len() - i,
            {
                let ghost o = keys@;
                keys.push(cases[i].0.clone());
                assert(strs_view(keys@) =~= case_keys(cases@).take(i + 1)) by {
                    assert(strs_view(keys@) =~= strs_view(o).push(cases@[i as int].0@));
                }
                i += 1;
            }
            assert(case_keys(cases@).take(cases.len() as int) =~= case_keys(cases@));
            let mc = MatchCases { expr: expr.clone(), keys, has_default: default.is_some() };
            let br = resolve_match_branch(&mc, args, env);
            let ghost bg = br;
            let ghost res = choose|res: Result<Seq<char>, ErrV>| #[trigger] substitutes(*args, *env, mc.expr@, res) && match_fits(mc, res, br);
            assert(substitutes(*args, *env, mc.expr@, res) && match_fits(mc, res, br));
            match br {
                Err(ce) => (Err(ExtractStop::Failed(ExtractError::ControlFlow(ce))), Ghost(XTrace::Case(mc, res, bg, Seq::empty()))),
                Ok(MatchBranch::Case(i)) => {
                    if i < cases.len() {
                        let (r2, g) = x_list_x(&cases[i].1, args, env, extra, iters, out, it);
                        (r2, Ghost(XTrace::Case(mc, res, bg, g@)))
                    } else {
                        (Ok(()), Ghost(XTrace::Case(mc, res, bg, Seq::empty())))
                    }
                },
                Ok(MatchBranch::Default) => match default {
                    Some(d) => {
                        let (r2, g) = x_list_x(d, args, env, extra, iters, out, it);
                        (r2, Ghost(XTrace::Case(mc, res, bg, g@)))
                    },
                    None => (Ok(()), Ghost(XTrace::Case(mc, res, bg, Seq::empty()))),
                },
            }
        },
        _ => (Ok(()), Ghost(XTrace::Steps(Seq::empty()))),
    }
}

/// A `for` step walked (see [`x_step`]).
fn x_for_step_x(step: &CommandStep, args: &RunArgs, env: &HashMap<String, String>, extra: &Vec<(String, String)>,
    iters: &Vec<Vec<String>>, out: &mut Vec<ExtractItem>, it: &mut usize) -> (r: (Result<(), ExtractStop>, Ghost<XTrace>))
    requires
        *old(it) <= iters.len(),
        *step is For,
    ensures
        *final(it) <= iters.len(),
        x_step(*args, *env, pairs_text(extra@), values_view(iters@), *step, r.1@, (items_view(old(out)@), *old(it) as nat))
            == Some((xend_of(r.0), (items_view(final(out)@), *final(it) as nat))),
    decreases *step, 2nat, 0nat,
{
    let ghost iv = values_view(iters@);
    match step {
        CommandStep::For { var, source, glob, .. } => {
            match source {
                Some(ForSource::Literal(items)) => {
                    let (lv, outs) = literal_values_x(items, args, env);
                    match lv {
                        Err(e) => (Err(ExtractStop::Failed(ExtractError::Substitution(e))), Ghost(XTrace::Loop(outs@, Seq::empty()))),
                        Ok(vals) => {
                            let (r, g) = x_for_x(step, &vals, args, env, extra, iters, out, it);
                            (r, Ghost(XTrace::Loop(outs@, g@)))
                        },
                    }
                },
                Some(ForSource::Namespaces) => {
                    let vals = copy_texts(&*args.run_context.namespaces);
                    let (r, g) = x_for_x(step, &vals, args, env, extra, iters, out, it);
                    (r, Ghost(XTrace::Loop(Seq::empty(), g@)))
                },
                None => {
                    match glob {
                        Some(g) => {
                            let rp = args.substitute(g.as_str(), env);
                            let ghost rpv = res_view(rp);
                            assert(substitutes(*args, *env, g@, rpv));
                            match rp {
                                Err(e) => (Err(ExtractStop::Failed(ExtractError::ControlFlow(ControlFlowError::Substitution(e)))),
                                    Ghost(XTrace::Loop(seq![rpv], Seq::empty()))),
                                Ok(pat) => {
                                    if *it < iters.len() {
                                        let vals = copy_texts(&iters[*it]);
                                        *it = *it + 1;
                                        let (r, gr) = x_for_x(step, &vals, args, env, extra, iters, out, it);
                                        (r, Ghost(XTrace::Loop(seq![rpv], gr@)))
                                    } else {
                                        (Err(ExtractStop::NeedGlob(pat)), Ghost(XTrace::Loop(seq![rpv], Seq::empty())))
                                    }
                                },
                            }
                        },
                        None => {
                            let mut vals: Vec<String> = Vec::new();
                            vals.push(shell_iterator_placeholder(var.as_str()));
                            assert(strs_view(vals@) =~= seq!["<"@ + var@ + ">"@]);
                            let (r, gr) = x_for_x(step, &vals, args, env, extra, iters, out, it);
                            (r, Ghost(XTrace::Loop(Seq::empty(), gr@)))
                        },
                    }
                },
            }
        },
        _ => (Ok(()), Ghost(XTrace::Steps(Seq::empty()))),
    }
}

/// One step walked (see [`x_step`]).
fn x_step_x(step: &CommandStep, args: &RunArgs, env: &HashMap<String, String>, extra: &Vec<(String, String)>,
    iters: &Vec<Vec<String>>, out: &mut Vec<ExtractItem>, it: &mut usize) -> (r: (Result<(), ExtractStop>, Ghost<XTrace>))
    requires
        *old(it) <= iters.len(),
    ensures
        *final(it) <= iters.len(),
        x_step(*args, *env, pairs_text(extra@), values_view(iters@), *step, r.1@, (items_view(old(out)@), *old(it) as nat))
            == Some((xend_of(r.0), (items_view(final(out)@), *final(it) as nat))),
    decreases *step, 2nat, 1nat,
{
    let ghost iv = values_view(iters@);
    match step {
        CommandStep::Shell(x) => {
            let res = args.substitute(x.as_str(), env);
            let ghost rv = res_view(res);
            assert(substitutes(*args, *env, x@, rv));
            match res {
                Ok(v) => {
                    let t = trim_exec(&chars_of(v.as_str()));
                    if t.len() == 0 {
                        return (Ok(()), Ghost(XTrace::Command(rv)));
                    }
                    let ghost o = out@;
                    let ghost vs = v@;
                    let envs = copy_pairs(extra);
                    out.push(ExtractItem::Command(ExtractedCommand { command: v, env_vars: envs }));
                    assert(items_view(out@) =~= items_view(o).push(XItem::Command(vs, pairs_text(extra@))));
                    (Ok(()), Ghost(XTrace::Command(rv)))
                },
                Err(e) => (Err(ExtractStop::Failed(ExtractError::Substitution(e))), Ghost(XTrace::Command(rv))),
            }
        },
        CommandStep::TargetCall(c) => {
            let rt = args.substitute(c.target.as_str(), env);
            let ghost rtv = res_view(rt);
            assert(substitutes(*args, *env, c.target@, rtv));
            let target = match rt {
                Ok(t) => t,
                Err(e) => {
                    return (Err(ExtractStop::Failed(ExtractError::Substitution(e))), Ghost(XTrace::Call(rtv, None)));
                },
            };
            if c.args_template.unicode_len() == 0 {
                let ghost o = out@;
                let ghost tv = target@;
                let argv: Vec<String> = Vec::new();
                assert(strs_view(argv@) =~= Seq::<Seq<char>>::empty());
                out.push(ExtractItem::Call { target, argv, optional: c.optional });
                assert(items_view(out@) =~= items_view(o).push(XItem::Call(tv, Seq::empty(), c.optional)));
                return (Ok(()), Ghost(XTrace::Call(rtv, None)));
            }
            assert(c.args_template@.len() != 0);
            let ra = args.substitute(c.args_template.as_str(), env);
            let ghost rav = res_view(ra);
            assert(substitutes(*args, *env, c.args_template@, rav));
            match ra {
                Ok(av) => {
                    let argv = extract_argv(av.as_str());
                    let ghost o = out@;
                    let ghost tv = target@;
                    let ghost wv = strs_view(argv@);
                    assert(wv == call_args(av@));
                    out.push(ExtractItem::Call { target, argv, optional: c.optional });
                    assert(items_view(out@) =~= items_view(o).push(XItem::Call(tv, wv, c.optional)));
                    (Ok(()), Ghost(XTrace::Call(rtv, Some(rav))))
                },
                Err(e) => (Err(ExtractStop::Failed(ExtractError::Substitution(e))), Ghost(XTrace::Call(rtv, Some(rav)))),
            }
        },
        CommandStep::When { commands, .. } => {
            let (r, g) = x_list_x(commands, args, env, extra, iters, out, it);
            (r, Ghost(XTrace::Steps(g@)))
        },
        CommandStep::If { .. } => x_if_x(step, args, env, extra, iters, out, it),
        CommandStep::Match { .. } => x_match_x(step, args, env, extra, iters, out, it),
        CommandStep::For { .. } => x_for_step_x(step, args, env, extra, iters, out, it),
    }
}

/// The steps walked in order (see [`x_list`]).
fn x_list_x(steps: &Vec<CommandStep>, args: &RunArgs, env: &HashMap<String, String>, extra: &Vec<(String, String)>,
    iters: &Vec<Vec<String>>, out: &mut Vec<ExtractItem>, it: &mut usize) -> (r: (Result<(), ExtractStop>, Ghost<Seq<XTrace>>))
    requires
        *old(it) <= iters.len(),
    ensures
        *final(it) <= iters.len(),
        x_list(*args, *env, pairs_text(extra@), values_view(iters@), steps@, r.1@, 0, (items_view(old(out)@), *old(it) as nat))
            == Some((xend_of(r.0), (items_view(final(out)@), *final(it) as nat))),
    decreases steps@, 0nat,
{
    let ghost iv = values_view(iters@);
    let ghost init: XSt = (items_view(out@), *it as nat);
    let ghost mut ps: Seq<XTrace> = Seq::empty();
    let mut k: usize = 0;
    while k < steps.len()
        invariant
            k <= steps.len(),
            *it <= iters.len(),
            iv == values_view(iters@),
            init == (items_view(old(out)@), *old(it) as nat),
            ps.len() == k,
            forall|q: Seq<XTrace>| #![trigger x_list(*args, *env, pairs_text(extra@), iv, steps@, q, 0, init)]
                q.len() >= k && q.take(k as int) == ps ==>
                x_list(*args, *env, pairs_text(extra@), iv, steps@, q, 0, init) == x_list(*args, *env, pairs_text(extra@), iv, steps@, q, k as int, (items_view(out@), *it as nat)),
        decreases steps.len() - k,
    {
        let ghost cur: XSt = (items_view(out@), *it as nat);
        let (r, g) = x_step_x(&steps[k], args, env, extra, iters, out, it);
        let ghost m: XSt = (items_view(out@), *it as nat);
        let ghost pk = g@;
        let ghost nps = ps.push(pk);
        proof {
            assert forall|q: Seq<XTrace>| q.len() >= k + 1 && q.take(k + 1) == nps implies
                x_list(*args, *env, pairs_text(extra@), iv, steps@, q, 0, init) == x_list(*args, *env, pairs_text(extra@), iv, steps@, q, k as int, cur) by {
                assert(q.take(k as int) =~= nps.take(k as int));
                assert(nps.take(k as int) =~= ps);
            }
            assert forall|q: Seq<XTrace>| q.len() >= k + 1 && q.take(k + 1) == nps implies
                #[trigger] q[k as int] == pk by {
                assert(q.take(k + 1)[k as int] == q[k as int]);
            }
        }
        if r.is_err() {
            proof {
                assert(nps.take(k + 1) =~= nps);
                assert(nps.take(k as int) =~= ps);
                assert(nps[k as int] == pk);
                assert(x_step(*args, *env, pairs_text(extra@), iv, steps@[k as int], pk, cur) == Some((xend_of(r), m)));
                assert(x_list(*args, *env, pairs_text(extra@), iv, steps@, nps, k as int, cur) == Some((xend_of(r), m)));
                assert(x_list(*args, *env, pairs_text(extra@), iv, steps@, nps, 0, init) == Some((xend_of(r), m)));
            }
            return (r, Ghost(nps));
        }
        proof {
            ps = nps;
        }
        k += 1;
    }
    proof {
        assert(ps.take(k as int) =~= ps);
    }
    (Ok(()), Ghost(ps))
}


fn copy_pairs(v: &Vec<(String, String)>) -> (r: Vec<(String, String)>)
    ensures
        pairs_text(r@) == pairs_text(v@),
{
    let mut r: Vec<(String, String)> = Vec::new();
    let mut i: usize = 0;
    while i < v.len()
        invariant
            i <= v.len(),
            pairs_text(r@) == pairs_text(v@).take(i as int),
        decreases v.len() - i,
    {
        let ghost o = r@;
        r.push((v[i].0.clone(), v[i].1.clone()));
        assert(pairs_text(r@) =~= pairs_text(v@).take(i + 1)) by {
            assert(pairs_text(r@) =~= pairs_text(o).push((v@[i as int].0@, v@[i as int].1@)));
        }
        i += 1;
    }
    assert(pairs_text(v@).take(v.len() as int) =~= pairs_text(v@));
    r
}

/// What walking `steps` from an empty collection comes to, the record `ps`
/// saying what each substitution and decision gave: how the walk ended
/// and the items it collected, or `None` when `ps` is no record of it.
pub open spec fn x_walked(a: RunArgs, env: HashMap<String, String>, extra: Seq<(Seq<char>, Seq<char>)>, globs: Seq<Seq<Seq<char>>>, steps: Seq<CommandStep>, ps: Seq<XTrace>, before: Seq<XItem>) -> Option<(XEnd, XSt)> {
    x_list(a, env, extra, globs, steps, ps, 0, (before, 0))
}

/// Appends to `out` what `steps` would run, in order: each command line as
/// substituted (blank ones left out) with `extra_env`, and each `@target`
/// call with its substituted target and arguments, for the caller to
/// resolve. `if` and `match` take the branch a run would take; a `for`
/// binds its variable to each value in turn and puts back what it held;
/// a `for shell:` runs its body once with `<var>`; the `for glob:` loops
/// met take their values from `glob_values` in order, and when none are
/// left the walk stops with `NeedGlob` and the substituted pattern. The
/// first error stops the walk.
pub fn extract_steps(steps: &Vec<CommandStep>, args: &RunArgs, env: &HashMap<String, String>,
    extra_env: &Vec<(String, String)>, glob_values: &Vec<Vec<String>>, out: &mut Vec<ExtractItem>) -> (r: Result<(), ExtractStop>)
    ensures
        exists|ps: Seq<XTrace>| {
            let w = #[trigger] x_walked(*args, *env, pairs_text(extra_env@), values_view(glob_values@), steps@, ps, items_view(old(out)@));
            &&& w is Some
            &&& w.unwrap().0 == xend_of(r)
            &&& w.unwrap().1.0 == items_view(final(out)@)
        },
{
    let mut it: usize = 0;
    let (r, g) = x_list_x(steps, args, env, extra_env, glob_values, out, &mut it);
    assert(x_walked(*args, *env, pairs_text(extra_env@), values_view(glob_values@), steps@, g@, items_view(old(out)@))
        == Some((xend_of(r), (items_view(out@), it as nat))));
    r
}

} // verus!
