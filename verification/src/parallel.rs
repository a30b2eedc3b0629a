//! The leaves of a parallel block: its steps walked as a run would walk
//! them, each command line substituted and each `@target` call resolved to
//! its target and arguments, every leaf tagged with the `when:` partition
//! it runs in. Each step's guard is composed with the one around it, and a
//! step that can never run is left out; `if` and `match` take their branch
//! now; `for` runs its body once per value. A command line that comes out
//! blank is not a leaf, and is counted so that the planned total can lose
//! it. The values of a `for glob:` or `for shell:` come from the caller, in
//! the order the walk meets them: when it meets one more than it was
//! given, it stops and asks.

use vstd::prelude::*;
use std::collections::HashMap;
use crate::args::{RunArgs, res_view};
use crate::calls::{WhenCondition, resolve_target_call_argv, argv_fits};
use crate::control::{substitutes, if_fits, match_fits, evaluate_if_condition, resolve_match_branch, MatchCases, ControlFlowError,
    MatchBranch, ExecuteError};
use crate::errors::ErrV;
use crate::extract::strs_view;
use crate::flatten::{opt_text, wraps, iter_text, values_view, case_keys, literal_values, literal_values_x, store_value, restore_store, copy_texts};
use crate::outside::shared_map_insert;
use crate::steps::{CommandStep, ForSource, compose_step_guard, composed_guard, own_guard, leaf_partition};
use crate::text::{trim, trim_exec, chars_of};

verus! {

/// One leaf of a parallel block: a command line or an `@target` call, with
/// the `when:` partition it runs in.
#[derive(Debug)]
pub enum ParallelLeaf {
    Shell { command: String, when: WhenCondition },
    TargetCall { target: String, argv: Vec<String>, optional: bool, when: WhenCondition },
}

/// A leaf by value.
pub enum PItem {
    Shell(Seq<char>, WhenCondition),
    Call(Seq<char>, Seq<Seq<char>>, bool, WhenCondition),
}

pub open spec fn leaf_view(l: ParallelLeaf) -> PItem {
    match l {
        ParallelLeaf::Shell { command, when } => PItem::Shell(command@, when),
        ParallelLeaf::TargetCall { target, argv, optional, when } => PItem::Call(target@, strs_view(argv@), optional, when),
    }
}

pub open spec fn leaves_view(v: Seq<ParallelLeaf>) -> Seq<PItem> {
    v.map_values(|l: ParallelLeaf| leaf_view(l))
}

/// The walk's state: the leaves collected so far, how many blank command
/// lines were left out, and how many of the given iteration lists were
/// used.
pub type PSt = (Seq<PItem>, nat, nat);

/// One more left out, the count stopping at the largest `usize`.
pub open spec fn bump(n: nat) -> nat {
    if n < usize::MAX { n + 1 } else { n }
}

/// The partition of a leaf under the composed guard `g` (none: success).
pub open spec fn part_of(g: Option<WhenCondition>) -> WhenCondition {
    match g {
        Some(w) => w,
        None => WhenCondition::Success,
    }
}

/// Why a walk stopped before its end.
#[derive(Debug)]
pub enum ParallelStop {
    Failed(ExecuteError),
    /// A `for glob:` (its pattern) or `for shell:` (its command), substituted
    /// where the walk met it, for which no values were given: the caller
    /// computes them and walks again with them appended.
    NeedIterations(Option<String>, Option<String>),
}

/// How a walk ended, by value.
pub enum PEnd {
    Done,
    Substitution(ErrV),
    ControlFlow(ControlFlowError),
    Other(ExecuteError),
    NeedIterations(Option<Seq<char>>, Option<Seq<char>>),
}

pub open spec fn exec_end(e: ExecuteError) -> PEnd {
    match e {
        ExecuteError::Substitution(x) => PEnd::Substitution(x@),
        ExecuteError::ControlFlow(c) => PEnd::ControlFlow(c),
        _ => PEnd::Other(e),
    }
}

pub open spec fn pend_of<T>(r: Result<T, ParallelStop>) -> PEnd {
    match r {
        Ok(_) => PEnd::Done,
        Err(ParallelStop::Failed(e)) => exec_end(e),
        Err(ParallelStop::NeedIterations(g, h)) => PEnd::NeedIterations(opt_text(g), opt_text(h)),
    }
}

/// What each step of a walk met.
pub enum PTrace {
    /// A step whose guard can never hold, left out.
    Skipped,
    Command(Result<Seq<char>, ErrV>),
    /// The target substituted, then its arguments' template substituted
    /// and the arguments that came of it.
    Call(Result<Seq<char>, ErrV>, Option<(Result<Seq<char>, ErrV>, Result<Vec<String>, ExecuteError>)>),
    Steps(Seq<PTrace>),
    Branch(Result<Seq<char>, ErrV>, Result<bool, ControlFlowError>, Seq<PTrace>),
    Case(MatchCases, Result<Seq<char>, ErrV>, Result<MatchBranch, ControlFlowError>, Seq<PTrace>),
    /// A `for`: the substitutions its values needed (each literal item,
    /// or the glob pattern or shell command), the control-flow error a
    /// failed one became, then each iteration's steps.
    Loop(Seq<Result<Seq<char>, ErrV>>, Option<ControlFlowError>, Seq<Seq<PTrace>>),
}

/// One step walked under the enclosing guard `g` from state `s` as the
/// record `p` says: how it ends and the state after it, or `None` when `p`
/// is not a record of walking it.
pub open spec fn p_step(a: RunArgs, env: HashMap<String, String>, iters: Seq<Seq<Seq<char>>>, g: Option<WhenCondition>, step: CommandStep, p: PTrace, s: PSt) -> Option<(PEnd, PSt)>
    decreases step, 2nat,
{
    match composed_guard(g, own_guard(step)) {
        None => if p is Skipped { Some((PEnd::Done, s)) } else { None },
        Some(gd) => match step {
            CommandStep::Shell(x) => match p {
                PTrace::Command(res) => if substitutes(a, env, x@, res) {
                    match res {
                        Ok(v) => if trim(v).len() == 0 {
                            Some((PEnd::Done, (s.0, bump(s.1), s.2)))
                        } else {
                            Some((PEnd::Done, (s.0.push(PItem::Shell(v, part_of(gd))), s.1, s.2)))
                        },
                        Err(er) => Some((PEnd::Substitution(er), s)),
                    }
                } else {
                    None
                },
                _ => None,
            },
            CommandStep::TargetCall(c) => match p {
                PTrace::Call(rt, rest) => if substitutes(a, env, c.target@, rt) {
                    match rt {
                        Err(er) => if rest is None { Some((PEnd::Substitution(er), s)) } else { None },
                        Ok(tv) => match rest {
                            Some((ra, rr)) => if (c.args_template@.len() == 0 ==> (rr matches Ok(v) && v@.len() == 0))
                                && (c.args_template@.len() > 0 ==> substitutes(a, env, c.args_template@, ra) && argv_fits(c, ra, rr)) {
                                match rr {
                                    Ok(v) => Some((PEnd::Done, (s.0.push(PItem::Call(tv, strs_view(v@), c.optional, part_of(gd))), s.1, s.2))),
                                    Err(e) => Some((exec_end(e), s)),
                                }
                            } else {
                                None
                            },
                            None => None,
                        },
                    }
                } else {
                    None
                },
                _ => None,
            },
            CommandStep::When { commands, .. } => match p {
                PTrace::Steps(ps) => p_list(a, env, iters, gd, commands@, ps, 0, s),
                _ => None,
            },
            CommandStep::If { condition, then, otherwise, .. } => match p {
                PTrace::Branch(res, r, ps) => if substitutes(a, env, condition@, res) && if_fits(condition@, res, r) {
                    match r {
                        Err(ce) => if ps.len() == 0 { Some((PEnd::ControlFlow(ce), s)) } else { None },
                        Ok(b) => if b {
                            p_list(a, env, iters, gd, then@, ps, 0, s)
                        } else {
                            match otherwise {
                                Some(o) => p_list(a, env, iters, gd, o@, ps, 0, s),
                                None => if ps.len() == 0 { Some((PEnd::Done, s)) } else { None },
                            }
                        },
                    }
                } else {
                    None
                },
                _ => None,
            },
            CommandStep::Match { expr, cases, default, .. } => match p {
                PTrace::Case(mc, res, r, ps) => if mc.expr@ == expr@ && strs_view(mc.keys@) == case_keys(cases@)
                    && mc.has_default == (default is Some) && substitutes(a, env, expr@, res) && match_fits(mc, res, r) {
                    match r {
                        Err(ce) => if ps.len() == 0 { Some((PEnd::ControlFlow(ce), s)) } else { None },
                        Ok(MatchBranch::Case(i)) => if i < cases@.len() {
                            p_list(a, env, iters, gd, cases@[i as int].1@, ps, 0, s)
                        } else if ps.len() == 0 {
                            Some((PEnd::Done, s))
                        } else {
                            None
                        },
                        Ok(MatchBranch::Default) => match default {
                            Some(d) => p_list(a, env, iters, gd, d@, ps, 0, s),
                            None => if ps.len() == 0 { Some((PEnd::Done, s)) } else { None },
                        },
                    }
                } else {
                    None
                },
                _ => None,
            },
            CommandStep::For { source, glob, shell, .. } => match p {
                PTrace::Loop(outs, ce, runs) => match source {
                    Some(ForSource::Literal(items)) => match literal_values(a, env, items@, outs, 0, Seq::empty()) {
                        Some(Ok(vals)) => p_for(a, env, iters, gd, step, vals, runs, 0, s),
                        Some(Err(er)) => if runs.len() == 0 && wraps(ce, er) { Some((PEnd::ControlFlow(ce.unwrap()), s)) } else { None },
                        None => None,
                    },
                    Some(ForSource::Namespaces) => if outs.len() == 0 {
                        p_for(a, env, iters, gd, step, strs_view(a.run_context.namespaces@), runs, 0, s)
                    } else {
                        None
                    },
                    None => match iter_text(glob, shell) {
                        Some(t) => if outs.len() == 1 && substitutes(a, env, t, outs[0]) {
                            match outs[0] {
                                Err(er) => if runs.len() == 0 && wraps(ce, er) { Some((PEnd::ControlFlow(ce.unwrap()), s)) } else { None },
                                Ok(v) => if s.2 < iters.len() {
                                    p_for(a, env, iters, gd, step, iters[s.2 as int], runs, 0, (s.0, s.1, (s.2 + 1) as nat))
                                } else if runs.len() == 0 {
                                    Some((PEnd::NeedIterations(if glob is Some { Some(v) } else { None }, if glob is Some { None } else { Some(v) }), s))
                                } else {
                                    None
                                },
                            }
                        } else {
                            None
                        },
                        None => if outs.len() == 0 && runs.len() == 0 { Some((PEnd::Done, s)) } else { None },
                    },
                },
                _ => None,
            },
        },
    }
}

/// The body of the `for` step `step` walked under guard `g` once per value
/// from the `j`-th, `runs[j]` recording each; the first stop ends it.
pub open spec fn p_for(a: RunArgs, env: HashMap<String, String>, iters: Seq<Seq<Seq<char>>>, g: Option<WhenCondition>, step: CommandStep, vals: Seq<Seq<char>>, runs: Seq<Seq<PTrace>>, j: int, s: PSt) -> Option<(PEnd, PSt)>
    decreases step, 1nat, vals.len() - j,
{
    match step {
        CommandStep::For { body, .. } => if j < 0 || j >= vals.len() {
            if runs.len() == vals.len() { Some((PEnd::Done, s)) } else { None }
        } else if j >= runs.len() {
            None
        } else {
            match p_list(a, env, iters, g, body@, runs[j], 0, s) {
                Some((e1, m)) => if e1 is Done {
                    p_for(a, env, iters, g, step, vals, runs, j + 1, m)
                } else if runs.len() == j + 1 {
                    Some((e1, m))
                } else {
                    None
                },
                None => None,
            }
        },
        _ => None,
    }
}

/// The steps of `steps` from the `k`-th walked in order under guard `g`,
/// `ps[k]` recording each; the first stop ends the walk.
pub open spec fn p_list(a: RunArgs, env: HashMap<String, String>, iters: Seq<Seq<Seq<char>>>, g: Option<WhenCondition>, steps: Seq<CommandStep>, ps: Seq<PTrace>, k: int, s: PSt) -> Option<(PEnd, PSt)>
    decreases steps, 0nat, steps.len() - k,
{
    if k < 0 || k >= steps.len() {
        if ps.len() == steps.len() { Some((PEnd::Done, s)) } else { None }
    } else if k >= ps.len() {
        None
    } else {
        match p_step(a, env, iters, g, steps[k], ps[k], s) {
            Some((e1, m)) => if e1 is Done {
                p_list(a, env, iters, g, steps, ps, k + 1, m)
            } else if ps.len() == k + 1 {
                Some((e1, m))
            } else {
                None
            },
            None => None,
        }
    }
}


// ── the walk ────────────────────────────────────────────────────────────

/// The state of a walk in progress, by value.
pub open spec fn pst(out: Seq<ParallelLeaf>, skipped: usize, it: usize) -> PSt {
    (leaves_view(out), skipped as nat, it as nat)
}

/// The body of the `for` step `step` once per value of `vals` under guard
/// `g`, the loop variable bound to each value in the variable store (and
/// what it held before put back afterwards).
fn p_for_x(step: &CommandStep, g: Option<WhenCondition>, vals: &Vec<String>, args: &RunArgs, env: &HashMap<String, String>,
    iters: &Vec<Vec<String>>, out: &mut Vec<ParallelLeaf>, skipped: &mut usize, it: &mut usize) -> (r: (Result<(), ParallelStop>, Ghost<Seq<Seq<PTrace>>>))
    requires
        *old(it) <= iters.len(),
        *step is For,
    ensures
        *final(it) <= iters.len(),
        p_for(*args, *env, values_view(iters@), g, *step, strs_view(vals@), r.1@, 0, pst(old(out)@, *old(skipped), *old(it)))
            == Some((pend_of(r.0), pst(final(out)@, *final(skipped), *final(it)))),
    decreases *step, 1nat,
{
    let ghost iv = values_view(iters@);
    let ghost vv = strs_view(vals@);
    let ghost init: PSt = pst(out@, *skipped, *it);
    let ghost mut runs: Seq<Seq<PTrace>> = Seq::empty();
    match step {
        CommandStep::For { var, body, .. } => {
            let prior = store_value(args, var);
            let mut j: usize = 0;
            while j < vals.len()
                invariant
                    j <= vals.len(),
                    *it <= iters.len(),
                    iv == values_view(iters@),
                    vv == strs_view(vals@),
                    init == pst(old(out)@, *old(skipped), *old(it)),
                    *step matches CommandStep::For { body: b, .. } && b == *body,
                    runs.len() == j,
                    forall|q: Seq<Seq<PTrace>>| #![trigger p_for(*args, *env, iv, g, *step, vv, q, 0, init)]
                        q.len() >= j && q.take(j as int) == runs ==>
                        p_for(*args, *env, iv, g, *step, vv, q, 0, init) == p_for(*args, *env, iv, g, *step, vv, q, j as int, pst(out@, *skipped, *it)),
                decreases vals.len() - j,
            {
                let ghost cur: PSt = pst(out@, *skipped, *it);
                shared_map_insert(&args.vars, var.clone(), vals[j].clone());
                let (r, gh) = p_list_x(body, g, args, env, iters, out, skipped, it);
                let ghost m: PSt = pst(out@, *skipped, *it);
                let ghost pk = gh@;
                let ghost nruns = runs.push(pk);
                proof {
                    assert forall|q: Seq<Seq<PTrace>>| q.len() >= j + 1 && q.take(j + 1) == nruns implies
                        p_for(*args, *env, iv, g, *step, vv, q, 0, init) == p_for(*args, *env, iv, g, *step, vv, q, j as int, cur) by {
                        assert(q.take(j as int) =~= nruns.take(j as int));
                        assert(nruns.take(j as int) =~= runs);
                    }
                    assert forall|q: Seq<Seq<PTrace>>| q.len() >= j + 1 && q.take(j + 1) == nruns implies
                        #[trigger] q[j as int] == pk by {
                        assert(q.take(j + 1)[j as int] == q[j as int]);
                    }
                }
                if r.is_err() {
                    proof {
                        assert(nruns.take(j + 1) =~= nruns);
                        assert(nruns.take(j as int) =~= runs);
                        assert(nruns[j as int] == pk);
                        assert(p_list(*args, *env, iv, g, body@, pk, 0, cur) == Some((pend_of(r), m)));
                        assert(p_for(*args, *env, iv, g, *step, vv, nruns, j as int, cur) == Some((pend_of(r), m)));
                        assert(p_for(*args, *env, iv, g, *step, vv, nruns, 0, init) == Some((pend_of(r), m)));
                    }
                    restore_store(args, var, prior);
                    return (r, Ghost(nruns));
                }
                proof {
                    runs = nruns;
                }
                j += 1;
            }
            restore_store(args, var, prior);
            proof {
                assert(runs.take(j as int) =~= runs);
            }
            (Ok(()), Ghost(runs))
        },
        _ => (Ok(()), Ghost(runs)),
    }
}

/// An `if` step walked (see [`p_step`]); `gd` is its composed guard.
fn p_if_x(step: &CommandStep, g: Option<WhenCondition>, gd: Option<WhenCondition>, args: &RunArgs, env: &HashMap<String, String>,
    iters: &Vec<Vec<String>>, out: &mut Vec<ParallelLeaf>, skipped: &mut usize, it: &mut usize) -> (r: (Result<(), ParallelStop>, Ghost<PTrace>))
    requires
        *old(it) <= iters.len(),
        composed_guard(g, own_guard(*step)) == Some(gd),
        *step is If,
    ensures
        *final(it) <= iters.len(),
        p_step(*args, *env, values_view(iters@), g, *step, r.1@, pst(old(out)@, *old(skipped), *old(it)))
            == Some((pend_of(r.0), pst(final(out)@, *final(skipped), *final(it)))),
    decreases *step, 2nat, 0nat,
{
    match step {
        CommandStep::If { condition, then, otherwise, .. } => {
            let r = evaluate_if_condition(condition.as_str(), args, env);
            let ghost rg = r;
            let ghost res = choose|res: Result<Seq<char>, ErrV>| #[trigger] substitutes(*args, *env, condition@, res) && if_fits(condition@, res, r);
            assert(substitutes(*args, *env, condition@, res) && if_fits(condition@, res, r));
            match r {
                Err(ce) => (Err(ParallelStop::Failed(ExecuteError::ControlFlow(ce))), Ghost(PTrace::Branch(res, rg, Seq::empty()))),
                Ok(b) => {
                    if b {
                        let (r2, gh) = p_list_x(then, gd, args, env, iters, out, skipped, it);
                        (r2, Ghost(PTrace::Branch(res, rg, gh@)))
                    } else {
                        match otherwise {
                            Some(o) => {
                                let (r2, gh) = p_list_x(o, gd, args, env, iters, out, skipped, it);
                                (r2, Ghost(PTrace::Branch(res, rg, gh@)))
                            },
                            None => (Ok(()), Ghost(PTrace::Branch(res, rg, Seq::empty()))),
                        }
                    }
                },
            }
        },
        _ => (Ok(()), Ghost(PTrace::Skipped)),
    }
}

/// A `match` step walked (see [`p_step`]); `gd` is its composed guard.
fn p_match_x(step: &CommandStep, g: Option<WhenCondition>, gd: Option<WhenCondition>, args: &RunArgs, env: &HashMap<String, String>,
    iters: &Vec<Vec<String>>, out: &mut Vec<ParallelLeaf>, skipped: &mut usize, it: &mut usize) -> (r: (Result<(), ParallelStop>, Ghost<PTrace>))
    requires
        *old(it) <= iters.len(),
        composed_guard(g, own_guard(*step)) == Some(gd),
        *step is Match,
    ensures
        *final(it) <= iters.len(),
        p_step(*args, *env, values_view(iters@), g, *step, r.1@, pst(old(out)@, *old(skipped), *old(it)))
            == Some((pend_of(r.0), pst(final(out)@, *final(skipped), *final(it)))),
    decreases *step, 2nat, 0nat,
{
    match step {
        CommandStep::Match { expr, cases, default, .. } => {
            let mut keys: Vec<String> = Vec::new();
            let mut i: usize = 0;
            while i < cases.len()
                invariant
                    i <= cases.len(),
                    strs_view(keys@) == case_keys(cases@).take(i as int),
                decreases cases.len() - i,
            {
                let ghost o = keys@;
                keys.push(cases[i].0.clone());
                assert(strs_view(keys@) =~= case_keys(cases@).take(i + 1)) by {
                    assert(strs_view(keys@) =~= strs_view(o).push(cases@[i as int].0@));
                }
                i += 1;
            }
            assert(case_keys(cases@).take(cases.len() as int) =~= case_keys(cases@));
            let mc = MatchCases { expr: expr.clone(), keys, has_default: default.is_some() };
            let br = resolve_match_branch(&mc, args, env);
            let ghost bg = br;
            let ghost res = choose|res: Result<Seq<char>, ErrV>| #[trigger] substitutes(*args, *env, mc.expr@, res) && match_fits(mc, res, br);
            assert(substitutes(*args, *env, mc.expr@, res) && match_fits(mc, res, br));
            match br {
                Err(ce) => (Err(ParallelStop::Failed(ExecuteError::ControlFlow(ce))), Ghost(PTrace::Case(mc, res, bg, Seq::empty()))),
                Ok(MatchBranch::Case(i)) => {
                    if i < cases.len() {
                        let (r2, gh) = p_list_x(&cases[i].1, gd, args, env, iters, out, skipped, it);
                        (r2, Ghost(PTrace::Case(mc, res, bg, gh@)))
                    } else {
                        (Ok(()), Ghost(PTrace::Case(mc, res, bg, Seq::empty())))
                    }
                },
                Ok(MatchBranch::Default) => match default {
                    Some(d) => {
                        let (r2, gh) = p_list_x(d, gd, args, env, iters, out, skipped, it);
                        (r2, Ghost(PTrace::Case(mc, res, bg, gh@)))
                    },
                    None => (Ok(()), Ghost(PTrace::Case(mc, res, bg, Seq::empty()))),
                },
            }
        },
        _ => (Ok(()), Ghost(PTrace::Skipped)),
    }
}

/// A `for` step walked (see [`p_step`]); `gd` is its composed guard.
fn p_for_step_x(step: &CommandStep, g: Option<WhenCondition>, gd: Option<WhenCondition>, args: &RunArgs, env: &HashMap<String, String>,
    iters: &Vec<Vec<String>>, out: &mut Vec<ParallelLeaf>, skipped: &mut usize, it: &mut usize) -> (r: (Result<(), ParallelStop>, Ghost<PTrace>))
    requires
        *old(it) <= iters.len(),
        composed_guard(g, own_guard(*step)) == Some(gd),
        *step is For,
    ensures
        *final(it) <= iters.len(),
        p_step(*args, *env, values_view(iters@), g, *step, r.1@, pst(old(out)@, *old(skipped), *old(it)))
            == Some((pend_of(r.0), pst(final(out)@, *final(skipped), *final(it)))),
    decreases *step, 2nat, 0nat,
{
    match step {
        CommandStep::For { source, glob, shell, .. } => {
            match source {
                Some(ForSource::Literal(items)) => {
                    let (lv, outs) = literal_values_x(items, args, env);
                    match lv {
                        Err(e) => {
                            let ghost ceg = Some(ControlFlowError::Substitution(e));
                            (Err(ParallelStop::Failed(ExecuteError::ControlFlow(ControlFlowError::Substitution(e)))), Ghost(PTrace::Loop(outs@, ceg, Seq::empty())))
                        },
                        Ok(vals) => {
                            let (r, gh) = p_for_x(step, gd, &vals, args, env, iters, out, skipped, it);
                            (r, Ghost(PTrace::Loop(outs@, None, gh@)))
                        },
                    }
                },
                Some(ForSource::Namespaces) => {
                    let vals = copy_texts(&*args.run_context.namespaces);
                    let (r, gh) = p_for_x(step, gd, &vals, args, env, iters, out, skipped, it);
                    (r, Ghost(PTrace::Loop(Seq::empty(), None, gh@)))
                },
                None => {
                    let text: Option<&String> = match glob {
                        Some(gp) => Some(gp),
                        None => match shell {
                            Some(c) => Some(c),
                            None => None,
                        },
                    };
                    match text {
                        None => (Ok(()), Ghost(PTrace::Loop(Seq::empty(), None, Seq::empty()))),
                        Some(t) => {
                            let rp = args.substitute(t.as_str(), env);
                            let ghost rpv = res_view(rp);
                            assert(substitutes(*args, *env, t@, rpv));
                            match rp {
                                Err(e) => {
                                    let ghost ceg = Some(ControlFlowError::Substitution(e));
                                    (Err(ParallelStop::Failed(ExecuteError::ControlFlow(ControlFlowError::Substitution(e)))), Ghost(PTrace::Loop(seq![rpv], ceg, Seq::empty())))
                                },
                                Ok(v) => {
                                    if *it < iters.len() {
                                        let vals = copy_texts(&iters[*it]);
                                        *it = *it + 1;
                                        let (r, gh) = p_for_x(step, gd, &vals, args, env, iters, out, skipped, it);
                                        (r, Ghost(PTrace::Loop(seq![rpv], None, gh@)))
                                    } else if glob.is_some() {
                                        (Err(ParallelStop::NeedIterations(Some(v), None)), Ghost(PTrace::Loop(seq![rpv], None, Seq::empty())))
                                    } else {
                                        (Err(ParallelStop::NeedIterations(None, Some(v))), Ghost(PTrace::Loop(seq![rpv], None, Seq::empty())))
                                    }
                                },
                            }
                        },
                    }
                },
            }
        },
        _ => (Ok(()), Ghost(PTrace::Skipped)),
    }
}

/// One step walked under the enclosing guard `g` (see [`p_step`]).
fn p_step_x(step: &CommandStep, g: Option<WhenCondition>, args: &RunArgs, env: &HashMap<String, String>,
    iters: &Vec<Vec<String>>, out: &mut Vec<ParallelLeaf>, skipped: &mut usize, it: &mut usize) -> (r: (Result<(), ParallelStop>, Ghost<PTrace>))
    requires
        *old(it) <= iters.len(),
    ensures
        *final(it) <= iters.len(),
        p_step(*args, *env, values_view(iters@), g, *step, r.1@, pst(old(out)@, *old(skipped), *old(it)))
            == Some((pend_of(r.0), pst(final(out)@, *final(skipped), *final(it)))),
    decreases *step, 2nat, 1nat,
{
    let gd = match compose_step_guard(g, step) {
        Some(x) => x,
        None => {
            return (Ok(()), Ghost(PTrace::Skipped));
        },
    };
    let part = leaf_partition(gd);
    match step {
        CommandStep::Shell(x) => {
            let res = args.substitute(x.as_str(), env);
            let ghost rv = res_view(res);
            assert(substitutes(*args, *env, x@, rv));
            match res {
                Ok(v) => {
                    let t = trim_exec(&chars_of(v.as_str()));
                    if t.len() == 0 {
                        if *skipped < usize::MAX {
                            *skipped = *skipped + 1;
                        }
                        return (Ok(()), Ghost(PTrace::Command(rv)));
                    }
                    let ghost o = out@;
                    let ghost vs = v@;
                    out.push(ParallelLeaf::Shell { command: v, when: part });
                    assert(leaves_view(out@) =~= leaves_view(o).push(PItem::Shell(vs, part_of(gd))));
                    (Ok(()), Ghost(PTrace::Command(rv)))
                },
                Err(e) => (Err(ParallelStop::Failed(ExecuteError::Substitution(e))), Ghost(PTrace::Command(rv))),
            }
        },
        CommandStep::TargetCall(c) => {
            let rt = args.substitute(c.target.as_str(), env);
            let ghost rtv = res_view(rt);
            assert(substitutes(*args, *env, c.target@, rtv));
            let target = match rt {
                Ok(t) => t,
                Err(e) => {
                    return (Err(ParallelStop::Failed(ExecuteError::Substitution(e))), Ghost(PTrace::Call(rtv, None)));
                },
            };
            let ra = resolve_target_call_argv(c, args, env);
            let ghost rag = ra;
            let ghost resa = if c.args_template@.len() == 0 {
                Ok::<Seq<char>, ErrV>(Seq::empty())
            } else {
                choose|res: Result<Seq<char>, ErrV>| #[trigger] substitutes(*args, *env, c.args_template@, res) && argv_fits(*c, res, ra)
            };
            assert(c.args_template@.len() > 0 ==> substitutes(*args, *env, c.args_template@, resa) && argv_fits(*c, resa, ra));
            match ra {
                Ok(argv) => {
                    let ghost o = out@;
                    let ghost tv = target@;
                    let ghost wv = strs_view(argv@);
                    out.push(ParallelLeaf::TargetCall { target, argv, optional: c.optional, when: part });
                    assert(leaves_view(out@) =~= leaves_view(o).push(PItem::Call(tv, wv, c.optional, part_of(gd))));
                    (Ok(()), Ghost(PTrace::Call(rtv, Some((resa, rag)))))
                },
                Err(e) => (Err(ParallelStop::Failed(e)), Ghost(PTrace::Call(rtv, Some((resa, rag))))),
            }
        },
        CommandStep::When { commands, .. } => {
            let (r, gh) = p_list_x(commands, gd, args, env, iters, out, skipped, it);
            (r, Ghost(PTrace::Steps(gh@)))
        },
        CommandStep::If { .. } => p_if_x(step, g, gd, args, env, iters, out, skipped, it),
        CommandStep::Match { .. } => p_match_x(step, g, gd, args, env, iters, out, skipped, it),
        CommandStep::For { .. } => p_for_step_x(step, g, gd, args, env, iters, out, skipped, it),
    }
}

/// The steps walked in order under guard `g` (see [`p_list`]).
fn p_list_x(steps: &Vec<CommandStep>, g: Option<WhenCondition>, args: &RunArgs, env: &HashMap<String, String>,
    iters: &Vec<Vec<String>>, out: &mut Vec<ParallelLeaf>, skipped: &mut usize, it: &mut usize) -> (r: (Result<(), ParallelStop>, Ghost<Seq<PTrace>>))
    requires
        *old(it) <= iters.len(),
    ensures
        *final(it) <= iters.len(),
        p_list(*args, *env, values_view(iters@), g, steps@, r.1@, 0, pst(old(out)@, *old(skipped), *old(it)))
            == Some((pend_of(r.0), pst(final(out)@, *final(skipped), *final(it)))),
    decreases steps@, 0nat,
{
    let ghost iv = values_view(iters@);
    let ghost init: PSt = pst(out@, *skipped, *it);
    let ghost mut ps: Seq<PTrace> = Seq::empty();
    let mut k: usize = 0;
    while k < steps.len()
        invariant
            k <= steps.len(),
            *it <= iters.len(),
            iv == values_view(iters@),
            init == pst(old(out)@, *old(skipped), *old(it)),
            ps.len() == k,
            forall|q: Seq<PTrace>| #![trigger p_list(*args, *env, iv, g, steps@, q, 0, init)]
                q.len() >= k && q.take(k as int) == ps ==>
                p_list(*args, *env, iv, g, steps@, q, 0, init) == p_list(*args, *env, iv, g, steps@, q, k as int, pst(out@, *skipped, *it)),
        decreases steps.len() - k,
    {
        let ghost cur: PSt = pst(out@, *skipped, *it);
        let (r, gh) = p_step_x(&steps[k], g, args, env, iters, out, skipped, it);
        let ghost m: PSt = pst(out@, *skipped, *it);
        let ghost pk = gh@;
        let ghost nps = ps.push(pk);
        proof {
            assert forall|q: Seq<PTrace>| q.len() >= k + 1 && q.take(k + 1) == nps implies
                p_list(*args, *env, iv, g, steps@, q, 0, init) == p_list(*args, *env, iv, g, steps@, q, k as int, cur) by {
                assert(q.take(k as int) =~= nps.take(k as int));
                assert(nps.take(k as int) =~= ps);
            }
            assert forall|q: Seq<PTrace>| q.len() >= k + 1 && q.take(k + 1) == nps implies
                #[trigger] q[k as int] == pk by {
                assert(q.take(k + 1)[k as int] == q[k as int]);
            }
        }
        if r.is_err() {
            proof {
                assert(nps.take(k + 1) =~= nps);
                assert(nps.take(k as int) =~= ps);
                assert(nps[k as int] == pk);
                assert(p_step(*args, *env, iv, g, steps@[k as int], pk, cur) == Some((pend_of(r), m)));
                assert(p_list(*args, *env, iv, g, steps@, nps, k as int, cur) == Some((pend_of(r), m)));
                assert(p_list(*args, *env, iv, g, steps@, nps, 0, init) == Some((pend_of(r), m)));
            }
            return (r, Ghost(nps));
        }
        proof {
            ps = nps;
        }
        k += 1;
    }
    proof {
        assert(ps.take(k as int) =~= ps);
    }
    (Ok(()), Ghost(ps))
}

/// What walking `steps` under the enclosing guard `outer`, from the leaves
/// `before` and nothing left out, comes to as the record `ps` says.
pub open spec fn p_walked(a: RunArgs, env: HashMap<String, String>, iters: Seq<Seq<Seq<char>>>, outer: Option<WhenCondition>,
    steps: Seq<CommandStep>, ps: Seq<PTrace>, before: Seq<PItem>) -> Option<(PEnd, PSt)> {
    p_list(a, env, iters, outer, steps, ps, 0, (before, 0, 0))
}

/// Appends to `out` the leaves of `steps` for a parallel run under the
/// enclosing guard `outer`, in order (see [`p_step`]): each command line as
/// substituted, each `@target` call with its substituted target and its
/// arguments, each tagged with its partition. `iterations` are the values
/// of the `for glob:`/`for shell:` blocks in the order the walk meets them;
/// when it meets one more, it stops with `NeedIterations`. On success the
/// result is the number of command lines left out because they came out
/// blank.
pub fn collect_parallel_leaves(steps: &Vec<CommandStep>, outer: Option<WhenCondition>, args: &RunArgs, env: &HashMap<String, String>,
    iterations: &Vec<Vec<String>>, out: &mut Vec<ParallelLeaf>) -> (r: Result<usize, ParallelStop>)
    ensures
        exists|ps: Seq<PTrace>| {
            let w = #[trigger] p_walked(*args, *env, values_view(iterations@), outer, steps@, ps, leaves_view(old(out)@));
            &&& w is Some
            &&& w.unwrap().0 == pend_of(r)
            &&& w.unwrap().1.0 == leaves_view(final(out)@)
            &&& match r {
                Ok(n) => n == w.unwrap().1.1,
                Err(_) => true,
            }
        },
{
    let mut skipped: usize = 0;
    let mut it: usize = 0;
    let (r, gh) = p_list_x(steps, outer, args, env, iterations, out, &mut skipped, &mut it);
    let res = match r {
        Ok(()) => Ok(skipped),
        Err(x) => Err(x),
    };
    assert(p_walked(*args, *env, values_view(iterations@), outer, steps@, gh@, leaves_view(old(out)@))
        == Some((pend_of(res), pst(out@, skipped, it))));
    res
}

} // verus!
