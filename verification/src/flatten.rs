//! The shell commands of a `detach: true` or `sameShell: true` target: its
//! steps walked as a run would walk them, collecting each command line.
//! `if` and `match` take their branch, `for` runs its body once per value,
//! blocks that run only after a failure are left out (there is no failure
//! to observe), and an `@target` call is refused. The values of a `for
//! glob:` or `for shell:` come from the caller, in the order the walk meets
//! them: when it meets one more than it was given, it stops and asks.

use vstd::prelude::*;
use std::collections::HashMap;
use crate::args::{RunArgs, res_view};
use crate::calls::WhenCondition;
use crate::control::{substitutes, if_fits, match_fits, evaluate_if_condition, resolve_match_branch, MatchCases, ControlFlowError,
    MatchBranch, ShellLeafContext, ShellLeafFlattenError, target_call_text};
use crate::errors::{SubstitutionError, ErrV};
use crate::extract::{strs_view, ShellKind, join_separator};
use crate::outside::{shared_map_entries, shared_map_insert, shared_map_remove};
use crate::steps::{CommandStep, ForSource, step_explicit_when};
use crate::text::{chars_of, seq_eq};
use crate::walk::{effective_when, same_shell_plan, SameShellPlan, plan_fits};

verus! {

/// Why a walk stopped before its end.
#[derive(Debug)]
pub enum FlattenStop {
    /// The commands cannot be flattened.
    Failed(ShellLeafFlattenError),
    /// A `for glob:` (its pattern) or `for shell:` (its command), substituted
    /// where the walk met it, for which no values were given: the caller
    /// computes them and walks again with them appended.
    NeedIterations(Option<String>, Option<String>),
}

pub open spec fn opt_text(o: Option<String>) -> Option<Seq<char>> {
    match o {
        Some(s) => Some(s@),
        None => None,
    }
}

/// The values given for the `for glob:`/`for shell:` blocks, by their text.
pub open spec fn values_view(v: Seq<Vec<String>>) -> Seq<Seq<Seq<char>>> {
    v.map_values(|x: Vec<String>| strs_view(x@))
}

/// Whether `ce` is the control-flow error that a failed substitution with
/// error `er` becomes.
pub open spec fn wraps(ce: Option<ControlFlowError>, er: ErrV) -> bool {
    ce matches Some(ControlFlowError::Substitution(x)) && x@ == er
}

/// The text a `for` without `in:` takes its values from: its glob pattern,
/// else its shell command.
pub open spec fn iter_text(glob: Option<String>, shell: Option<String>) -> Option<Seq<char>> {
    match glob {
        Some(g) => Some(g@),
        None => match shell {
            Some(c) => Some(c@),
            None => None,
        },
    }
}

/// The keys of a `match`'s cases.
pub open spec fn case_keys(cases: Seq<(String, Vec<CommandStep>)>) -> Seq<Seq<char>> {
    cases.map_values(|c: (String, Vec<CommandStep>)| c.0@)
}

/// The walk's state: the commands collected so far, and how many of the
/// given iteration lists were used.
pub type FlatSt = (Seq<Seq<char>>, nat);

/// How a walk ended, by value.
pub enum FlatEnd {
    Done,
    Substitution(ErrV),
    ControlFlow(ControlFlowError),
    TargetCall(Seq<char>),
    NeedIterations(Option<Seq<char>>, Option<Seq<char>>),
}

pub open spec fn end_of(r: Result<(), FlattenStop>) -> FlatEnd {
    match r {
        Ok(_) => FlatEnd::Done,
        Err(FlattenStop::Failed(ShellLeafFlattenError::Substitution(e))) => FlatEnd::Substitution(e@),
        Err(FlattenStop::Failed(ShellLeafFlattenError::ControlFlow(c))) => FlatEnd::ControlFlow(c),
        Err(FlattenStop::Failed(ShellLeafFlattenError::TargetCallNotAllowed(m))) => FlatEnd::TargetCall(m@),
        Err(FlattenStop::NeedIterations(g, h)) => FlatEnd::NeedIterations(opt_text(g), opt_text(h)),
    }
}

/// What each step of a walk met: the outcome of every substitution it made
/// and of every `if`/`match` decision, in the walk's shape.
pub enum FlatTrace {
    /// A step that runs only after a failure, left out.
    Skipped,
    /// A command line substituted to this.
    Command(Result<Seq<char>, ErrV>),
    /// An `@target` call, refused.
    Refused,
    /// A `when:` block's steps.
    Steps(Seq<FlatTrace>),
    /// An `if`: its condition substituted, the decision, the branch's steps.
    Branch(Result<Seq<char>, ErrV>, Result<bool, ControlFlowError>, Seq<FlatTrace>),
    /// A `match`: its cases, its value substituted, the decision, the
    /// branch's steps.
    Case(MatchCases, Result<Seq<char>, ErrV>, Result<MatchBranch, ControlFlowError>, Seq<FlatTrace>),
    /// A `for`: its literal items substituted, then each iteration's steps.
    /// A `for`: the substitutions its values needed (each literal item,
    /// or the glob pattern or shell command), the control-flow error a
    /// failed one became, then each iteration's steps.
    Loop(Seq<Result<Seq<char>, ErrV>>, Option<ControlFlowError>, Seq<Seq<FlatTrace>>),
}

/// The values of a literal `for` list given the items' substitutions
/// `outs`: all of them when each substituted, else the first error; `None`
/// when `outs` is not such a record.
pub open spec fn literal_values(a: RunArgs, env: HashMap<String, String>, items: Seq<String>, outs: Seq<Result<Seq<char>, ErrV>>, k: int, vals: Seq<Seq<char>>) -> Option<Result<Seq<Seq<char>>, ErrV>>
    decreases items.len() - k,
{
    if k < 0 || k >= items.len() {
        if outs.len() == items.len() { Some(Ok(vals)) } else { None }
    } else if k >= outs.len() || !substitutes(a, env, items[k]@, outs[k]) {
        None
    } else {
        match outs[k] {
            Ok(v) => literal_values(a, env, items, outs, k + 1, vals.push(v)),
            Err(er) => if outs.len() == k + 1 { Some(Err(er)) } else { None },
        }
    }
}

/// One step walked from state `s` as the record `p` says: how it ends and
/// the state after it, or `None` when `p` is not a record of walking it
/// (each substitution outcome one that substitution may give).
pub open spec fn flat_step(a: RunArgs, env: HashMap<String, String>, ctx: ShellLeafContext, iters: Seq<Seq<Seq<char>>>, step: CommandStep, p: FlatTrace, s: FlatSt) -> Option<(FlatEnd, FlatSt)>
    decreases step, 2nat,
{
    if effective_when(step) == WhenCondition::Failure {
        if p is Skipped { Some((FlatEnd::Done, s)) } else { None }
    } else {
        match step {
            CommandStep::Shell(x) => match p {
                FlatTrace::Command(res) => if substitutes(a, env, x@, res) {
                    match res {
                        Ok(v) => Some((FlatEnd::Done, (s.0.push(v), s.1))),
                        Err(er) => Some((FlatEnd::Substitution(er), s)),
                    }
                } else {
                    None
                },
                _ => None,
            },
            CommandStep::TargetCall(c) => if p is Refused {
                Some((FlatEnd::TargetCall(target_call_text(ctx, c.target@)), s))
            } else {
                None
            },
            CommandStep::When { commands, .. } => match p {
                FlatTrace::Steps(ps) => flat_list(a, env, ctx, iters, commands@, ps, 0, s),
                _ => None,
            },
            CommandStep::If { condition, then, otherwise, .. } => match p {
                FlatTrace::Branch(res, r, ps) => if substitutes(a, env, condition@, res) && if_fits(condition@, res, r) {
                    match r {
                        Err(ce) => if ps.len() == 0 { Some((FlatEnd::ControlFlow(ce), s)) } else { None },
                        Ok(b) => if b {
                            flat_list(a, env, ctx, iters, then@, ps, 0, s)
                        } else {
                            match otherwise {
                                Some(o) => flat_list(a, env, ctx, iters, o@, ps, 0, s),
                                None => if ps.len() == 0 { Some((FlatEnd::Done, s)) } else { None },
                            }
                        },
                    }
                } else {
                    None
                },
                _ => None,
            },
            CommandStep::Match { expr, cases, default, .. } => match p {
                FlatTrace::Case(mc, res, r, ps) => if mc.expr@ == expr@ && strs_view(mc.keys@) == case_keys(cases@)
                    && mc.has_default == (default is Some) && substitutes(a, env, expr@, res) && match_fits(mc, res, r) {
                    match r {
                        Err(ce) => if ps.len() == 0 { Some((FlatEnd::ControlFlow(ce), s)) } else { None },
                        Ok(MatchBranch::Case(i)) => if i < cases@.len() {
                            flat_list(a, env, ctx, iters, cases@[i as int].1@, ps, 0, s)
                        } else if ps.len() == 0 {
                            Some((FlatEnd::Done, s))
                        } else {
                            None
                        },
                        Ok(MatchBranch::Default) => match default {
                            Some(d) => flat_list(a, env, ctx, iters, d@, ps, 0, s),
                            None => if ps.len() == 0 { Some((FlatEnd::Done, s)) } else { None },
                        },
                    }
                } else {
                    None
                },
                _ => None,
            },
            CommandStep::For { source, glob, shell, .. } => match p {
                FlatTrace::Loop(outs, ce, runs) => match source {
                    Some(ForSource::Literal(items)) => match literal_values(a, env, items@, outs, 0, Seq::empty()) {
                        Some(Ok(vals)) => flat_for(a, env, ctx, iters, step, vals, runs, 0, s),
                        Some(Err(er)) => if runs.len() == 0 && wraps(ce, er) { Some((FlatEnd::ControlFlow(ce.unwrap()), s)) } else { None },
                        None => None,
                    },
                    Some(ForSource::Namespaces) => if outs.len() == 0 {
                        flat_for(a, env, ctx, iters, step, strs_view(a.run_context.namespaces@), runs, 0, s)
                    } else {
                        None
                    },
                    None => match iter_text(glob, shell) {
                        Some(t) => if outs.len() == 1 && substitutes(a, env, t, outs[0]) {
                            match outs[0] {
                                Err(er) => if runs.len() == 0 && wraps(ce, er) { Some((FlatEnd::ControlFlow(ce.unwrap()), s)) } else { None },
                                Ok(v) => if s.1 < iters.len() {
                                    flat_for(a, env, ctx, iters, step, iters[s.1 as int], runs, 0, (s.0, (s.1 + 1) as nat))
                                } else if runs.len() == 0 {
                                    Some((FlatEnd::NeedIterations(if glob is Some { Some(v) } else { None }, if glob is Some { None } else { Some(v) }), s))
                                } else {
                                    None
                                },
                            }
                        } else {
                            None
                        },
                        None => if outs.len() == 0 && runs.len() == 0 { Some((FlatEnd::Done, s)) } else { None },
                    },
                },
                _ => None,
            },
        }
    }
}

/// The body of the `for` step `step` walked once per value from the
/// `j`-th, `runs[j]` recording each; the first stop ends it.
pub open spec fn flat_for(a: RunArgs, env: HashMap<String, String>, ctx: ShellLeafContext, iters: Seq<Seq<Seq<char>>>, step: CommandStep, vals: Seq<Seq<char>>, runs: Seq<Seq<FlatTrace>>, j: int, s: FlatSt) -> Option<(FlatEnd, FlatSt)>
    decreases step, 1nat, vals.len() - j,
{
    match step {
        CommandStep::For { body, .. } => if j < 0 || j >= vals.len() {
            if runs.len() == vals.len() { Some((FlatEnd::Done, s)) } else { None }
        } else if j >= runs.len() {
            None
        } else {
            match flat_list(a, env, ctx, iters, body@, runs[j], 0, s) {
                Some((e1, m)) => if e1 is Done {
                    flat_for(a, env, ctx, iters, step, vals, runs, j + 1, m)
                } else if runs.len() == j + 1 {
                    Some((e1, m))
                } else {
                    None
                },
                None => None,
            }
        },
        _ => None,
    }
}

/// The steps of `steps` from the `k`-th walked in order, `ps[k]` recording
/// each; the first stop ends the walk.
pub open spec fn flat_list(a: RunArgs, env: HashMap<String, String>, ctx: ShellLeafContext, iters: Seq<Seq<Seq<char>>>, steps: Seq<CommandStep>, ps: Seq<FlatTrace>, k: int, s: FlatSt) -> Option<(FlatEnd, FlatSt)>
    decreases steps, 0nat, steps.len() - k,
{
    if k < 0 || k >= steps.len() {
        if ps.len() == steps.len() { Some((FlatEnd::Done, s)) } else { None }
    } else if k >= ps.len() {
        None
    } else {
        match flat_step(a, env, ctx, iters, steps[k], ps[k], s) {
            Some((e1, m)) => if e1 is Done {
                flat_list(a, env, ctx, iters, steps, ps, k + 1, m)
            } else if ps.len() == k + 1 {
                Some((e1, m))
            } else {
                None
            },
            None => None,
        }
    }
}

// ── the walk ────────────────────────────────────────────────────────────

/// The value the variable store holds for `key`, if any.
pub(crate) fn store_value(args: &RunArgs, key: &String) -> Option<String> {
    let es = shared_map_entries(&args.vars);
    let k = chars_of(key.as_str());
    let mut i: usize = 0;
    while i < es.len()
        decreases es.len() - i,
    {
        if seq_eq(&chars_of(es[i].0.as_str()), &k) {
            return Some(es[i].1.clone());
        }
        i += 1;
    }
    None
}

/// Puts back what the variable store held for `key` before a loop bound it.
pub(crate) fn restore_store(args: &RunArgs, key: &String, prior: Option<String>) {
    match prior {
        Some(p) => shared_map_insert(&args.vars, key.clone(), p),
        None => shared_map_remove(&args.vars, key.as_str()),
    }
}

pub(crate) fn copy_texts(v: &Vec<String>) -> (r: Vec<String>)
    ensures
        strs_view(r@) == strs_view(v@),
{
    let mut r: Vec<String> = Vec::new();
    let mut i: usize = 0;
    while i < v.len()
        invariant
            i <= v.len(),
            strs_view(r@) == strs_view(v@).take(i as int),
        decreases v.len() - i,
    {
        let ghost o = r@;
        r.push(v[i].clone());
        assert(strs_view(r@) =~= strs_view(v@).take(i + 1)) by {
            assert(strs_view(r@) =~= strs_view(o).push(v@[i as int]@));
        }
        i += 1;
    }
    assert(strs_view(v@).take(v.len() as int) =~= strs_view(v@));
    r
}

/// The body of the `for` step `step` once per value of `vals`, the loop
/// variable bound to each value in the variable store (and what it held
/// before put back afterwards).
fn flat_for_x(step: &CommandStep, vals: &Vec<String>, args: &RunArgs, env: &HashMap<String, String>, ctx: ShellLeafContext,
    iters: &Vec<Vec<String>>, out: &mut Vec<String>, it: &mut usize) -> (r: (Result<(), FlattenStop>, Ghost<Seq<Seq<FlatTrace>>>))
    requires
        *old(it) <= iters.len(),
        *step is For,
    ensures
        *final(it) <= iters.len(),
        flat_for(*args, *env, ctx, values_view(iters@), *step, strs_view(vals@), r.1@, 0, (strs_view(old(out)@), *old(it) as nat))
            == Some((end_of(r.0), (strs_view(final(out)@), *final(it) as nat))),
    decreases *step, 1nat,
{
    let ghost iv = values_view(iters@);
    let ghost vv = strs_view(vals@);
    let ghost init: FlatSt = (strs_view(out@), *it as nat);
    let ghost mut runs: Seq<Seq<FlatTrace>> = Seq::empty();
    match step {
        CommandStep::For { var, body, .. } => {
            let prior = store_value(args, var);
            let mut j: usize = 0;
            while j < vals.len()
                invariant
                    j <= vals.len(),
                    *it <= iters.len(),
                    iv == values_view(iters@),
                    vv == strs_view(vals@),
                    init == (strs_view(old(out)@), *old(it) as nat),
                    *step matches CommandStep::For { body: b, .. } && b == *body,
                    runs.len() == j,
                    forall|q: Seq<Seq<FlatTrace>>| #![trigger flat_for(*args, *env, ctx, iv, *step, vv, q, 0, init)]
                        q.len() >= j && q.take(j as int) == runs ==>
                        flat_for(*args, *env, ctx, iv, *step, vv, q, 0, init) == flat_for(*args, *env, ctx, iv, *step, vv, q, j as int, (strs_view(out@), *it as nat)),
                decreases vals.len() - j,
            {
                let ghost cur: FlatSt = (strs_view(out@), *it as nat);
                shared_map_insert(&args.vars, var.clone(), vals[j].clone());
                let (r, g) = flat_list_x(body, args, env, ctx, iters, out, it);
                let ghost m: FlatSt = (strs_view(out@), *it as nat);
                let ghost pk = g@;
                let ghost nruns = runs.push(pk);
                proof {
                    assert forall|q: Seq<Seq<FlatTrace>>| q.len() >= j + 1 && q.take(j + 1) == nruns implies
                        flat_for(*args, *env, ctx, iv, *step, vv, q, 0, init) == flat_for(*args, *env, ctx, iv, *step, vv, q, j as int, cur) by {
                        assert(q.take(j as int) =~= nruns.take(j as int));
                        assert(nruns.take(j as int) =~= runs);
                    }
                    assert forall|q: Seq<Seq<FlatTrace>>| q.len() >= j + 1 && q.take(j + 1) == nruns implies
                        #[trigger] q[j as int] == pk by {
                        assert(q.take(j + 1)[j as int] == q[j as int]);
                    }
                }
                if r.is_err() {
                    proof {
                        assert(nruns.take(j + 1) =~= nruns);
                        assert(nruns.take(j as int) =~= runs);
                        assert(nruns[j as int] == pk);
                        assert(flat_list(*args, *env, ctx, iv, body@, pk, 0, cur) == Some((end_of(r), m)));
                        assert(flat_for(*args, *env, ctx, iv, *step, vv, nruns, j as int, cur) == Some((end_of(r), m)));
                        assert(flat_for(*args, *env, ctx, iv, *step, vv, nruns, 0, init) == Some((end_of(r), m)));
                    }
                    restore_store(args, var, prior);
                    return (r, Ghost(nruns));
                }
                proof {
                    runs = nruns;
                }
                j += 1;
            }
            restore_store(args, var, prior);
            proof {
                assert(runs.take(j as int) =~= runs);
            }
            (Ok(()), Ghost(runs))
        },
        _ => (Ok(()), Ghost(runs)),
    }
}

/// The items of a literal `for` list substituted in turn, up to the first
/// that fails, with the record of the outcomes.
pub(crate) fn literal_values_x(items: &Vec<String>, args: &RunArgs, env: &HashMap<String, String>) -> (r: (Result<Vec<String>, SubstitutionError>, Ghost<Seq<Result<Seq<char>, ErrV>>>))
    ensures
        literal_values(*args, *env, items@, r.1@, 0, Seq::empty()) == Some(match r.0 {
            Ok(v) => Ok::<Seq<Seq<char>>, ErrV>(strs_view(v@)),
            Err(e) => Err::<Seq<Seq<char>>, ErrV>(e@),
        }),
{
    let mut vals: Vec<String> = Vec::new();
    let ghost mut outs: Seq<Result<Seq<char>, ErrV>> = Seq::empty();
    let mut k: usize = 0;
    assert(strs_view(vals@) =~= Seq::<Seq<char>>::empty());
    while k < items.len()
        invariant
            k <= items.len(),
            outs.len() == k,
            forall|q: Seq<Result<Seq<char>, ErrV>>| #![trigger literal_values(*args, *env, items@, q, 0, Seq::empty())]
                q.len() >= k && q.take(k as int) == outs ==>
                literal_values(*args, *env, items@, q, 0, Seq::empty()) == literal_values(*args, *env, items@, q, k as int, strs_view(vals@)),
        decreases items.len() - k,
    {
        let res = args.substitute(items[k].as_str(), env);
        let ghost rv = res_view(res);
        assert(substitutes(*args, *env, items@[k as int]@, rv));
        let ghost before = strs_view(vals@);
        let ghost nouts = outs.push(rv);
        proof {
            assert forall|q: Seq<Result<Seq<char>, ErrV>>| q.len() >= k + 1 && q.take(k + 1) == nouts implies
                literal_values(*args, *env, items@, q, 0, Seq::empty()) == literal_values(*args, *env, items@, q, k as int, before) by {
                assert(q.take(k as int) =~= nouts.take(k as int));
                assert(nouts.take(k as int) =~= outs);
            }
            assert forall|q: Seq<Result<Seq<char>, ErrV>>| q.len() >= k + 1 && q.take(k + 1) == nouts implies
                #[trigger] q[k as int] == rv by {
                assert(q.take(k + 1)[k as int] == q[k as int]);
            }
        }
        match res {
            Ok(v) => {
                let ghost vs = v@;
                vals.push(v);
                assert(strs_view(vals@) =~= before.push(vs));
            },
            Err(e) => {
                proof {
                    assert(nouts.take(k + 1) =~= nouts);
                    assert(nouts.take(k as int) =~= outs);
                    assert(literal_values(*args, *env, items@, nouts, k as int, before) == Some(Err::<Seq<Seq<char>>, ErrV>(e@)));
                    assert(literal_values(*args, *env, items@, nouts, 0, Seq::empty()) == Some(Err::<Seq<Seq<char>>, ErrV>(e@)));
                }
                return (Err(e), Ghost(nouts));
            },
        }
        proof {
            outs = nouts;
        }
        k += 1;
    }
    proof {
        assert(outs.take(k as int) =~= outs);
        assert(literal_values(*args, *env, items@, outs, 0, Seq::empty()) == Some(Ok::<Seq<Seq<char>>, ErrV>(strs_view(vals@))));
    }
    (Ok(vals), Ghost(outs))
}

/// An `if` step walked (see [`flat_step`]).
fn flat_if_x(step: &CommandStep, args: &RunArgs, env: &HashMap<String, String>, ctx: ShellLeafContext,
    iters: &Vec<Vec<String>>, out: &mut Vec<String>, it: &mut usize) -> (r: (Result<(), FlattenStop>, Ghost<FlatTrace>))
    requires
        *old(it) <= iters.len(),
        effective_when(*step) != WhenCondition::Failure,
        *step is If,
    ensures
        *final(it) <= iters.len(),
        flat_step(*args, *env, ctx, values_view(iters@), *step, r.1@, (strs_view(old(out)@), *old(it) as nat))
            == Some((end_of(r.0), (strs_view(final(out)@), *final(it) as nat))),
    decreases *step, 2nat, 0nat,
{
    let ghost iv = values_view(iters@);
    match step {
        CommandStep::If { condition, then, otherwise, .. } => {
            let r = evaluate_if_condition(condition.as_str(), args, env);
            let ghost rg = r;
            let ghost res = choose|res: Result<Seq<char>, ErrV>| #[trigger] substitutes(*args, *env, condition@, res) && if_fits(condition@, res, r);
            assert(substitutes(*args, *env, condition@, res) && if_fits(condition@, res, r));
            match r {
                Err(ce) => (Err(FlattenStop::Failed(ShellLeafFlattenError::ControlFlow(ce))), Ghost(FlatTrace::Branch(res, rg, Seq::empty()))),
                Ok(b) => {
                    if b {
                        let (r2, g) = flat_list_x(then, args, env, ctx, iters, out, it);
                        (r2, Ghost(FlatTrace::Branch(res, rg, g@)))
                    } else {
                        match otherwise {
                            Some(o) => {
                                let (r2, g) = flat_list_x(o, args, env, ctx, iters, out, it);
                                (r2, Ghost(FlatTrace::Branch(res, rg, g@)))
                            },
                            None => (Ok(()), Ghost(FlatTrace::Branch(res, rg, Seq::empty()))),
                        }
                    }
                },
            }
        },
        _ => (Ok(()), Ghost(FlatTrace::Skipped)),
    }
}

/// A `match` step walked (see [`flat_step`]).
fn flat_match_x(step: &CommandStep, args: &RunArgs, env: &HashMap<String, String>, ctx: ShellLeafContext,
    iters: &Vec<Vec<String>>, out: &mut Vec<String>, it: &mut usize) -> (r: (Result<(), FlattenStop>, Ghost<FlatTrace>))
    requires
        *old(it) <= iters.len(),
        effective_when(*step) != WhenCondition::Failure,
        *step is Match,
    ensures
        *final(it) <= iters.len(),
        flat_step(*args, *env, ctx, values_view(iters@), *step, r.1@, (strs_view(old(out)@), *old(it) as nat))
            == Some((end_of(r.0), (strs_view(final(out)@), *final(it) as nat))),
    decreases *step, 2nat, 0nat,
{
    let ghost iv = values_view(iters@);
    match step {
        CommandStep::Match { expr, cases, default, .. } => {
            let mut keys: Vec<String> = Vec::new();
            let mut i: usize = 0;
            while i < cases.len()
                invariant
                    i <= cases.len(),
                    strs_view(keys@) == case_keys(cases@).take(i as int),
                decreases cases.len() - i,
            {
                let ghost o = keys@;
                keys.push(cases[i].0.clone());
                assert(strs_view(keys@) =~= case_keys(cases@).take(i + 1)) by {
                    assert(strs_view(keys@) =~= strs_view(o).push(cases@[i as int].0@));
                }
                i += 1;
            }
            assert(case_keys(cases@).take(cases.len() as int) =~= case_keys(cases@));
            let mc = MatchCases { expr: expr.clone(), keys, has_default: default.is_some() };
            let br = resolve_match_branch(&mc, args, env);
            let ghost bg = br;
            let ghost res = choose|res: Result<Seq<char>, ErrV>| #[trigger] substitutes(*args, *env, mc.expr@, res) && match_fits(mc, res, br);
            assert(substitutes(*args, *env, mc.expr@, res) && match_fits(mc, res, br));
            match br {
                Err(ce) => (Err(FlattenStop::Failed(ShellLeafFlattenError::ControlFlow(ce))), Ghost(FlatTrace::Case(mc, res, bg, Seq::empty()))),
                Ok(MatchBranch::Case(i)) => {
                    if i < cases.len() {
                        let (r2, g) = flat_list_x(&cases[i].1, args, env, ctx, iters, out, it);
                        (r2, Ghost(FlatTrace::Case(mc, res, bg, g@)))
                    } else {
                        (Ok(()), Ghost(FlatTrace::Case(mc, res, bg, Seq::empty())))
                    }
                },
                Ok(MatchBranch::Default) => match default {
                    Some(d) => {
                        let (r2, g) = flat_list_x(d, args, env, ctx, iters, out, it);
                        (r2, Ghost(FlatTrace::Case(mc, res, bg, g@)))
                    },
                    None => (Ok(()), Ghost(FlatTrace::Case(mc, res, bg, Seq::empty()))),
                },
            }
        },
        _ => (Ok(()), Ghost(FlatTrace::Skipped)),
    }
}

/// A `for` step walked (see [`flat_step`]).
fn flat_for_step_x(step: &CommandStep, args: &RunArgs, env: &HashMap<String, String>, ctx: ShellLeafContext,
    iters: &Vec<Vec<String>>, out: &mut Vec<String>, it: &mut usize) -> (r: (Result<(), FlattenStop>, Ghost<FlatTrace>))
    requires
        *old(it) <= iters.len(),
        effective_when(*step) != WhenCondition::Failure,
        *step is For,
    ensures
        *final(it) <= iters.len(),
        flat_step(*args, *env, ctx, values_view(iters@), *step, r.1@, (strs_view(old(out)@), *old(it) as nat))
            == Some((end_of(r.0), (strs_view(final(out)@), *final(it) as nat))),
    decreases *step, 2nat, 0nat,
{
    let ghost iv = values_view(iters@);
    match step {
        CommandStep::For { source, glob, shell, .. } => {
            match source {
                Some(ForSource::Literal(items)) => {
                    let (lv, outs) = literal_values_x(items, args, env);
                    match lv {
                        Err(e) => {
                            let ghost ceg = Some(ControlFlowError::Substitution(e));
                            (Err(FlattenStop::Failed(ShellLeafFlattenError::ControlFlow(ControlFlowError::Substitution(e)))), Ghost(FlatTrace::Loop(outs@, ceg, Seq::empty())))
                        },
                        Ok(vals) => {
                            let (r, gh) = flat_for_x(step, &vals, args, env, ctx, iters, out, it);
                            (r, Ghost(FlatTrace::Loop(outs@, None, gh@)))
                        },
                    }
                },
                Some(ForSource::Namespaces) => {
                    let vals = copy_texts(&*args.run_context.namespaces);
                    let (r, gh) = flat_for_x(step, &vals, args, env, ctx, iters, out, it);
                    (r, Ghost(FlatTrace::Loop(Seq::empty(), None, gh@)))
                },
                None => {
                    let text: Option<&String> = match glob {
                        Some(gp) => Some(gp),
                        None => match shell {
                            Some(c) => Some(c),
                            None => None,
                        },
                    };
                    match text {
                        None => (Ok(()), Ghost(FlatTrace::Loop(Seq::empty(), None, Seq::empty()))),
                        Some(t) => {
                            let rp = args.substitute(t.as_str(), env);
                            let ghost rpv = res_view(rp);
                            assert(substitutes(*args, *env, t@, rpv));
                            match rp {
                                Err(e) => {
                                    let ghost ceg = Some(ControlFlowError::Substitution(e));
                                    (Err(FlattenStop::Failed(ShellLeafFlattenError::ControlFlow(ControlFlowError::Substitution(e)))), Ghost(FlatTrace::Loop(seq![rpv], ceg, Seq::empty())))
                                },
                                Ok(v) => {
                                    if *it < iters.len() {
                                        let vals = copy_texts(&iters[*it]);
                                        *it = *it + 1;
                                        let (r, gh) = flat_for_x(step, &vals, args, env, ctx, iters, out, it);
                                        (r, Ghost(FlatTrace::Loop(seq![rpv], None, gh@)))
                                    } else if glob.is_some() {
                                        (Err(FlattenStop::NeedIterations(Some(v), None)), Ghost(FlatTrace::Loop(seq![rpv], None, Seq::empty())))
                                    } else {
                                        (Err(FlattenStop::NeedIterations(None, Some(v))), Ghost(FlatTrace::Loop(seq![rpv], None, Seq::empty())))
                                    }
                                },
                            }
                        },
                    }
                },
            }
        },
        _ => (Ok(()), Ghost(FlatTrace::Skipped)),
    }
}

/// One step walked (see [`flat_step`]).
fn flat_step_x(step: &CommandStep, args: &RunArgs, env: &HashMap<String, String>, ctx: ShellLeafContext,
    iters: &Vec<Vec<String>>, out: &mut Vec<String>, it: &mut usize) -> (r: (Result<(), FlattenStop>, Ghost<FlatTrace>))
    requires
        *old(it) <= iters.len(),
    ensures
        *final(it) <= iters.len(),
        flat_step(*args, *env, ctx, values_view(iters@), *step, r.1@, (strs_view(old(out)@), *old(it) as nat))
            == Some((end_of(r.0), (strs_view(final(out)@), *final(it) as nat))),
    decreases *step, 2nat, 1nat,
{
    let ghost iv = values_view(iters@);
    match step_explicit_when(step) {
        Some(WhenCondition::Failure) => {
            return (Ok(()), Ghost(FlatTrace::Skipped));
        },
        _ => {},
    }
    match step {
        CommandStep::Shell(x) => {
            let res = args.substitute(x.as_str(), env);
            let ghost rv = res_view(res);
            assert(substitutes(*args, *env, x@, rv));
            match res {
                Ok(v) => {
                    let ghost o = out@;
                    let ghost vs = v@;
                    out.push(v);
                    assert(strs_view(out@) =~= strs_view(o).push(vs));
                    (Ok(()), Ghost(FlatTrace::Command(rv)))
                },
                Err(e) => (Err(FlattenStop::Failed(ShellLeafFlattenError::Substitution(e))), Ghost(FlatTrace::Command(rv))),
            }
        },
        CommandStep::TargetCall(c) => {
            let m = ctx.target_call_message(c.target.as_str());
            (Err(FlattenStop::Failed(ShellLeafFlattenError::TargetCallNotAllowed(m))), Ghost(FlatTrace::Refused))
        },
        CommandStep::When { commands, .. } => {
            let (r, g) = flat_list_x(commands, args, env, ctx, iters, out, it);
            (r, Ghost(FlatTrace::Steps(g@)))
        },
        CommandStep::If { .. } => flat_if_x(step, args, env, ctx, iters, out, it),
        CommandStep::Match { .. } => flat_match_x(step, args, env, ctx, iters, out, it),
        CommandStep::For { .. } => flat_for_step_x(step, args, env, ctx, iters, out, it),
    }
}

/// The steps walked in order (see [`flat_list`]).
fn flat_list_x(steps: &Vec<CommandStep>, args: &RunArgs, env: &HashMap<String, String>, ctx: ShellLeafContext,
    iters: &Vec<Vec<String>>, out: &mut Vec<String>, it: &mut usize) -> (r: (Result<(), FlattenStop>, Ghost<Seq<FlatTrace>>))
    requires
        *old(it) <= iters.len(),
    ensures
        *final(it) <= iters.len(),
        flat_list(*args, *env, ctx, values_view(iters@), steps@, r.1@, 0, (strs_view(old(out)@), *old(it) as nat))
            == Some((end_of(r.0), (strs_view(final(out)@), *final(it) as nat))),
    decreases steps@, 0nat,
{
    let ghost iv = values_view(iters@);
    let ghost init: FlatSt = (strs_view(out@), *it as nat);
    let ghost mut ps: Seq<FlatTrace> = Seq::empty();
    let mut k: usize = 0;
    while k < steps.len()
        invariant
            k <= steps.len(),
            *it <= iters.len(),
            iv == values_view(iters@),
            init == (strs_view(old(out)@), *old(it) as nat),
            ps.len() == k,
            forall|q: Seq<FlatTrace>| #![trigger flat_list(*args, *env, ctx, iv, steps@, q, 0, init)]
                q.len() >= k && q.take(k as int) == ps ==>
                flat_list(*args, *env, ctx, iv, steps@, q, 0, init) == flat_list(*args, *env, ctx, iv, steps@, q, k as int, (strs_view(out@), *it as nat)),
        decreases steps.len() - k,
    {
        let ghost cur: FlatSt = (strs_view(out@), *it as nat);
        let (r, g) = flat_step_x(&steps[k], args, env, ctx, iters, out, it);
        let ghost m: FlatSt = (strs_view(out@), *it as nat);
        let ghost pk = g@;
        let ghost nps = ps.push(pk);
        proof {
            assert forall|q: Seq<FlatTrace>| q.len() >= k + 1 && q.take(k + 1) == nps implies
                flat_list(*args, *env, ctx, iv, steps@, q, 0, init) == flat_list(*args, *env, ctx, iv, steps@, q, k as int, cur) by {
                assert(q.take(k as int) =~= nps.take(k as int));
                assert(nps.take(k as int) =~= ps);
            }
            assert forall|q: Seq<FlatTrace>| q.len() >= k + 1 && q.take(k + 1) == nps implies
                #[trigger] q[k as int] == pk by {
                assert(q.take(k + 1)[k as int] == q[k as int]);
            }
        }
        if r.is_err() {
            proof {
                assert(nps.take(k + 1) =~= nps);
                assert(nps.take(k as int) =~= ps);
                assert(nps[k as int] == pk);
                assert(flat_step(*args, *env, ctx, iv, steps@[k as int], pk, cur) == Some((end_of(r), m)));
                assert(flat_list(*args, *env, ctx, iv, steps@, nps, k as int, cur) == Some((end_of(r), m)));
                assert(flat_list(*args, *env, ctx, iv, steps@, nps, 0, init) == Some((end_of(r), m)));
            }
            return (r, Ghost(nps));
        }
        proof {
            ps = nps;
        }
        k += 1;
    }
    proof {
        assert(ps.take(k as int) =~= ps);
    }
    (Ok(()), Ghost(ps))
}

// ── entry points ────────────────────────────────────────────────────────

/// A whole walk of `steps` from nothing collected, as the record `ps` says.
pub open spec fn walked(a: RunArgs, env: HashMap<String, String>, ctx: ShellLeafContext, iters: Seq<Seq<Seq<char>>>, steps: Seq<CommandStep>, ps: Seq<FlatTrace>) -> Option<(FlatEnd, FlatSt)> {
    flat_list(a, env, ctx, iters, steps, ps, 0, (Seq::<Seq<char>>::empty(), 0nat))
}

/// How a walk that produced `r` ended.
pub open spec fn walk_end<T>(r: Result<T, FlattenStop>) -> FlatEnd {
    match r {
        Ok(_) => FlatEnd::Done,
        Err(x) => end_of(Err(x)),
    }
}

/// The command lines of `steps` for a `detach: true` (`context` `Detach`)
/// or `sameShell: true` (`SameShell`) target, walked as [`flat_list`] says:
/// some record of walking them from nothing collected ends as `r` does,
/// having collected exactly the lines returned. `iterations` are the values
/// of the `for glob:`/`for shell:` blocks in the order the walk meets them;
/// when it meets one more, it stops with `NeedIterations`.
pub fn collect_shell_only_leaves(steps: &Vec<CommandStep>, args: &RunArgs, env: &HashMap<String, String>,
    context: ShellLeafContext, iterations: &Vec<Vec<String>>) -> (r: Result<Vec<String>, FlattenStop>)
    ensures
        exists|ps: Seq<FlatTrace>| #[trigger] walked(*args, *env, context, values_view(iterations@), steps@, ps) is Some
            && walked(*args, *env, context, values_view(iterations@), steps@, ps).unwrap().0 == walk_end(r) && match r {
                Ok(v) => strs_view(v@) == walked(*args, *env, context, values_view(iterations@), steps@, ps).unwrap().1.0,
                Err(_) => true,
            },
{
    let mut out: Vec<String> = Vec::new();
    let mut it: usize = 0;
    assert(strs_view(out@) =~= Seq::<Seq<char>>::empty());
    let (r, g) = flat_list_x(steps, args, env, context, iterations, &mut out, &mut it);
    let ghost t: FlatSt = (strs_view(out@), it as nat);
    let res = match r {
        Ok(()) => Ok(out),
        Err(x) => Err(x),
    };
    assert(walked(*args, *env, context, values_view(iterations@), steps@, g@) == Some((walk_end(res), t)));
    res
}

/// [`collect_shell_only_leaves`] for a `detach: true` target.
pub fn collect_detach_leaves(steps: &Vec<CommandStep>, args: &RunArgs, env: &HashMap<String, String>,
    iterations: &Vec<Vec<String>>) -> (r: Result<Vec<String>, FlattenStop>)
    ensures
        exists|ps: Seq<FlatTrace>| #[trigger] walked(*args, *env, ShellLeafContext::Detach, values_view(iterations@), steps@, ps) is Some
            && walked(*args, *env, ShellLeafContext::Detach, values_view(iterations@), steps@, ps).unwrap().0 == walk_end(r) && match r {
                Ok(v) => strs_view(v@) == walked(*args, *env, ShellLeafContext::Detach, values_view(iterations@), steps@, ps).unwrap().1.0,
                Err(_) => true,
            },
{
    collect_shell_only_leaves(steps, args, env, ShellLeafContext::Detach, iterations)
}

/// The single shell invocation of a `sameShell: true` target: its commands
/// flattened (see [`collect_shell_only_leaves`]), blank ones dropped, the
/// rest joined for `kind` (see [`plan_fits`]).
pub fn same_shell_script(steps: &Vec<CommandStep>, args: &RunArgs, env: &HashMap<String, String>,
    iterations: &Vec<Vec<String>>, kind: &ShellKind, ignore_errors: bool) -> (r: Result<SameShellPlan, FlattenStop>)
    ensures
        exists|ps: Seq<FlatTrace>| #[trigger] walked(*args, *env, ShellLeafContext::SameShell, values_view(iterations@), steps@, ps) is Some
            && walked(*args, *env, ShellLeafContext::SameShell, values_view(iterations@), steps@, ps).unwrap().0 == walk_end(r) && match r {
                Ok(plan) => plan_fits(walked(*args, *env, ShellLeafContext::SameShell, values_view(iterations@), steps@, ps).unwrap().1.0, *kind, ignore_errors, plan),
                Err(_) => true,
            },
{
    let leaves = collect_shell_only_leaves(steps, args, env, ShellLeafContext::SameShell, iterations);
    match leaves {
        Ok(v) => {
            let plan = same_shell_plan(&v, kind, ignore_errors);
            let res: Result<SameShellPlan, FlattenStop> = Ok(plan);
            assert(walk_end(res) == FlatEnd::Done);
            res
        },
        Err(x) => Err(x),
    }
}

} // verus!
