//! The steps of a target's `commands` array as the runtime reads them, and
//! the static count of their shell leaves that sizes the `(N/total)` step
//! counter before a run.

use vstd::prelude::*;
use crate::calls::{TargetCallStep, WhenCondition, meet, intersect_when};

verus! {

/// Where a `for` block's values come from when given with `in:`.
#[derive(Debug, Clone)]
pub enum ForSource {
    /// A literal list of templates.
    Literal(Vec<String>),
    /// The merged Runfile's namespaces.
    Namespaces,
}

/// One entry of a `commands` array.
#[derive(Debug)]
pub enum CommandStep {
    /// A shell command template.
    Shell(String),
    /// A `@target` call.
    TargetCall(TargetCallStep),
    /// A block guarded by `when:`, with its own `ignoreErrors`.
    When { when: WhenCondition, commands: Vec<CommandStep>, ignore_errors: bool },
    /// `if` with its condition template, branches and optional guard.
    If { condition: String, then: Vec<CommandStep>, otherwise: Option<Vec<CommandStep>>, when: Option<WhenCondition>, ignore_errors: bool },
    /// `for` over `in:` values, a `glob:` or the lines of a `shell:`.
    For {
        var: String,
        source: Option<ForSource>,
        glob: Option<String>,
        shell: Option<String>,
        body: Vec<CommandStep>,
        when: Option<WhenCondition>,
        parallel: bool,
        ignore_errors: bool,
    },
    /// `match` with its value template, keyed cases and optional default.
    Match { expr: String, cases: Vec<(String, Vec<CommandStep>)>, default: Option<Vec<CommandStep>>, when: Option<WhenCondition>, ignore_errors: bool },
}

/// Leaves of a step, counted without knowing which branch runs: a shell
/// command or a `@target` call is one; a `when` block counts its steps; an
/// `if` both branches; a `match` every case and the default; a `for` its
/// body once per literal value, and once for other sources (the run adds
/// the rest as iterations expand).
pub open spec fn step_leaves(s: CommandStep) -> nat
    decreases s, 1nat,
{
    match s {
        CommandStep::Shell(_) => 1,
        CommandStep::TargetCall(_) => 1,
        CommandStep::When { when, commands, .. } => list_leaves(commands@, commands@.len() as int),
        CommandStep::If { then, otherwise, when, .. } => list_leaves(then@, then@.len() as int) + match otherwise {
            Some(o) => list_leaves(o@, o@.len() as int),
            None => 0,
        },
        CommandStep::For { body, source, when, .. } => {
            let b = list_leaves(body@, body@.len() as int);
            match source {
                Some(ForSource::Literal(items)) => items@.len() * b,
                _ => b,
            }
        },
        CommandStep::Match { cases, default, when, .. } => cases_leaves(cases@, cases@.len() as int) + match default {
            Some(d) => list_leaves(d@, d@.len() as int),
            None => 0,
        },
    }
}

/// Leaves of the first `n` steps of `v`.
pub open spec fn list_leaves(v: Seq<CommandStep>, n: int) -> nat
    decreases v, 0nat, n,
{
    if n <= 0 || n > v.len() {
        0
    } else {
        list_leaves(v, n - 1) + step_leaves(v[n - 1])
    }
}

/// Leaves of the first `n` cases.
pub open spec fn cases_leaves(c: Seq<(String, Vec<CommandStep>)>, n: int) -> nat
    decreases c, 0nat, n,
{
    if n <= 0 || n > c.len() {
        0
    } else {
        cases_leaves(c, n - 1) + list_leaves(c[n - 1].1@, c[n - 1].1@.len() as int)
    }
}

/// A count capped at `usize::MAX`.
pub open spec fn capped(n: nat) -> usize {
    if n > usize::MAX { usize::MAX } else { n as usize }
}

fn add_capped(a: usize, b: usize) -> (r: usize)
    ensures
        r == capped((a + b) as nat),
{
    a.saturating_add(b)
}

fn mul_capped(a: usize, b: usize) -> (r: usize)
    ensures
        r == capped((a * b) as nat),
{
    match a.checked_mul(b) {
        Some(x) => x,
        None => usize::MAX,
    }
}

proof fn lemma_capped_add(a: nat, b: nat)
    ensures
        capped((capped(a) + capped(b)) as nat) == capped(a + b),
{
}

proof fn lemma_capped_mul(a: nat, b: nat)
    ensures
        capped((capped(a) * capped(b)) as nat) == capped(a * b),
{
    if a > usize::MAX && b >= 1 {
        assert(capped(a) * capped(b) >= capped(a)) by (nonlinear_arith)
            requires
                capped(b) >= 1,
        ;
        assert(a * b >= a) by (nonlinear_arith)
            requires
                b >= 1,
        ;
    } else if b > usize::MAX && a >= 1 {
        assert(capped(a) * capped(b) >= capped(b)) by (nonlinear_arith)
            requires
                capped(a) >= 1,
        ;
        assert(a * b >= b) by (nonlinear_arith)
            requires
                a >= 1,
        ;
    } else if a == 0 || b == 0 {
        assert(a * b == 0) by (nonlinear_arith)
            requires
                a == 0 || b == 0,
        ;
        assert(capped(a) * capped(b) == 0) by (nonlinear_arith)
            requires
                capped(a) == 0 || capped(b) == 0,
        ;
    }
}

/// The leaves of every case of a `match`, capped at `usize::MAX`.
fn count_cases(cases: &Vec<(String, Vec<CommandStep>)>) -> (r: usize)
    ensures
        r == capped(cases_leaves(cases@, cases@.len() as int)),
    decreases cases@, 0nat,
{
    let mut total: usize = 0;
    let mut k: usize = 0;
    while k < cases.len()
        invariant
            k <= cases.len(),
            total == capped(cases_leaves(cases@, k as int)),
        decreases cases.len() - k,
    {
        proof {
            assert(decreases_to!(cases@ => cases@[k as int]));
            assert(decreases_to!(cases@[k as int] => cases@[k as int].1));
            assert(decreases_to!(cases@[k as int].1 => cases@[k as int].1@));
        }
        let c = count_leaves(&cases[k].1);
        proof {
            lemma_capped_add(cases_leaves(cases@, k as int), list_leaves(cases@[k as int].1@, cases@[k as int].1@.len() as int));
        }
        total = add_capped(total, c);
        k += 1;
    }
    total
}

/// The leaves of one step, capped at `usize::MAX`.
pub fn count_leaves_one(step: &CommandStep) -> (r: usize)
    ensures
        r == capped(step_leaves(*step)),
    decreases *step, 1nat,
{
    match step {
        CommandStep::Shell(_) => 1,
        CommandStep::TargetCall(_) => 1,
        CommandStep::When { when, commands, .. } => count_leaves(commands),
        CommandStep::If { then, otherwise, when, .. } => {
            let t = count_leaves(then);
            let e = match otherwise {
                Some(o) => count_leaves(o),
                None => 0,
            };
            proof {
                lemma_capped_add(list_leaves(then@, then@.len() as int), match otherwise {
                    Some(o) => list_leaves(o@, o@.len() as int),
                    None => 0,
                });
            }
            add_capped(t, e)
        },
        CommandStep::For { body, source, when, .. } => {
            let b = count_leaves(body);
            match source {
                Some(ForSource::Literal(items)) => {
                    proof {
                        lemma_capped_mul(items@.len() as nat, list_leaves(body@, body@.len() as int));
                    }
                    mul_capped(items.len(), b)
                },
                _ => b,
            }
        },
        CommandStep::Match { cases, default, when, .. } => {
            let total = count_cases(cases);
            let d = match default {
                Some(ds) => count_leaves(ds),
                None => 0,
            };
            proof {
                lemma_capped_add(cases_leaves(cases@, cases@.len() as int), match default {
                    Some(ds) => list_leaves(ds@, ds@.len() as int),
                    None => 0,
                });
            }
            add_capped(total, d)
        },
    }
}

/// The static leaf count of a `commands` array (capped at `usize::MAX`):
/// each shell command and `@target` call is one step; `if` and `match` count
/// every branch; `for` over literal values multiplies its body.
pub fn count_leaves(steps: &Vec<CommandStep>) -> (r: usize)
    ensures
        r == capped(list_leaves(steps@, steps@.len() as int)),
    decreases steps@, 0nat,
{
    let mut total: usize = 0;
    let mut k: usize = 0;
    while k < steps.len()
        invariant
            k <= steps.len(),
            total == capped(list_leaves(steps@, k as int)),
        decreases steps.len() - k,
    {
        let c = count_leaves_one(&steps[k]);
        proof {
            lemma_capped_add(list_leaves(steps@, k as int), step_leaves(steps@[k as int]));
        }
        total = add_capped(total, c);
        k += 1;
    }
    total
}

/// The guard a step carries itself; `None` for a shell command or a call,
/// and for a block without `when:`, which take the guard around them.
pub open spec fn own_guard(step: CommandStep) -> Option<WhenCondition> {
    match step {
        CommandStep::Shell(_) => None,
        CommandStep::TargetCall(_) => None,
        CommandStep::When { when, commands, .. } => Some(when),
        CommandStep::If { then, otherwise, when, .. } => when,
        CommandStep::For { body, source, when, .. } => when,
        CommandStep::Match { cases, default, when, .. } => when,
    }
}

/// The step's own `when:`, read off the step.
pub fn step_explicit_when(step: &CommandStep) -> (r: Option<WhenCondition>)
    ensures
        r == own_guard(*step),
{
    match step {
        CommandStep::Shell(_) => None,
        CommandStep::TargetCall(_) => None,
        CommandStep::When { when, commands, .. } => Some(*when),
        CommandStep::If { then, otherwise, when, .. } => *when,
        CommandStep::For { body, source, when, .. } => *when,
        CommandStep::Match { cases, default, when, .. } => *when,
    }
}

/// The guard under which a step's leaves run, from the guard around it and
/// the step's own `when:`: `None` when the two can never hold together and
/// the whole step is skipped; `Some(g)` otherwise, where `g` is `None` for a
/// step that stands under no guard at all.
pub open spec fn composed_guard(outer: Option<WhenCondition>, own: Option<WhenCondition>) -> Option<Option<WhenCondition>> {
    match (outer, own) {
        (o, None) => Some(o),
        (None, Some(w)) => Some(Some(w)),
        (Some(o), Some(w)) => match meet(o, w) {
            Some(e) => Some(Some(e)),
            None => None,
        },
    }
}

/// Composes the enclosing guard with the step's own `when:`; `None` means the
/// step can never run under the guard around it.
pub fn compose_step_guard(outer: Option<WhenCondition>, step: &CommandStep) -> (r: Option<Option<WhenCondition>>)
    ensures
        r == composed_guard(outer, own_guard(*step)),
{
    match (outer, step_explicit_when(step)) {
        (o, None) => Some(o),
        (None, Some(w)) => Some(Some(w)),
        (Some(o), Some(w)) => match intersect_when(o, w) {
            Some(e) => Some(Some(e)),
            None => None,
        },
    }
}

/// The partition a leaf falls in: its guard, or the success batch when no
/// guard stands over it.
pub fn leaf_partition(guard: Option<WhenCondition>) -> (r: WhenCondition)
    ensures
        r == (match guard {
            Some(g) => g,
            None => WhenCondition::Success,
        }),
{
    match guard {
        Some(g) => g,
        None => WhenCondition::Success,
    }
}

} // verus!
