//! The decisions of a sequential walk over a target's steps, from state and
//! event to the next state: which steps a `when:` lets run, what a shell
//! step's substitution leads to, how a command's outcome is counted, when
//! the target turns "failed", how a `when:` block or a dependency folds
//! into the target, and which `when:` partitions of a parallel batch run.
//! Spawning and waiting for the commands is the caller's.

use vstd::prelude::*;
use crate::calls::WhenCondition;
use crate::steps::{CommandStep, own_guard, step_explicit_when};
use crate::errors::SubstitutionError;
use crate::control::ExecuteError;
use crate::text::{trim, trim_exec, chars_of, string_of};
use crate::funcs::{split_parts, split_parts_x};
use crate::values::texts_view;
use crate::extract::{strs_view, ShellKind, join_shell_commands, join_separator};
use crate::funcs::join_seq;

verus! {

/// How a command ended: its exit code, or `None` when a signal ended it.
#[derive(Debug, Clone, Copy, PartialEq, Eq, Structural)]
pub struct CommandStatus {
    pub code: Option<i32>,
}

/// A command succeeded: it exited with code 0.
pub open spec fn succeeded(s: CommandStatus) -> bool {
    s.code == Some(0i32)
}

/// The state of a target's walk: commands run, failed commands, the status
/// of the last one, and whether the target is failed (a failure that
/// `ignoreErrors` did not suppress). Once failed, it stays failed.
#[derive(Debug, Clone, Copy, PartialEq, Eq, Structural)]
pub struct WalkState {
    pub commands_run: usize,
    pub failures: usize,
    pub last_status: Option<CommandStatus>,
    pub failed: bool,
}

/// `a + b`, held at `usize::MAX`.
pub open spec fn sat(a: usize, b: usize) -> usize {
    if a + b > usize::MAX { usize::MAX } else { (a + b) as usize }
}

/// Whether a step guarded by `when` runs in a target that is `failed` or
/// not: `success` only while nothing failed, `failure` only after a
/// failure, `always` in both.
pub open spec fn when_holds(when: WhenCondition, failed: bool) -> bool {
    match when {
        WhenCondition::Success => !failed,
        WhenCondition::Failure => failed,
        WhenCondition::Always => true,
    }
}

pub fn when_matches(when: WhenCondition, failed: bool) -> (r: bool)
    ensures
        r == when_holds(when, failed),
{
    match when {
        WhenCondition::Success => !failed,
        WhenCondition::Failure => failed,
        WhenCondition::Always => true,
    }
}

/// The guard a step runs under: its own `when:`, `success` without one.
pub open spec fn effective_when(step: CommandStep) -> WhenCondition {
    match own_guard(step) {
        Some(w) => w,
        None => WhenCondition::Success,
    }
}

/// Whether the walk runs `step` in a target that is `failed` or not.
pub fn step_applies(step: &CommandStep, failed: bool) -> (r: bool)
    ensures
        r == when_holds(effective_when(*step), failed),
{
    let w = match step_explicit_when(step) {
        Some(w) => w,
        None => WhenCondition::Success,
    };
    when_matches(w, failed)
}

/// What a shell step does once its template was substituted.
#[derive(Debug)]
pub enum ShellPlan {
    /// `error(...)` fired: the line counts as one failed command.
    UserError,
    /// The substitution failed otherwise: the walk stops with the error.
    Abort(ExecuteError),
    /// The line came out blank: nothing runs, no step number is taken, and
    /// the planned total loses one step.
    Skip,
    /// The command line to run.
    Run(String),
}

/// The plan for a shell step whose substitution gave `substituted`.
pub fn plan_shell_step(substituted: Result<String, SubstitutionError>) -> (r: ShellPlan)
    ensures
        match substituted {
            Err(SubstitutionError::UserError(_)) => r is UserError,
            Err(e) => r matches ShellPlan::Abort(x) && x == ExecuteError::Substitution(e),
            Ok(s) => if trim(s@).len() == 0 { r is Skip } else { r matches ShellPlan::Run(c) && c@ == s@ },
        },
{
    match substituted {
        Err(SubstitutionError::UserError(m)) => ShellPlan::UserError,
        Err(e) => ShellPlan::Abort(ExecuteError::Substitution(e)),
        Ok(s) => {
            let t = trim_exec(&chars_of(s.as_str()));
            if t.len() == 0 {
                ShellPlan::Skip
            } else {
                ShellPlan::Run(s)
            }
        },
    }
}

/// What a `when:` block saves on entry: whether the target was failed, and
/// its failure count.
#[derive(Debug, Clone, Copy, PartialEq, Eq, Structural)]
pub struct WhenFrame {
    pub outer_failed: bool,
    pub pre_failures: usize,
}

/// The state after a command ended with `status`: one more command run,
/// its status the last, and one more failure unless it succeeded.
pub open spec fn after_status(s: WalkState, status: CommandStatus) -> WalkState {
    WalkState {
        commands_run: sat(s.commands_run, 1),
        failures: if succeeded(status) { s.failures } else { sat(s.failures, 1) },
        last_status: Some(status),
        failed: s.failed,
    }
}

/// The state after a dependency that ran `run` commands with `failed`
/// failures, the last ending with `last`.
pub open spec fn after_dependency(s: WalkState, run: usize, failures: usize, last: CommandStatus) -> WalkState {
    WalkState {
        commands_run: sat(s.commands_run, run),
        failures: sat(s.failures, failures),
        last_status: Some(last),
        failed: s.failed,
    }
}

/// The state after a step that began with `pre_failures` failures: failed
/// when it was, or when the step added failures and errors are not ignored.
pub open spec fn settled(s: WalkState, pre_failures: usize, ignore_errors: bool) -> WalkState {
    WalkState { failed: s.failed || (s.failures > pre_failures && !ignore_errors), ..s }
}

/// The state inside a `when:` block: a `failure` or `always` block walks its
/// steps as if nothing had failed.
pub open spec fn entered(s: WalkState, when: WhenCondition) -> WalkState {
    WalkState { failed: s.failed && when == WhenCondition::Success, ..s }
}

/// The state after a `when:` block that was entered with `frame`: with
/// `ignoreErrors` on the block, the failed flag and failure count are as
/// before it; otherwise failed when it was before or the block failed.
pub open spec fn left(s: WalkState, frame: WhenFrame, local_ignore: bool) -> WalkState {
    if local_ignore {
        WalkState { failed: frame.outer_failed, failures: frame.pre_failures, ..s }
    } else {
        WalkState { failed: frame.outer_failed || s.failed, ..s }
    }
}

/// The state after a parallel block run with `pre_failures` failures
/// before it: with `ignoreErrors` on the block, its failures are forgotten.
pub open spec fn after_parallel(s: WalkState, pre_failures: usize, local_ignore: bool) -> WalkState {
    if local_ignore { WalkState { failures: pre_failures, ..s } } else { s }
}

impl WalkState {
    /// Nothing run, nothing failed.
    pub fn new() -> (r: Self)
        ensures
            r == (WalkState { commands_run: 0, failures: 0, last_status: None, failed: false }),
    {
        WalkState { commands_run: 0, failures: 0, last_status: None, failed: false }
    }

    /// A command ended with `status`: one more command run, its status the
    /// last, and one more failure unless it succeeded.
    pub fn record_status(&mut self, status: CommandStatus)
        ensures
            *final(self) == after_status(*old(self), status),
    {
        self.commands_run = self.commands_run.saturating_add(1);
        self.last_status = Some(status);
        let ok = match status.code {
            Some(c) => c == 0,
            None => false,
        };
        if !ok {
            self.failures = self.failures.saturating_add(1);
        }
    }

    /// `error(...)` fired in a shell step: a command that failed with
    /// exit code 1.
    pub fn record_user_error(&mut self)
        ensures
            *final(self) == after_status(*old(self), CommandStatus { code: Some(1i32) }),
    {
        self.record_status(CommandStatus { code: Some(1) });
    }

    /// A dependency ran `commands_run` commands with `failures` failures,
    /// the last ending with `final_status`; its counts add to the target's.
    pub fn record_dependency(&mut self, commands_run: usize, failures: usize, final_status: CommandStatus)
        ensures
            *final(self) == after_dependency(*old(self), commands_run, failures, final_status),
    {
        self.commands_run = self.commands_run.saturating_add(commands_run);
        self.failures = self.failures.saturating_add(failures);
        self.last_status = Some(final_status);
    }

    /// After a step that began with `pre_failures` failures: the target is
    /// failed when it was, or when the step added failures and errors are
    /// not ignored.
    pub fn settle_step(&mut self, pre_failures: usize, ignore_errors: bool)
        ensures
            *final(self) == settled(*old(self), pre_failures, ignore_errors),
    {
        if self.failures > pre_failures && !ignore_errors {
            self.failed = true;
        }
    }

    /// Closes a parallel block (see [`after_parallel`]).
    pub fn finish_parallel(&mut self, pre_failures: usize, local_ignore: bool)
        ensures
            *final(self) == after_parallel(*old(self), pre_failures, local_ignore),
    {
        if local_ignore {
            self.failures = pre_failures;
        }
    }

    /// Entering a `when:` block: saves the state, and lets a `failure` or
    /// `always` block walk its steps as if nothing had failed.
    pub fn enter_when_block(&mut self, when: WhenCondition) -> (r: WhenFrame)
        ensures
            r == (WhenFrame { outer_failed: old(self).failed, pre_failures: old(self).failures }),
            *final(self) == entered(*old(self), when),
    {
        let frame = WhenFrame { outer_failed: self.failed, pre_failures: self.failures };
        match when {
            WhenCondition::Success => {},
            _ => {
                self.failed = false;
            },
        }
        frame
    }

    /// Leaving a `when:` block: with `ignoreErrors` on the block, the
    /// target's failed flag and failure count are as before it; otherwise
    /// it is failed when it was before or the block failed.
    pub fn leave_when_block(&mut self, frame: WhenFrame, local_ignore: bool)
        ensures
            *final(self) == left(*old(self), frame, local_ignore),
    {
        if local_ignore {
            self.failed = frame.outer_failed;
            self.failures = frame.pre_failures;
        } else {
            self.failed = frame.outer_failed || self.failed;
        }
    }
}

/// Whether the success batch of a parallel block failed: it added failures
/// and neither the target nor the block ignores errors.
pub open spec fn batch_fails(pre_failures: usize, failures: usize, ignore_errors: bool, local_ignore: bool) -> bool {
    failures > pre_failures && !ignore_errors && !local_ignore
}

pub fn batch_failed(pre_failures: usize, failures: usize, ignore_errors: bool, local_ignore: bool) -> (r: bool)
    ensures
        r == batch_fails(pre_failures, failures, ignore_errors, local_ignore),
{
    failures > pre_failures && !ignore_errors && !local_ignore
}

/// The leaves of each partition of a parallel block, by index: `success`
/// leaves (the parallel batch), then `failure` and `always` leaves, each in
/// their order.
pub fn partition_whens(whens: &Vec<WhenCondition>) -> (r: (Vec<usize>, Vec<usize>, Vec<usize>))
    ensures
        r.0@ == index_filter(whens@, WhenCondition::Success, whens@.len() as int),
        r.1@ == index_filter(whens@, WhenCondition::Failure, whens@.len() as int),
        r.2@ == index_filter(whens@, WhenCondition::Always, whens@.len() as int),
{
    let mut s: Vec<usize> = Vec::new();
    let mut f: Vec<usize> = Vec::new();
    let mut a: Vec<usize> = Vec::new();
    let mut i: usize = 0;
    while i < whens.len()
        invariant
            i <= whens.len(),
            s@ == index_filter(whens@, WhenCondition::Success, i as int),
            f@ == index_filter(whens@, WhenCondition::Failure, i as int),
            a@ == index_filter(whens@, WhenCondition::Always, i as int),
        decreases whens.len() - i,
    {
        match whens[i] {
            WhenCondition::Success => s.push(i),
            WhenCondition::Failure => f.push(i),
            WhenCondition::Always => a.push(i),
        }
        i += 1;
    }
    (s, f, a)
}

/// The indexes below `n` whose guard is `w`, in order.
pub open spec fn index_filter(ws: Seq<WhenCondition>, w: WhenCondition, n: int) -> Seq<usize>
    decreases n,
{
    if n <= 0 || n > ws.len() {
        Seq::empty()
    } else if ws[n - 1] == w {
        index_filter(ws, w, n - 1).push((n - 1) as usize)
    } else {
        index_filter(ws, w, n - 1)
    }
}

// ── `for` blocks ────────────────────────────────────────────────────────

/// The steps that iterations beyond the planned ones add to the total.
pub open spec fn extra_steps(iterations: nat, estimated: nat, body: nat) -> nat {
    if iterations > estimated { ((iterations - estimated) * body) as nat } else { 0 }
}

/// [`extra_steps`], held at `usize::MAX`.
pub fn for_extra_total(iterations: usize, estimated: usize, body_count: usize) -> (r: usize)
    ensures
        r == if extra_steps(iterations as nat, estimated as nat, body_count as nat) > usize::MAX {
            usize::MAX
        } else {
            extra_steps(iterations as nat, estimated as nat, body_count as nat) as usize
        },
{
    if iterations > estimated {
        match (iterations - estimated).checked_mul(body_count) {
            Some(x) => x,
            None => usize::MAX,
        }
    } else {
        0
    }
}

/// The state the body of an `if`, `match` or sequential `for` starts from: no counts yet, and failed
/// only when the target is and the block runs under `success`.
pub open spec fn block_start(s: WalkState, when: Option<WhenCondition>) -> WalkState {
    WalkState {
        commands_run: 0,
        failures: 0,
        last_status: None,
        failed: match when {
            Some(WhenCondition::Failure) | Some(WhenCondition::Always) => false,
            _ => s.failed,
        },
    }
}

pub fn block_start_state(s: &WalkState, when: Option<WhenCondition>) -> (r: WalkState)
    ensures
        r == block_start(*s, when),
{
    let failed = match when {
        Some(WhenCondition::Failure) => false,
        Some(WhenCondition::Always) => false,
        _ => s.failed,
    };
    WalkState { commands_run: 0, failures: 0, last_status: None, failed }
}

/// After one iteration of a sequential `for`, which ended with an error
/// or not: with `ignoreErrors` on the block the next iteration starts
/// unfailed and an error counts as (at least) one failure; without it an
/// error stops the loop. The second part says whether the loop stops.
pub open spec fn after_iteration(l: WalkState, errored: bool, local_ignore: bool) -> (WalkState, bool) {
    let l1 = if local_ignore { WalkState { failed: false, ..l } } else { l };
    if errored {
        if local_ignore {
            (WalkState { failures: if l1.failures >= 1 { l1.failures } else { 1 }, ..l1 }, false)
        } else {
            (l1, true)
        }
    } else {
        (l1, false)
    }
}

pub fn end_iteration(l: &mut WalkState, errored: bool, local_ignore: bool) -> (stop: bool)
    ensures
        (*final(l), stop) == after_iteration(*old(l), errored, local_ignore),
{
    if local_ignore {
        l.failed = false;
    }
    if errored {
        if local_ignore {
            if l.failures < 1 {
                l.failures = 1;
            }
            false
        } else {
            true
        }
    } else {
        false
    }
}

/// The target's state after an `if`, `match` or sequential `for` whose
/// body ended in state
/// `l`: its commands and last status count in any case; its failures
/// and failed flag only without `ignoreErrors` on the block.
pub open spec fn block_finish(s: WalkState, l: WalkState, local_ignore: bool) -> WalkState {
    let base = WalkState {
        commands_run: sat(s.commands_run, l.commands_run),
        last_status: if l.last_status is Some { l.last_status } else { s.last_status },
        ..s
    };
    if local_ignore {
        base
    } else {
        WalkState { failed: s.failed || l.failed, failures: sat(s.failures, l.failures), ..base }
    }
}

pub fn finish_block(s: &mut WalkState, l: &WalkState, local_ignore: bool)
    ensures
        *final(s) == block_finish(*old(s), *l, local_ignore),
{
    s.commands_run = s.commands_run.saturating_add(l.commands_run);
    if l.last_status.is_some() {
        s.last_status = l.last_status;
    }
    if !local_ignore {
        s.failed = s.failed || l.failed;
        s.failures = s.failures.saturating_add(l.failures);
    }
}

// ── `for shell:` output ─────────────────────────────────────────────────

/// The trimmed, non-blank lines among the first `n` parts.
pub open spec fn nonblank_from(parts: Seq<Seq<char>>, n: int) -> Seq<Seq<char>>
    decreases n,
{
    if n <= 0 || n > parts.len() {
        Seq::empty()
    } else if trim(parts[n - 1]).len() == 0 {
        nonblank_from(parts, n - 1)
    } else {
        nonblank_from(parts, n - 1).push(trim(parts[n - 1]))
    }
}

/// The values a `for shell:` iterates over: the lines of the command's
/// output, each trimmed, blank ones dropped.
pub open spec fn iteration_lines(out: Seq<char>) -> Seq<Seq<char>> {
    let parts = split_parts(out, seq!['\n']);
    nonblank_from(parts, parts.len() as int)
}

pub fn shell_iteration_lines(out: &str) -> (r: Vec<String>)
    ensures
        strs_view(r@) == iteration_lines(out@),
{
    let mut sep: Vec<char> = Vec::new();
    sep.push('\n');
    assert(sep@ =~= seq!['\n']);
    let parts = split_parts_x(&chars_of(out), &sep);
    let ghost pv = texts_view(parts@);
    let mut r: Vec<String> = Vec::new();
    let mut i: usize = 0;
    while i < parts.len()
        invariant
            i <= parts.len(),
            pv == texts_view(parts@),
            pv == split_parts(out@, seq!['\n']),
            strs_view(r@) == nonblank_from(pv, i as int),
        decreases parts.len() - i,
    {
        assert(pv[i as int] == parts@[i as int]@);
        let t = trim_exec(&parts[i]);
        if t.len() > 0 {
            let ghost before = r@;
            r.push(string_of(&t));
            assert(strs_view(r@) =~= strs_view(before).push(t@));
        }
        i += 1;
    }
    r
}

// ── `sameShell: true` targets ───────────────────────────────────────────

/// The non-blank commands among the first `n`, in order.
pub open spec fn kept_commands(c: Seq<Seq<char>>, n: int) -> Seq<Seq<char>>
    decreases n,
{
    if n <= 0 || n > c.len() {
        Seq::empty()
    } else if trim(c[n - 1]).len() == 0 {
        kept_commands(c, n - 1)
    } else {
        kept_commands(c, n - 1).push(c[n - 1])
    }
}

/// The single shell invocation of a `sameShell: true` target made of its
/// flattened commands: blank ones are dropped (and their planned steps with
/// them); the rest, when any, are joined into one script that takes one
/// step number, the others' planned steps dropped too.
pub struct SameShellPlan {
    /// The joined script, or `None` when every command was blank.
    pub script: Option<String>,
    /// The commands that run, in order.
    pub commands: Vec<String>,
    /// Planned steps dropped for blank commands.
    pub dropped: usize,
    /// Planned steps dropped because the commands share one step.
    pub merged: usize,
}

/// `plan` is the plan for the flattened commands `leaves`.
pub open spec fn plan_fits(leaves: Seq<Seq<char>>, kind: ShellKind, ignore_errors: bool, plan: SameShellPlan) -> bool {
    &&& strs_view(plan.commands@) == kept_commands(leaves, leaves.len() as int)
    &&& plan.dropped == leaves.len() - plan.commands@.len()
    &&& plan.commands@.len() == 0 ==> plan.script is None && plan.merged == 0
    &&& plan.commands@.len() == 1 ==> (plan.script matches Some(s) && s@ == plan.commands@[0]@ && plan.merged == 0)
    &&& plan.commands@.len() > 1 ==> (plan.script matches Some(s)
            && s@ == join_seq(strs_view(plan.commands@), join_separator(kind, ignore_errors))
            && plan.merged == plan.commands@.len() - 1)
}

pub fn same_shell_plan(leaves: &Vec<String>, kind: &ShellKind, ignore_errors: bool) -> (r: SameShellPlan)
    ensures
        plan_fits(strs_view(leaves@), *kind, ignore_errors, r),
{
    let ghost lv = strs_view(leaves@);
    let mut kept: Vec<String> = Vec::new();
    let mut i: usize = 0;
    while i < leaves.len()
        invariant
            i <= leaves.len(),
            lv == strs_view(leaves@),
            strs_view(kept@) == kept_commands(lv, i as int),
            kept@.len() <= i,
        decreases leaves.len() - i,
    {
        assert(lv[i as int] == leaves@[i as int]@);
        let t = trim_exec(&chars_of(leaves[i].as_str()));
        if t.len() > 0 {
            let ghost before = kept@;
            kept.push(leaves[i].clone());
            assert(strs_view(kept@) =~= strs_view(before).push(leaves@[i as int]@));
        }
        i += 1;
    }
    let dropped = leaves.len() - kept.len();
    if kept.len() == 0 {
        return SameShellPlan { script: None, commands: kept, dropped, merged: 0 };
    }
    let script = join_shell_commands(kept.as_slice(), kind, ignore_errors);
    let merged = kept.len() - 1;
    SameShellPlan { script: Some(script), commands: kept, dropped, merged }
}

} // verus!
