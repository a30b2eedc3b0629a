//! The shared step counter behind the `(N/total)` of log lines, the console
//! mode that log output needs on Windows, and the switch that turns line
//! prefixing of parallel output off.

use vstd::prelude::*;
use std::sync::Arc;
use std::sync::atomic::{AtomicUsize, Ordering};
use crate::text::{chars_of, ascii_ci_eq, ascii_ci_eq_x};

verus! {

/// The total after taking `n` steps off `t`, never below zero.
pub open spec fn shrunk(t: usize, n: usize) -> usize {
    if t >= n {
        (t - n) as usize
    } else {
        0
    }
}

/// `t.saturating_sub(n)`.
pub fn shrink_total(t: usize, n: usize) -> (r: usize)
    ensures
        r == shrunk(t, n),
{
    if t >= n {
        t - n
    } else {
        0
    }
}

/// The 1-based number of the step that follows `prev` taken steps.
pub fn step_after(prev: usize) -> (r: usize)
    ensures
        r == if prev < usize::MAX { prev + 1 } else { 0 },
{
    prev.wrapping_add(1)
}

/// The total after adding `n` steps to `t`, never past `usize::MAX`, so
/// that adding never shrinks it.
pub open spec fn grown(t: usize, n: usize) -> usize {
    if t + n > usize::MAX {
        usize::MAX
    } else {
        (t + n) as usize
    }
}

/// `t.saturating_add(n)`.
pub fn grow_total(t: usize, n: usize) -> (r: usize)
    ensures
        r == grown(t, n),
        r >= t,
{
    t.saturating_add(n)
}

/// The new total: grown by `n` when `grow`, else shrunk by `n`.
pub fn next_total(t: usize, n: usize, grow: bool) -> (r: usize)
    ensures
        r == if grow { grown(t, n) } else { shrunk(t, n) },
{
    if grow { grow_total(t, n) } else { shrink_total(t, n) }
}

/// `AtomicUsize::fetch_update` with sequentially consistent ordering, the
/// new total computed by [`next_total`]. Nothing is stated of the value,
/// which other threads may change at any time.
#[verifier::external_body]
fn atomic_update(a: &AtomicUsize, n: usize, grow: bool) {
    let _ = a.fetch_update(Ordering::SeqCst, Ordering::SeqCst, |t| Some(next_total(t, n, grow)));
}

/// The global `(N/total)` step counter of a run. Clones share the same
/// counts, so nested `@target` calls and worker threads see one sequence.
/// What the counts hold depends on every thread that shares them, so the
/// methods state nothing of the values they read.
#[derive(Debug, Clone)]
pub struct StepCounter {
    current: Arc<AtomicUsize>,
    total: Arc<AtomicUsize>,
}

impl StepCounter {
    /// A counter at step zero of `total`.
    pub fn new(total: usize) -> (r: Self) {
        StepCounter { current: Arc::new(AtomicUsize::new(0)), total: Arc::new(AtomicUsize::new(total)) }
    }

    /// Takes the next step: its 1-based number and the total.
    pub fn next_step(&self) -> (r: (usize, usize)) {
        let prev = self.current.fetch_add(1, Ordering::SeqCst);
        let n = step_after(prev);
        let t = self.total.load(Ordering::SeqCst);
        (n, t)
    }

    /// The total number of steps.
    pub fn total(&self) -> (r: usize) {
        self.total.load(Ordering::SeqCst)
    }

    /// Raises the total by `n`, when iterators expand to more steps than
    /// planned; it never shrinks it (saturating).
    pub fn add_to_total(&self, n: usize) {
        atomic_update(&self.total, n, true);
    }

    /// Lowers the total by `n`, never below zero, when a planned step turns
    /// out to do nothing.
    pub fn subtract_from_total(&self, n: usize) {
        atomic_update(&self.total, n, false);
    }
}

/// Console mode bit: `\n` acts as a line break.
pub const ENABLE_PROCESSED_OUTPUT: u32 = 1;

/// Console mode bit: ANSI escapes are interpreted.
pub const ENABLE_VIRTUAL_TERMINAL_PROCESSING: u32 = 4;

/// The console mode to set so that line breaks and ANSI colours work, or
/// `None` when `current` has both bits already; other bits are kept.
pub fn console_mode_update(current: u32) -> (r: Option<u32>)
    ensures
        r == if (current | 5u32) == current { None::<u32> } else { Some(current | 5u32) },
{
    let desired = current | ENABLE_PROCESSED_OUTPUT | ENABLE_VIRTUAL_TERMINAL_PROCESSING;
    assert(current | 1u32 | 4u32 == current | 5u32) by (bit_vector);
    if desired == current {
        None
    } else {
        Some(desired)
    }
}

/// Whether parallel output is prefixed, given the value of the opt-out
/// setting (`RUNFILE_NO_LINE_PREFIX`): off for `1` or `true` in any case.
pub fn line_prefixing_enabled(setting: Option<&str>) -> (r: bool)
    ensures
        r == match setting {
            None => true,
            Some(v) => !(v@ == "1"@ || ascii_ci_eq(v@, "true"@)),
        },
{
    match setting {
        None => true,
        Some(v) => {
            let c = chars_of(v);
            !(crate::text::eq_lit(&c, "1") || ascii_ci_eq_x(v, "true"))
        },
    }
}

} // verus!
