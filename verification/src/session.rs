//! The session orchestrator: a run over an ordered list of loaded profiles
//! walks four phases — every profile's `before` hook in order, the shell
//! once, every profile's `after` hook in order — and stops a phase at its
//! first hook that exits non-zero.  A failed `before` hook skips the shell
//! and every `after` hook; a failed `after` hook skips the remaining `after`
//! hooks; neither is escalated to a run error.
//!
//! The decisions live here, verified; the caller performs each step
//! (spawning a hook, running the shell) and feeds its outcome back.

use vstd::prelude::*;

use crate::config::RunConfig;

verus! {

/// Where a run stands: which step is pending, or how the run ended.
#[derive(Clone, Copy)]
pub enum Phase {
    /// The `before` hook of profile `idx` is pending.
    Before { idx: usize },
    /// Every `before` hook succeeded; the shell is pending.
    Shell,
    /// The `after` hook of profile `idx` is pending.
    After { idx: usize },
    /// Every phase ran to completion.
    Done,
    /// Profile `idx`'s `before` hook exited non-zero; the run stopped there,
    /// before the shell and before any `after` hook.
    BeforeFailed { idx: usize },
    /// Profile `idx`'s `after` hook exited non-zero; the run stopped there.
    AfterFailed { idx: usize },
}

/// A phase that is coherent for a run over `n` profiles.
pub open spec fn phase_wf(n: nat, phase: Phase) -> bool {
    match phase {
        Phase::Before { idx } => idx < n,
        Phase::After { idx } => idx < n,
        Phase::BeforeFailed { idx } => idx < n,
        Phase::AfterFailed { idx } => idx < n,
        Phase::Shell => true,
        Phase::Done => true,
    }
}

/// The phase a run starts in: the first profile's `before` hook, or the
/// shell when there is no profile at all.
pub open spec fn init_phase(n: nat) -> Phase {
    if n == 0 {
        Phase::Shell
    } else {
        Phase::Before { idx: 0 }
    }
}

/// One transition: from `phase`, after the pending step reported `ok`.
/// A hook that exited non-zero moves to the matching terminal phase; a
/// phase's last step hands over to the next phase.  The shell's own exit
/// status is not inspected, so its step is fed `ok == true`.
pub open spec fn next_phase(n: nat, phase: Phase, ok: bool) -> Phase {
    match phase {
        Phase::Before { idx } => if !ok {
            Phase::BeforeFailed { idx }
        } else if idx + 1 == n {
            Phase::Shell
        } else {
            Phase::Before { idx: (idx + 1) as usize }
        },
        Phase::Shell => if n == 0 {
            Phase::Done
        } else {
            Phase::After { idx: 0 }
        },
        Phase::After { idx } => if !ok {
            Phase::AfterFailed { idx }
        } else if idx + 1 == n {
            Phase::Done
        } else {
            Phase::After { idx: (idx + 1) as usize }
        },
        _ => phase,
    }
}

/// A run in progress: the profiles, all loaded up front and kept in
/// argument order, and the current phase.  No hook of any profile can run
/// unless every profile loaded, because a session only exists once its
/// whole profile list does.
pub struct Session {
    pub profiles: Vec<RunConfig>,
    pub phase: Phase,
}

/// What the orchestration loop is to do next.
pub enum Directive<'a> {
    /// Run this command list as a hook and report whether it exited
    /// successfully; an empty list is a trivial success.
    RunHook { argv: &'a Vec<String> },
    /// Run the shell once, interactively, and wait for it to exit.
    RunShell,
    /// The whole run completed; nothing is left to do.
    Finished,
    /// The named profile's hook exited non-zero (during the `before` phase
    /// if `in_before`, else during the `after` phase).  The run stops here;
    /// the failure is reported but not escalated to a run error.
    HookFailed { in_before: bool, name: &'a String },
}

impl Session {
    /// The current phase is coherent for this profile list.
    pub open spec fn wf(self) -> bool {
        phase_wf(self.profiles@.len() as nat, self.phase)
    }

    /// Start a run over the given profiles.
    pub fn new(profiles: Vec<RunConfig>) -> (s: Session)
        ensures
            s.wf(),
            s.profiles == profiles,
            s.phase == init_phase(profiles@.len() as nat),
    {
        let phase = if profiles.len() == 0 {
            Phase::Shell
        } else {
            Phase::Before { idx: 0 }
        };
        Session { profiles, phase }
    }

    /// What the current phase asks for.
    pub fn directive(&self) -> (d: Directive<'_>)
        requires
            self.wf(),
        ensures
            self.phase matches Phase::Before { idx } ==> (d matches Directive::RunHook { argv }
                && *argv == self.profiles@[idx as int].before),
            self.phase matches Phase::After { idx } ==> (d matches Directive::RunHook { argv }
                && *argv == self.profiles@[idx as int].after),
            self.phase is Shell ==> d is RunShell,
            self.phase is Done ==> d is Finished,
            self.phase matches Phase::BeforeFailed { idx } ==> (d matches Directive::HookFailed {
                in_before,
                name,
            } && in_before && *name == self.profiles@[idx as int].name),
            self.phase matches Phase::AfterFailed { idx } ==> (d matches Directive::HookFailed {
                in_before,
                name,
            } && !in_before && *name == self.profiles@[idx as int].name),
    {
        match self.phase {
            Phase::Before { idx } => Directive::RunHook { argv: &self.profiles[idx].before },
            Phase::Shell => Directive::RunShell,
            Phase::After { idx } => Directive::RunHook { argv: &self.profiles[idx].after },
            Phase::Done => Directive::Finished,
            Phase::BeforeFailed { idx } => Directive::HookFailed {
                in_before: true,
                name: &self.profiles[idx].name,
            },
            Phase::AfterFailed { idx } => Directive::HookFailed {
                in_before: false,
                name: &self.profiles[idx].name,
            },
        }
    }

    /// Feed the pending step's outcome and move to the next phase.
    pub fn advance(&mut self, ok: bool)
        requires
            old(self).wf(),
        ensures
            final(self).wf(),
            final(self).profiles == old(self).profiles,
            final(self).phase == next_phase(old(self).profiles@.len() as nat, old(self).phase, ok),
    {
        let n: usize = self.profiles.len();
        let next = match self.phase {
            Phase::Before { idx } => if !ok {
                Phase::BeforeFailed { idx }
            } else if idx + 1 == n {
                Phase::Shell
            } else {
                Phase::Before { idx: idx + 1 }
            },
            Phase::Shell => if n == 0 {
                Phase::Done
            } else {
                Phase::After { idx: 0 }
            },
            Phase::After { idx } => if !ok {
                Phase::AfterFailed { idx }
            } else if idx + 1 == n {
                Phase::Done
            } else {
                Phase::After { idx: idx + 1 }
            },
            other => other,
        };
        self.phase = next;
    }
}

/// One observable step of a run.
pub enum RunStep {
    /// Profile `idx`'s `before` hook ran.
    BeforeHook { idx: int },
    /// The shell ran.
    ShellRun,
    /// Profile `idx`'s `after` hook ran.
    AfterHook { idx: int },
}

/// The step the pending phase performs, if any.
pub open spec fn phase_step(phase: Phase) -> Option<RunStep> {
    match phase {
        Phase::Before { idx } => Some(RunStep::BeforeHook { idx: idx as int }),
        Phase::Shell => Some(RunStep::ShellRun),
        Phase::After { idx } => Some(RunStep::AfterHook { idx: idx as int }),
        _ => None,
    }
}

/// The outcome the pending phase's step reports, drawn from the outcomes
/// of every profile's hooks: `before_ok[i]` (resp. `after_ok[i]`) says
/// whether profile `i`'s `before` (resp. `after`) hook exits zero.  The
/// shell's own status is not inspected.
pub open spec fn phase_outcome(phase: Phase, before_ok: Seq<bool>, after_ok: Seq<bool>) -> bool {
    match phase {
        Phase::Before { idx } => before_ok[idx as int],
        Phase::After { idx } => after_ok[idx as int],
        _ => true,
    }
}

/// An upper bound on the steps left in a run, for termination.
pub open spec fn phase_fuel(n: nat, phase: Phase) -> int {
    match phase {
        Phase::Before { idx } => 2 * n + 2 - idx,
        Phase::Shell => n + 1 as int,
        Phase::After { idx } => n - idx,
        _ => 0 as int,
    }
}

/// Every step a run over `n` profiles performs from `phase` on, given the
/// outcome of each profile's hooks.  Each step of this sequence is exactly
/// one `directive`/`advance` round of a `Session`.
pub open spec fn run_trace(
    n: nat,
    phase: Phase,
    before_ok: Seq<bool>,
    after_ok: Seq<bool>,
) -> Seq<RunStep>
    decreases phase_fuel(n, phase),
{
    if !(phase_wf(n, phase) && n <= usize::MAX) {
        Seq::empty()
    } else {
        match phase_step(phase) {
            None => Seq::empty(),
            Some(step) => seq![step] + run_trace(
                n,
                next_phase(n, phase, phase_outcome(phase, before_ok, after_ok)),
                before_ok,
                after_ok,
            ),
        }
    }
}

/// Law: from a pending phase, the run's trace is that phase's step followed
/// by the trace from the next phase — exactly one `directive`/`advance`
/// round of a `Session`.
pub proof fn lemma_trace_unfold(n: nat, phase: Phase, before_ok: Seq<bool>, after_ok: Seq<bool>)
    requires
        n <= usize::MAX,
        phase_wf(n, phase),
        phase_step(phase) is Some,
    ensures
        run_trace(n, phase, before_ok, after_ok) == seq![phase_step(phase)->0] + run_trace(
            n,
            next_phase(n, phase, phase_outcome(phase, before_ok, after_ok)),
            before_ok,
            after_ok,
        ),
{
}

proof fn lemma_trace_end(n: nat, phase: Phase, before_ok: Seq<bool>, after_ok: Seq<bool>)
    requires
        phase_step(phase) is None,
    ensures
        run_trace(n, phase, before_ok, after_ok) == Seq::<RunStep>::empty(),
{
}

proof fn lemma_before_fail_from(n: nat, s: int, k: int, before_ok: Seq<bool>, after_ok: Seq<bool>)
    requires
        n <= usize::MAX,
        0 <= s <= k < n,
        !before_ok[k],
        forall|i: int| s <= i < k ==> before_ok[i],
    ensures
        run_trace(n, Phase::Before { idx: s as usize }, before_ok, after_ok) == Seq::new(
            (k + 1 - s) as nat,
            |i: int| (RunStep::BeforeHook { idx: s + i }),
        ),
    decreases k - s,
{
    let t = run_trace(n, Phase::Before { idx: s as usize }, before_ok, after_ok);
    let goal = Seq::new((k + 1 - s) as nat, |i: int| (RunStep::BeforeHook { idx: s + i }));
    lemma_trace_unfold(n, Phase::Before { idx: s as usize }, before_ok, after_ok);
    if s == k {
        lemma_trace_end(n, Phase::BeforeFailed { idx: s as usize }, before_ok, after_ok);
        assert(t == seq![(RunStep::BeforeHook { idx: s })] + Seq::<RunStep>::empty());
        assert(t =~= goal);
    } else {
        assert(before_ok[s]);
        lemma_before_fail_from(n, s + 1, k, before_ok, after_ok);
        let rec = run_trace(n, Phase::Before { idx: (s + 1) as usize }, before_ok, after_ok);
        assert(t == seq![(RunStep::BeforeHook { idx: s })] + rec);
        assert(t.len() == goal.len());
        assert forall|q: int| 0 <= q < goal.len() implies t[q] == goal[q] by {
            if q > 0 {
                assert(t[q] == rec[q - 1]);
                assert(rec[q - 1] == RunStep::BeforeHook { idx: s + 1 + (q - 1) });
            }
        }
        assert(t =~= goal);
    }
}

/// Law: if profile `k`'s `before` hook is the first hook to exit non-zero,
/// the run is exactly the `before` hooks of profiles `0..=k`, in order: no
/// profile after `k` runs any hook, the shell does not run, and no `after`
/// hook of any profile runs.
pub proof fn lemma_before_failure_stops_run(
    n: nat,
    k: int,
    before_ok: Seq<bool>,
    after_ok: Seq<bool>,
)
    requires
        n <= usize::MAX,
        0 <= k < n,
        !before_ok[k],
        forall|i: int| 0 <= i < k ==> before_ok[i],
    ensures
        ({
            let t = run_trace(n, init_phase(n), before_ok, after_ok);
            &&& t == Seq::new((k + 1) as nat, |i: int| (RunStep::BeforeHook { idx: i }))
            &&& forall|j: int| 0 <= j < t.len() ==> !(#[trigger] t[j] is ShellRun)
            &&& forall|j: int| 0 <= j < t.len() ==> !(#[trigger] t[j] is AfterHook)
            &&& forall|j: int|
                0 <= j < t.len() ==> (#[trigger] t[j] matches RunStep::BeforeHook { idx } && idx
                    <= k)
        }),
{
    lemma_before_fail_from(n, 0, k, before_ok, after_ok);
    let t = run_trace(n, init_phase(n), before_ok, after_ok);
    assert(t == Seq::new((k + 1) as nat, |i: int| (RunStep::BeforeHook { idx: i })));
}

proof fn lemma_before_all_ok_from(n: nat, s: int, before_ok: Seq<bool>, after_ok: Seq<bool>)
    requires
        n <= usize::MAX,
        0 <= s < n,
        forall|i: int| s <= i < n ==> before_ok[i],
    ensures
        run_trace(n, Phase::Before { idx: s as usize }, before_ok, after_ok) == Seq::new(
            (n - s) as nat,
            |i: int| (RunStep::BeforeHook { idx: s + i }),
        ) + run_trace(n, Phase::Shell, before_ok, after_ok),
    decreases n - s,
{
    let t = run_trace(n, Phase::Before { idx: s as usize }, before_ok, after_ok);
    let goal = Seq::new((n - s) as nat, |i: int| (RunStep::BeforeHook { idx: s + i }))
        + run_trace(n, Phase::Shell, before_ok, after_ok);
    if s + 1 == n {
        assert(t =~= goal);
    } else {
        lemma_before_all_ok_from(n, s + 1, before_ok, after_ok);
        assert(t =~= goal);
    }
}

proof fn lemma_after_fail_from(n: nat, s: int, j: int, before_ok: Seq<bool>, after_ok: Seq<bool>)
    requires
        n <= usize::MAX,
        0 <= s <= j < n,
        !after_ok[j],
        forall|i: int| s <= i < j ==> after_ok[i],
    ensures
        run_trace(n, Phase::After { idx: s as usize }, before_ok, after_ok) == Seq::new(
            (j + 1 - s) as nat,
            |i: int| (RunStep::AfterHook { idx: s + i }),
        ),
    decreases j - s,
{
    let t = run_trace(n, Phase::After { idx: s as usize }, before_ok, after_ok);
    let goal = Seq::new((j + 1 - s) as nat, |i: int| (RunStep::AfterHook { idx: s + i }));
    lemma_trace_unfold(n, Phase::After { idx: s as usize }, before_ok, after_ok);
    if s == j {
        lemma_trace_end(n, Phase::AfterFailed { idx: s as usize }, before_ok, after_ok);
        assert(t == seq![(RunStep::AfterHook { idx: s })] + Seq::<RunStep>::empty());
        assert(t =~= goal);
    } else {
        assert(after_ok[s]);
        lemma_after_fail_from(n, s + 1, j, before_ok, after_ok);
        let rec = run_trace(n, Phase::After { idx: (s + 1) as usize }, before_ok, after_ok);
        assert(t == seq![(RunStep::AfterHook { idx: s })] + rec);
        assert(t.len() == goal.len());
        assert forall|q: int| 0 <= q < goal.len() implies t[q] == goal[q] by {
            if q > 0 {
                assert(t[q] == rec[q - 1]);
                assert(rec[q - 1] == RunStep::AfterHook { idx: s + 1 + (q - 1) });
            }
        }
        assert(t =~= goal);
    }
}

proof fn lemma_after_all_ok_from(n: nat, s: int, before_ok: Seq<bool>, after_ok: Seq<bool>)
    requires
        n <= usize::MAX,
        0 <= s < n,
        forall|i: int| s <= i < n ==> after_ok[i],
    ensures
        run_trace(n, Phase::After { idx: s as usize }, before_ok, after_ok) == Seq::new(
            (n - s) as nat,
            |i: int| (RunStep::AfterHook { idx: s + i }),
        ),
    decreases n - s,
{
    let t = run_trace(n, Phase::After { idx: s as usize }, before_ok, after_ok);
    let goal = Seq::new((n - s) as nat, |i: int| (RunStep::AfterHook { idx: s + i }));
    lemma_trace_unfold(n, Phase::After { idx: s as usize }, before_ok, after_ok);
    assert(after_ok[s]);
    if s + 1 == n {
        lemma_trace_end(n, Phase::Done, before_ok, after_ok);
        assert(t == seq![(RunStep::AfterHook { idx: s })] + Seq::<RunStep>::empty());
        assert(t =~= goal);
    } else {
        lemma_after_all_ok_from(n, s + 1, before_ok, after_ok);
        let rec = run_trace(n, Phase::After { idx: (s + 1) as usize }, before_ok, after_ok);
        assert(t == seq![(RunStep::AfterHook { idx: s })] + rec);
        assert(t.len() == goal.len());
        assert forall|q: int| 0 <= q < goal.len() implies t[q] == goal[q] by {
            if q > 0 {
                assert(t[q] == rec[q - 1]);
                assert(rec[q - 1] == RunStep::AfterHook { idx: s + 1 + (q - 1) });
            }
        }
        assert(t =~= goal);
    }
}

proof fn lemma_after_steps_only(n: nat, s: int, before_ok: Seq<bool>, after_ok: Seq<bool>)
    requires
        n <= usize::MAX,
        0 <= s < n,
    ensures
        forall|j: int|
            0 <= j < run_trace(n, Phase::After { idx: s as usize }, before_ok, after_ok).len()
                ==> (#[trigger] run_trace(n, Phase::After { idx: s as usize }, before_ok, after_ok)[j]
                is AfterHook),
    decreases n - s,
{
    let t = run_trace(n, Phase::After { idx: s as usize }, before_ok, after_ok);
    lemma_trace_unfold(n, Phase::After { idx: s as usize }, before_ok, after_ok);
    if !after_ok[s] {
        lemma_trace_end(n, Phase::AfterFailed { idx: s as usize }, before_ok, after_ok);
        assert(t == seq![(RunStep::AfterHook { idx: s })] + Seq::<RunStep>::empty());
        assert forall|q: int| 0 <= q < t.len() implies (#[trigger] t[q] is AfterHook) by {
            assert(t[q] == RunStep::AfterHook { idx: s });
        }
    } else if s + 1 == n {
        lemma_trace_end(n, Phase::Done, before_ok, after_ok);
        assert(t == seq![(RunStep::AfterHook { idx: s })] + Seq::<RunStep>::empty());
        assert forall|q: int| 0 <= q < t.len() implies (#[trigger] t[q] is AfterHook) by {
            assert(t[q] == RunStep::AfterHook { idx: s });
        }
    } else {
        lemma_after_steps_only(n, s + 1, before_ok, after_ok);
        let rec = run_trace(n, Phase::After { idx: (s + 1) as usize }, before_ok, after_ok);
        assert(t == seq![(RunStep::AfterHook { idx: s })] + rec);
        assert forall|q: int| 0 <= q < t.len() implies (#[trigger] t[q] is AfterHook) by {
            if q > 0 {
                assert(t[q] == rec[q - 1]);
                assert(rec[q - 1] is AfterHook);
            } else {
                assert(t[q] == RunStep::AfterHook { idx: s });
            }
        }
    }
}

/// Law: when every profile's `before` hook succeeds, the shell runs exactly
/// once — after the last `before` hook and before any `after` hook.
pub proof fn lemma_all_before_ok_shell_once(n: nat, before_ok: Seq<bool>, after_ok: Seq<bool>)
    requires
        n <= usize::MAX,
        forall|i: int| 0 <= i < n ==> before_ok[i],
    ensures
        ({
            let t = run_trace(n, init_phase(n), before_ok, after_ok);
            &&& n < t.len()
            &&& t[n as int] is ShellRun
            &&& forall|j: int| 0 <= j < n ==> (#[trigger] t[j] == RunStep::BeforeHook { idx: j })
            &&& forall|j: int| n < j < t.len() ==> (#[trigger] t[j] is AfterHook)
            &&& forall|j: int| 0 <= j < t.len() && (#[trigger] t[j] is ShellRun) ==> j == n
        }),
{
    let t = run_trace(n, init_phase(n), before_ok, after_ok);
    let shell_t = run_trace(n, Phase::Shell, before_ok, after_ok);
    let befores = Seq::new(n, |i: int| (RunStep::BeforeHook { idx: i }));
    lemma_trace_unfold(n, Phase::Shell, before_ok, after_ok);
    if n > 0 {
        lemma_before_all_ok_from(n, 0, before_ok, after_ok);
        lemma_after_steps_only(n, 0, before_ok, after_ok);
        let after_t = run_trace(n, Phase::After { idx: 0 }, before_ok, after_ok);
        assert(shell_t == seq![RunStep::ShellRun] + after_t);
        assert(t == befores + shell_t);
        assert(t.len() == n + 1 + after_t.len());
        assert forall|j: int| 0 <= j < n implies (#[trigger] t[j] == RunStep::BeforeHook {
            idx: j,
        }) by {
            assert(t[j] == befores[j]);
        }
        assert(t[n as int] == shell_t[0]);
        assert forall|j: int| n < j < t.len() implies (#[trigger] t[j] is AfterHook) by {
            assert(t[j] == shell_t[j - n]);
            assert(shell_t[j - n] == after_t[j - n - 1]);
        }
        assert forall|j: int| 0 <= j < t.len() && (#[trigger] t[j] is ShellRun) implies j == n by {
            if j < n {
                assert(t[j] == befores[j]);
            } else if j > n {
                assert(t[j] == shell_t[j - n]);
                assert(shell_t[j - n] == after_t[j - n - 1]);
            }
        }
    } else {
        lemma_trace_end(n, Phase::Done, before_ok, after_ok);
        assert(t == seq![RunStep::ShellRun] + Seq::<RunStep>::empty());
        assert(t[0] == RunStep::ShellRun);
        assert forall|j: int| 0 <= j < t.len() && (#[trigger] t[j] is ShellRun) implies j == n by {
            assert(t.len() == 1);
        }
    }
}

/// Law: when every `before` hook succeeds but profile `j`'s `after` hook is
/// the first `after` hook to exit non-zero, every `before` hook and the
/// shell did run, the `after` hooks of profiles `0..=j` ran in order, and
/// no later `after` hook ran.
pub proof fn lemma_after_failure_stops_teardown(
    n: nat,
    j: int,
    before_ok: Seq<bool>,
    after_ok: Seq<bool>,
)
    requires
        n <= usize::MAX,
        forall|i: int| 0 <= i < n ==> before_ok[i],
        0 <= j < n,
        !after_ok[j],
        forall|i: int| 0 <= i < j ==> after_ok[i],
    ensures
        run_trace(n, init_phase(n), before_ok, after_ok) == Seq::new(
            n,
            |i: int| (RunStep::BeforeHook { idx: i }),
        ) + seq![RunStep::ShellRun] + Seq::new((j + 1) as nat, |i: int| (RunStep::AfterHook { idx: i })),
{
    lemma_before_all_ok_from(n, 0, before_ok, after_ok);
    lemma_after_fail_from(n, 0, j, before_ok, after_ok);
    lemma_trace_unfold(n, Phase::Shell, before_ok, after_ok);
    let t = run_trace(n, init_phase(n), before_ok, after_ok);
    let befores = Seq::new(n, |i: int| (RunStep::BeforeHook { idx: i }));
    let afters = Seq::new((j + 1) as nat, |i: int| (RunStep::AfterHook { idx: i }));
    let goal = befores + seq![RunStep::ShellRun] + afters;
    let shell_t = run_trace(n, Phase::Shell, before_ok, after_ok);
    let after_t = run_trace(n, Phase::After { idx: 0 }, before_ok, after_ok);
    assert(shell_t == seq![RunStep::ShellRun] + after_t);
    assert(t == befores + shell_t);
    assert(t.len() == goal.len());
    assert forall|q: int| 0 <= q < goal.len() implies t[q] == goal[q] by {
        if q < n {
            assert(t[q] == befores[q]);
            assert(goal[q] == (befores + seq![RunStep::ShellRun])[q]);
        } else if q == n {
            assert(t[q] == shell_t[0]);
            assert(goal[q] == (befores + seq![RunStep::ShellRun])[q]);
        } else {
            assert(t[q] == shell_t[q - n]);
            assert(shell_t[q - n] == after_t[q - n - 1]);
            assert(goal[q] == afters[q - n - 1]);
        }
    }
    assert(t =~= goal);
}

/// Law: when every hook of every profile succeeds, the run is exactly all
/// `before` hooks in order, the shell once, and all `after` hooks in order.
pub proof fn lemma_full_run(n: nat, before_ok: Seq<bool>, after_ok: Seq<bool>)
    requires
        n <= usize::MAX,
        forall|i: int| 0 <= i < n ==> before_ok[i],
        forall|i: int| 0 <= i < n ==> after_ok[i],
    ensures
        run_trace(n, init_phase(n), before_ok, after_ok) == Seq::new(
            n,
            |i: int| (RunStep::BeforeHook { idx: i }),
        ) + seq![RunStep::ShellRun] + Seq::new(n, |i: int| (RunStep::AfterHook { idx: i })),
{
    let t = run_trace(n, init_phase(n), before_ok, after_ok);
    let befores = Seq::new(n, |i: int| (RunStep::BeforeHook { idx: i }));
    let afters = Seq::new(n, |i: int| (RunStep::AfterHook { idx: i }));
    let goal = befores + seq![RunStep::ShellRun] + afters;
    let shell_t = run_trace(n, Phase::Shell, before_ok, after_ok);
    lemma_trace_unfold(n, Phase::Shell, before_ok, after_ok);
    if n > 0 {
        lemma_before_all_ok_from(n, 0, before_ok, after_ok);
        lemma_after_all_ok_from(n, 0, before_ok, after_ok);
        let after_t = run_trace(n, Phase::After { idx: 0 }, before_ok, after_ok);
        assert(shell_t == seq![RunStep::ShellRun] + after_t);
        assert(t == befores + shell_t);
        assert(t.len() == goal.len());
        assert forall|q: int| 0 <= q < goal.len() implies t[q] == goal[q] by {
            if q < n {
                assert(t[q] == befores[q]);
                assert(goal[q] == (befores + seq![RunStep::ShellRun])[q]);
            } else if q == n {
                assert(t[q] == shell_t[0]);
                assert(goal[q] == (befores + seq![RunStep::ShellRun])[q]);
            } else {
                assert(t[q] == shell_t[q - n]);
                assert(shell_t[q - n] == after_t[q - n - 1]);
                assert(goal[q] == afters[q - n - 1]);
            }
        }
        assert(t =~= goal);
    } else {
        lemma_trace_end(n, Phase::Done, before_ok, after_ok);
        assert(t == seq![RunStep::ShellRun] + Seq::<RunStep>::empty());
        assert(t =~= goal);
    }
}

} // verus!
