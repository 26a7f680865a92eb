//! The batch orchestrator: one driver process, many concurrent tasks.
//!
//! The orchestrator alone may start and stop the driver process. It starts
//! it once, launches the tasks, records how each one ended, and asks for the
//! stop when the last task has ended, however the tasks fared. The caller
//! performs the actions and reports what came of them.

use crate::error::ErrorKind;
use crate::task::TaskOutcome;
use crate::timing::Checkpoint;
use vstd::prelude::*;

verus! {

/// Where a batch stands.
#[derive(Clone, Copy, Debug, PartialEq, Eq, Structural)]
pub enum BatchPhase {
    /// Waiting for the driver process to start.
    Starting,
    /// The tasks run; at least one has not ended.
    Running,
    /// Every task has ended; waiting for the driver process to stop.
    Stopping,
    /// The batch is complete.
    Done,
    /// The driver process could not be started; no task was attempted.
    Aborted(ErrorKind),
}

/// What the caller reports to the orchestrator.
#[derive(Clone, Copy, Debug, PartialEq, Eq)]
pub enum BatchEvent {
    DriverStarted,
    DriverFailed(ErrorKind),
    /// The task of this index has ended with this outcome.
    TaskFinished(usize, TaskOutcome),
    DriverStopped,
    DriverStopFailed,
}

/// What the orchestrator asks the caller to do.
#[derive(Clone, Copy, Debug, PartialEq, Eq, Structural)]
pub enum BatchAction {
    /// Start the driver process.
    StartDriver,
    /// Launch this many tasks, all at once, under the indices from zero.
    LaunchTasks(usize),
    /// Stop the driver process.
    StopDriver,
    /// Log the time elapsed since the batch began, under this checkpoint.
    LogElapsed(Checkpoint),
    /// Print a warning for this failure.
    ReportFailure(ErrorKind),
}

/// Mathematical value of a [`Batch`]: its phase and, for each task index,
/// how the task ended, if it has.
pub struct BatchView {
    pub phase: BatchPhase,
    pub outcomes: Seq<Option<TaskOutcome>>,
}

/// How a batch ended: the outcome of every task in the order of the task
/// indices, or the failure that kept the driver from starting.
#[derive(Debug, PartialEq, Eq)]
pub enum BatchOutcome {
    Completed(Vec<(usize, TaskOutcome)>),
    Aborted(ErrorKind),
}

/// Whether every task has ended.
pub open spec fn all_finished(outcomes: Seq<Option<TaskOutcome>>) -> bool {
    forall|i: int| 0 <= i < outcomes.len() ==> (#[trigger] outcomes[i]) is Some
}

/// The number of tasks that have not ended.
spec fn unfinished(outcomes: Seq<Option<TaskOutcome>>) -> nat
    decreases outcomes.len(),
{
    if outcomes.len() == 0 {
        0
    } else {
        unfinished(outcomes.drop_last()) + if outcomes.last() is None {
            1nat
        } else {
            0nat
        }
    }
}

/// The outcome of every task, each under its index, in the order of the
/// indices. It is meant for outcomes of which none is missing.
pub open spec fn task_outcomes(outcomes: Seq<Option<TaskOutcome>>) -> Seq<(usize, TaskOutcome)> {
    Seq::new(outcomes.len(), |i: int| (i as usize, outcomes[i]->Some_0))
}

/// The outcomes of a batch of `n` tasks none of which has ended.
pub open spec fn no_outcomes(n: nat) -> Seq<Option<TaskOutcome>> {
    Seq::new(n, |i: int| None::<TaskOutcome>)
}

/// The state and the action a batch of `n` tasks begins with.
pub open spec fn batch_begin(n: nat) -> (BatchView, Seq<BatchAction>) {
    (
        BatchView { phase: BatchPhase::Starting, outcomes: no_outcomes(n) },
        seq![BatchAction::StartDriver],
    )
}

/// The state after `event` and the actions it calls for.
///
/// A started driver launches the tasks, or is stopped at once where there
/// is no task. A driver that fails to start aborts the batch. The end of a
/// task is recorded under its index; the end of the last one calls for the
/// stop. The report of the stop completes the batch, with a warning where
/// the stop failed. Any other event, such as a second report for one task,
/// changes nothing and calls for nothing.
pub open spec fn batch_step(state: BatchView, event: BatchEvent) -> (BatchView, Seq<BatchAction>) {
    match (state.phase, event) {
        (BatchPhase::Starting, BatchEvent::DriverStarted) => if state.outcomes.len() == 0 {
            (BatchView { phase: BatchPhase::Stopping, ..state }, seq![BatchAction::StopDriver])
        } else {
            (
                BatchView { phase: BatchPhase::Running, ..state },
                seq![BatchAction::LaunchTasks(state.outcomes.len() as usize)],
            )
        },
        (BatchPhase::Starting, BatchEvent::DriverFailed(kind)) => (
            BatchView { phase: BatchPhase::Aborted(kind), ..state },
            Seq::empty(),
        ),
        (BatchPhase::Running, BatchEvent::TaskFinished(task, outcome)) => if task
            < state.outcomes.len() && state.outcomes[task as int] is None {
            let outcomes = state.outcomes.update(task as int, Some(outcome));
            if all_finished(outcomes) {
                (BatchView { phase: BatchPhase::Stopping, outcomes }, seq![BatchAction::StopDriver])
            } else {
                (BatchView { phase: BatchPhase::Running, outcomes }, Seq::empty())
            }
        } else {
            (state, Seq::empty())
        },
        (BatchPhase::Stopping, BatchEvent::DriverStopped) => (
            BatchView { phase: BatchPhase::Done, ..state },
            seq![BatchAction::LogElapsed(Checkpoint::BatchEnd)],
        ),
        (BatchPhase::Stopping, BatchEvent::DriverStopFailed) => (
            BatchView { phase: BatchPhase::Done, ..state },
            seq![
                BatchAction::ReportFailure(ErrorKind::TerminationError),
                BatchAction::LogElapsed(Checkpoint::BatchEnd),
            ],
        ),
        _ => (state, Seq::empty()),
    }
}

/// The states a batch can be in: the tasks of a batch that waits for its
/// driver, or was aborted, have not ended; a running batch has a task that
/// has not ended; a stopping or complete batch has none.
pub open spec fn batch_wf(state: BatchView) -> bool {
    match state.phase {
        BatchPhase::Starting | BatchPhase::Aborted(_) => state.outcomes == no_outcomes(
            state.outcomes.len(),
        ),
        BatchPhase::Running => !all_finished(state.outcomes),
        BatchPhase::Stopping | BatchPhase::Done => all_finished(state.outcomes),
    }
}

/// No task is unfinished exactly when every task has ended.
proof fn lemma_unfinished_none(outcomes: Seq<Option<TaskOutcome>>)
    ensures
        unfinished(outcomes) == 0 <==> all_finished(outcomes),
        unfinished(outcomes) <= outcomes.len(),
    decreases outcomes.len(),
{
    if outcomes.len() > 0 {
        let head = outcomes.drop_last();
        lemma_unfinished_none(head);
        if all_finished(outcomes) {
            assert forall|i: int| 0 <= i < head.len() implies (#[trigger] head[i]) is Some by {
                assert(outcomes[i] is Some);
            }
            assert(outcomes[outcomes.len() - 1] is Some);
        }
        if unfinished(outcomes) == 0 {
            assert forall|i: int| 0 <= i < outcomes.len() implies (#[trigger] outcomes[i])
                is Some by {
                if i < head.len() {
                    assert(head[i] is Some);
                }
            }
        }
    }
}

/// Recording the end of a task that had not ended leaves one unfinished
/// task fewer.
proof fn lemma_unfinished_recorded(
    outcomes: Seq<Option<TaskOutcome>>,
    task: int,
    outcome: TaskOutcome,
)
    requires
        0 <= task < outcomes.len(),
        outcomes[task] is None,
    ensures
        unfinished(outcomes.update(task, Some(outcome))) == unfinished(outcomes) - 1,
    decreases outcomes.len(),
{
    let recorded = outcomes.update(task, Some(outcome));
    if task == outcomes.len() - 1 {
        assert(recorded.drop_last() =~= outcomes.drop_last());
    } else {
        lemma_unfinished_recorded(outcomes.drop_last(), task, outcome);
        assert(recorded.drop_last() =~= outcomes.drop_last().update(task, Some(outcome)));
    }
}

/// Of `n` tasks none of which has ended, `n` are unfinished.
proof fn lemma_unfinished_fresh(n: nat)
    ensures
        unfinished(no_outcomes(n)) == n,
    decreases n,
{
    if n > 0 {
        lemma_unfinished_fresh((n - 1) as nat);
        assert(no_outcomes(n).drop_last() =~= no_outcomes((n - 1) as nat));
    }
}

/// The orchestrator of one batch.
pub struct Batch {
    phase: BatchPhase,
    outcomes: Vec<Option<TaskOutcome>>,
    pending: usize,
}

impl View for Batch {
    type V = BatchView;

    closed spec fn view(&self) -> BatchView {
        BatchView { phase: self.phase, outcomes: self.outcomes@ }
    }
}

impl Batch {
    #[verifier::type_invariant]
    spec fn inv(&self) -> bool {
        &&& self.pending == unfinished(self.outcomes@)
        &&& batch_wf(self@)
    }

    /// A batch of `concurrency` tasks and its first action: to start the
    /// driver process.
    pub fn begin(concurrency: usize) -> (step: (Batch, Vec<BatchAction>))
        ensures
            step.0@ == batch_begin(concurrency as nat).0,
            step.1@ == batch_begin(concurrency as nat).1,
            batch_wf(step.0@),
    {
        let mut outcomes: Vec<Option<TaskOutcome>> = Vec::new();
        let mut i: usize = 0;
        while i < concurrency
            invariant
                i <= concurrency,
                outcomes@ == no_outcomes(i as nat),
            decreases concurrency - i,
        {
            outcomes.push(None);
            i += 1;
            assert(outcomes@ =~= no_outcomes(i as nat));
        }
        proof {
            lemma_unfinished_fresh(concurrency as nat);
        }
        let mut actions: Vec<BatchAction> = Vec::new();
        actions.push(BatchAction::StartDriver);
        assert(actions@ =~= batch_begin(concurrency as nat).1);
        (Batch { phase: BatchPhase::Starting, outcomes, pending: concurrency }, actions)
    }

    /// Takes a report of the caller and answers with the next state and
    /// the actions to perform, in order.
    pub fn step(self, event: BatchEvent) -> (step: (Batch, Vec<BatchAction>))
        ensures
            step.0@ == batch_step(self@, event).0,
            step.1@ == batch_step(self@, event).1,
            batch_wf(self@),
            batch_wf(step.0@),
    {
        proof {
            use_type_invariant(&self);
            lemma_unfinished_none(self.outcomes@);
        }
        let mut actions: Vec<BatchAction> = Vec::new();
        let Batch { phase, outcomes, pending } = self;
        let mut outcomes = outcomes;
        match (phase, event) {
            (BatchPhase::Starting, BatchEvent::DriverStarted) => {
                if outcomes.len() == 0 {
                    actions.push(BatchAction::StopDriver);
                    assert(actions@ =~= batch_step(self@, event).1);
                    (Batch { phase: BatchPhase::Stopping, outcomes, pending }, actions)
                } else {
                    actions.push(BatchAction::LaunchTasks(outcomes.len()));
                    assert(actions@ =~= batch_step(self@, event).1);
                    assert(outcomes@[0] is None);
                    (Batch { phase: BatchPhase::Running, outcomes, pending }, actions)
                }
            },
            (BatchPhase::Starting, BatchEvent::DriverFailed(kind)) => {
                assert(actions@ =~= batch_step(self@, event).1);
                (Batch { phase: BatchPhase::Aborted(kind), outcomes, pending }, actions)
            },
            (BatchPhase::Running, BatchEvent::TaskFinished(task, outcome)) => {
                if task < outcomes.len() && outcomes[task].is_none() {
                    proof {
                        lemma_unfinished_recorded(outcomes@, task as int, outcome);
                        lemma_unfinished_none(outcomes@.update(task as int, Some(outcome)));
                    }
                    outcomes.set(task, Some(outcome));
                    let pending = pending - 1;
                    if pending == 0 {
                        actions.push(BatchAction::StopDriver);
                        assert(actions@ =~= batch_step(self@, event).1);
                        (Batch { phase: BatchPhase::Stopping, outcomes, pending }, actions)
                    } else {
                        assert(actions@ =~= batch_step(self@, event).1);
                        (Batch { phase: BatchPhase::Running, outcomes, pending }, actions)
                    }
                } else {
                    assert(actions@ =~= batch_step(self@, event).1);
                    (Batch { phase, outcomes, pending }, actions)
                }
            },
            (BatchPhase::Stopping, BatchEvent::DriverStopped) => {
                actions.push(BatchAction::LogElapsed(Checkpoint::BatchEnd));
                assert(actions@ =~= batch_step(self@, event).1);
                (Batch { phase: BatchPhase::Done, outcomes, pending }, actions)
            },
            (BatchPhase::Stopping, BatchEvent::DriverStopFailed) => {
                actions.push(BatchAction::ReportFailure(ErrorKind::TerminationError));
                actions.push(BatchAction::LogElapsed(Checkpoint::BatchEnd));
                assert(actions@ =~= batch_step(self@, event).1);
                (Batch { phase: BatchPhase::Done, outcomes, pending }, actions)
            },
            _ => {
                assert(actions@ =~= batch_step(self@, event).1);
                (Batch { phase, outcomes, pending }, actions)
            },
        }
    }

    /// How the batch ended, once it has: the outcome of every task in the
    /// order of the task indices for a complete batch, the failure of the
    /// driver for an aborted one.
    pub fn outcome(&self) -> (outcome: Option<BatchOutcome>)
        ensures
            match self@.phase {
                BatchPhase::Done => outcome matches Some(BatchOutcome::Completed(pairs))
                    && pairs@ == task_outcomes(self@.outcomes),
                BatchPhase::Aborted(kind) => outcome matches Some(BatchOutcome::Aborted(failure))
                    && failure == kind,
                _ => outcome is None,
            },
    {
        proof {
            use_type_invariant(self);
        }
        match self.phase {
            BatchPhase::Done => {
                let mut pairs: Vec<(usize, TaskOutcome)> = Vec::new();
                let mut i: usize = 0;
                while i < self.outcomes.len()
                    invariant
                        i <= self.outcomes.len(),
                        all_finished(self.outcomes@),
                        pairs@ == task_outcomes(self.outcomes@.take(i as int)),
                    decreases self.outcomes.len() - i,
                {
                    match self.outcomes[i] {
                        Some(outcome) => {
                            pairs.push((i, outcome));
                        },
                        None => {},
                    }
                    i += 1;
                    assert(pairs@ =~= task_outcomes(self.outcomes@.take(i as int)));
                }
                assert(self.outcomes@.take(i as int) =~= self.outcomes@);
                Some(BatchOutcome::Completed(pairs))
            },
            BatchPhase::Aborted(kind) => Some(BatchOutcome::Aborted(kind)),
            _ => None,
        }
    }

    /// The phase the batch is in.
    pub fn phase(&self) -> (phase: BatchPhase)
        ensures
            phase == self@.phase,
    {
        self.phase
    }

    /// The number of tasks of the batch.
    pub fn concurrency(&self) -> (n: usize)
        ensures
            n == self@.outcomes.len(),
    {
        self.outcomes.len()
    }
}

} // verus!
