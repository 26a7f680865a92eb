//! The whole batch in one place: the orchestrator together with its tasks.
//!
//! A fleet takes every report of a run, whether it concerns the driver
//! process or one of the tasks, and in whatever order the concurrent tasks
//! deliver theirs. It steps the task that a report is for, tells the
//! orchestrator when that task has ended, and answers with the actions to
//! perform. Tasks never learn of each other, and none of them can start or
//! stop the driver process.

use crate::batch::{
    batch_begin, batch_step, batch_wf, task_outcomes, Batch, BatchAction, BatchEvent,
    BatchOutcome, BatchPhase, BatchView,
};
use crate::batch_laws::lemma_step_wf;
use crate::error::ErrorKind;
use crate::task::{
    task_step, TaskAction, TaskActionView, TaskEvent, TaskEventView, TaskOutcome, TaskState,
};
use crate::timing::Checkpoint;
use vstd::prelude::*;

verus! {

/// What the caller reports of the driver process.
#[derive(Clone, Copy, Debug, PartialEq, Eq, Structural)]
pub enum DriverReport {
    Started,
    StartFailed(ErrorKind),
    Stopped,
    StopFailed,
}

/// What the caller reports to a fleet.
pub enum Report<E> {
    /// A report of the driver process.
    Driver(DriverReport),
    /// A report of a remote call of the task of this index.
    Task(usize, TaskEvent<E>),
}

/// Mathematical value of a [`Report`].
pub enum ReportView {
    Driver(DriverReport),
    Task(usize, TaskEventView),
}

impl<E> View for Report<E> {
    type V = ReportView;

    open spec fn view(&self) -> ReportView {
        match *self {
            Report::Driver(report) => ReportView::Driver(report),
            Report::Task(task, event) => ReportView::Task(task, event@),
        }
    }
}

/// What a fleet asks the caller to do.
#[derive(Debug, PartialEq, Eq)]
pub enum FleetAction {
    /// Start the driver process.
    StartDriver,
    /// Stop the driver process.
    StopDriver,
    /// Log the time elapsed since the batch began, under this checkpoint.
    LogElapsed(Checkpoint),
    /// Print a warning for this failure of the driver process.
    ReportFailure(ErrorKind),
    /// Perform this action of the task of this index, on that task's own
    /// session and clock.
    Task(usize, TaskAction),
}

/// Mathematical value of a [`FleetAction`].
pub enum FleetActionView {
    StartDriver,
    StopDriver,
    LogElapsed(Checkpoint),
    ReportFailure(ErrorKind),
    Task(usize, TaskActionView),
}

impl View for FleetAction {
    type V = FleetActionView;

    open spec fn view(&self) -> FleetActionView {
        match *self {
            FleetAction::StartDriver => FleetActionView::StartDriver,
            FleetAction::StopDriver => FleetActionView::StopDriver,
            FleetAction::LogElapsed(checkpoint) => FleetActionView::LogElapsed(checkpoint),
            FleetAction::ReportFailure(kind) => FleetActionView::ReportFailure(kind),
            FleetAction::Task(task, action) => FleetActionView::Task(task, action@),
        }
    }
}

impl DeepView for FleetAction {
    type V = FleetActionView;

    open spec fn deep_view(&self) -> FleetActionView {
        self@
    }
}

/// Mathematical value of a [`Fleet`]: the orchestrator and the state of
/// every task, by task index.
pub struct FleetView {
    pub batch: BatchView,
    pub tasks: Seq<TaskState>,
}

/// The report of the driver process as the orchestrator takes it.
pub open spec fn driver_event(report: DriverReport) -> BatchEvent {
    match report {
        DriverReport::Started => BatchEvent::DriverStarted,
        DriverReport::StartFailed(kind) => BatchEvent::DriverFailed(kind),
        DriverReport::Stopped => BatchEvent::DriverStopped,
        DriverReport::StopFailed => BatchEvent::DriverStopFailed,
    }
}

/// Whether the driver process has started, so that the tasks are under
/// way or have ended.
pub open spec fn launched(phase: BatchPhase) -> bool {
    phase == BatchPhase::Running || phase == BatchPhase::Stopping || phase == BatchPhase::Done
}

/// How a task in this state ended, if it has.
pub open spec fn outcome_of(state: TaskState) -> Option<TaskOutcome> {
    match state {
        TaskState::Finished(outcome) => Some(outcome),
        _ => None,
    }
}

/// The first action of each of `n` tasks, by task index: to open its
/// session.
pub open spec fn launch_actions(n: nat) -> Seq<FleetActionView> {
    Seq::new(n, |task: int| FleetActionView::Task(task as usize, TaskActionView::OpenSession))
}

/// One action of the orchestrator as the fleet hands it on. The launch of
/// the tasks becomes the first action of every task.
pub open spec fn driver_action(action: BatchAction) -> Seq<FleetActionView> {
    match action {
        BatchAction::StartDriver => seq![FleetActionView::StartDriver],
        BatchAction::LaunchTasks(n) => launch_actions(n as nat),
        BatchAction::StopDriver => seq![FleetActionView::StopDriver],
        BatchAction::LogElapsed(checkpoint) => seq![FleetActionView::LogElapsed(checkpoint)],
        BatchAction::ReportFailure(kind) => seq![FleetActionView::ReportFailure(kind)],
    }
}

/// The actions of the orchestrator as the fleet hands them on, in order.
pub open spec fn driver_actions(actions: Seq<BatchAction>) -> Seq<FleetActionView>
    decreases actions.len(),
{
    if actions.len() == 0 {
        Seq::empty()
    } else {
        driver_actions(actions.drop_last()) + driver_action(actions.last())
    }
}

/// The actions of one task as the fleet hands them on: each under the
/// index of the task, in order.
pub open spec fn task_actions(task: usize, actions: Seq<TaskActionView>) -> Seq<FleetActionView> {
    Seq::new(actions.len(), |i: int| FleetActionView::Task(task, actions[i]))
}

/// The state and the action a fleet of `n` tasks begins with.
pub open spec fn fleet_begin(n: nat) -> (FleetView, Seq<FleetActionView>) {
    (
        FleetView { batch: batch_begin(n).0, tasks: Seq::new(n, |task: int| TaskState::Opening) },
        driver_actions(batch_begin(n).1),
    )
}

/// The state after `report` and the actions it calls for.
///
/// A report of the driver process goes to the orchestrator. A report for
/// a task steps that task, and no other, once the tasks are launched; where
/// the step ends the task, the orchestrator learns of the outcome in the
/// same step. A report for a task before the launch, or for a task that
/// does not exist, changes nothing and calls for nothing.
pub open spec fn fleet_step(fleet: FleetView, report: ReportView) -> (
    FleetView,
    Seq<FleetActionView>,
) {
    match report {
        ReportView::Driver(report) => {
            let orchestrated = batch_step(fleet.batch, driver_event(report));
            (FleetView { batch: orchestrated.0, ..fleet }, driver_actions(orchestrated.1))
        },
        ReportView::Task(task, event) => if launched(fleet.batch.phase) && task
            < fleet.tasks.len() {
            let stepped = task_step(fleet.tasks[task as int], event);
            let tasks = fleet.tasks.update(task as int, stepped.0);
            if outcome_of(fleet.tasks[task as int]) is None && outcome_of(stepped.0) is Some {
                let orchestrated = batch_step(
                    fleet.batch,
                    BatchEvent::TaskFinished(task, outcome_of(stepped.0)->Some_0),
                );
                (
                    FleetView { batch: orchestrated.0, tasks },
                    task_actions(task, stepped.1) + driver_actions(orchestrated.1),
                )
            } else {
                (FleetView { batch: fleet.batch, tasks }, task_actions(task, stepped.1))
            }
        } else {
            (fleet, Seq::empty())
        },
    }
}

/// The states a fleet can be in: the orchestrator is in a state it can be
/// in, it holds for every task exactly the outcome that the task ended
/// with, and before the launch no task has moved.
pub open spec fn fleet_wf(fleet: FleetView) -> bool {
    &&& batch_wf(fleet.batch)
    &&& fleet.tasks.len() == fleet.batch.outcomes.len()
    &&& forall|task: int|
        0 <= task < fleet.tasks.len() ==> fleet.batch.outcomes[task] == outcome_of(
            #[trigger] fleet.tasks[task],
        )
    &&& !launched(fleet.batch.phase) ==> forall|task: int|
        0 <= task < fleet.tasks.len() ==> #[trigger] fleet.tasks[task] == TaskState::Opening
}

/// One step keeps a fleet in a state a fleet can be in, and keeps the
/// number of its tasks.
pub proof fn lemma_fleet_step_wf(fleet: FleetView, report: ReportView)
    requires
        fleet_wf(fleet),
    ensures
        fleet_wf(fleet_step(fleet, report).0),
        fleet_step(fleet, report).0.tasks.len() == fleet.tasks.len(),
{
    let next = fleet_step(fleet, report).0;
    match report {
        ReportView::Driver(report) => {
            lemma_step_wf(fleet.batch, driver_event(report));
            assert forall|task: int| 0 <= task < next.tasks.len() implies next.batch.outcomes[task]
                == outcome_of(#[trigger] next.tasks[task]) by {
                assert(fleet.batch.outcomes[task] == outcome_of(fleet.tasks[task]));
            }
        },
        ReportView::Task(task, event) => {
            if launched(fleet.batch.phase) && task < fleet.tasks.len() {
                let stepped = task_step(fleet.tasks[task as int], event);
                assert(fleet.batch.outcomes[task as int] == outcome_of(fleet.tasks[task as int]));
                if outcome_of(fleet.tasks[task as int]) is None && outcome_of(stepped.0) is Some {
                    let finished = BatchEvent::TaskFinished(task, outcome_of(stepped.0)->Some_0);
                    lemma_step_wf(fleet.batch, finished);
                    assert(fleet.batch.phase == BatchPhase::Running);
                }
                assert forall|other: int|
                    0 <= other < next.tasks.len() implies next.batch.outcomes[other] == outcome_of(
                    #[trigger] next.tasks[other],
                ) by {
                    assert(fleet.batch.outcomes[other] == outcome_of(fleet.tasks[other]));
                }
            }
        },
    }
}

fn push_launch_actions(out: &mut Vec<FleetAction>, n: usize)
    ensures
        final(out).deep_view() == old(out).deep_view() + launch_actions(n as nat),
{
    let ghost before = out.deep_view();
    let mut task: usize = 0;
    assert(out.deep_view() =~= before + launch_actions(0));
    while task < n
        invariant
            task <= n,
            out.deep_view() == before + launch_actions(task as nat),
        decreases n - task,
    {
        let ghost so_far = out.deep_view();
        out.push(FleetAction::Task(task, TaskAction::OpenSession));
        assert(out.deep_view() =~= so_far.push(
            FleetActionView::Task(task, TaskActionView::OpenSession),
        ));
        task += 1;
        assert(launch_actions(task as nat) =~= launch_actions((task - 1) as nat).push(
            FleetActionView::Task((task - 1) as usize, TaskActionView::OpenSession),
        ));
        assert(out.deep_view() =~= before + launch_actions(task as nat));
    }
}

fn push_driver_actions(out: &mut Vec<FleetAction>, actions: &Vec<BatchAction>)
    ensures
        final(out).deep_view() == old(out).deep_view() + driver_actions(actions@),
{
    let ghost before = out.deep_view();
    let mut i: usize = 0;
    assert(actions@.take(0) =~= Seq::empty());
    assert(out.deep_view() =~= before + driver_actions(actions@.take(0)));
    while i < actions.len()
        invariant
            i <= actions.len(),
            out.deep_view() == before + driver_actions(actions@.take(i as int)),
        decreases actions.len() - i,
    {
        let ghost so_far = out.deep_view();
        assert(actions@.take(i + 1).drop_last() =~= actions@.take(i as int));
        assert(actions@.take(i + 1).last() == actions@[i as int]);
        match actions[i] {
            BatchAction::StartDriver => out.push(FleetAction::StartDriver),
            BatchAction::LaunchTasks(n) => push_launch_actions(out, n),
            BatchAction::StopDriver => out.push(FleetAction::StopDriver),
            BatchAction::LogElapsed(checkpoint) => out.push(FleetAction::LogElapsed(checkpoint)),
            BatchAction::ReportFailure(kind) => out.push(FleetAction::ReportFailure(kind)),
        }
        assert(out.deep_view() =~= so_far + driver_action(actions@[i as int]));
        i += 1;
        assert(out.deep_view() =~= before + driver_actions(actions@.take(i as int)));
    }
    assert(actions@.take(i as int) =~= actions@);
}

fn wrap_task_actions(task: usize, actions: Vec<TaskAction>) -> (out: Vec<FleetAction>)
    ensures
        out.deep_view() == task_actions(task, actions.deep_view()),
{
    let ghost all = actions.deep_view();
    let mut out: Vec<FleetAction> = Vec::new();
    for action in it: actions.into_iter()
        invariant
            it.seq().len() == all.len(),
            forall|i: int| 0 <= i < all.len() ==> (#[trigger] it.seq()[i])@ == all[i],
            out.len() == it.index(),
            forall|i: int|
                0 <= i < out.len() ==> (#[trigger] out[i])@ == FleetActionView::Task(task, all[i]),
    {
        out.push(FleetAction::Task(task, action));
    }
    assert(out.deep_view() =~= task_actions(task, all));
    out
}

/// The orchestrator of one batch together with its tasks.
pub struct Fleet {
    batch: Batch,
    tasks: Vec<TaskState>,
}

impl View for Fleet {
    type V = FleetView;

    closed spec fn view(&self) -> FleetView {
        FleetView { batch: self.batch@, tasks: self.tasks@ }
    }
}

impl Fleet {
    #[verifier::type_invariant]
    spec fn inv(&self) -> bool {
        fleet_wf(self@)
    }

    /// A fleet of `concurrency` tasks and its first action: to start the
    /// driver process.
    pub fn begin(concurrency: usize) -> (step: (Fleet, Vec<FleetAction>))
        ensures
            step.0@ == fleet_begin(concurrency as nat).0,
            step.1.deep_view() == fleet_begin(concurrency as nat).1,
            fleet_wf(step.0@),
    {
        let (batch, first) = Batch::begin(concurrency);
        let mut tasks: Vec<TaskState> = Vec::new();
        let mut task: usize = 0;
        while task < concurrency
            invariant
                task <= concurrency,
                tasks@ == Seq::new(task as nat, |i: int| TaskState::Opening),
            decreases concurrency - task,
        {
            tasks.push(TaskState::Opening);
            task += 1;
            assert(tasks@ =~= Seq::new(task as nat, |i: int| TaskState::Opening));
        }
        let mut actions: Vec<FleetAction> = Vec::new();
        push_driver_actions(&mut actions, &first);
        assert(actions.deep_view() =~= fleet_begin(concurrency as nat).1);
        (Fleet { batch, tasks }, actions)
    }

    /// Takes a report of the caller and answers with the next state and
    /// the actions to perform, in order.
    pub fn step<E>(self, report: Report<E>) -> (step: (Fleet, Vec<FleetAction>))
        ensures
            step.0@ == fleet_step(self@, report@).0,
            step.1.deep_view() == fleet_step(self@, report@).1,
            fleet_wf(self@),
            fleet_wf(step.0@),
    {
        proof {
            use_type_invariant(&self);
            lemma_fleet_step_wf(self@, report@);
        }
        let Fleet { batch, tasks } = self;
        let mut tasks = tasks;
        match report {
            Report::Driver(report) => {
                let event = match report {
                    DriverReport::Started => BatchEvent::DriverStarted,
                    DriverReport::StartFailed(kind) => BatchEvent::DriverFailed(kind),
                    DriverReport::Stopped => BatchEvent::DriverStopped,
                    DriverReport::StopFailed => BatchEvent::DriverStopFailed,
                };
                let (batch, orchestrated) = batch.step(event);
                let mut actions: Vec<FleetAction> = Vec::new();
                push_driver_actions(&mut actions, &orchestrated);
                assert(actions.deep_view() =~= driver_actions(orchestrated@));
                (Fleet { batch, tasks }, actions)
            },
            Report::Task(task, event) => {
                let underway = match batch.phase() {
                    BatchPhase::Running | BatchPhase::Stopping | BatchPhase::Done => true,
                    _ => false,
                };
                if underway && task < tasks.len() {
                    let before = tasks[task];
                    let (after, stepped) = before.step(event);
                    tasks.set(task, after);
                    let mut actions = wrap_task_actions(task, stepped);
                    match (before.outcome(), after.outcome()) {
                        (None, Some(outcome)) => {
                            let (batch, orchestrated) = batch.step(
                                BatchEvent::TaskFinished(task, outcome),
                            );
                            push_driver_actions(&mut actions, &orchestrated);
                            (Fleet { batch, tasks }, actions)
                        },
                        _ => (Fleet { batch, tasks }, actions),
                    }
                } else {
                    let actions: Vec<FleetAction> = Vec::new();
                    assert(actions.deep_view() =~= Seq::<FleetActionView>::empty());
                    (Fleet { batch, tasks }, actions)
                }
            },
        }
    }

    /// The phase the batch is in.
    pub fn phase(&self) -> (phase: BatchPhase)
        ensures
            phase == self@.batch.phase,
    {
        self.batch.phase()
    }

    /// The state of the task of index `task`, if there is such a task.
    pub fn task(&self, task: usize) -> (state: Option<TaskState>)
        ensures
            state == if task < self@.tasks.len() {
                Some(self@.tasks[task as int])
            } else {
                None
            },
    {
        if task < self.tasks.len() {
            Some(self.tasks[task])
        } else {
            None
        }
    }

    /// How the batch ended, once it has: the outcome of every task in the
    /// order of the task indices for a complete batch, the failure of the
    /// driver for an aborted one.
    pub fn outcome(&self) -> (outcome: Option<BatchOutcome>)
        ensures
            match self@.batch.phase {
                BatchPhase::Done => outcome matches Some(BatchOutcome::Completed(pairs))
                    && pairs@ == task_outcomes(self@.batch.outcomes),
                BatchPhase::Aborted(kind) => outcome matches Some(BatchOutcome::Aborted(failure))
                    && failure == kind,
                _ => outcome is None,
            },
    {
        self.batch.outcome()
    }
}

} // verus!
