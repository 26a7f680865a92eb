//! What holds of every run of a batch, whatever the caller reports and in
//! whatever order.

use crate::batch::{
    all_finished, batch_begin, batch_step, batch_wf, no_outcomes, BatchAction, BatchEvent,
    BatchPhase, BatchView,
};
use crate::task::TaskOutcome;
use vstd::prelude::*;

verus! {

/// A run of a batch of `n` tasks: the state after the caller has reported
/// `events` one by one, and every action asked for so far, in order.
pub open spec fn batch_run(n: nat, events: Seq<BatchEvent>) -> (BatchView, Seq<BatchAction>)
    decreases events.len(),
{
    if events.len() == 0 {
        batch_begin(n)
    } else {
        let before = batch_run(n, events.drop_last());
        let step = batch_step(before.0, events.last());
        (step.0, before.1 + step.1)
    }
}

/// How often `action` occurs among `actions`.
pub open spec fn occurrences(actions: Seq<BatchAction>, action: BatchAction) -> nat
    decreases actions.len(),
{
    if actions.len() == 0 {
        0
    } else {
        occurrences(actions.drop_last(), action) + if actions.last() == action {
            1nat
        } else {
            0nat
        }
    }
}

/// Whether the driver process is being stopped or has been.
pub open spec fn stop_requested(phase: BatchPhase) -> bool {
    phase == BatchPhase::Stopping || phase == BatchPhase::Done
}

/// Whether the tasks have been launched.
pub open spec fn tasks_launched(state: BatchView) -> bool {
    state.outcomes.len() > 0 && (state.phase == BatchPhase::Running || stop_requested(state.phase))
}

/// `events` with the outcome of every report on `task` replaced by
/// `outcome`.
pub open spec fn with_outcome(events: Seq<BatchEvent>, task: usize, outcome: TaskOutcome) -> Seq<
    BatchEvent,
> {
    Seq::new(
        events.len(),
        |i: int|
            match events[i] {
                BatchEvent::TaskFinished(t, _) if t == task => BatchEvent::TaskFinished(t, outcome),
                event => event,
            },
    )
}

proof fn lemma_occurrences_concat(
    first: Seq<BatchAction>,
    second: Seq<BatchAction>,
    action: BatchAction,
)
    ensures
        occurrences(first + second, action) == occurrences(first, action) + occurrences(
            second,
            action,
        ),
    decreases second.len(),
{
    if second.len() == 0 {
        assert(first + second =~= first);
    } else {
        lemma_occurrences_concat(first, second.drop_last(), action);
        assert((first + second).drop_last() =~= first + second.drop_last());
    }
}

proof fn lemma_occurrences_short(actions: Seq<BatchAction>, action: BatchAction)
    requires
        actions.len() <= 2,
    ensures
        occurrences(actions, action) == (if actions.len() >= 1 && actions[0] == action {
            1nat
        } else {
            0nat
        }) + (if actions.len() == 2 && actions[1] == action {
            1nat
        } else {
            0nat
        }),
{
    reveal_with_fuel(occurrences, 3);
    if actions.len() == 2 {
        assert(actions.drop_last().drop_last().len() == 0);
    }
}

/// One step keeps a batch in a state a batch can be in, and keeps the
/// number of its tasks.
pub proof fn lemma_step_wf(state: BatchView, event: BatchEvent)
    requires
        batch_wf(state),
    ensures
        batch_wf(batch_step(state, event).0),
        batch_step(state, event).0.outcomes.len() == state.outcomes.len(),
{
    let next = batch_step(state, event).0;
    if state.phase == BatchPhase::Starting && event is DriverStarted && state.outcomes.len() > 0 {
        assert(state.outcomes[0] is None);
    }
}

/// The end of a task touches the record of that task alone, and a recorded
/// outcome stays as it was recorded: the first report on a task stands.
pub proof fn lemma_step_isolated(state: BatchView, event: BatchEvent, other: int)
    requires
        0 <= other < state.outcomes.len(),
    ensures
        state.outcomes[other] is Some ==> batch_step(state, event).0.outcomes[other]
            == state.outcomes[other],
        !(event matches BatchEvent::TaskFinished(task, _) && task == other) ==> batch_step(
            state,
            event,
        ).0.outcomes[other] == state.outcomes[other],
{
}

/// Single process lifecycle. In every run the driver process is asked to
/// start exactly once, at the beginning. It is asked to stop at most once:
/// once in a run that has reached the stop, never before. The tasks are
/// launched at most once, and only after the driver has started.
pub proof fn lemma_single_lifecycle(n: nat, events: Seq<BatchEvent>)
    ensures
        batch_wf(batch_run(n, events).0),
        batch_run(n, events).0.outcomes.len() == n,
        occurrences(batch_run(n, events).1, BatchAction::StartDriver) == 1,
        occurrences(batch_run(n, events).1, BatchAction::StopDriver) == (if stop_requested(
            batch_run(n, events).0.phase,
        ) {
            1nat
        } else {
            0nat
        }),
        occurrences(batch_run(n, events).1, BatchAction::LaunchTasks(n as usize)) == (
        if tasks_launched(batch_run(n, events).0) {
            1nat
        } else {
            0nat
        }),
    decreases events.len(),
{
    let start = BatchAction::StartDriver;
    let stop = BatchAction::StopDriver;
    let launch = BatchAction::LaunchTasks(n as usize);
    if events.len() == 0 {
        lemma_occurrences_short(batch_begin(n).1, start);
        lemma_occurrences_short(batch_begin(n).1, stop);
        lemma_occurrences_short(batch_begin(n).1, launch);
    } else {
        lemma_single_lifecycle(n, events.drop_last());
        let before = batch_run(n, events.drop_last());
        let step = batch_step(before.0, events.last());
        lemma_step_wf(before.0, events.last());
        lemma_occurrences_concat(before.1, step.1, start);
        lemma_occurrences_concat(before.1, step.1, stop);
        lemma_occurrences_concat(before.1, step.1, launch);
        lemma_occurrences_short(step.1, start);
        lemma_occurrences_short(step.1, stop);
        lemma_occurrences_short(step.1, launch);
    }
}

/// A complete run has started the driver process exactly once and stopped
/// it exactly once, however many tasks it had and however they ended.
pub proof fn lemma_complete_run_lifecycle(n: nat, events: Seq<BatchEvent>)
    requires
        batch_run(n, events).0.phase == BatchPhase::Done,
    ensures
        occurrences(batch_run(n, events).1, BatchAction::StartDriver) == 1,
        occurrences(batch_run(n, events).1, BatchAction::StopDriver) == 1,
{
    lemma_single_lifecycle(n, events);
}

/// A run whose driver failed to start attempts no task and never asks for
/// a stop.
pub proof fn lemma_aborted_run(n: nat, events: Seq<BatchEvent>)
    requires
        batch_run(n, events).0.phase is Aborted,
    ensures
        batch_run(n, events).0.outcomes == no_outcomes(n),
        occurrences(batch_run(n, events).1, BatchAction::LaunchTasks(n as usize)) == 0,
        occurrences(batch_run(n, events).1, BatchAction::StopDriver) == 0,
{
    lemma_single_lifecycle(n, events);
}

/// Barrier. At every point of a run at which the stop of the driver
/// process has been asked for, every task has ended; and as long as the
/// tasks run, it has not been asked for.
pub proof fn lemma_barrier(n: nat, events: Seq<BatchEvent>)
    ensures
        forall|k: int|
            0 <= k <= events.len() && occurrences(
                batch_run(n, #[trigger] events.take(k)).1,
                BatchAction::StopDriver,
            ) > 0 ==> all_finished(batch_run(n, events.take(k)).0.outcomes),
        forall|k: int|
            0 <= k <= events.len() && batch_run(n, #[trigger] events.take(k)).0.phase
                == BatchPhase::Running ==> occurrences(
                batch_run(n, events.take(k)).1,
                BatchAction::StopDriver,
            ) == 0 && !all_finished(batch_run(n, events.take(k)).0.outcomes),
{
    assert forall|k: int| 0 <= k <= events.len() implies (occurrences(
        batch_run(n, #[trigger] events.take(k)).1,
        BatchAction::StopDriver,
    ) > 0 ==> all_finished(batch_run(n, events.take(k)).0.outcomes)) && (batch_run(
        n,
        events.take(k),
    ).0.phase == BatchPhase::Running ==> occurrences(
        batch_run(n, events.take(k)).1,
        BatchAction::StopDriver,
    ) == 0 && !all_finished(batch_run(n, events.take(k)).0.outcomes)) by {
        lemma_single_lifecycle(n, events.take(k));
    }
}

/// The stop of the driver process is asked for by the step that records
/// the end of the last task, or by the start of a driver that has no task
/// to serve, and by no other.
pub proof fn lemma_stop_follows_last_task(state: BatchView, event: BatchEvent)
    requires
        batch_wf(state),
        batch_step(state, event).1.contains(BatchAction::StopDriver),
    ensures
        all_finished(batch_step(state, event).0.outcomes),
        !stop_requested(state.phase),
        state.outcomes.len() > 0 ==> event is TaskFinished && !all_finished(state.outcomes),
{
    let actions = batch_step(state, event).1;
    let i = choose|i: int| 0 <= i < actions.len() && actions[i] == BatchAction::StopDriver;
    assert(actions[i] == BatchAction::StopDriver);
}

/// Isolation. However one task ends, the run of the others is the same:
/// replace the outcome in every report on `task` by any other, and the
/// batch asks for the same actions at the same points, is in the same
/// phase, and holds the same record for every other task.
pub proof fn lemma_isolation(n: nat, events: Seq<BatchEvent>, task: usize, outcome: TaskOutcome)
    ensures
        batch_run(n, with_outcome(events, task, outcome)).1 == batch_run(n, events).1,
        batch_run(n, with_outcome(events, task, outcome)).0.phase == batch_run(n, events).0.phase,
        batch_run(n, with_outcome(events, task, outcome)).0.outcomes.len() == n,
        batch_run(n, events).0.outcomes.len() == n,
        forall|other: int|
            0 <= other < n && other != task ==> batch_run(
                n,
                with_outcome(events, task, outcome),
            ).0.outcomes[other] == #[trigger] batch_run(n, events).0.outcomes[other],
        forall|other: int|
            0 <= other < n ==> (batch_run(n, with_outcome(events, task, outcome)).0.outcomes[other]
                is Some <==> (#[trigger] batch_run(n, events).0.outcomes[other]) is Some),
    decreases events.len(),
{
    let changed = with_outcome(events, task, outcome);
    if events.len() > 0 {
        lemma_isolation(n, events.drop_last(), task, outcome);
        assert(changed.drop_last() =~= with_outcome(events.drop_last(), task, outcome));
        let a = batch_run(n, events.drop_last()).0;
        let b = batch_run(n, changed.drop_last()).0;
        let ea = events.last();
        let eb = changed.last();
        let a2 = batch_step(a, ea).0;
        let b2 = batch_step(b, eb).0;
        if a.phase == BatchPhase::Running {
            if let BatchEvent::TaskFinished(t, oa) = ea {
                if t < a.outcomes.len() && a.outcomes[t as int] is None {
                    let ob = eb->TaskFinished_1;
                    let ra = a.outcomes.update(t as int, Some(oa));
                    let rb = b.outcomes.update(t as int, Some(ob));
                    assert(b.outcomes[t as int] is None);
                    assert forall|i: int| 0 <= i < n implies ((#[trigger] ra[i]) is Some <==> rb[i]
                        is Some) by {
                        assert(a.outcomes[i] is Some <==> b.outcomes[i] is Some);
                    }
                    if all_finished(ra) {
                        assert forall|i: int| 0 <= i < rb.len() implies (#[trigger] rb[i])
                            is Some by {
                            assert(ra[i] is Some);
                        }
                    }
                    if all_finished(rb) {
                        assert forall|i: int| 0 <= i < ra.len() implies (#[trigger] ra[i])
                            is Some by {
                            assert(rb[i] is Some);
                        }
                    }
                    assert forall|other: int|
                        0 <= other < n && other != task implies b2.outcomes[other]
                        == #[trigger] a2.outcomes[other] by {
                        assert(b.outcomes[other] == a.outcomes[other]);
                    }
                }
            }
        }
        assert forall|other: int| 0 <= other < n && other != task implies b2.outcomes[other]
            == #[trigger] a2.outcomes[other] by {
            assert(b.outcomes[other] == a.outcomes[other]);
        }
        assert forall|other: int| 0 <= other < n implies (b2.outcomes[other] is Some <==> (
        #[trigger] a2.outcomes[other]) is Some) by {
            assert(b.outcomes[other] is Some <==> a.outcomes[other] is Some);
        }
    } else {
        assert(changed =~= events);
    }
}

/// Whether `event` reports the end of `task`.
pub open spec fn reports_task(event: BatchEvent, task: int) -> bool {
    event matches BatchEvent::TaskFinished(reported, _) && reported == task
}

/// A task whose end has not been reported is not recorded as ended.
pub proof fn lemma_unreported_task_unfinished(n: nat, events: Seq<BatchEvent>, task: int)
    requires
        0 <= task < n,
        forall|i: int| 0 <= i < events.len() ==> !reports_task(#[trigger] events[i], task),
    ensures
        batch_run(n, events).0.outcomes.len() == n,
        batch_run(n, events).0.outcomes[task] is None,
    decreases events.len(),
{
    lemma_single_lifecycle(n, events);
    if events.len() > 0 {
        let head = events.drop_last();
        assert forall|i: int| 0 <= i < head.len() implies !reports_task(
            #[trigger] head[i],
            task,
        ) by {
            assert(head[i] == events[i]);
        }
        lemma_unreported_task_unfinished(n, head, task);
        assert(!reports_task(events[events.len() - 1], task));
        lemma_step_isolated(batch_run(n, head).0, events.last(), task);
    }
}

/// Every task gets its own result. The outcome in the first report on a
/// task that arrives while the tasks run is the outcome the batch holds for
/// that task from then on, whatever the other tasks report and however
/// they end.
pub proof fn lemma_own_outcome_recorded(n: nat, events: Seq<BatchEvent>, first: int)
    requires
        0 <= first < events.len(),
        events[first] is TaskFinished,
        events[first]->TaskFinished_0 < n,
        batch_run(n, events.take(first)).0.phase == BatchPhase::Running,
        forall|i: int|
            0 <= i < first ==> !reports_task(
                #[trigger] events[i],
                events[first]->TaskFinished_0 as int,
            ),
    ensures
        batch_run(n, events).0.outcomes.len() == n,
        batch_run(n, events).0.outcomes[events[first]->TaskFinished_0 as int] == Some(
            events[first]->TaskFinished_1,
        ),
{
    let task = events[first]->TaskFinished_0 as int;
    let before = events.take(first);
    let with_report = events.take(first + 1);
    assert forall|i: int| 0 <= i < before.len() implies !reports_task(
        #[trigger] before[i],
        task,
    ) by {
        assert(before[i] == events[i]);
    }
    lemma_unreported_task_unfinished(n, before, task);
    assert(with_report.drop_last() =~= before);
    assert(with_report.last() == events[first]);
    lemma_single_lifecycle(n, with_report);
    lemma_single_lifecycle(n, events);
    lemma_record_stands(n, events, first + 1, task);
}

/// What a run has recorded for a task stays recorded, whatever is reported
/// afterwards.
pub proof fn lemma_record_stands(n: nat, events: Seq<BatchEvent>, k: int, other: int)
    requires
        0 <= k <= events.len(),
        0 <= other < n,
        batch_run(n, events.take(k)).0.outcomes[other] is Some,
    ensures
        batch_run(n, events).0.outcomes[other] == batch_run(n, events.take(k)).0.outcomes[other],
    decreases events.len() - k,
{
    if k == events.len() {
        assert(events.take(k) =~= events);
    } else {
        assert(events.drop_last().take(k) =~= events.take(k));
        lemma_record_stands(n, events.drop_last(), k, other);
        lemma_single_lifecycle(n, events.drop_last());
        lemma_step_isolated(batch_run(n, events.drop_last()).0, events.last(), other);
    }
}

} // verus!
