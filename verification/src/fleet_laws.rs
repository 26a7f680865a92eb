//! What holds of every run of a fleet, however the reports of the
//! concurrent tasks interleave.

use crate::batch::{all_finished, batch_step, BatchEvent};
use crate::batch_laws::{lemma_step_wf, stop_requested};
use crate::fleet::{
    driver_action, driver_actions, driver_event, fleet_begin, fleet_step, fleet_wf,
    launch_actions, launched, lemma_fleet_step_wf, outcome_of, task_actions, DriverReport,
    FleetActionView, FleetView, ReportView,
};
use crate::task::{task_start, task_step, TaskActionView, TaskEventView, TaskState};
use crate::links::{failed_reads, lemma_partial_collection, link_lines};
use crate::task_laws::{lemma_run_prints_one_scan, printed_lines, task_run};
use vstd::prelude::*;

verus! {

/// A run of a fleet of `n` tasks: the state after the caller has reported
/// `reports` one by one, and every action asked for so far, in order.
pub open spec fn fleet_run(n: nat, reports: Seq<ReportView>) -> (FleetView, Seq<FleetActionView>)
    decreases reports.len(),
{
    if reports.len() == 0 {
        fleet_begin(n)
    } else {
        let before = fleet_run(n, reports.drop_last());
        let step = fleet_step(before.0, reports.last());
        (step.0, before.1 + step.1)
    }
}

/// How often the fleet asks for `action` among `actions`.
pub open spec fn requests(actions: Seq<FleetActionView>, action: FleetActionView) -> nat
    decreases actions.len(),
{
    if actions.len() == 0 {
        0
    } else {
        requests(actions.drop_last(), action) + if actions.last() == action {
            1nat
        } else {
            0nat
        }
    }
}

/// The actions among `actions` that are for the task of index `task`, in
/// order.
pub open spec fn actions_of_task(actions: Seq<FleetActionView>, task: int) -> Seq<TaskActionView>
    decreases actions.len(),
{
    if actions.len() == 0 {
        Seq::empty()
    } else {
        let earlier = actions_of_task(actions.drop_last(), task);
        match actions.last() {
            FleetActionView::Task(index, action) if index == task => earlier.push(action),
            _ => earlier,
        }
    }
}

/// Whether `report` is for the task of index `task`.
pub open spec fn is_for(report: ReportView, task: int) -> bool {
    report matches ReportView::Task(index, _) && index == task
}

/// Whether two runs are reported alike but for what is reported of the
/// task of index `task`: report by report they are the same, or both are
/// for that task.
pub open spec fn alike_but_for(
    first: Seq<ReportView>,
    second: Seq<ReportView>,
    task: int,
) -> bool {
    &&& first.len() == second.len()
    &&& forall|i: int|
        0 <= i < first.len() ==> #[trigger] first[i] == second[i] || (is_for(first[i], task)
            && is_for(second[i], task))
}

proof fn lemma_requests_concat(
    first: Seq<FleetActionView>,
    second: Seq<FleetActionView>,
    action: FleetActionView,
)
    ensures
        requests(first + second, action) == requests(first, action) + requests(second, action),
    decreases second.len(),
{
    if second.len() == 0 {
        assert(first + second =~= first);
    } else {
        lemma_requests_concat(first, second.drop_last(), action);
        assert((first + second).drop_last() =~= first + second.drop_last());
    }
}

proof fn lemma_requests_absent(actions: Seq<FleetActionView>, action: FleetActionView)
    requires
        forall|i: int| 0 <= i < actions.len() ==> #[trigger] actions[i] != action,
    ensures
        requests(actions, action) == 0,
    decreases actions.len(),
{
    if actions.len() > 0 {
        lemma_requests_absent(actions.drop_last(), action);
    }
}

proof fn lemma_of_task_concat(first: Seq<FleetActionView>, second: Seq<FleetActionView>, task: int)
    ensures
        actions_of_task(first + second, task) == actions_of_task(first, task) + actions_of_task(
            second,
            task,
        ),
    decreases second.len(),
{
    if second.len() == 0 {
        assert(first + second =~= first);
        assert(actions_of_task(first, task) + actions_of_task(second, task) =~= actions_of_task(
            first,
            task,
        ));
    } else {
        lemma_of_task_concat(first, second.drop_last(), task);
        assert((first + second).drop_last() =~= first + second.drop_last());
        assert(actions_of_task(first + second, task) =~= actions_of_task(first, task)
            + actions_of_task(second, task));
    }
}

proof fn lemma_of_task_absent(actions: Seq<FleetActionView>, task: int)
    requires
        forall|i: int|
            0 <= i < actions.len() ==> !((#[trigger] actions[i]) matches FleetActionView::Task(
                index,
                _,
            ) && index == task),
    ensures
        actions_of_task(actions, task) == Seq::<TaskActionView>::empty(),
    decreases actions.len(),
{
    if actions.len() > 0 {
        lemma_of_task_absent(actions.drop_last(), task);
    }
}

proof fn lemma_of_task_own(index: usize, actions: Seq<TaskActionView>)
    ensures
        actions_of_task(task_actions(index, actions), index as int) == actions,
    decreases actions.len(),
{
    if actions.len() == 0 {
        assert(actions_of_task(task_actions(index, actions), index as int) =~= actions);
    } else {
        lemma_of_task_own(index, actions.drop_last());
        assert(task_actions(index, actions).drop_last() =~= task_actions(
            index,
            actions.drop_last(),
        ));
        assert(actions_of_task(task_actions(index, actions), index as int) =~= actions);
    }
}

/// What the orchestrator asks for in one step, as the fleet hands it on:
/// never a start; a stop exactly where the step reaches the stop; and an
/// action for a task only where the step launches the tasks.
proof fn lemma_driver_step(fleet: FleetView, event: BatchEvent)
    requires
        fleet_wf(fleet),
    ensures
        requests(driver_actions(batch_step(fleet.batch, event).1), FleetActionView::StartDriver)
            == 0,
        requests(driver_actions(batch_step(fleet.batch, event).1), FleetActionView::StopDriver)
            == (if stop_requested(batch_step(fleet.batch, event).0.phase) && !stop_requested(
            fleet.batch.phase,
        ) {
            1nat
        } else {
            0nat
        }),
        stop_requested(fleet.batch.phase) ==> stop_requested(
            batch_step(fleet.batch, event).0.phase,
        ),
        launched(fleet.batch.phase) ==> launched(batch_step(fleet.batch, event).0.phase),
        launched(fleet.batch.phase) ==> forall|i: int|
            0 <= i < driver_actions(batch_step(fleet.batch, event).1).len() ==> !(
            #[trigger] driver_actions(batch_step(fleet.batch, event).1)[i] is Task),
{
    let step = batch_step(fleet.batch, event);
    let handed = driver_actions(step.1);
    reveal_with_fuel(driver_actions, 3);
    reveal_with_fuel(requests, 3);
    if step.1.len() == 0 {
        assert(handed =~= Seq::empty());
    } else if step.1.len() == 1 {
        assert(step.1.drop_last() =~= Seq::empty());
        assert(handed =~= driver_action(step.1[0]));
        if step.1[0] is LaunchTasks {
            lemma_requests_absent(handed, FleetActionView::StartDriver);
            lemma_requests_absent(handed, FleetActionView::StopDriver);
        } else {
            assert(handed.drop_last() =~= Seq::empty());
        }
    } else {
        assert(step.1.drop_last().drop_last() =~= Seq::empty());
        assert(handed =~= driver_action(step.1[0]) + driver_action(step.1[1]));
        assert(handed.drop_last().drop_last() =~= Seq::empty());
    }
}

/// Every run keeps the fleet in a state a fleet can be in. In
/// particular the orchestrator holds for every task the outcome of that
/// very task, and of no other.
pub proof fn lemma_fleet_run_wf(n: nat, reports: Seq<ReportView>)
    ensures
        fleet_wf(fleet_run(n, reports).0),
        fleet_run(n, reports).0.tasks.len() == n,
        forall|task: int|
            0 <= task < n ==> fleet_run(n, reports).0.batch.outcomes[task] == outcome_of(
                #[trigger] fleet_run(n, reports).0.tasks[task],
            ),
    decreases reports.len(),
{
    if reports.len() > 0 {
        lemma_fleet_run_wf(n, reports.drop_last());
        lemma_fleet_step_wf(fleet_run(n, reports.drop_last()).0, reports.last());
    }
}

/// Single process lifecycle. In every run of a fleet the driver process
/// is asked to start exactly once, at the beginning, and asked to stop at
/// most once: once in a run that has reached the stop, never before.
pub proof fn lemma_fleet_lifecycle(n: nat, reports: Seq<ReportView>)
    ensures
        requests(fleet_run(n, reports).1, FleetActionView::StartDriver) == 1,
        requests(fleet_run(n, reports).1, FleetActionView::StopDriver) == (if stop_requested(
            fleet_run(n, reports).0.batch.phase,
        ) {
            1nat
        } else {
            0nat
        }),
    decreases reports.len(),
{
    let start = FleetActionView::StartDriver;
    let stop = FleetActionView::StopDriver;
    if reports.len() == 0 {
        reveal_with_fuel(driver_actions, 2);
        reveal_with_fuel(requests, 2);
        assert(fleet_begin(n).1 =~= seq![start]);
        assert(fleet_begin(n).1.drop_last() =~= Seq::empty());
    } else {
        let head = reports.drop_last();
        lemma_fleet_lifecycle(n, head);
        lemma_fleet_run_wf(n, head);
        let before = fleet_run(n, head);
        let step = fleet_step(before.0, reports.last());
        lemma_requests_concat(before.1, step.1, start);
        lemma_requests_concat(before.1, step.1, stop);
        match reports.last() {
            ReportView::Driver(report) => {
                lemma_driver_step(before.0, driver_event(report));
            },
            ReportView::Task(task, event) => {
                if launched(before.0.batch.phase) && task < before.0.tasks.len() {
                    let stepped = task_step(before.0.tasks[task as int], event);
                    let own = task_actions(task, stepped.1);
                    lemma_requests_absent(own, start);
                    lemma_requests_absent(own, stop);
                    if outcome_of(before.0.tasks[task as int]) is None && outcome_of(stepped.0)
                        is Some {
                        let finished = BatchEvent::TaskFinished(
                            task,
                            outcome_of(stepped.0)->Some_0,
                        );
                        lemma_driver_step(before.0, finished);
                        let handed = driver_actions(batch_step(before.0.batch, finished).1);
                        lemma_requests_concat(own, handed, start);
                        lemma_requests_concat(own, handed, stop);
                    }
                } else {
                    assert(step.1 =~= Seq::empty());
                }
            },
        }
    }
}

/// Barrier. At every point of a run at which the stop of the driver
/// process has been asked for, every task has ended; and as long as a task
/// has not ended, the stop has not been asked for.
pub proof fn lemma_fleet_barrier(n: nat, reports: Seq<ReportView>)
    ensures
        forall|k: int, task: int|
            0 <= k <= reports.len() && 0 <= task < n && requests(
                fleet_run(n, #[trigger] reports.take(k)).1,
                FleetActionView::StopDriver,
            ) > 0 ==> (#[trigger] fleet_run(n, reports.take(k)).0.tasks[task]) is Finished,
{
    assert forall|k: int, task: int|
        0 <= k <= reports.len() && 0 <= task < n && requests(
            fleet_run(n, #[trigger] reports.take(k)).1,
            FleetActionView::StopDriver,
        ) > 0 implies (#[trigger] fleet_run(n, reports.take(k)).0.tasks[task]) is Finished by {
        let fleet = fleet_run(n, reports.take(k)).0;
        lemma_fleet_lifecycle(n, reports.take(k));
        lemma_fleet_run_wf(n, reports.take(k));
        assert(all_finished(fleet.batch.outcomes));
        assert(fleet.batch.outcomes[task] is Some);
    }
}

/// No task can keep the driver process from being stopped. Once the
/// driver has started and every task has ended, in success or in failure,
/// the stop has been asked for.
pub proof fn lemma_fleet_stop_owed(n: nat, reports: Seq<ReportView>)
    requires
        launched(fleet_run(n, reports).0.batch.phase),
        forall|task: int|
            0 <= task < n ==> (#[trigger] fleet_run(n, reports).0.tasks[task]) is Finished,
    ensures
        requests(fleet_run(n, reports).1, FleetActionView::StopDriver) == 1,
{
    let fleet = fleet_run(n, reports).0;
    lemma_fleet_lifecycle(n, reports);
    lemma_fleet_run_wf(n, reports);
    assert forall|task: int| 0 <= task < fleet.batch.outcomes.len() implies (
    #[trigger] fleet.batch.outcomes[task]) is Some by {
        assert(fleet.tasks[task] is Finished);
    }
}

/// Isolation. Whatever is reported of one task, every other task runs the
/// same: in two runs that are reported alike but for the reports on `task`,
/// every other task is in the same state, has been asked for the same
/// actions in the same order, and has the same outcome on record.
pub proof fn lemma_fleet_isolation(
    n: nat,
    first: Seq<ReportView>,
    second: Seq<ReportView>,
    task: int,
)
    requires
        alike_but_for(first, second, task),
    ensures
        launched(fleet_run(n, first).0.batch.phase) == launched(fleet_run(n, second).0.batch.phase),
        !launched(fleet_run(n, first).0.batch.phase) ==> fleet_run(n, first).0.batch == fleet_run(
            n,
            second,
        ).0.batch,
        forall|other: int|
            0 <= other < n && other != task ==> (#[trigger] fleet_run(n, first).0.tasks[other])
                == fleet_run(n, second).0.tasks[other],
        forall|other: int|
            0 <= other < n && other != task ==> (#[trigger] fleet_run(
                n,
                first,
            ).0.batch.outcomes[other]) == fleet_run(n, second).0.batch.outcomes[other],
        forall|other: int|
            0 <= other < n && other != task ==> #[trigger] actions_of_task(
                fleet_run(n, first).1,
                other,
            ) == actions_of_task(fleet_run(n, second).1, other),
    decreases first.len(),
{
    lemma_fleet_run_wf(n, first);
    lemma_fleet_run_wf(n, second);
    if first.len() > 0 {
        let head_a = first.drop_last();
        let head_b = second.drop_last();
        assert(alike_but_for(head_a, head_b, task)) by {
            assert forall|i: int| 0 <= i < head_a.len() implies #[trigger] head_a[i] == head_b[i]
                || (is_for(head_a[i], task) && is_for(head_b[i], task)) by {
                assert(head_a[i] == first[i]);
                assert(head_b[i] == second[i]);
            }
        }
        lemma_fleet_isolation(n, head_a, head_b, task);
        lemma_fleet_run_wf(n, head_a);
        lemma_fleet_run_wf(n, head_b);
        let a = fleet_run(n, head_a);
        let b = fleet_run(n, head_b);
        let ra = first.last();
        let rb = second.last();
        assert(ra == first[first.len() - 1]);
        assert(rb == second[second.len() - 1]);
        let sa = fleet_step(a.0, ra);
        let sb = fleet_step(b.0, rb);
        lemma_step_effect(a.0, ra);
        lemma_step_effect(b.0, rb);
        assert forall|other: int|
            0 <= other < n && other != task implies #[trigger] actions_of_task(
            fleet_run(n, first).1,
            other,
        ) == actions_of_task(fleet_run(n, second).1, other) by {
            lemma_of_task_concat(a.1, sa.1, other);
            lemma_of_task_concat(b.1, sb.1, other);
            assert(actions_of_task(a.1, other) == actions_of_task(b.1, other));
            assert(a.0.tasks[other] == b.0.tasks[other]);
            if launched(a.0.batch.phase) {
                if is_for(ra, other) {
                    assert(ra == rb);
                    assert(sa.0.tasks[other] == task_step(a.0.tasks[other], ra->Task_1).0);
                    assert(sb.0.tasks[other] == task_step(b.0.tasks[other], rb->Task_1).0);
                    assert(actions_of_task(sa.1, other) == task_step(
                        a.0.tasks[other],
                        ra->Task_1,
                    ).1);
                    assert(actions_of_task(sb.1, other) == task_step(
                        b.0.tasks[other],
                        rb->Task_1,
                    ).1);
                } else {
                    assert(actions_of_task(sa.1, other) == Seq::<TaskActionView>::empty());
                    assert(actions_of_task(sb.1, other) == Seq::<TaskActionView>::empty());
                }
            } else if ra is Task {
                assert(sa.1 == Seq::<FleetActionView>::empty());
                assert(sb.1 == Seq::<FleetActionView>::empty());
            } else {
                assert(ra == rb);
                assert(a.0.batch == b.0.batch);
                assert(sa.1 == sb.1);
            }
        }
        assert forall|other: int| 0 <= other < n && other != task implies (#[trigger] fleet_run(
            n,
            first,
        ).0.tasks[other]) == fleet_run(n, second).0.tasks[other] by {
            assert(a.0.tasks[other] == b.0.tasks[other]);
        }
    }
}

/// The reports that a task of a fleet has taken: those that were for it
/// and came after the launch, in order.
pub open spec fn reports_of_task(n: nat, reports: Seq<ReportView>, task: int) -> Seq<TaskEventView>
    decreases reports.len(),
{
    if reports.len() == 0 {
        Seq::empty()
    } else {
        let earlier = reports_of_task(n, reports.drop_last(), task);
        if is_for(reports.last(), task) && launched(
            fleet_run(n, reports.drop_last()).0.batch.phase,
        ) {
            earlier.push(reports.last()->Task_1)
        } else {
            earlier
        }
    }
}

proof fn lemma_launch_effect(fleet: FleetView, report: DriverReport, task: int)
    requires
        fleet_wf(fleet),
        !launched(fleet.batch.phase),
        0 <= task < fleet.tasks.len() <= usize::MAX,
    ensures
        fleet_step(fleet, ReportView::Driver(report)).0.tasks == fleet.tasks,
        actions_of_task(fleet_step(fleet, ReportView::Driver(report)).1, task) == (if launched(
            fleet_step(fleet, ReportView::Driver(report)).0.batch.phase,
        ) {
            task_start().1
        } else {
            Seq::<TaskActionView>::empty()
        }),
{
    let step = batch_step(fleet.batch, driver_event(report));
    let handed = driver_actions(step.1);
    reveal_with_fuel(driver_actions, 2);
    if step.1.len() == 0 {
        assert(handed =~= Seq::empty());
    } else {
        assert(step.1.drop_last() =~= Seq::empty());
        assert(handed =~= driver_action(step.1[0]));
        if step.1[0] is LaunchTasks {
            let n = step.1[0]->LaunchTasks_0;
            assert(n == fleet.tasks.len());
            lemma_of_task_launch(n as nat, task);
        } else {
            lemma_of_task_absent(handed, task);
        }
    }
}

proof fn lemma_of_task_launch(n: nat, task: int)
    requires
        0 <= task < n,
        n <= usize::MAX,
    ensures
        actions_of_task(launch_actions(n), task) == task_start().1,
    decreases n,
{
    let head = launch_actions((n - 1) as nat);
    assert(launch_actions(n).drop_last() =~= head);
    if task == n - 1 {
        lemma_of_task_absent(head, task);
        assert(actions_of_task(launch_actions(n), task) =~= task_start().1);
    } else {
        lemma_of_task_launch((n - 1) as nat, task);
    }
}

/// In a fleet every task runs as it would run alone. Its state is the
/// state of a task that has taken the reports that were for it, and what
/// the fleet has asked of it is what that task would have asked for, in
/// the same order. Before the launch it has taken nothing and has been
/// asked for nothing.
pub proof fn lemma_fleet_runs_tasks(n: nat, reports: Seq<ReportView>, task: int)
    requires
        0 <= task < n <= usize::MAX,
    ensures
        fleet_run(n, reports).0.tasks.len() == n,
        launched(fleet_run(n, reports).0.batch.phase) ==> fleet_run(n, reports).0.tasks[task]
            == task_run(reports_of_task(n, reports, task)).0 && actions_of_task(
            fleet_run(n, reports).1,
            task,
        ) == task_run(reports_of_task(n, reports, task)).1,
        !launched(fleet_run(n, reports).0.batch.phase) ==> fleet_run(n, reports).0.tasks[task]
            == TaskState::Opening && reports_of_task(n, reports, task) == Seq::<
            TaskEventView,
        >::empty() && actions_of_task(fleet_run(n, reports).1, task) == Seq::<
            TaskActionView,
        >::empty(),
    decreases reports.len(),
{
    lemma_fleet_run_wf(n, reports);
    if reports.len() == 0 {
        reveal_with_fuel(driver_actions, 2);
        assert(fleet_begin(n).1 =~= seq![FleetActionView::StartDriver]);
        lemma_of_task_absent(fleet_begin(n).1, task);
    } else {
        let head = reports.drop_last();
        lemma_fleet_runs_tasks(n, head, task);
        lemma_fleet_run_wf(n, head);
        let before = fleet_run(n, head);
        let report = reports.last();
        let step = fleet_step(before.0, report);
        let taken = reports_of_task(n, head, task);
        lemma_of_task_concat(before.1, step.1, task);
        lemma_step_effect(before.0, report);
        if launched(before.0.batch.phase) {
            if is_for(report, task) {
                let event = report->Task_1;
                assert(step.0.tasks[task] == task_step(before.0.tasks[task], event).0);
                assert(reports_of_task(n, reports, task) == taken.push(event));
                assert(taken.push(event).drop_last() =~= taken);
            } else {
                assert(step.0.tasks[task] == before.0.tasks[task]);
                assert(actions_of_task(step.1, task) == Seq::<TaskActionView>::empty());
                assert(actions_of_task(before.1, task) + actions_of_task(step.1, task)
                    =~= actions_of_task(before.1, task));
            }
        } else {
            match report {
                ReportView::Driver(driver) => {
                    lemma_launch_effect(before.0, driver, task);
                    assert(actions_of_task(before.1, task) + actions_of_task(step.1, task)
                        =~= actions_of_task(step.1, task));
                },
                ReportView::Task(_, _) => {
                    assert(step.1 =~= Seq::<FleetActionView>::empty());
                },
            }
        }
    }
}

proof fn lemma_taken_report_was_reported(
    n: nat,
    reports: Seq<ReportView>,
    task: int,
    taken: int,
)
    requires
        0 <= taken < reports_of_task(n, reports, task).len(),
    ensures
        exists|i: int|
            0 <= i < reports.len() && is_for(#[trigger] reports[i], task) && reports[i]->Task_1
                == reports_of_task(n, reports, task)[taken],
    decreases reports.len(),
{
    let head = reports.drop_last();
    let earlier = reports_of_task(n, head, task);
    if taken < earlier.len() {
        lemma_taken_report_was_reported(n, head, task, taken);
        let i = choose|i: int|
            0 <= i < head.len() && is_for(#[trigger] head[i], task) && head[i]->Task_1
                == earlier[taken];
        assert(reports[i] == head[i]);
    } else {
        assert(is_for(reports[reports.len() - 1], task));
    }
}

/// Partial collection, in a fleet. Whatever the other tasks do, what a
/// task has printed is nothing, or the lines of one scan that was reported
/// for it: of `M` reads of which `F` failed, exactly `M - F` lines, one for
/// each read that yielded a text, in the order of the scan.
pub proof fn lemma_fleet_task_prints_one_scan(n: nat, reports: Seq<ReportView>, task: int)
    requires
        0 <= task < n <= usize::MAX,
    ensures
        ({
            let printed = printed_lines(actions_of_task(fleet_run(n, reports).1, task));
            ||| printed == Seq::<Seq<char>>::empty()
            ||| exists|i: int|
                0 <= i < reports.len() && is_for(#[trigger] reports[i], task)
                    && reports[i]->Task_1 is TextsRead && printed == link_lines(
                    reports[i]->Task_1->TextsRead_0,
                ) && printed.len() == reports[i]->Task_1->TextsRead_0.len() - failed_reads(
                    reports[i]->Task_1->TextsRead_0,
                )
        }),
{
    let taken = reports_of_task(n, reports, task);
    let printed = printed_lines(actions_of_task(fleet_run(n, reports).1, task));
    lemma_fleet_runs_tasks(n, reports, task);
    if launched(fleet_run(n, reports).0.batch.phase) {
        lemma_run_prints_one_scan(taken);
        if printed != Seq::<Seq<char>>::empty() {
            let j = choose|j: int|
                0 <= j < taken.len() && (#[trigger] taken[j]) is TextsRead && printed
                    == link_lines(taken[j]->TextsRead_0);
            lemma_taken_report_was_reported(n, reports, task, j);
            let i = choose|i: int|
                0 <= i < reports.len() && is_for(#[trigger] reports[i], task) && reports[i]->Task_1
                    == taken[j];
            lemma_partial_collection(taken[j]->TextsRead_0);
            assert(is_for(reports[i], task) && reports[i]->Task_1 is TextsRead);
        }
    }
}

/// What one step of a fleet does to a task other than the one the report
/// is for: nothing, but for the launch, which starts every task alike.
proof fn lemma_step_effect(fleet: FleetView, report: ReportView)
    requires
        fleet_wf(fleet),
    ensures
        launched(fleet.batch.phase) ==> launched(fleet_step(fleet, report).0.batch.phase),
        report is Task ==> launched(fleet_step(fleet, report).0.batch.phase) == launched(
            fleet.batch.phase,
        ),
        report is Task && !launched(fleet.batch.phase) ==> fleet_step(fleet, report) == (
            fleet,
            Seq::<FleetActionView>::empty(),
        ),
        forall|other: int|
            0 <= other < fleet.tasks.len() && !is_for(report, other) ==> (#[trigger] fleet_step(
                fleet,
                report,
            ).0.tasks[other]) == fleet.tasks[other],
        forall|other: int|
            0 <= other < fleet.tasks.len() && !is_for(report, other) && launched(
                fleet.batch.phase,
            ) ==> #[trigger] actions_of_task(fleet_step(fleet, report).1, other) == Seq::<
                TaskActionView,
            >::empty(),
        forall|other: int|
            0 <= other < fleet.tasks.len() && is_for(report, other) && launched(fleet.batch.phase)
                ==> (#[trigger] fleet_step(fleet, report).0.tasks[other]) == task_step(
                fleet.tasks[other],
                report->Task_1,
            ).0 && actions_of_task(fleet_step(fleet, report).1, other) == task_step(
                fleet.tasks[other],
                report->Task_1,
            ).1,
{
    let step = fleet_step(fleet, report);
    match report {
        ReportView::Driver(driver) => {
            lemma_driver_step(fleet, driver_event(driver));
            if launched(fleet.batch.phase) {
                assert forall|other: int|
                    0 <= other < fleet.tasks.len() implies #[trigger] actions_of_task(step.1, other)
                    == Seq::<TaskActionView>::empty() by {
                    lemma_of_task_absent(step.1, other);
                }
            }
        },
        ReportView::Task(index, event) => {
            if launched(fleet.batch.phase) && index < fleet.tasks.len() {
                let stepped = task_step(fleet.tasks[index as int], event);
                let own = task_actions(index, stepped.1);
                lemma_of_task_own(index, stepped.1);
                let handed = if outcome_of(fleet.tasks[index as int]) is None && outcome_of(
                    stepped.0,
                ) is Some {
                    let finished = BatchEvent::TaskFinished(index, outcome_of(stepped.0)->Some_0);
                    lemma_driver_step(fleet, finished);
                    lemma_step_wf(fleet.batch, finished);
                    driver_actions(batch_step(fleet.batch, finished).1)
                } else {
                    Seq::<FleetActionView>::empty()
                };
                assert(step.1 =~= own + handed);
                assert forall|other: int| 0 <= other < fleet.tasks.len() implies actions_of_task(
                    handed,
                    other,
                ) == Seq::<TaskActionView>::empty() by {
                    lemma_of_task_absent(handed, other);
                }
                assert forall|other: int|
                    0 <= other < fleet.tasks.len() && other != index
                    implies #[trigger] actions_of_task(step.1, other) == Seq::<
                    TaskActionView,
                >::empty() by {
                    lemma_of_task_concat(own, handed, other);
                    lemma_of_task_absent(own, other);
                    assert(actions_of_task(handed, other) == Seq::<TaskActionView>::empty());
                }
                lemma_of_task_concat(own, handed, index as int);
                assert(actions_of_task(handed, index as int) == Seq::<TaskActionView>::empty());
                assert(actions_of_task(step.1, index as int) =~= stepped.1);
            } else {
                assert forall|other: int|
                    0 <= other < fleet.tasks.len() implies #[trigger] actions_of_task(step.1, other)
                    == Seq::<TaskActionView>::empty() by {
                    lemma_of_task_absent(step.1, other);
                }
            }
        },
    }
}

} // verus!
