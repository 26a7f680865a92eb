use scrape_batch::batch::{Batch, BatchAction, BatchEvent, BatchOutcome, BatchPhase};
use scrape_batch::error::ErrorKind;
use scrape_batch::task::{TaskAction, TaskEvent, TaskOutcome, TaskState};
use scrape_batch::timing::Checkpoint;

fn run(n: usize, events: &[BatchEvent]) -> (Batch, Vec<BatchAction>) {
    let (mut batch, mut actions) = Batch::begin(n);
    for event in events {
        let (next, more) = batch.step(*event);
        batch = next;
        actions.extend(more);
    }
    (batch, actions)
}

fn count(actions: &[BatchAction], action: BatchAction) -> usize {
    actions.iter().filter(|a| **a == action).count()
}

fn finished(task: usize, outcome: TaskOutcome) -> BatchEvent {
    BatchEvent::TaskFinished(task, outcome)
}

#[test]
fn a_batch_begins_by_starting_the_driver() {
    let (batch, actions) = Batch::begin(3);
    assert_eq!(batch.phase(), BatchPhase::Starting);
    assert_eq!(batch.concurrency(), 3);
    assert_eq!(actions, vec![BatchAction::StartDriver]);
    assert_eq!(batch.outcome(), None);
}

#[test]
fn a_started_driver_launches_all_tasks_at_once() {
    let (batch, actions) = run(50, &[BatchEvent::DriverStarted]);
    assert_eq!(batch.phase(), BatchPhase::Running);
    assert_eq!(actions, vec![BatchAction::StartDriver, BatchAction::LaunchTasks(50)]);
}

#[test]
fn a_complete_batch_reports_every_task_in_index_order() {
    let events = [
        BatchEvent::DriverStarted,
        finished(2, Ok(())),
        finished(0, Err(ErrorKind::NavigationError)),
        finished(1, Ok(())),
        BatchEvent::DriverStopped,
    ];
    let (batch, actions) = run(3, &events);
    assert_eq!(batch.phase(), BatchPhase::Done);
    assert_eq!(
        actions,
        vec![
            BatchAction::StartDriver,
            BatchAction::LaunchTasks(3),
            BatchAction::StopDriver,
            BatchAction::LogElapsed(Checkpoint::BatchEnd),
        ]
    );
    assert_eq!(
        batch.outcome(),
        Some(BatchOutcome::Completed(vec![
            (0, Err(ErrorKind::NavigationError)),
            (1, Ok(())),
            (2, Ok(())),
        ]))
    );
}

#[test]
fn one_failing_task_does_not_touch_the_others() {
    let failures = [
        ErrorKind::SessionBuildError,
        ErrorKind::NavigationError,
        ErrorKind::QueryError,
        ErrorKind::QuitError,
    ];
    for n in 1..6usize {
        for failing in 0..n {
            for kind in failures {
                let mut clean = vec![BatchEvent::DriverStarted];
                let mut faulty = vec![BatchEvent::DriverStarted];
                for task in 0..n {
                    clean.push(finished(task, Ok(())));
                    faulty.push(finished(task, if task == failing { Err(kind) } else { Ok(()) }));
                }
                clean.push(BatchEvent::DriverStopped);
                faulty.push(BatchEvent::DriverStopped);
                let (clean_batch, clean_actions) = run(n, &clean);
                let (faulty_batch, faulty_actions) = run(n, &faulty);
                assert_eq!(clean_actions, faulty_actions);
                assert_eq!(faulty_batch.phase(), BatchPhase::Done);
                let clean_pairs = match clean_batch.outcome() {
                    Some(BatchOutcome::Completed(pairs)) => pairs,
                    other => panic!("unexpected {:?}", other),
                };
                let faulty_pairs = match faulty_batch.outcome() {
                    Some(BatchOutcome::Completed(pairs)) => pairs,
                    other => panic!("unexpected {:?}", other),
                };
                for task in 0..n {
                    if task == failing {
                        assert_eq!(faulty_pairs[task], (task, Err(kind)));
                    } else {
                        assert_eq!(faulty_pairs[task], clean_pairs[task]);
                        assert_eq!(faulty_pairs[task], (task, Ok(())));
                    }
                }
            }
        }
    }
}

#[test]
fn the_stop_waits_for_the_slowest_task() {
    let (mut batch, _) = Batch::begin(4);
    let (next, actions) = batch.step(BatchEvent::DriverStarted);
    batch = next;
    assert_eq!(actions, vec![BatchAction::LaunchTasks(4)]);
    for task in [3usize, 0, 2] {
        let (next, actions) = batch.step(finished(task, Ok(())));
        batch = next;
        assert!(actions.is_empty());
        assert_eq!(batch.phase(), BatchPhase::Running);
        let (next, actions) = batch.step(BatchEvent::DriverStopped);
        batch = next;
        assert!(actions.is_empty());
        assert_eq!(batch.phase(), BatchPhase::Running);
    }
    let (next, actions) = batch.step(finished(1, Err(ErrorKind::QueryError)));
    batch = next;
    assert_eq!(actions, vec![BatchAction::StopDriver]);
    assert_eq!(batch.phase(), BatchPhase::Stopping);
}

#[test]
fn one_start_and_one_stop_whatever_the_failures() {
    let outcomes: [TaskOutcome; 3] =
        [Ok(()), Err(ErrorKind::NavigationError), Err(ErrorKind::QuitError)];
    for n in 0..5usize {
        for pattern in 0..3usize.pow(n as u32) {
            let mut events = vec![BatchEvent::DriverStarted];
            let mut rest = pattern;
            for task in 0..n {
                events.push(finished(task, outcomes[rest % 3]));
                rest /= 3;
            }
            events.push(BatchEvent::DriverStopped);
            let (batch, actions) = run(n, &events);
            assert_eq!(batch.phase(), BatchPhase::Done);
            assert_eq!(count(&actions, BatchAction::StartDriver), 1);
            assert_eq!(count(&actions, BatchAction::StopDriver), 1);
            assert_eq!(actions[0], BatchAction::StartDriver);
        }
    }
}

#[test]
fn repeated_reports_do_not_repeat_the_stop() {
    let events = [
        BatchEvent::DriverStarted,
        BatchEvent::DriverStarted,
        finished(0, Ok(())),
        finished(0, Err(ErrorKind::QueryError)),
        finished(1, Ok(())),
        finished(1, Ok(())),
        BatchEvent::DriverStarted,
        BatchEvent::DriverStopped,
        BatchEvent::DriverStopped,
        BatchEvent::DriverStopFailed,
        finished(0, Err(ErrorKind::QuitError)),
    ];
    let (batch, actions) = run(2, &events);
    assert_eq!(count(&actions, BatchAction::StartDriver), 1);
    assert_eq!(count(&actions, BatchAction::LaunchTasks(2)), 1);
    assert_eq!(count(&actions, BatchAction::StopDriver), 1);
    assert_eq!(count(&actions, BatchAction::LogElapsed(Checkpoint::BatchEnd)), 1);
    assert_eq!(batch.outcome(), Some(BatchOutcome::Completed(vec![(0, Ok(())), (1, Ok(()))])));
}

#[test]
fn the_first_report_on_a_task_stands() {
    let events = [
        BatchEvent::DriverStarted,
        finished(1, Err(ErrorKind::NavigationError)),
        finished(1, Ok(())),
        finished(0, Ok(())),
        BatchEvent::DriverStopped,
    ];
    let (batch, _) = run(2, &events);
    assert_eq!(
        batch.outcome(),
        Some(BatchOutcome::Completed(vec![(0, Ok(())), (1, Err(ErrorKind::NavigationError))]))
    );
}

#[test]
fn a_report_on_a_task_that_does_not_exist_is_ignored() {
    let (batch, actions) =
        run(2, &[BatchEvent::DriverStarted, finished(2, Ok(())), finished(usize::MAX, Ok(()))]);
    assert_eq!(batch.phase(), BatchPhase::Running);
    assert_eq!(actions, vec![BatchAction::StartDriver, BatchAction::LaunchTasks(2)]);
}

#[test]
fn a_task_report_before_the_driver_started_is_ignored() {
    let (batch, actions) = run(1, &[finished(0, Ok(()))]);
    assert_eq!(batch.phase(), BatchPhase::Starting);
    assert_eq!(actions, vec![BatchAction::StartDriver]);
    let (batch, actions) = batch.step(BatchEvent::DriverStarted);
    assert_eq!(actions, vec![BatchAction::LaunchTasks(1)]);
    assert_eq!(batch.phase(), BatchPhase::Running);
}

#[test]
fn a_driver_that_is_not_found_aborts_the_batch() {
    let (batch, actions) = run(3, &[BatchEvent::DriverFailed(ErrorKind::ExecutableNotFound)]);
    assert_eq!(batch.phase(), BatchPhase::Aborted(ErrorKind::ExecutableNotFound));
    assert_eq!(actions, vec![BatchAction::StartDriver]);
    assert_eq!(batch.outcome(), Some(BatchOutcome::Aborted(ErrorKind::ExecutableNotFound)));
}

#[test]
fn a_driver_that_cannot_be_spawned_aborts_the_batch() {
    let events = [
        BatchEvent::DriverFailed(ErrorKind::SpawnError),
        BatchEvent::DriverStarted,
        finished(0, Ok(())),
        BatchEvent::DriverStopped,
    ];
    let (batch, actions) = run(1, &events);
    assert_eq!(batch.phase(), BatchPhase::Aborted(ErrorKind::SpawnError));
    assert_eq!(actions, vec![BatchAction::StartDriver]);
    assert_eq!(count(&actions, BatchAction::StopDriver), 0);
    assert_eq!(batch.outcome(), Some(BatchOutcome::Aborted(ErrorKind::SpawnError)));
}

#[test]
fn a_failed_stop_is_a_warning_and_leaves_the_outcome_alone() {
    let common = [
        BatchEvent::DriverStarted,
        finished(0, Ok(())),
        finished(1, Err(ErrorKind::QueryError)),
    ];
    let mut stopped = common.to_vec();
    stopped.push(BatchEvent::DriverStopped);
    let mut refused = common.to_vec();
    refused.push(BatchEvent::DriverStopFailed);
    let (stopped_batch, _) = run(2, &stopped);
    let (refused_batch, actions) = run(2, &refused);
    assert_eq!(refused_batch.phase(), BatchPhase::Done);
    assert_eq!(
        actions[actions.len() - 2..],
        [
            BatchAction::ReportFailure(ErrorKind::TerminationError),
            BatchAction::LogElapsed(Checkpoint::BatchEnd),
        ]
    );
    assert_eq!(refused_batch.outcome(), stopped_batch.outcome());
}

#[test]
fn a_batch_without_tasks_stops_the_driver_at_once() {
    let (batch, actions) = run(0, &[BatchEvent::DriverStarted]);
    assert_eq!(batch.phase(), BatchPhase::Stopping);
    assert_eq!(actions, vec![BatchAction::StartDriver, BatchAction::StopDriver]);
    let (batch, actions) = batch.step(BatchEvent::DriverStopped);
    assert_eq!(actions, vec![BatchAction::LogElapsed(Checkpoint::BatchEnd)]);
    assert_eq!(batch.outcome(), Some(BatchOutcome::Completed(Vec::new())));
}

#[test]
fn no_outcome_before_the_batch_has_ended() {
    let (batch, _) = run(1, &[BatchEvent::DriverStarted]);
    assert_eq!(batch.outcome(), None);
    let (batch, _) = batch.step(finished(0, Ok(())));
    assert_eq!(batch.phase(), BatchPhase::Stopping);
    assert_eq!(batch.outcome(), None);
}

#[test]
fn three_tasks_five_anchors_third_read_failing() {
    let (mut batch, first) = Batch::begin(3);
    assert_eq!(first, vec![BatchAction::StartDriver]);
    let (next, launch) = batch.step(BatchEvent::DriverStarted);
    batch = next;
    assert_eq!(launch, vec![BatchAction::LaunchTasks(3)]);

    let mut stops = 0;
    for task in 0..3usize {
        let reads: Vec<Result<String, String>> = (0..5)
            .map(|i| if i == 2 { Err("forced".to_string()) } else { Ok(format!("link {}", i)) })
            .collect();
        let events = vec![
            TaskEvent::SessionOpened,
            TaskEvent::Navigated,
            TaskEvent::Settled,
            TaskEvent::ElementsFound,
            TaskEvent::TextsRead(reads),
            TaskEvent::SessionClosed,
        ];
        let (mut state, _) = TaskState::start();
        let mut printed = Vec::new();
        for event in events {
            let (next, actions) = state.step(event);
            state = next;
            for action in actions {
                if let TaskAction::PrintLine(line) = action {
                    printed.push(line);
                }
            }
        }
        assert_eq!(printed, vec!["0: link 0", "1: link 1", "3: link 3", "4: link 4"]);
        let outcome = state.outcome().expect("the task has ended");
        assert_eq!(outcome, Ok(()));

        let (next, actions) = batch.step(BatchEvent::TaskFinished(task, outcome));
        batch = next;
        stops += count(&actions, BatchAction::StopDriver);
        if task < 2 {
            assert_eq!(stops, 0);
        }
    }
    assert_eq!(stops, 1);
    assert_eq!(batch.phase(), BatchPhase::Stopping);
    let (batch, actions) = batch.step(BatchEvent::DriverStopped);
    assert_eq!(count(&actions, BatchAction::StopDriver), 0);
    assert_eq!(
        batch.outcome(),
        Some(BatchOutcome::Completed(vec![(0, Ok(())), (1, Ok(())), (2, Ok(()))]))
    );
}
