use scrape_batch::batch::{BatchOutcome, BatchPhase};
use scrape_batch::error::ErrorKind;
use scrape_batch::fleet::{DriverReport, Fleet, FleetAction, Report};
use scrape_batch::task::{TaskAction, TaskEvent, TaskOutcome, TaskState};
use scrape_batch::timing::Checkpoint;

type Event = TaskEvent<String>;

/// The reports of one task, in order: a task that fails at `fail_at`
/// reports the failure of that step and nothing after it.
fn script(fail_at: Option<usize>) -> Vec<Event> {
    let reads: Vec<Result<String, String>> = (0..5)
        .map(|i| if i == 2 { Err("forced".to_string()) } else { Ok(format!("link {}", i)) })
        .collect();
    let steps: Vec<(Event, Option<Event>)> = vec![
        (Event::SessionOpened, Some(Event::SessionFailed)),
        (Event::Navigated, Some(Event::NavigationFailed)),
        (Event::Settled, None),
        (Event::ElementsFound, Some(Event::QueryFailed)),
        (Event::TextsRead(reads), None),
        (Event::SessionClosed, Some(Event::CloseFailed)),
    ];
    let mut reports = Vec::new();
    for (step, (succeeded, failed)) in steps.into_iter().enumerate() {
        if fail_at == Some(step) {
            reports.push(failed.expect("a step that can fail"));
            break;
        }
        reports.push(succeeded);
    }
    reports
}

fn expected_outcome(fail_at: Option<usize>) -> TaskOutcome {
    match fail_at {
        None => Ok(()),
        Some(0) => Err(ErrorKind::SessionBuildError),
        Some(1) => Err(ErrorKind::NavigationError),
        Some(3) => Err(ErrorKind::QueryError),
        Some(5) => Err(ErrorKind::QuitError),
        Some(step) => panic!("step {} cannot fail", step),
    }
}

struct Run {
    fleet: Fleet,
    actions: Vec<FleetAction>,
}

impl Run {
    fn begin(n: usize) -> Run {
        let (fleet, actions) = Fleet::begin(n);
        Run { fleet, actions }
    }

    fn report(self, report: Report<String>) -> (Run, Vec<FleetAction>) {
        let Run { fleet, mut actions } = self;
        let (fleet, more) = fleet.step(report);
        let copy: Vec<FleetAction> = more.iter().map(copy_of).collect();
        actions.extend(more);
        (Run { fleet, actions }, copy)
    }

    fn driver(self, report: DriverReport) -> Run {
        self.report(Report::Driver(report)).0
    }

    fn task(self, task: usize, event: Event) -> Run {
        self.report(Report::Task(task, event)).0
    }

    fn count(&self, action: FleetAction) -> usize {
        self.actions.iter().filter(|a| **a == action).count()
    }

    fn of_task(&self, task: usize) -> Vec<&TaskAction> {
        self.actions
            .iter()
            .filter_map(|a| match a {
                FleetAction::Task(index, action) if *index == task => Some(action),
                _ => None,
            })
            .collect()
    }

    fn printed(&self, task: usize) -> Vec<String> {
        self.of_task(task)
            .into_iter()
            .filter_map(|a| match a {
                TaskAction::PrintLine(line) => Some(line.clone()),
                _ => None,
            })
            .collect()
    }
}

fn copy_of(action: &FleetAction) -> FleetAction {
    match action {
        FleetAction::StartDriver => FleetAction::StartDriver,
        FleetAction::StopDriver => FleetAction::StopDriver,
        FleetAction::LogElapsed(checkpoint) => FleetAction::LogElapsed(*checkpoint),
        FleetAction::ReportFailure(kind) => FleetAction::ReportFailure(*kind),
        FleetAction::Task(task, action) => FleetAction::Task(
            *task,
            match action {
                TaskAction::OpenSession => TaskAction::OpenSession,
                TaskAction::Navigate(url) => TaskAction::Navigate(url.clone()),
                TaskAction::LogElapsed(checkpoint) => TaskAction::LogElapsed(*checkpoint),
                TaskAction::Settle(seconds) => TaskAction::Settle(*seconds),
                TaskAction::FindElements(tag) => TaskAction::FindElements(tag.clone()),
                TaskAction::ReadTexts => TaskAction::ReadTexts,
                TaskAction::PrintLine(line) => TaskAction::PrintLine(line.clone()),
                TaskAction::CloseSession => TaskAction::CloseSession,
                TaskAction::ReportFailure(kind) => TaskAction::ReportFailure(*kind),
            },
        ),
    }
}

/// Runs a fleet whose tasks report as their scripts say, interleaved in
/// the order that `turns` gives: each turn lets the task of that index
/// report its next step.
fn interleaved(fails: &[Option<usize>], turns: &[usize]) -> Run {
    let mut scripts: Vec<std::collections::VecDeque<Event>> =
        fails.iter().map(|fail_at| script(*fail_at).into()).collect();
    let mut run = Run::begin(fails.len()).driver(DriverReport::Started);
    for &turn in turns {
        if let Some(event) = scripts[turn].pop_front() {
            run = run.task(turn, event);
        }
    }
    run
}

fn round_robin(n: usize) -> Vec<usize> {
    (0..6 * n).map(|i| i % n).collect()
}

fn one_after_another(n: usize) -> Vec<usize> {
    (0..6 * n).map(|i| i / 6).collect()
}

fn shuffled(n: usize, seed: u64) -> Vec<usize> {
    let mut turns = one_after_another(n);
    let mut state = seed;
    for i in (1..turns.len()).rev() {
        state = state.wrapping_mul(6364136223846793005).wrapping_add(1442695040888963407);
        let j = (state >> 33) as usize % (i + 1);
        turns.swap(i, j);
    }
    turns
}

#[test]
fn a_fleet_begins_by_starting_the_driver() {
    let run = Run::begin(3);
    assert_eq!(run.actions, vec![FleetAction::StartDriver]);
    assert_eq!(run.fleet.phase(), BatchPhase::Starting);
    assert_eq!(run.fleet.task(0), Some(TaskState::Opening));
    assert_eq!(run.fleet.task(2), Some(TaskState::Opening));
    assert_eq!(run.fleet.task(3), None);
    assert_eq!(run.fleet.outcome(), None);
}

#[test]
fn a_started_driver_opens_a_session_for_every_task() {
    let (run, actions) = Run::begin(4).report(Report::Driver(DriverReport::Started));
    assert_eq!(
        actions,
        vec![
            FleetAction::Task(0, TaskAction::OpenSession),
            FleetAction::Task(1, TaskAction::OpenSession),
            FleetAction::Task(2, TaskAction::OpenSession),
            FleetAction::Task(3, TaskAction::OpenSession),
        ]
    );
    assert_eq!(run.fleet.phase(), BatchPhase::Running);
}

#[test]
fn a_task_report_steps_that_task_alone() {
    let run = Run::begin(3).driver(DriverReport::Started);
    let (run, actions) = run.report(Report::Task(1, Event::SessionOpened));
    assert_eq!(
        actions,
        vec![FleetAction::Task(1, TaskAction::Navigate("https://qiita.com/".to_string()))]
    );
    assert_eq!(run.fleet.task(0), Some(TaskState::Opening));
    assert_eq!(run.fleet.task(1), Some(TaskState::Navigating));
    assert_eq!(run.fleet.task(2), Some(TaskState::Opening));
}

#[test]
fn three_tasks_each_print_four_lines_and_the_driver_stops_once() {
    for turns in [round_robin(3), one_after_another(3), shuffled(3, 7), shuffled(3, 2024)] {
        let run = interleaved(&[None, None, None], &turns);
        for task in 0..3 {
            assert_eq!(
                run.printed(task),
                vec!["0: link 0", "1: link 1", "3: link 3", "4: link 4"]
            );
            assert_eq!(run.fleet.task(task), Some(TaskState::Finished(Ok(()))));
        }
        assert_eq!(run.count(FleetAction::StartDriver), 1);
        assert_eq!(run.count(FleetAction::StopDriver), 1);
        assert_eq!(run.actions.last(), Some(&FleetAction::StopDriver));
        assert_eq!(run.fleet.phase(), BatchPhase::Stopping);
        let run = run.driver(DriverReport::Stopped);
        assert_eq!(run.count(FleetAction::StopDriver), 1);
        assert_eq!(
            run.actions.last(),
            Some(&FleetAction::LogElapsed(Checkpoint::BatchEnd))
        );
        assert_eq!(
            run.fleet.outcome(),
            Some(BatchOutcome::Completed(vec![(0, Ok(())), (1, Ok(())), (2, Ok(()))]))
        );
    }
}

#[test]
fn a_task_failing_at_any_step_leaves_the_others_as_they_were() {
    for n in 1..5usize {
        for turns in [round_robin(n), one_after_another(n), shuffled(n, 99)] {
            let clean = interleaved(&vec![None; n], &turns);
            for failing in 0..n {
                for step in [0usize, 1, 3, 5] {
                    let mut fails = vec![None; n];
                    fails[failing] = Some(step);
                    let faulty = interleaved(&fails, &turns);
                    for other in (0..n).filter(|t| *t != failing) {
                        assert_eq!(faulty.of_task(other), clean.of_task(other));
                        assert_eq!(faulty.fleet.task(other), clean.fleet.task(other));
                        assert_eq!(faulty.fleet.task(other), Some(TaskState::Finished(Ok(()))));
                        assert_eq!(faulty.printed(other).len(), 4);
                    }
                    assert_eq!(
                        faulty.fleet.task(failing),
                        Some(TaskState::Finished(expected_outcome(Some(step))))
                    );
                    assert_eq!(faulty.count(FleetAction::StopDriver), 1);
                    let faulty = faulty.driver(DriverReport::Stopped);
                    let failed = expected_outcome(Some(step));
                    let expected: Vec<(usize, TaskOutcome)> =
                        (0..n).map(|t| (t, if t == failing { failed } else { Ok(()) })).collect();
                    assert_eq!(faulty.fleet.outcome(), Some(BatchOutcome::Completed(expected)));
                }
            }
        }
    }
}

#[test]
fn a_failing_task_reports_its_failure_and_abandons_its_session() {
    let run = interleaved(&[Some(1)], &one_after_another(1));
    assert_eq!(
        run.of_task(0),
        vec![
            &TaskAction::OpenSession,
            &TaskAction::Navigate("https://qiita.com/".to_string()),
            &TaskAction::ReportFailure(ErrorKind::NavigationError),
        ]
    );
    assert_eq!(run.count(FleetAction::StopDriver), 1);
}

#[test]
fn the_stop_is_not_asked_for_while_a_slow_task_runs() {
    let n = 4;
    let slow = 2;
    let mut scripts: Vec<std::collections::VecDeque<Event>> =
        (0..n).map(|_| script(None).into()).collect();
    let mut run = Run::begin(n).driver(DriverReport::Started);
    for task in (0..n).filter(|t| *t != slow) {
        while let Some(event) = scripts[task].pop_front() {
            run = run.task(task, event);
            assert_eq!(run.count(FleetAction::StopDriver), 0);
        }
    }
    assert_eq!(run.fleet.phase(), BatchPhase::Running);
    let run = run.driver(DriverReport::Stopped);
    assert_eq!(run.fleet.phase(), BatchPhase::Running);
    let mut run = run;
    while let Some(event) = scripts[slow].pop_front() {
        assert_eq!(run.count(FleetAction::StopDriver), 0);
        run = run.task(slow, event);
    }
    assert_eq!(run.count(FleetAction::StopDriver), 1);
    assert_eq!(run.actions.last(), Some(&FleetAction::StopDriver));
    let position = run.actions.iter().position(|a| *a == FleetAction::StopDriver).unwrap();
    assert_eq!(position, run.actions.len() - 1);
}

#[test]
fn the_last_task_to_end_is_logged_before_the_stop() {
    let run = interleaved(&[None, None], &one_after_another(2));
    let tail = &run.actions[run.actions.len() - 2..];
    assert_eq!(
        tail,
        [
            FleetAction::Task(1, TaskAction::LogElapsed(Checkpoint::TaskEnd)),
            FleetAction::StopDriver,
        ]
    );
}

#[test]
fn one_start_and_one_stop_however_the_tasks_end() {
    let choices = [None, Some(0), Some(1), Some(3), Some(5)];
    for n in 0..4usize {
        for pattern in 0..choices.len().pow(n as u32) {
            let mut rest = pattern;
            let fails: Vec<Option<usize>> = (0..n)
                .map(|_| {
                    let choice = choices[rest % choices.len()];
                    rest /= choices.len();
                    choice
                })
                .collect();
            let turns = if n == 0 { Vec::new() } else { shuffled(n, pattern as u64) };
            let run = interleaved(&fails, &turns).driver(DriverReport::Stopped);
            assert_eq!(run.fleet.phase(), BatchPhase::Done);
            assert_eq!(run.count(FleetAction::StartDriver), 1);
            assert_eq!(run.count(FleetAction::StopDriver), 1);
            assert_eq!(run.actions[0], FleetAction::StartDriver);
        }
    }
}

#[test]
fn a_driver_that_cannot_start_attempts_no_task() {
    for kind in [ErrorKind::ExecutableNotFound, ErrorKind::SpawnError] {
        let run = Run::begin(3)
            .driver(DriverReport::StartFailed(kind))
            .driver(DriverReport::Started)
            .task(0, Event::SessionOpened)
            .task(1, Event::SessionFailed)
            .driver(DriverReport::Stopped);
        assert_eq!(run.actions, vec![FleetAction::StartDriver]);
        assert_eq!(run.fleet.phase(), BatchPhase::Aborted(kind));
        assert_eq!(run.fleet.outcome(), Some(BatchOutcome::Aborted(kind)));
        for task in 0..3 {
            assert_eq!(run.fleet.task(task), Some(TaskState::Opening));
        }
    }
}

#[test]
fn a_task_report_before_the_launch_is_ignored() {
    let (run, actions) = Run::begin(2).report(Report::Task(0, Event::SessionOpened));
    assert!(actions.is_empty());
    assert_eq!(run.fleet.task(0), Some(TaskState::Opening));
    let (run, actions) = run.report(Report::Driver(DriverReport::Started));
    assert_eq!(actions.len(), 2);
    assert_eq!(run.fleet.task(0), Some(TaskState::Opening));
}

#[test]
fn a_report_for_a_task_that_does_not_exist_is_ignored() {
    let run = Run::begin(2).driver(DriverReport::Started);
    let (run, actions) = run.report(Report::Task(2, Event::SessionOpened));
    assert!(actions.is_empty());
    let (run, actions) = run.report(Report::Task(usize::MAX, Event::SessionFailed));
    assert!(actions.is_empty());
    assert_eq!(run.fleet.phase(), BatchPhase::Running);
}

#[test]
fn reports_for_a_task_that_has_ended_change_nothing() {
    let run = interleaved(&[Some(0), None], &[0]);
    assert_eq!(
        run.fleet.task(0),
        Some(TaskState::Finished(Err(ErrorKind::SessionBuildError)))
    );
    let (run, actions) = run.report(Report::Task(0, Event::SessionOpened));
    assert!(actions.is_empty());
    let (run, actions) = run.report(Report::Task(0, Event::SessionFailed));
    assert!(actions.is_empty());
    assert_eq!(
        run.fleet.task(0),
        Some(TaskState::Finished(Err(ErrorKind::SessionBuildError)))
    );
    assert_eq!(run.fleet.phase(), BatchPhase::Running);
    assert_eq!(run.count(FleetAction::StopDriver), 0);
}

#[test]
fn a_failed_stop_is_a_warning_and_completes_the_batch() {
    let run = interleaved(&[None, Some(3)], &round_robin(2));
    let (run, actions) = run.report(Report::Driver(DriverReport::StopFailed));
    assert_eq!(
        actions,
        vec![
            FleetAction::ReportFailure(ErrorKind::TerminationError),
            FleetAction::LogElapsed(Checkpoint::BatchEnd),
        ]
    );
    assert_eq!(
        run.fleet.outcome(),
        Some(BatchOutcome::Completed(vec![(0, Ok(())), (1, Err(ErrorKind::QueryError))]))
    );
}

#[test]
fn a_fleet_without_tasks_stops_the_driver_at_once() {
    let (run, actions) = Run::begin(0).report(Report::Driver(DriverReport::Started));
    assert_eq!(actions, vec![FleetAction::StopDriver]);
    let run = run.driver(DriverReport::Stopped);
    assert_eq!(run.fleet.outcome(), Some(BatchOutcome::Completed(Vec::new())));
}
