//! The scrape task: what one session does, step by step.
//!
//! The remote calls of a task are made by the caller. After each call the
//! caller reports what came of it, and [`TaskState::step`] answers with the
//! next state and the actions to perform, in order. The last action of a
//! step is the next remote call, unless the task has finished.

use crate::error::ErrorKind;
use crate::links::{link_lines, read_texts, report_lines};
use crate::timing::Checkpoint;
use vstd::prelude::*;

verus! {

/// The page every task navigates to.
pub const TARGET_URL: &'static str = "https://qiita.com/";

/// The tag of the elements whose text is collected.
pub const LINK_TAG: &'static str = "a";

/// The seconds a task waits after navigation for the page to settle.
pub const SETTLE_SECONDS: u64 = 1;

/// How a task ended.
pub type TaskOutcome = Result<(), ErrorKind>;

/// Where a task stands: the remote call it waits for, or how it ended.
#[derive(Clone, Copy, Debug, PartialEq, Eq)]
pub enum TaskState {
    /// Waiting for the session to be opened.
    Opening,
    /// Waiting for the navigation to the target page.
    Navigating,
    /// Waiting for the settling delay to pass.
    Settling,
    /// Waiting for the enumeration of the elements.
    Querying,
    /// Waiting for the texts of the elements.
    Reading,
    /// Waiting for the session to be closed.
    Closing,
    /// Ended, with this outcome.
    Finished(TaskOutcome),
}

/// What the caller reports after a remote call.
pub enum TaskEvent<E> {
    SessionOpened,
    SessionFailed,
    Navigated,
    NavigationFailed,
    Settled,
    ElementsFound,
    QueryFailed,
    /// The text reads of all located elements, in enumeration order.
    TextsRead(Vec<Result<String, E>>),
    SessionClosed,
    CloseFailed,
}

/// Mathematical value of a [`TaskEvent`].
pub enum TaskEventView {
    SessionOpened,
    SessionFailed,
    Navigated,
    NavigationFailed,
    Settled,
    ElementsFound,
    QueryFailed,
    TextsRead(Seq<Option<Seq<char>>>),
    SessionClosed,
    CloseFailed,
}

impl<E> View for TaskEvent<E> {
    type V = TaskEventView;

    open spec fn view(&self) -> TaskEventView {
        match *self {
            TaskEvent::SessionOpened => TaskEventView::SessionOpened,
            TaskEvent::SessionFailed => TaskEventView::SessionFailed,
            TaskEvent::Navigated => TaskEventView::Navigated,
            TaskEvent::NavigationFailed => TaskEventView::NavigationFailed,
            TaskEvent::Settled => TaskEventView::Settled,
            TaskEvent::ElementsFound => TaskEventView::ElementsFound,
            TaskEvent::QueryFailed => TaskEventView::QueryFailed,
            TaskEvent::TextsRead(reads) => TaskEventView::TextsRead(read_texts(reads@)),
            TaskEvent::SessionClosed => TaskEventView::SessionClosed,
            TaskEvent::CloseFailed => TaskEventView::CloseFailed,
        }
    }
}

/// What the caller is asked to do.
#[derive(Debug, PartialEq, Eq)]
pub enum TaskAction {
    /// Open the remote session.
    OpenSession,
    /// Navigate the session to this address.
    Navigate(String),
    /// Log the time elapsed since the task started, under this checkpoint.
    LogElapsed(Checkpoint),
    /// Wait this many seconds.
    Settle(u64),
    /// Enumerate all elements of this tag.
    FindElements(String),
    /// Read the text of every located element, all reads at once.
    ReadTexts,
    /// Print this line.
    PrintLine(String),
    /// Close the session.
    CloseSession,
    /// Print a diagnostic for this failure.
    ReportFailure(ErrorKind),
}

/// Mathematical value of a [`TaskAction`].
pub enum TaskActionView {
    OpenSession,
    Navigate(Seq<char>),
    LogElapsed(Checkpoint),
    Settle(nat),
    FindElements(Seq<char>),
    ReadTexts,
    PrintLine(Seq<char>),
    CloseSession,
    ReportFailure(ErrorKind),
}

impl View for TaskAction {
    type V = TaskActionView;

    open spec fn view(&self) -> TaskActionView {
        match *self {
            TaskAction::OpenSession => TaskActionView::OpenSession,
            TaskAction::Navigate(url) => TaskActionView::Navigate(url@),
            TaskAction::LogElapsed(checkpoint) => TaskActionView::LogElapsed(checkpoint),
            TaskAction::Settle(seconds) => TaskActionView::Settle(seconds as nat),
            TaskAction::FindElements(tag) => TaskActionView::FindElements(tag@),
            TaskAction::ReadTexts => TaskActionView::ReadTexts,
            TaskAction::PrintLine(line) => TaskActionView::PrintLine(line@),
            TaskAction::CloseSession => TaskActionView::CloseSession,
            TaskAction::ReportFailure(kind) => TaskActionView::ReportFailure(kind),
        }
    }
}

impl DeepView for TaskAction {
    type V = TaskActionView;

    open spec fn deep_view(&self) -> TaskActionView {
        self@
    }
}

/// One print action per line, in the order of the lines.
pub open spec fn print_actions(lines: Seq<Seq<char>>) -> Seq<TaskActionView> {
    Seq::new(lines.len(), |i: int| TaskActionView::PrintLine(lines[i]))
}

/// The state and the action a task starts with.
pub open spec fn task_start() -> (TaskState, Seq<TaskActionView>) {
    (TaskState::Opening, seq![TaskActionView::OpenSession])
}

/// A task that ends in failure: it reports the failure and asks for
/// nothing more. The session, if one is open, is abandoned.
pub open spec fn task_fails(kind: ErrorKind) -> (TaskState, Seq<TaskActionView>) {
    (TaskState::Finished(Err(kind)), seq![TaskActionView::ReportFailure(kind)])
}

/// The state after `event` and the actions it calls for. An event that
/// the state does not wait for changes nothing and calls for nothing.
pub open spec fn task_step(state: TaskState, event: TaskEventView) -> (
    TaskState,
    Seq<TaskActionView>,
) {
    match (state, event) {
        (TaskState::Opening, TaskEventView::SessionOpened) => (
            TaskState::Navigating,
            seq![TaskActionView::Navigate(TARGET_URL@)],
        ),
        (TaskState::Opening, TaskEventView::SessionFailed) => task_fails(
            ErrorKind::SessionBuildError,
        ),
        (TaskState::Navigating, TaskEventView::Navigated) => (
            TaskState::Settling,
            seq![
                TaskActionView::LogElapsed(Checkpoint::OpenedPage),
                TaskActionView::Settle(SETTLE_SECONDS as nat),
            ],
        ),
        (TaskState::Navigating, TaskEventView::NavigationFailed) => task_fails(
            ErrorKind::NavigationError,
        ),
        (TaskState::Settling, TaskEventView::Settled) => (
            TaskState::Querying,
            seq![TaskActionView::FindElements(LINK_TAG@)],
        ),
        (TaskState::Querying, TaskEventView::ElementsFound) => (
            TaskState::Reading,
            seq![TaskActionView::LogElapsed(Checkpoint::GotElements), TaskActionView::ReadTexts],
        ),
        (TaskState::Querying, TaskEventView::QueryFailed) => task_fails(ErrorKind::QueryError),
        (TaskState::Reading, TaskEventView::TextsRead(reads)) => (
            TaskState::Closing,
            print_actions(link_lines(reads)).push(TaskActionView::CloseSession),
        ),
        (TaskState::Closing, TaskEventView::SessionClosed) => (
            TaskState::Finished(Ok(())),
            seq![TaskActionView::LogElapsed(Checkpoint::TaskEnd)],
        ),
        (TaskState::Closing, TaskEventView::CloseFailed) => task_fails(ErrorKind::QuitError),
        _ => (state, Seq::empty()),
    }
}

fn fail(kind: ErrorKind) -> (step: (TaskState, Vec<TaskAction>))
    ensures
        step.0 == task_fails(kind).0,
        step.1.deep_view() == task_fails(kind).1,
{
    let mut actions: Vec<TaskAction> = Vec::new();
    actions.push(TaskAction::ReportFailure(kind));
    assert(actions.deep_view() =~= task_fails(kind).1);
    (TaskState::Finished(Err(kind)), actions)
}

fn print_and_close(lines: &Vec<String>) -> (actions: Vec<TaskAction>)
    ensures
        actions.deep_view() == print_actions(lines.deep_view()).push(TaskActionView::CloseSession),
{
    let mut actions: Vec<TaskAction> = Vec::new();
    let mut i: usize = 0;
    while i < lines.len()
        invariant
            i <= lines.len(),
            actions.len() == i,
            forall|k: int|
                0 <= k < i ==> (#[trigger] actions[k])@ == TaskActionView::PrintLine(lines[k]@),
        decreases lines.len() - i,
    {
        actions.push(TaskAction::PrintLine(lines[i].clone()));
        i += 1;
    }
    actions.push(TaskAction::CloseSession);
    assert(actions.deep_view() =~= print_actions(lines.deep_view()).push(
        TaskActionView::CloseSession,
    ));
    actions
}

impl TaskState {
    /// A new task and its first action: to open the session.
    pub fn start() -> (step: (TaskState, Vec<TaskAction>))
        ensures
            step.0 == task_start().0,
            step.1.deep_view() == task_start().1,
    {
        let mut actions: Vec<TaskAction> = Vec::new();
        actions.push(TaskAction::OpenSession);
        assert(actions.deep_view() =~= task_start().1);
        (TaskState::Opening, actions)
    }

    /// Takes the report of a remote call and answers with the next state
    /// and the actions to perform, in order.
    pub fn step<E>(self, event: TaskEvent<E>) -> (step: (TaskState, Vec<TaskAction>))
        ensures
            step.0 == task_step(self, event@).0,
            step.1.deep_view() == task_step(self, event@).1,
    {
        let mut actions: Vec<TaskAction> = Vec::new();
        match (self, event) {
            (TaskState::Opening, TaskEvent::SessionOpened) => {
                actions.push(TaskAction::Navigate(String::from_str(TARGET_URL)));
                assert(actions.deep_view() =~= task_step(self, event@).1);
                (TaskState::Navigating, actions)
            },
            (TaskState::Opening, TaskEvent::SessionFailed) => fail(ErrorKind::SessionBuildError),
            (TaskState::Navigating, TaskEvent::Navigated) => {
                actions.push(TaskAction::LogElapsed(Checkpoint::OpenedPage));
                actions.push(TaskAction::Settle(SETTLE_SECONDS));
                assert(actions.deep_view() =~= task_step(self, event@).1);
                (TaskState::Settling, actions)
            },
            (TaskState::Navigating, TaskEvent::NavigationFailed) => fail(
                ErrorKind::NavigationError,
            ),
            (TaskState::Settling, TaskEvent::Settled) => {
                actions.push(TaskAction::FindElements(String::from_str(LINK_TAG)));
                assert(actions.deep_view() =~= task_step(self, event@).1);
                (TaskState::Querying, actions)
            },
            (TaskState::Querying, TaskEvent::ElementsFound) => {
                actions.push(TaskAction::LogElapsed(Checkpoint::GotElements));
                actions.push(TaskAction::ReadTexts);
                assert(actions.deep_view() =~= task_step(self, event@).1);
                (TaskState::Reading, actions)
            },
            (TaskState::Querying, TaskEvent::QueryFailed) => fail(ErrorKind::QueryError),
            (TaskState::Reading, TaskEvent::TextsRead(reads)) => {
                let lines = report_lines(&reads);
                (TaskState::Closing, print_and_close(&lines))
            },
            (TaskState::Closing, TaskEvent::SessionClosed) => {
                actions.push(TaskAction::LogElapsed(Checkpoint::TaskEnd));
                assert(actions.deep_view() =~= task_step(self, event@).1);
                (TaskState::Finished(Ok(())), actions)
            },
            (TaskState::Closing, TaskEvent::CloseFailed) => fail(ErrorKind::QuitError),
            (state, _) => {
                assert(actions.deep_view() =~= Seq::<TaskActionView>::empty());
                (state, actions)
            },
        }
    }

    /// How the task ended, once it has.
    pub fn outcome(&self) -> (outcome: Option<TaskOutcome>)
        ensures
            outcome == match *self {
                TaskState::Finished(outcome) => Some(outcome),
                _ => None,
            },
    {
        match self {
            TaskState::Finished(outcome) => Some(*outcome),
            _ => None,
        }
    }
}

} // verus!
