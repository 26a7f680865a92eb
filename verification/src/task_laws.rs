//! What holds of every run of a scrape task.

use crate::error::ErrorKind;
use crate::links::{failed_reads, lemma_partial_collection, link_lines, surviving};
use crate::task::{
    print_actions, task_start, task_step, TaskActionView, TaskEventView, TaskOutcome, TaskState,
};
use vstd::prelude::*;

verus! {

/// A run of a task: the state after the caller has reported `events` one
/// by one, and every action asked for so far, in order.
pub open spec fn task_run(events: Seq<TaskEventView>) -> (TaskState, Seq<TaskActionView>)
    decreases events.len(),
{
    if events.len() == 0 {
        task_start()
    } else {
        let before = task_run(events.drop_last());
        let step = task_step(before.0, events.last());
        (step.0, before.1 + step.1)
    }
}

/// The lines that `actions` print, in order.
pub open spec fn printed_lines(actions: Seq<TaskActionView>) -> Seq<Seq<char>>
    decreases actions.len(),
{
    if actions.len() == 0 {
        Seq::empty()
    } else {
        let earlier = printed_lines(actions.drop_last());
        match actions.last() {
            TaskActionView::PrintLine(line) => earlier.push(line),
            _ => earlier,
        }
    }
}

/// Whether `action` is a remote call, whose report the task then waits for.
pub open spec fn is_remote_call(action: TaskActionView) -> bool {
    match action {
        TaskActionView::OpenSession
        | TaskActionView::Navigate(_)
        | TaskActionView::Settle(_)
        | TaskActionView::FindElements(_)
        | TaskActionView::ReadTexts
        | TaskActionView::CloseSession => true,
        _ => false,
    }
}

proof fn lemma_printed_concat(first: Seq<TaskActionView>, second: Seq<TaskActionView>)
    ensures
        printed_lines(first + second) == printed_lines(first) + printed_lines(second),
    decreases second.len(),
{
    if second.len() == 0 {
        assert(first + second =~= first);
        assert(printed_lines(first) + printed_lines(second) =~= printed_lines(first));
    } else {
        lemma_printed_concat(first, second.drop_last());
        assert((first + second).drop_last() =~= first + second.drop_last());
        assert(printed_lines(first + second) =~= printed_lines(first) + printed_lines(second));
    }
}

proof fn lemma_printed_of_prints(lines: Seq<Seq<char>>)
    ensures
        printed_lines(print_actions(lines)) == lines,
    decreases lines.len(),
{
    if lines.len() == 0 {
        assert(printed_lines(print_actions(lines)) =~= lines);
    } else {
        lemma_printed_of_prints(lines.drop_last());
        assert(print_actions(lines).drop_last() =~= print_actions(lines.drop_last()));
        assert(printed_lines(print_actions(lines)) =~= lines);
    }
}

proof fn lemma_printed_none(actions: Seq<TaskActionView>)
    requires
        forall|i: int| 0 <= i < actions.len() ==> !((#[trigger] actions[i]) is PrintLine),
    ensures
        printed_lines(actions) == Seq::<Seq<char>>::empty(),
    decreases actions.len(),
{
    if actions.len() > 0 {
        lemma_printed_none(actions.drop_last());
    }
}

/// Partial collection. Of a scan of `M` reads of which `F` failed, the
/// task prints exactly `M - F` lines: the line of each surviving link, in
/// the order of the scan, and nothing for a failed read. Then it closes the
/// session.
pub proof fn lemma_scan_prints_survivors(reads: Seq<Option<Seq<char>>>)
    ensures
        task_step(TaskState::Reading, TaskEventView::TextsRead(reads)).0 == TaskState::Closing,
        printed_lines(task_step(TaskState::Reading, TaskEventView::TextsRead(reads)).1)
            == link_lines(reads),
        link_lines(reads).len() == surviving(reads).len(),
        link_lines(reads).len() == reads.len() - failed_reads(reads),
        task_step(TaskState::Reading, TaskEventView::TextsRead(reads)).1.last()
            == TaskActionView::CloseSession,
{
    let prints = print_actions(link_lines(reads));
    let actions = task_step(TaskState::Reading, TaskEventView::TextsRead(reads)).1;
    lemma_partial_collection(reads);
    lemma_printed_of_prints(link_lines(reads));
    assert(actions.drop_last() =~= prints);
}

/// A task that has ended stays as it ended and asks for nothing more.
pub proof fn lemma_finished_is_final(outcome: TaskOutcome, event: TaskEventView)
    ensures
        task_step(TaskState::Finished(outcome), event) == (
            TaskState::Finished(outcome),
            Seq::<TaskActionView>::empty(),
        ),
{
}

/// Every step of a task either leaves the task where it was and asks for
/// nothing, or ends the task and asks for no remote call, or asks for
/// exactly one remote call, as its last action.
pub proof fn lemma_step_shape(state: TaskState, event: TaskEventView)
    ensures
        ({
            let step = task_step(state, event);
            ||| step == (state, Seq::<TaskActionView>::empty())
            ||| step.0 is Finished && forall|i: int|
                0 <= i < step.1.len() ==> !is_remote_call(#[trigger] step.1[i])
            ||| step.1.len() > 0 && is_remote_call(step.1.last()) && forall|i: int|
                0 <= i < step.1.len() - 1 ==> !is_remote_call(#[trigger] step.1[i])
        }),
{
}

/// Whether the texts of a scan have been reported to a task in this
/// state. A task that ended in failure may have failed before or after.
pub open spec fn scan_reported(state: TaskState) -> bool {
    match state {
        TaskState::Closing => true,
        TaskState::Finished(Ok(_)) => true,
        TaskState::Finished(Err(kind)) => kind == ErrorKind::QuitError,
        _ => false,
    }
}

/// A task prints the lines of at most one scan. Whatever is reported to
/// it, what it has printed is nothing, or the lines of the scan that one of
/// the reports brought.
pub proof fn lemma_run_prints_one_scan(events: Seq<TaskEventView>)
    ensures
        ({
            let printed = printed_lines(task_run(events).1);
            ||| printed == Seq::<Seq<char>>::empty() && !scan_reported(task_run(events).0)
            ||| scan_reported(task_run(events).0) && exists|i: int|
                0 <= i < events.len() && (#[trigger] events[i]) is TextsRead && printed
                    == link_lines(events[i]->TextsRead_0)
        }),
    decreases events.len(),
{
    if events.len() == 0 {
        lemma_printed_none(task_start().1);
    } else {
        let head = events.drop_last();
        lemma_run_prints_one_scan(head);
        let before = task_run(head);
        let step = task_step(before.0, events.last());
        lemma_printed_concat(before.1, step.1);
        let printed_before = printed_lines(before.1);
        if before.0 == TaskState::Reading && events.last() is TextsRead {
            let reads = events.last()->TextsRead_0;
            lemma_scan_prints_survivors(reads);
            assert(printed_lines(task_run(events).1) =~= link_lines(reads));
            assert(events[events.len() - 1] is TextsRead);
        } else {
            lemma_printed_none(step.1);
            assert(printed_lines(task_run(events).1) =~= printed_before);
            if scan_reported(before.0) {
                let i = choose|i: int|
                    0 <= i < head.len() && (#[trigger] head[i]) is TextsRead && printed_before
                        == link_lines(head[i]->TextsRead_0);
                assert(events[i] == head[i]);
            }
        }
    }
}

} // verus!
