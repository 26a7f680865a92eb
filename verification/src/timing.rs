//! Timing lines: how long after its start a run reached a checkpoint.

use crate::text::{decimal, decimal_pad3, decimal_pad3_string, decimal_string};
use vstd::prelude::*;

verus! {

/// The points of a run at which the elapsed time is logged.
#[derive(Clone, Copy, Debug, PartialEq, Eq, Structural)]
pub enum Checkpoint {
    /// A task has navigated to the target page.
    OpenedPage,
    /// A task has enumerated the elements.
    GotElements,
    /// A task has closed its session.
    TaskEnd,
    /// The batch has stopped the driver process.
    BatchEnd,
}

/// The tag a checkpoint is logged under.
pub open spec fn checkpoint_tag(checkpoint: Checkpoint) -> Seq<char> {
    match checkpoint {
        Checkpoint::OpenedPage => "Opened Page"@,
        Checkpoint::GotElements => "Got A Element"@,
        Checkpoint::TaskEnd => "End"@,
        Checkpoint::BatchEnd => "End of all process"@,
    }
}

impl Checkpoint {
    /// The tag this checkpoint is logged under.
    pub fn tag(&self) -> (tag: &'static str)
        ensures
            tag@ == checkpoint_tag(*self),
    {
        match self {
            Checkpoint::OpenedPage => "Opened Page",
            Checkpoint::GotElements => "Got A Element",
            Checkpoint::TaskEnd => "End",
            Checkpoint::BatchEnd => "End of all process",
        }
    }
}

/// An elapsed time as it is logged: whole seconds, a dot, the milliseconds
/// of the running second in at least three digits, and the unit sign.
pub open spec fn elapsed_text(secs: nat, subsec_nanos: nat) -> Seq<char> {
    decimal(secs) + seq!['.'] + decimal_pad3(subsec_nanos / 1_000_000) + "秒"@
}

/// A timing line: the elapsed time, behind the tag, a colon and a space
/// where there is a tag.
pub open spec fn timing_line(secs: nat, subsec_nanos: nat, tag: Option<Seq<char>>) -> Seq<char> {
    match tag {
        Some(tag) => tag + seq![':', ' '] + elapsed_text(secs, subsec_nanos),
        None => elapsed_text(secs, subsec_nanos),
    }
}

/// Formats the timing line for a duration of `secs` whole seconds and
/// `subsec_nanos` nanoseconds into the running second.
pub fn format_elapsed(secs: u64, subsec_nanos: u32, tag: Option<&str>) -> (line: String)
    ensures
        line@ == timing_line(
            secs as nat,
            subsec_nanos as nat,
            match tag {
                Some(tag) => Some(tag@),
                None => None,
            },
        ),
{
    let millis: u32 = subsec_nanos / 1_000_000;
    let mut text = decimal_string(secs);
    proof {
        reveal_strlit(".");
        reveal_strlit(": ");
    }
    text.append(".");
    text.append(decimal_pad3_string(millis as u64).as_str());
    text.append("秒");
    assert(text@ =~= elapsed_text(secs as nat, subsec_nanos as nat));
    match tag {
        Some(tag) => {
            let mut line = String::from_str(tag);
            line.append(": ");
            line.append(text.as_str());
            assert(line@ =~= tag@ + seq![':', ' '] + elapsed_text(
                secs as nat,
                subsec_nanos as nat,
            ));
            line
        },
        None => text,
    }
}

/// Formats the timing line of a checkpoint.
pub fn checkpoint_line(checkpoint: Checkpoint, secs: u64, subsec_nanos: u32) -> (line: String)
    ensures
        line@ == timing_line(secs as nat, subsec_nanos as nat, Some(checkpoint_tag(checkpoint))),
{
    format_elapsed(secs, subsec_nanos, Some(checkpoint.tag()))
}

} // verus!
