//! The kinds of failure a batch run can meet.

use vstd::prelude::*;

verus! {

/// Why a step of a batch run failed.
#[derive(Clone, Copy, Debug, PartialEq, Eq, Structural)]
pub enum ErrorKind {
    /// The driver executable is not on the executable search path.
    ExecutableNotFound,
    /// The operating system refused to spawn the driver process.
    SpawnError,
    /// The remote session could not be opened.
    SessionBuildError,
    /// The session could not navigate to the target page.
    NavigationError,
    /// The session could not enumerate the elements.
    QueryError,
    /// One element did not yield its text.
    ElementReadError,
    /// The session could not be closed.
    QuitError,
    /// The operating system refused to terminate the driver process.
    TerminationError,
}

/// The name under which a kind of failure is reported.
pub open spec fn error_name(kind: ErrorKind) -> Seq<char> {
    match kind {
        ErrorKind::ExecutableNotFound => "ExecutableNotFound"@,
        ErrorKind::SpawnError => "SpawnError"@,
        ErrorKind::SessionBuildError => "SessionBuildError"@,
        ErrorKind::NavigationError => "NavigationError"@,
        ErrorKind::QueryError => "QueryError"@,
        ErrorKind::ElementReadError => "ElementReadError"@,
        ErrorKind::QuitError => "QuitError"@,
        ErrorKind::TerminationError => "TerminationError"@,
    }
}

impl ErrorKind {
    /// The name under which this kind of failure is reported.
    pub fn name(&self) -> (name: &'static str)
        ensures
            name@ == error_name(*self),
    {
        match self {
            ErrorKind::ExecutableNotFound => "ExecutableNotFound",
            ErrorKind::SpawnError => "SpawnError",
            ErrorKind::SessionBuildError => "SessionBuildError",
            ErrorKind::NavigationError => "NavigationError",
            ErrorKind::QueryError => "QueryError",
            ErrorKind::ElementReadError => "ElementReadError",
            ErrorKind::QuitError => "QuitError",
            ErrorKind::TerminationError => "TerminationError",
        }
    }
}

} // verus!
