//! Locating the driver executable and preparing its launch.
//!
//! The process itself belongs to the caller, who spawns it from the
//! prepared launch and owns the handle until the batch lets it stop the
//! process.

use crate::error::ErrorKind;
use crate::fleet::DriverReport;
use crate::provider::{driver_args, SessionConfig};
use std::path::PathBuf;
use vstd::prelude::*;

verus! {

/// `std::path::PathBuf`, the path of an executable, carried through as it
/// is.
#[verifier::external_type_specification]
#[verifier::external_body]
pub struct ExPathBuf(PathBuf);

/// `which::Error`, the failure of a lookup on the executable search path.
/// The library reads nothing from it.
#[verifier::external_type_specification]
#[verifier::external_body]
pub struct ExLookupError(which::Error);

/// `which::which`: looks for an executable named `name` in the directories
/// of the executable search path. The answer depends on the machine, so
/// nothing is said of it.
#[verifier::external_body]
fn find_executable(name: &str) -> (found: Result<PathBuf, which::Error>) {
    which::which(name)
}

/// A resolved driver launch: the path of the executable and the arguments
/// to spawn it with.
#[derive(Debug)]
pub struct DriverLaunch {
    pub program: PathBuf,
    pub args: Vec<String>,
}

/// What a lookup on the executable search path means for the driver: the
/// path where one was found, `ExecutableNotFound` where none was.
pub fn located(found: Result<PathBuf, which::Error>) -> (path: Result<PathBuf, ErrorKind>)
    ensures
        match found {
            Ok(program) => path == Ok::<PathBuf, ErrorKind>(program),
            Err(_) => path == Err::<PathBuf, ErrorKind>(ErrorKind::ExecutableNotFound),
        },
{
    match found {
        Ok(program) => Ok(program),
        Err(_) => Err(ErrorKind::ExecutableNotFound),
    }
}

/// What an attempt to spawn the driver process means for the batch: the
/// driver has started where the operating system spawned the process, and
/// has failed to start with `SpawnError` where it refused.
pub fn spawn_report<P, E>(spawned: &Result<P, E>) -> (report: DriverReport)
    ensures
        report == match *spawned {
            Ok(_) => DriverReport::Started,
            Err(_) => DriverReport::StartFailed(ErrorKind::SpawnError),
        },
{
    match spawned {
        Ok(_) => DriverReport::Started,
        Err(_) => DriverReport::StartFailed(ErrorKind::SpawnError),
    }
}

/// Locates the executable `name` on the executable search path. The only
/// failure is `ExecutableNotFound`.
pub fn get_driver(name: &str) -> (path: Result<PathBuf, ErrorKind>)
    ensures
        path is Err ==> path == Err::<PathBuf, ErrorKind>(ErrorKind::ExecutableNotFound),
{
    located(find_executable(name))
}

impl DriverLaunch {
    /// The launch of the driver at `program`: the arguments bind it to the
    /// configured port, in the spelling of the configured browser.
    pub fn new(config: &SessionConfig, program: PathBuf) -> (launch: DriverLaunch)
        ensures
            launch.program == program,
            launch.args.deep_view() == driver_args(config.browser, config.port),
    {
        DriverLaunch { program, args: config.launch_command().args }
    }
}

/// Prepares the launch of the configured browser's driver: resolves the
/// driver executable on the executable search path and attaches the port
/// arguments. Fails with `ExecutableNotFound` where the executable is not
/// found.
pub fn prepare_launch(config: &SessionConfig) -> (launch: Result<DriverLaunch, ErrorKind>)
    ensures
        match launch {
            Ok(launch) => launch.args.deep_view() == driver_args(config.browser, config.port),
            Err(kind) => kind == ErrorKind::ExecutableNotFound,
        },
{
    match get_driver(config.browser.executable()) {
        Ok(program) => Ok(DriverLaunch::new(config, program)),
        Err(kind) => Err(kind),
    }
}

} // verus!
