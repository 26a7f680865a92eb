//! Orchestration core for a batch of concurrent browser sessions that share
//! one local automation driver.
//!
//! The crate holds the rules of the batch: how a driver is launched for each
//! browser, what a scrape task does after each remote call, which element
//! texts survive a partially failed read, and when the driver process may be
//! stopped. The remote calls themselves are made by the caller, who feeds the
//! outcomes back as reports.
//!
//! - [`provider`], [`capabilities`] and [`driver`]: what differs between the
//!   browsers, and the launch of the driver.
//! - [`links`], [`text`] and [`timing`]: the lines a run prints.
//! - [`task`]: one scrape task, step by step.
//! - [`batch`]: the lifecycle of the driver process around the tasks.
//! - [`fleet`]: the orchestrator and its tasks together, fed with the
//!   reports of all of them in whatever order they arrive.
//! - [`task_laws`], [`batch_laws`] and [`fleet_laws`]: what holds of every
//!   run.

pub mod batch;
pub mod batch_laws;
pub mod capabilities;
pub mod driver;
pub mod error;
pub mod fleet;
pub mod fleet_laws;
pub mod links;
pub mod provider;
pub mod task;
pub mod task_laws;
pub mod text;
pub mod timing;
