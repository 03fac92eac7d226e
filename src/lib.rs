//! The scheduling core of a daemon that runs batches of database statements
//! on a cron-like schedule: the schedule engine, the event file reader, and
//! the decisions of the tick loop, the transaction units, the serialized
//! queue and the shutdown coordinator.

/// Character-level text operations with their specifications.
pub mod text;
/// Schedule fields, schedules, and when a schedule is due.
pub mod cron;
/// Reading schedules from text.
pub mod cron_parse;
/// Reading event files.
pub mod events;
/// Short summaries of statements for the log.
pub mod action;
/// Transaction units and the serialized queue.
pub mod execution;
/// The tick loop and the shutdown coordinator.
pub mod scheduler;
/// Database configuration checks.
pub mod db;
/// Program arguments.
pub mod args;
/// Where shutdown signals come from.
pub mod signal;
