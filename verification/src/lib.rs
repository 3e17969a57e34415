//! Walking Reminder engine: reminders, recurrence, persistence decisions,
//! configuration and the daemon's scheduling rules.

pub mod sys;
pub mod text;
pub mod time;
pub mod util;
pub mod paths;
pub mod config;
pub mod store;
pub mod character;
pub mod startup;
pub mod ui;
pub mod commands;
pub mod menu;
pub mod model;
pub mod recurrence;
pub mod queue;
pub mod runner_status;
pub mod ipc;
pub mod ipc_stub;
pub mod runner;
