//! Shared daemon status payload (used by both IPC transports).

use vstd::prelude::*;

verus! {

/// What `status` reports about a running daemon.
#[derive(Debug, Clone)]
pub struct StatusInfo {
    pub pid: u32,
    pub reminders: usize,
    pub enabled_reminders: usize,
    pub character: String,
    pub next_title: Option<String>,
    /// Seconds until next reminder fires (positive = future).
    pub next_in_secs: Option<i64>,
}

} // verus!
