//! Messages of the local IPC protocol: one JSON request per connection,
//! one JSON response. The CLI, tests and other local processes talk to the
//! daemon through these; the socket transport lives with the program.

use vstd::prelude::*;

pub use crate::runner_status::StatusInfo;

verus! {

/// A request to the daemon.
#[derive(Debug, Clone)]
pub enum Request {
    /// Liveness + info probe from `status`.
    Ping,
    /// Trigger a test walk immediately (from `test`).
    Show { message: String, character: Option<String> },
    /// Graceful shutdown (from `stop`).
    Stop,
}

/// The daemon's answer.
#[derive(Debug, Clone)]
pub struct Response {
    pub ok: bool,
    pub error: Option<String>,
    pub info: Option<StatusInfo>,
}

impl Response {
    /// A successful answer, with the daemon's status when asked for it.
    pub fn ok(info: Option<StatusInfo>) -> (r: Response)
        ensures
            r.ok,
            r.error is None,
            r.info == info,
    {
        Response { ok: true, error: None, info }
    }

    /// A refusal carrying `msg`.
    pub fn err(msg: &str) -> (r: Response)
        ensures
            !r.ok,
            r.error matches Some(e) && e@ == msg@,
            r.info is None,
    {
        Response { ok: false, error: Some(String::from_str(msg)), info: None }
    }
}

} // verus!
