//! The IPC transport on platforms without Unix domain sockets: the daemon
//! runs, but `status` / `test` / `stop` find no daemon to talk to.

use vstd::prelude::*;

use crate::ipc::{Request, Response};

verus! {

/// Why the stub transport refuses.
pub open spec fn unsupported_text() -> Seq<char> {
    "daemon IPC is not yet supported on this platform"@
}

/// Why serving failed: the transport does not exist on this platform (the
/// `std::io::ErrorKind::Unsupported` case of an I/O error).
#[derive(Debug, Clone, Copy, PartialEq, Eq, Structural)]
pub enum ServeError {
    Unsupported,
}

impl ServeError {
    /// The error's text.
    pub fn message(&self) -> (r: String)
        ensures
            r@ == unsupported_text(),
    {
        match self {
            ServeError::Unsupported => String::from_str("daemon IPC is not yet supported on this platform"),
        }
    }
}

/// Serving is not supported here: always refused as unsupported, without
/// touching `sock_path`.
pub fn serve(sock_path: &str) -> (r: Result<(), ServeError>)
    ensures
        r == Err::<(), ServeError>(ServeError::Unsupported),
{
    Err(ServeError::Unsupported)
}

/// Sending is not supported here: always refused.
pub fn send(sock_path: &str, req: &Request) -> (r: Result<Response, String>)
    ensures
        r matches Err(e) && e@ == unsupported_text(),
{
    Err(String::from_str("daemon IPC is not yet supported on this platform"))
}

} // verus!
