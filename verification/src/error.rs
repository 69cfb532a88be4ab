use vstd::prelude::*;

verus! {

/// Errors shared by every part of the proxy.
#[derive(Debug, PartialEq, Eq)]
pub enum Error {
    /// An I/O failure, carried as its message.
    Io(String),
    Config(String),
    Protocol(String),
    BackendUnavailable,
    Timeout,
    InvalidState(String),
}

/// `e` is a protocol error with the message `msg`.
pub open spec fn is_protocol(e: Error, msg: Seq<char>) -> bool {
    e matches Error::Protocol(m) && m@ == msg
}

/// Builds a protocol error from its message.
pub fn protocol_error(msg: &str) -> (e: Error)
    ensures
        e matches Error::Protocol(m) && m@ == msg@,
{
    Error::Protocol(String::from_str(msg))
}

} // verus!
