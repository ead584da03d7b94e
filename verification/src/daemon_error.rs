//! Errors raised by the daemon's verified logic.

use vstd::prelude::*;

verus! {

#[derive(Debug, PartialEq, Eq)]
pub enum DaemonError {
    /// Reading or writing a file failed.
    Io(String),
    /// The configuration could not be used.
    Config(String),
    /// The daemon identity could not be loaded or created.
    Identity(String),
    /// The client database refused a change.
    ClientDb(String),
    /// The client has been revoked.
    Revoked(String),
    /// The client is not paired.
    NotPaired(String),
    /// Anything else.
    Internal(String),
}

impl DaemonError {
    /// The error as text, prefixed by its kind (`client-db: ...`).
    pub fn message(&self) -> (r: String)
        ensures
            r@.len() > 0,
    {
        let (prefix, detail) = match self {
            DaemonError::Io(d) => ("I/O: ", d),
            DaemonError::Config(d) => ("config: ", d),
            DaemonError::Identity(d) => ("identity: ", d),
            DaemonError::ClientDb(d) => ("client-db: ", d),
            DaemonError::Revoked(d) => ("revoked: client ", d),
            DaemonError::NotPaired(d) => ("not paired: client ", d),
            DaemonError::Internal(d) => ("internal: ", d),
        };
        proof {
            reveal_strlit("I/O: ");
            reveal_strlit("config: ");
            reveal_strlit("identity: ");
            reveal_strlit("client-db: ");
            reveal_strlit("revoked: client ");
            reveal_strlit("not paired: client ");
            reveal_strlit("internal: ");
        }
        let s = String::from_str(prefix);
        s.concat(detail.as_str())
    }
}

pub type DaemonResult<T> = Result<T, DaemonError>;

} // verus!
