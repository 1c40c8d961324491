//! Error taxonomy of the overlay core.
//!
//! Configuration and bootstrap failures are local errors, failures reported
//! by the far side are remote errors, and I/O failures are recorded with the
//! text the transport gave.

use vstd::prelude::*;

verus! {

/// An error of the overlay: an I/O failure, a failure of this node, or a
/// failure reported by a remote node. Each variant carries its diagnostic
/// text.
#[derive(Debug, Clone)]
pub enum BlueError {
    Io(String),
    Local(String),
    Remote(String),
}

/// The result type used throughout the overlay core.
pub type BlueResult<T> = Result<T, BlueError>;

impl BlueError {
    /// Wraps a diagnostic as a failure of the local node.
    pub fn local_err(msg: String) -> (e: Self)
        ensures
            e == BlueError::Local(msg),
    {
        BlueError::Local(msg)
    }

    /// Wraps a diagnostic as a failure reported by a remote node.
    pub fn remote_err(msg: String) -> (e: Self)
        ensures
            e == BlueError::Remote(msg),
    {
        BlueError::Remote(msg)
    }

    /// Renders the error as a line of text, tagged with its variant.
    pub fn describe(&self) -> (r: String)
        ensures
            self matches BlueError::Io(m) ==> r@ == "io error: "@ + m@,
            self matches BlueError::Local(m) ==> r@ == "local error: "@ + m@,
            self matches BlueError::Remote(m) ==> r@ == "remote error: "@ + m@,
    {
        match self {
            BlueError::Io(m) => String::from_str("io error: ").concat(m.as_str()),
            BlueError::Local(m) => String::from_str("local error: ").concat(m.as_str()),
            BlueError::Remote(m) => String::from_str("remote error: ").concat(m.as_str()),
        }
    }
}

} // verus!
