//! The ways in which an exchange can fail.

use vstd::prelude::*;

verus! {

/// Why an operation of this library, or of the system under it, failed.
#[derive(Debug, PartialEq, Eq, Copy, Clone, Structural)]
pub enum Failure {
    /// A file or directory does not exist.
    NotFound,
    /// Input that is not what the protocol allows: text that is no UTF-8, a
    /// chunk size that is no number.
    InvalidData,
    /// A call that the state of a machine does not allow, or a setting that
    /// cannot be used.
    InvalidInput,
    /// A stream ended before the message was complete.
    UnexpectedEof,
    /// Any other failure reported by the system.
    Other,
}

} // verus!
