//! Errors reported to the callers of the library.
use vstd::prelude::*;

verus! {

/// Why an operation failed.
#[derive(Debug, Clone, PartialEq, Eq)]
pub enum EslError {
    /// A protocol violation: a malformed frame or a missing mandatory header.
    InternalError(String),
    /// The switch refused the password.
    AuthFailed,
    /// The transport could not be connected or bound.
    ConnectionError(String),
    /// The switch answered `-ERR` with this text.
    ApiError(String),
    /// The digit collection ended without a value.
    NoInput,
    /// The connection ended before the reply arrived.
    ChannelError,
}

} // verus!
