//! The closed set of errors that the driver core reports.

use vstd::prelude::*;

verus! {

/// The kind of a length-prefixed container on the wire.
#[derive(Clone, Copy, Debug, PartialEq, Eq, Structural)]
pub enum Container {
    Bytes,
    String,
    List,
    Dictionary,
}

/// Why a byte sequence is not a well-formed message or value.
#[derive(Clone, Copy, Debug, PartialEq, Eq)]
pub enum Violation {
    /// The input ends before the value, chunk or message is complete.
    UnexpectedEnd,
    /// A marker byte that is unassigned, or that does not fit its position.
    UnexpectedMarker,
    /// A structure or message tag that is unknown, or that does not fit its position.
    UnexpectedTag,
    /// A string payload that is not valid UTF-8.
    InvalidUtf8,
    /// A dictionary holds the same key twice.
    DuplicateKey,
    /// A structure's field count does not fit its tag.
    FieldCount,
    /// A structure's field has the wrong type, or a value outside its range.
    InvalidField,
    /// Bytes follow the end of the value or message.
    TrailingBytes,
    /// A message that the current state does not admit.
    UnexpectedMessage,
    /// A response that cannot be the answer to the request named.
    UnexpectedResponse { context: &'static str },
}

/// Why a decoded value does not fit what the caller asked for.
#[derive(Clone, Debug, PartialEq, Eq)]
pub enum Mismatch {
    /// The dictionary has no entry under this key.
    MissingField { name: String },
    /// The value is not of the kind that was asked for.
    WrongType,
    /// The value does not fit the caller's type, for the reason given.
    Other { detail: String },
}

/// What can go wrong between the caller and the server.
#[allow(inconsistent_fields)]
#[derive(Clone, Debug, PartialEq, Eq)]
pub enum Error {
    /// The socket failed. The connection cannot be used again.
    Io { detail: String },
    /// The server accepted none of the proposed protocol versions.
    UnsupportedVersion,
    /// The server refused the credentials.
    AuthenticationFailed { code: String, message: String },
    /// The bytes received are not what the protocol allows. The connection
    /// cannot be used again.
    ProtocolViolation { detail: Violation },
    /// The server reported a failure of the named request. The connection
    /// can be used again after a reset.
    ServerFailure { code: String, message: String, context: &'static str },
    /// The server ignored the named request, because an earlier request
    /// failed and the connection was not reset since.
    Ignored { context: &'static str },
    /// The named integer does not fit 64 bits with a sign.
    IntegerOverflow { field: &'static str },
    /// A container is too long for a 32-bit length.
    TooLong { container: Container },
    /// A decoded value does not fit what the caller asked for.
    Deserialization { detail: Mismatch },
    /// No connection could be had from the pool in time.
    PoolExhausted,
}

} // verus!

verus! {

#[verifier::external_type_specification]
#[verifier::external_body]
#[verifier::reject_recursive_types(E)]
pub struct ExPoolError<E>(deadpool::managed::PoolError<E>);

#[verifier::external_type_specification]
#[verifier::external_body]
pub struct ExIoError(std::io::Error);

/// Why the pool handed out no connection.
#[derive(Debug, PartialEq, Eq)]
pub enum PoolFault {
    /// Waiting for a connection took too long.
    Timeout,
    /// Making or recycling a connection failed with this error.
    Backend(Error),
    /// The pool is closed.
    Closed,
    /// The pool was set up without a runtime.
    NoRuntimeSpecified,
    /// A hook that runs on new connections failed.
    PostCreateHook,
}

/// Tells the variants of `deadpool::managed::PoolError` apart, and takes the
/// driver's own error out of the one that carries it.
#[verifier::external_body]
fn sort_pool_error(e: deadpool::managed::PoolError<Error>) -> (r: PoolFault) {
    match e {
        deadpool::managed::PoolError::Timeout(_) => PoolFault::Timeout,
        deadpool::managed::PoolError::Backend(e) => PoolFault::Backend(e),
        deadpool::managed::PoolError::Closed => PoolFault::Closed,
        deadpool::managed::PoolError::NoRuntimeSpecified => PoolFault::NoRuntimeSpecified,
        deadpool::managed::PoolError::PostCreateHook(_) => PoolFault::PostCreateHook,
    }
}

/// Calls `to_string` on an error of the operating system, which gives the
/// text that describes it.
#[verifier::external_body]
fn describe_io_error(e: &std::io::Error) -> (r: String) {
    e.to_string()
}

impl Error {
    /// The error that the caller sees where the pool handed out no
    /// connection: the driver's own error where the pool failed with one,
    /// else that the pool is exhausted.
    pub fn from_pool_fault(fault: PoolFault) -> (r: Error)
        ensures
            r == match fault {
                PoolFault::Backend(e) => e,
                _ => Error::PoolExhausted,
            },
    {
        match fault {
            PoolFault::Backend(e) => e,
            _ => Error::PoolExhausted,
        }
    }

    /// The error that the caller sees where the socket failed with the
    /// description `detail`.
    pub fn from_io_detail(detail: String) -> (r: Error)
        ensures
            r == (Error::Io { detail }),
    {
        Error::Io { detail }
    }
}

impl vstd::std_specs::convert::FromSpecImpl<deadpool::managed::PoolError<Error>> for Error {
    open spec fn obeys_from_spec() -> bool {
        false
    }

    open spec fn from_spec(e: deadpool::managed::PoolError<Error>) -> Error {
        arbitrary()
    }
}

impl From<deadpool::managed::PoolError<Error>> for Error {
    fn from(e: deadpool::managed::PoolError<Error>) -> (r: Error) {
        Error::from_pool_fault(sort_pool_error(e))
    }
}

impl vstd::std_specs::convert::FromSpecImpl<std::io::Error> for Error {
    open spec fn obeys_from_spec() -> bool {
        false
    }

    open spec fn from_spec(e: std::io::Error) -> Error {
        arbitrary()
    }
}

impl From<std::io::Error> for Error {
    fn from(e: std::io::Error) -> (r: Error)
        ensures
            r is Io,
    {
        Error::from_io_detail(describe_io_error(&e))
    }
}

} // verus!
