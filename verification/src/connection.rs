//! The state of one connection: which request may be sent, and what a
//! response means.
//!
//! At most one request is under way on a connection. The machine here does
//! no input or output: its caller sends and receives, and tells the machine
//! what was sent and what came back.

use crate::bolt::response::{parse_reply, Reply};
use crate::bolt::summary::has_more;
use crate::errors::{Error, Violation};
use crate::messages::{BoltRequest, BoltResponse};
use crate::packstream::raw::contents;
use crate::packstream::value::{lookup, Value};
use crate::version::Version;
use bytes::Bytes;
use vstd::prelude::*;

verus! {

/// The state of a connection.
#[derive(Clone, Copy, Debug, PartialEq, Eq, Structural)]
pub enum ConnectionState {
    /// No handshake was made.
    Disconnected,
    /// The handshake agreed on a version; no HELLO was sent.
    Negotiated(Version),
    /// HELLO was sent; the server has not answered.
    Authenticating,
    /// The connection is idle and takes a query or a transaction.
    Ready,
    /// A result stream is open outside a transaction.
    Streaming { qid: i64 },
    /// A transaction is open; no result stream is.
    TxBegun,
    /// A result stream is open inside a transaction.
    TxStreaming { qid: i64 },
    /// A request failed. Every request but RESET is ignored.
    Failed,
    /// The caller gave up a request under way. Only RESET helps.
    Interrupted,
    /// The connection is of no use any more.
    Closed,
}

/// The kinds of requests.
#[derive(Clone, Copy, Debug, PartialEq, Eq, Structural)]
pub enum RequestKind {
    Hello,
    Goodbye,
    Reset,
    Run,
    Discard,
    Pull,
    Begin,
    Commit,
    Rollback,
}

/// What a response means to the connection.
#[derive(Clone, Copy, Debug, PartialEq, Eq, Structural)]
pub enum Signal {
    /// A SUCCESS. `has_more` says whether a stream goes on; `qid` is the id
    /// of a stream that was opened, where the server names one.
    Success { has_more: bool, qid: Option<i64> },
    Failure,
    Ignored,
    Record,
}

/// What a response did to the request under way.
#[derive(Clone, Copy, Debug, PartialEq, Eq, Structural)]
pub enum Progress {
    /// The request is answered.
    Completed,
    /// A record came; the request is still under way.
    Detail,
    /// A response to a request that was given up came, and was dropped.
    Drained,
}

/// A connection: its state and the request under way, if there is one.
#[derive(Clone, Copy, Debug, PartialEq, Eq, Structural)]
pub struct Connection {
    pub state: ConnectionState,
    pub pending: Option<RequestKind>,
}

/// Why a response does not answer the request under way.
#[derive(Clone, Copy, Debug, PartialEq, Eq, Structural)]
pub enum Rejection {
    /// The server reported a failure of the request.
    Failure(RequestKind),
    /// The server refused the credentials.
    Authentication,
    /// The server ignored the request.
    Ignored(RequestKind),
    /// The response does not fit; the connection is closed.
    Unexpected,
}

/// Whether a connection in the state `state`, with no request under way,
/// may send a request of the kind `kind`.
pub open spec fn admits(state: ConnectionState, kind: RequestKind) -> bool {
    match state {
        ConnectionState::Closed | ConnectionState::Disconnected => false,
        ConnectionState::Negotiated(_) => kind is Hello || kind is Goodbye,
        ConnectionState::Authenticating => false,
        ConnectionState::Ready => kind is Run || kind is Begin || kind is Goodbye,
        ConnectionState::Streaming { .. } | ConnectionState::TxStreaming { .. } => kind is Pull
            || kind is Discard || kind is Goodbye,
        ConnectionState::TxBegun => kind is Run || kind is Commit || kind is Rollback
            || kind is Goodbye,
        ConnectionState::Failed => true,
        ConnectionState::Interrupted => kind is Goodbye,
    }
}

/// The connection after a request of the kind `kind` was sent; `None` where
/// the request may not be sent.
///
/// A RESET may be sent in every state but `Closed`, also while a request is
/// under way, which it replaces. Every other request waits for the request
/// under way to be answered. A GOODBYE closes the connection.
pub open spec fn sent(c: Connection, kind: RequestKind) -> Option<Connection> {
    if c.state is Closed {
        None
    } else if kind is Reset {
        Some(Connection { state: c.state, pending: Some(kind) })
    } else if c.pending is Some || !admits(c.state, kind) {
        None
    } else if kind is Goodbye {
        Some(Connection { state: ConnectionState::Closed, pending: None })
    } else if kind is Hello && c.state is Negotiated {
        Some(Connection { state: ConnectionState::Authenticating, pending: Some(kind) })
    } else {
        Some(Connection { state: c.state, pending: Some(kind) })
    }
}

/// The state after a request of the kind `kind`, sent in the state `state`,
/// was answered with a SUCCESS.
pub open spec fn succeeded(
    state: ConnectionState,
    kind: RequestKind,
    more: bool,
    qid: Option<i64>,
) -> ConnectionState {
    let id = match qid {
        Some(q) => q,
        None => -1i64,
    };
    match (state, kind) {
        (ConnectionState::Authenticating, RequestKind::Hello) => ConnectionState::Ready,
        (ConnectionState::Ready, RequestKind::Run) => ConnectionState::Streaming { qid: id },
        (ConnectionState::Ready, RequestKind::Begin) => ConnectionState::TxBegun,
        (ConnectionState::TxBegun, RequestKind::Run) => ConnectionState::TxStreaming { qid: id },
        (ConnectionState::TxBegun, RequestKind::Commit) => ConnectionState::Ready,
        (ConnectionState::TxBegun, RequestKind::Rollback) => ConnectionState::Ready,
        (ConnectionState::Streaming { qid }, _) => if more {
            ConnectionState::Streaming { qid }
        } else {
            ConnectionState::Ready
        },
        (ConnectionState::TxStreaming { qid }, _) => if more {
            ConnectionState::TxStreaming { qid }
        } else {
            ConnectionState::TxBegun
        },
        _ => ConnectionState::Closed,
    }
}

/// The connection after the response `signal` was received, and what the
/// response did.
///
/// While a RESET is under way, records and IGNORED answers to what was
/// given up are dropped, and a SUCCESS makes the connection ready. In the
/// state `Failed` every other request is answered with IGNORED, and the
/// state stays. Otherwise a SUCCESS moves the connection on, a FAILURE makes
/// it `Failed` (or closes it, where it answers a HELLO), and a record keeps
/// a PULL under way. Every other response closes the connection.
pub open spec fn received(c: Connection, signal: Signal) -> (Connection, Result<
    Progress,
    Rejection,
>) {
    let closed = Connection { state: ConnectionState::Closed, pending: None };
    match c.pending {
        None => (closed, Err(Rejection::Unexpected)),
        Some(kind) => {
            if c.state is Closed {
                (closed, Err(Rejection::Unexpected))
            } else if kind is Reset {
                match signal {
                    Signal::Success { .. } => (
                        Connection { state: ConnectionState::Ready, pending: None },
                        Ok(Progress::Completed),
                    ),
                    Signal::Failure => (closed, Err(Rejection::Failure(kind))),
                    _ => (c, Ok(Progress::Drained)),
                }
            } else if c.state is Failed {
                match signal {
                    Signal::Ignored => (
                        Connection { state: c.state, pending: None },
                        Err(Rejection::Ignored(kind)),
                    ),
                    _ => (closed, Err(Rejection::Unexpected)),
                }
            } else {
                match signal {
                    Signal::Success { has_more, qid } => {
                        let next = succeeded(c.state, kind, has_more, qid);
                        if next is Closed {
                            (closed, Err(Rejection::Unexpected))
                        } else {
                            (Connection { state: next, pending: None }, Ok(Progress::Completed))
                        }
                    },
                    Signal::Failure => if kind is Hello {
                        (closed, Err(Rejection::Authentication))
                    } else {
                        (
                            Connection { state: ConnectionState::Failed, pending: None },
                            Err(Rejection::Failure(kind)),
                        )
                    },
                    Signal::Record => if kind is Pull {
                        (c, Ok(Progress::Detail))
                    } else {
                        (closed, Err(Rejection::Unexpected))
                    },
                    Signal::Ignored => (closed, Err(Rejection::Unexpected)),
                }
            }
        },
    }
}

/// The integer that `entries` holds under `key`, if it holds one there.
pub open spec fn int_under(entries: Seq<(Seq<char>, Value)>, key: Seq<char>) -> Option<i64> {
    match lookup(entries, key) {
        Some(Value::Integer(i)) => Some(i),
        _ => None,
    }
}

/// What a response means to the connection.
pub open spec fn signal_of(reply: Reply) -> Signal {
    match reply {
        Reply::Success(entries) => Signal::Success {
            has_more: has_more(entries),
            qid: int_under(entries, "qid"@),
        },
        Reply::Failure { .. } => Signal::Failure,
        Reply::Ignored => Signal::Ignored,
        Reply::Record(_) => Signal::Record,
    }
}

/// The kind of a request.
pub open spec fn kind_of(request: BoltRequest) -> RequestKind {
    match request {
        BoltRequest::Hello(_) => RequestKind::Hello,
        BoltRequest::Goodbye(_) => RequestKind::Goodbye,
        BoltRequest::Reset(_) => RequestKind::Reset,
        BoltRequest::Run(_) => RequestKind::Run,
        BoltRequest::Discard(_) => RequestKind::Discard,
        BoltRequest::Pull(_) => RequestKind::Pull,
        BoltRequest::Begin(_) => RequestKind::Begin,
        BoltRequest::Commit(_) => RequestKind::Commit,
        BoltRequest::Rollback(_) => RequestKind::Rollback,
    }
}

impl RequestKind {
    /// The kind of the request `request`.
    pub fn of(request: &BoltRequest) -> (r: RequestKind)
        ensures
            r == kind_of(*request),
    {
        match request {
            BoltRequest::Hello(_) => RequestKind::Hello,
            BoltRequest::Goodbye(_) => RequestKind::Goodbye,
            BoltRequest::Reset(_) => RequestKind::Reset,
            BoltRequest::Run(_) => RequestKind::Run,
            BoltRequest::Discard(_) => RequestKind::Discard,
            BoltRequest::Pull(_) => RequestKind::Pull,
            BoltRequest::Begin(_) => RequestKind::Begin,
            BoltRequest::Commit(_) => RequestKind::Commit,
            BoltRequest::Rollback(_) => RequestKind::Rollback,
        }
    }

    /// The name of the request, as it stands in errors.
    pub fn name(self) -> (r: &'static str)
        ensures
            r == self.spec_name(),
    {
        match self {
            RequestKind::Hello => "HELLO",
            RequestKind::Goodbye => "GOODBYE",
            RequestKind::Reset => "RESET",
            RequestKind::Run => "RUN",
            RequestKind::Discard => "DISCARD",
            RequestKind::Pull => "PULL",
            RequestKind::Begin => "BEGIN",
            RequestKind::Commit => "COMMIT",
            RequestKind::Rollback => "ROLLBACK",
        }
    }

    /// The name of the request, as it stands in errors.
    pub open spec fn spec_name(self) -> &'static str {
        match self {
            RequestKind::Hello => "HELLO",
            RequestKind::Goodbye => "GOODBYE",
            RequestKind::Reset => "RESET",
            RequestKind::Run => "RUN",
            RequestKind::Discard => "DISCARD",
            RequestKind::Pull => "PULL",
            RequestKind::Begin => "BEGIN",
            RequestKind::Commit => "COMMIT",
            RequestKind::Rollback => "ROLLBACK",
        }
    }
}

impl Signal {
    /// What the response `response` means to the connection.
    pub fn of(response: &BoltResponse) -> (r: Signal)
        ensures
            r == signal_of(response@),
    {
        match response {
            BoltResponse::Success(success) => {
                let more: bool = match success.metadata.get("has_more") {
                    Some(v) => {
                        proof {
                            crate::bolt::structs::owned::lemma_owned_kind(v);
                        }
                        match v {
                            crate::bolt::structs::Bolt::Boolean(b) => *b,
                            _ => false,
                        }
                    },
                    None => false,
                };
                let qid: Option<i64> = match success.metadata.get("qid") {
                    Some(v) => {
                        proof {
                            crate::bolt::structs::owned::lemma_owned_kind(v);
                        }
                        match v {
                            crate::bolt::structs::Bolt::Integer(i) => Some(*i),
                            _ => None,
                        }
                    },
                    None => None,
                };
                Signal::Success { has_more: more, qid }
            },
            BoltResponse::Failure(_) => Signal::Failure,
            BoltResponse::Ignored => Signal::Ignored,
            BoltResponse::Record(_) => Signal::Record,
        }
    }
}

/// Whether `e` is the error that the rejection `rejection` of the response
/// `reply` is reported as.
pub open spec fn reports(e: Error, rejection: Rejection, reply: Reply) -> bool {
    match rejection {
        Rejection::Failure(kind) => match (e, reply) {
            (
                Error::ServerFailure { code, message, context },
                Reply::Failure { code: c, message: m },
            ) => context == kind.spec_name() && code@ == c && message@ == m,
            _ => false,
        },
        Rejection::Authentication => match (e, reply) {
            (
                Error::AuthenticationFailed { code, message },
                Reply::Failure { code: c, message: m },
            ) => code@ == c && message@ == m,
            _ => false,
        },
        Rejection::Ignored(kind) => e == (Error::Ignored { context: kind.spec_name() }),
        Rejection::Unexpected => e == (
            Error::ProtocolViolation { detail: Violation::UnexpectedMessage }
        ),
    }
}

impl Connection {
    /// A connection before the handshake.
    pub fn new() -> (r: Self)
        ensures
            r == (Connection { state: ConnectionState::Disconnected, pending: None }),
    {
        Connection { state: ConnectionState::Disconnected, pending: None }
    }

    /// The state of this connection.
    pub fn state(&self) -> (r: ConnectionState)
        ensures
            r == self.state,
    {
        self.state
    }

    /// Whether the connection can go back to the pool as it is: it is ready,
    /// and no request is under way.
    pub fn is_reusable(&self) -> (r: bool)
        ensures
            r == (self.state is Ready && self.pending is None),
    {
        matches!(self.state, ConnectionState::Ready) && self.pending.is_none()
    }

    /// Takes in the outcome of the handshake: the version that was agreed
    /// on, or the error that the handshake ended with, which closes the
    /// connection.
    pub fn negotiated(&mut self, outcome: &Result<Version, Error>) -> (r: bool)
        ensures
            r == (old(self).state is Disconnected && outcome is Ok),
            *final(self) == if old(self).state is Disconnected && outcome is Ok {
                Connection {
                    state: ConnectionState::Negotiated(outcome->Ok_0),
                    pending: None,
                }
            } else {
                Connection { state: ConnectionState::Closed, pending: None }
            },
    {
        match (self.state, outcome) {
            (ConnectionState::Disconnected, Ok(version)) => {
                self.state = ConnectionState::Negotiated(*version);
                self.pending = None;
                true
            },
            _ => {
                self.state = ConnectionState::Closed;
                self.pending = None;
                false
            },
        }
    }

    /// Whether a request of the kind `kind` may be sent now.
    fn may_send(&self, kind: RequestKind) -> (r: bool)
        ensures
            r == admits(self.state, kind),
    {
        match self.state {
            ConnectionState::Closed | ConnectionState::Disconnected => false,
            ConnectionState::Negotiated(_) => matches!(
                kind,
                RequestKind::Hello | RequestKind::Goodbye
            ),
            ConnectionState::Authenticating => false,
            ConnectionState::Ready => matches!(
                kind,
                RequestKind::Run | RequestKind::Begin | RequestKind::Goodbye
            ),
            ConnectionState::Streaming { .. } | ConnectionState::TxStreaming { .. } => matches!(
                kind,
                RequestKind::Pull | RequestKind::Discard | RequestKind::Goodbye
            ),
            ConnectionState::TxBegun => matches!(
                kind,
                RequestKind::Run | RequestKind::Commit | RequestKind::Rollback
                    | RequestKind::Goodbye
            ),
            ConnectionState::Failed => true,
            ConnectionState::Interrupted => matches!(kind, RequestKind::Goodbye),
        }
    }

    /// Takes note that a request of the kind `kind` is sent. Where the
    /// request may not be sent now, the connection stays as it is and the
    /// call fails: the request must not go out.
    pub fn send(&mut self, kind: RequestKind) -> (r: Result<(), Error>)
        ensures
            match sent(*old(self), kind) {
                Some(c) => r is Ok && *final(self) == c,
                None => r == Err::<(), Error>(
                    Error::ProtocolViolation { detail: Violation::UnexpectedMessage },
                ) && *final(self) == *old(self),
            },
    {
        let refused: Result<(), Error> = Err(
            Error::ProtocolViolation { detail: Violation::UnexpectedMessage },
        );
        if matches!(self.state, ConnectionState::Closed) {
            return refused;
        }
        if matches!(kind, RequestKind::Reset) {
            self.pending = Some(kind);
            return Ok(());
        }
        if self.pending.is_some() || !self.may_send(kind) {
            return refused;
        }
        match kind {
            RequestKind::Goodbye => {
                self.state = ConnectionState::Closed;
                self.pending = None;
            },
            RequestKind::Hello => {
                if matches!(self.state, ConnectionState::Negotiated(_)) {
                    self.state = ConnectionState::Authenticating;
                }
                self.pending = Some(kind);
            },
            _ => {
                self.pending = Some(kind);
            },
        }
        Ok(())
    }

    /// The state after the request `kind` was answered with a SUCCESS.
    fn after_success(&self, kind: RequestKind, more: bool, qid: Option<i64>) -> (r:
        ConnectionState)
        ensures
            r == succeeded(self.state, kind, more, qid),
    {
        let id: i64 = match qid {
            Some(q) => q,
            None => -1,
        };
        match (self.state, kind) {
            (ConnectionState::Authenticating, RequestKind::Hello) => ConnectionState::Ready,
            (ConnectionState::Ready, RequestKind::Run) => ConnectionState::Streaming { qid: id },
            (ConnectionState::Ready, RequestKind::Begin) => ConnectionState::TxBegun,
            (ConnectionState::TxBegun, RequestKind::Run) => ConnectionState::TxStreaming {
                qid: id,
            },
            (ConnectionState::TxBegun, RequestKind::Commit) => ConnectionState::Ready,
            (ConnectionState::TxBegun, RequestKind::Rollback) => ConnectionState::Ready,
            (ConnectionState::Streaming { qid }, _) => if more {
                ConnectionState::Streaming { qid }
            } else {
                ConnectionState::Ready
            },
            (ConnectionState::TxStreaming { qid }, _) => if more {
                ConnectionState::TxStreaming { qid }
            } else {
                ConnectionState::TxBegun
            },
            _ => ConnectionState::Closed,
        }
    }

    /// Takes in what a response means, and says what it did to the request
    /// under way.
    pub fn take(&mut self, signal: Signal) -> (r: Result<Progress, Rejection>)
        ensures
            (*final(self), r) == received(*old(self), signal),
    {
        let closed = Connection { state: ConnectionState::Closed, pending: None };
        let kind: RequestKind = match self.pending {
            None => {
                *self = closed;
                return Err(Rejection::Unexpected);
            },
            Some(kind) => kind,
        };
        if matches!(self.state, ConnectionState::Closed) {
            *self = closed;
            return Err(Rejection::Unexpected);
        }
        if matches!(kind, RequestKind::Reset) {
            return match signal {
                Signal::Success { .. } => {
                    self.state = ConnectionState::Ready;
                    self.pending = None;
                    Ok(Progress::Completed)
                },
                Signal::Failure => {
                    *self = closed;
                    Err(Rejection::Failure(kind))
                },
                _ => Ok(Progress::Drained),
            };
        }
        if matches!(self.state, ConnectionState::Failed) {
            return match signal {
                Signal::Ignored => {
                    self.pending = None;
                    Err(Rejection::Ignored(kind))
                },
                _ => {
                    *self = closed;
                    Err(Rejection::Unexpected)
                },
            };
        }
        match signal {
            Signal::Success { has_more, qid } => {
                let next = self.after_success(kind, has_more, qid);
                if matches!(next, ConnectionState::Closed) {
                    *self = closed;
                    Err(Rejection::Unexpected)
                } else {
                    self.state = next;
                    self.pending = None;
                    Ok(Progress::Completed)
                }
            },
            Signal::Failure => {
                if matches!(kind, RequestKind::Hello) {
                    *self = closed;
                    Err(Rejection::Authentication)
                } else {
                    self.state = ConnectionState::Failed;
                    self.pending = None;
                    Err(Rejection::Failure(kind))
                }
            },
            Signal::Record => {
                if matches!(kind, RequestKind::Pull) {
                    Ok(Progress::Detail)
                } else {
                    *self = closed;
                    Err(Rejection::Unexpected)
                }
            },
            Signal::Ignored => {
                *self = closed;
                Err(Rejection::Unexpected)
            },
        }
    }

    /// Takes in a response, and says what it did to the request under way.
    /// A response that rejects the request is returned as the error that
    /// the caller of the request sees.
    pub fn receive(&mut self, response: &BoltResponse) -> (r: Result<Progress, Error>)
        ensures
            *final(self) == received(*old(self), signal_of(response@)).0,
            match received(*old(self), signal_of(response@)).1 {
                Ok(progress) => r == Ok::<Progress, Error>(progress),
                Err(rejection) => r matches Err(e) && reports(e, rejection, response@),
            },
    {
        match self.take(Signal::of(response)) {
            Ok(progress) => Ok(progress),
            Err(Rejection::Failure(kind)) => match response {
                BoltResponse::Failure(failure) => Err(
                    Error::ServerFailure {
                        code: failure.code.clone(),
                        message: failure.message.clone(),
                        context: kind.name(),
                    },
                ),
                _ => Err(Error::ProtocolViolation { detail: Violation::UnexpectedMessage }),
            },
            Err(Rejection::Authentication) => match response {
                BoltResponse::Failure(failure) => Err(
                    Error::AuthenticationFailed {
                        code: failure.code.clone(),
                        message: failure.message.clone(),
                    },
                ),
                _ => Err(Error::ProtocolViolation { detail: Violation::UnexpectedMessage }),
            },
            Err(Rejection::Ignored(kind)) => Err(Error::Ignored { context: kind.name() }),
            Err(Rejection::Unexpected) => Err(
                Error::ProtocolViolation { detail: Violation::UnexpectedMessage },
            ),
        }
    }

    /// Takes in a response to a request of a row stream, and hands it on
    /// for the stream unless it breaks the protocol. What a FAILURE or an
    /// IGNORED means to the stream is for the stream to say, so they are
    /// handed on too, after the connection has taken note of them.
    pub fn receive_for_stream(&mut self, response: BoltResponse) -> (r: Result<
        BoltResponse,
        Error,
    >)
        ensures
            *final(self) == received(*old(self), signal_of(response@)).0,
            match received(*old(self), signal_of(response@)).1 {
                Err(Rejection::Unexpected) => r == Err::<BoltResponse, Error>(
                    Error::ProtocolViolation { detail: Violation::UnexpectedMessage },
                ),
                _ => r == Ok::<BoltResponse, Error>(response),
            },
    {
        match self.take(Signal::of(&response)) {
            Err(Rejection::Unexpected) => Err(
                Error::ProtocolViolation { detail: Violation::UnexpectedMessage },
            ),
            _ => Ok(response),
        }
    }

    /// Takes in a message that was read from the socket. A message that is
    /// no response closes the connection and is returned as the error that
    /// says why; a response is taken in as `receive` takes it in, and
    /// returned unless it rejects the request under way.
    pub fn accept(&mut self, version: Version, message: Bytes) -> (r: Result<BoltResponse, Error>)
        ensures
            match parse_reply(contents(message)) {
                Err(e) => {
                    &&& *final(self) == (Connection { state: ConnectionState::Closed, pending: None })
                    &&& r == Err::<BoltResponse, Error>(Error::ProtocolViolation { detail: e })
                },
                Ok(reply) => {
                    &&& *final(self) == received(*old(self), signal_of(reply)).0
                    &&& match received(*old(self), signal_of(reply)).1 {
                        Ok(_) => r matches Ok(response) && response@ == reply,
                        Err(rejection) => r matches Err(e) && reports(e, rejection, reply),
                    }
                },
            },
    {
        match BoltResponse::parse(version, message) {
            Err(e) => {
                self.fail();
                Err(e)
            },
            Ok(response) => match self.receive(&response) {
                Ok(_) => Ok(response),
                Err(e) => Err(e),
            },
        }
    }

    /// Takes in a message that was read from the socket for a row stream:
    /// as `accept`, but a response that reports a failure or an ignored
    /// request is returned for the stream, as `receive_for_stream` has it.
    pub fn accept_for_stream(&mut self, version: Version, message: Bytes) -> (r: Result<
        BoltResponse,
        Error,
    >)
        ensures
            match parse_reply(contents(message)) {
                Err(e) => {
                    &&& *final(self) == (Connection { state: ConnectionState::Closed, pending: None })
                    &&& r == Err::<BoltResponse, Error>(Error::ProtocolViolation { detail: e })
                },
                Ok(reply) => {
                    &&& *final(self) == received(*old(self), signal_of(reply)).0
                    &&& match received(*old(self), signal_of(reply)).1 {
                        Err(Rejection::Unexpected) => r == Err::<BoltResponse, Error>(
                            Error::ProtocolViolation { detail: Violation::UnexpectedMessage },
                        ),
                        _ => r matches Ok(response) && response@ == reply,
                    }
                },
            },
    {
        match BoltResponse::parse(version, message) {
            Err(e) => {
                self.fail();
                Err(e)
            },
            Ok(response) => self.receive_for_stream(response),
        }
    }

    /// Whether a connection on which a RESET was sent must go on receiving:
    /// no more once it is ready with no request under way; not at all where
    /// it is closed, which is an error; and else once more.
    pub fn awaits_reset(&self) -> (r: Result<bool, Error>)
        ensures
            r == if self.state is Ready && self.pending is None {
                Ok::<bool, Error>(false)
            } else if self.state is Closed {
                Err::<bool, Error>(
                    Error::ProtocolViolation { detail: Violation::UnexpectedMessage },
                )
            } else {
                Ok::<bool, Error>(true)
            },
    {
        if self.is_reusable() {
            Ok(false)
        } else if matches!(self.state, ConnectionState::Closed) {
            Err(Error::ProtocolViolation { detail: Violation::UnexpectedMessage })
        } else {
            Ok(true)
        }
    }

    /// Takes note that the caller gave up the request under way. The
    /// connection must be reset or destroyed.
    pub fn interrupt(&mut self)
        ensures
            *final(self) == if old(self).pending is Some && !(old(self).state is Closed) {
                Connection { state: ConnectionState::Interrupted, pending: None }
            } else {
                *old(self)
            },
    {
        if self.pending.is_some() && !matches!(self.state, ConnectionState::Closed) {
            self.state = ConnectionState::Interrupted;
            self.pending = None;
        }
    }

    /// Takes note that the socket was closed in the middle of a message:
    /// the connection is closed, and the error says that the input ended
    /// too early.
    pub fn cut_off(&mut self) -> (r: Error)
        ensures
            *final(self) == (Connection { state: ConnectionState::Closed, pending: None }),
            r == (Error::ProtocolViolation { detail: Violation::UnexpectedEnd }),
    {
        self.fail();
        Error::ProtocolViolation { detail: Violation::UnexpectedEnd }
    }

    /// Takes note of a failure of the socket or of a message that broke the
    /// protocol: the connection is closed.
    pub fn fail(&mut self)
        ensures
            *final(self) == (Connection { state: ConnectionState::Closed, pending: None }),
    {
        self.state = ConnectionState::Closed;
        self.pending = None;
    }
}

/// A request that is sent on a failed connection is ignored, and the
/// connection stays failed: the request may be sent, and when the server
/// answers it with IGNORED the connection is as it was before.
pub proof fn lemma_failed_ignores(kind: RequestKind)
    requires
        !(kind is Reset),
        !(kind is Goodbye),
    ensures
        ({
            let failed = Connection { state: ConnectionState::Failed, pending: None };
            &&& sent(failed, kind) == Some(
                Connection { state: ConnectionState::Failed, pending: Some(kind) },
            )
            &&& received(sent(failed, kind)->Some_0, Signal::Ignored) == (
                failed,
                Err::<Progress, Rejection>(Rejection::Ignored(kind)),
            )
        }),
{
}

/// A RESET makes every connection ready that is not closed: it may be sent
/// whatever the state and whatever is under way, and the first SUCCESS that
/// follows it leaves the connection ready with nothing under way.
pub proof fn lemma_reset_recovers(c: Connection, more: bool, qid: Option<i64>)
    requires
        !(c.state is Closed),
    ensures
        sent(c, RequestKind::Reset) is Some,
        received(sent(c, RequestKind::Reset)->Some_0, Signal::Success { has_more: more, qid }) == (
            Connection { state: ConnectionState::Ready, pending: None },
            Ok::<Progress, Rejection>(Progress::Completed),
        ),
{
}

/// While a stream is open, a SUCCESS that says that there is more keeps it
/// open, and one that does not returns the connection to where it was before
/// the stream: ready, or in its transaction.
pub proof fn lemma_stream_ends(qid: i64, kind: RequestKind, more: bool)
    requires
        kind is Pull || kind is Discard,
    ensures
        received(
            Connection { state: ConnectionState::Streaming { qid }, pending: Some(kind) },
            Signal::Success { has_more: more, qid: None },
        ).0 == (Connection {
            state: if more {
                ConnectionState::Streaming { qid }
            } else {
                ConnectionState::Ready
            },
            pending: None,
        }),
        received(
            Connection { state: ConnectionState::TxStreaming { qid }, pending: Some(kind) },
            Signal::Success { has_more: more, qid: None },
        ).0 == (Connection {
            state: if more {
                ConnectionState::TxStreaming { qid }
            } else {
                ConnectionState::TxBegun
            },
            pending: None,
        }),
{
}

} // verus!
