//! Core of a client driver for a graph database that speaks a binary,
//! chunked request/response protocol.
//!
//! The crate holds what decides whether such a driver behaves:
//!
//! - [`packstream`]: the codec, which turns values into bytes and bytes into
//!   values, and leaves the properties of nodes and relationships undecoded
//!   until they are asked for;
//! - [`bolt`]: the values, the requests and the responses;
//! - [`chunk`] and [`handshake`]: the framing of messages and the agreement
//!   on a protocol version;
//! - [`connection`]: the state machine of a connection;
//! - [`stream`]: the engine that turns a query into pulls of records and
//!   hands the rows out in order.
//!
//! Nothing here reads from a socket or waits for one. The state machine and
//! the engine say what to send and take in what was received; whoever owns
//! the socket does the sending and receiving.
//!
//! Every function is verified against its contract, but for the few that
//! call into other crates: the byte buffers of `bytes`, the UTF-8 check of
//! the standard library, the calendars of `chrono` and `time`, and the
//! errors of `deadpool` and of the operating system. Each of those holds
//! the calls and nothing else, and says above it what it takes on trust.
//!
//! The contracts are stated over the model of a value in
//! [`packstream::value::Value`] and over plain sequences of bytes; the laws
//! that tie the functions together stand in [`packstream::laws`],
//! [`stream`], [`connection`] and [`chunk`].

pub mod bolt;
pub mod chunk;
pub mod connection;
pub mod errors;
pub mod handshake;
pub mod messages;
pub mod packstream;
pub mod row;
pub mod stream;
pub mod version;

pub use crate::bolt::structs::{
    Bolt, BoltMap, BoltRef, Date, DateTime, DateTimeZoneId, DateTimeZoneIdRef, Duration,
    LegacyDateTime, LegacyDateTimeZoneId, LegacyDateTimeZoneIdRef, LocalDateTime, LocalTime,
    MapRef, Node, NodeRef, Path, PathRef, Point2D, Point3D, Relationship, Segment, Time,
    UnboundRelationship,
};
pub use crate::bolt::structs::de::decode_as;
pub use crate::bolt::summary::{Streaming, StreamingSummary};
pub use crate::bolt::{Discard, Pull};
pub use crate::connection::{Connection, ConnectionState};
pub use crate::errors::{Error, Violation};
pub use crate::messages::{BoltRequest, BoltResponse};
pub use crate::packstream::de::{decode, decode_deferred};
pub use crate::packstream::ser::encode;
pub use crate::row::Row;
pub use crate::stream::{DetachedRowStream, Next, RowItem, RowStream};
pub use crate::version::Version;
