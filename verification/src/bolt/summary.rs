//! What a SUCCESS says about a result stream: that more records are to
//! come, or that the stream has ended, with a summary.

use crate::bolt::response::only_dictionary;
use crate::bolt::response::read_only_dictionary;
use crate::bolt::structs::owned::{lemma_owned_kind, Bolt, BoltMap};
use crate::errors::Error;
use crate::packstream::raw::contents;
use crate::packstream::value::{lookup, Value};
use bytes::Bytes;
use vstd::prelude::*;

verus! {

/// The metadata that the server sends at the end of a stream: counters, plan
/// information, bookmarks.
#[derive(Debug, PartialEq)]
pub struct StreamingSummary {
    pub metadata: BoltMap,
}

/// The state of a result stream after a SUCCESS.
#[derive(Debug, PartialEq)]
pub enum Streaming {
    /// More records can be pulled.
    HasMore,
    /// The stream has ended.
    Done(Box<StreamingSummary>),
}

/// Whether the metadata of a SUCCESS says that more records are to come. It
/// does so with `true` under `has_more`; without that entry the stream has
/// ended.
pub open spec fn has_more(entries: Seq<(Seq<char>, Value)>) -> bool {
    lookup(entries, "has_more"@) == Some(Value::Boolean(true))
}

impl Streaming {
    /// Whether this is what the metadata `entries` says.
    pub open(crate) spec fn says(&self, entries: Seq<(Seq<char>, Value)>) -> bool {
        match self {
            Streaming::HasMore => has_more(entries),
            Streaming::Done(summary) => !has_more(entries) && summary.metadata@ == entries,
        }
    }

    /// What the metadata of a SUCCESS says about the stream.
    pub fn from_metadata(metadata: BoltMap) -> (r: Self)
        ensures
            r.says(metadata@),
    {
        let more: bool = match metadata.get("has_more") {
            Some(v) => {
                proof {
                    lemma_owned_kind(v);
                }
                match v {
                    Bolt::Boolean(b) => *b,
                    _ => false,
                }
            },
            None => false,
        };
        if more {
            Streaming::HasMore
        } else {
            Streaming::Done(Box::new(StreamingSummary { metadata }))
        }
    }

    /// What the encoded metadata of a SUCCESS says about the stream. Fails
    /// with `ProtocolViolation` where `data` is not the encoding of one
    /// dictionary.
    pub fn parse(data: Bytes) -> (r: Result<Self, Error>)
        ensures
            match only_dictionary(1, contents(data)) {
                Ok(entries) => r matches Ok(streaming) && streaming.says(entries),
                Err(e) => r == Err::<Streaming, Error>(Error::ProtocolViolation { detail: e }),
            },
    {
        match read_only_dictionary(1, &data) {
            Ok(metadata) => Ok(Streaming::from_metadata(metadata)),
            Err(e) => Err(Error::ProtocolViolation { detail: e }),
        }
    }
}

} // verus!
