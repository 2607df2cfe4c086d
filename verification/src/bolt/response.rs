//! The responses that a server sends: SUCCESS, FAILURE, IGNORED and RECORD.

use crate::bolt::structs::owned::{all_owned_whole, owned_values, Bolt, BoltMap};
use crate::bolt::structs::{all_whole, lemma_view_kind, values_of, BoltRef};
use crate::errors::Violation;
use crate::packstream::de::{decode_value, decoded, deferred};
use crate::packstream::raw::contents;
use crate::packstream::value::{lookup, Value};
use bytes::Bytes;
use vstd::pervasive::unreached;
use vstd::prelude::*;

verus! {

pub const TAG_SUCCESS: u8 = 0x70;

pub const TAG_RECORD: u8 = 0x71;

pub const TAG_IGNORED: u8 = 0x7E;

pub const TAG_FAILURE: u8 = 0x7F;

/// What a response says.
pub ghost enum Reply {
    /// The request succeeded; the entries of the metadata.
    Success(Seq<(Seq<char>, Value)>),
    /// The request failed, with a code and a message for the user.
    Failure { code: Seq<char>, message: Seq<char> },
    /// The request was ignored, because an earlier one failed.
    Ignored,
    /// One record of a result; its values.
    Record(Seq<Value>),
}

/// The string that `entries` holds under `key`, if it holds a string there.
pub open spec fn text_under(entries: Seq<(Seq<char>, Value)>, key: Seq<char>) -> Option<
    Seq<char>,
> {
    match lookup(entries, key) {
        Some(Value::String(s)) => Some(s),
        _ => None,
    }
}

/// The dictionary that is the only field of a message with `fields` fields
/// and the payload `payload`.
pub open spec fn only_dictionary(fields: u8, payload: Seq<u8>) -> Result<
    Seq<(Seq<char>, Value)>,
    Violation,
> {
    if fields != 1 {
        Err(Violation::FieldCount)
    } else {
        match decoded(payload) {
            Err(e) => Err(e),
            Ok(Value::Dictionary(entries)) => Ok(entries),
            Ok(_) => Err(Violation::InvalidField),
        }
    }
}

/// What the message `s` says, or why it is no response.
///
/// A SUCCESS and a FAILURE have one field, a dictionary; that of a FAILURE
/// holds strings under `code` and `message`. An IGNORED has no field. A
/// RECORD has one field, a list.
pub open spec fn parse_reply(s: Seq<u8>) -> Result<Reply, Violation> {
    match deferred(s) {
        Err(e) => Err(e),
        Ok(header) => {
            let payload = s.skip(2);
            if header.tag == TAG_SUCCESS {
                match only_dictionary(header.fields, payload) {
                    Err(e) => Err(e),
                    Ok(entries) => Ok(Reply::Success(entries)),
                }
            } else if header.tag == TAG_FAILURE {
                match only_dictionary(header.fields, payload) {
                    Err(e) => Err(e),
                    Ok(entries) => match (
                        text_under(entries, "code"@),
                        text_under(entries, "message"@),
                    ) {
                        (Some(code), Some(message)) => Ok(Reply::Failure { code, message }),
                        _ => Err(Violation::InvalidField),
                    },
                }
            } else if header.tag == TAG_IGNORED {
                if header.fields != 0 {
                    Err(Violation::FieldCount)
                } else if payload.len() != 0 {
                    Err(Violation::TrailingBytes)
                } else {
                    Ok(Reply::Ignored)
                }
            } else if header.tag == TAG_RECORD {
                if header.fields != 1 {
                    Err(Violation::FieldCount)
                } else {
                    match decoded(payload) {
                        Err(e) => Err(e),
                        Ok(Value::List(items)) => Ok(Reply::Record(items)),
                        Ok(_) => Err(Violation::InvalidField),
                    }
                }
            } else {
                Err(Violation::UnexpectedTag)
            }
        },
    }
}

/// The response to a request that succeeded.
#[derive(Debug, PartialEq)]
pub struct Success {
    pub metadata: BoltMap,
}

/// The response to a request that failed.
#[derive(Debug, Clone, PartialEq, Eq)]
pub struct Failure {
    pub code: String,
    pub message: String,
}

impl Failure {
    /// The code that classifies the failure.
    pub fn code(&self) -> (r: &str)
        ensures
            r@ == self.code@,
    {
        self.code.as_str()
    }

    /// The message for the user.
    pub fn message(&self) -> (r: &str)
        ensures
            r@ == self.message@,
    {
        self.message.as_str()
    }
}

/// One record of a result. Its values are kept as the bytes of their list and
/// decoded on demand.
#[derive(Debug, PartialEq, Eq)]
pub struct Record {
    pub(crate) data: Bytes,
}

/// The items of the list that `raw` encodes; empty where it encodes none.
pub open spec fn items_of(raw: Seq<u8>) -> Seq<Value> {
    match decoded(raw) {
        Ok(Value::List(items)) => items,
        _ => Seq::empty(),
    }
}

/// Whether `raw` is the encoding of one list, whole and nothing more.
pub open spec fn is_list(raw: Seq<u8>) -> bool {
    decoded(raw) matches Ok(Value::List(_))
}

impl Record {
    /// The bytes are the encoding of one list.
    #[verifier::type_invariant]
    pub(crate) open spec fn inv(self) -> bool {
        is_list(contents(self.data))
    }

    /// The values of this record.
    pub open(crate) spec fn view(&self) -> Seq<Value> {
        items_of(contents(self.data))
    }

    /// The bytes of the list of the values of this record.
    pub open(crate) spec fn raw(&self) -> Seq<u8> {
        contents(self.data)
    }

    /// The record of the values in `data`, where `data` is the encoding of
    /// one list; else why it is none.
    pub fn new(data: Bytes) -> (r: Result<Record, Violation>)
        ensures
            match decoded(contents(data)) {
                Err(e) => r == Err::<Record, Violation>(e),
                Ok(Value::List(items)) => r matches Ok(record) && record@ == items && record.raw()
                    == contents(data),
                Ok(_) => r == Err::<Record, Violation>(Violation::InvalidField),
            },
    {
        let checked: bool = match decode_value(&data) {
            Err(e) => {
                return Err(e);
            },
            Ok(v) => {
                proof {
                    lemma_view_kind(&v);
                }
                matches!(v, BoltRef::List(_))
            },
        };
        if checked {
            Ok(Record { data })
        } else {
            Err(Violation::InvalidField)
        }
    }

    /// The values of this record, decoded anew. Their strings are views into
    /// the record.
    pub fn values(&self) -> (r: Vec<BoltRef<'_>>)
        ensures
            values_of(r@) == self@,
            all_whole(r@),
    {
        proof {
            use_type_invariant(self);
        }
        match decode_value(&self.data) {
            Ok(BoltRef::List(items)) => {
                proof {
                    lemma_view_kind(&BoltRef::List(items));
                }
                items
            },
            Ok(other) => {
                proof {
                    lemma_view_kind(&other);
                }
                unreached()
            },
            Err(_) => unreached(),
        }
    }

    /// The values of this record as values that own their memory.
    pub fn to_owned_values(&self) -> (r: Vec<Bolt>)
        ensures
            owned_values(r@) == self@,
            all_owned_whole(r@),
    {
        let found: Vec<BoltRef<'_>> = self.values();
        let ghost found_seq = found@;
        let mut out: Vec<Bolt> = Vec::new();
        for x in it: found
            invariant
                it.seq() == found_seq,
                out@.len() == it.index(),
                all_whole(found_seq),
                all_owned_whole(out@),
                forall|j: int| 0 <= j < out@.len() ==> (#[trigger] out@[j])@ == found_seq[j]@,
        {
            out.push(Bolt::of(x));
        }
        assert(owned_values(out@) =~= values_of(found_seq));
        out
    }
}

impl Clone for Record {
    fn clone(&self) -> (r: Self)
        ensures
            r@ == self@,
            r.raw() == self.raw(),
    {
        proof {
            use_type_invariant(self);
        }
        Record { data: self.data.clone() }
    }
}

/// The dictionary that is the only field of a message, as a dictionary that
/// owns its memory.
pub(crate) fn read_only_dictionary(fields: u8, payload: &Bytes) -> (r: Result<BoltMap, Violation>)
    ensures
        match only_dictionary(fields, contents(*payload)) {
            Ok(entries) => r matches Ok(map) && map@ == entries,
            Err(e) => r == Err::<BoltMap, Violation>(e),
        },
{
    if fields != 1 {
        return Err(Violation::FieldCount);
    }
    match decode_value(payload) {
        Err(e) => Err(e),
        Ok(BoltRef::Dictionary(map)) => Ok(BoltMap::from(map)),
        Ok(other) => {
            proof {
                lemma_view_kind(&other);
            }
            Err(Violation::InvalidField)
        },
    }
}

/// An owned copy of the string that `map` holds under `key`, if it holds a
/// string there.
pub(crate) fn read_text(map: &BoltMap, key: &str) -> (r: Option<String>)
    ensures
        match text_under(map@, key@) {
            Some(s) => r matches Some(text) && text@ == s,
            None => r is None,
        },
{
    match map.get(key) {
        Some(v) => {
            proof {
                crate::bolt::structs::owned::lemma_owned_kind(v);
            }
            match v {
                Bolt::String(s) => Some(s.clone()),
                _ => None,
            }
        },
        None => None,
    }
}

} // verus!
