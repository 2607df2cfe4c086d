//! Requests and responses as the connection sends and receives them.

use crate::bolt::extra::{asked, extra_fields};
use crate::bolt::request::{
    database_entries, message, message_bytes, Begin, Commit, Goodbye, Hello, Reset, Rollback, Run, TAG_BEGIN,
    TAG_COMMIT, TAG_DISCARD, TAG_GOODBYE, TAG_HELLO, TAG_PULL, TAG_RESET, TAG_ROLLBACK, TAG_RUN,
};
use crate::bolt::response::{
    parse_reply, read_only_dictionary, read_text, Failure, Record, Reply, Success, TAG_FAILURE,
    TAG_IGNORED, TAG_RECORD, TAG_SUCCESS,
};
use crate::bolt::structs::owned::BoltMap;
use crate::bolt::{Discard, Pull};
use crate::errors::{Error, Violation};
use crate::packstream::raw::{as_slice, contents, from_vec, slice};
use crate::packstream::value::Value;
use crate::packstream::wire::{parse_head, read_head, Head};
use crate::version::Version;
use bytes::Bytes;
use vstd::prelude::*;

verus! {

/// A response as it was received.
#[derive(Debug, PartialEq)]
pub enum BoltResponse {
    Success(Success),
    Failure(Failure),
    Ignored,
    Record(Record),
}

/// A request, ready to be sent.
#[derive(Debug, PartialEq)]
pub enum BoltRequest {
    Hello(Hello),
    Goodbye(Goodbye),
    Reset(Reset),
    Run(Run),
    Discard(Discard),
    Pull(Pull),
    Begin(Begin),
    Commit(Commit),
    Rollback(Rollback),
}

impl BoltRequest {
    /// The tag of this request.
    pub open spec fn tag(&self) -> u8 {
        match self {
            BoltRequest::Hello(_) => TAG_HELLO,
            BoltRequest::Goodbye(_) => TAG_GOODBYE,
            BoltRequest::Reset(_) => TAG_RESET,
            BoltRequest::Run(_) => TAG_RUN,
            BoltRequest::Discard(_) => TAG_DISCARD,
            BoltRequest::Pull(_) => TAG_PULL,
            BoltRequest::Begin(_) => TAG_BEGIN,
            BoltRequest::Commit(_) => TAG_COMMIT,
            BoltRequest::Rollback(_) => TAG_ROLLBACK,
        }
    }

    /// The fields of this request.
    pub open(crate) spec fn fields(&self) -> Seq<Value> {
        match self {
            BoltRequest::Hello(hello) => hello.fields(),
            BoltRequest::Run(run) => run.fields(),
            BoltRequest::Discard(discard) => extra_fields(discard@),
            BoltRequest::Pull(pull) => extra_fields(pull@),
            BoltRequest::Begin(begin) => begin.fields(),
            _ => Seq::empty(),
        }
    }

    /// A request to run `query` with the parameters `params` on the
    /// database `db`.
    pub fn run(db: &str, query: &str, params: BoltMap) -> (r: BoltRequest)
        ensures
            r matches BoltRequest::Run(run) && run.extra@ == database_entries(Some(db@))
                && run.query@ == query@ && run.params == params,
    {
        BoltRequest::Run(Run::new(Some(db.to_owned()), query.to_owned(), params))
    }

    /// A request for `n` records of the query `qid`. A number that is 0 or
    /// does not fit 64 bits with a sign asks for all records that are left.
    pub fn pull(n: usize, qid: i64) -> (r: BoltRequest)
        ensures
            r matches BoltRequest::Pull(pull) && pull@.qid == Some(qid) && pull@.n == if n
                <= i64::MAX {
                asked(Some(n as i64))
            } else {
                -1i64
            },
    {
        let how_many: Option<i64> = if n as u64 <= i64::MAX as u64 {
            Some(n as i64)
        } else {
            None
        };
        BoltRequest::Pull(Pull::new(how_many, Some(qid)))
    }

    /// A request to drop `n` records of the query `qid`. A number that is 0
    /// or does not fit 64 bits with a sign drops all records that are left.
    pub fn discard(n: usize, qid: i64) -> (r: BoltRequest)
        ensures
            r matches BoltRequest::Discard(discard) && discard@.qid == Some(qid) && discard@.n
                == if n <= i64::MAX {
                asked(Some(n as i64))
            } else {
                -1i64
            },
    {
        let how_many: Option<i64> = if n as u64 <= i64::MAX as u64 {
            Some(n as i64)
        } else {
            None
        };
        BoltRequest::Discard(Discard::new(how_many, Some(qid)))
    }

    /// A request for a transaction on the database `db`.
    pub fn begin(db: &str) -> (r: BoltRequest)
        ensures
            r matches BoltRequest::Begin(begin) && begin.extra@ == database_entries(Some(db@)),
    {
        BoltRequest::Begin(Begin::new(Some(db.to_owned())))
    }

    /// A request to roll the open transaction back.
    pub fn rollback() -> (r: BoltRequest)
        ensures
            r == BoltRequest::Rollback(Rollback),
    {
        BoltRequest::Rollback(Rollback::new())
    }

    /// A request to commit the open transaction.
    pub fn commit() -> (r: BoltRequest)
        ensures
            r == BoltRequest::Commit(Commit),
    {
        BoltRequest::Commit(Commit::new())
    }

    /// A request to clear a failure.
    pub fn reset() -> (r: BoltRequest)
        ensures
            r == BoltRequest::Reset(Reset),
    {
        BoltRequest::Reset(Reset::new())
    }

    /// A request to end the session.
    pub fn goodbye() -> (r: BoltRequest)
        ensures
            r == BoltRequest::Goodbye(Goodbye),
    {
        BoltRequest::Goodbye(Goodbye::new())
    }

    /// The bytes of this request: a structure with the tag of the request
    /// and its fields. The bytes are the same for every version of the
    /// protocol. Fails with `TooLong` where a string, list or dictionary of
    /// the request is too long for a 32-bit length.
    pub fn into_bytes(self, version: Version) -> (r: Result<Bytes, Error>)
        ensures
            match message(self.tag(), self.fields()) {
                Ok(bytes) => r matches Ok(out) && contents(out) == bytes,
                Err(e) => r == Err::<Bytes, Error>(e),
            },
    {
        let written: Vec<u8> = match self {
            BoltRequest::Hello(hello) => hello.to_bytes()?,
            BoltRequest::Goodbye(goodbye) => {
                proof {
                    lemma_no_fields(TAG_GOODBYE);
                }
                goodbye.to_bytes()
            },
            BoltRequest::Reset(reset) => {
                proof {
                    lemma_no_fields(TAG_RESET);
                }
                reset.to_bytes()
            },
            BoltRequest::Run(run) => run.to_bytes()?,
            BoltRequest::Discard(discard) => discard.to_bytes()?,
            BoltRequest::Pull(pull) => pull.to_bytes()?,
            BoltRequest::Begin(begin) => begin.to_bytes()?,
            BoltRequest::Commit(commit) => {
                proof {
                    lemma_no_fields(TAG_COMMIT);
                }
                commit.to_bytes()
            },
            BoltRequest::Rollback(rollback) => {
                proof {
                    lemma_no_fields(TAG_ROLLBACK);
                }
                rollback.to_bytes()
            },
        };
        Ok(from_vec(written))
    }
}

/// A message without fields is always written.
pub proof fn lemma_no_fields(tag: u8)
    ensures
        message(tag, Seq::empty()) == Ok::<Seq<u8>, Error>(message_bytes(tag, Seq::empty())),
{
    assert(crate::packstream::grammar::oversize_items(Seq::<Value>::empty(), 0) is None);
}

impl BoltResponse {
    /// What this response says.
    pub open(crate) spec fn view(&self) -> Reply {
        match self {
            BoltResponse::Success(s) => Reply::Success(s.metadata@),
            BoltResponse::Failure(f) => Reply::Failure { code: f.code@, message: f.message@ },
            BoltResponse::Ignored => Reply::Ignored,
            BoltResponse::Record(r) => Reply::Record(r@),
        }
    }

    /// The response that the message `response` is. The reading is the same
    /// for every version of the protocol. Fails with `ProtocolViolation`
    /// where the message is no response, and says why.
    pub fn parse(version: Version, response: Bytes) -> (r: Result<BoltResponse, Error>)
        ensures
            match parse_reply(contents(response)) {
                Ok(reply) => r matches Ok(parsed) && parsed@ == reply,
                Err(e) => r == Err::<BoltResponse, Error>(Error::ProtocolViolation { detail: e }),
            },
    {
        match Self::read(&response) {
            Ok(parsed) => Ok(parsed),
            Err(e) => Err(Error::ProtocolViolation { detail: e }),
        }
    }

    /// The response that the message `input` is, or why it is none.
    pub fn read(input: &Bytes) -> (r: Result<BoltResponse, Violation>)
        ensures
            match parse_reply(contents(*input)) {
                Ok(reply) => r matches Ok(response) && response@ == reply,
                Err(e) => r == Err::<BoltResponse, Violation>(e),
            },
    {
        let buf: &[u8] = as_slice(input);
        assert(buf@.skip(0) =~= buf@);
        let (fields, tag): (u8, u8) = match read_head(buf, 0) {
            Err(e) => {
                return Err(e);
            },
            Ok((Head::Structure(fields, tag), _)) => (fields, tag),
            Ok(_) => {
                return Err(Violation::UnexpectedMarker);
            },
        };
        proof {
            reveal(parse_head);
        }
        let payload: Bytes = slice(input, 2, buf.len());
        assert(contents(payload) =~= contents(*input).skip(2));
        if tag == TAG_SUCCESS {
            let metadata = read_only_dictionary(fields, &payload)?;
            Ok(BoltResponse::Success(Success { metadata }))
        } else if tag == TAG_FAILURE {
            let metadata = read_only_dictionary(fields, &payload)?;
            let code = read_text(&metadata, "code");
            let message = read_text(&metadata, "message");
            match (code, message) {
                (Some(code), Some(message)) => Ok(BoltResponse::Failure(Failure { code, message })),
                _ => Err(Violation::InvalidField),
            }
        } else if tag == TAG_IGNORED {
            if fields != 0 {
                Err(Violation::FieldCount)
            } else if buf.len() != 2 {
                Err(Violation::TrailingBytes)
            } else {
                Ok(BoltResponse::Ignored)
            }
        } else if tag == TAG_RECORD {
            if fields != 1 {
                return Err(Violation::FieldCount);
            }
            let record = Record::new(payload)?;
            Ok(BoltResponse::Record(record))
        } else {
            Err(Violation::UnexpectedTag)
        }
    }

    /// The error that this response is, as the answer to the request named
    /// `msg`: a failure of the server, a request that was ignored, or, for a
    /// response that reports neither, a response that was not expected.
    /// Each of them names the request.
    pub fn into_error(self, msg: &'static str) -> (r: Error)
        ensures
            match self@ {
                Reply::Failure { code, message } => r matches Error::ServerFailure {
                    code: c,
                    message: m,
                    context,
                } && c@ == code && m@ == message && context == msg,
                Reply::Ignored => r == (Error::Ignored { context: msg }),
                _ => r == (Error::ProtocolViolation {
                    detail: Violation::UnexpectedResponse { context: msg },
                }),
            },
    {
        match self {
            BoltResponse::Failure(failure) => Error::ServerFailure {
                code: failure.code,
                message: failure.message,
                context: msg,
            },
            BoltResponse::Ignored => Error::Ignored { context: msg },
            _ => Error::ProtocolViolation { detail: Violation::UnexpectedResponse { context: msg } },
        }
    }
}

} // verus!
