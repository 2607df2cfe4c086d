//! The row-stream engine: which request to send and which row to hand out,
//! given what the server sent so far.
//!
//! The engine does no input or output. A caller drives it: it asks the
//! engine what to do, sends the request or receives the response that the
//! engine asks for, and hands a received response to the engine with its
//! next call.

use crate::bolt::extra::Extra;
use crate::bolt::response::Reply;
use crate::bolt::summary::{has_more, Streaming, StreamingSummary};
use crate::bolt::{Discard, Pull};
use crate::errors::{Error, Violation};
use crate::messages::{BoltRequest, BoltResponse};
use crate::packstream::value::Value;
use crate::row::{copy_names, names_of, Row, RowModel};
use std::collections::VecDeque;
use vstd::prelude::*;

verus! {

/// Where a stream stands.
pub ghost enum Phase {
    /// More records can be pulled; no request is under way.
    Ready,
    /// A PULL was sent, and its responses are being received.
    Pulling,
    /// A DISCARD was sent, and its response is awaited.
    Discarding,
    /// The stream has ended. The summary is there until it is handed out.
    Complete(Option<Seq<(Seq<char>, Value)>>),
}

/// What a stream is, as far as its behaviour goes.
pub ghost struct StreamModel {
    pub qid: i64,
    pub fields: Seq<Seq<char>>,
    pub fetch_size: nat,
    pub phase: Phase,
    /// The rows that were received and not yet handed out, oldest first.
    pub buffer: Seq<RowModel>,
}

/// What the engine hands out to the consumer.
pub ghost enum Item {
    Row(RowModel),
    Summary(Seq<(Seq<char>, Value)>),
    Done,
}

/// What the engine asks its caller to do.
pub ghost enum Action {
    /// Hand this item to the consumer.
    Yield(Item),
    /// Send a PULL with this content, then ask again.
    Pull(Extra),
    /// Send a DISCARD with this content, then ask again.
    Discard(Extra),
    /// Receive a response, then ask again with it.
    Receive,
    /// The stream is finished, with this summary if there is one.
    Finished(Option<Seq<(Seq<char>, Value)>>),
}

/// Why the engine does not go on.
pub ghost enum Fault {
    /// The server reported a failure of the named request.
    Failure { code: Seq<char>, message: Seq<char>, context: &'static str },
    /// The server ignored the named request.
    Ignored { context: &'static str },
    /// A response came that cannot be the answer to the named request.
    Unexpected { context: &'static str },
    /// A response came while no request was under way.
    Unasked,
}

/// The content of the PULL that a stream sends: as many records as its fetch
/// size says, or all where that is zero or does not fit 64 bits with a
/// sign; of its own query.
pub open spec fn pull_extra(m: StreamModel) -> Extra {
    Extra {
        n: if 0 < m.fetch_size <= i64::MAX {
            m.fetch_size as i64
        } else {
            -1i64
        },
        qid: Some(m.qid),
    }
}

/// The content of the DISCARD that a stream sends: all records of its own
/// query.
pub open spec fn discard_extra(m: StreamModel) -> Extra {
    Extra { n: -1i64, qid: Some(m.qid) }
}

/// A stream as it starts: ready, with nothing received.
pub open spec fn fresh(qid: i64, fields: Seq<Seq<char>>, fetch_size: nat) -> StreamModel {
    StreamModel { qid, fields, fetch_size, phase: Phase::Ready, buffer: Seq::empty() }
}

/// The stream after the response `reply` was received, and the fault that
/// the response is, if it is one.
///
/// While pulling: a record is buffered; a SUCCESS with `has_more` makes the
/// stream ready for the next PULL, one without ends it with its summary; a
/// FAILURE or an IGNORED ends it without, and is a fault. While discarding,
/// the same holds, but for this: an IGNORED is no fault, and a record is
/// a fault that leaves the stream as it is. In any other phase no response
/// is expected: it is a fault, and the stream stays as it is.
pub open spec fn receive(m: StreamModel, reply: Reply) -> (StreamModel, Option<Fault>) {
    match m.phase {
        Phase::Pulling => match reply {
            Reply::Record(values) => (
                StreamModel { buffer: m.buffer.push(RowModel { fields: m.fields, values }), ..m },
                None,
            ),
            Reply::Success(entries) => if has_more(entries) {
                (StreamModel { phase: Phase::Ready, ..m }, None)
            } else {
                (StreamModel { phase: Phase::Complete(Some(entries)), ..m }, None)
            },
            Reply::Failure { code, message } => (
                StreamModel { phase: Phase::Complete(None), ..m },
                Some(Fault::Failure { code, message, context: "PULL" }),
            ),
            Reply::Ignored => (
                StreamModel { phase: Phase::Complete(None), ..m },
                Some(Fault::Ignored { context: "PULL" }),
            ),
        },
        Phase::Discarding => match reply {
            Reply::Record(_) => (m, Some(Fault::Unexpected { context: "DISCARD" })),
            Reply::Success(entries) => if has_more(entries) {
                (StreamModel { phase: Phase::Ready, ..m }, None)
            } else {
                (StreamModel { phase: Phase::Complete(Some(entries)), ..m }, None)
            },
            Reply::Failure { code, message } => (
                StreamModel { phase: Phase::Complete(None), ..m },
                Some(Fault::Failure { code, message, context: "DISCARD" }),
            ),
            Reply::Ignored => (StreamModel { phase: Phase::Complete(None), ..m }, None),
        },
        _ => (m, Some(Fault::Unasked)),
    }
}

/// What the engine does when the consumer asks for the next item, and the
/// stream after that.
///
/// A buffered row is handed out first. Without one: a ready stream sends a
/// PULL; a stream with a request under way receives; a complete stream
/// hands out its summary once, and `Done` from then on.
pub open spec fn advance(m: StreamModel) -> (StreamModel, Action) {
    if m.buffer.len() > 0 {
        (StreamModel { buffer: m.buffer.drop_first(), ..m }, Action::Yield(Item::Row(m.buffer[0])))
    } else {
        match m.phase {
            Phase::Ready => (StreamModel { phase: Phase::Pulling, ..m }, Action::Pull(pull_extra(m))),
            Phase::Pulling | Phase::Discarding => (m, Action::Receive),
            Phase::Complete(Some(summary)) => (
                StreamModel { phase: Phase::Complete(None), ..m },
                Action::Yield(Item::Summary(summary)),
            ),
            Phase::Complete(None) => (m, Action::Yield(Item::Done)),
        }
    }
}

/// What the engine does when the consumer gives the stream up, and the
/// stream after that.
///
/// A complete stream is finished, with its summary if that was not handed
/// out. A ready stream sends a DISCARD for all records that are left. A
/// stream with a request under way receives: the answer to a PULL is
/// awaited before a DISCARD is sent, so that the two answers cannot be
/// taken for each other. Buffered rows are dropped, and so are the records
/// that still come.
pub open spec fn wind_up(m: StreamModel) -> (StreamModel, Action) {
    let emptied = StreamModel { buffer: Seq::empty(), ..m };
    match m.phase {
        Phase::Complete(summary) => (
            StreamModel { phase: Phase::Complete(None), ..emptied },
            Action::Finished(summary),
        ),
        Phase::Pulling | Phase::Discarding => (emptied, Action::Receive),
        Phase::Ready => (
            StreamModel { phase: Phase::Discarding, ..emptied },
            Action::Discard(discard_extra(m)),
        ),
    }
}

/// One call of the engine: what was received, if anything, is taken in; and
/// unless that was a fault, the engine says what to do next.
pub open spec fn step(m: StreamModel, received: Option<Reply>, finishing: bool) -> (
    StreamModel,
    Result<Action, Fault>,
) {
    let (taken, fault) = match received {
        Some(reply) => receive(m, reply),
        None => (m, None),
    };
    match fault {
        Some(f) => (taken, Err(f)),
        None => {
            let (next, action) = if finishing {
                wind_up(taken)
            } else {
                advance(taken)
            };
            (next, Ok(action))
        },
    }
}

/// An item of a stream of rows of type `T`.
#[derive(Debug, PartialEq)]
pub enum RowItem<T = Row> {
    Row(T),
    Summary(Box<StreamingSummary>),
    Done,
}

impl<T> RowItem<T> {
    /// The row, if this item is one.
    pub fn row(&self) -> (r: Option<&T>)
        ensures
            match self {
                RowItem::Row(row) => r == Some(row),
                _ => r is None,
            },
    {
        match self {
            RowItem::Row(row) => Some(row),
            _ => None,
        }
    }

    /// The summary, if this item is one.
    pub fn summary(&self) -> (r: Option<&StreamingSummary>)
        ensures
            match self {
                RowItem::Summary(summary) => r == Some(&**summary),
                _ => r is None,
            },
    {
        match self {
            RowItem::Summary(summary) => Some(summary),
            _ => None,
        }
    }

    /// The row, if this item is one.
    pub fn into_row(self) -> (r: Option<T>)
        ensures
            match self {
                RowItem::Row(row) => r == Some(row),
                _ => r is None,
            },
    {
        match self {
            RowItem::Row(row) => Some(row),
            _ => None,
        }
    }

    /// The summary, if this item is one.
    pub fn into_summary(self) -> (r: Option<Box<StreamingSummary>>)
        ensures
            match self {
                RowItem::Summary(summary) => r == Some(summary),
                _ => r is None,
            },
    {
        match self {
            RowItem::Summary(summary) => Some(summary),
            _ => None,
        }
    }
}

/// What an item is to a consumer that takes the rows and the summary apart.
#[derive(Debug, PartialEq)]
pub enum Split<T> {
    /// A row, for the stream of rows.
    Row(T),
    /// The end of the rows, with the summary if the stream has one.
    End(Option<StreamingSummary>),
}

impl<T> RowItem<T> {
    /// This item, unless it is the end of the stream: `Done` ends a stream
    /// of items, a row or the summary goes on with it.
    pub fn into_next(self) -> (r: Option<RowItem<T>>)
        ensures
            r == match self {
                RowItem::Done => None,
                other => Some(other),
            },
    {
        match self {
            RowItem::Done => None,
            other => Some(other),
        }
    }

    /// This item for a consumer that takes the rows and the summary apart:
    /// a row goes to the rows; the summary and `Done` both end the rows,
    /// the one with the summary, the other without.
    pub fn split(self) -> (r: Split<T>)
        ensures
            r == match self {
                RowItem::Row(row) => Split::Row(row),
                RowItem::Summary(summary) => Split::End(Some(*summary)),
                RowItem::Done => Split::End(None),
            },
    {
        match self {
            RowItem::Row(row) => Split::Row(row),
            RowItem::Summary(summary) => Split::End(Some(*summary)),
            RowItem::Done => Split::End(None),
        }
    }
}

/// What the engine asks its caller to do.
#[derive(Debug, PartialEq)]
pub enum Next<T> {
    /// Hand this to the consumer.
    Item(T),
    /// Send this request, then call again without a response.
    Send(BoltRequest),
    /// Receive a response, then call again with it.
    Receive,
}

/// Where a stream stands.
#[derive(Debug, PartialEq)]
pub(crate) enum State {
    Ready,
    Pulling,
    Discarding,
    Complete(Option<Box<StreamingSummary>>),
}

/// An abstraction over a stream of rows, as it is returned for a query that
/// runs within a transaction.
#[derive(Debug, PartialEq)]
pub struct RowStream {
    pub(crate) qid: i64,
    pub(crate) fields: Vec<String>,
    pub(crate) state: State,
    pub(crate) fetch_size: usize,
    pub(crate) buffer: VecDeque<Row>,
}

/// What the rows of a buffer hold.
pub open spec fn rows_of(buffer: Seq<Row>) -> Seq<RowModel> {
    Seq::new(buffer.len(), |i: int| buffer[i]@)
}

impl State {
    pub(crate) open spec fn view(&self) -> Phase {
        match self {
            State::Ready => Phase::Ready,
            State::Pulling => Phase::Pulling,
            State::Discarding => Phase::Discarding,
            State::Complete(Some(summary)) => Phase::Complete(Some(summary.metadata@)),
            State::Complete(None) => Phase::Complete(None),
        }
    }
}

/// The action that the engine asks for with `next`, where it is one of the
/// engine's own: it sends a PULL or a DISCARD and no other request.
pub open spec fn action_of<T>(next: Next<T>, item: spec_fn(T) -> Action) -> Option<Action> {
    match next {
        Next::Item(it) => Some(item(it)),
        Next::Send(BoltRequest::Pull(pull)) => Some(Action::Pull(pull@)),
        Next::Send(BoltRequest::Discard(discard)) => Some(Action::Discard(discard@)),
        Next::Send(_) => None,
        Next::Receive => Some(Action::Receive),
    }
}

/// The fault that an error of the engine is; `None` for an error that the
/// engine never returns.
pub open spec fn fault_of(e: Error) -> Option<Fault> {
    match e {
        Error::ServerFailure { code, message, context } => Some(
            Fault::Failure { code: code@, message: message@, context },
        ),
        Error::Ignored { context } => Some(Fault::Ignored { context }),
        Error::ProtocolViolation { detail: Violation::UnexpectedResponse { context } } => Some(
            Fault::Unexpected { context },
        ),
        Error::ProtocolViolation { detail: Violation::UnexpectedMessage } => Some(Fault::Unasked),
        _ => None,
    }
}

/// What a call of the engine returned, as an action or a fault; `None` for
/// what the engine never returns.
pub open spec fn outcome<T>(r: Result<Next<T>, Error>, item: spec_fn(T) -> Action) -> Option<
    Result<Action, Fault>,
> {
    match r {
        Ok(next) => match action_of(next, item) {
            Some(action) => Some(Ok(action)),
            None => None,
        },
        Err(e) => match fault_of(e) {
            Some(fault) => Some(Err(fault)),
            None => None,
        },
    }
}

/// The item that is handed out.
pub open spec fn yielded(item: RowItem) -> Action {
    match item {
        RowItem::Row(row) => Action::Yield(Item::Row(row@)),
        RowItem::Summary(summary) => Action::Yield(Item::Summary(summary.metadata@)),
        RowItem::Done => Action::Yield(Item::Done),
    }
}

/// The row that is handed out, or the end of the rows.
pub open spec fn yielded_row(row: Option<Row>) -> Action {
    match row {
        Some(row) => Action::Yield(Item::Row(row@)),
        None => Action::Yield(Item::Done),
    }
}

/// The summary that a finished stream hands out, if it has one.
pub open spec fn finished(summary: Option<StreamingSummary>) -> Action {
    match summary {
        Some(summary) => Action::Finished(Some(summary.metadata@)),
        None => Action::Finished(None),
    }
}

/// What a call of `next_or_summary` returned.
pub open spec fn outcome_of(r: Result<Next<RowItem>, Error>) -> Option<Result<Action, Fault>> {
    outcome(r, |item: RowItem| yielded(item))
}

/// What a call of `next` returned.
pub open spec fn row_outcome_of(r: Result<Next<Option<Row>>, Error>) -> Option<
    Result<Action, Fault>,
> {
    outcome(r, |row: Option<Row>| yielded_row(row))
}

/// What a call of `finish` returned.
pub open spec fn finish_outcome_of(r: Result<Next<Option<StreamingSummary>>, Error>) -> Option<
    Result<Action, Fault>,
> {
    outcome(r, |summary: Option<StreamingSummary>| finished(summary))
}

/// A `Yield` of a summary, read as the end of the rows.
pub open spec fn rows_only(r: Result<Action, Fault>) -> Result<Action, Fault> {
    match r {
        Ok(Action::Yield(Item::Summary(_))) => Ok(Action::Yield(Item::Done)),
        other => other,
    }
}

/// What a response says, if one was received.
pub open(crate) spec fn reply_of(received: Option<BoltResponse>) -> Option<Reply> {
    match received {
        Some(response) => Some(response@),
        None => None,
    }
}

impl RowStream {
    /// What this stream is, as far as its behaviour goes.
    pub open(crate) spec fn view(&self) -> StreamModel {
        StreamModel {
            qid: self.qid,
            fields: names_of(self.fields@),
            fetch_size: self.fetch_size as nat,
            phase: self.state@,
            buffer: rows_of(self.buffer@),
        }
    }

    /// A stream of the rows of the query `qid`, whose columns are named
    /// `fields`, that pulls `fetch_size` records at a time.
    pub fn new(qid: i64, fields: Vec<String>, fetch_size: usize) -> (r: Self)
        ensures
            r@ == fresh(qid, names_of(fields@), fetch_size as nat),
    {
        let r = RowStream {
            qid,
            fields,
            fetch_size,
            state: State::Ready,
            buffer: VecDeque::new(),
        };
        assert(rows_of(r.buffer@) =~= Seq::<RowModel>::empty());
        r
    }

    /// Takes in a response that was received.
    fn take_in(&mut self, response: BoltResponse) -> (r: Result<(), Error>)
        ensures
            final(self)@ == receive(old(self)@, response@).0,
            match receive(old(self)@, response@).1 {
                Some(fault) => r matches Err(e) && fault_of(e) == Some(fault),
                None => r is Ok,
            },
    {
        let ghost before = self@;
        match self.state {
            State::Pulling => match response {
                BoltResponse::Record(record) => {
                    let row = Row::new(copy_names(&self.fields), record);
                    proof {
                        assert(rows_of(self.buffer@.push(row)) =~= rows_of(self.buffer@).push(row@));
                    }
                    self.buffer.push_back(row);
                    Ok(())
                },
                BoltResponse::Success(success) => {
                    match Streaming::from_metadata(success.metadata) {
                        Streaming::HasMore => {
                            self.state = State::Ready;
                        },
                        Streaming::Done(summary) => {
                            self.state = State::Complete(Some(summary));
                        },
                    }
                    Ok(())
                },
                other => {
                    self.state = State::Complete(None);
                    Err(other.into_error("PULL"))
                },
            },
            State::Discarding => match response {
                BoltResponse::Record(record) => Err(
                    BoltResponse::Record(record).into_error("DISCARD"),
                ),
                BoltResponse::Success(success) => {
                    match Streaming::from_metadata(success.metadata) {
                        Streaming::HasMore => {
                            self.state = State::Ready;
                        },
                        Streaming::Done(summary) => {
                            self.state = State::Complete(Some(summary));
                        },
                    }
                    Ok(())
                },
                BoltResponse::Ignored => {
                    self.state = State::Complete(None);
                    Ok(())
                },
                other => {
                    self.state = State::Complete(None);
                    Err(other.into_error("DISCARD"))
                },
            },
            _ => Err(Error::ProtocolViolation { detail: Violation::UnexpectedMessage }),
        }
    }

    /// The PULL that this stream sends.
    fn pull(&self) -> (r: Pull)
        ensures
            r@ == pull_extra(self@),
    {
        let how_many: Option<i64> = if 0 < self.fetch_size && self.fetch_size as u64
            <= i64::MAX as u64 {
            Some(self.fetch_size as i64)
        } else {
            None
        };
        Pull::new(how_many, Some(self.qid))
    }

    /// Says what to do next for a consumer that asks for the next item.
    fn decide(&mut self) -> (r: Next<RowItem>)
        ensures
            final(self)@ == advance(old(self)@).0,
            action_of(r, |item: RowItem| yielded(item)) == Some(advance(old(self)@).1),
    {
        let ghost before = self.buffer@;
        match self.buffer.pop_front() {
            Some(row) => {
                proof {
                    assert(rows_of(self.buffer@) =~= rows_of(before).drop_first());
                    assert(rows_of(before)[0] == row@);
                }
                return Next::Item(RowItem::Row(row));
            },
            None => {},
        }
        assert(rows_of(before).len() == 0);
        match &mut self.state {
            State::Ready => {
                let pull = self.pull();
                self.state = State::Pulling;
                Next::Send(BoltRequest::Pull(pull))
            },
            State::Pulling => Next::Receive,
            State::Discarding => Next::Receive,
            State::Complete(summary) => match summary.take() {
                Some(summary) => Next::Item(RowItem::Summary(summary)),
                None => Next::Item(RowItem::Done),
            },
        }
    }

    /// One step towards the next item of the stream.
    ///
    /// Call it first without a response. It answers with an item, with a
    /// request to send, or with the wish to receive. After sending, call
    /// again without a response; after receiving, call again with what was
    /// received. A row is returned from the buffer if the buffer has any;
    /// otherwise a batch of as many rows as the fetch size says is pulled
    /// from the server. At the end of the stream the summary is returned
    /// once, and `Done` from then on.
    ///
    /// A FAILURE or IGNORED of the server ends the stream and is returned
    /// as an error, as is a response that was not asked for.
    pub fn next_or_summary(&mut self, received: Option<BoltResponse>) -> (r: Result<
        Next<RowItem>,
        Error,
    >)
        ensures
            final(self)@ == step(old(self)@, reply_of(received), false).0,
            outcome_of(r) == Some(step(old(self)@, reply_of(received), false).1),
    {
        match received {
            Some(response) => {
                self.take_in(response)?;
            },
            None => {},
        }
        Ok(self.decide())
    }

    /// One step towards the next row of the stream: as `next_or_summary`,
    /// but the summary is dropped, and the end of the rows is `None`.
    pub fn next(&mut self, received: Option<BoltResponse>) -> (r: Result<Next<Option<Row>>, Error>)
        ensures
            final(self)@ == step(old(self)@, reply_of(received), false).0,
            row_outcome_of(r) == Some(rows_only(step(old(self)@, reply_of(received), false).1)),
    {
        match self.next_or_summary(received) {
            Ok(Next::Item(item)) => Ok(Next::Item(item.into_row())),
            Ok(Next::Send(request)) => Ok(Next::Send(request)),
            Ok(Next::Receive) => Ok(Next::Receive),
            Err(e) => Err(e),
        }
    }

    /// One step towards the end of a stream that the consumer gives up.
    ///
    /// It is called as `next_or_summary` is. Where a PULL is under way, it
    /// asks to receive until the PULL is answered, and drops the records.
    /// Then, while the stream is not complete, it asks to send a DISCARD
    /// for all records that are left and to receive the response. Once the
    /// stream is complete it answers with the summary, if one was received
    /// and not handed out before.
    ///
    /// A FAILURE of the server ends the stream and is returned as an error;
    /// an IGNORED ends the stream without a summary.
    pub fn finish(&mut self, received: Option<BoltResponse>) -> (r: Result<
        Next<Option<StreamingSummary>>,
        Error,
    >)
        ensures
            final(self)@ == step(old(self)@, reply_of(received), true).0,
            finish_outcome_of(r) == Some(step(old(self)@, reply_of(received), true).1),
    {
        match received {
            Some(response) => {
                self.take_in(response)?;
            },
            None => {},
        }
        self.buffer.clear();
        assert(rows_of(self.buffer@) =~= Seq::<RowModel>::empty());
        match &mut self.state {
            State::Complete(summary) => match summary.take() {
                Some(summary) => Ok(Next::Item(Some(*summary))),
                None => Ok(Next::Item(None)),
            },
            State::Pulling => Ok(Next::Receive),
            State::Discarding => Ok(Next::Receive),
            State::Ready => {
                let discard = Discard::new(None, Some(self.qid));
                self.state = State::Discarding;
                Ok(Next::Send(BoltRequest::Discard(discard)))
            },
        }
    }
}

} // verus!

verus! {

/// An abstraction over a stream of rows, as it is returned for a query that
/// runs on its own: the stream together with the connection that it holds,
/// which goes back to the pool when the stream is dropped.
pub struct DetachedRowStream<C> {
    pub(crate) stream: RowStream,
    pub(crate) connection: C,
}

impl<C> DetachedRowStream<C> {
    /// What the stream is, as far as its behaviour goes.
    pub open(crate) spec fn view(&self) -> StreamModel {
        self.stream@
    }

    /// The connection that the stream holds.
    pub open(crate) spec fn held(&self) -> C {
        self.connection
    }

    /// The stream `stream` on the connection `connection`.
    pub fn new(stream: RowStream, connection: C) -> (r: Self)
        ensures
            r@ == stream@,
            r.held() == connection,
    {
        DetachedRowStream { stream, connection }
    }

    /// The connection, for the caller to send and receive on.
    pub fn connection(&mut self) -> (r: &mut C)
        ensures
            *r == old(self).held(),
            final(self).held() == *final(r),
            final(self)@ == old(self)@,
    {
        &mut self.connection
    }

    /// The stream and the connection, each for the caller to use while the
    /// other is in use.
    pub fn parts_mut(&mut self) -> (r: (&mut RowStream, &mut C))
        ensures
            (*r.0)@ == old(self)@,
            *r.1 == old(self).held(),
            final(self)@ == (*final(r.0))@,
            final(self).held() == *final(r.1),
    {
        (&mut self.stream, &mut self.connection)
    }

    /// The stream and the connection, apart again.
    pub fn into_parts(self) -> (r: (RowStream, C))
        ensures
            r.0@ == self@,
            r.1 == self.held(),
    {
        (self.stream, self.connection)
    }

    /// One step towards the next item of the stream; see
    /// `RowStream::next_or_summary`.
    pub fn next_or_summary(&mut self, received: Option<BoltResponse>) -> (r: Result<
        Next<RowItem>,
        Error,
    >)
        ensures
            final(self)@ == step(old(self)@, reply_of(received), false).0,
            outcome_of(r) == Some(step(old(self)@, reply_of(received), false).1),
            final(self).held() == old(self).held(),
    {
        self.stream.next_or_summary(received)
    }

    /// One step towards the next row of the stream; see `RowStream::next`.
    pub fn next(&mut self, received: Option<BoltResponse>) -> (r: Result<Next<Option<Row>>, Error>)
        ensures
            final(self)@ == step(old(self)@, reply_of(received), false).0,
            row_outcome_of(r) == Some(rows_only(step(old(self)@, reply_of(received), false).1)),
            final(self).held() == old(self).held(),
    {
        self.stream.next(received)
    }

    /// One step towards the end of a stream that the consumer gives up; see
    /// `RowStream::finish`.
    pub fn finish(&mut self, received: Option<BoltResponse>) -> (r: Result<
        Next<Option<StreamingSummary>>,
        Error,
    >)
        ensures
            final(self)@ == step(old(self)@, reply_of(received), true).0,
            finish_outcome_of(r) == Some(step(old(self)@, reply_of(received), true).1),
            final(self).held() == old(self).held(),
    {
        self.stream.finish(received)
    }
}

/// What the consumer's loop for one item comes to: the engine is asked, and
/// what it asks for is done, until it hands out an item or reports a fault.
/// The responses are taken from `wire`, oldest first. `None` where the
/// engine wants a response and `wire` has none left.
pub open spec fn drive(m: StreamModel, wire: Seq<Reply>) -> Option<
    (StreamModel, Seq<Reply>, Result<Item, Fault>),
>
    decreases wire.len(), (if m.phase is Ready {
        1nat
    } else {
        0nat
    }),
{
    let (asked, action) = advance(m);
    match action {
        Action::Yield(item) => Some((asked, wire, Ok(item))),
        Action::Pull(_) => if m.phase is Ready {
            drive(asked, wire)
        } else {
            None
        },
        Action::Receive => if wire.len() == 0 {
            None
        } else {
            let (taken, fault) = receive(asked, wire[0]);
            match fault {
                Some(f) => Some((taken, wire.drop_first(), Err(f))),
                None => drive(taken, wire.drop_first()),
            }
        },
        _ => None,
    }
}

/// The first `k` items that a consumer observes who drives the stream `m`
/// while the server sends `wire`. The sequence ends early where a response
/// is wanted and none is left.
pub open spec fn observe(m: StreamModel, wire: Seq<Reply>, k: nat) -> Seq<Result<Item, Fault>>
    decreases k,
{
    if k == 0 {
        Seq::empty()
    } else {
        match drive(m, wire) {
            None => Seq::empty(),
            Some((next, rest, item)) => seq![item] + observe(next, rest, (k - 1) as nat),
        }
    }
}

/// Whether `wire` is what a server sends for one result stream: records,
/// between them any number of SUCCESS with `has_more`, and at the end one
/// SUCCESS without.
pub open spec fn scripted(wire: Seq<Reply>) -> bool {
    &&& wire.len() > 0
    &&& wire.last() matches Reply::Success(entries) && !has_more(entries)
    &&& forall|i: int|
        0 <= i < wire.len() - 1 ==> match #[trigger] wire[i] {
            Reply::Record(_) => true,
            Reply::Success(entries) => has_more(entries),
            _ => false,
        }
}

/// The rows of the records of `wire`, in order, under the column names
/// `fields`.
pub open spec fn rows_in(fields: Seq<Seq<char>>, wire: Seq<Reply>) -> Seq<Result<Item, Fault>>
    decreases wire.len(),
{
    if wire.len() == 0 {
        Seq::empty()
    } else {
        let rest = rows_in(fields, wire.drop_first());
        match wire[0] {
            Reply::Record(values) => seq![
                Ok::<Item, Fault>(Item::Row(RowModel { fields, values })),
            ] + rest,
            _ => rest,
        }
    }
}

/// The summary that ends `wire`.
pub open spec fn summary_in(wire: Seq<Reply>) -> Seq<(Seq<char>, Value)> {
    match wire.last() {
        Reply::Success(entries) => entries,
        _ => Seq::empty(),
    }
}

/// `k` times `Done`.
pub open spec fn done(k: nat) -> Seq<Result<Item, Fault>> {
    Seq::new(k, |i: int| Ok::<Item, Fault>(Item::Done))
}

/// A stream that has handed out its summary hands out `Done` for ever, and
/// asks for nothing.
pub proof fn lemma_done_for_ever(m: StreamModel, wire: Seq<Reply>, k: nat)
    requires
        m.phase == Phase::Complete(None),
        m.buffer.len() == 0,
    ensures
        observe(m, wire, k) == done(k),
    decreases k,
{
    if k > 0 {
        lemma_done_for_ever(m, wire, (k - 1) as nat);
        assert(observe(m, wire, k) =~= done(k));
    } else {
        assert(observe(m, wire, k) =~= done(k));
    }
}

/// The consumer observes the rows in the order in which the server sent
/// the records, then the summary once, then `Done` for ever: for a stream
/// that has nothing buffered and is ready or pulling, while the server sends
/// `wire`, the first items are the rows of the records of `wire`, the next
/// is the summary, and every later one is `Done`. No row is lost, none comes
/// twice, and none changes places with another or with the summary.
pub proof fn lemma_rows_in_order(m: StreamModel, wire: Seq<Reply>, extra: nat)
    requires
        scripted(wire),
        m.buffer.len() == 0,
        m.phase is Ready || m.phase is Pulling,
    ensures
        observe(m, wire, rows_in(m.fields, wire).len() + 1 + extra) == rows_in(m.fields, wire)
            + seq![Ok::<Item, Fault>(Item::Summary(summary_in(wire)))] + done(extra),
    decreases wire.len(),
{
    let pulling = StreamModel { phase: Phase::Pulling, ..m };
    let rest = wire.drop_first();
    let rows = rows_in(m.fields, wire);
    let k = rows.len() + 1 + extra;
    // Whether ready or pulling, the engine comes to receive the first response.
    assert(drive(m, wire) == drive(pulling, wire)) by {
        if m.phase is Ready {
            assert(advance(m).0 == pulling);
        } else {
            assert(m == pulling);
        }
    }
    assert(advance(pulling) == (pulling, Action::Receive));
    match wire[0] {
        Reply::Record(values) => {
            let row = RowModel { fields: m.fields, values };
            let buffered = StreamModel { buffer: seq![row], ..pulling };
            assert(receive(pulling, wire[0]) == (buffered, None::<Fault>)) by {
                assert(pulling.buffer.push(row) =~= seq![row]);
            }
            assert(advance(buffered) == (pulling, Action::Yield(Item::Row(row)))) by {
                assert(buffered.buffer.drop_first() =~= pulling.buffer);
            }
            assert(drive(pulling, wire) == Some((pulling, rest, Ok::<Item, Fault>(Item::Row(row)))));
            assert(scripted(rest)) by {
                assert(wire.len() > 1);
                assert(rest.last() == wire.last());
                assert forall|i: int| 0 <= i < rest.len() - 1 implies match #[trigger] rest[i] {
                    Reply::Record(_) => true,
                    Reply::Success(entries) => has_more(entries),
                    _ => false,
                } by {
                    assert(rest[i] == wire[i + 1]);
                }
            }
            lemma_rows_in_order(pulling, rest, extra);
            assert(summary_in(rest) == summary_in(wire));
            assert(rows =~= seq![Ok::<Item, Fault>(Item::Row(row))] + rows_in(m.fields, rest));
            assert(observe(m, wire, k) =~= rows + seq![
                Ok::<Item, Fault>(Item::Summary(summary_in(wire))),
            ] + done(extra));
        },
        Reply::Success(entries) => {
            if wire.len() == 1 {
                let ended = StreamModel { phase: Phase::Complete(Some(entries)), ..pulling };
                let over = StreamModel { phase: Phase::Complete(None), ..pulling };
                assert(receive(pulling, wire[0]) == (ended, None::<Fault>));
                assert(advance(ended) == (over, Action::Yield(Item::Summary(entries))));
                assert(drive(pulling, wire) == Some(
                    (over, rest, Ok::<Item, Fault>(Item::Summary(entries))),
                ));
                assert(rows_in(m.fields, rest) =~= Seq::<Result<Item, Fault>>::empty());
                assert(rows =~= Seq::<Result<Item, Fault>>::empty());
                lemma_done_for_ever(over, rest, extra);
                assert(observe(m, wire, k) =~= rows + seq![
                    Ok::<Item, Fault>(Item::Summary(summary_in(wire))),
                ] + done(extra));
            } else {
                let ready = StreamModel { phase: Phase::Ready, ..pulling };
                assert(wire[0] == wire[0] && has_more(entries));
                assert(receive(pulling, wire[0]) == (ready, None::<Fault>));
                assert(drive(pulling, wire) == drive(ready, rest));
                assert(scripted(rest)) by {
                    assert(rest.last() == wire.last());
                    assert forall|i: int| 0 <= i < rest.len() - 1 implies match #[trigger] rest[i] {
                        Reply::Record(_) => true,
                        Reply::Success(entries) => has_more(entries),
                        _ => false,
                    } by {
                        assert(rest[i] == wire[i + 1]);
                    }
                }
                lemma_rows_in_order(ready, rest, extra);
                assert(summary_in(rest) == summary_in(wire));
                assert(rows =~= rows_in(m.fields, rest));
                assert(observe(m, wire, k) == observe(ready, rest, k));
            }
        },
        _ => {
            assert(wire.len() > 1 ==> match wire[0] {
                Reply::Record(_) => true,
                Reply::Success(entries) => has_more(entries),
                _ => false,
            });
        },
    }
}

/// After a SUCCESS, a stream that was pulling is ready again where the
/// SUCCESS says that there is more, and complete with the summary where it
/// does not.
pub proof fn lemma_success(m: StreamModel, entries: Seq<(Seq<char>, Value)>)
    requires
        m.phase is Pulling,
    ensures
        receive(m, Reply::Success(entries)).1 is None,
        has_more(entries) ==> receive(m, Reply::Success(entries)).0.phase is Ready,
        !has_more(entries) ==> receive(m, Reply::Success(entries)).0.phase == Phase::Complete(
            Some(entries),
        ),
{
}

/// Giving a stream up that is ready costs one DISCARD, for all records of
/// the stream's query: the engine asks for it once, then for the response,
/// and where that ends the stream the engine is finished and asks for
/// nothing more.
pub proof fn lemma_one_discard(m: StreamModel, reply: Reply)
    requires
        m.phase is Ready,
        match reply {
            Reply::Success(entries) => !has_more(entries),
            Reply::Ignored => true,
            _ => false,
        },
    ensures
        ({
            let (sent, first) = step(m, None, true);
            let (waiting, second) = step(sent, None, true);
            let (ended, third) = step(waiting, Some(reply), true);
            let (after, fourth) = step(ended, None, true);
            &&& first == Ok::<Action, Fault>(
                Action::Discard(Extra { n: -1i64, qid: Some(m.qid) }),
            )
            &&& second == Ok::<Action, Fault>(Action::Receive)
            &&& third == Ok::<Action, Fault>(
                Action::Finished(
                    match reply {
                        Reply::Success(entries) => Some(entries),
                        _ => None,
                    },
                ),
            )
            &&& fourth == Ok::<Action, Fault>(Action::Finished(None))
            &&& after.phase == Phase::Complete(None)
        }),
{
}

/// Giving a stream up while a PULL is under way sends no DISCARD before the
/// PULL is answered: the engine asks to receive, drops the records that
/// come, and once the answer says that there is more, it is ready and asks
/// for the one DISCARD. Where the answer ends the stream, none is sent.
pub proof fn lemma_discard_waits(m: StreamModel, values: Seq<Value>, entries: Seq<(Seq<char>, Value)>)
    requires
        m.phase is Pulling,
    ensures
        step(m, None, true).1 == Ok::<Action, Fault>(Action::Receive),
        step(m, Some(Reply::Record(values)), true).1 == Ok::<Action, Fault>(Action::Receive),
        step(m, Some(Reply::Record(values)), true).0.phase is Pulling,
        step(m, Some(Reply::Record(values)), true).0.buffer == Seq::<RowModel>::empty(),
        has_more(entries) ==> step(m, Some(Reply::Success(entries)), true).1 == Ok::<
            Action,
            Fault,
        >(Action::Discard(Extra { n: -1i64, qid: Some(m.qid) })),
        !has_more(entries) ==> step(m, Some(Reply::Success(entries)), true).1 == Ok::<
            Action,
            Fault,
        >(Action::Finished(Some(entries))),
{
}

} // verus!
