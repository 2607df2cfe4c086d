use bytes::Bytes;
use neo4rs::bolt::request::{Begin, Commit, Goodbye, Hello, Reset, Rollback, Run};
use neo4rs::bolt::structs::{Bolt, BoltMap, BoltRef, MapRef};
use neo4rs::bolt::summary::Streaming;
use neo4rs::bolt::{Discard, Pull};
use neo4rs::chunk::{chunk, dechunk};
use neo4rs::connection::{Connection, ConnectionState, Progress, RequestKind, Signal};
use neo4rs::errors::{Error, PoolFault, Violation};
use neo4rs::handshake::{close_handshake, open_handshake, Proposal};
use neo4rs::messages::{BoltRequest, BoltResponse};
use neo4rs::row::Row;
use neo4rs::stream::{DetachedRowStream, Next, RowItem, RowStream, Split};
use neo4rs::version::Version;

/// Builds encoded values marker by marker.
struct Builder {
    data: Vec<u8>,
}

fn bolt() -> Builder {
    Builder { data: Vec::new() }
}

#[allow(dead_code)]
impl Builder {
    fn structure(mut self, fields: u8, tag: u8) -> Self {
        self.data.push(0xB0 | fields);
        self.data.push(tag);
        self
    }

    fn null(mut self) -> Self {
        self.data.push(0xC0);
        self
    }

    fn bool(mut self, b: bool) -> Self {
        self.data.push(if b { 0xC3 } else { 0xC2 });
        self
    }

    fn tiny_map(mut self, len: u8) -> Self {
        self.data.push(0xA0 | len);
        self
    }

    fn tiny_list(mut self, len: u8) -> Self {
        self.data.push(0x90 | len);
        self
    }

    fn tiny_string(mut self, s: &str) -> Self {
        self.data.push(0x80 | s.len() as u8);
        self.data.extend_from_slice(s.as_bytes());
        self
    }

    fn tiny_int(mut self, n: i8) -> Self {
        self.data.push(n as u8);
        self
    }

    fn int8(mut self, n: i8) -> Self {
        self.data.push(0xC8);
        self.data.push(n as u8);
        self
    }

    fn int16(mut self, n: i16) -> Self {
        self.data.push(0xC9);
        self.data.extend_from_slice(&n.to_be_bytes());
        self
    }

    fn int32(mut self, n: i32) -> Self {
        self.data.push(0xCA);
        self.data.extend_from_slice(&n.to_be_bytes());
        self
    }

    fn int64(mut self, n: i64) -> Self {
        self.data.push(0xCB);
        self.data.extend_from_slice(&n.to_be_bytes());
        self
    }

    fn float(mut self, f: f64) -> Self {
        self.data.push(0xC1);
        self.data.extend_from_slice(&f.to_be_bytes());
        self
    }

    fn extend(mut self, other: Bytes) -> Self {
        self.data.extend_from_slice(&other);
        self
    }

    fn build(self) -> Bytes {
        Bytes::from(self.data)
    }
}

const V5: Version = Version { major: 5, minor: 0 };

fn record(value: i8) -> BoltResponse {
    let message = bolt().structure(1, 0x71).tiny_list(1).tiny_int(value).build();
    BoltResponse::parse(V5, message).unwrap()
}

fn success_with_more() -> BoltResponse {
    let message = bolt()
        .structure(1, 0x70)
        .tiny_map(1)
        .tiny_string("has_more")
        .bool(true)
        .build();
    BoltResponse::parse(V5, message).unwrap()
}

fn success_with_summary() -> BoltResponse {
    let message = bolt()
        .structure(1, 0x70)
        .tiny_map(2)
        .tiny_string("bookmark")
        .tiny_string("b1")
        .tiny_string("t_last")
        .tiny_int(3)
        .build();
    BoltResponse::parse(V5, message).unwrap()
}

fn failure() -> BoltResponse {
    let message = bolt()
        .structure(1, 0x7F)
        .tiny_map(2)
        .tiny_string("code")
        .tiny_string("Neo.Bad")
        .tiny_string("message")
        .tiny_string("oops")
        .build();
    BoltResponse::parse(V5, message).unwrap()
}

fn ignored() -> BoltResponse {
    BoltResponse::parse(V5, bolt().structure(0, 0x7E).build()).unwrap()
}

/// Runs the consumer's loop for one item, and notes what was sent.
fn drive(
    stream: &mut RowStream,
    wire: &mut Vec<BoltResponse>,
    sent: &mut Vec<BoltRequest>,
) -> Result<RowItem, Error> {
    let mut received = None;
    loop {
        match stream.next_or_summary(received.take())? {
            Next::Item(item) => return Ok(item),
            Next::Send(request) => sent.push(request),
            Next::Receive => received = Some(wire.remove(0)),
        }
    }
}

/// Runs the loop of a consumer that gives the stream up.
fn wind_up(
    stream: &mut RowStream,
    wire: &mut Vec<BoltResponse>,
    sent: &mut Vec<BoltRequest>,
) -> Result<Option<neo4rs::bolt::summary::StreamingSummary>, Error> {
    let mut received = None;
    loop {
        match stream.finish(received.take())? {
            Next::Item(summary) => return Ok(summary),
            Next::Send(request) => sent.push(request),
            Next::Receive => received = Some(wire.remove(0)),
        }
    }
}

fn first_value(item: &RowItem) -> BoltRef<'_> {
    item.row().unwrap().get("n").unwrap()
}

#[test]
fn discard_parse() {
    let data = bolt()
        .tiny_map(1)
        .tiny_string("has_more")
        .bool(true)
        .build();

    let response = Streaming::parse(data).unwrap();

    assert_eq!(response, Streaming::HasMore);
}

#[test]
fn pull_parse() {
    let data = bolt()
        .tiny_map(1)
        .tiny_string("has_more")
        .bool(true)
        .build();

    let response = Streaming::parse(data).unwrap();

    assert_eq!(response, Streaming::HasMore);
}

#[test]
fn a_success_without_has_more_ends_the_stream() {
    let absent = bolt().tiny_map(1).tiny_string("t_last").tiny_int(1).build();
    match Streaming::parse(absent).unwrap() {
        Streaming::Done(summary) => {
            assert_eq!(summary.metadata.get("t_last"), Some(&Bolt::Integer(1)));
            assert_eq!(summary.metadata.len(), 1);
        }
        Streaming::HasMore => panic!("the stream goes on"),
    }
    let denied = bolt().tiny_map(1).tiny_string("has_more").bool(false).build();
    assert!(matches!(Streaming::parse(denied).unwrap(), Streaming::Done(_)));
    let odd = bolt().tiny_map(1).tiny_string("has_more").tiny_int(1).build();
    assert!(matches!(Streaming::parse(odd).unwrap(), Streaming::Done(_)));
    assert_eq!(
        Streaming::parse(bolt().tiny_list(0).build()),
        Err(Error::ProtocolViolation { detail: Violation::InvalidField })
    );
}

#[test]
fn rows_come_in_order_then_the_summary_then_done() {
    let mut stream = RowStream::new(0, vec!["n".to_owned()], 2);
    let mut wire = vec![
        record(1),
        record(2),
        success_with_more(),
        record(3),
        success_with_summary(),
    ];
    let mut sent = Vec::new();

    let first = drive(&mut stream, &mut wire, &mut sent).unwrap();
    assert_eq!(first_value(&first), BoltRef::Integer(1));
    let second = drive(&mut stream, &mut wire, &mut sent).unwrap();
    assert_eq!(first_value(&second), BoltRef::Integer(2));
    let third = drive(&mut stream, &mut wire, &mut sent).unwrap();
    assert_eq!(first_value(&third), BoltRef::Integer(3));
    assert_eq!(third.summary(), None);

    let fourth = drive(&mut stream, &mut wire, &mut sent).unwrap();
    assert!(fourth.row().is_none());
    let summary = fourth.into_summary().unwrap();
    assert_eq!(summary.metadata.get("bookmark"), Some(&Bolt::String("b1".to_owned())));
    assert_eq!(summary.metadata.get("t_last"), Some(&Bolt::Integer(3)));

    for _ in 0..3 {
        assert_eq!(drive(&mut stream, &mut wire, &mut sent).unwrap(), RowItem::Done);
    }
    assert!(wire.is_empty());

    // two batches were pulled, each of two records of the query 0
    let pull = Pull::some(2).for_query(0);
    assert_eq!(sent, vec![BoltRequest::Pull(pull.clone()), BoltRequest::Pull(pull.clone())]);
    assert_eq!(
        pull.to_bytes().unwrap(),
        vec![0xB1, 0x3F, 0xA2, 0x81, 0x6E, 0x02, 0x83, 0x71, 0x69, 0x64, 0x00]
    );
}

#[test]
fn next_drops_the_summary() {
    let mut stream = RowStream::new(7, vec!["n".to_owned()], 10);
    assert!(matches!(stream.next(None).unwrap(), Next::Send(BoltRequest::Pull(_))));
    assert_eq!(stream.next(None).unwrap(), Next::Receive);
    match stream.next(Some(record(5))).unwrap() {
        Next::Item(Some(row)) => {
            assert_eq!(row.keys(), vec!["n"]);
            assert_eq!(row.values(), vec![BoltRef::Integer(5)]);
            assert_eq!(row.get("n"), Some(BoltRef::Integer(5)));
            assert_eq!(row.get("m"), None);
        }
        other => panic!("no row: {:?}", other),
    }
    assert_eq!(stream.next(None).unwrap(), Next::Receive);
    assert_eq!(stream.next(Some(success_with_summary())).unwrap(), Next::Item(None));
    assert_eq!(stream.next(None).unwrap(), Next::Item(None));
}

#[test]
fn a_fetch_size_of_zero_pulls_all() {
    let mut stream = RowStream::new(3, vec![], 0);
    match stream.next_or_summary(None).unwrap() {
        Next::Send(BoltRequest::Pull(pull)) => {
            assert_eq!(pull, Pull::all().for_query(3));
        }
        other => panic!("no pull: {:?}", other),
    }
}

#[test]
fn a_failure_ends_the_stream() {
    let mut stream = RowStream::new(0, vec!["n".to_owned()], 2);
    let mut wire = vec![record(1), failure()];
    let mut sent = Vec::new();
    assert!(drive(&mut stream, &mut wire, &mut sent).unwrap().row().is_some());
    assert_eq!(
        drive(&mut stream, &mut wire, &mut sent),
        Err(Error::ServerFailure {
            code: "Neo.Bad".to_owned(),
            message: "oops".to_owned(),
            context: "PULL",
        })
    );
    assert_eq!(drive(&mut stream, &mut wire, &mut sent).unwrap(), RowItem::Done);

    let mut stream = RowStream::new(0, vec![], 2);
    let mut wire = vec![ignored()];
    assert_eq!(
        drive(&mut stream, &mut wire, &mut sent),
        Err(Error::Ignored { context: "PULL" })
    );
    assert_eq!(drive(&mut stream, &mut wire, &mut sent).unwrap(), RowItem::Done);
}

#[test]
fn a_response_that_was_not_asked_for_is_refused() {
    let mut stream = RowStream::new(0, vec![], 2);
    assert_eq!(
        stream.next_or_summary(Some(record(1))),
        Err(Error::ProtocolViolation { detail: Violation::UnexpectedMessage })
    );
    // the stream is as it was
    assert!(matches!(
        stream.next_or_summary(None).unwrap(),
        Next::Send(BoltRequest::Pull(_))
    ));
}

#[test]
fn giving_up_costs_one_discard() {
    let mut stream = RowStream::new(0, vec!["n".to_owned()], 2);
    let mut connection = Connection {
        state: ConnectionState::Streaming { qid: 0 },
        pending: None,
    };
    let mut sent = Vec::new();

    // the first batch: two records, and more to come
    let mut wire = vec![record(1), record(2), success_with_more(), success_with_summary()];
    assert!(drive(&mut stream, &mut wire, &mut sent).unwrap().row().is_some());
    assert!(drive(&mut stream, &mut wire, &mut sent).unwrap().row().is_some());
    assert_eq!(sent, vec![BoltRequest::Pull(Pull::some(2).for_query(0))]);
    sent.clear();

    // the caller drops the stream: the answer to the PULL is taken in,
    // which leaves the stream ready, and then one DISCARD goes out
    assert_eq!(stream.finish(None).unwrap(), Next::Receive);
    assert_eq!(
        stream.finish(Some(wire.remove(0))).unwrap(),
        Next::Send(BoltRequest::Discard(Discard::all().for_query(0)))
    );
    let summary = wind_up(&mut stream, &mut wire, &mut sent).unwrap().unwrap();
    assert_eq!(summary.metadata.get("t_last"), Some(&Bolt::Integer(3)));
    assert!(sent.is_empty());
    assert!(wire.is_empty());
    assert_eq!(wind_up(&mut stream, &mut wire, &mut sent).unwrap(), None);
    assert!(sent.is_empty());
    assert_eq!(
        Discard::all().for_query(0).to_bytes().unwrap(),
        vec![0xB1, 0x2F, 0xA2, 0x81, 0x6E, 0xFF, 0x83, 0x71, 0x69, 0x64, 0x00]
    );

    // the connection saw the same messages, and is ready again
    connection.send(RequestKind::Pull).unwrap();
    assert_eq!(connection.receive(&record(1)), Ok(Progress::Detail));
    assert_eq!(connection.receive(&record(2)), Ok(Progress::Detail));
    assert_eq!(connection.receive(&success_with_more()), Ok(Progress::Completed));
    assert_eq!(connection.state(), ConnectionState::Streaming { qid: 0 });
    connection.send(RequestKind::Discard).unwrap();
    assert_eq!(connection.receive(&success_with_summary()), Ok(Progress::Completed));
    assert_eq!(connection.state(), ConnectionState::Ready);
    assert!(connection.is_reusable());
}

#[test]
fn giving_up_waits_for_the_pull() {
    let mut stream = RowStream::new(0, vec!["n".to_owned()], 2);
    let mut sent = Vec::new();
    let mut wire = vec![record(1), record(2), success_with_summary()];
    assert!(drive(&mut stream, &mut wire, &mut sent).unwrap().row().is_some());
    sent.clear();
    // the PULL ends the stream by itself: no DISCARD is needed
    assert!(wind_up(&mut stream, &mut wire, &mut sent).unwrap().is_some());
    assert!(sent.is_empty());
    assert!(wire.is_empty());
}

#[test]
fn giving_up_a_stream_that_is_ignored_or_fails() {
    let mut sent = Vec::new();
    let mut stream = RowStream::new(1, vec![], 2);
    let mut wire = vec![ignored()];
    assert_eq!(wind_up(&mut stream, &mut wire, &mut sent).unwrap(), None);

    let mut stream = RowStream::new(1, vec![], 2);
    let mut wire = vec![failure()];
    assert_eq!(
        wind_up(&mut stream, &mut wire, &mut sent),
        Err(Error::ServerFailure {
            code: "Neo.Bad".to_owned(),
            message: "oops".to_owned(),
            context: "DISCARD",
        })
    );
    assert_eq!(wind_up(&mut stream, &mut wire, &mut sent).unwrap(), None);

    // a DISCARD that leaves more is sent again
    let mut stream = RowStream::new(1, vec![], 2);
    let mut wire = vec![success_with_more(), success_with_summary()];
    sent.clear();
    assert!(wind_up(&mut stream, &mut wire, &mut sent).unwrap().is_some());
    assert_eq!(sent.len(), 2);
}

#[test]
fn a_detached_stream_keeps_its_connection() {
    let stream = RowStream::new(2, vec!["n".to_owned()], 1);
    let mut detached = DetachedRowStream::new(stream, 17u8);
    assert!(matches!(
        detached.next_or_summary(None).unwrap(),
        Next::Send(BoltRequest::Pull(_))
    ));
    *detached.connection() += 1;
    assert_eq!(detached.next(None).unwrap(), Next::Receive);
    assert!(matches!(detached.next(Some(record(9))).unwrap(), Next::Item(Some(_))));
    assert_eq!(detached.finish(None).unwrap(), Next::Receive);
    assert!(matches!(
        detached.finish(Some(success_with_more())).unwrap(),
        Next::Send(BoltRequest::Discard(_))
    ));
    {
        let (stream, connection) = detached.parts_mut();
        *connection += 1;
        assert_eq!(stream.finish(None).unwrap(), Next::Receive);
    }
    let (_, connection) = detached.into_parts();
    assert_eq!(connection, 19);
}

#[test]
fn row_items_know_what_they_are() {
    let row: RowItem<u8> = RowItem::Row(7);
    assert_eq!(row.row(), Some(&7));
    assert_eq!(row.summary(), None);
    assert_eq!(row.into_row(), Some(7));
    let done: RowItem<u8> = RowItem::Done;
    assert_eq!(done.row(), None);
    assert_eq!(done.into_summary(), None);
    let record = match record(4) {
        BoltResponse::Record(record) => record,
        other => panic!("no record: {:?}", other),
    };
    let row = Row::new(vec!["a".to_owned(), "b".to_owned()], record);
    assert_eq!(row.get("a"), Some(BoltRef::Integer(4)));
    // fewer values than columns
    assert_eq!(row.get("b"), None);
    assert_eq!(row.clone(), row);
}

#[test]
fn responses_are_told_apart_by_their_tag() {
    match success_with_summary() {
        BoltResponse::Success(success) => assert_eq!(success.metadata.len(), 2),
        other => panic!("no success: {:?}", other),
    }
    match failure() {
        BoltResponse::Failure(failure) => {
            assert_eq!(failure.code(), "Neo.Bad");
            assert_eq!(failure.message(), "oops");
        }
        other => panic!("no failure: {:?}", other),
    }
    assert_eq!(ignored(), BoltResponse::Ignored);
    match record(1) {
        BoltResponse::Record(record) => {
            assert_eq!(record.values(), vec![BoltRef::Integer(1)]);
            assert_eq!(record.to_owned_values(), vec![Bolt::Integer(1)]);
        }
        other => panic!("no record: {:?}", other),
    }

    let refused = |bytes: Vec<u8>| match BoltResponse::parse(V5, Bytes::from(bytes)) {
        Err(Error::ProtocolViolation { detail }) => detail,
        other => panic!("accepted or failed otherwise: {:?}", other),
    };
    assert_eq!(refused(vec![]), Violation::UnexpectedEnd);
    assert_eq!(refused(vec![0xB1]), Violation::UnexpectedEnd);
    assert_eq!(refused(vec![0x01]), Violation::UnexpectedMarker);
    assert_eq!(refused(vec![0xB1, 0x10, 0xA0]), Violation::UnexpectedTag);
    assert_eq!(refused(vec![0xB0, 0x70]), Violation::FieldCount);
    assert_eq!(refused(vec![0xB2, 0x7F, 0xA0, 0xA0]), Violation::FieldCount);
    assert_eq!(refused(vec![0xB1, 0x7E, 0xA0]), Violation::FieldCount);
    assert_eq!(refused(vec![0xB0, 0x7E, 0xA0]), Violation::TrailingBytes);
    assert_eq!(refused(vec![0xB0, 0x71]), Violation::FieldCount);
    assert_eq!(refused(vec![0xB1, 0x70, 0x90]), Violation::InvalidField);
    assert_eq!(refused(vec![0xB1, 0x71, 0xA0]), Violation::InvalidField);
    assert_eq!(refused(vec![0xB1, 0x70, 0xA1]), Violation::UnexpectedEnd);
    assert_eq!(refused(vec![0xB1, 0x70, 0xA0, 0x00]), Violation::TrailingBytes);
    // a failure must say what failed and why
    assert_eq!(refused(vec![0xB1, 0x7F, 0xA0]), Violation::InvalidField);
    assert_eq!(
        refused(vec![0xB1, 0x7F, 0xA1, 0x84, 0x63, 0x6F, 0x64, 0x65, 0x81, 0x61]),
        Violation::InvalidField
    );
}

#[test]
fn responses_become_errors() {
    assert_eq!(
        failure().into_error("RUN"),
        Error::ServerFailure {
            code: "Neo.Bad".to_owned(),
            message: "oops".to_owned(),
            context: "RUN",
        }
    );
    assert_eq!(ignored().into_error("RUN"), Error::Ignored { context: "RUN" });
    assert_eq!(
        record(1).into_error("RUN"),
        Error::ProtocolViolation { detail: Violation::UnexpectedResponse { context: "RUN" } }
    );
    assert_eq!(
        success_with_more().into_error("PULL"),
        Error::ProtocolViolation { detail: Violation::UnexpectedResponse { context: "PULL" } }
    );
}

#[test]
fn requests_are_written_with_their_tag() {
    assert_eq!(Goodbye::new().to_bytes(), vec![0xB0, 0x02]);
    assert_eq!(Reset::new().to_bytes(), vec![0xB0, 0x0F]);
    assert_eq!(Commit::new().to_bytes(), vec![0xB0, 0x12]);
    assert_eq!(Rollback::new().to_bytes(), vec![0xB0, 0x13]);
    assert_eq!(Begin::new(None).to_bytes().unwrap(), vec![0xB1, 0x11, 0xA0]);
    assert_eq!(
        Begin::new(Some("neo".to_owned())).to_bytes().unwrap(),
        vec![0xB1, 0x11, 0xA1, 0x82, 0x64, 0x62, 0x83, 0x6E, 0x65, 0x6F]
    );

    let mut params = MapRef::new();
    params.insert("x", BoltRef::Integer(1));
    let run = Run::new(None, "RETURN $x".to_owned(), BoltMap::from(params));
    assert_eq!(
        run.to_bytes().unwrap(),
        vec![
            0xB3, 0x10, 0x89, 0x52, 0x45, 0x54, 0x55, 0x52, 0x4E, 0x20, 0x24, 0x78, 0xA1, 0x81,
            0x78, 0x01, 0xA0
        ]
    );

    let hello = Hello::new("a/1".to_owned(), "neo4j".to_owned(), "pw".to_owned());
    let bytes = Bytes::from(hello.to_bytes().unwrap());
    assert_eq!(&bytes[..3], &[0xB1, 0x01, 0xA4]);
    let payload = bytes.slice(2..);
    let map = neo4rs::bolt::structs::de::decode_dictionary(&payload).unwrap();
    assert_eq!(map.keys(), vec!["user_agent", "scheme", "principal", "credentials"]);
    assert_eq!(map.get("scheme"), Some(&BoltRef::String("basic")));
    assert_eq!(map.get("principal"), Some(&BoltRef::String("neo4j")));
    assert_eq!(map.get("credentials"), Some(&BoltRef::String("pw")));
    assert_eq!(map.get("user_agent"), Some(&BoltRef::String("a/1")));
}

#[test]
fn requests_turn_into_bytes() {
    assert_eq!(&BoltRequest::rollback().into_bytes(V5).unwrap()[..], &[0xB0, 0x13]);
    assert_eq!(&BoltRequest::commit().into_bytes(V5).unwrap()[..], &[0xB0, 0x12]);
    assert_eq!(&BoltRequest::reset().into_bytes(V5).unwrap()[..], &[0xB0, 0x0F]);
    assert_eq!(&BoltRequest::goodbye().into_bytes(V5).unwrap()[..], &[0xB0, 0x02]);
    assert_eq!(
        &BoltRequest::pull(5, 2).into_bytes(V5).unwrap()[..],
        &Pull::some(5).for_query(2).to_bytes().unwrap()[..]
    );
    assert_eq!(
        &BoltRequest::discard(5, -1).into_bytes(V5).unwrap()[..],
        &[0xB1, 0x2F, 0xA1, 0x81, 0x6E, 0x05]
    );
    assert_eq!(
        &BoltRequest::begin("neo").into_bytes(V5).unwrap()[..],
        &Begin::new(Some("neo".to_owned())).to_bytes().unwrap()[..]
    );
    let run = BoltRequest::run("neo", "RETURN 1", BoltMap::new());
    assert_eq!(
        &run.into_bytes(V5).unwrap()[..],
        &[
            0xB3, 0x10, 0x88, 0x52, 0x45, 0x54, 0x55, 0x52, 0x4E, 0x20, 0x31, 0xA0, 0xA1, 0x82,
            0x64, 0x62, 0x83, 0x6E, 0x65, 0x6F
        ]
    );
}

#[test]
fn messages_travel_in_chunks() {
    assert_eq!(chunk(&[]), vec![0, 0]);
    assert_eq!(chunk(&[1, 2, 3]), vec![0, 3, 1, 2, 3, 0, 0]);
    let long = vec![7u8; 65535];
    let framed = chunk(&long);
    assert_eq!(framed.len(), 2 + 65535 + 2);
    assert_eq!(&framed[..2], &[0xFF, 0xFF]);
    let longer = vec![7u8; 65536];
    let framed = chunk(&longer);
    assert_eq!(framed.len(), 2 + 65535 + 2 + 1 + 2);
    assert_eq!(&framed[65537..], &[0, 1, 7, 0, 0]);
    assert_eq!(dechunk(&framed).unwrap(), (longer, framed.len()));
    let twice = vec![4u8; 200_000];
    let framed = chunk(&twice);
    assert_eq!(dechunk(&framed).unwrap(), (twice, framed.len()));

    // several chunks make one message; what follows the end mark is left
    assert_eq!(
        dechunk(&[0, 1, 9, 0, 2, 8, 7, 0, 0, 0, 1, 5]).unwrap(),
        (vec![9, 8, 7], 9)
    );
    assert_eq!(dechunk(&[0, 0, 0, 0]).unwrap(), (vec![], 2));

    let cut = Err(Error::ProtocolViolation { detail: Violation::UnexpectedEnd });
    assert_eq!(dechunk(&[]), cut);
    assert_eq!(dechunk(&[0]), cut);
    assert_eq!(dechunk(&[0, 2, 1]), cut);
    assert_eq!(dechunk(&[0, 1, 1]), cut);
    assert_eq!(dechunk(&[0, 1, 1, 0]), cut);
}

#[test]
fn the_handshake_settles_the_version() {
    let proposals = [
        Proposal { version: Version::new(5, 4), range: 4 },
        Proposal { version: Version::new(4, 4), range: 2 },
        Proposal { version: Version::new(4, 1), range: 0 },
        Proposal { version: Version::new(3, 0), range: 0 },
    ];
    assert_eq!(
        open_handshake(&proposals),
        vec![
            0x60, 0x60, 0xB0, 0x17, 0, 4, 4, 5, 0, 2, 4, 4, 0, 0, 1, 4, 0, 0, 0, 3
        ]
    );
    assert_eq!(close_handshake(&proposals, &[0, 0, 4, 5]), Ok(Version::new(5, 4)));
    assert_eq!(close_handshake(&proposals, &[0, 0, 0, 5]), Ok(Version::new(5, 0)));
    assert_eq!(close_handshake(&proposals, &[0, 0, 2, 4]), Ok(Version::new(4, 2)));
    assert_eq!(close_handshake(&proposals, &[0, 0, 1, 4]), Ok(Version::new(4, 1)));
    assert_eq!(close_handshake(&proposals, &[0, 0, 0, 3]), Ok(Version::new(3, 0)));
    assert_eq!(close_handshake(&proposals, &[0, 0, 0, 0]), Err(Error::UnsupportedVersion));
    let unexpected = Err(Error::ProtocolViolation { detail: Violation::UnexpectedMessage });
    assert_eq!(close_handshake(&proposals, &[0, 0, 5, 5]), unexpected);
    assert_eq!(close_handshake(&proposals, &[0, 0, 0, 4]), unexpected);
    assert_eq!(close_handshake(&proposals, &[0, 0, 0, 6]), unexpected);
    assert_eq!(
        close_handshake(&proposals, &[0, 0, 4]),
        Err(Error::ProtocolViolation { detail: Violation::UnexpectedEnd })
    );
    assert_eq!(
        close_handshake(&proposals, &[0, 0, 4, 5, 0]),
        Err(Error::ProtocolViolation { detail: Violation::TrailingBytes })
    );
}

fn ready() -> Connection {
    let mut connection = Connection::new();
    assert_eq!(connection.state(), ConnectionState::Disconnected);
    assert!(connection.negotiated(&Ok(V5)));
    assert_eq!(connection.state(), ConnectionState::Negotiated(V5));
    connection.send(RequestKind::Hello).unwrap();
    assert_eq!(connection.state(), ConnectionState::Authenticating);
    assert_eq!(connection.receive(&success_with_summary()), Ok(Progress::Completed));
    assert_eq!(connection.state(), ConnectionState::Ready);
    connection
}

fn run_success(qid: i8) -> BoltResponse {
    let message = bolt()
        .structure(1, 0x70)
        .tiny_map(2)
        .tiny_string("fields")
        .tiny_list(1)
        .tiny_string("n")
        .tiny_string("qid")
        .tiny_int(qid)
        .build();
    BoltResponse::parse(V5, message).unwrap()
}

#[test]
fn a_connection_goes_through_its_states() {
    let refused = Err(Error::ProtocolViolation { detail: Violation::UnexpectedMessage });
    let mut connection = ready();
    assert!(connection.is_reusable());
    assert_eq!(connection.send(RequestKind::Pull), refused);
    assert_eq!(connection.send(RequestKind::Commit), refused);

    connection.send(RequestKind::Run).unwrap();
    assert!(!connection.is_reusable());
    assert_eq!(connection.send(RequestKind::Run), refused);
    assert_eq!(connection.receive(&run_success(4)), Ok(Progress::Completed));
    assert_eq!(connection.state(), ConnectionState::Streaming { qid: 4 });

    connection.send(RequestKind::Pull).unwrap();
    assert_eq!(connection.receive(&record(1)), Ok(Progress::Detail));
    assert_eq!(connection.receive(&success_with_more()), Ok(Progress::Completed));
    assert_eq!(connection.state(), ConnectionState::Streaming { qid: 4 });
    connection.send(RequestKind::Pull).unwrap();
    assert_eq!(connection.receive(&success_with_summary()), Ok(Progress::Completed));
    assert_eq!(connection.state(), ConnectionState::Ready);

    connection.send(RequestKind::Begin).unwrap();
    assert_eq!(connection.receive(&success_with_summary()), Ok(Progress::Completed));
    assert_eq!(connection.state(), ConnectionState::TxBegun);
    connection.send(RequestKind::Run).unwrap();
    assert_eq!(connection.receive(&success_with_summary()), Ok(Progress::Completed));
    assert_eq!(connection.state(), ConnectionState::TxStreaming { qid: -1 });
    connection.send(RequestKind::Discard).unwrap();
    assert_eq!(connection.receive(&success_with_summary()), Ok(Progress::Completed));
    assert_eq!(connection.state(), ConnectionState::TxBegun);
    connection.send(RequestKind::Commit).unwrap();
    assert_eq!(connection.receive(&success_with_summary()), Ok(Progress::Completed));
    assert_eq!(connection.state(), ConnectionState::Ready);

    connection.send(RequestKind::Goodbye).unwrap();
    assert_eq!(connection.state(), ConnectionState::Closed);
    assert_eq!(connection.send(RequestKind::Reset), refused);
    assert_eq!(connection.send(RequestKind::Run), refused);
}

#[test]
fn a_failed_connection_ignores_all_but_a_reset() {
    let mut connection = ready();
    connection.send(RequestKind::Run).unwrap();
    assert_eq!(
        connection.receive(&failure()),
        Err(Error::ServerFailure {
            code: "Neo.Bad".to_owned(),
            message: "oops".to_owned(),
            context: "RUN",
        })
    );
    assert_eq!(connection.state(), ConnectionState::Failed);

    connection.send(RequestKind::Run).unwrap();
    assert_eq!(connection.receive(&ignored()), Err(Error::Ignored { context: "RUN" }));
    assert_eq!(connection.state(), ConnectionState::Failed);
    connection.send(RequestKind::Pull).unwrap();
    assert_eq!(connection.receive(&ignored()), Err(Error::Ignored { context: "PULL" }));
    assert_eq!(connection.state(), ConnectionState::Failed);

    connection.send(RequestKind::Reset).unwrap();
    assert_eq!(connection.receive(&success_with_summary()), Ok(Progress::Completed));
    assert_eq!(connection.state(), ConnectionState::Ready);
    assert!(connection.is_reusable());
}

#[test]
fn a_reset_recovers_every_state_but_closed() {
    let states = [
        ConnectionState::Disconnected,
        ConnectionState::Negotiated(V5),
        ConnectionState::Authenticating,
        ConnectionState::Ready,
        ConnectionState::Streaming { qid: 1 },
        ConnectionState::TxBegun,
        ConnectionState::TxStreaming { qid: 1 },
        ConnectionState::Failed,
        ConnectionState::Interrupted,
    ];
    for state in states {
        for pending in [None, Some(RequestKind::Pull)] {
            let mut connection = Connection { state, pending };
            connection.send(RequestKind::Reset).unwrap();
            // what still comes for the request that was given up is dropped
            assert_eq!(connection.receive(&record(1)), Ok(Progress::Drained));
            assert_eq!(connection.receive(&ignored()), Ok(Progress::Drained));
            assert_eq!(connection.receive(&success_with_more()), Ok(Progress::Completed));
            assert_eq!(connection.state(), ConnectionState::Ready);
            assert!(connection.is_reusable());
        }
    }
    let mut closed = Connection { state: ConnectionState::Closed, pending: None };
    assert!(closed.send(RequestKind::Reset).is_err());
    assert_eq!(closed.state(), ConnectionState::Closed);
}

#[test]
fn what_breaks_the_protocol_closes_the_connection() {
    let unexpected = Err(Error::ProtocolViolation { detail: Violation::UnexpectedMessage });
    let mut connection = ready();
    assert_eq!(connection.receive(&record(1)), unexpected);
    assert_eq!(connection.state(), ConnectionState::Closed);

    let mut connection = ready();
    connection.send(RequestKind::Run).unwrap();
    assert_eq!(connection.receive(&record(1)), unexpected);
    assert_eq!(connection.state(), ConnectionState::Closed);

    let mut connection = ready();
    connection.send(RequestKind::Run).unwrap();
    assert_eq!(connection.receive(&ignored()), unexpected);
    assert_eq!(connection.state(), ConnectionState::Closed);

    let mut connection = ready();
    connection.fail();
    assert_eq!(connection.state(), ConnectionState::Closed);

    let mut connection = Connection::new();
    assert!(!connection.negotiated(&Err(Error::UnsupportedVersion)));
    assert_eq!(connection.state(), ConnectionState::Closed);

    let mut connection = Connection::new();
    connection.negotiated(&Ok(V5));
    connection.send(RequestKind::Hello).unwrap();
    assert_eq!(
        connection.receive(&failure()),
        Err(Error::AuthenticationFailed {
            code: "Neo.Bad".to_owned(),
            message: "oops".to_owned(),
        })
    );
    assert_eq!(connection.state(), ConnectionState::Closed);
}

#[test]
fn a_request_that_is_given_up_interrupts_the_connection() {
    let mut connection = ready();
    connection.interrupt();
    assert_eq!(connection.state(), ConnectionState::Ready);
    connection.send(RequestKind::Run).unwrap();
    connection.interrupt();
    assert_eq!(connection.state(), ConnectionState::Interrupted);
    assert!(!connection.is_reusable());
    assert!(connection.send(RequestKind::Run).is_err());
    connection.send(RequestKind::Reset).unwrap();
    assert_eq!(connection.receive(&ignored()), Ok(Progress::Drained));
    assert_eq!(connection.receive(&success_with_summary()), Ok(Progress::Completed));
    assert!(connection.is_reusable());
}

#[test]
fn signals_are_read_from_responses() {
    assert_eq!(
        Signal::of(&run_success(4)),
        Signal::Success { has_more: false, qid: Some(4) }
    );
    assert_eq!(
        Signal::of(&success_with_more()),
        Signal::Success { has_more: true, qid: None }
    );
    assert_eq!(Signal::of(&failure()), Signal::Failure);
    assert_eq!(Signal::of(&ignored()), Signal::Ignored);
    assert_eq!(Signal::of(&record(1)), Signal::Record);
    assert_eq!(RequestKind::Rollback.name(), "ROLLBACK");
    assert_eq!(RequestKind::Hello.name(), "HELLO");
}

#[test]
fn errors_of_the_pool_and_the_socket() {
    assert_eq!(Error::from_pool_fault(PoolFault::Timeout), Error::PoolExhausted);
    assert_eq!(Error::from_pool_fault(PoolFault::Closed), Error::PoolExhausted);
    assert_eq!(
        Error::from_pool_fault(PoolFault::Backend(Error::UnsupportedVersion)),
        Error::UnsupportedVersion
    );
    assert_eq!(
        Error::from(deadpool::managed::PoolError::Backend(Error::UnsupportedVersion)),
        Error::UnsupportedVersion
    );
    assert_eq!(
        Error::from(deadpool::managed::PoolError::<Error>::Closed),
        Error::PoolExhausted
    );
    assert_eq!(
        Error::from(deadpool::managed::PoolError::<Error>::NoRuntimeSpecified),
        Error::PoolExhausted
    );
    let broken = std::io::Error::new(std::io::ErrorKind::BrokenPipe, "pipe");
    match Error::from(broken) {
        Error::Io { detail } => assert!(detail.contains("pipe")),
        other => panic!("no socket error: {:?}", other),
    }
    assert_eq!(
        Error::from_io_detail("gone".to_owned()),
        Error::Io { detail: "gone".to_owned() }
    );
}

#[test]
fn items_for_those_who_take_rows_and_summary_apart() {
    let row: RowItem<u8> = RowItem::Row(7);
    assert_eq!(row.split(), Split::Row(7));
    let done: RowItem<u8> = RowItem::Done;
    assert_eq!(done.split(), Split::End(None));
    assert_eq!(RowItem::<u8>::Done.into_next(), None);
    assert_eq!(RowItem::Row(1u8).into_next(), Some(RowItem::Row(1u8)));

    let mut stream = RowStream::new(0, vec![], 1);
    let mut wire = vec![success_with_summary()];
    let mut sent = Vec::new();
    let item = drive(&mut stream, &mut wire, &mut sent).unwrap();
    match item.split() {
        Split::End(Some(summary)) => assert_eq!(summary.metadata.len(), 2),
        other => panic!("no summary: {:?}", other),
    }
}

#[test]
fn what_a_request_says_is_open() {
    let mut run = Run::new(Some("neo".to_owned()), "RETURN 1".to_owned(), BoltMap::new());
    assert_eq!(run.extra.insert("tx_timeout".to_owned(), Bolt::Integer(5000)), None);
    assert_eq!(
        run.extra.insert("mode".to_owned(), Bolt::String("r".to_owned())),
        None
    );
    assert_eq!(
        run.extra.insert("tx_timeout".to_owned(), Bolt::Integer(100)),
        Some(Bolt::Integer(5000))
    );
    assert_eq!(
        run.to_bytes().unwrap(),
        vec![
            0xB3, 0x10, 0x88, 0x52, 0x45, 0x54, 0x55, 0x52, 0x4E, 0x20, 0x31, 0xA0, 0xA3, 0x82,
            0x64, 0x62, 0x83, 0x6E, 0x65, 0x6F, 0x8A, 0x74, 0x78, 0x5F, 0x74, 0x69, 0x6D, 0x65,
            0x6F, 0x75, 0x74, 0x64, 0x84, 0x6D, 0x6F, 0x64, 0x65, 0x81, 0x72
        ]
    );

    let mut begin = Begin::new(None);
    assert_eq!(begin.extra.len(), 0);
    begin.extra.insert(
        "bookmarks".to_owned(),
        Bolt::List(vec![Bolt::String("b".to_owned())]),
    );
    assert_eq!(
        begin.to_bytes().unwrap(),
        vec![
            0xB1, 0x11, 0xA1, 0x89, 0x62, 0x6F, 0x6F, 0x6B, 0x6D, 0x61, 0x72, 0x6B, 0x73, 0x91,
            0x81, 0x62
        ]
    );

    let mut hello = Hello::new("a/1".to_owned(), "neo4j".to_owned(), "pw".to_owned());
    assert_eq!(hello.extra.len(), 4);
    hello.extra.insert("patch_bolt".to_owned(), Bolt::List(vec![]));
    let bytes = hello.to_bytes().unwrap();
    assert_eq!(&bytes[..3], &[0xB1, 0x01, 0xA5]);
}

#[test]
fn a_record_is_no_answer_to_a_discard() {
    let mut stream = RowStream::new(0, vec![], 2);
    assert!(matches!(
        stream.finish(None).unwrap(),
        Next::Send(BoltRequest::Discard(_))
    ));
    assert_eq!(stream.finish(None).unwrap(), Next::Receive);
    assert_eq!(
        stream.finish(Some(record(1))),
        Err(Error::ProtocolViolation {
            detail: Violation::UnexpectedResponse { context: "DISCARD" }
        })
    );
    // the stream still waits for the answer
    assert_eq!(stream.finish(None).unwrap(), Next::Receive);
    assert!(matches!(
        stream.finish(Some(success_with_summary())).unwrap(),
        Next::Item(Some(_))
    ));
    assert_eq!(stream.finish(None).unwrap(), Next::Item(None));
    assert_eq!(
        stream.finish(Some(success_with_summary())),
        Err(Error::ProtocolViolation { detail: Violation::UnexpectedMessage })
    );
}

fn streaming() -> Connection {
    let mut connection = Connection {
        state: ConnectionState::Streaming { qid: 0 },
        pending: None,
    };
    connection.send(RequestKind::Pull).unwrap();
    connection
}

#[test]
fn a_stream_gets_the_failure_that_the_connection_took_note_of() {
    let mut connection = streaming();
    assert_eq!(connection.receive_for_stream(record(1)), Ok(record(1)));
    assert_eq!(connection.pending, Some(RequestKind::Pull));
    assert_eq!(connection.receive_for_stream(failure()), Ok(failure()));
    assert_eq!(connection.state(), ConnectionState::Failed);
    assert_eq!(connection.pending, None);

    connection.send(RequestKind::Pull).unwrap();
    assert_eq!(connection.receive_for_stream(ignored()), Ok(ignored()));
    assert_eq!(connection.state(), ConnectionState::Failed);

    let mut connection = streaming();
    assert_eq!(
        connection.receive_for_stream(success_with_summary()),
        Ok(success_with_summary())
    );
    assert_eq!(connection.state(), ConnectionState::Ready);

    let unexpected = Err(Error::ProtocolViolation { detail: Violation::UnexpectedMessage });
    let mut connection = streaming();
    assert_eq!(connection.receive_for_stream(ignored()), unexpected);
    assert_eq!(connection.state(), ConnectionState::Closed);
    let mut idle = ready();
    assert_eq!(idle.receive_for_stream(record(1)), unexpected);
    assert_eq!(idle.state(), ConnectionState::Closed);
}

#[test]
fn a_message_that_was_read_is_parsed_and_taken_in() {
    let pulled = bolt().structure(1, 0x71).tiny_list(1).tiny_int(1).build();
    let failed = bolt()
        .structure(1, 0x7F)
        .tiny_map(2)
        .tiny_string("code")
        .tiny_string("Neo.Bad")
        .tiny_string("message")
        .tiny_string("oops")
        .build();
    let broken = bolt().structure(1, 0x10).tiny_map(0).build();
    let closed = Connection { state: ConnectionState::Closed, pending: None };

    let mut connection = streaming();
    assert_eq!(connection.accept(V5, pulled.clone()), Ok(record(1)));
    assert_eq!(
        connection.accept(V5, failed.clone()),
        Err(Error::ServerFailure {
            code: "Neo.Bad".to_owned(),
            message: "oops".to_owned(),
            context: "PULL",
        })
    );
    assert_eq!(connection.state(), ConnectionState::Failed);
    assert_eq!(
        connection.accept(V5, pulled.clone()),
        Err(Error::ProtocolViolation { detail: Violation::UnexpectedMessage })
    );
    assert_eq!(connection, closed);

    let mut connection = streaming();
    assert_eq!(connection.accept_for_stream(V5, pulled), Ok(record(1)));
    assert_eq!(connection.accept_for_stream(V5, failed), Ok(failure()));
    assert_eq!(connection.state(), ConnectionState::Failed);

    let mut connection = streaming();
    assert_eq!(
        connection.accept(V5, broken.clone()),
        Err(Error::ProtocolViolation { detail: Violation::UnexpectedTag })
    );
    assert_eq!(connection, closed);
    let mut connection = streaming();
    assert_eq!(
        connection.accept_for_stream(V5, broken),
        Err(Error::ProtocolViolation { detail: Violation::UnexpectedTag })
    );
    assert_eq!(connection, closed);

    let mut connection = streaming();
    assert_eq!(
        connection.cut_off(),
        Error::ProtocolViolation { detail: Violation::UnexpectedEnd }
    );
    assert_eq!(connection, closed);
}

#[test]
fn a_reset_is_awaited_until_the_connection_is_ready() {
    let mut connection = streaming();
    connection.send(RequestKind::Reset).unwrap();
    assert_eq!(connection.awaits_reset(), Ok(true));
    // what answers the request that was given up is dropped
    assert_eq!(connection.receive(&record(1)), Ok(Progress::Drained));
    assert_eq!(connection.awaits_reset(), Ok(true));
    assert_eq!(connection.receive(&success_with_summary()), Ok(Progress::Completed));
    assert_eq!(connection.awaits_reset(), Ok(false));
    assert!(connection.is_reusable());

    let mut connection = streaming();
    connection.send(RequestKind::Reset).unwrap();
    assert!(connection.receive(&failure()).is_err());
    assert_eq!(
        connection.awaits_reset(),
        Err(Error::ProtocolViolation { detail: Violation::UnexpectedMessage })
    );
    let failed = Connection { state: ConnectionState::Failed, pending: None };
    assert_eq!(failed.awaits_reset(), Ok(true));
}
