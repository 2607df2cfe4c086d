use neo4rs::bolt::{Discard, Pull};
use neo4rs::Error;

/// Builds expected bytes marker by marker.
struct Builder {
    data: Vec<u8>,
}

fn bolt() -> Builder {
    Builder { data: Vec::new() }
}

impl Builder {
    fn structure(mut self, fields: u8, tag: u8) -> Self {
        self.data.push(0xB0 | fields);
        self.data.push(tag);
        self
    }

    fn tiny_map(mut self, len: u8) -> Self {
        self.data.push(0xA0 | len);
        self
    }

    fn tiny_string(mut self, s: &str) -> Self {
        self.data.push(0x80 | s.len() as u8);
        self.data.extend_from_slice(s.as_bytes());
        self
    }

    fn tiny_int(mut self, n: i8) -> Self {
        self.data.push(n as u8);
        self
    }

    fn build(self) -> Vec<u8> {
        self.data
    }
}

#[test]
fn discard_serialize() {
    let hello = Discard::some(42).for_query(1);
    let bytes = hello.to_bytes().unwrap();

    let expected = bolt()
        .structure(1, 0x2F)
        .tiny_map(2)
        .tiny_string("n")
        .tiny_int(42)
        .tiny_string("qid")
        .tiny_int(1)
        .build();

    assert_eq!(bytes, expected);
}

#[test]
fn discard_serialize_default_values() {
    let hello = Discard::all();
    let bytes = hello.to_bytes().unwrap();

    let expected = bolt()
        .structure(1, 0x2F)
        .tiny_map(1)
        .tiny_string("n")
        .tiny_int(-1)
        .build();

    assert_eq!(bytes, expected);
}

#[test]
fn pull_serialize() {
    let hello = Pull::some(42).for_query(1);
    let bytes = hello.to_bytes().unwrap();

    let expected = bolt()
        .structure(1, 0x3F)
        .tiny_map(2)
        .tiny_string("n")
        .tiny_int(42)
        .tiny_string("qid")
        .tiny_int(1)
        .build();

    assert_eq!(bytes, expected);
}

#[test]
fn pull_serialize_default_values() {
    let hello = Pull::all();
    let bytes = hello.to_bytes().unwrap();

    let expected = bolt()
        .structure(1, 0x3F)
        .tiny_map(1)
        .tiny_string("n")
        .tiny_int(-1)
        .build();

    assert_eq!(bytes, expected);
}

#[test]
fn discard_targeting_query_one() {
    let bytes = Discard::some(42).for_query(1).to_bytes().unwrap();
    assert_eq!(
        bytes,
        vec![0xB1, 0x2F, 0xA2, 0x81, 0x6E, 0x2A, 0x83, 0x71, 0x69, 0x64, 0x01]
    );
}

#[test]
fn last_query_is_left_out() {
    let named = Pull::some(7).for_last_query().to_bytes().unwrap();
    let plain = Pull::some(7).to_bytes().unwrap();
    assert_eq!(named, plain);
    assert_eq!(plain, vec![0xB1, 0x3F, 0xA1, 0x81, 0x6E, 0x07]);
}

#[test]
fn many_refuses_what_does_not_fit() {
    let overflow = Err(Error::IntegerOverflow { field: "n" });
    assert_eq!(Pull::many(i128::from(u64::MAX)), overflow);
    assert_eq!(Pull::many(i128::from(i64::MAX) + 1), overflow);
    assert_eq!(Pull::many(i128::from(i64::MIN) - 1), overflow);
    assert_eq!(Pull::many(i128::MAX), overflow);
    assert_eq!(Pull::many(i128::MIN), overflow);
    assert!(Discard::many(1u64 << 63).is_err());
    assert_eq!(
        Pull::many(5).unwrap().to_bytes().unwrap(),
        Pull::some(5).to_bytes().unwrap()
    );
    assert_eq!(
        Pull::many(i128::from(i64::MAX)).unwrap().to_bytes().unwrap(),
        vec![0xB1, 0x3F, 0xA1, 0x81, 0x6E, 0xCB, 0x7F, 0xFF, 0xFF, 0xFF, 0xFF, 0xFF, 0xFF, 0xFF]
    );
}

#[test]
fn a_negative_count_asks_for_all() {
    assert_eq!(Pull::many(-1).unwrap(), Pull::all());
    assert_eq!(Pull::many(-200).unwrap(), Pull::all());
    assert_eq!(Pull::many(i128::from(i64::MIN)).unwrap(), Pull::all());
    assert_eq!(Pull::many(-7isize as i128).unwrap(), Pull::all());
    assert_eq!(Pull::many(usize::MAX as i128).is_err(), usize::MAX as u128 > i64::MAX as u128);
    assert_eq!(
        Pull::many(-5).unwrap().to_bytes().unwrap(),
        vec![0xB1, 0x3F, 0xA1, 0x81, 0x6E, 0xFF]
    );
}

#[test]
fn a_count_of_zero_asks_for_all() {
    assert_eq!(Pull::some(0), Pull::all());
    assert_eq!(Discard::some(0), Discard::all());
    assert_eq!(Pull::many(0).unwrap(), Pull::all());
    assert_eq!(
        Pull::some(0).to_bytes().unwrap(),
        vec![0xB1, 0x3F, 0xA1, 0x81, 0x6E, 0xFF]
    );
    assert_eq!(
        Pull::some(1).to_bytes().unwrap(),
        vec![0xB1, 0x3F, 0xA1, 0x81, 0x6E, 0x01]
    );
}
