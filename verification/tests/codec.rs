use bytes::Bytes;
use neo4rs::bolt::structs::{
    BoltRef, Date, DateTime, DateTimeZoneIdRef, Duration, LegacyDateTime,
    LegacyDateTimeZoneIdRef, LocalDateTime, LocalTime, MapRef, Point2D, Point3D, Time,
};
use neo4rs::errors::{Error, Violation};
use neo4rs::packstream::de::{decode, decode_deferred, StructHeader};
use neo4rs::packstream::ser::encode;

fn roundtrip(value: BoltRef<'_>) -> Vec<u8> {
    let bytes = encode(&value).unwrap();
    let input = Bytes::from(bytes.clone());
    let back = decode(&input).unwrap();
    assert_eq!(back, value);
    assert_eq!(encode(&back).unwrap(), bytes);
    bytes
}

fn refused(bytes: &[u8]) -> Violation {
    match decode(&Bytes::copy_from_slice(bytes)) {
        Err(Error::ProtocolViolation { detail }) => detail,
        other => panic!("accepted or failed otherwise: {:?}", other),
    }
}

fn accepted(bytes: &[u8], value: BoltRef<'_>) {
    assert_eq!(decode(&Bytes::copy_from_slice(bytes)).unwrap(), value);
}

#[test]
fn integers_use_the_shortest_form() {
    assert_eq!(encode(&BoltRef::Integer(42)).unwrap(), vec![0x2A]);
    assert_eq!(encode(&BoltRef::Integer(200)).unwrap(), vec![0xC9, 0x00, 0xC8]);
    assert_eq!(encode(&BoltRef::Integer(-9000)).unwrap(), vec![0xC9, 0xDC, 0xD8]);

    assert_eq!(roundtrip(BoltRef::Integer(0)), vec![0x00]);
    assert_eq!(roundtrip(BoltRef::Integer(127)), vec![0x7F]);
    assert_eq!(roundtrip(BoltRef::Integer(-1)), vec![0xFF]);
    assert_eq!(roundtrip(BoltRef::Integer(-16)), vec![0xF0]);
    assert_eq!(roundtrip(BoltRef::Integer(-17)), vec![0xC8, 0xEF]);
    assert_eq!(roundtrip(BoltRef::Integer(-128)), vec![0xC8, 0x80]);
    assert_eq!(roundtrip(BoltRef::Integer(128)), vec![0xC9, 0x00, 0x80]);
    assert_eq!(roundtrip(BoltRef::Integer(-129)), vec![0xC9, 0xFF, 0x7F]);
    assert_eq!(roundtrip(BoltRef::Integer(32767)), vec![0xC9, 0x7F, 0xFF]);
    assert_eq!(roundtrip(BoltRef::Integer(-32768)), vec![0xC9, 0x80, 0x00]);
    assert_eq!(roundtrip(BoltRef::Integer(32768)), vec![0xCA, 0x00, 0x00, 0x80, 0x00]);
    assert_eq!(roundtrip(BoltRef::Integer(-32769)), vec![0xCA, 0xFF, 0xFF, 0x7F, 0xFF]);
    assert_eq!(
        roundtrip(BoltRef::Integer(i32::MAX as i64)),
        vec![0xCA, 0x7F, 0xFF, 0xFF, 0xFF]
    );
    assert_eq!(
        roundtrip(BoltRef::Integer(i32::MIN as i64)),
        vec![0xCA, 0x80, 0x00, 0x00, 0x00]
    );
    assert_eq!(
        roundtrip(BoltRef::Integer(i32::MAX as i64 + 1)),
        vec![0xCB, 0, 0, 0, 0, 0x80, 0, 0, 0]
    );
    assert_eq!(
        roundtrip(BoltRef::Integer(i64::MAX)),
        vec![0xCB, 0x7F, 0xFF, 0xFF, 0xFF, 0xFF, 0xFF, 0xFF, 0xFF]
    );
    assert_eq!(
        roundtrip(BoltRef::Integer(i64::MIN)),
        vec![0xCB, 0x80, 0, 0, 0, 0, 0, 0, 0]
    );
    assert_eq!(
        roundtrip(BoltRef::Integer(-2)),
        vec![0xFE]
    );
}

#[test]
fn integers_written_too_wide_are_read_as_their_number() {
    accepted(&[0xC8, 0x2A], BoltRef::Integer(42));
    accepted(&[0xC9, 0x00, 0x2A], BoltRef::Integer(42));
    accepted(&[0xCA, 0x00, 0x00, 0x00, 0x2A], BoltRef::Integer(42));
    accepted(&[0xCB, 0, 0, 0, 0, 0, 0, 0, 0x2A], BoltRef::Integer(42));
    accepted(&[0xCB, 0xFF, 0xFF, 0xFF, 0xFF, 0xFF, 0xFF, 0xFF, 0xFF], BoltRef::Integer(-1));
    accepted(&[0xC9, 0xFF, 0xF0], BoltRef::Integer(-16));
    let wide = Bytes::from(vec![0xCA, 0x00, 0x00, 0x00, 0x2A]);
    assert_eq!(encode(&decode(&wide).unwrap()).unwrap(), vec![0x2A]);
}

#[test]
fn containers_written_too_wide_are_read_all_the_same() {
    accepted(&[0xD0, 0x01, 0x61], BoltRef::String("a"));
    accepted(&[0xD1, 0x00, 0x01, 0x61], BoltRef::String("a"));
    accepted(&[0xD2, 0x00, 0x00, 0x00, 0x01, 0x61], BoltRef::String("a"));
    accepted(&[0xD4, 0x01, 0x01], BoltRef::List(vec![BoltRef::Integer(1)]));
    accepted(&[0xD5, 0x00, 0x00], BoltRef::List(vec![]));
    accepted(&[0xD6, 0x00, 0x00, 0x00, 0x00], BoltRef::List(vec![]));
    accepted(&[0xD8, 0x00], BoltRef::Dictionary(MapRef::new()));
    accepted(&[0xD9, 0x00, 0x00], BoltRef::Dictionary(MapRef::new()));
    accepted(&[0xDA, 0x00, 0x00, 0x00, 0x00], BoltRef::Dictionary(MapRef::new()));
    accepted(&[0xCD, 0x00, 0x01, 0x07], BoltRef::Bytes(&[7]));
    accepted(&[0xCE, 0x00, 0x00, 0x00, 0x01, 0x07], BoltRef::Bytes(&[7]));
}

#[test]
fn primitives_read_back_as_written() {
    assert_eq!(roundtrip(BoltRef::Null), vec![0xC0]);
    assert_eq!(roundtrip(BoltRef::Boolean(true)), vec![0xC3]);
    assert_eq!(roundtrip(BoltRef::Boolean(false)), vec![0xC2]);
    assert_eq!(
        roundtrip(BoltRef::Float(1.23f64.to_bits())),
        vec![0xC1, 0x3F, 0xF3, 0xAE, 0x14, 0x7A, 0xE1, 0x47, 0xAE]
    );
}

#[test]
fn floats_keep_every_bit() {
    for f in [
        0.0f64,
        -0.0,
        1.5,
        f64::MAX,
        f64::MIN_POSITIVE,
        f64::INFINITY,
        f64::NEG_INFINITY,
        f64::NAN,
    ] {
        let bits = f.to_bits();
        let bytes = roundtrip(BoltRef::Float(bits));
        assert_eq!(bytes[0], 0xC1);
        assert_eq!(&bytes[1..], &bits.to_be_bytes());
    }
    let odd_nan: u64 = 0x7FF0_0000_0000_1234;
    let input = Bytes::from(encode(&BoltRef::Float(odd_nan)).unwrap());
    assert_eq!(decode(&input).unwrap(), BoltRef::Float(odd_nan));
}

#[test]
fn strings_of_every_size_class() {
    assert_eq!(roundtrip(BoltRef::String("")), vec![0x80]);
    assert_eq!(roundtrip(BoltRef::String("a")), vec![0x81, 0x61]);
    let s15 = "x".repeat(15);
    assert_eq!(roundtrip(BoltRef::String(&s15))[0], 0x8F);
    let s16 = "x".repeat(16);
    assert_eq!(&roundtrip(BoltRef::String(&s16))[..2], &[0xD0, 16]);
    let s255 = "x".repeat(255);
    assert_eq!(&roundtrip(BoltRef::String(&s255))[..2], &[0xD0, 255]);
    let s256 = "x".repeat(256);
    assert_eq!(&roundtrip(BoltRef::String(&s256))[..3], &[0xD1, 1, 0]);
    let s65535 = "x".repeat(65535);
    assert_eq!(&roundtrip(BoltRef::String(&s65535))[..3], &[0xD1, 0xFF, 0xFF]);
    let s65536 = "x".repeat(65536);
    assert_eq!(&roundtrip(BoltRef::String(&s65536))[..5], &[0xD2, 0, 1, 0, 0]);
    assert_eq!(
        roundtrip(BoltRef::String("h\u{e9}\u{20ac}\u{1F600}")),
        vec![0x8A, 0x68, 0xC3, 0xA9, 0xE2, 0x82, 0xAC, 0xF0, 0x9F, 0x98, 0x80]
    );
}

#[test]
fn byte_strings_of_every_size_class() {
    assert_eq!(roundtrip(BoltRef::Bytes(&[])), vec![0xCC, 0x00]);
    assert_eq!(roundtrip(BoltRef::Bytes(&[1, 2, 3])), vec![0xCC, 0x03, 1, 2, 3]);
    let b255 = vec![9u8; 255];
    assert_eq!(&roundtrip(BoltRef::Bytes(&b255))[..2], &[0xCC, 255]);
    let b256 = vec![9u8; 256];
    assert_eq!(&roundtrip(BoltRef::Bytes(&b256))[..3], &[0xCD, 1, 0]);
    let b65536 = vec![9u8; 65536];
    assert_eq!(&roundtrip(BoltRef::Bytes(&b65536))[..5], &[0xCE, 0, 1, 0, 0]);
}

#[test]
fn lists_of_every_size_class() {
    assert_eq!(roundtrip(BoltRef::List(vec![])), vec![0x90]);
    assert_eq!(
        roundtrip(BoltRef::List(vec![BoltRef::Integer(1), BoltRef::String("a")])),
        vec![0x92, 0x01, 0x81, 0x61]
    );
    let items = |n: usize| (0..n).map(|_| BoltRef::Null).collect::<Vec<_>>();
    assert_eq!(roundtrip(BoltRef::List(items(15)))[0], 0x9F);
    assert_eq!(&roundtrip(BoltRef::List(items(16)))[..2], &[0xD4, 16]);
    assert_eq!(&roundtrip(BoltRef::List(items(256)))[..3], &[0xD5, 1, 0]);
    assert_eq!(&roundtrip(BoltRef::List(items(65536)))[..5], &[0xD6, 0, 1, 0, 0]);
    let nested = BoltRef::List(vec![
        BoltRef::List(vec![BoltRef::List(vec![])]),
        BoltRef::Boolean(true),
    ]);
    assert_eq!(roundtrip(nested), vec![0x92, 0x91, 0x90, 0xC3]);
}

#[test]
fn dictionaries_of_every_size_class() {
    assert_eq!(roundtrip(BoltRef::Dictionary(MapRef::new())), vec![0xA0]);
    let keys: Vec<String> = (0..300).map(|i| format!("k{}", i)).collect();
    let map_of = |n: usize| {
        let mut map = MapRef::new();
        for key in keys.iter().take(n) {
            map.insert(key, BoltRef::Integer(1));
        }
        map
    };
    assert_eq!(roundtrip(BoltRef::Dictionary(map_of(15)))[0], 0xAF);
    assert_eq!(&roundtrip(BoltRef::Dictionary(map_of(16)))[..2], &[0xD8, 16]);
    assert_eq!(&roundtrip(BoltRef::Dictionary(map_of(256)))[..3], &[0xD9, 1, 0]);
    let mut inner = MapRef::new();
    inner.insert("b", BoltRef::List(vec![BoltRef::Null]));
    let mut outer = MapRef::new();
    outer.insert("z", BoltRef::Dictionary(inner));
    outer.insert("a", BoltRef::Integer(-1));
    assert_eq!(
        roundtrip(BoltRef::Dictionary(outer)),
        vec![0xA2, 0x81, 0x7A, 0xA1, 0x81, 0x62, 0x91, 0xC0, 0x81, 0x61, 0xFF]
    );
}

#[test]
fn structures_read_back_as_written() {
    assert_eq!(roundtrip(BoltRef::Date(Date::new(-5))), vec![0xB1, 0x44, 0xFB]);
    assert_eq!(
        roundtrip(BoltRef::Time(Time::new(1, -3600))),
        vec![0xB2, 0x54, 0x01, 0xC9, 0xF1, 0xF0]
    );
    assert_eq!(roundtrip(BoltRef::LocalTime(LocalTime::new(7))), vec![0xB1, 0x74, 0x07]);
    assert_eq!(
        roundtrip(BoltRef::DateTime(DateTime::new(4500, 42, 3600))),
        vec![0xB3, 0x49, 0xC9, 0x11, 0x94, 0x2A, 0xC9, 0x0E, 0x10]
    );
    assert_eq!(
        roundtrip(BoltRef::DateTimeZoneId(DateTimeZoneIdRef::new(1, 2, "UTC"))),
        vec![0xB3, 0x69, 0x01, 0x02, 0x83, 0x55, 0x54, 0x43]
    );
    assert_eq!(
        roundtrip(BoltRef::LocalDateTime(LocalDateTime::new(1, u32::MAX))),
        vec![0xB2, 0x64, 0x01, 0xCB, 0, 0, 0, 0, 0xFF, 0xFF, 0xFF, 0xFF]
    );
    assert_eq!(
        roundtrip(BoltRef::LegacyDateTime(LegacyDateTime::new(1, 2, 3))),
        vec![0xB3, 0x46, 0x01, 0x02, 0x03]
    );
    assert_eq!(
        roundtrip(BoltRef::LegacyDateTimeZoneId(LegacyDateTimeZoneIdRef::new(1, 2, "Z"))),
        vec![0xB3, 0x66, 0x01, 0x02, 0x81, 0x5A]
    );
    assert_eq!(
        roundtrip(BoltRef::Duration(Duration::new(1, 2, 3, -4))),
        vec![0xB4, 0x45, 0x01, 0x02, 0x03, 0xFC]
    );
    let one = 1.0f64.to_bits();
    let bytes = roundtrip(BoltRef::Point2D(Point2D::new(7203, one, one)));
    assert_eq!(&bytes[..5], &[0xB3, 0x58, 0xC9, 0x1C, 0x23]);
    assert_eq!(bytes.len(), 5 + 9 + 9);
    let bytes = roundtrip(BoltRef::Point3D(Point3D::new(1, one, one, one)));
    assert_eq!(&bytes[..3], &[0xB4, 0x59, 0x01]);
    assert_eq!(bytes.len(), 3 + 27);
}

#[test]
fn fields_out_of_range_are_refused() {
    // nanoseconds of a date and time must fit 32 bits without a sign
    assert_eq!(refused(&[0xB2, 0x64, 0x01, 0xFF]), Violation::InvalidField);
    assert_eq!(
        refused(&[0xB2, 0x64, 0x01, 0xCB, 0, 0, 0, 1, 0, 0, 0, 0]),
        Violation::InvalidField
    );
    // the offset of a time must fit 32 bits with a sign
    assert_eq!(
        refused(&[0xB2, 0x54, 0x01, 0xCB, 0, 0, 0, 0, 0x80, 0, 0, 0]),
        Violation::InvalidField
    );
    // a coordinate must be a double
    assert_eq!(refused(&[0xB3, 0x58, 0x01, 0x01, 0x01]), Violation::InvalidField);
}

#[test]
fn malformed_bytes_are_refused() {
    assert_eq!(refused(&[]), Violation::UnexpectedEnd);
    assert_eq!(refused(&[0xC9, 0x00]), Violation::UnexpectedEnd);
    assert_eq!(refused(&[0xC1, 0, 0, 0]), Violation::UnexpectedEnd);
    assert_eq!(refused(&[0x82, 0x61]), Violation::UnexpectedEnd);
    assert_eq!(refused(&[0x92, 0x01]), Violation::UnexpectedEnd);
    assert_eq!(refused(&[0xA1, 0x81, 0x61]), Violation::UnexpectedEnd);
    assert_eq!(refused(&[0xB1]), Violation::UnexpectedEnd);
    assert_eq!(refused(&[0xCC, 0x02, 0x01]), Violation::UnexpectedEnd);
    assert_eq!(refused(&[0xC4]), Violation::UnexpectedMarker);
    assert_eq!(refused(&[0xC7]), Violation::UnexpectedMarker);
    assert_eq!(refused(&[0xCF]), Violation::UnexpectedMarker);
    assert_eq!(refused(&[0xD3]), Violation::UnexpectedMarker);
    assert_eq!(refused(&[0xD7]), Violation::UnexpectedMarker);
    assert_eq!(refused(&[0xDB]), Violation::UnexpectedMarker);
    assert_eq!(refused(&[0xEF]), Violation::UnexpectedMarker);
    assert_eq!(refused(&[0x81, 0xFF]), Violation::InvalidUtf8);
    assert_eq!(refused(&[0x82, 0xC3, 0x28]), Violation::InvalidUtf8);
    assert_eq!(refused(&[0xA1, 0x81, 0xFF, 0x01]), Violation::InvalidUtf8);
    assert_eq!(refused(&[0xA1, 0x01, 0x01]), Violation::UnexpectedMarker);
    assert_eq!(refused(&[0x01, 0x02]), Violation::TrailingBytes);
    assert_eq!(refused(&[0xC0, 0xC0]), Violation::TrailingBytes);
}

#[test]
fn decoding_a_header_leaves_the_fields_alone() {
    let record = Bytes::from(vec![0xB1, 0x71, 0x92, 0x01, 0x02]);
    let (header, rest) = decode_deferred(&record).unwrap();
    assert_eq!(header, StructHeader { fields: 1, tag: 0x71 });
    assert_eq!(&rest[..], &[0x92, 0x01, 0x02]);

    let bare = Bytes::from(vec![0xB0, 0x7E]);
    let (header, rest) = decode_deferred(&bare).unwrap();
    assert_eq!(header, StructHeader { fields: 0, tag: 0x7E });
    assert!(rest.is_empty());

    // what follows the header is not looked at
    let broken = Bytes::from(vec![0xB3, 0x4E, 0xC4]);
    let (header, rest) = decode_deferred(&broken).unwrap();
    assert_eq!(header, StructHeader { fields: 3, tag: 0x4E });
    assert_eq!(&rest[..], &[0xC4]);

    assert_eq!(
        decode_deferred(&Bytes::from(vec![0x91, 0x01])).err(),
        Some(Error::ProtocolViolation { detail: Violation::UnexpectedMarker })
    );
    assert_eq!(
        decode_deferred(&Bytes::from(vec![0xB1])).err(),
        Some(Error::ProtocolViolation { detail: Violation::UnexpectedEnd })
    );
    assert_eq!(
        decode_deferred(&Bytes::new()).err(),
        Some(Error::ProtocolViolation { detail: Violation::UnexpectedEnd })
    );
}

#[test]
fn decoded_values_are_views_into_the_input() {
    let input = Bytes::from(vec![0x92, 0x83, 0x61, 0x62, 0x63, 0xCC, 0x02, 0x07, 0x08]);
    let value = decode(&input).unwrap();
    match value {
        BoltRef::List(items) => match (&items[0], &items[1]) {
            (BoltRef::String(s), BoltRef::Bytes(b)) => {
                assert_eq!(s.as_ptr(), input[2..].as_ptr());
                assert_eq!(b.as_ptr(), input[7..].as_ptr());
            }
            other => panic!("unexpected items: {:?}", other),
        },
        other => panic!("not a list: {:?}", other),
    }
}

#[test]
fn temporal_values_and_points_give_their_parts() {
    assert_eq!(Date::new(9).days_since_epoch(), 9);
    let time = Time::new(5, -60);
    assert_eq!(time.nanoseconds_since_midnight(), 5);
    assert_eq!(time.timezone_offset_seconds(), -60);
    assert_eq!(LocalTime::new(6).nanoseconds_since_midnight(), 6);
    let local = LocalDateTime::new(7, 8);
    assert_eq!(local.seconds_since_epoch(), 7);
    assert_eq!(local.nanoseconds_since_midnight(), 8);
    let span = Duration::new(1, 2, 3, 4);
    assert_eq!(
        (span.months(), span.days(), span.seconds(), span.nanoseconds()),
        (1, 2, 3, 4)
    );
    let flat = Point2D::new(4326, 1.5f64.to_bits(), 2.5f64.to_bits());
    assert_eq!(flat.srid(), 4326);
    assert_eq!(f64::from_bits(flat.x_bits()), 1.5);
    assert_eq!(f64::from_bits(flat.y_bits()), 2.5);
    let deep = Point3D::new(4979, 1.5f64.to_bits(), 2.5f64.to_bits(), 3.5f64.to_bits());
    assert_eq!(deep.srid(), 4979);
    assert_eq!(f64::from_bits(deep.x_bits()), 1.5);
    assert_eq!(f64::from_bits(deep.y_bits()), 2.5);
    assert_eq!(f64::from_bits(deep.z_bits()), 3.5);
}
