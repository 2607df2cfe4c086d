use bytes::Bytes;
use chrono::{Datelike, TimeZone, Timelike};
use neo4rs::bolt::structs::{BoltRef, DateTime, LegacyDateTime, LocalDateTime};
use neo4rs::packstream::de::decode;

/// Builds encoded values marker by marker.
struct Builder {
    data: Vec<u8>,
}

fn bolt() -> Builder {
    Builder { data: Vec::new() }
}

#[allow(dead_code)]
impl Builder {
    fn structure(mut self, fields: u8, tag: u8) -> Self {
        self.data.push(0xB0 | fields);
        self.data.push(tag);
        self
    }

    fn null(mut self) -> Self {
        self.data.push(0xC0);
        self
    }

    fn bool(mut self, b: bool) -> Self {
        self.data.push(if b { 0xC3 } else { 0xC2 });
        self
    }

    fn tiny_map(mut self, len: u8) -> Self {
        self.data.push(0xA0 | len);
        self
    }

    fn tiny_list(mut self, len: u8) -> Self {
        self.data.push(0x90 | len);
        self
    }

    fn tiny_string(mut self, s: &str) -> Self {
        self.data.push(0x80 | s.len() as u8);
        self.data.extend_from_slice(s.as_bytes());
        self
    }

    fn tiny_int(mut self, n: i8) -> Self {
        self.data.push(n as u8);
        self
    }

    fn int8(mut self, n: i8) -> Self {
        self.data.push(0xC8);
        self.data.push(n as u8);
        self
    }

    fn int16(mut self, n: i16) -> Self {
        self.data.push(0xC9);
        self.data.extend_from_slice(&n.to_be_bytes());
        self
    }

    fn int32(mut self, n: i32) -> Self {
        self.data.push(0xCA);
        self.data.extend_from_slice(&n.to_be_bytes());
        self
    }

    fn int64(mut self, n: i64) -> Self {
        self.data.push(0xCB);
        self.data.extend_from_slice(&n.to_be_bytes());
        self
    }

    fn float(mut self, f: f64) -> Self {
        self.data.push(0xC1);
        self.data.extend_from_slice(&f.to_be_bytes());
        self
    }

    fn extend(mut self, other: Bytes) -> Self {
        self.data.extend_from_slice(&other);
        self
    }

    fn build(self) -> Bytes {
        Bytes::from(self.data)
    }
}

fn as_date_time(data: &Bytes) -> DateTime {
    match decode(data).unwrap() {
        BoltRef::DateTime(date) => date,
        other => panic!("not a date and time: {:?}", other),
    }
}

fn as_local_date_time(data: &Bytes) -> LocalDateTime {
    match decode(data).unwrap() {
        BoltRef::LocalDateTime(date) => date,
        other => panic!("not a local date and time: {:?}", other),
    }
}

fn chrono_of(date: DateTime) -> chrono::DateTime<chrono::FixedOffset> {
    let (utc, offset) = date.as_chrono_datetime().unwrap();
    offset.from_utc_datetime(&utc)
}

#[test]
fn deserialize_datetime() {
    let data = bolt()
        .structure(3, 0x49)
        .int16(4500)
        .tiny_int(42)
        .int16(3600)
        .build();
    let date: DateTime = as_date_time(&data);

    let ch: chrono::DateTime<chrono::FixedOffset> = chrono_of(date);
    assert_eq!(ch.year(), 1970);
    assert_eq!(ch.month0(), 0);
    assert_eq!(ch.day0(), 0);
    assert_eq!(ch.hour(), 2);
    assert_eq!(ch.minute(), 15);
    assert_eq!(ch.second(), 0);
    assert_eq!(ch.nanosecond(), 42);
    assert_eq!(ch.timezone().local_minus_utc(), 3600);

    let tm: time::OffsetDateTime = date.as_time_datetime().unwrap();
    assert_eq!(tm.year(), 1970);
    assert_eq!(tm.month(), time::Month::January);
    assert_eq!(tm.day(), 1);
    assert_eq!(tm.hour(), 2);
    assert_eq!(tm.minute(), 15);
    assert_eq!(tm.second(), 0);
    assert_eq!(tm.nanosecond(), 42);
    assert_eq!(tm.offset().as_hms(), (1, 0, 0));
}

#[test]
fn deserialize_local_datetime() {
    let data = bolt().structure(2, 0x64).int16(4500).tiny_int(42).build();
    let date: LocalDateTime = as_local_date_time(&data);

    let ch: chrono::NaiveDateTime = date.as_chrono_datetime().unwrap();
    assert_eq!(ch.year(), 1970);
    assert_eq!(ch.month0(), 0);
    assert_eq!(ch.day0(), 0);
    assert_eq!(ch.hour(), 1);
    assert_eq!(ch.minute(), 15);
    assert_eq!(ch.second(), 0);
    assert_eq!(ch.nanosecond(), 42);

    let tm: time::PrimitiveDateTime = date.as_time_datetime().unwrap();
    assert_eq!(tm.year(), 1970);
    assert_eq!(tm.month(), time::Month::January);
    assert_eq!(tm.day(), 1);
    assert_eq!(tm.hour(), 1);
    assert_eq!(tm.minute(), 15);
    assert_eq!(tm.second(), 0);
    assert_eq!(tm.nanosecond(), 42);
}

#[test]
fn deserialize_positive_datetime() {
    let data = bolt()
        .structure(3, 0x49)
        .int32(946_695_599)
        .int32(420_000)
        .int16(-10800)
        .build();
    let date: DateTime = as_date_time(&data);

    let ch: chrono::DateTime<chrono::FixedOffset> = chrono_of(date);
    assert_eq!(ch.year(), 1999);
    assert_eq!(ch.month0(), 11);
    assert_eq!(ch.day0(), 30);
    assert_eq!(ch.hour(), 23);
    assert_eq!(ch.minute(), 59);
    assert_eq!(ch.second(), 59);
    assert_eq!(ch.nanosecond(), 420_000);
    assert_eq!(ch.timezone().local_minus_utc(), -10800);

    let tm: time::OffsetDateTime = date.as_time_datetime().unwrap();
    assert_eq!(tm.year(), 1999);
    assert_eq!(tm.month(), time::Month::December);
    assert_eq!(tm.day(), 31);
    assert_eq!(tm.hour(), 23);
    assert_eq!(tm.minute(), 59);
    assert_eq!(tm.second(), 59);
    assert_eq!(tm.nanosecond(), 420_000);
    assert_eq!(tm.offset().as_hms(), (-3, 0, 0));
}

#[test]
fn deserialize_negative_datetime() {
    let data = bolt()
        .structure(3, 0x49)
        .int64(-16_302_076_758)
        .int32(420_000)
        .int16(10800)
        .build();

    let date: DateTime = as_date_time(&data);

    let ch: chrono::DateTime<chrono::FixedOffset> = chrono_of(date);
    assert_eq!(ch.year(), 1453);
    assert_eq!(ch.month0(), 4);
    assert_eq!(ch.day0(), 28);
    assert_eq!(ch.hour(), 16);
    assert_eq!(ch.minute(), 20);
    assert_eq!(ch.second(), 42);
    assert_eq!(ch.nanosecond(), 420_000);
    assert_eq!(ch.timezone().local_minus_utc(), 10800);

    let tm: time::OffsetDateTime = date.as_time_datetime().unwrap();
    assert_eq!(tm.year(), 1453);
    assert_eq!(tm.month(), time::Month::May);
    assert_eq!(tm.day(), 29);
    assert_eq!(tm.hour(), 16);
    assert_eq!(tm.minute(), 20);
    assert_eq!(tm.second(), 42);
    assert_eq!(tm.nanosecond(), 420_000);
    assert_eq!(tm.offset().as_hms(), (3, 0, 0));
}

#[test]
fn date_time_two_hours_west() {
    let data = bolt()
        .structure(3, 0x49)
        .int32(946_691_999)
        .int32(420_000)
        .int16(-7200)
        .build();
    let date = as_date_time(&data);
    assert_eq!(date.seconds_since_epoch(), 946_691_999);
    assert_eq!(date.nanoseconds_since_midnight(), 420_000);
    assert_eq!(date.timezone_offset_seconds(), -7200);

    // The seconds of this structure count UTC.
    let (utc, offset) = date.as_chrono_datetime().unwrap();
    assert_eq!(utc.and_utc().timestamp(), 946_691_999);
    assert_eq!(utc.and_utc().timestamp_subsec_nanos(), 420_000);
    assert_eq!(offset.local_minus_utc(), -7200);
    let local = offset.from_utc_datetime(&utc);
    assert_eq!(
        (local.year(), local.month(), local.day()),
        (1999, 12, 31)
    );
    assert_eq!((local.hour(), local.minute(), local.second()), (23, 59, 59));
    assert_eq!(local.nanosecond(), 420_000);
}

#[test]
fn what_the_crates_cannot_hold_is_none() {
    assert!(DateTime::new(0, 0, 86_400).as_chrono_datetime().is_none());
    assert!(DateTime::new(0, 0, -86_400).as_chrono_datetime().is_none());
    assert!(DateTime::new(0, 0, 86_399).as_chrono_datetime().is_some());
    assert!(DateTime::new(0, 2_000_000_000, 0).as_chrono_datetime().is_none());
    assert!(DateTime::new(0, 1_000_000_000, 0).as_chrono_datetime().is_none());
    assert!(DateTime::new(59, 1_000_000_000, 0).as_chrono_datetime().is_some());
    assert!(DateTime::new(i64::MAX, 0, 0).as_chrono_datetime().is_none());
    assert!(DateTime::new(0, 0, 93_600).as_time_datetime().is_none());
    assert!(DateTime::new(0, 0, 93_599).as_time_datetime().is_some());
    assert!(DateTime::new(i64::MAX, 0, 0).as_time_datetime().is_none());
    assert!(LocalDateTime::new(i64::MIN, 0).as_time_datetime().is_none());
    assert!(LocalDateTime::new(i64::MIN, 0).as_chrono_datetime().is_none());
    assert!(LocalDateTime::new(0, u32::MAX).as_chrono_datetime().is_none());
}

#[test]
fn legacy_date_time_counts_local_seconds() {
    let legacy = LegacyDateTime::new(946_684_799, 7, -7200);
    assert_eq!(legacy.local_seconds(), 946_684_799);
    assert_eq!(legacy.nanoseconds_since_midnight(), 7);
    assert_eq!(legacy.timezone_offset_seconds(), -7200);
    let utc = legacy.to_utc().unwrap();
    assert_eq!(utc.seconds_since_epoch(), 946_691_999);
    assert_eq!(utc.nanoseconds_since_midnight(), 7);
    assert_eq!(utc.timezone_offset_seconds(), -7200);
    assert!(LegacyDateTime::new(i64::MAX, 0, -1).to_utc().is_none());
    assert!(LegacyDateTime::new(i64::MIN, 0, 1).to_utc().is_none());
    assert_eq!(
        LegacyDateTime::new(i64::MAX, 0, 1).to_utc().unwrap().seconds_since_epoch(),
        i64::MAX - 1
    );
}

#[test]
fn the_time_crate_holds_the_years_up_to_9999() {
    let first: i64 = -377_705_116_800;
    let last: i64 = 253_402_300_799;
    assert!(DateTime::new(last, 999_999_999, 0).as_time_datetime().is_some());
    assert!(DateTime::new(last + 1, 0, 0).as_time_datetime().is_none());
    assert!(DateTime::new(last, 1_000_000_000, 0).as_time_datetime().is_none());
    assert!(DateTime::new(last - 4, u32::MAX, 0).as_time_datetime().is_some());
    assert!(DateTime::new(last - 3, u32::MAX, 0).as_time_datetime().is_none());
    assert!(DateTime::new(first, 0, 0).as_time_datetime().is_some());
    assert!(DateTime::new(first - 1, 999_999_999, 0).as_time_datetime().is_none());
    assert!(DateTime::new(first - 1, 1_000_000_000, 0).as_time_datetime().is_some());
    assert!(DateTime::new(i64::MAX, u32::MAX, 0).as_time_datetime().is_none());
    assert!(DateTime::new(i64::MIN, 0, 0).as_time_datetime().is_none());

    let year = DateTime::new(last, 0, 0).as_time_datetime().unwrap();
    assert_eq!((year.year(), year.ordinal(), year.hour(), year.second()), (9999, 365, 23, 59));
    let year = DateTime::new(first, 0, 0).as_time_datetime().unwrap();
    assert_eq!((year.year(), year.ordinal(), year.hour(), year.second()), (-9999, 1, 0, 0));

    assert!(LocalDateTime::new(last, 999_999_999).as_time_datetime().is_some());
    assert!(LocalDateTime::new(last + 1, 0).as_time_datetime().is_none());
    assert!(LocalDateTime::new(last, 1_000_000_000).as_time_datetime().is_none());
    assert!(LocalDateTime::new(first, 0).as_time_datetime().is_some());
    assert!(LocalDateTime::new(first - 1, 0).as_time_datetime().is_none());
}

#[test]
fn the_clock_at_the_offset_stays_within_the_years_of_the_time_crate() {
    let first: i64 = -377_705_116_800;
    let last: i64 = 253_402_300_799;
    assert!(DateTime::new(last, 0, 1).as_time_datetime().is_none());
    assert!(DateTime::new(last, 0, -1).as_time_datetime().is_some());
    assert!(DateTime::new(last - 93_599, 999_999_999, 93_599).as_time_datetime().is_some());
    assert!(DateTime::new(last - 93_598, 0, 93_599).as_time_datetime().is_none());
    assert!(DateTime::new(first, 0, -1).as_time_datetime().is_none());
    assert!(DateTime::new(first, 0, 1).as_time_datetime().is_some());
    assert!(DateTime::new(first + 93_599, 0, -93_599).as_time_datetime().is_some());
    assert!(DateTime::new(first + 93_598, 999_999_999, -93_599).as_time_datetime().is_none());
    assert!(DateTime::new(0, 0, -93_599).as_time_datetime().is_some());
    assert!(DateTime::new(0, 0, -93_600).as_time_datetime().is_none());

    let moved = DateTime::new(last - 3600, 5, 3600).as_time_datetime().unwrap();
    assert_eq!((moved.year(), moved.hour(), moved.minute(), moved.second()), (9999, 23, 59, 59));
    assert_eq!(moved.nanosecond(), 5);
    assert_eq!(moved.offset().whole_seconds(), 3600);
    assert_eq!(moved.unix_timestamp(), last - 3600);
}

#[test]
fn the_chrono_crate_holds_the_years_up_to_262142() {
    let first: i64 = -8_334_601_228_800;
    let last: i64 = 8_210_266_876_799;
    assert!(DateTime::new(last, 999_999_999, 0).as_chrono_datetime().is_some());
    assert!(DateTime::new(last, 1_999_999_999, 0).as_chrono_datetime().is_some());
    assert!(DateTime::new(last + 1, 0, 0).as_chrono_datetime().is_none());
    assert!(DateTime::new(first, 0, 0).as_chrono_datetime().is_some());
    assert!(DateTime::new(first - 1, 0, 0).as_chrono_datetime().is_none());
    assert!(DateTime::new(i64::MIN, 0, 0).as_chrono_datetime().is_none());
    assert!(DateTime::new(last, 0, 86_399).as_chrono_datetime().is_some());
    assert!(DateTime::new(first, 0, -86_399).as_chrono_datetime().is_some());
    assert!(DateTime::new(-1, 1_000_000_000, 0).as_chrono_datetime().is_some());
    assert!(DateTime::new(-2, 1_000_000_000, 0).as_chrono_datetime().is_none());
    assert!(DateTime::new(-61, 1_999_999_999, 0).as_chrono_datetime().is_some());

    let (utc, _) = DateTime::new(last, 0, 0).as_chrono_datetime().unwrap();
    assert_eq!((utc.year(), utc.ordinal(), utc.hour(), utc.second()), (262_142, 365, 23, 59));
    let (utc, _) = DateTime::new(first, 0, 0).as_chrono_datetime().unwrap();
    assert_eq!((utc.year(), utc.ordinal(), utc.hour(), utc.second()), (-262_143, 1, 0, 0));

    assert!(LocalDateTime::new(last, 0).as_chrono_datetime().is_some());
    assert!(LocalDateTime::new(last + 1, 0).as_chrono_datetime().is_none());
    assert!(LocalDateTime::new(first, 0).as_chrono_datetime().is_some());
    assert!(LocalDateTime::new(first - 1, 0).as_chrono_datetime().is_none());
    assert!(LocalDateTime::new(59, 1_000_000_000).as_chrono_datetime().is_some());
    assert!(LocalDateTime::new(58, 1_000_000_000).as_chrono_datetime().is_none());
}

#[test]
fn a_converted_instant_is_the_one_that_was_given() {
    let cases: [(i64, u32, i32); 6] = [
        (0, 0, 0),
        (946_691_999, 420_000, -7200),
        (-16_302_439_158, 999_999_999, 10_800),
        (253_402_300_799 - 86_399, 1, 86_399),
        (-377_705_116_800 + 86_399, 0, -86_399),
        (4500, 42, 3600),
    ];
    for (seconds, nanoseconds, offset) in cases {
        let date = DateTime::new(seconds, nanoseconds, offset);
        let total = i128::from(seconds) * 1_000_000_000 + i128::from(nanoseconds);

        let instant = date.as_time_datetime().unwrap();
        assert_eq!(instant.unix_timestamp_nanos(), total);
        assert_eq!(instant.offset().whole_seconds(), offset);

        let (utc, east) = date.as_chrono_datetime().unwrap();
        assert_eq!(utc.and_utc().timestamp(), seconds);
        assert_eq!(utc.and_utc().timestamp_subsec_nanos(), nanoseconds);
        assert_eq!(east.local_minus_utc(), offset);

        let local = LocalDateTime::new(seconds, nanoseconds);
        let clock = local.as_time_datetime().unwrap();
        assert_eq!(clock.assume_utc().unix_timestamp_nanos(), total);
        let naive = local.as_chrono_datetime().unwrap();
        assert_eq!(naive.and_utc().timestamp(), seconds);
        assert_eq!(naive.and_utc().timestamp_subsec_nanos(), nanoseconds);
    }
}

#[test]
fn nanoseconds_of_a_second_or_more_count_on_or_stand_for_a_leap_second() {
    let instant = DateTime::new(10, 3_000_000_007, -60).as_time_datetime().unwrap();
    assert_eq!(instant.unix_timestamp_nanos(), 13_000_000_007);
    assert_eq!(instant.unix_timestamp(), 13);
    assert_eq!(instant.nanosecond(), 7);
    assert_eq!(instant.offset().whole_seconds(), -60);
    let before = DateTime::new(-1, 1_000_000_000, 0).as_time_datetime().unwrap();
    assert_eq!(before.unix_timestamp_nanos(), 0);

    let clock = LocalDateTime::new(-5, 4_294_967_295).as_time_datetime().unwrap();
    assert_eq!(clock.assume_utc().unix_timestamp_nanos(), -705_032_705);

    let (leap, east) = DateTime::new(59, 1_500_000_000, 1).as_chrono_datetime().unwrap();
    assert_eq!(leap.and_utc().timestamp(), 59);
    assert_eq!(leap.and_utc().timestamp_subsec_nanos(), 1_500_000_000);
    assert_eq!(east.local_minus_utc(), 1);
    let leap = LocalDateTime::new(-1, 1_999_999_999).as_chrono_datetime().unwrap();
    assert_eq!(leap.and_utc().timestamp(), -1);
    assert_eq!(leap.and_utc().timestamp_subsec_nanos(), 1_999_999_999);
}
