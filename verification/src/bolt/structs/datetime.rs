use crate::packstream::value::{
    Value, TAG_DATE_TIME, TAG_DATE_TIME_ZONE_ID, TAG_LEGACY_DATE_TIME,
    TAG_LEGACY_DATE_TIME_ZONE_ID, TAG_LOCAL_DATE_TIME,
};
use vstd::prelude::*;

verus! {

/// An instant capturing the date, the time, and the time zone.
#[derive(Copy, Clone, Debug, PartialEq, Eq)]
pub struct DateTime {
    pub seconds: i64,
    pub nanoseconds: u32,
    pub tz_offset_seconds: i32,
}

impl DateTime {
    /// The structure that this instant is written as.
    pub open spec fn view(&self) -> Value {
        Value::Structure {
            tag: TAG_DATE_TIME,
            fields: seq![
                Value::Integer(self.seconds),
                Value::Integer(self.nanoseconds as i64),
                Value::Integer(self.tz_offset_seconds as i64),
            ],
        }
    }

    pub fn new(seconds: i64, nanoseconds: u32, tz_offset_seconds: i32) -> (r: Self)
        ensures
            r.seconds == seconds,
            r.nanoseconds == nanoseconds,
            r.tz_offset_seconds == tz_offset_seconds,
    {
        DateTime { seconds, nanoseconds, tz_offset_seconds }
    }

    /// Seconds since the Unix epoch in UTC.
    pub fn seconds_since_epoch(self) -> (r: i64)
        ensures
            r == self.seconds,
    {
        self.seconds
    }

    /// Nanoseconds within the second.
    pub fn nanoseconds_since_midnight(self) -> (r: u32)
        ensures
            r == self.nanoseconds,
    {
        self.nanoseconds
    }

    /// The offset of the time zone from UTC, in seconds.
    pub fn timezone_offset_seconds(self) -> (r: i32)
        ensures
            r == self.tz_offset_seconds,
    {
        self.tz_offset_seconds
    }
}

/// A date and a time without a time zone.
#[derive(Copy, Clone, Debug, PartialEq, Eq)]
pub struct LocalDateTime {
    pub seconds: i64,
    pub nanoseconds: u32,
}

impl LocalDateTime {
    /// The structure that this date and time is written as.
    pub open spec fn view(&self) -> Value {
        Value::Structure {
            tag: TAG_LOCAL_DATE_TIME,
            fields: seq![Value::Integer(self.seconds), Value::Integer(self.nanoseconds as i64)],
        }
    }

    pub fn new(seconds: i64, nanoseconds: u32) -> (r: Self)
        ensures
            r.seconds == seconds,
            r.nanoseconds == nanoseconds,
    {
        LocalDateTime { seconds, nanoseconds }
    }

    /// Seconds since the Unix epoch.
    pub fn seconds_since_epoch(self) -> (r: i64)
        ensures
            r == self.seconds,
    {
        self.seconds
    }

    /// Nanoseconds within the second.
    pub fn nanoseconds_since_midnight(self) -> (r: u32)
        ensures
            r == self.nanoseconds,
    {
        self.nanoseconds
    }
}

/// An instant with a named time zone, borrowing the name.
#[derive(Copy, Clone, Debug, PartialEq, Eq)]
pub struct DateTimeZoneIdRef<'de> {
    pub seconds: i64,
    pub nanoseconds: u32,
    pub tz_id: &'de str,
}

impl<'de> DateTimeZoneIdRef<'de> {
    /// The structure that this instant is written as.
    pub open spec fn view(&self) -> Value {
        Value::Structure {
            tag: TAG_DATE_TIME_ZONE_ID,
            fields: seq![
                Value::Integer(self.seconds),
                Value::Integer(self.nanoseconds as i64),
                Value::String(self.tz_id@),
            ],
        }
    }

    pub fn new(seconds: i64, nanoseconds: u32, tz_id: &'de str) -> (r: Self)
        ensures
            r.seconds == seconds,
            r.nanoseconds == nanoseconds,
            r.tz_id == tz_id,
    {
        DateTimeZoneIdRef { seconds, nanoseconds, tz_id }
    }

    /// Seconds since the Unix epoch in UTC.
    pub fn seconds_since_epoch(self) -> (r: i64)
        ensures
            r == self.seconds,
    {
        self.seconds
    }

    /// Nanoseconds within the second.
    pub fn nanoseconds_since_midnight(self) -> (r: u32)
        ensures
            r == self.nanoseconds,
    {
        self.nanoseconds
    }

    /// The name of the time zone.
    pub fn timezone_id(self) -> (r: &'de str)
        ensures
            r == self.tz_id,
    {
        self.tz_id
    }
}

/// An instant in the older form, whose seconds count local time.
#[derive(Copy, Clone, Debug, PartialEq, Eq)]
pub struct LegacyDateTime {
    pub seconds: i64,
    pub nanoseconds: u32,
    pub tz_offset_seconds: i32,
}

impl LegacyDateTime {
    /// The structure that this instant is written as.
    pub open spec fn view(&self) -> Value {
        Value::Structure {
            tag: TAG_LEGACY_DATE_TIME,
            fields: seq![
                Value::Integer(self.seconds),
                Value::Integer(self.nanoseconds as i64),
                Value::Integer(self.tz_offset_seconds as i64),
            ],
        }
    }

    pub fn new(local_seconds: i64, nanoseconds: u32, tz_offset_seconds: i32) -> (r: Self)
        ensures
            r.seconds == local_seconds,
            r.nanoseconds == nanoseconds,
            r.tz_offset_seconds == tz_offset_seconds,
    {
        LegacyDateTime { seconds: local_seconds, nanoseconds, tz_offset_seconds }
    }

    /// Seconds since the Unix epoch in local time, as written on the wire.
    pub fn local_seconds(self) -> (r: i64)
        ensures
            r == self.seconds,
    {
        self.seconds
    }

    /// Nanoseconds within the second.
    pub fn nanoseconds_since_midnight(self) -> (r: u32)
        ensures
            r == self.nanoseconds,
    {
        self.nanoseconds
    }

    /// The offset of the time zone from UTC, in seconds.
    pub fn timezone_offset_seconds(self) -> (r: i32)
        ensures
            r == self.tz_offset_seconds,
    {
        self.tz_offset_seconds
    }

    /// The same instant in the current form, whose seconds count UTC: the
    /// local seconds less the offset. `None` where that leaves 64 bits.
    pub fn to_utc(self) -> (r: Option<DateTime>)
        ensures
            match r {
                Some(dt) => {
                    &&& dt.seconds == self.seconds - self.tz_offset_seconds
                    &&& dt.nanoseconds == self.nanoseconds
                    &&& dt.tz_offset_seconds == self.tz_offset_seconds
                },
                None => !(i64::MIN <= self.seconds - self.tz_offset_seconds <= i64::MAX),
            },
    {
        let offset: i64 = self.tz_offset_seconds as i64;
        if offset >= 0 {
            if self.seconds < i64::MIN + offset {
                return None;
            }
        } else {
            if self.seconds > i64::MAX + offset {
                return None;
            }
        }
        Some(
            DateTime {
                seconds: self.seconds - offset,
                nanoseconds: self.nanoseconds,
                tz_offset_seconds: self.tz_offset_seconds,
            },
        )
    }
}

/// An instant in the older form with a named time zone, borrowing the name.
#[derive(Copy, Clone, Debug, PartialEq, Eq)]
pub struct LegacyDateTimeZoneIdRef<'de> {
    pub seconds: i64,
    pub nanoseconds: u32,
    pub tz_id: &'de str,
}

impl<'de> LegacyDateTimeZoneIdRef<'de> {
    /// The structure that this instant is written as.
    pub open spec fn view(&self) -> Value {
        Value::Structure {
            tag: TAG_LEGACY_DATE_TIME_ZONE_ID,
            fields: seq![
                Value::Integer(self.seconds),
                Value::Integer(self.nanoseconds as i64),
                Value::String(self.tz_id@),
            ],
        }
    }

    pub fn new(local_seconds: i64, nanoseconds: u32, tz_id: &'de str) -> (r: Self)
        ensures
            r.seconds == local_seconds,
            r.nanoseconds == nanoseconds,
            r.tz_id == tz_id,
    {
        LegacyDateTimeZoneIdRef { seconds: local_seconds, nanoseconds, tz_id }
    }

    /// Seconds since the Unix epoch in local time, as written on the wire.
    pub fn local_seconds(self) -> (r: i64)
        ensures
            r == self.seconds,
    {
        self.seconds
    }

    /// Nanoseconds within the second.
    pub fn nanoseconds_since_midnight(self) -> (r: u32)
        ensures
            r == self.nanoseconds,
    {
        self.nanoseconds
    }

    /// The name of the time zone.
    pub fn timezone_id(self) -> (r: &'de str)
        ensures
            r == self.tz_id,
    {
        self.tz_id
    }
}

} // verus!

verus! {

#[verifier::external_type_specification]
#[verifier::external_body]
pub struct ExNaiveDateTime(chrono::NaiveDateTime);

#[verifier::external_type_specification]
#[verifier::external_body]
pub struct ExFixedOffset(chrono::FixedOffset);

#[verifier::external_type_specification]
#[verifier::external_body]
pub struct ExOffsetDateTime(::time::OffsetDateTime);

#[verifier::external_type_specification]
#[verifier::external_body]
pub struct ExPrimitiveDateTime(::time::PrimitiveDateTime);

/// The nanoseconds from the Unix epoch to an instant of the `time` crate:
/// what its `unix_timestamp_nanos` returns.
pub uninterp spec fn unix_nanoseconds(t: ::time::OffsetDateTime) -> int;

/// The offset from UTC, in seconds, at which an instant of the `time` crate
/// shows its clock: what `offset().whole_seconds()` returns.
pub uninterp spec fn clock_offset(t: ::time::OffsetDateTime) -> int;

/// The nanoseconds from midnight of 1970-01-01 to a date and time of the
/// `time` crate that has no zone: what `assume_utc().unix_timestamp_nanos()`
/// returns.
pub uninterp spec fn clock_nanoseconds(t: ::time::PrimitiveDateTime) -> int;

/// The whole seconds from midnight of 1970-01-01 to a date and time of the
/// `chrono` crate that has no zone: what `and_utc().timestamp()` returns.
pub uninterp spec fn naive_seconds(t: chrono::NaiveDateTime) -> int;

/// The nanoseconds on top of the whole seconds of a date and time of the
/// `chrono` crate: what `and_utc().timestamp_subsec_nanos()` returns. A
/// leap second keeps a count of a full second or more.
pub uninterp spec fn naive_nanoseconds(t: chrono::NaiveDateTime) -> int;

/// The seconds that an offset of the `chrono` crate lies east of UTC: what
/// `local_minus_utc` returns.
pub uninterp spec fn east_seconds(o: chrono::FixedOffset) -> int;

/// The first second of the year -9999, counted from the Unix epoch.
pub const TIME_FIRST_SECOND: i64 = -377_705_116_800;

/// The last second of the year 9999, counted from the Unix epoch.
pub const TIME_LAST_SECOND: i64 = 253_402_300_799;

/// The first second of the year -262143, counted from the Unix epoch.
pub const CHRONO_FIRST_SECOND: i64 = -8_334_601_228_800;

/// The last second of the year 262142, counted from the Unix epoch.
pub const CHRONO_LAST_SECOND: i64 = 8_210_266_876_799;

/// Whether the `time` crate has a date for this second since the Unix
/// epoch: its years run from -9999 to 9999.
pub open spec fn time_holds(second: int) -> bool {
    TIME_FIRST_SECOND <= second <= TIME_LAST_SECOND
}

/// Whether the `chrono` crate has a date for this second since the Unix
/// epoch: its years run from -262143 to 262142.
pub open spec fn chrono_holds(second: int) -> bool {
    CHRONO_FIRST_SECOND <= second <= CHRONO_LAST_SECOND
}

/// The second in which an instant lies that is given by seconds and by
/// nanoseconds on top of them: nanoseconds of a second or more count on.
pub open spec fn whole_seconds(seconds: i64, nanoseconds: u32) -> int {
    seconds + nanoseconds as int / 1_000_000_000
}

/// Whether a count of nanoseconds cannot stand beside the second `seconds`:
/// a count of a full second or more is kept for a leap second, which comes
/// only after the 59th second of a minute, and it stays below two seconds.
pub open spec fn bad_nanoseconds(seconds: i64, nanoseconds: u32) -> bool {
    nanoseconds >= 2_000_000_000 || (nanoseconds >= 1_000_000_000 && seconds % 60 != 59)
}

/// Whether the `time` crate holds the instant at the offset: the offset is
/// at most 25:59:59 in either direction, and the instant lies within the
/// crate's years both in UTC and on the clock at the offset.
pub open spec fn time_converts(seconds: i64, nanoseconds: u32, tz_offset_seconds: i32) -> bool {
    &&& -93_599 <= tz_offset_seconds <= 93_599
    &&& time_holds(whole_seconds(seconds, nanoseconds))
    &&& time_holds(whole_seconds(seconds, nanoseconds) + tz_offset_seconds)
}

/// Whether the `chrono` crate holds the instant and the offset: the offset
/// is less than a day in either direction, the second lies within the
/// crate's years, and the nanoseconds can stand beside it.
pub open spec fn chrono_converts(seconds: i64, nanoseconds: u32, tz_offset_seconds: i32) -> bool {
    &&& -86_400 < tz_offset_seconds < 86_400
    &&& chrono_holds(seconds as int)
    &&& !bad_nanoseconds(seconds, nanoseconds)
}

/// Calls `chrono::DateTime::from_timestamp` and, on the instant that it
/// gives, `naive_utc`. The first returns `None` where the day of the second
/// lies outside the crate's years, and where the nanoseconds cannot stand
/// beside the second. What it gives has the seconds and the nanoseconds
/// that it was made of: the crate documents that the constructor and the
/// two getters undo each other.
#[verifier::external_body]
fn chrono_utc(seconds: i64, nanoseconds: u32) -> (r: Option<chrono::NaiveDateTime>)
    ensures
        r is Some <==> (chrono_holds(seconds as int) && !bad_nanoseconds(seconds, nanoseconds)),
        r matches Some(t) ==> naive_seconds(t) == seconds,
        r matches Some(t) ==> naive_nanoseconds(t) == nanoseconds,
{
    match chrono::DateTime::from_timestamp(seconds, nanoseconds) {
        Some(instant) => Some(instant.naive_utc()),
        None => None,
    }
}

/// Calls `chrono::FixedOffset::east_opt`, which accepts the offsets of less
/// than a day in either direction, and gives the offset that lies so many
/// seconds east of UTC.
#[verifier::external_body]
fn chrono_offset(seconds: i32) -> (r: Option<chrono::FixedOffset>)
    ensures
        r is Some <==> -86_400 < seconds < 86_400,
        r matches Some(o) ==> east_seconds(o) == seconds,
{
    chrono::FixedOffset::east_opt(seconds)
}

/// Calls `time::OffsetDateTime::from_unix_timestamp_nanos`,
/// `time::UtcOffset::from_whole_seconds` and, with what the two give,
/// `time::OffsetDateTime::checked_to_offset`. The first fails where the
/// second in which the instant lies is outside the crate's years; the next
/// where the offset is beyond 25:59:59 in either direction; the last where
/// the year on the clock at the offset is outside the crate's years. What
/// comes out is the instant so many nanoseconds after the Unix epoch, with
/// its clock at the offset.
///
/// The years are those of the `time` crate without its feature
/// `large-dates`, which this crate does not switch on. A dependant that
/// switches it on widens the crate's years, and the bounds stated here are
/// then too narrow.
#[verifier::external_body]
fn time_at(nanoseconds: i128, offset_seconds: i32) -> (r: Option<::time::OffsetDateTime>)
    ensures
        r is Some <==> (-93_599 <= offset_seconds <= 93_599 && time_holds(
            nanoseconds as int / 1_000_000_000,
        ) && time_holds(nanoseconds as int / 1_000_000_000 + offset_seconds)),
        r matches Some(t) ==> unix_nanoseconds(t) == nanoseconds,
        r matches Some(t) ==> clock_offset(t) == offset_seconds,
{
    let instant = ::time::OffsetDateTime::from_unix_timestamp_nanos(nanoseconds).ok()?;
    let offset = ::time::UtcOffset::from_whole_seconds(offset_seconds).ok()?;
    instant.checked_to_offset(offset)
}

/// Calls `time::PrimitiveDateTime::new` with the date and the time of the
/// given instant, as its clock shows them: the clock is ahead of UTC by
/// the offset.
#[verifier::external_body]
fn time_local(instant: ::time::OffsetDateTime) -> (r: ::time::PrimitiveDateTime)
    ensures
        clock_nanoseconds(r) == unix_nanoseconds(instant) + clock_offset(instant) * 1_000_000_000,
{
    ::time::PrimitiveDateTime::new(instant.date(), instant.time())
}

/// The two parts, where both are there.
pub fn both<A, B>(first: Option<A>, second: Option<B>) -> (r: Option<(A, B)>)
    ensures
        r == match (first, second) {
            (Some(a), Some(b)) => Some((a, b)),
            _ => None::<(A, B)>,
        },
{
    match (first, second) {
        (Some(a), Some(b)) => Some((a, b)),
        _ => None,
    }
}

/// The nanoseconds from the Unix epoch to the instant that is given by
/// seconds and by nanoseconds on top of them.
pub open spec fn total_nanoseconds(seconds: i64, nanoseconds: u32) -> int {
    seconds * 1_000_000_000 + nanoseconds
}

/// The instant at the offset, as the `time` crate has it. It is there
/// exactly where the crate holds the instant at that offset, and it is that
/// instant, with its clock at that offset.
pub fn convert_to_time_datetime(seconds: i64, nanoseconds: u32, tz_offset_seconds: i32) -> (r:
    Option<::time::OffsetDateTime>)
    ensures
        r is Some <==> time_converts(seconds, nanoseconds, tz_offset_seconds),
        r matches Some(t) ==> unix_nanoseconds(t) == total_nanoseconds(seconds, nanoseconds)
            && clock_offset(t) == tz_offset_seconds,
{
    let nanos_since_epoch: i128 = seconds as i128 * 1_000_000_000 + nanoseconds as i128;
    assert(nanos_since_epoch as int / 1_000_000_000 == whole_seconds(seconds, nanoseconds));
    time_at(nanos_since_epoch, tz_offset_seconds)
}

/// The instant in UTC, without its zone, and the offset, as the `chrono`
/// crate has them. They are there exactly where the crate holds both, and
/// they have the seconds, the nanoseconds and the offset that were given.
pub fn convert_to_chrono_datetime(seconds: i64, nanoseconds: u32, tz_offset_seconds: i32) -> (r:
    Option<(chrono::NaiveDateTime, chrono::FixedOffset)>)
    ensures
        r is Some <==> chrono_converts(seconds, nanoseconds, tz_offset_seconds),
        r matches Some((t, o)) ==> naive_seconds(t) == seconds && naive_nanoseconds(t)
            == nanoseconds && east_seconds(o) == tz_offset_seconds,
{
    let datetime = chrono_utc(seconds, nanoseconds);
    let timezone = chrono_offset(tz_offset_seconds);
    both(datetime, timezone)
}

impl DateTime {
    /// This instant at its offset, as the `time` crate has it. It is there
    /// exactly where the crate holds the instant at that offset, and it is
    /// this instant, with its clock at this offset.
    pub fn as_time_datetime(self) -> (r: Option<::time::OffsetDateTime>)
        ensures
            r is Some <==> time_converts(self.seconds, self.nanoseconds, self.tz_offset_seconds),
            r matches Some(t) ==> unix_nanoseconds(t) == total_nanoseconds(
                self.seconds,
                self.nanoseconds,
            ) && clock_offset(t) == self.tz_offset_seconds,
    {
        convert_to_time_datetime(self.seconds, self.nanoseconds, self.tz_offset_seconds)
    }

    /// This instant in UTC, without its zone, and its offset, as the
    /// `chrono` crate has them. They are there exactly where the crate
    /// holds both, and they have the seconds, the nanoseconds and the
    /// offset of this instant. The crate's `DateTime<FixedOffset>` is made
    /// of the two with `from_utc_datetime`.
    pub fn as_chrono_datetime(self) -> (r: Option<(chrono::NaiveDateTime, chrono::FixedOffset)>)
        ensures
            r is Some <==> chrono_converts(self.seconds, self.nanoseconds, self.tz_offset_seconds),
            r matches Some((t, o)) ==> naive_seconds(t) == self.seconds && naive_nanoseconds(t)
                == self.nanoseconds && east_seconds(o) == self.tz_offset_seconds,
    {
        convert_to_chrono_datetime(self.seconds, self.nanoseconds, self.tz_offset_seconds)
    }
}

impl LocalDateTime {
    /// This date and time, as the `time` crate has it. It is there exactly
    /// where the second in which it lies is within the crate's years, and
    /// it shows the seconds and nanoseconds of this date and time.
    pub fn as_time_datetime(self) -> (r: Option<::time::PrimitiveDateTime>)
        ensures
            r is Some <==> time_holds(whole_seconds(self.seconds, self.nanoseconds)),
            r matches Some(t) ==> clock_nanoseconds(t) == total_nanoseconds(
                self.seconds,
                self.nanoseconds,
            ),
    {
        match convert_to_time_datetime(self.seconds, self.nanoseconds, 0) {
            Some(dt) => Some(time_local(dt)),
            None => None,
        }
    }

    /// This date and time, as the `chrono` crate has it. It is there
    /// exactly where the second is within the crate's years and the
    /// nanoseconds can stand beside it, and it has the seconds and
    /// nanoseconds of this date and time.
    pub fn as_chrono_datetime(self) -> (r: Option<chrono::NaiveDateTime>)
        ensures
            r is Some <==> chrono_holds(self.seconds as int) && !bad_nanoseconds(
                self.seconds,
                self.nanoseconds,
            ),
            r matches Some(t) ==> naive_seconds(t) == self.seconds && naive_nanoseconds(t)
                == self.nanoseconds,
    {
        match convert_to_chrono_datetime(self.seconds, self.nanoseconds, 0) {
            Some((dt, _)) => Some(dt),
            None => None,
        }
    }
}

} // verus!
