//! Conversions from the host's values.

use super::owned::{ids_kept, owned_whole, Bolt, BoltMap};
use super::{
    BoltRef, Date, DateTime, DateTimeZoneIdRef, Duration, LegacyDateTime,
    LegacyDateTimeZoneIdRef, LocalDateTime, LocalTime, MapRef, NodeRef, PathRef, Point2D, Point3D,
    Relationship, Time, UnboundRelationship,
};
use crate::errors::Error;
use crate::packstream::raw::from_vec;
use crate::packstream::value::Value;
use vstd::prelude::*;
use vstd::std_specs::convert::{FromSpecImpl, TryFromSpecImpl};

verus! {

impl<'de> FromSpecImpl<()> for BoltRef<'de> {
    open spec fn obeys_from_spec() -> bool {
        true
    }

    open spec fn from_spec(value: ()) -> Self {
        BoltRef::Null
    }
}

impl<'de> From<()> for BoltRef<'de> {
    fn from(value: ()) -> (r: Self) {
        BoltRef::Null
    }
}

impl<'de> FromSpecImpl<bool> for BoltRef<'de> {
    open spec fn obeys_from_spec() -> bool {
        true
    }

    open spec fn from_spec(value: bool) -> Self {
        BoltRef::Boolean(value)
    }
}

impl<'de> From<bool> for BoltRef<'de> {
    fn from(value: bool) -> (r: Self) {
        BoltRef::Boolean(value)
    }
}

impl<'de> FromSpecImpl<i64> for BoltRef<'de> {
    open spec fn obeys_from_spec() -> bool {
        true
    }

    open spec fn from_spec(value: i64) -> Self {
        BoltRef::Integer(value)
    }
}

impl<'de> From<i64> for BoltRef<'de> {
    fn from(value: i64) -> (r: Self) {
        BoltRef::Integer(value)
    }
}

impl<'de> FromSpecImpl<u8> for BoltRef<'de> {
    open spec fn obeys_from_spec() -> bool {
        true
    }

    open spec fn from_spec(value: u8) -> Self {
        BoltRef::Integer(value as i64)
    }
}

impl<'de> From<u8> for BoltRef<'de> {
    fn from(value: u8) -> (r: Self) {
        BoltRef::Integer(value as i64)
    }
}

impl<'de> FromSpecImpl<u16> for BoltRef<'de> {
    open spec fn obeys_from_spec() -> bool {
        true
    }

    open spec fn from_spec(value: u16) -> Self {
        BoltRef::Integer(value as i64)
    }
}

impl<'de> From<u16> for BoltRef<'de> {
    fn from(value: u16) -> (r: Self) {
        BoltRef::Integer(value as i64)
    }
}

impl<'de> FromSpecImpl<u32> for BoltRef<'de> {
    open spec fn obeys_from_spec() -> bool {
        true
    }

    open spec fn from_spec(value: u32) -> Self {
        BoltRef::Integer(value as i64)
    }
}

impl<'de> From<u32> for BoltRef<'de> {
    fn from(value: u32) -> (r: Self) {
        BoltRef::Integer(value as i64)
    }
}

impl<'de> FromSpecImpl<i8> for BoltRef<'de> {
    open spec fn obeys_from_spec() -> bool {
        true
    }

    open spec fn from_spec(value: i8) -> Self {
        BoltRef::Integer(value as i64)
    }
}

impl<'de> From<i8> for BoltRef<'de> {
    fn from(value: i8) -> (r: Self) {
        BoltRef::Integer(value as i64)
    }
}

impl<'de> FromSpecImpl<i16> for BoltRef<'de> {
    open spec fn obeys_from_spec() -> bool {
        true
    }

    open spec fn from_spec(value: i16) -> Self {
        BoltRef::Integer(value as i64)
    }
}

impl<'de> From<i16> for BoltRef<'de> {
    fn from(value: i16) -> (r: Self) {
        BoltRef::Integer(value as i64)
    }
}

impl<'de> FromSpecImpl<i32> for BoltRef<'de> {
    open spec fn obeys_from_spec() -> bool {
        true
    }

    open spec fn from_spec(value: i32) -> Self {
        BoltRef::Integer(value as i64)
    }
}

impl<'de> From<i32> for BoltRef<'de> {
    fn from(value: i32) -> (r: Self) {
        BoltRef::Integer(value as i64)
    }
}

impl<'de> FromSpecImpl<&'de [u8]> for BoltRef<'de> {
    open spec fn obeys_from_spec() -> bool {
        true
    }

    open spec fn from_spec(value: &'de [u8]) -> Self {
        BoltRef::Bytes(value)
    }
}

impl<'de> From<&'de [u8]> for BoltRef<'de> {
    fn from(value: &'de [u8]) -> (r: Self) {
        BoltRef::Bytes(value)
    }
}

impl<'de> FromSpecImpl<&'de str> for BoltRef<'de> {
    open spec fn obeys_from_spec() -> bool {
        true
    }

    open spec fn from_spec(value: &'de str) -> Self {
        BoltRef::String(value)
    }
}

impl<'de> From<&'de str> for BoltRef<'de> {
    fn from(value: &'de str) -> (r: Self) {
        BoltRef::String(value)
    }
}

impl<'de> FromSpecImpl<Vec<BoltRef<'de>>> for BoltRef<'de> {
    open spec fn obeys_from_spec() -> bool {
        true
    }

    open spec fn from_spec(value: Vec<BoltRef<'de>>) -> Self {
        BoltRef::List(value)
    }
}

impl<'de> From<Vec<BoltRef<'de>>> for BoltRef<'de> {
    fn from(value: Vec<BoltRef<'de>>) -> (r: Self) {
        BoltRef::List(value)
    }
}

impl<'de> FromSpecImpl<MapRef<'de>> for BoltRef<'de> {
    open spec fn obeys_from_spec() -> bool {
        true
    }

    open spec fn from_spec(value: MapRef<'de>) -> Self {
        BoltRef::Dictionary(value)
    }
}

impl<'de> From<MapRef<'de>> for BoltRef<'de> {
    fn from(value: MapRef<'de>) -> (r: Self) {
        BoltRef::Dictionary(value)
    }
}

impl<'de> FromSpecImpl<NodeRef<'de>> for BoltRef<'de> {
    open spec fn obeys_from_spec() -> bool {
        true
    }

    open spec fn from_spec(value: NodeRef<'de>) -> Self {
        BoltRef::Node(value)
    }
}

impl<'de> From<NodeRef<'de>> for BoltRef<'de> {
    fn from(value: NodeRef<'de>) -> (r: Self) {
        BoltRef::Node(value)
    }
}

impl<'de> FromSpecImpl<Relationship<'de>> for BoltRef<'de> {
    open spec fn obeys_from_spec() -> bool {
        true
    }

    open spec fn from_spec(value: Relationship<'de>) -> Self {
        BoltRef::Relationship(value)
    }
}

impl<'de> From<Relationship<'de>> for BoltRef<'de> {
    fn from(value: Relationship<'de>) -> (r: Self) {
        BoltRef::Relationship(value)
    }
}

impl<'de> FromSpecImpl<UnboundRelationship<'de>> for BoltRef<'de> {
    open spec fn obeys_from_spec() -> bool {
        true
    }

    open spec fn from_spec(value: UnboundRelationship<'de>) -> Self {
        BoltRef::UnboundRelationship(value)
    }
}

impl<'de> From<UnboundRelationship<'de>> for BoltRef<'de> {
    fn from(value: UnboundRelationship<'de>) -> (r: Self) {
        BoltRef::UnboundRelationship(value)
    }
}

impl<'de> FromSpecImpl<PathRef<'de>> for BoltRef<'de> {
    open spec fn obeys_from_spec() -> bool {
        true
    }

    open spec fn from_spec(value: PathRef<'de>) -> Self {
        BoltRef::Path(value)
    }
}

impl<'de> From<PathRef<'de>> for BoltRef<'de> {
    fn from(value: PathRef<'de>) -> (r: Self) {
        BoltRef::Path(value)
    }
}

impl<'de> FromSpecImpl<Date> for BoltRef<'de> {
    open spec fn obeys_from_spec() -> bool {
        true
    }

    open spec fn from_spec(value: Date) -> Self {
        BoltRef::Date(value)
    }
}

impl<'de> From<Date> for BoltRef<'de> {
    fn from(value: Date) -> (r: Self) {
        BoltRef::Date(value)
    }
}

impl<'de> FromSpecImpl<Time> for BoltRef<'de> {
    open spec fn obeys_from_spec() -> bool {
        true
    }

    open spec fn from_spec(value: Time) -> Self {
        BoltRef::Time(value)
    }
}

impl<'de> From<Time> for BoltRef<'de> {
    fn from(value: Time) -> (r: Self) {
        BoltRef::Time(value)
    }
}

impl<'de> FromSpecImpl<LocalTime> for BoltRef<'de> {
    open spec fn obeys_from_spec() -> bool {
        true
    }

    open spec fn from_spec(value: LocalTime) -> Self {
        BoltRef::LocalTime(value)
    }
}

impl<'de> From<LocalTime> for BoltRef<'de> {
    fn from(value: LocalTime) -> (r: Self) {
        BoltRef::LocalTime(value)
    }
}

impl<'de> FromSpecImpl<DateTime> for BoltRef<'de> {
    open spec fn obeys_from_spec() -> bool {
        true
    }

    open spec fn from_spec(value: DateTime) -> Self {
        BoltRef::DateTime(value)
    }
}

impl<'de> From<DateTime> for BoltRef<'de> {
    fn from(value: DateTime) -> (r: Self) {
        BoltRef::DateTime(value)
    }
}

impl<'de> FromSpecImpl<DateTimeZoneIdRef<'de>> for BoltRef<'de> {
    open spec fn obeys_from_spec() -> bool {
        true
    }

    open spec fn from_spec(value: DateTimeZoneIdRef<'de>) -> Self {
        BoltRef::DateTimeZoneId(value)
    }
}

impl<'de> From<DateTimeZoneIdRef<'de>> for BoltRef<'de> {
    fn from(value: DateTimeZoneIdRef<'de>) -> (r: Self) {
        BoltRef::DateTimeZoneId(value)
    }
}

impl<'de> FromSpecImpl<LocalDateTime> for BoltRef<'de> {
    open spec fn obeys_from_spec() -> bool {
        true
    }

    open spec fn from_spec(value: LocalDateTime) -> Self {
        BoltRef::LocalDateTime(value)
    }
}

impl<'de> From<LocalDateTime> for BoltRef<'de> {
    fn from(value: LocalDateTime) -> (r: Self) {
        BoltRef::LocalDateTime(value)
    }
}

impl<'de> FromSpecImpl<LegacyDateTime> for BoltRef<'de> {
    open spec fn obeys_from_spec() -> bool {
        true
    }

    open spec fn from_spec(value: LegacyDateTime) -> Self {
        BoltRef::LegacyDateTime(value)
    }
}

impl<'de> From<LegacyDateTime> for BoltRef<'de> {
    fn from(value: LegacyDateTime) -> (r: Self) {
        BoltRef::LegacyDateTime(value)
    }
}

impl<'de> FromSpecImpl<LegacyDateTimeZoneIdRef<'de>> for BoltRef<'de> {
    open spec fn obeys_from_spec() -> bool {
        true
    }

    open spec fn from_spec(value: LegacyDateTimeZoneIdRef<'de>) -> Self {
        BoltRef::LegacyDateTimeZoneId(value)
    }
}

impl<'de> From<LegacyDateTimeZoneIdRef<'de>> for BoltRef<'de> {
    fn from(value: LegacyDateTimeZoneIdRef<'de>) -> (r: Self) {
        BoltRef::LegacyDateTimeZoneId(value)
    }
}

impl<'de> FromSpecImpl<Duration> for BoltRef<'de> {
    open spec fn obeys_from_spec() -> bool {
        true
    }

    open spec fn from_spec(value: Duration) -> Self {
        BoltRef::Duration(value)
    }
}

impl<'de> From<Duration> for BoltRef<'de> {
    fn from(value: Duration) -> (r: Self) {
        BoltRef::Duration(value)
    }
}

impl<'de> FromSpecImpl<Point2D> for BoltRef<'de> {
    open spec fn obeys_from_spec() -> bool {
        true
    }

    open spec fn from_spec(value: Point2D) -> Self {
        BoltRef::Point2D(value)
    }
}

impl<'de> From<Point2D> for BoltRef<'de> {
    fn from(value: Point2D) -> (r: Self) {
        BoltRef::Point2D(value)
    }
}

impl<'de> FromSpecImpl<Point3D> for BoltRef<'de> {
    open spec fn obeys_from_spec() -> bool {
        true
    }

    open spec fn from_spec(value: Point3D) -> Self {
        BoltRef::Point3D(value)
    }
}

impl<'de> From<Point3D> for BoltRef<'de> {
    fn from(value: Point3D) -> (r: Self) {
        BoltRef::Point3D(value)
    }
}

impl<'de> TryFromSpecImpl<u64> for BoltRef<'de> {
    open spec fn obeys_try_from_spec() -> bool {
        true
    }

    open spec fn try_from_spec(value: u64) -> Result<Self, Error> {
        if value <= i64::MAX {
            Ok(BoltRef::Integer(value as i64))
        } else {
            Err(Error::IntegerOverflow { field: "value" })
        }
    }
}

impl<'de> TryFrom<u64> for BoltRef<'de> {
    type Error = Error;

    /// The integer `value`; fails with `IntegerOverflow` where it does not
    /// fit 64 bits with a sign.
    fn try_from(value: u64) -> (r: Result<Self, Error>) {
        if value <= i64::MAX as u64 {
            Ok(BoltRef::Integer(value as i64))
        } else {
            Err(Error::IntegerOverflow { field: "value" })
        }
    }
}

impl<'de> TryFromSpecImpl<usize> for BoltRef<'de> {
    open spec fn obeys_try_from_spec() -> bool {
        true
    }

    open spec fn try_from_spec(value: usize) -> Result<Self, Error> {
        if value <= i64::MAX {
            Ok(BoltRef::Integer(value as i64))
        } else {
            Err(Error::IntegerOverflow { field: "value" })
        }
    }
}

impl<'de> TryFrom<usize> for BoltRef<'de> {
    type Error = Error;

    /// The integer `value`; fails with `IntegerOverflow` where it does not
    /// fit 64 bits with a sign.
    fn try_from(value: usize) -> (r: Result<Self, Error>) {
        if value as u64 <= i64::MAX as u64 {
            Ok(BoltRef::Integer(value as i64))
        } else {
            Err(Error::IntegerOverflow { field: "value" })
        }
    }
}

impl<'de> TryFromSpecImpl<isize> for BoltRef<'de> {
    open spec fn obeys_try_from_spec() -> bool {
        true
    }

    open spec fn try_from_spec(value: isize) -> Result<Self, Error> {
        if i64::MIN <= value && value <= i64::MAX {
            Ok(BoltRef::Integer(value as i64))
        } else {
            Err(Error::IntegerOverflow { field: "value" })
        }
    }
}

impl<'de> TryFrom<isize> for BoltRef<'de> {
    type Error = Error;

    /// The integer `value`; fails with `IntegerOverflow` where it does not
    /// fit 64 bits with a sign.
    fn try_from(value: isize) -> (r: Result<Self, Error>) {
        if i64::MIN as i128 <= value as i128 && value as i128 <= i64::MAX as i128 {
            Ok(BoltRef::Integer(value as i64))
        } else {
            Err(Error::IntegerOverflow { field: "value" })
        }
    }
}

impl<'de> TryFromSpecImpl<u128> for BoltRef<'de> {
    open spec fn obeys_try_from_spec() -> bool {
        true
    }

    open spec fn try_from_spec(value: u128) -> Result<Self, Error> {
        if value <= i64::MAX {
            Ok(BoltRef::Integer(value as i64))
        } else {
            Err(Error::IntegerOverflow { field: "value" })
        }
    }
}

impl<'de> TryFrom<u128> for BoltRef<'de> {
    type Error = Error;

    /// The integer `value`; fails with `IntegerOverflow` where it does not
    /// fit 64 bits with a sign.
    fn try_from(value: u128) -> (r: Result<Self, Error>) {
        if value <= i64::MAX as u128 {
            Ok(BoltRef::Integer(value as i64))
        } else {
            Err(Error::IntegerOverflow { field: "value" })
        }
    }
}

impl<'de> TryFromSpecImpl<i128> for BoltRef<'de> {
    open spec fn obeys_try_from_spec() -> bool {
        true
    }

    open spec fn try_from_spec(value: i128) -> Result<Self, Error> {
        if i64::MIN <= value && value <= i64::MAX {
            Ok(BoltRef::Integer(value as i64))
        } else {
            Err(Error::IntegerOverflow { field: "value" })
        }
    }
}

impl<'de> TryFrom<i128> for BoltRef<'de> {
    type Error = Error;

    /// The integer `value`; fails with `IntegerOverflow` where it does not
    /// fit 64 bits with a sign.
    fn try_from(value: i128) -> (r: Result<Self, Error>) {
        if i64::MIN as i128 <= value && value <= i64::MAX as i128 {
            Ok(BoltRef::Integer(value as i64))
        } else {
            Err(Error::IntegerOverflow { field: "value" })
        }
    }
}

impl FromSpecImpl<()> for Bolt {
    open spec fn obeys_from_spec() -> bool {
        true
    }

    open spec fn from_spec(value: ()) -> Self {
        Bolt::Null
    }
}

impl From<()> for Bolt {
    fn from(value: ()) -> (r: Self) {
        Bolt::Null
    }
}

impl FromSpecImpl<bool> for Bolt {
    open spec fn obeys_from_spec() -> bool {
        true
    }

    open spec fn from_spec(value: bool) -> Self {
        Bolt::Boolean(value)
    }
}

impl From<bool> for Bolt {
    fn from(value: bool) -> (r: Self) {
        Bolt::Boolean(value)
    }
}

impl FromSpecImpl<i64> for Bolt {
    open spec fn obeys_from_spec() -> bool {
        true
    }

    open spec fn from_spec(value: i64) -> Self {
        Bolt::Integer(value)
    }
}

impl From<i64> for Bolt {
    fn from(value: i64) -> (r: Self) {
        Bolt::Integer(value)
    }
}

impl FromSpecImpl<u8> for Bolt {
    open spec fn obeys_from_spec() -> bool {
        true
    }

    open spec fn from_spec(value: u8) -> Self {
        Bolt::Integer(value as i64)
    }
}

impl From<u8> for Bolt {
    fn from(value: u8) -> (r: Self) {
        Bolt::Integer(value as i64)
    }
}

impl FromSpecImpl<u16> for Bolt {
    open spec fn obeys_from_spec() -> bool {
        true
    }

    open spec fn from_spec(value: u16) -> Self {
        Bolt::Integer(value as i64)
    }
}

impl From<u16> for Bolt {
    fn from(value: u16) -> (r: Self) {
        Bolt::Integer(value as i64)
    }
}

impl FromSpecImpl<u32> for Bolt {
    open spec fn obeys_from_spec() -> bool {
        true
    }

    open spec fn from_spec(value: u32) -> Self {
        Bolt::Integer(value as i64)
    }
}

impl From<u32> for Bolt {
    fn from(value: u32) -> (r: Self) {
        Bolt::Integer(value as i64)
    }
}

impl FromSpecImpl<i8> for Bolt {
    open spec fn obeys_from_spec() -> bool {
        true
    }

    open spec fn from_spec(value: i8) -> Self {
        Bolt::Integer(value as i64)
    }
}

impl From<i8> for Bolt {
    fn from(value: i8) -> (r: Self) {
        Bolt::Integer(value as i64)
    }
}

impl FromSpecImpl<i16> for Bolt {
    open spec fn obeys_from_spec() -> bool {
        true
    }

    open spec fn from_spec(value: i16) -> Self {
        Bolt::Integer(value as i64)
    }
}

impl From<i16> for Bolt {
    fn from(value: i16) -> (r: Self) {
        Bolt::Integer(value as i64)
    }
}

impl FromSpecImpl<i32> for Bolt {
    open spec fn obeys_from_spec() -> bool {
        true
    }

    open spec fn from_spec(value: i32) -> Self {
        Bolt::Integer(value as i64)
    }
}

impl From<i32> for Bolt {
    fn from(value: i32) -> (r: Self) {
        Bolt::Integer(value as i64)
    }
}

impl FromSpecImpl<bytes::Bytes> for Bolt {
    open spec fn obeys_from_spec() -> bool {
        true
    }

    open spec fn from_spec(value: bytes::Bytes) -> Self {
        Bolt::Bytes(value)
    }
}

impl From<bytes::Bytes> for Bolt {
    fn from(value: bytes::Bytes) -> (r: Self) {
        Bolt::Bytes(value)
    }
}

impl FromSpecImpl<Vec<u8>> for Bolt {
    open spec fn obeys_from_spec() -> bool {
        false
    }

    open spec fn from_spec(value: Vec<u8>) -> Self {
        Bolt::Null
    }
}

impl From<Vec<u8>> for Bolt {
    fn from(value: Vec<u8>) -> (r: Self)
        ensures
            r@ == Value::Bytes(value@),
    {
        Bolt::Bytes(from_vec(value))
    }
}

impl FromSpecImpl<String> for Bolt {
    open spec fn obeys_from_spec() -> bool {
        true
    }

    open spec fn from_spec(value: String) -> Self {
        Bolt::String(value)
    }
}

impl From<String> for Bolt {
    fn from(value: String) -> (r: Self) {
        Bolt::String(value)
    }
}

impl FromSpecImpl<&str> for Bolt {
    open spec fn obeys_from_spec() -> bool {
        false
    }

    open spec fn from_spec(value: &str) -> Self {
        Bolt::Null
    }
}

impl From<&str> for Bolt {
    fn from(value: &str) -> (r: Self)
        ensures
            r@ == Value::String(value@),
    {
        Bolt::String(value.to_owned())
    }
}

impl FromSpecImpl<Vec<Bolt>> for Bolt {
    open spec fn obeys_from_spec() -> bool {
        true
    }

    open spec fn from_spec(value: Vec<Bolt>) -> Self {
        Bolt::List(value)
    }
}

impl From<Vec<Bolt>> for Bolt {
    fn from(value: Vec<Bolt>) -> (r: Self) {
        Bolt::List(value)
    }
}

impl FromSpecImpl<BoltMap> for Bolt {
    open spec fn obeys_from_spec() -> bool {
        true
    }

    open spec fn from_spec(value: BoltMap) -> Self {
        Bolt::Dictionary(value)
    }
}

impl From<BoltMap> for Bolt {
    fn from(value: BoltMap) -> (r: Self) {
        Bolt::Dictionary(value)
    }
}

impl FromSpecImpl<BoltRef<'_>> for Bolt {
    open spec fn obeys_from_spec() -> bool {
        false
    }

    open spec fn from_spec(value: BoltRef<'_>) -> Self {
        Bolt::Null
    }
}

impl From<BoltRef<'_>> for Bolt {
    fn from(value: BoltRef<'_>) -> (r: Self)
        ensures
            r@ == value@,
            ids_kept(value, r),
            super::ids_whole(value) ==> owned_whole(r),
    {
        Bolt::of(value)
    }
}

} // verus!
