use crate::packstream::value::{Value, TAG_LOCAL_TIME, TAG_TIME};
use vstd::prelude::*;

verus! {

/// A time of day with the offset of its time zone.
#[derive(Copy, Clone, Debug, PartialEq, Eq)]
pub struct Time {
    pub nanoseconds: i64,
    pub tz_offset_seconds: i32,
}

impl Time {
    /// The structure that this time is written as.
    pub open spec fn view(&self) -> Value {
        Value::Structure {
            tag: TAG_TIME,
            fields: seq![
                Value::Integer(self.nanoseconds),
                Value::Integer(self.tz_offset_seconds as i64),
            ],
        }
    }

    pub fn new(nanoseconds: i64, tz_offset_seconds: i32) -> (r: Self)
        ensures
            r.nanoseconds == nanoseconds,
            r.tz_offset_seconds == tz_offset_seconds,
    {
        Time { nanoseconds, tz_offset_seconds }
    }

    /// Nanoseconds since midnight in the time zone of this time.
    pub fn nanoseconds_since_midnight(self) -> (r: i64)
        ensures
            r == self.nanoseconds,
    {
        self.nanoseconds
    }

    /// The offset of the time zone from UTC, in seconds.
    pub fn timezone_offset_seconds(self) -> (r: i32)
        ensures
            r == self.tz_offset_seconds,
    {
        self.tz_offset_seconds
    }
}

/// A time of day without a time zone.
#[derive(Copy, Clone, Debug, PartialEq, Eq)]
pub struct LocalTime {
    pub nanoseconds: i64,
}

impl LocalTime {
    /// The structure that this time is written as.
    pub open spec fn view(&self) -> Value {
        Value::Structure { tag: TAG_LOCAL_TIME, fields: seq![Value::Integer(self.nanoseconds)] }
    }

    pub fn new(nanoseconds: i64) -> (r: Self)
        ensures
            r.nanoseconds == nanoseconds,
    {
        LocalTime { nanoseconds }
    }

    /// Nanoseconds since midnight.
    pub fn nanoseconds_since_midnight(self) -> (r: i64)
        ensures
            r == self.nanoseconds,
    {
        self.nanoseconds
    }
}

} // verus!
