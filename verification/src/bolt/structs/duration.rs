use crate::packstream::value::{Value, TAG_DURATION};
use vstd::prelude::*;

verus! {

/// A span of time in months, days, seconds and nanoseconds.
#[derive(Copy, Clone, Debug, PartialEq, Eq)]
pub struct Duration {
    pub months: i64,
    pub days: i64,
    pub seconds: i64,
    pub nanoseconds: i32,
}

impl Duration {
    /// The structure that this duration is written as.
    pub open spec fn view(&self) -> Value {
        Value::Structure {
            tag: TAG_DURATION,
            fields: seq![
                Value::Integer(self.months),
                Value::Integer(self.days),
                Value::Integer(self.seconds),
                Value::Integer(self.nanoseconds as i64),
            ],
        }
    }

    pub fn new(months: i64, days: i64, seconds: i64, nanoseconds: i32) -> (r: Self)
        ensures
            r.months == months,
            r.days == days,
            r.seconds == seconds,
            r.nanoseconds == nanoseconds,
    {
        Duration { months, days, seconds, nanoseconds }
    }

    pub fn months(self) -> (r: i64)
        ensures
            r == self.months,
    {
        self.months
    }

    pub fn days(self) -> (r: i64)
        ensures
            r == self.days,
    {
        self.days
    }

    pub fn seconds(self) -> (r: i64)
        ensures
            r == self.seconds,
    {
        self.seconds
    }

    pub fn nanoseconds(self) -> (r: i32)
        ensures
            r == self.nanoseconds,
    {
        self.nanoseconds
    }
}

} // verus!
