use crate::packstream::value::{Value, TAG_DATE};
use vstd::prelude::*;

verus! {

/// A date without a time zone.
#[derive(Copy, Clone, Debug, PartialEq, Eq)]
pub struct Date {
    pub days: i64,
}

impl Date {
    /// The structure that this date is written as.
    pub open spec fn view(&self) -> Value {
        Value::Structure { tag: TAG_DATE, fields: seq![Value::Integer(self.days)] }
    }

    pub fn new(days: i64) -> (r: Self)
        ensures
            r.days == days,
    {
        Date { days }
    }

    /// Days since the Unix epoch.
    pub fn days_since_epoch(self) -> (r: i64)
        ensures
            r == self.days,
    {
        self.days
    }
}

} // verus!
