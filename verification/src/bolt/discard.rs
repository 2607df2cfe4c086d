use crate::bolt::extra::{asked, extra_bytes, extra_fields, Extra};
use crate::bolt::request::{message, wrote, TAG_DISCARD};
use crate::errors::Error;
use vstd::prelude::*;

verus! {

/// The request to drop records of a result stream.
#[derive(Debug, Clone, PartialEq, Eq)]
pub struct Discard {
    pub(crate) extra: Extra,
}

impl Discard {
    /// What this request says: how many records, and of which query.
    pub open(crate) spec fn view(&self) -> Extra {
        self.extra
    }

    /// Drops all records that are left.
    pub fn all() -> (r: Self)
        ensures
            r@ == (Extra { n: -1i64, qid: None }),
    {
        Self::new(None, None)
    }

    /// Drops `n` records, or all that are left where `n` is 0.
    pub fn some(n: u32) -> (r: Self)
        ensures
            r@ == (Extra { n: asked(Some(n as i64)), qid: None }),
    {
        Self::new(Some(n as i64), None)
    }

    /// Drops `n` records. Fails with `IntegerOverflow` where `n` does not
    /// fit 64 bits with a sign.
    pub fn many(n: u64) -> (r: Result<Self, Error>)
        ensures
            match r {
                Ok(discard) => n <= i64::MAX && discard@ == (Extra { n: asked(Some(n as i64)), qid: None }),
                Err(e) => n > i64::MAX && e == (Error::IntegerOverflow { field: "n" }),
            },
    {
        if n > i64::MAX as u64 {
            return Err(Error::IntegerOverflow { field: "n" });
        }
        Ok(Self::new(Some(n as i64), None))
    }

    /// Drops records of the query with the id `query_id`.
    pub fn for_query(self, query_id: i64) -> (r: Self)
        ensures
            r@ == (Extra { n: self@.n, qid: Some(query_id) }),
    {
        Discard { extra: Extra { n: self.extra.n, qid: Some(query_id) } }
    }

    /// Drops records of the query that was started last.
    pub fn for_last_query(self) -> (r: Self)
        ensures
            r@ == (Extra { n: self@.n, qid: Some(-1i64) }),
    {
        self.for_query(-1)
    }

    /// A request to drop `how_many` records of the query `qid`. A number that is
    /// absent or not positive drops all records that are left.
    pub(crate) fn new(how_many: Option<i64>, qid: Option<i64>) -> (r: Self)
        ensures
            r@ == (Extra { n: asked(how_many), qid }),
    {
        Discard { extra: Extra::new(how_many, qid) }
    }

    /// The bytes of this request: a structure with the tag `0x2F` and one
    /// field, the dictionary of the number and the query. The query is left
    /// out where it is the one that was started last. The request is always
    /// written.
    pub fn to_bytes(&self) -> (r: Result<Vec<u8>, Error>)
        ensures
            r matches Ok(out) && out@ == extra_bytes(TAG_DISCARD, self@),
            wrote(r, message(TAG_DISCARD, extra_fields(self@))),
    {
        self.extra.to_bytes(TAG_DISCARD)
    }
}

} // verus!
