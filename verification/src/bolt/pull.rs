use crate::bolt::extra::{asked, extra_bytes, extra_fields, Extra};
use crate::bolt::request::{message, wrote, TAG_PULL};
use crate::errors::Error;
use vstd::prelude::*;

verus! {

/// The request for records of a result stream.
#[derive(Debug, Clone, PartialEq, Eq)]
pub struct Pull {
    pub(crate) extra: Extra,
}

impl Pull {
    /// What this request says: how many records, and of which query.
    pub open(crate) spec fn view(&self) -> Extra {
        self.extra
    }

    /// Asks for all records that are left.
    pub fn all() -> (r: Self)
        ensures
            r@ == (Extra { n: -1i64, qid: None }),
    {
        Self::new(None, None)
    }

    /// Asks for `n` records, or for all that are left where `n` is 0.
    pub fn some(n: u32) -> (r: Self)
        ensures
            r@ == (Extra { n: asked(Some(n as i64)), qid: None }),
    {
        Self::new(Some(n as i64), None)
    }

    /// Asks for `n` records, or for all that are left where `n` is zero or
    /// negative. Fails with `IntegerOverflow` where `n` does not fit 64 bits
    /// with a sign.
    pub fn many(n: i128) -> (r: Result<Self, Error>)
        ensures
            match r {
                Ok(pull) => i64::MIN <= n <= i64::MAX && pull@ == (Extra {
                    n: if n > 0 {
                        n as i64
                    } else {
                        -1i64
                    },
                    qid: None,
                }),
                Err(e) => (n < i64::MIN || n > i64::MAX) && e == (Error::IntegerOverflow {
                    field: "n",
                }),
            },
    {
        if n < i64::MIN as i128 || n > i64::MAX as i128 {
            return Err(Error::IntegerOverflow { field: "n" });
        }
        Ok(Self::new(Some(n as i64), None))
    }

    /// Asks of the query with the id `query_id`.
    pub fn for_query(self, query_id: i64) -> (r: Self)
        ensures
            r@ == (Extra { n: self@.n, qid: Some(query_id) }),
    {
        Pull { extra: Extra { n: self.extra.n, qid: Some(query_id) } }
    }

    /// Asks of the query that was started last.
    pub fn for_last_query(self) -> (r: Self)
        ensures
            r@ == (Extra { n: self@.n, qid: Some(-1i64) }),
    {
        self.for_query(-1)
    }

    /// A request for `how_many` records of the query `qid`. A number that is
    /// absent or not positive asks for all records that are left.
    pub(crate) fn new(how_many: Option<i64>, qid: Option<i64>) -> (r: Self)
        ensures
            r@ == (Extra { n: asked(how_many), qid }),
    {
        Pull { extra: Extra::new(how_many, qid) }
    }

    /// The bytes of this request: a structure with the tag `0x3F` and one
    /// field, the dictionary of the number and the query. The query is left
    /// out where it is the one that was started last. The request is always
    /// written.
    pub fn to_bytes(&self) -> (r: Result<Vec<u8>, Error>)
        ensures
            r matches Ok(out) && out@ == extra_bytes(TAG_PULL, self@),
            wrote(r, message(TAG_PULL, extra_fields(self@))),
    {
        self.extra.to_bytes(TAG_PULL)
    }
}

} // verus!
