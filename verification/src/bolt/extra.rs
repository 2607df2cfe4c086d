//! What a PULL or a DISCARD says beyond its tag: how many records, and of
//! which query.

use crate::bolt::request::{message, message_bytes, write_message, wrote};
use crate::bolt::structs::{entry_keys, BoltRef, MapRef};
use crate::errors::Error;
use crate::packstream::grammar::{
    encode_entries, encode_items, encode_text, oversize, oversize_entries, oversize_items,
    spec_encode,
};
use crate::packstream::wire::encode_int;
use vstd::utf8::{encode_utf8, is_ascii_chars, is_ascii_chars_encode_utf8};
use crate::packstream::value::Value;
use vstd::prelude::*;

verus! {

/// The number of records asked for, and the query asked of.
#[derive(Debug, Clone, Copy, PartialEq, Eq, Structural)]
pub struct Extra {
    /// A positive number of records, or -1 for all that are left.
    pub n: i64,
    /// The id of the query; `None` and -1 both stand for the query that was
    /// started last.
    pub qid: Option<i64>,
}

/// The entries that are written for an `Extra`: the number under `n`, and the
/// query under `qid` unless it is the query that was started last.
pub open spec fn extra_entries(extra: Extra) -> Seq<(Seq<char>, Value)> {
    match extra.qid {
        Some(q) if q != -1 => seq![("n"@, Value::Integer(extra.n)), ("qid"@, Value::Integer(q))],
        _ => seq![("n"@, Value::Integer(extra.n))],
    }
}

/// The fields of a message that carries an `Extra`: one dictionary.
pub open spec fn extra_fields(extra: Extra) -> Seq<Value> {
    seq![Value::Dictionary(extra_entries(extra))]
}

/// The bytes of a message that carries an `Extra`, spelled out: the header
/// of a structure with one field and the tag; the header of a dictionary
/// with one entry or two; the key `n` and the number; and, unless the query
/// is the one that was started last, the key `qid` and the query.
pub open spec fn extra_bytes(tag: u8, extra: Extra) -> Seq<u8> {
    match extra.qid {
        Some(q) if q != -1 => seq![0xB1u8, tag, 0xA2u8, 0x81u8, 0x6Eu8] + encode_int(extra.n)
            + seq![0x83u8, 0x71u8, 0x69u8, 0x64u8] + encode_int(q),
        _ => seq![0xB1u8, tag, 0xA1u8, 0x81u8, 0x6Eu8] + encode_int(extra.n),
    }
}

/// The two keys of an `Extra` as they are written.
pub proof fn lemma_extra_keys()
    ensures
        encode_text("n"@) == seq![0x81u8, 0x6Eu8],
        encode_text("qid"@) == seq![0x83u8, 0x71u8, 0x69u8, 0x64u8],
{
    reveal_strlit("n");
    reveal_strlit("qid");
    assert(is_ascii_chars("n"@));
    assert(is_ascii_chars("qid"@));
    is_ascii_chars_encode_utf8("n"@);
    is_ascii_chars_encode_utf8("qid"@);
    assert(encode_utf8("n"@) =~= seq![0x6Eu8]);
    assert(encode_utf8("qid"@) =~= seq![0x71u8, 0x69u8, 0x64u8]);
    assert(encode_text("n"@) =~= seq![0x81u8, 0x6Eu8]);
    assert(encode_text("qid"@) =~= seq![0x83u8, 0x71u8, 0x69u8, 0x64u8]);
}

/// A message that carries an `Extra` is always written, and its bytes are
/// those spelled out.
pub proof fn lemma_extra_bytes(tag: u8, extra: Extra)
    ensures
        message(tag, extra_fields(extra)) == Ok::<Seq<u8>, Error>(extra_bytes(tag, extra)),
{
    lemma_extra_keys();
    let entries = extra_entries(extra);
    let fields = extra_fields(extra);
    let dictionary = Value::Dictionary(entries);
    assert(fields[0] == dictionary);
    assert(encode_items(fields, 1) =~= Seq::<u8>::empty());
    assert(encode_items(fields, 0) == spec_encode(fields[0]) + encode_items(fields, 1));
    assert(oversize_items(fields, 1) is None);
    assert(oversize_items(fields, 0) == match oversize(fields[0]) {
        Some(c) => Some(c),
        None => oversize_items(fields, 1),
    });
    assert(oversize(dictionary) == oversize_entries(entries, 0));
    assert(oversize(Value::Integer(extra.n)) is None);
    assert(spec_encode(Value::Integer(extra.n)) == encode_int(extra.n));
    match extra.qid {
        Some(q) if q != -1 => {
            assert(oversize(Value::Integer(q)) is None);
            assert(spec_encode(Value::Integer(q)) == encode_int(q));
            assert(entries[0] == ("n"@, Value::Integer(extra.n)));
            assert(entries[1] == ("qid"@, Value::Integer(q)));
            assert(encode_entries(entries, 2) =~= Seq::<u8>::empty());
            assert(encode_entries(entries, 1) == encode_text(entries[1].0) + spec_encode(
                entries[1].1,
            ) + encode_entries(entries, 2));
            assert(encode_entries(entries, 0) == encode_text(entries[0].0) + spec_encode(
                entries[0].1,
            ) + encode_entries(entries, 1));
            assert(oversize_entries(entries, 2) is None);
            assert(oversize_entries(entries, 1) is None);
            assert(oversize_entries(entries, 0) is None);
            assert(message_bytes(tag, fields) =~= extra_bytes(tag, extra));
        },
        _ => {
            assert(entries[0] == ("n"@, Value::Integer(extra.n)));
            assert(encode_entries(entries, 1) =~= Seq::<u8>::empty());
            assert(encode_entries(entries, 0) == encode_text(entries[0].0) + spec_encode(
                entries[0].1,
            ) + encode_entries(entries, 1));
            assert(oversize_entries(entries, 1) is None);
            assert(oversize_entries(entries, 0) is None);
            assert(message_bytes(tag, fields) =~= extra_bytes(tag, extra));
        },
    }
}

/// The number that is written for a wish for `how_many` records: the number
/// itself where it is positive; else -1, which stands for all records that
/// are left.
pub open spec fn asked(how_many: Option<i64>) -> i64 {
    match how_many {
        Some(n) if n > 0 => n,
        _ => -1i64,
    }
}

impl Extra {
    /// An `Extra` for `how_many` records of the query `qid`. A number that is
    /// absent or not positive asks for all records that are left.
    pub fn new(how_many: Option<i64>, qid: Option<i64>) -> (r: Self)
        ensures
            r == (Extra { n: asked(how_many), qid }),
    {
        let n: i64 = match how_many {
            Some(n) => if n > 0 {
                n
            } else {
                -1
            },
            None => -1,
        };
        Extra { n, qid }
    }

    /// The dictionary that is written for this `Extra`.
    pub fn to_map(&self) -> (r: MapRef<'static>)
        ensures
            r@ == extra_entries(*self),
    {
        proof {
            reveal_strlit("n");
            reveal_strlit("qid");
        }
        let mut entries: Vec<(&'static str, BoltRef<'static>)> = Vec::new();
        entries.push(("n", BoltRef::Integer(self.n)));
        match self.qid {
            Some(q) => {
                if q != -1 {
                    entries.push(("qid", BoltRef::Integer(q)));
                }
            },
            None => {},
        }
        assert(entry_keys(entries@).no_duplicates()) by {
            assert("n"@.len() != "qid"@.len());
        }
        let map = MapRef::from_entries(entries);
        assert(map@ =~= extra_entries(*self));
        map
    }

    /// The bytes of the message with the tag `tag` that carries this `Extra`.
    /// The message is always written.
    pub fn to_bytes(&self, tag: u8) -> (r: Result<Vec<u8>, Error>)
        ensures
            r matches Ok(out) && out@ == extra_bytes(tag, *self),
            wrote(r, message(tag, extra_fields(*self))),
    {
        proof {
            lemma_extra_bytes(tag, *self);
        }
        let mut fields: Vec<BoltRef<'static>> = Vec::new();
        fields.push(BoltRef::Dictionary(self.to_map()));
        assert(crate::bolt::structs::values_of(fields@) =~= extra_fields(*self));
        write_message(tag, &fields)
    }
}

} // verus!
