//! The grammar: which bytes a value is written as, and which value a byte
//! sequence stands for.

use crate::errors::{Container, Violation};
use crate::packstream::value::{
    count_ok, field_kind, field_ok, keys_of, known_tag, path_ok, FieldKind, Value, TAG_PATH,
};
use crate::packstream::wire::{
    encode_float, encode_int, encode_size, encode_struct_head, parse_head, Head,
};
use vstd::prelude::*;
use vstd::utf8::{decode_utf8, encode_utf8, valid_utf8};

verus! {

/// The bytes of a string: the header with the length of its UTF-8 form, then
/// that form.
pub open spec fn encode_text(s: Seq<char>) -> Seq<u8> {
    encode_size(Container::String, encode_utf8(s).len()) + encode_utf8(s)
}

/// The bytes of a value. Every header is the shortest that holds its content;
/// deferred properties are written as they were received.
pub open spec fn spec_encode(v: Value) -> Seq<u8>
    decreases v, 0nat,
{
    match v {
        Value::Null => seq![0xC0u8],
        Value::Boolean(b) => if b {
            seq![0xC3u8]
        } else {
            seq![0xC2u8]
        },
        Value::Integer(i) => encode_int(i),
        Value::Float(bits) => encode_float(bits),
        Value::Bytes(b) => encode_size(Container::Bytes, b.len()) + b,
        Value::String(s) => encode_text(s),
        Value::List(items) => encode_size(Container::List, items.len()) + encode_items(items, 0),
        Value::Dictionary(entries) => encode_size(Container::Dictionary, entries.len())
            + encode_entries(entries, 0),
        Value::Structure { tag, fields } => encode_struct_head(fields.len(), tag) + encode_items(
            fields,
            0,
        ),
        Value::Deferred(raw) => raw,
    }
}

/// The bytes of the items of `items` from index `from` on, one after another.
pub open spec fn encode_items(items: Seq<Value>, from: int) -> Seq<u8>
    decreases items, items.len() - from,
{
    if 0 <= from < items.len() {
        spec_encode(items[from]) + encode_items(items, from + 1)
    } else {
        Seq::empty()
    }
}

/// The bytes of the entries of `entries` from index `from` on: each key as a
/// string, followed by its value.
pub open spec fn encode_entries(entries: Seq<(Seq<char>, Value)>, from: int) -> Seq<u8>
    decreases entries, entries.len() - from,
{
    if 0 <= from < entries.len() {
        encode_text(entries[from].0) + spec_encode(entries[from].1) + encode_entries(
            entries,
            from + 1,
        )
    } else {
        Seq::empty()
    }
}

/// The value at the start of `s`, and the number of bytes it takes.
///
/// Any valid marker width is accepted, and an integer written wider than it
/// needs stands for its number. With `strict`, only the shortest headers are
/// accepted (inside deferred properties any width still is).
///
/// Here and in the definitions below, a count of bytes taken is compared
/// with the length of `s` before the rest of `s` is looked at. The
/// comparison never fails, as the lemmas on bounds in the decoder's module
/// show; it stands there so that the definitions are seen to terminate.
pub open spec fn spec_decode(s: Seq<u8>, strict: bool) -> Result<(Value, nat), Violation>
    decreases s.len(), 0nat, 0nat,
{
    match parse_head(s, strict) {
        Err(e) => Err(e),
        Ok((head, h)) => {
            if !(1 <= h <= s.len()) {
                Err(Violation::UnexpectedEnd)
            } else {
                match head {
                    Head::Null => Ok((Value::Null, h)),
                    Head::Boolean(b) => Ok((Value::Boolean(b), h)),
                    Head::Integer(i) => Ok((Value::Integer(i), h)),
                    Head::Float(bits) => Ok((Value::Float(bits), h)),
                    Head::Sized(Container::Bytes, n) => {
                        if s.len() < h + n {
                            Err(Violation::UnexpectedEnd)
                        } else {
                            Ok((Value::Bytes(s.subrange(h as int, h + n)), (h + n) as nat))
                        }
                    },
                    Head::Sized(Container::String, n) => {
                        if s.len() < h + n {
                            Err(Violation::UnexpectedEnd)
                        } else if !valid_utf8(s.subrange(h as int, h + n)) {
                            Err(Violation::InvalidUtf8)
                        } else {
                            Ok(
                                (
                                    Value::String(decode_utf8(s.subrange(h as int, h + n))),
                                    (h + n) as nat,
                                ),
                            )
                        }
                    },
                    Head::Sized(Container::List, n) => {
                        match decode_items(s.skip(h as int), n as nat, strict) {
                            Err(e) => Err(e),
                            Ok((items, k)) => Ok((Value::List(items), h + k)),
                        }
                    },
                    Head::Sized(Container::Dictionary, n) => {
                        match decode_entries(s.skip(h as int), n as nat, Seq::empty(), strict) {
                            Err(e) => Err(e),
                            Ok((entries, k)) => Ok((Value::Dictionary(entries), h + k)),
                        }
                    },
                    Head::Structure(n, tag) => {
                        if !known_tag(tag) {
                            Err(Violation::UnexpectedTag)
                        } else if !count_ok(tag, n as nat) {
                            Err(Violation::FieldCount)
                        } else {
                            match decode_fields(s.skip(h as int), tag, 0, n as nat, strict) {
                                Err(e) => Err(e),
                                Ok((fields, k)) => {
                                    if tag == TAG_PATH && !path_ok(fields) {
                                        Err(Violation::InvalidField)
                                    } else {
                                        Ok((Value::Structure { tag, fields }, h + k))
                                    }
                                },
                            }
                        }
                    },
                }
            }
        },
    }
}

/// The `n` values at the start of `s`, and the number of bytes they take.
pub open spec fn decode_items(s: Seq<u8>, n: nat, strict: bool) -> Result<
    (Seq<Value>, nat),
    Violation,
>
    decreases s.len(), 2nat, n,
{
    if n == 0 {
        Ok((Seq::empty(), 0))
    } else {
        match spec_decode(s, strict) {
            Err(e) => Err(e),
            Ok((v, k)) => {
                if k > s.len() {
                    Err(Violation::UnexpectedEnd)
                } else {
                    match decode_items(s.skip(k as int), (n - 1) as nat, strict) {
                        Err(e) => Err(e),
                        Ok((rest, k2)) => Ok((seq![v] + rest, k + k2)),
                    }
                }
            },
        }
    }
}

/// The dictionary entry at the start of `s`: a key, which must be a string,
/// and a value; and the number of bytes that the two take.
pub open spec fn decode_entry(s: Seq<u8>, strict: bool) -> Result<
    (Seq<char>, Value, nat),
    Violation,
>
    decreases s.len(), 1nat, 0nat,
{
    match spec_decode(s, strict) {
        Err(e) => Err(e),
        Ok((Value::String(key), k1)) => {
            if !(1 <= k1 <= s.len()) {
                Err(Violation::UnexpectedEnd)
            } else {
                match spec_decode(s.skip(k1 as int), strict) {
                    Err(e) => Err(e),
                    Ok((v, k2)) => Ok((key, v, k1 + k2)),
                }
            }
        },
        Ok(_) => Err(Violation::UnexpectedMarker),
    }
}

/// The `n` dictionary entries at the start of `s`, and the number of bytes
/// they take. A key must differ from the keys in `seen` and from the keys
/// before it.
pub open spec fn decode_entries(
    s: Seq<u8>,
    n: nat,
    seen: Seq<Seq<char>>,
    strict: bool,
) -> Result<(Seq<(Seq<char>, Value)>, nat), Violation>
    decreases s.len(), 2nat, n,
{
    if n == 0 {
        Ok((Seq::empty(), 0))
    } else {
        match decode_entry(s, strict) {
            Err(e) => Err(e),
            Ok((key, v, k)) => {
                if seen.contains(key) {
                    Err(Violation::DuplicateKey)
                } else if k > s.len() {
                    Err(Violation::UnexpectedEnd)
                } else {
                    match decode_entries(s.skip(k as int), (n - 1) as nat, seen.push(key), strict) {
                        Err(e) => Err(e),
                        Ok((rest, k2)) => Ok((seq![(key, v)] + rest, k + k2)),
                    }
                }
            },
        }
    }
}

/// The field of the given kind at the start of `s`. Deferred properties must
/// be a dictionary; they are checked in full and kept as bytes.
pub open spec fn decode_field(s: Seq<u8>, kind: FieldKind, strict: bool) -> Result<
    (Value, nat),
    Violation,
>
    decreases s.len(), 1nat, 0nat,
{
    if kind is Deferred {
        match spec_decode(s, false) {
            Err(e) => Err(e),
            Ok((v, k)) => {
                if v is Dictionary {
                    Ok((Value::Deferred(s.take(k as int)), k))
                } else {
                    Err(Violation::InvalidField)
                }
            },
        }
    } else {
        match spec_decode(s, strict) {
            Err(e) => Err(e),
            Ok((v, k)) => {
                if field_ok(kind, v) {
                    Ok((v, k))
                } else {
                    Err(Violation::InvalidField)
                }
            },
        }
    }
}

/// The fields `i` to `n` of a structure with the tag `tag`.
pub open spec fn decode_fields(s: Seq<u8>, tag: u8, i: nat, n: nat, strict: bool) -> Result<
    (Seq<Value>, nat),
    Violation,
>
    decreases s.len(), 2nat, n - i,
{
    if i >= n {
        Ok((Seq::empty(), 0))
    } else {
        match decode_field(s, field_kind(tag, i as int), strict) {
            Err(e) => Err(e),
            Ok((v, k)) => {
                if k > s.len() {
                    Err(Violation::UnexpectedEnd)
                } else {
                    match decode_fields(s.skip(k as int), tag, i + 1, n, strict) {
                        Err(e) => Err(e),
                        Ok((rest, k2)) => Ok((seq![v] + rest, k + k2)),
                    }
                }
            },
        }
    }
}

/// Whether `raw` is the encoding of one dictionary, whole and nothing more.
pub open spec fn is_dictionary(raw: Seq<u8>) -> bool {
    spec_decode(raw, false) matches Ok((Value::Dictionary(_), k)) && k == raw.len()
}

/// The entries of the dictionary that `raw` encodes; empty where it encodes none.
pub open spec fn entries_of(raw: Seq<u8>) -> Seq<(Seq<char>, Value)> {
    match spec_decode(raw, false) {
        Ok((Value::Dictionary(entries), _)) => entries,
        _ => Seq::empty(),
    }
}

/// Whether a value can be written and read back: every length fits 32 bits,
/// dictionary keys are unique, and each structure fits its tag.
pub open spec fn well_formed(v: Value) -> bool
    decreases v,
{
    match v {
        Value::Null | Value::Boolean(_) | Value::Integer(_) | Value::Float(_) => true,
        Value::Bytes(b) => b.len() <= u32::MAX,
        Value::String(s) => encode_utf8(s).len() <= u32::MAX,
        Value::List(items) => {
            &&& items.len() <= u32::MAX
            &&& forall|i: int| 0 <= i < items.len() ==> well_formed(#[trigger] items[i])
        },
        Value::Dictionary(entries) => {
            &&& entries.len() <= u32::MAX
            &&& keys_of(entries).no_duplicates()
            &&& forall|i: int|
                0 <= i < entries.len() ==> encode_utf8((#[trigger] entries[i]).0).len()
                    <= u32::MAX && well_formed(entries[i].1)
        },
        Value::Structure { tag, fields } => {
            &&& known_tag(tag)
            &&& count_ok(tag, fields.len())
            &&& forall|i: int|
                0 <= i < fields.len() ==> if field_kind(tag, i) is Deferred {
                    (#[trigger] fields[i]) matches Value::Deferred(raw) && is_dictionary(raw)
                } else {
                    field_ok(field_kind(tag, i), fields[i]) && well_formed(fields[i])
                }
            &&& tag == TAG_PATH ==> path_ok(fields)
        },
        Value::Deferred(_) => false,
    }
}

/// The first container, in the order of writing, that is too long for a
/// 32-bit length; `None` where every length fits.
pub open spec fn oversize(v: Value) -> Option<Container>
    decreases v, 0nat,
{
    match v {
        Value::Bytes(b) => if b.len() > u32::MAX {
            Some(Container::Bytes)
        } else {
            None
        },
        Value::String(s) => if encode_utf8(s).len() > u32::MAX {
            Some(Container::String)
        } else {
            None
        },
        Value::List(items) => if items.len() > u32::MAX {
            Some(Container::List)
        } else {
            oversize_items(items, 0)
        },
        Value::Dictionary(entries) => if entries.len() > u32::MAX {
            Some(Container::Dictionary)
        } else {
            oversize_entries(entries, 0)
        },
        Value::Structure { tag, fields } => oversize_items(fields, 0),
        _ => None,
    }
}

/// The first oversize container among the items from index `from` on.
pub open spec fn oversize_items(items: Seq<Value>, from: int) -> Option<Container>
    decreases items, items.len() - from,
{
    if 0 <= from < items.len() {
        match oversize(items[from]) {
            Some(c) => Some(c),
            None => oversize_items(items, from + 1),
        }
    } else {
        None
    }
}

/// The first oversize container among the entries from index `from` on.
pub open spec fn oversize_entries(entries: Seq<(Seq<char>, Value)>, from: int) -> Option<
    Container,
>
    decreases entries, entries.len() - from,
{
    if 0 <= from < entries.len() {
        if encode_utf8(entries[from].0).len() > u32::MAX {
            Some(Container::String)
        } else {
            match oversize(entries[from].1) {
                Some(c) => Some(c),
                None => oversize_entries(entries, from + 1),
            }
        }
    } else {
        None
    }
}

} // verus!
