//! What holds of the codec as a whole: values read back as they were
//! written, and the writer wastes no byte.

use crate::errors::{Container, Violation};
use crate::packstream::de::{
    decoded, lemma_decode_bound, lemma_entries_bound, lemma_entry_bound, lemma_field_bound,
    lemma_fields_bound, lemma_items_bound, lemma_skip_skip,
};
use crate::packstream::grammar::{
    decode_entries, decode_entry, decode_field, decode_fields, decode_items, encode_entries,
    encode_items, encode_text, is_dictionary, oversize, oversize_entries, oversize_items,
    spec_decode, spec_encode, well_formed,
};
use crate::packstream::locality::{
    lemma_decode_local, lemma_deferred_is_dictionary, lemma_head_bound, same_start,
};
use crate::packstream::ser::{encoded, lemma_encode_items_concat};
use crate::packstream::value::{field_kind, field_ok, keys_of, Value};
use crate::packstream::wire::{encode_size, encode_struct_head, parse_head, Head};
use crate::packstream::wire_laws::{
    lemma_head_canonical, lemma_head_float, lemma_head_int, lemma_head_size, lemma_head_struct,
};
use vstd::prelude::*;
use vstd::utf8::{
    decode_utf8_encode_utf8, encode_utf8, encode_utf8_decode_utf8, encode_utf8_valid_utf8,
};

verus! {

/// What follows the first `k` bytes of two sequences put together, where the
/// first has `k` bytes, is the second.
pub proof fn lemma_skip_concat(a: Seq<u8>, b: Seq<u8>)
    ensures
        (a + b).skip(a.len() as int) == b,
        (a + b).take(a.len() as int) == a,
        (a + b).subrange(0, a.len() as int) == a,
{
    assert((a + b).skip(a.len() as int) =~= b);
    assert((a + b).take(a.len() as int) =~= a);
}

/// A well-formed value reads back as it was written, whatever follows it,
/// and the strict reading accepts what was written: every header of it is
/// the shortest that holds its content.
pub proof fn lemma_roundtrip(v: Value, rest: Seq<u8>, strict: bool)
    requires
        well_formed(v),
    ensures
        spec_decode(spec_encode(v) + rest, strict) == Ok::<(Value, nat), Violation>(
            (v, spec_encode(v).len()),
        ),
    decreases v, 0nat,
{
    let s = spec_encode(v) + rest;
    match v {
        Value::Null => {
            assert(s[0] == 0xC0u8);
            reveal(parse_head);
        },
        Value::Boolean(b) => {
            assert(s[0] == if b {
                0xC3u8
            } else {
                0xC2u8
            });
            reveal(parse_head);
        },
        Value::Integer(i) => {
            lemma_head_int(i, rest, strict);
        },
        Value::Float(bits) => {
            lemma_head_float(bits, rest, strict);
        },
        Value::Bytes(b) => {
            let head = encode_size(Container::Bytes, b.len());
            assert(s =~= head + (b + rest));
            lemma_head_size(Container::Bytes, b.len(), b + rest, strict);
            let h = head.len() as int;
            assert(s.subrange(h, h + b.len()) =~= b);
        },
        Value::String(text) => {
            lemma_text_roundtrip(text, rest, strict);
        },
        Value::List(items) => {
            let head = encode_size(Container::List, items.len());
            let body = encode_items(items, 0) + rest;
            assert(s =~= head + body);
            lemma_head_size(Container::List, items.len(), body, strict);
            lemma_skip_concat(head, body);
            lemma_items_roundtrip(items, 0, rest, strict);
            assert(items.skip(0) =~= items);
        },
        Value::Dictionary(entries) => {
            let head = encode_size(Container::Dictionary, entries.len());
            let body = encode_entries(entries, 0) + rest;
            assert(s =~= head + body);
            lemma_head_size(Container::Dictionary, entries.len(), body, strict);
            lemma_skip_concat(head, body);
            assert(keys_of(entries).take(0) =~= Seq::<Seq<char>>::empty());
            lemma_entries_roundtrip(entries, 0, rest, strict);
            assert(entries.skip(0) =~= entries);
        },
        Value::Structure { tag, fields } => {
            let head = encode_struct_head(fields.len(), tag);
            let body = encode_items(fields, 0) + rest;
            assert(s =~= head + body);
            assert(fields.len() < 16);
            lemma_head_struct(fields.len(), tag, body, strict);
            lemma_skip_concat(head, body);
            lemma_fields_roundtrip(tag, fields, 0, rest, strict);
            assert(fields.skip(0) =~= fields);
        },
        Value::Deferred(_) => {},
    }
}

/// A string reads back as it was written, whatever follows it.
pub proof fn lemma_text_roundtrip(text: Seq<char>, rest: Seq<u8>, strict: bool)
    requires
        encode_utf8(text).len() <= u32::MAX,
    ensures
        spec_decode(encode_text(text) + rest, strict) == Ok::<(Value, nat), Violation>(
            (Value::String(text), encode_text(text).len()),
        ),
{
    let bytes = encode_utf8(text);
    let head = encode_size(Container::String, bytes.len());
    let s = encode_text(text) + rest;
    assert(s =~= head + (bytes + rest));
    lemma_head_size(Container::String, bytes.len(), bytes + rest, strict);
    let h = head.len() as int;
    assert(s.subrange(h, h + bytes.len()) =~= bytes);
    encode_utf8_valid_utf8(text);
    encode_utf8_decode_utf8(text);
}

/// Items read back as they were written, whatever follows them.
pub proof fn lemma_items_roundtrip(items: Seq<Value>, from: int, rest: Seq<u8>, strict: bool)
    requires
        0 <= from <= items.len(),
        forall|i: int| 0 <= i < items.len() ==> well_formed(#[trigger] items[i]),
    ensures
        decode_items(encode_items(items, from) + rest, (items.len() - from) as nat, strict)
            == Ok::<(Seq<Value>, nat), Violation>(
            (items.skip(from), encode_items(items, from).len()),
        ),
    decreases items, items.len() - from,
{
    if from < items.len() {
        let first = spec_encode(items[from]);
        let tail = encode_items(items, from + 1) + rest;
        let s = encode_items(items, from) + rest;
        assert(s =~= first + tail);
        lemma_roundtrip(items[from], tail, strict);
        lemma_skip_concat(first, tail);
        lemma_items_roundtrip(items, from + 1, rest, strict);
        assert(seq![items[from]] + items.skip(from + 1) =~= items.skip(from));
    } else {
        assert(items.skip(from) =~= Seq::<Value>::empty());
    }
}

/// Entries with unique keys read back as they were written, whatever
/// follows them.
pub proof fn lemma_entries_roundtrip(
    entries: Seq<(Seq<char>, Value)>,
    from: int,
    rest: Seq<u8>,
    strict: bool,
)
    requires
        0 <= from <= entries.len(),
        keys_of(entries).no_duplicates(),
        forall|i: int|
            0 <= i < entries.len() ==> encode_utf8((#[trigger] entries[i]).0).len() <= u32::MAX
                && well_formed(entries[i].1),
    ensures
        decode_entries(
            encode_entries(entries, from) + rest,
            (entries.len() - from) as nat,
            keys_of(entries).take(from),
            strict,
        ) == Ok::<(Seq<(Seq<char>, Value)>, nat), Violation>(
            (entries.skip(from), encode_entries(entries, from).len()),
        ),
    decreases entries, entries.len() - from,
{
    if from < entries.len() {
        let key = entries[from].0;
        let value = entries[from].1;
        let first = encode_text(key);
        let second = spec_encode(value);
        let tail = encode_entries(entries, from + 1) + rest;
        let s = encode_entries(entries, from) + rest;
        assert(s =~= first + (second + tail));
        lemma_text_roundtrip(key, second + tail, strict);
        lemma_skip_concat(first, second + tail);
        lemma_roundtrip(value, tail, strict);
        lemma_skip_concat(second, tail);
        assert(decode_entry(s, strict) == Ok::<(Seq<char>, Value, nat), Violation>(
            (key, value, first.len() + second.len()),
        ));
        let seen = keys_of(entries).take(from);
        assert(!seen.contains(key)) by {
            if seen.contains(key) {
                let j = choose|j: int| 0 <= j < seen.len() && seen[j] == key;
                assert(keys_of(entries)[j] == keys_of(entries)[from]);
            }
        }
        assert(s.skip((first.len() + second.len()) as int) =~= tail);
        assert(seen.push(key) =~= keys_of(entries).take(from + 1));
        lemma_entries_roundtrip(entries, from + 1, rest, strict);
        assert(seq![(key, value)] + entries.skip(from + 1) =~= entries.skip(from));
    } else {
        assert(entries.skip(from) =~= Seq::<(Seq<char>, Value)>::empty());
    }
}

/// The fields of a well-formed structure read back as they were written,
/// whatever follows them.
pub proof fn lemma_fields_roundtrip(
    tag: u8,
    fields: Seq<Value>,
    from: int,
    rest: Seq<u8>,
    strict: bool,
)
    requires
        0 <= from <= fields.len(),
        forall|i: int|
            0 <= i < fields.len() ==> if field_kind(tag, i) is Deferred {
                (#[trigger] fields[i]) matches Value::Deferred(raw) && is_dictionary(raw)
            } else {
                field_ok(field_kind(tag, i), fields[i]) && well_formed(fields[i])
            },
    ensures
        decode_fields(
            encode_items(fields, from) + rest,
            tag,
            from as nat,
            fields.len(),
            strict,
        ) == Ok::<(Seq<Value>, nat), Violation>(
            (fields.skip(from), encode_items(fields, from).len()),
        ),
    decreases fields, fields.len() - from,
{
    if from < fields.len() {
        let field = fields[from];
        let first = spec_encode(field);
        let tail = encode_items(fields, from + 1) + rest;
        let s = encode_items(fields, from) + rest;
        assert(s =~= first + tail);
        if field_kind(tag, from) is Deferred {
            let raw = field->Deferred_0;
            assert(first == raw);
            assert(same_start(raw, s, raw.len())) by {
                assert forall|i: int| 0 <= i < raw.len() implies raw[i] == s[i] by {}
            }
            lemma_decode_local(raw, s, false);
            lemma_skip_concat(first, tail);
            assert(s.take(raw.len() as int) == raw);
        } else {
            lemma_roundtrip(field, tail, strict);
        }
        assert(decode_field(s, field_kind(tag, from), strict) == Ok::<(Value, nat), Violation>(
            (field, first.len()),
        ));
        lemma_skip_concat(first, tail);
        assert(s.skip(first.len() as int) == tail);
        lemma_fields_roundtrip(tag, fields, from + 1, rest, strict);
        assert(seq![field] + fields.skip(from + 1) =~= fields.skip(from));
        assert(encode_items(fields, from).len() == first.len() + encode_items(
            fields,
            from + 1,
        ).len());
    } else {
        assert(fields.skip(from) =~= Seq::<Value>::empty());
    }
}

/// Decoding undoes encoding: a well-formed value that is written and read
/// back is the same value, and the reading takes all the bytes.
pub proof fn lemma_decode_encode(v: Value)
    requires
        well_formed(v),
    ensures
        spec_decode(spec_encode(v), false) == Ok::<(Value, nat), Violation>(
            (v, spec_encode(v).len()),
        ),
{
    lemma_roundtrip(v, Seq::empty(), false);
    assert(spec_encode(v) + Seq::<u8>::empty() =~= spec_encode(v));
}

/// The writer wastes no byte: what it writes for a well-formed value is
/// accepted by the strict reading, which refuses every header that is wider
/// than its content needs.
pub proof fn lemma_encode_minimal(v: Value)
    requires
        well_formed(v),
    ensures
        spec_decode(spec_encode(v), true) == Ok::<(Value, nat), Violation>(
            (v, spec_encode(v).len()),
        ),
{
    lemma_roundtrip(v, Seq::empty(), true);
    assert(spec_encode(v) + Seq::<u8>::empty() =~= spec_encode(v));
}

/// The bytes of items of which the first is given apart.
pub proof fn lemma_encode_items_cons(v: Value, rest: Seq<Value>)
    ensures
        encode_items(seq![v] + rest, 0) == spec_encode(v) + encode_items(rest, 0),
{
    let one = seq![v];
    lemma_encode_items_concat(one, rest, 0);
    assert(one[0] == v);
    assert(encode_items(one, 1) =~= Seq::<u8>::empty());
    assert(encode_items(one, 0) =~= spec_encode(v) + encode_items(one, 1));
    assert(encode_items(one, 0) =~= spec_encode(v));
}

/// The bytes of entries do not depend on entries that stand before them.
pub proof fn lemma_encode_entries_shift(
    a: Seq<(Seq<char>, Value)>,
    b: Seq<(Seq<char>, Value)>,
    from: int,
)
    requires
        0 <= from <= b.len(),
    ensures
        encode_entries(a + b, a.len() + from) == encode_entries(b, from),
    decreases b.len() - from,
{
    if from < b.len() {
        lemma_encode_entries_shift(a, b, from + 1);
        assert((a + b)[a.len() + from] == b[from]);
    }
}

/// The bytes of entries of which the first is given apart.
pub proof fn lemma_encode_entries_cons(key: Seq<char>, v: Value, rest: Seq<(Seq<char>, Value)>)
    ensures
        encode_entries(seq![(key, v)] + rest, 0) == encode_text(key) + spec_encode(v)
            + encode_entries(rest, 0),
{
    let one = seq![(key, v)];
    lemma_encode_entries_shift(one, rest, 0);
    assert((one + rest)[0] == (key, v));
}

/// Bytes that the strict reading accepts are the bytes that the writer
/// writes for the value they stand for; that value is well formed, and the
/// lenient reading gives the same.
pub proof fn lemma_canonical(s: Seq<u8>)
    requires
        spec_decode(s, true) is Ok,
    ensures
        spec_decode(s, false) == spec_decode(s, true),
        spec_encode(spec_decode(s, true)->Ok_0.0) == s.take(spec_decode(s, true)->Ok_0.1 as int),
        well_formed(spec_decode(s, true)->Ok_0.0),
    decreases s.len(), 0nat, 0nat,
{
    let (v, k) = spec_decode(s, true)->Ok_0;
    lemma_decode_bound(s, true);
    lemma_head_bound(s, true);
    lemma_head_canonical(s);
    let (head, h) = parse_head(s, true)->Ok_0;
    let t = s.skip(h as int);
    match head {
        Head::Sized(Container::Bytes, n) => {
            assert(spec_encode(v) =~= s.take(k as int));
        },
        Head::Sized(Container::String, n) => {
            let bytes = s.subrange(h as int, h + n);
            decode_utf8_encode_utf8(bytes);
            assert(spec_encode(v) =~= s.take(k as int));
        },
        Head::Sized(Container::List, n) => {
            lemma_items_canonical(t, n as nat);
            lemma_items_bound(t, n as nat, true);
            let (items, k2) = decode_items(t, n as nat, true)->Ok_0;
            assert(spec_encode(v) =~= s.take(k as int));
        },
        Head::Sized(Container::Dictionary, n) => {
            lemma_entries_canonical(t, n as nat, Seq::empty());
            lemma_entries_bound(t, n as nat, Seq::empty(), true);
            let (entries, k2) = decode_entries(t, n as nat, Seq::empty(), true)->Ok_0;
            assert(spec_encode(v) =~= s.take(k as int));
        },
        Head::Structure(n, tag) => {
            lemma_fields_canonical(t, tag, 0, n as nat);
            lemma_fields_bound(t, tag, 0, n as nat, true);
            let (fields, k2) = decode_fields(t, tag, 0, n as nat, true)->Ok_0;
            assert(spec_encode(v) =~= s.take(k as int));
            assert(well_formed(v));
        },
        _ => {
            assert(spec_encode(v) =~= s.take(k as int));
        },
    }
}

/// Items that the strict reading accepts are written as they were read.
pub proof fn lemma_items_canonical(s: Seq<u8>, n: nat)
    requires
        decode_items(s, n, true) is Ok,
    ensures
        decode_items(s, n, false) == decode_items(s, n, true),
        encode_items(decode_items(s, n, true)->Ok_0.0, 0) == s.take(
            decode_items(s, n, true)->Ok_0.1 as int,
        ),
        forall|i: int|
            0 <= i < decode_items(s, n, true)->Ok_0.0.len() ==> well_formed(
                #[trigger] decode_items(s, n, true)->Ok_0.0[i],
            ),
    decreases s.len(), 2nat, n,
{
    let (items, k) = decode_items(s, n, true)->Ok_0;
    if n > 0 {
        lemma_decode_bound(s, true);
        lemma_canonical(s);
        let (v, k1) = spec_decode(s, true)->Ok_0;
        let t = s.skip(k1 as int);
        lemma_items_canonical(t, (n - 1) as nat);
        lemma_items_bound(t, (n - 1) as nat, true);
        let (rest, k2) = decode_items(t, (n - 1) as nat, true)->Ok_0;
        lemma_encode_items_cons(v, rest);
        assert(encode_items(items, 0) =~= s.take(k as int));
        assert forall|i: int| 0 <= i < items.len() implies well_formed(#[trigger] items[i]) by {
            if i > 0 {
                assert(items[i] == rest[i - 1]);
            }
        }
    } else {
        assert(encode_items(items, 0) =~= s.take(k as int));
    }
}

/// Entries that the strict reading accepts are written as they were read,
/// and their keys differ from each other and from the keys in `seen`.
pub proof fn lemma_entries_canonical(s: Seq<u8>, n: nat, seen: Seq<Seq<char>>)
    requires
        decode_entries(s, n, seen, true) is Ok,
    ensures
        decode_entries(s, n, seen, false) == decode_entries(s, n, seen, true),
        encode_entries(decode_entries(s, n, seen, true)->Ok_0.0, 0) == s.take(
            decode_entries(s, n, seen, true)->Ok_0.1 as int,
        ),
        keys_of(decode_entries(s, n, seen, true)->Ok_0.0).no_duplicates(),
        forall|i: int|
            0 <= i < decode_entries(s, n, seen, true)->Ok_0.0.len() ==> {
                let e = #[trigger] decode_entries(s, n, seen, true)->Ok_0.0[i];
                &&& !seen.contains(e.0)
                &&& encode_utf8(e.0).len() <= u32::MAX
                &&& well_formed(e.1)
            },
    decreases s.len(), 2nat, n,
{
    let (entries, k) = decode_entries(s, n, seen, true)->Ok_0;
    if n > 0 {
        lemma_entry_bound(s, true);
        lemma_decode_bound(s, true);
        lemma_canonical(s);
        let (first, k1) = spec_decode(s, true)->Ok_0;
        let key = first->String_0;
        let s2 = s.skip(k1 as int);
        lemma_decode_bound(s2, true);
        lemma_canonical(s2);
        let (v, k2) = spec_decode(s2, true)->Ok_0;
        assert(decode_entry(s, false) == decode_entry(s, true));
        let t = s.skip((k1 + k2) as int);
        let seen2 = seen.push(key);
        lemma_entries_canonical(t, (n - 1) as nat, seen2);
        lemma_entries_bound(t, (n - 1) as nat, seen2, true);
        let (rest, k3) = decode_entries(t, (n - 1) as nat, seen2, true)->Ok_0;
        lemma_encode_entries_cons(key, v, rest);
        lemma_skip_skip(s, k1 as int, k2 as int);
        assert(spec_encode(first) == encode_text(key));
        assert(s2.take(k2 as int) =~= s.subrange(k1 as int, (k1 + k2) as int));
        assert(t.take(k3 as int) =~= s.subrange((k1 + k2) as int, (k1 + k2 + k3) as int));
        assert(encode_entries(entries, 0) =~= s.take(k as int));
        assert forall|i: int| 0 <= i < entries.len() implies {
            let e = #[trigger] entries[i];
            &&& !seen.contains(e.0)
            &&& encode_utf8(e.0).len() <= u32::MAX
            &&& well_formed(e.1)
        } by {
            if i > 0 {
                assert(entries[i] == rest[i - 1]);
                assert(!seen2.contains(rest[i - 1].0));
                if seen.contains(rest[i - 1].0) {
                    let j = choose|j: int| 0 <= j < seen.len() && seen[j] == rest[i - 1].0;
                    assert(seen2[j] == rest[i - 1].0);
                }
            } else {
                assert(well_formed(Value::String(key)));
            }
        }
        assert(keys_of(entries).no_duplicates()) by {
            assert forall|a: int, b: int|
                0 <= a < entries.len() && 0 <= b < entries.len() && a != b implies keys_of(
                entries,
            )[a] != keys_of(entries)[b] by {
                if a > 0 && b > 0 {
                    assert(keys_of(rest)[a - 1] == entries[a].0);
                    assert(keys_of(rest)[b - 1] == entries[b].0);
                } else if a == 0 {
                    assert(entries[b] == rest[b - 1]);
                    assert(!seen2.contains(rest[b - 1].0));
                    assert(seen2[seen.len() as int] == key);
                } else {
                    assert(entries[a] == rest[a - 1]);
                    assert(!seen2.contains(rest[a - 1].0));
                    assert(seen2[seen.len() as int] == key);
                }
            }
        }
    } else {
        assert(encode_entries(entries, 0) =~= s.take(k as int));
    }
}

/// Fields that the strict reading accepts are written as they were read, and
/// each fits its place in the structure.
pub proof fn lemma_fields_canonical(s: Seq<u8>, tag: u8, i: nat, n: nat)
    requires
        decode_fields(s, tag, i, n, true) is Ok,
        i <= n,
    ensures
        decode_fields(s, tag, i, n, false) == decode_fields(s, tag, i, n, true),
        encode_items(decode_fields(s, tag, i, n, true)->Ok_0.0, 0) == s.take(
            decode_fields(s, tag, i, n, true)->Ok_0.1 as int,
        ),
        decode_fields(s, tag, i, n, true)->Ok_0.0.len() == n - i,
        forall|j: int|
            0 <= j < n - i ==> {
                let f = #[trigger] decode_fields(s, tag, i, n, true)->Ok_0.0[j];
                if field_kind(tag, i + j) is Deferred {
                    f matches Value::Deferred(raw) && is_dictionary(raw)
                } else {
                    field_ok(field_kind(tag, i + j), f) && well_formed(f)
                }
            },
    decreases s.len(), 2nat, n - i,
{
    let (fields, k) = decode_fields(s, tag, i, n, true)->Ok_0;
    if i < n {
        let kind = field_kind(tag, i as int);
        lemma_field_bound(s, kind, true);
        let (v, k1) = decode_field(s, kind, true)->Ok_0;
        if kind is Deferred {
            lemma_deferred_is_dictionary(s);
            assert(spec_encode(v) == s.take(k1 as int));
        } else {
            lemma_canonical(s);
        }
        assert(decode_field(s, kind, false) == decode_field(s, kind, true));
        let t = s.skip(k1 as int);
        lemma_fields_canonical(t, tag, i + 1, n);
        lemma_fields_bound(t, tag, i + 1, n, true);
        let (rest, k2) = decode_fields(t, tag, i + 1, n, true)->Ok_0;
        lemma_encode_items_cons(v, rest);
        assert(t.take(k2 as int) =~= s.subrange(k1 as int, (k1 + k2) as int));
        assert(encode_items(fields, 0) =~= s.take(k as int));
        assert forall|j: int| 0 <= j < n - i implies {
            let f = #[trigger] fields[j];
            if field_kind(tag, i + j) is Deferred {
                f matches Value::Deferred(raw) && is_dictionary(raw)
            } else {
                field_ok(field_kind(tag, i + j), f) && well_formed(f)
            }
        } by {
            if j > 0 {
                assert(fields[j] == rest[j - 1]);
            }
        }
    } else {
        assert(encode_items(fields, 0) =~= s.take(k as int));
    }
}

/// A well-formed value has no container that is too long, so that the
/// writer never refuses it and writes its bytes.
pub proof fn lemma_well_formed_fits(v: Value)
    requires
        well_formed(v),
    ensures
        oversize(v) is None,
        encoded(v) == Ok::<Seq<u8>, Container>(spec_encode(v)),
    decreases v, 0nat,
{
    match v {
        Value::List(items) => {
            lemma_items_fit(items, 0);
        },
        Value::Dictionary(entries) => {
            lemma_entries_fit(entries, 0);
        },
        Value::Structure { tag, fields } => {
            lemma_items_fit(fields, 0);
        },
        _ => {},
    }
}

/// Items that are well formed, or left undecoded, hold no container that is
/// too long.
pub proof fn lemma_items_fit(items: Seq<Value>, from: int)
    requires
        0 <= from <= items.len(),
        forall|i: int|
            0 <= i < items.len() ==> (#[trigger] items[i]) is Deferred || well_formed(items[i]),
    ensures
        oversize_items(items, from) is None,
    decreases items, items.len() - from,
{
    if from < items.len() {
        if !(items[from] is Deferred) {
            lemma_well_formed_fits(items[from]);
        }
        lemma_items_fit(items, from + 1);
    }
}

/// Entries with keys of a length that fits, and with well-formed values,
/// hold no container that is too long.
pub proof fn lemma_entries_fit(entries: Seq<(Seq<char>, Value)>, from: int)
    requires
        0 <= from <= entries.len(),
        forall|i: int|
            0 <= i < entries.len() ==> encode_utf8((#[trigger] entries[i]).0).len() <= u32::MAX
                && well_formed(entries[i].1),
    ensures
        oversize_entries(entries, from) is None,
    decreases entries, entries.len() - from,
{
    if from < entries.len() {
        lemma_well_formed_fits(entries[from].1);
        lemma_entries_fit(entries, from + 1);
    }
}

/// Encoding undoes decoding, where the bytes used the shortest headers:
/// bytes that decode to a value, all of them, and that the strict reading
/// accepts, are the bytes that the writer writes for that value, and the
/// writer does not refuse it.
pub proof fn lemma_encode_decode(b: Seq<u8>, v: Value)
    requires
        spec_decode(b, false) == Ok::<(Value, nat), Violation>((v, b.len())),
        spec_decode(b, true) is Ok,
    ensures
        spec_encode(v) == b,
        well_formed(v),
        encoded(v) == Ok::<Seq<u8>, Container>(b),
{
    lemma_canonical(b);
    assert(b.take(b.len() as int) =~= b);
    lemma_well_formed_fits(v);
}

/// What `encode` writes for a value, `decode` reads back as that value:
/// the bytes of a well-formed value are one value and nothing more.
pub proof fn lemma_decoded_encoded(v: Value)
    requires
        well_formed(v),
    ensures
        decoded(spec_encode(v)) == Ok::<Value, Violation>(v),
{
    lemma_decode_encode(v);
}

} // verus!
