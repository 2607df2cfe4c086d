//! The encoder: from a value to its bytes.

use crate::bolt::structs::node::{optional_text, text_values};
use crate::bolt::structs::path::{int_values, node_values, relationship_values};
use crate::bolt::structs::rel::optional_ids;
use crate::bolt::structs::{
    entry_keys, values_of, BoltRef, Date, DateTime, DateTimeZoneIdRef, Duration, LegacyDateTime,
    LegacyDateTimeZoneIdRef, LocalDateTime, LocalTime, NodeRef, PathRef, Point2D, Point3D,
    Relationship, Time, UnboundRelationship,
};
use crate::errors::{Container, Error};
use crate::packstream::grammar::{
    encode_entries, encode_items, encode_text, oversize_entries, is_dictionary, oversize,
    oversize_items, spec_encode, well_formed,
};
use crate::packstream::raw::{as_slice, contents};
use crate::packstream::value::{
    all_int, all_tagged, all_text, count_ok, field_kind, field_ok, ints_of, keys_of, known_tag,
    path_ok, Value, TAG_DATE, TAG_DATE_TIME, TAG_DATE_TIME_ZONE_ID, TAG_DURATION,
    TAG_LEGACY_DATE_TIME, TAG_LEGACY_DATE_TIME_ZONE_ID, TAG_LOCAL_DATE_TIME, TAG_LOCAL_TIME,
    TAG_NODE, TAG_PATH, TAG_POINT_2D, TAG_POINT_3D, TAG_RELATIONSHIP, TAG_TIME,
    TAG_UNBOUND_RELATIONSHIP,
};
use crate::packstream::wire::{
    encode_float, encode_int, encode_size, encode_struct_head, write_float, write_int,
    write_size, write_struct_head,
};
use vstd::prelude::*;

verus! {

/// Whether a value can stand as an item or a field: it is well formed, or it
/// is the bytes of a dictionary that was left undecoded.
pub open spec fn sound(v: Value) -> bool {
    match v {
        Value::Deferred(raw) => is_dictionary(raw),
        _ => well_formed(v),
    }
}

/// What a write leaves behind: on success `after` is `before` with the bytes
/// of `v` appended, and `v` is sound; it fails exactly where a container of
/// `v` is too long, and names the first such container.
pub open spec fn written(
    before: Seq<u8>,
    after: Seq<u8>,
    v: Value,
    r: Result<(), Container>,
) -> bool {
    match oversize(v) {
        Some(c) => r == Err::<(), Container>(c),
        None => r is Ok && after == before + spec_encode(v) && sound(v),
    }
}

/// What a write of several values leaves behind, in the same sense.
pub open spec fn written_items(
    before: Seq<u8>,
    after: Seq<u8>,
    items: Seq<Value>,
    r: Result<(), Container>,
) -> bool {
    match oversize_items(items, 0) {
        Some(c) => r == Err::<(), Container>(c),
        None => {
            &&& r is Ok
            &&& after == before + encode_items(items, 0)
            &&& forall|i: int| 0 <= i < items.len() ==> sound(#[trigger] items[i])
        },
    }
}

/// Whether the fields of a structure fit its tag.
pub open spec fn fields_fit(tag: u8, fields: Seq<Value>) -> bool {
    &&& known_tag(tag)
    &&& count_ok(tag, fields.len())
    &&& forall|i: int|
        0 <= i < fields.len() ==> if field_kind(tag, i) is Deferred {
            (#[trigger] fields[i]) is Deferred
        } else {
            field_ok(field_kind(tag, i), fields[i])
        }
    &&& tag == TAG_PATH ==> path_ok(fields)
}

/// The bytes of a sequence of values that is given in two parts.
pub proof fn lemma_encode_items_concat(a: Seq<Value>, b: Seq<Value>, from: int)
    requires
        0 <= from <= a.len(),
    ensures
        encode_items(a + b, from) == encode_items(a, from) + encode_items(b, 0),
    decreases a.len() - from,
{
    if from < a.len() {
        lemma_encode_items_concat(a, b, from + 1);
        assert((a + b)[from] == a[from]);
        assert(encode_items(a + b, from) =~= encode_items(a, from) + encode_items(b, 0));
    } else {
        lemma_encode_items_shift(a, b, 0);
        assert(encode_items(a, from) =~= Seq::<u8>::empty());
        assert(encode_items(a + b, from) =~= encode_items(a, from) + encode_items(b, 0));
    }
}

/// The bytes of the second part of a sequence of values do not depend on the
/// first part.
pub proof fn lemma_encode_items_shift(a: Seq<Value>, b: Seq<Value>, from: int)
    requires
        0 <= from <= b.len(),
    ensures
        encode_items(a + b, a.len() + from) == encode_items(b, from),
    decreases b.len() - from,
{
    if from < b.len() {
        lemma_encode_items_shift(a, b, from + 1);
        assert((a + b)[a.len() + from] == b[from]);
    }
}

/// The first oversize container of a sequence of values that is given in two
/// parts.
pub proof fn lemma_oversize_items_concat(a: Seq<Value>, b: Seq<Value>, from: int)
    requires
        0 <= from <= a.len(),
    ensures
        oversize_items(a + b, from) == match oversize_items(a, from) {
            Some(c) => Some(c),
            None => oversize_items(b, 0),
        },
    decreases a.len() - from,
{
    if from < a.len() {
        lemma_oversize_items_concat(a, b, from + 1);
        assert((a + b)[from] == a[from]);
    } else {
        lemma_oversize_items_shift(a, b, 0);
    }
}

/// The first oversize container of the second part of a sequence of values
/// does not depend on the first part.
pub proof fn lemma_oversize_items_shift(a: Seq<Value>, b: Seq<Value>, from: int)
    requires
        0 <= from <= b.len(),
    ensures
        oversize_items(a + b, a.len() + from) == oversize_items(b, from),
    decreases b.len() - from,
{
    if from < b.len() {
        lemma_oversize_items_shift(a, b, from + 1);
        assert((a + b)[a.len() + from] == b[from]);
    }
}

/// Nothing written is a write of no values.
pub proof fn lemma_items_none(start: Seq<u8>)
    ensures
        written_items(start, start, Seq::<Value>::empty(), Ok(())),
{
    assert(oversize_items(Seq::<Value>::empty(), 0) is None);
    assert(encode_items(Seq::<Value>::empty(), 0) =~= Seq::<u8>::empty());
    assert(start =~= start + encode_items(Seq::<Value>::empty(), 0));
}

/// A write of some values followed by a write of more is a write of all.
pub proof fn lemma_items_more(
    start: Seq<u8>,
    before: Seq<u8>,
    after: Seq<u8>,
    done: Seq<Value>,
    more: Seq<Value>,
    r: Result<(), Container>,
)
    requires
        written_items(start, before, done, Ok(())),
        written_items(before, after, more, r),
    ensures
        written_items(start, after, done + more, r),
{
    lemma_encode_items_concat(done, more, 0);
    lemma_oversize_items_concat(done, more, 0);
    if oversize_items(more, 0) is None {
        assert(after =~= start + encode_items(done + more, 0));
        assert forall|i: int| 0 <= i < (done + more).len() implies sound(
            #[trigger] (done + more)[i],
        ) by {
            if i < done.len() {
                assert((done + more)[i] == done[i]);
            } else {
                assert((done + more)[i] == more[i - done.len()]);
            }
        }
    }
}

/// A write of one value is a write of the sequence of that value.
pub proof fn lemma_items_one(before: Seq<u8>, after: Seq<u8>, v: Value, r: Result<(), Container>)
    requires
        written(before, after, v, r),
    ensures
        written_items(before, after, seq![v], r),
{
    let items = seq![v];
    assert(items[0] == v);
    assert(encode_items(items, 1) =~= Seq::<u8>::empty());
    assert(encode_items(items, 0) =~= spec_encode(v) + encode_items(items, 1));
    assert(encode_items(items, 0) =~= spec_encode(v));
    assert(oversize_items(items, 1) is None);
    assert(oversize_items(items, 0) == match oversize(v) {
        Some(c) => Some(c),
        None => oversize_items(items, 1),
    });
}

/// A write of some values followed by a write of one more is a write of all.
pub proof fn lemma_items_push(
    start: Seq<u8>,
    before: Seq<u8>,
    after: Seq<u8>,
    done: Seq<Value>,
    v: Value,
    r: Result<(), Container>,
)
    requires
        written_items(start, before, done, Ok(())),
        written(before, after, v, r),
    ensures
        written_items(start, after, done.push(v), r),
{
    lemma_items_one(before, after, v, r);
    lemma_items_more(start, before, after, done, seq![v], r);
    assert(done.push(v) =~= done + seq![v]);
}

/// A header followed by a write of fields that fit the tag is a write of the
/// structure.
pub proof fn lemma_structure_written(
    before: Seq<u8>,
    start: Seq<u8>,
    after: Seq<u8>,
    tag: u8,
    fields: Seq<Value>,
    r: Result<(), Container>,
)
    requires
        start == before + encode_struct_head(fields.len(), tag),
        written_items(start, after, fields, r),
        fields_fit(tag, fields),
    ensures
        written(before, after, Value::Structure { tag, fields }, r),
{
    let v = Value::Structure { tag, fields };
    assert(oversize(v) == oversize_items(fields, 0));
    if oversize_items(fields, 0) is None {
        assert(spec_encode(v) == encode_struct_head(fields.len(), tag) + encode_items(fields, 0));
        assert(after =~= before + spec_encode(v));
        assert forall|i: int| 0 <= i < fields.len() implies if field_kind(tag, i) is Deferred {
            (#[trigger] fields[i]) matches Value::Deferred(raw) && is_dictionary(raw)
        } else {
            field_ok(field_kind(tag, i), fields[i]) && well_formed(fields[i])
        } by {
            assert(sound(fields[i]));
        }
        assert(well_formed(v));
    }
}

/// A header followed by a write of items, none of them deferred, is a write
/// of the list.
pub proof fn lemma_list_written(
    before: Seq<u8>,
    start: Seq<u8>,
    after: Seq<u8>,
    items: Seq<Value>,
    r: Result<(), Container>,
)
    requires
        items.len() <= u32::MAX,
        start == before + encode_size(Container::List, items.len()),
        written_items(start, after, items, r),
        forall|i: int| 0 <= i < items.len() ==> !((#[trigger] items[i]) is Deferred),
    ensures
        written(before, after, Value::List(items), r),
{
    let v = Value::List(items);
    assert(oversize(v) == oversize_items(items, 0));
    if oversize_items(items, 0) is None {
        assert(after =~= before + spec_encode(v));
        assert forall|i: int| 0 <= i < items.len() implies well_formed(#[trigger] items[i]) by {
            assert(sound(items[i]));
        }
        assert(well_formed(v));
    }
}

/// A write of an integer always succeeds.
pub proof fn lemma_int_written(before: Seq<u8>, after: Seq<u8>, i: i64)
    requires
        after == before + encode_int(i),
    ensures
        written(before, after, Value::Integer(i), Ok(())),
{
    assert(oversize(Value::Integer(i)) is None);
    assert(spec_encode(Value::Integer(i)) == encode_int(i));
    assert(well_formed(Value::Integer(i)));
}

/// A write of a double always succeeds.
pub proof fn lemma_float_written(before: Seq<u8>, after: Seq<u8>, bits: u64)
    requires
        after == before + encode_float(bits),
    ensures
        written(before, after, Value::Float(bits), Ok(())),
{
    assert(oversize(Value::Float(bits)) is None);
    assert(spec_encode(Value::Float(bits)) == encode_float(bits));
    assert(well_formed(Value::Float(bits)));
}

/// Deferred properties are written as they are.
pub proof fn lemma_deferred_written(before: Seq<u8>, after: Seq<u8>, raw: Seq<u8>)
    requires
        after == before + raw,
        is_dictionary(raw),
    ensures
        written(before, after, Value::Deferred(raw), Ok(())),
{
    assert(oversize(Value::Deferred(raw)) is None);
    assert(spec_encode(Value::Deferred(raw)) == raw);
}

/// Appends `data` to `out`.
pub(crate) fn append(out: &mut Vec<u8>, data: &[u8])
    ensures
        final(out)@ == old(out)@ + data@,
{
    out.extend_from_slice(data);
    assert(out@ =~= old(out)@ + data@);
}

/// Appends an integer.
pub(crate) fn put_int(out: &mut Vec<u8>, i: i64) -> (r: Result<(), Container>)
    ensures
        r is Ok,
        written(old(out)@, final(out)@, Value::Integer(i), r),
{
    write_int(out, i);
    proof {
        lemma_int_written(old(out)@, out@, i);
    }
    Ok(())
}

/// Appends a double, given by its bit pattern.
pub(crate) fn put_float(out: &mut Vec<u8>, bits: u64) -> (r: Result<(), Container>)
    ensures
        r is Ok,
        written(old(out)@, final(out)@, Value::Float(bits), r),
{
    write_float(out, bits);
    proof {
        lemma_float_written(old(out)@, out@, bits);
    }
    Ok(())
}

/// Appends deferred properties.
pub(crate) fn put_deferred(out: &mut Vec<u8>, raw: &bytes::Bytes) -> (r: Result<(), Container>)
    requires
        is_dictionary(contents(*raw)),
    ensures
        r is Ok,
        written(old(out)@, final(out)@, Value::Deferred(contents(*raw)), r),
{
    append(out, as_slice(raw));
    proof {
        lemma_deferred_written(old(out)@, out@, contents(*raw));
    }
    Ok(())
}

/// Appends a byte string with its header.
pub(crate) fn put_bytes(out: &mut Vec<u8>, data: &[u8]) -> (r: Result<(), Container>)
    ensures
        written(old(out)@, final(out)@, Value::Bytes(data@), r),
{
    let n: usize = data.len();
    assert(oversize(Value::Bytes(data@)) == if data@.len() > u32::MAX {
        Some(Container::Bytes)
    } else {
        None
    });
    if n > u32::MAX as usize {
        return Err(Container::Bytes);
    }
    write_size(out, Container::Bytes, n as u32);
    append(out, data);
    assert(out@ =~= old(out)@ + spec_encode(Value::Bytes(data@)));
    assert(well_formed(Value::Bytes(data@)));
    Ok(())
}

/// Appends a string with its header.
pub(crate) fn put_text(out: &mut Vec<u8>, s: &str) -> (r: Result<(), Container>)
    ensures
        written(old(out)@, final(out)@, Value::String(s@), r),
{
    let data: &[u8] = s.as_bytes();
    let n: usize = data.len();
    assert(oversize(Value::String(s@)) == if data@.len() > u32::MAX {
        Some(Container::String)
    } else {
        None
    });
    if n > u32::MAX as usize {
        return Err(Container::String);
    }
    write_size(out, Container::String, n as u32);
    append(out, data);
    assert(out@ =~= old(out)@ + encode_text(s@));
    assert(spec_encode(Value::String(s@)) == encode_text(s@));
    assert(well_formed(Value::String(s@)));
    Ok(())
}

/// Appends a list of strings.
pub(crate) fn put_texts(out: &mut Vec<u8>, items: &Vec<&str>) -> (r: Result<(), Container>)
    ensures
        written(old(out)@, final(out)@, Value::List(text_values(items@)), r),
        all_text(text_values(items@)),
{
    let n: usize = items.len();
    let ghost values = text_values(items@);
    assert(oversize(Value::List(values)) == if values.len() > u32::MAX {
        Some(Container::List)
    } else {
        oversize_items(values, 0)
    });
    if n > u32::MAX as usize {
        return Err(Container::List);
    }
    write_size(out, Container::List, n as u32);
    let ghost start = out@;
    proof {
        lemma_items_none(start);
    }
    let mut i: usize = 0;
    while i < n
        invariant
            n == items@.len(),
            values == text_values(items@),
            i <= n,
            written_items(start, out@, values.take(i as int), Ok(())),
            oversize(Value::List(values)) == oversize_items(values, 0),
        decreases n - i,
    {
        let ghost before = out@;
        let r = put_text(out, items[i]);
        proof {
            assert(values[i as int] == Value::String(items@[i as int]@));
            lemma_items_push(start, before, out@, values.take(i as int), values[i as int], r);
            assert(values.take(i + 1) =~= values.take(i as int).push(values[i as int]));
            lemma_prefix_oversize(values, i + 1);
        }
        if r.is_err() {
            return r;
        }
        i += 1;
    }
    proof {
        assert(values.take(n as int) =~= values);
        lemma_list_written(old(out)@, start, out@, values, Ok(()));
    }
    Ok(())
}

/// Where a value among the first `n` of `items` is oversize, the first
/// oversize container of `items` is the first of those.
pub proof fn lemma_prefix_oversize(items: Seq<Value>, n: int)
    requires
        0 <= n <= items.len(),
    ensures
        oversize_items(items.take(n), 0) is Some ==> oversize_items(items, 0) == oversize_items(
            items.take(n),
            0,
        ),
{
    assert(items =~= items.take(n) + items.skip(n));
    lemma_oversize_items_concat(items.take(n), items.skip(n), 0);
}

/// Appends a list of integers.
pub(crate) fn put_ints(out: &mut Vec<u8>, items: &Vec<i64>) -> (r: Result<(), Container>)
    ensures
        written(old(out)@, final(out)@, Value::List(int_values(items@)), r),
        all_int(int_values(items@)),
{
    let n: usize = items.len();
    let ghost values = int_values(items@);
    assert(oversize(Value::List(values)) == if values.len() > u32::MAX {
        Some(Container::List)
    } else {
        oversize_items(values, 0)
    });
    if n > u32::MAX as usize {
        return Err(Container::List);
    }
    write_size(out, Container::List, n as u32);
    let ghost start = out@;
    proof {
        lemma_items_none(start);
    }
    let mut i: usize = 0;
    while i < n
        invariant
            n == items@.len(),
            values == int_values(items@),
            i <= n,
            written_items(start, out@, values.take(i as int), Ok(())),
        decreases n - i,
    {
        let ghost before = out@;
        let r = put_int(out, items[i]);
        proof {
            assert(values[i as int] == Value::Integer(items@[i as int]));
            lemma_items_push(start, before, out@, values.take(i as int), values[i as int], r);
            assert(values.take(i + 1) =~= values.take(i as int).push(values[i as int]));
        }
        i += 1;
    }
    proof {
        assert(values.take(n as int) =~= values);
        lemma_list_written(old(out)@, start, out@, values, Ok(()));
    }
    Ok(())
}

/// Where the write of a prefix of the fields fails, the structure is oversize
/// in the same container.
pub proof fn lemma_structure_failed(
    before: Seq<u8>,
    tag: u8,
    fields: Seq<Value>,
    r: Result<(), Container>,
)
    requires
        r is Err,
        oversize_items(fields, 0) == Some(r->Err_0),
    ensures
        forall|after: Seq<u8>| written(before, after, Value::Structure { tag, fields }, r),
{
    assert(oversize(Value::Structure { tag, fields }) == oversize_items(fields, 0));
}

/// One more field of a structure is written: the fields up to it are, and
/// where it fails the structure fails in the same way.
pub proof fn lemma_field_written(
    origin: Seq<u8>,
    start: Seq<u8>,
    before: Seq<u8>,
    after: Seq<u8>,
    tag: u8,
    fields: Seq<Value>,
    index: int,
    r: Result<(), Container>,
)
    requires
        0 <= index < fields.len(),
        written_items(start, before, fields.take(index), Ok(())),
        written(before, after, fields[index], r),
    ensures
        written_items(start, after, fields.take(index + 1), r),
        r is Err ==> written(origin, after, Value::Structure { tag, fields }, r),
{
    lemma_items_push(start, before, after, fields.take(index), fields[index], r);
    assert(fields.take(index + 1) =~= fields.take(index).push(fields[index]));
    lemma_prefix_oversize(fields, index + 1);
    if r is Err {
        lemma_structure_failed(origin, tag, fields, r);
    }
}

/// One more field of the first part of a structure is written: the fields
/// up to it are, and where it fails the structure fails in the same way.
pub proof fn lemma_part_written(
    origin: Seq<u8>,
    start: Seq<u8>,
    before: Seq<u8>,
    after: Seq<u8>,
    tag: u8,
    fixed: Seq<Value>,
    extra: Seq<Value>,
    index: int,
    r: Result<(), Container>,
)
    requires
        0 <= index < fixed.len(),
        written_items(start, before, fixed.take(index), Ok(())),
        written(before, after, fixed[index], r),
    ensures
        written_items(start, after, fixed.take(index + 1), r),
        r is Err ==> written(origin, after, Value::Structure { tag, fields: fixed + extra }, r),
{
    lemma_items_push(start, before, after, fixed.take(index), fixed[index], r);
    assert(fixed.take(index + 1) =~= fixed.take(index).push(fixed[index]));
    lemma_prefix_oversize(fixed, index + 1);
    if r is Err {
        lemma_oversize_items_concat(fixed, extra, 0);
        lemma_structure_failed(origin, tag, fixed + extra, r);
    }
}

/// The values of an optional element id: written where it is present.
fn put_optional_text(out: &mut Vec<u8>, id: Option<&str>) -> (r: Result<(), Container>)
    ensures
        written_items(old(out)@, final(out)@, optional_text(id), r),
{
    match id {
        Some(s) => {
            let r = put_text(out, s);
            proof {
                lemma_items_one(old(out)@, out@, Value::String(s@), r);
            }
            r
        },
        None => {
            proof {
                lemma_items_none(old(out)@);
            }
            Ok(())
        },
    }
}

/// The three element ids of a relationship: written where all are present.
fn put_optional_ids(
    out: &mut Vec<u8>,
    id: Option<&str>,
    start_id: Option<&str>,
    end_id: Option<&str>,
) -> (r: Result<(), Container>)
    ensures
        written_items(old(out)@, final(out)@, optional_ids(id, start_id, end_id), r),
{
    match (id, start_id, end_id) {
        (Some(a), Some(b), Some(c)) => {
            let ghost fields = seq![Value::String(a@), Value::String(b@), Value::String(c@)];
            let ghost start = out@;
            proof {
                lemma_items_none(start);
                assert(fields.take(0) =~= Seq::<Value>::empty());
            }
            let r = put_text(out, a);
            proof {
                lemma_items_push(start, start, out@, fields.take(0), fields[0], r);
                assert(fields.take(1) =~= fields.take(0).push(fields[0]));
                lemma_prefix_oversize(fields, 1);
            }
            if r.is_err() {
                return r;
            }
            let ghost before = out@;
            let r = put_text(out, b);
            proof {
                lemma_items_push(start, before, out@, fields.take(1), fields[1], r);
                assert(fields.take(2) =~= fields.take(1).push(fields[1]));
                lemma_prefix_oversize(fields, 2);
            }
            if r.is_err() {
                return r;
            }
            let ghost before = out@;
            let r = put_text(out, c);
            proof {
                lemma_items_push(start, before, out@, fields.take(2), fields[2], r);
                assert(fields.take(3) =~= fields.take(2).push(fields[2]));
                assert(fields.take(3) =~= fields);
            }
            r
        },
        _ => {
            proof {
                lemma_items_none(old(out)@);
            }
            Ok(())
        },
    }
}

/// Appends a list of nodes.
fn put_nodes(out: &mut Vec<u8>, items: &Vec<NodeRef>) -> (r: Result<(), Container>)
    ensures
        written(old(out)@, final(out)@, Value::List(node_values(items@)), r),
        all_tagged(node_values(items@), TAG_NODE),
{
    let n: usize = items.len();
    let ghost values = node_values(items@);
    assert(oversize(Value::List(values)) == if values.len() > u32::MAX {
        Some(Container::List)
    } else {
        oversize_items(values, 0)
    });
    if n > u32::MAX as usize {
        return Err(Container::List);
    }
    write_size(out, Container::List, n as u32);
    let ghost start = out@;
    proof {
        lemma_items_none(start);
    }
    let mut i: usize = 0;
    while i < n
        invariant
            n == items@.len(),
            values == node_values(items@),
            i <= n,
            written_items(start, out@, values.take(i as int), Ok(())),
            oversize(Value::List(values)) == oversize_items(values, 0),
        decreases n - i,
    {
        let ghost before = out@;
        let r = put_node(out, &items[i]);
        proof {
            assert(values[i as int] == items@[i as int]@);
            lemma_items_push(start, before, out@, values.take(i as int), values[i as int], r);
            assert(values.take(i + 1) =~= values.take(i as int).push(values[i as int]));
            lemma_prefix_oversize(values, i + 1);
        }
        if r.is_err() {
            return r;
        }
        i += 1;
    }
    proof {
        assert(values.take(n as int) =~= values);
        lemma_list_written(old(out)@, start, out@, values, Ok(()));
    }
    Ok(())
}

/// Appends a list of relationships without end nodes.
fn put_unbound_relationships(out: &mut Vec<u8>, items: &Vec<UnboundRelationship>) -> (r: Result<(), Container>)
    ensures
        written(old(out)@, final(out)@, Value::List(relationship_values(items@)), r),
        all_tagged(relationship_values(items@), TAG_UNBOUND_RELATIONSHIP),
{
    let n: usize = items.len();
    let ghost values = relationship_values(items@);
    assert(oversize(Value::List(values)) == if values.len() > u32::MAX {
        Some(Container::List)
    } else {
        oversize_items(values, 0)
    });
    if n > u32::MAX as usize {
        return Err(Container::List);
    }
    write_size(out, Container::List, n as u32);
    let ghost start = out@;
    proof {
        lemma_items_none(start);
    }
    let mut i: usize = 0;
    while i < n
        invariant
            n == items@.len(),
            values == relationship_values(items@),
            i <= n,
            written_items(start, out@, values.take(i as int), Ok(())),
            oversize(Value::List(values)) == oversize_items(values, 0),
        decreases n - i,
    {
        let ghost before = out@;
        let r = put_unbound_relationship(out, &items[i]);
        proof {
            assert(values[i as int] == items@[i as int]@);
            lemma_items_push(start, before, out@, values.take(i as int), values[i as int], r);
            assert(values.take(i + 1) =~= values.take(i as int).push(values[i as int]));
            lemma_prefix_oversize(values, i + 1);
        }
        if r.is_err() {
            return r;
        }
        i += 1;
    }
    proof {
        assert(values.take(n as int) =~= values);
        lemma_list_written(old(out)@, start, out@, values, Ok(()));
    }
    Ok(())
}

/// Appends a date.
pub(crate) fn put_date(out: &mut Vec<u8>, v: &Date) -> (r: Result<(), Container>)
    ensures
        written(old(out)@, final(out)@, v@, r),
{
    let ghost fields = seq![
        Value::Integer(v.days),
    ];
    proof {
        assert(v@ == Value::Structure { tag: TAG_DATE, fields });
        assert(fields.take(0) =~= Seq::<Value>::empty());
    }
    write_struct_head(out, 1, TAG_DATE);
    let ghost start = out@;
    proof {
        lemma_items_none(start);
    }
    let ghost before = out@;
    let r = put_int(out, v.days);
    proof {
        lemma_field_written(old(out)@, start, before, out@, TAG_DATE, fields, 0, r);
    }
    if r.is_err() {
        return r;
    }
    proof {
        assert(fields.take(1) =~= fields);
        assert(fields_fit(TAG_DATE, fields));
        lemma_structure_written(old(out)@, start, out@, TAG_DATE, fields, Ok(()));
    }
    Ok(())
}

/// Appends a time of day with its offset.
pub(crate) fn put_time(out: &mut Vec<u8>, v: &Time) -> (r: Result<(), Container>)
    ensures
        written(old(out)@, final(out)@, v@, r),
{
    let ghost fields = seq![
        Value::Integer(v.nanoseconds),
        Value::Integer(v.tz_offset_seconds as i64),
    ];
    proof {
        assert(v@ == Value::Structure { tag: TAG_TIME, fields });
        assert(fields.take(0) =~= Seq::<Value>::empty());
    }
    write_struct_head(out, 2, TAG_TIME);
    let ghost start = out@;
    proof {
        lemma_items_none(start);
    }
    let ghost before = out@;
    let r = put_int(out, v.nanoseconds);
    proof {
        lemma_field_written(old(out)@, start, before, out@, TAG_TIME, fields, 0, r);
    }
    if r.is_err() {
        return r;
    }
    let ghost before = out@;
    let r = put_int(out, v.tz_offset_seconds as i64);
    proof {
        lemma_field_written(old(out)@, start, before, out@, TAG_TIME, fields, 1, r);
    }
    if r.is_err() {
        return r;
    }
    proof {
        assert(fields.take(2) =~= fields);
        assert(fields_fit(TAG_TIME, fields));
        lemma_structure_written(old(out)@, start, out@, TAG_TIME, fields, Ok(()));
    }
    Ok(())
}

/// Appends a time of day.
pub(crate) fn put_local_time(out: &mut Vec<u8>, v: &LocalTime) -> (r: Result<(), Container>)
    ensures
        written(old(out)@, final(out)@, v@, r),
{
    let ghost fields = seq![
        Value::Integer(v.nanoseconds),
    ];
    proof {
        assert(v@ == Value::Structure { tag: TAG_LOCAL_TIME, fields });
        assert(fields.take(0) =~= Seq::<Value>::empty());
    }
    write_struct_head(out, 1, TAG_LOCAL_TIME);
    let ghost start = out@;
    proof {
        lemma_items_none(start);
    }
    let ghost before = out@;
    let r = put_int(out, v.nanoseconds);
    proof {
        lemma_field_written(old(out)@, start, before, out@, TAG_LOCAL_TIME, fields, 0, r);
    }
    if r.is_err() {
        return r;
    }
    proof {
        assert(fields.take(1) =~= fields);
        assert(fields_fit(TAG_LOCAL_TIME, fields));
        lemma_structure_written(old(out)@, start, out@, TAG_LOCAL_TIME, fields, Ok(()));
    }
    Ok(())
}

/// Appends an instant with its offset.
pub(crate) fn put_date_time(out: &mut Vec<u8>, v: &DateTime) -> (r: Result<(), Container>)
    ensures
        written(old(out)@, final(out)@, v@, r),
{
    let ghost fields = seq![
        Value::Integer(v.seconds),
        Value::Integer(v.nanoseconds as i64),
        Value::Integer(v.tz_offset_seconds as i64),
    ];
    proof {
        assert(v@ == Value::Structure { tag: TAG_DATE_TIME, fields });
        assert(fields.take(0) =~= Seq::<Value>::empty());
    }
    write_struct_head(out, 3, TAG_DATE_TIME);
    let ghost start = out@;
    proof {
        lemma_items_none(start);
    }
    let ghost before = out@;
    let r = put_int(out, v.seconds);
    proof {
        lemma_field_written(old(out)@, start, before, out@, TAG_DATE_TIME, fields, 0, r);
    }
    if r.is_err() {
        return r;
    }
    let ghost before = out@;
    let r = put_int(out, v.nanoseconds as i64);
    proof {
        lemma_field_written(old(out)@, start, before, out@, TAG_DATE_TIME, fields, 1, r);
    }
    if r.is_err() {
        return r;
    }
    let ghost before = out@;
    let r = put_int(out, v.tz_offset_seconds as i64);
    proof {
        lemma_field_written(old(out)@, start, before, out@, TAG_DATE_TIME, fields, 2, r);
    }
    if r.is_err() {
        return r;
    }
    proof {
        assert(fields.take(3) =~= fields);
        assert(fields_fit(TAG_DATE_TIME, fields));
        lemma_structure_written(old(out)@, start, out@, TAG_DATE_TIME, fields, Ok(()));
    }
    Ok(())
}

/// Appends an instant with its named time zone.
pub(crate) fn put_date_time_zone_id(out: &mut Vec<u8>, v: &DateTimeZoneIdRef) -> (r: Result<(), Container>)
    ensures
        written(old(out)@, final(out)@, v@, r),
{
    let ghost fields = seq![
        Value::Integer(v.seconds),
        Value::Integer(v.nanoseconds as i64),
        Value::String(v.tz_id@),
    ];
    proof {
        assert(v@ == Value::Structure { tag: TAG_DATE_TIME_ZONE_ID, fields });
        assert(fields.take(0) =~= Seq::<Value>::empty());
    }
    write_struct_head(out, 3, TAG_DATE_TIME_ZONE_ID);
    let ghost start = out@;
    proof {
        lemma_items_none(start);
    }
    let ghost before = out@;
    let r = put_int(out, v.seconds);
    proof {
        lemma_field_written(old(out)@, start, before, out@, TAG_DATE_TIME_ZONE_ID, fields, 0, r);
    }
    if r.is_err() {
        return r;
    }
    let ghost before = out@;
    let r = put_int(out, v.nanoseconds as i64);
    proof {
        lemma_field_written(old(out)@, start, before, out@, TAG_DATE_TIME_ZONE_ID, fields, 1, r);
    }
    if r.is_err() {
        return r;
    }
    let ghost before = out@;
    let r = put_text(out, v.tz_id);
    proof {
        lemma_field_written(old(out)@, start, before, out@, TAG_DATE_TIME_ZONE_ID, fields, 2, r);
    }
    if r.is_err() {
        return r;
    }
    proof {
        assert(fields.take(3) =~= fields);
        assert(fields_fit(TAG_DATE_TIME_ZONE_ID, fields));
        lemma_structure_written(old(out)@, start, out@, TAG_DATE_TIME_ZONE_ID, fields, Ok(()));
    }
    Ok(())
}

/// Appends a date and time.
pub(crate) fn put_local_date_time(out: &mut Vec<u8>, v: &LocalDateTime) -> (r: Result<(), Container>)
    ensures
        written(old(out)@, final(out)@, v@, r),
{
    let ghost fields = seq![
        Value::Integer(v.seconds),
        Value::Integer(v.nanoseconds as i64),
    ];
    proof {
        assert(v@ == Value::Structure { tag: TAG_LOCAL_DATE_TIME, fields });
        assert(fields.take(0) =~= Seq::<Value>::empty());
    }
    write_struct_head(out, 2, TAG_LOCAL_DATE_TIME);
    let ghost start = out@;
    proof {
        lemma_items_none(start);
    }
    let ghost before = out@;
    let r = put_int(out, v.seconds);
    proof {
        lemma_field_written(old(out)@, start, before, out@, TAG_LOCAL_DATE_TIME, fields, 0, r);
    }
    if r.is_err() {
        return r;
    }
    let ghost before = out@;
    let r = put_int(out, v.nanoseconds as i64);
    proof {
        lemma_field_written(old(out)@, start, before, out@, TAG_LOCAL_DATE_TIME, fields, 1, r);
    }
    if r.is_err() {
        return r;
    }
    proof {
        assert(fields.take(2) =~= fields);
        assert(fields_fit(TAG_LOCAL_DATE_TIME, fields));
        lemma_structure_written(old(out)@, start, out@, TAG_LOCAL_DATE_TIME, fields, Ok(()));
    }
    Ok(())
}

/// Appends an instant in the older form.
pub(crate) fn put_legacy_date_time(out: &mut Vec<u8>, v: &LegacyDateTime) -> (r: Result<(), Container>)
    ensures
        written(old(out)@, final(out)@, v@, r),
{
    let ghost fields = seq![
        Value::Integer(v.seconds),
        Value::Integer(v.nanoseconds as i64),
        Value::Integer(v.tz_offset_seconds as i64),
    ];
    proof {
        assert(v@ == Value::Structure { tag: TAG_LEGACY_DATE_TIME, fields });
        assert(fields.take(0) =~= Seq::<Value>::empty());
    }
    write_struct_head(out, 3, TAG_LEGACY_DATE_TIME);
    let ghost start = out@;
    proof {
        lemma_items_none(start);
    }
    let ghost before = out@;
    let r = put_int(out, v.seconds);
    proof {
        lemma_field_written(old(out)@, start, before, out@, TAG_LEGACY_DATE_TIME, fields, 0, r);
    }
    if r.is_err() {
        return r;
    }
    let ghost before = out@;
    let r = put_int(out, v.nanoseconds as i64);
    proof {
        lemma_field_written(old(out)@, start, before, out@, TAG_LEGACY_DATE_TIME, fields, 1, r);
    }
    if r.is_err() {
        return r;
    }
    let ghost before = out@;
    let r = put_int(out, v.tz_offset_seconds as i64);
    proof {
        lemma_field_written(old(out)@, start, before, out@, TAG_LEGACY_DATE_TIME, fields, 2, r);
    }
    if r.is_err() {
        return r;
    }
    proof {
        assert(fields.take(3) =~= fields);
        assert(fields_fit(TAG_LEGACY_DATE_TIME, fields));
        lemma_structure_written(old(out)@, start, out@, TAG_LEGACY_DATE_TIME, fields, Ok(()));
    }
    Ok(())
}

/// Appends an instant in the older form with its named time zone.
pub(crate) fn put_legacy_date_time_zone_id(out: &mut Vec<u8>, v: &LegacyDateTimeZoneIdRef) -> (r: Result<(), Container>)
    ensures
        written(old(out)@, final(out)@, v@, r),
{
    let ghost fields = seq![
        Value::Integer(v.seconds),
        Value::Integer(v.nanoseconds as i64),
        Value::String(v.tz_id@),
    ];
    proof {
        assert(v@ == Value::Structure { tag: TAG_LEGACY_DATE_TIME_ZONE_ID, fields });
        assert(fields.take(0) =~= Seq::<Value>::empty());
    }
    write_struct_head(out, 3, TAG_LEGACY_DATE_TIME_ZONE_ID);
    let ghost start = out@;
    proof {
        lemma_items_none(start);
    }
    let ghost before = out@;
    let r = put_int(out, v.seconds);
    proof {
        lemma_field_written(old(out)@, start, before, out@, TAG_LEGACY_DATE_TIME_ZONE_ID, fields, 0, r);
    }
    if r.is_err() {
        return r;
    }
    let ghost before = out@;
    let r = put_int(out, v.nanoseconds as i64);
    proof {
        lemma_field_written(old(out)@, start, before, out@, TAG_LEGACY_DATE_TIME_ZONE_ID, fields, 1, r);
    }
    if r.is_err() {
        return r;
    }
    let ghost before = out@;
    let r = put_text(out, v.tz_id);
    proof {
        lemma_field_written(old(out)@, start, before, out@, TAG_LEGACY_DATE_TIME_ZONE_ID, fields, 2, r);
    }
    if r.is_err() {
        return r;
    }
    proof {
        assert(fields.take(3) =~= fields);
        assert(fields_fit(TAG_LEGACY_DATE_TIME_ZONE_ID, fields));
        lemma_structure_written(old(out)@, start, out@, TAG_LEGACY_DATE_TIME_ZONE_ID, fields, Ok(()));
    }
    Ok(())
}

/// Appends a duration.
pub(crate) fn put_duration(out: &mut Vec<u8>, v: &Duration) -> (r: Result<(), Container>)
    ensures
        written(old(out)@, final(out)@, v@, r),
{
    let ghost fields = seq![
        Value::Integer(v.months),
        Value::Integer(v.days),
        Value::Integer(v.seconds),
        Value::Integer(v.nanoseconds as i64),
    ];
    proof {
        assert(v@ == Value::Structure { tag: TAG_DURATION, fields });
        assert(fields.take(0) =~= Seq::<Value>::empty());
    }
    write_struct_head(out, 4, TAG_DURATION);
    let ghost start = out@;
    proof {
        lemma_items_none(start);
    }
    let ghost before = out@;
    let r = put_int(out, v.months);
    proof {
        lemma_field_written(old(out)@, start, before, out@, TAG_DURATION, fields, 0, r);
    }
    if r.is_err() {
        return r;
    }
    let ghost before = out@;
    let r = put_int(out, v.days);
    proof {
        lemma_field_written(old(out)@, start, before, out@, TAG_DURATION, fields, 1, r);
    }
    if r.is_err() {
        return r;
    }
    let ghost before = out@;
    let r = put_int(out, v.seconds);
    proof {
        lemma_field_written(old(out)@, start, before, out@, TAG_DURATION, fields, 2, r);
    }
    if r.is_err() {
        return r;
    }
    let ghost before = out@;
    let r = put_int(out, v.nanoseconds as i64);
    proof {
        lemma_field_written(old(out)@, start, before, out@, TAG_DURATION, fields, 3, r);
    }
    if r.is_err() {
        return r;
    }
    proof {
        assert(fields.take(4) =~= fields);
        assert(fields_fit(TAG_DURATION, fields));
        lemma_structure_written(old(out)@, start, out@, TAG_DURATION, fields, Ok(()));
    }
    Ok(())
}

/// Appends a point in a plane.
pub(crate) fn put_point_2d(out: &mut Vec<u8>, v: &Point2D) -> (r: Result<(), Container>)
    ensures
        written(old(out)@, final(out)@, v@, r),
{
    let ghost fields = seq![
        Value::Integer(v.srid as i64),
        Value::Float(v.x),
        Value::Float(v.y),
    ];
    proof {
        assert(v@ == Value::Structure { tag: TAG_POINT_2D, fields });
        assert(fields.take(0) =~= Seq::<Value>::empty());
    }
    write_struct_head(out, 3, TAG_POINT_2D);
    let ghost start = out@;
    proof {
        lemma_items_none(start);
    }
    let ghost before = out@;
    let r = put_int(out, v.srid as i64);
    proof {
        lemma_field_written(old(out)@, start, before, out@, TAG_POINT_2D, fields, 0, r);
    }
    if r.is_err() {
        return r;
    }
    let ghost before = out@;
    let r = put_float(out, v.x);
    proof {
        lemma_field_written(old(out)@, start, before, out@, TAG_POINT_2D, fields, 1, r);
    }
    if r.is_err() {
        return r;
    }
    let ghost before = out@;
    let r = put_float(out, v.y);
    proof {
        lemma_field_written(old(out)@, start, before, out@, TAG_POINT_2D, fields, 2, r);
    }
    if r.is_err() {
        return r;
    }
    proof {
        assert(fields.take(3) =~= fields);
        assert(fields_fit(TAG_POINT_2D, fields));
        lemma_structure_written(old(out)@, start, out@, TAG_POINT_2D, fields, Ok(()));
    }
    Ok(())
}

/// Appends a point in space.
pub(crate) fn put_point_3d(out: &mut Vec<u8>, v: &Point3D) -> (r: Result<(), Container>)
    ensures
        written(old(out)@, final(out)@, v@, r),
{
    let ghost fields = seq![
        Value::Integer(v.srid as i64),
        Value::Float(v.x),
        Value::Float(v.y),
        Value::Float(v.z),
    ];
    proof {
        assert(v@ == Value::Structure { tag: TAG_POINT_3D, fields });
        assert(fields.take(0) =~= Seq::<Value>::empty());
    }
    write_struct_head(out, 4, TAG_POINT_3D);
    let ghost start = out@;
    proof {
        lemma_items_none(start);
    }
    let ghost before = out@;
    let r = put_int(out, v.srid as i64);
    proof {
        lemma_field_written(old(out)@, start, before, out@, TAG_POINT_3D, fields, 0, r);
    }
    if r.is_err() {
        return r;
    }
    let ghost before = out@;
    let r = put_float(out, v.x);
    proof {
        lemma_field_written(old(out)@, start, before, out@, TAG_POINT_3D, fields, 1, r);
    }
    if r.is_err() {
        return r;
    }
    let ghost before = out@;
    let r = put_float(out, v.y);
    proof {
        lemma_field_written(old(out)@, start, before, out@, TAG_POINT_3D, fields, 2, r);
    }
    if r.is_err() {
        return r;
    }
    let ghost before = out@;
    let r = put_float(out, v.z);
    proof {
        lemma_field_written(old(out)@, start, before, out@, TAG_POINT_3D, fields, 3, r);
    }
    if r.is_err() {
        return r;
    }
    proof {
        assert(fields.take(4) =~= fields);
        assert(fields_fit(TAG_POINT_3D, fields));
        lemma_structure_written(old(out)@, start, out@, TAG_POINT_3D, fields, Ok(()));
    }
    Ok(())
}

/// Appends a path.
pub(crate) fn put_path(out: &mut Vec<u8>, v: &PathRef) -> (r: Result<(), Container>)
    ensures
        written(old(out)@, final(out)@, v@, r),
{
    let ghost fields = seq![
        Value::List(node_values(v.nodes@)),
        Value::List(relationship_values(v.rels@)),
        Value::List(int_values(v.indices@)),
    ];
    proof {
        use_type_invariant(v);
        assert(v@ == Value::Structure { tag: TAG_PATH, fields });
        assert(fields.take(0) =~= Seq::<Value>::empty());
    }
    write_struct_head(out, 3, TAG_PATH);
    let ghost start = out@;
    proof {
        lemma_items_none(start);
    }
    let ghost before = out@;
    let r = put_nodes(out, &v.nodes);
    proof {
        lemma_field_written(old(out)@, start, before, out@, TAG_PATH, fields, 0, r);
    }
    if r.is_err() {
        return r;
    }
    let ghost before = out@;
    let r = put_unbound_relationships(out, &v.rels);
    proof {
        lemma_field_written(old(out)@, start, before, out@, TAG_PATH, fields, 1, r);
    }
    if r.is_err() {
        return r;
    }
    let ghost before = out@;
    let r = put_ints(out, &v.indices);
    proof {
        lemma_field_written(old(out)@, start, before, out@, TAG_PATH, fields, 2, r);
    }
    if r.is_err() {
        return r;
    }
    proof {
        assert(fields.take(3) =~= fields);
        assert(ints_of(int_values(v.indices@)) =~= v.indices@);
        assert(fields_fit(TAG_PATH, fields));
        lemma_structure_written(old(out)@, start, out@, TAG_PATH, fields, Ok(()));
    }
    Ok(())
}

/// Appends a node.
pub(crate) fn put_node(out: &mut Vec<u8>, v: &NodeRef) -> (r: Result<(), Container>)
    ensures
        written(old(out)@, final(out)@, v@, r),
{
    let ghost fixed = seq![
        Value::Integer(v.id),
        Value::List(text_values(v.labels@)),
        Value::Deferred(contents(v.properties)),
    ];
    let ghost extra = optional_text(v.element_id);
    let ghost fields = fixed + extra;
    proof {
        use_type_invariant(v);
        assert(v@ == Value::Structure { tag: TAG_NODE, fields });
        assert(fixed.take(0) =~= Seq::<Value>::empty());
    }
    let count: u8 = if v.element_id.is_some() {
        4
    } else {
        3
    };
    write_struct_head(out, count, TAG_NODE);
    let ghost start = out@;
    proof {
        lemma_items_none(start);
    }
    let ghost before = out@;
    let r = put_int(out, v.id);
    proof {
        lemma_part_written(old(out)@, start, before, out@, TAG_NODE, fixed, extra, 0, r);
    }
    if r.is_err() {
        return r;
    }
    let ghost before = out@;
    let r = put_texts(out, &v.labels);
    proof {
        lemma_part_written(old(out)@, start, before, out@, TAG_NODE, fixed, extra, 1, r);
    }
    if r.is_err() {
        return r;
    }
    let ghost before = out@;
    let r = put_deferred(out, &v.properties);
    proof {
        lemma_part_written(old(out)@, start, before, out@, TAG_NODE, fixed, extra, 2, r);
    }
    if r.is_err() {
        return r;
    }
    let ghost middle = out@;
    let r = put_optional_text(out, v.element_id);
    proof {
        assert(fixed.take(3) =~= fixed);
        lemma_items_more(start, middle, out@, fixed, extra, r);
        assert forall|i: int| 0 <= i < fields.len() implies if field_kind(TAG_NODE, i) is Deferred {
            (#[trigger] fields[i]) is Deferred
        } else {
            field_ok(field_kind(TAG_NODE, i), fields[i])
        } by {
            if i >= 3 {
                assert(fields[i] == extra[i - 3]);
            } else {
                assert(fields[i] == fixed[i]);
            }
        }
        assert(fields_fit(TAG_NODE, fields));
        lemma_structure_written(old(out)@, start, out@, TAG_NODE, fields, r);
    }
    r
}

/// Appends a relationship without its end nodes.
pub(crate) fn put_unbound_relationship(out: &mut Vec<u8>, v: &UnboundRelationship) -> (r: Result<(), Container>)
    ensures
        written(old(out)@, final(out)@, v@, r),
{
    let ghost fixed = seq![
        Value::Integer(v.id),
        Value::String(v.typ@),
        Value::Deferred(contents(v.properties)),
    ];
    let ghost extra = optional_text(v.element_id);
    let ghost fields = fixed + extra;
    proof {
        use_type_invariant(v);
        assert(v@ == Value::Structure { tag: TAG_UNBOUND_RELATIONSHIP, fields });
        assert(fixed.take(0) =~= Seq::<Value>::empty());
    }
    let count: u8 = if v.element_id.is_some() {
        4
    } else {
        3
    };
    write_struct_head(out, count, TAG_UNBOUND_RELATIONSHIP);
    let ghost start = out@;
    proof {
        lemma_items_none(start);
    }
    let ghost before = out@;
    let r = put_int(out, v.id);
    proof {
        lemma_part_written(old(out)@, start, before, out@, TAG_UNBOUND_RELATIONSHIP, fixed, extra, 0, r);
    }
    if r.is_err() {
        return r;
    }
    let ghost before = out@;
    let r = put_text(out, v.typ);
    proof {
        lemma_part_written(old(out)@, start, before, out@, TAG_UNBOUND_RELATIONSHIP, fixed, extra, 1, r);
    }
    if r.is_err() {
        return r;
    }
    let ghost before = out@;
    let r = put_deferred(out, &v.properties);
    proof {
        lemma_part_written(old(out)@, start, before, out@, TAG_UNBOUND_RELATIONSHIP, fixed, extra, 2, r);
    }
    if r.is_err() {
        return r;
    }
    let ghost middle = out@;
    let r = put_optional_text(out, v.element_id);
    proof {
        assert(fixed.take(3) =~= fixed);
        lemma_items_more(start, middle, out@, fixed, extra, r);
        assert forall|i: int| 0 <= i < fields.len() implies if field_kind(TAG_UNBOUND_RELATIONSHIP, i) is Deferred {
            (#[trigger] fields[i]) is Deferred
        } else {
            field_ok(field_kind(TAG_UNBOUND_RELATIONSHIP, i), fields[i])
        } by {
            if i >= 3 {
                assert(fields[i] == extra[i - 3]);
            } else {
                assert(fields[i] == fixed[i]);
            }
        }
        assert(fields_fit(TAG_UNBOUND_RELATIONSHIP, fields));
        lemma_structure_written(old(out)@, start, out@, TAG_UNBOUND_RELATIONSHIP, fields, r);
    }
    r
}

/// Appends a relationship.
pub(crate) fn put_relationship(out: &mut Vec<u8>, v: &Relationship) -> (r: Result<(), Container>)
    ensures
        written(old(out)@, final(out)@, v@, r),
{
    let ghost fixed = seq![
        Value::Integer(v.id),
        Value::Integer(v.start_node_id),
        Value::Integer(v.end_node_id),
        Value::String(v.typ@),
        Value::Deferred(contents(v.properties)),
    ];
    let ghost extra = optional_ids(v.element_id, v.start_node_element_id, v.end_node_element_id);
    let ghost fields = fixed + extra;
    proof {
        use_type_invariant(v);
        assert(v@ == Value::Structure { tag: TAG_RELATIONSHIP, fields });
        assert(fixed.take(0) =~= Seq::<Value>::empty());
    }
    let count: u8 = if v.element_id.is_some() && v.start_node_element_id.is_some()
        && v.end_node_element_id.is_some() {
        8
    } else {
        5
    };
    write_struct_head(out, count, TAG_RELATIONSHIP);
    let ghost start = out@;
    proof {
        lemma_items_none(start);
    }
    let ghost before = out@;
    let r = put_int(out, v.id);
    proof {
        lemma_part_written(old(out)@, start, before, out@, TAG_RELATIONSHIP, fixed, extra, 0, r);
    }
    if r.is_err() {
        return r;
    }
    let ghost before = out@;
    let r = put_int(out, v.start_node_id);
    proof {
        lemma_part_written(old(out)@, start, before, out@, TAG_RELATIONSHIP, fixed, extra, 1, r);
    }
    if r.is_err() {
        return r;
    }
    let ghost before = out@;
    let r = put_int(out, v.end_node_id);
    proof {
        lemma_part_written(old(out)@, start, before, out@, TAG_RELATIONSHIP, fixed, extra, 2, r);
    }
    if r.is_err() {
        return r;
    }
    let ghost before = out@;
    let r = put_text(out, v.typ);
    proof {
        lemma_part_written(old(out)@, start, before, out@, TAG_RELATIONSHIP, fixed, extra, 3, r);
    }
    if r.is_err() {
        return r;
    }
    let ghost before = out@;
    let r = put_deferred(out, &v.properties);
    proof {
        lemma_part_written(old(out)@, start, before, out@, TAG_RELATIONSHIP, fixed, extra, 4, r);
    }
    if r.is_err() {
        return r;
    }
    let ghost middle = out@;
    let r = put_optional_ids(
        out,
        v.element_id,
        v.start_node_element_id,
        v.end_node_element_id,
    );
    proof {
        assert(fixed.take(5) =~= fixed);
        lemma_items_more(start, middle, out@, fixed, extra, r);
        assert forall|i: int| 0 <= i < fields.len() implies if field_kind(TAG_RELATIONSHIP, i) is Deferred {
            (#[trigger] fields[i]) is Deferred
        } else {
            field_ok(field_kind(TAG_RELATIONSHIP, i), fields[i])
        } by {
            if i >= 5 {
                assert(fields[i] == extra[i - 5]);
            } else {
                assert(fields[i] == fixed[i]);
            }
        }
        assert(fields_fit(TAG_RELATIONSHIP, fields));
        lemma_structure_written(old(out)@, start, out@, TAG_RELATIONSHIP, fields, r);
    }
    r
}

/// The keys and values of a dictionary in the order of writing: each key as a
/// string value, followed by its value.
pub open spec fn flat(entries: Seq<(Seq<char>, Value)>) -> Seq<Value> {
    Seq::new(
        2 * entries.len(),
        |j: int|
            if j % 2 == 0 {
                Value::String(entries[j / 2].0)
            } else {
                entries[j / 2].1
            },
    )
}

/// The entries of a dictionary are written as the list of its keys and values is.
pub proof fn lemma_flat(entries: Seq<(Seq<char>, Value)>, i: int)
    requires
        0 <= i <= entries.len(),
    ensures
        encode_entries(entries, i) == encode_items(flat(entries), 2 * i),
        oversize_entries(entries, i) == oversize_items(flat(entries), 2 * i),
    decreases entries.len() - i,
{
    let items = flat(entries);
    if i < entries.len() {
        lemma_flat(entries, i + 1);
        assert(items[2 * i] == Value::String(entries[i].0));
        assert(items[2 * i + 1] == entries[i].1);
        assert(spec_encode(items[2 * i]) == encode_text(entries[i].0));
        assert(encode_items(items, 2 * i) == spec_encode(items[2 * i]) + encode_items(
            items,
            2 * i + 1,
        ));
        assert(encode_items(items, 2 * i + 1) == spec_encode(items[2 * i + 1]) + encode_items(
            items,
            2 * i + 2,
        ));
        assert(encode_entries(entries, i) =~= encode_items(items, 2 * i));
        assert(oversize(items[2 * i]) == if vstd::utf8::encode_utf8(entries[i].0).len()
            > u32::MAX {
            Some(Container::String)
        } else {
            None
        });
        assert(oversize_items(items, 2 * i) == match oversize(items[2 * i]) {
            Some(c) => Some(c),
            None => oversize_items(items, 2 * i + 1),
        });
        assert(oversize_items(items, 2 * i + 1) == match oversize(items[2 * i + 1]) {
            Some(c) => Some(c),
            None => oversize_items(items, 2 * i + 2),
        });
    } else {
        assert(encode_entries(entries, i) =~= Seq::<u8>::empty());
        assert(encode_items(items, 2 * i) =~= Seq::<u8>::empty());
    }
}

/// A header followed by a write of the keys and values is a write of the
/// dictionary, where the keys are unique and no value is deferred.
pub proof fn lemma_dictionary_written(
    before: Seq<u8>,
    start: Seq<u8>,
    after: Seq<u8>,
    entries: Seq<(Seq<char>, Value)>,
    r: Result<(), Container>,
)
    requires
        entries.len() <= u32::MAX,
        start == before + encode_size(Container::Dictionary, entries.len()),
        written_items(start, after, flat(entries), r),
        keys_of(entries).no_duplicates(),
        forall|i: int| 0 <= i < entries.len() ==> !((#[trigger] entries[i]).1 is Deferred),
    ensures
        written(before, after, Value::Dictionary(entries), r),
{
    let v = Value::Dictionary(entries);
    lemma_flat(entries, 0);
    assert(oversize(v) == oversize_entries(entries, 0));
    if oversize_entries(entries, 0) is None {
        assert(spec_encode(v) == encode_size(Container::Dictionary, entries.len())
            + encode_entries(entries, 0));
        assert(after =~= before + spec_encode(v));
        assert forall|i: int| 0 <= i < entries.len() implies vstd::utf8::encode_utf8(
            (#[trigger] entries[i]).0,
        ).len() <= u32::MAX && well_formed(entries[i].1) by {
            assert(sound(flat(entries)[2 * i]));
            assert(sound(flat(entries)[2 * i + 1]));
            assert(flat(entries)[2 * i] == Value::String(entries[i].0));
            assert(flat(entries)[2 * i + 1] == entries[i].1);
            assert(well_formed(Value::String(entries[i].0)));
        }
        assert(well_formed(v));
    }
}

/// No value of the library stands for deferred bytes on its own.
pub proof fn lemma_not_deferred(v: &BoltRef)
    ensures
        !(v@ is Deferred),
{
}

/// Appends a value.
pub(crate) fn put_value(out: &mut Vec<u8>, v: &BoltRef) -> (r: Result<(), Container>)
    ensures
        written(old(out)@, final(out)@, v@, r),
    decreases v,
{
    match v {
        BoltRef::Null => {
            out.push(0xC0);
            assert(oversize(Value::Null) is None);
            assert(out@ =~= old(out)@ + spec_encode(Value::Null));
            assert(well_formed(Value::Null));
            Ok(())
        },
        BoltRef::Boolean(b) => {
            out.push(
                if *b {
                    0xC3
                } else {
                    0xC2
                },
            );
            assert(oversize(Value::Boolean(*b)) is None);
            assert(out@ =~= old(out)@ + spec_encode(Value::Boolean(*b)));
            assert(well_formed(Value::Boolean(*b)));
            Ok(())
        },
        BoltRef::Integer(i) => put_int(out, *i),
        BoltRef::Float(bits) => put_float(out, *bits),
        BoltRef::Bytes(b) => put_bytes(out, b),
        BoltRef::String(s) => put_text(out, s),
        BoltRef::List(items) => {
            let n: usize = items.len();
            let ghost values = values_of(items@);
            assert(v@ == Value::List(values)) by {
                assert(v@->List_0 =~= values);
            }
            assert(oversize(Value::List(values)) == if values.len() > u32::MAX {
                Some(Container::List)
            } else {
                oversize_items(values, 0)
            });
            if n > u32::MAX as usize {
                return Err(Container::List);
            }
            write_size(out, Container::List, n as u32);
            let ghost start = out@;
            proof {
                lemma_items_none(start);
            }
            let mut i: usize = 0;
            while i < n
                invariant
                    n == items@.len(),
                    values == values_of(items@),
                    i <= n,
                    written_items(start, out@, values.take(i as int), Ok(())),
                    oversize(Value::List(values)) == oversize_items(values, 0),
                    v@ == Value::List(values),
                    *v == BoltRef::List(*items),
                decreases n - i,
            {
                let ghost before = out@;
                let r = put_value(out, &items[i]);
                proof {
                    assert(values[i as int] == items@[i as int]@);
                    lemma_items_push(
                        start,
                        before,
                        out@,
                        values.take(i as int),
                        values[i as int],
                        r,
                    );
                    assert(values.take(i + 1) =~= values.take(i as int).push(values[i as int]));
                    lemma_prefix_oversize(values, i + 1);
                }
                if r.is_err() {
                    return r;
                }
                i += 1;
            }
            proof {
                assert(values.take(n as int) =~= values);
                assert forall|j: int| 0 <= j < values.len() implies !((
                #[trigger] values[j]) is Deferred) by {
                    lemma_not_deferred(&items@[j]);
                }
                lemma_list_written(old(out)@, start, out@, values, Ok(()));
            }
            Ok(())
        },
        BoltRef::Dictionary(map) => {
            let n: usize = map.entries.len();
            let ghost entries = map@;
            let ghost values = flat(entries);
            proof {
                use_type_invariant(map);
                lemma_flat(entries, 0);
                assert(keys_of(entries) =~= entry_keys(map.entries@));
            }
            assert(oversize(Value::Dictionary(entries)) == if entries.len() > u32::MAX {
                Some(Container::Dictionary)
            } else {
                oversize_entries(entries, 0)
            });
            if n > u32::MAX as usize {
                return Err(Container::Dictionary);
            }
            write_size(out, Container::Dictionary, n as u32);
            let ghost start = out@;
            proof {
                lemma_items_none(start);
            }
            let mut i: usize = 0;
            while i < n
                invariant
                    n == map.entries@.len(),
                    entries == map@,
                    values == flat(entries),
                    i <= n,
                    written_items(start, out@, values.take(2 * i), Ok(())),
                    oversize(Value::Dictionary(entries)) == oversize_items(values, 0),
                    v@ == Value::Dictionary(entries),
                    *v == BoltRef::Dictionary(*map),
                decreases n - i,
            {
                let ghost before = out@;
                let r = put_text(out, map.entries[i].0);
                proof {
                    assert(values[2 * i] == Value::String(map.entries@[i as int].0@));
                    lemma_items_push(start, before, out@, values.take(2 * i), values[2 * i], r);
                    assert(values.take(2 * i + 1) =~= values.take(2 * i).push(values[2 * i]));
                    lemma_prefix_oversize(values, 2 * i + 1);
                }
                if r.is_err() {
                    return r;
                }
                let ghost before = out@;
                let r = put_value(out, &map.entries[i].1);
                proof {
                    assert(values[2 * i + 1] == map.entries@[i as int].1@);
                    lemma_items_push(
                        start,
                        before,
                        out@,
                        values.take(2 * i + 1),
                        values[2 * i + 1],
                        r,
                    );
                    assert(values.take(2 * i + 2) =~= values.take(2 * i + 1).push(
                        values[2 * i + 1],
                    ));
                    lemma_prefix_oversize(values, 2 * i + 2);
                }
                if r.is_err() {
                    return r;
                }
                i += 1;
            }
            proof {
                assert(values.take(2 * n) =~= values);
                assert forall|j: int| 0 <= j < entries.len() implies !((
                #[trigger] entries[j]).1 is Deferred) by {
                    lemma_not_deferred(&map.entries@[j].1);
                }
                lemma_dictionary_written(old(out)@, start, out@, entries, Ok(()));
            }
            Ok(())
        },
        BoltRef::Node(n) => put_node(out, n),
        BoltRef::Relationship(r) => put_relationship(out, r),
        BoltRef::UnboundRelationship(r) => put_unbound_relationship(out, r),
        BoltRef::Path(p) => put_path(out, p),
        BoltRef::Date(d) => put_date(out, d),
        BoltRef::Time(t) => put_time(out, t),
        BoltRef::LocalTime(t) => put_local_time(out, t),
        BoltRef::DateTime(d) => put_date_time(out, d),
        BoltRef::DateTimeZoneId(d) => put_date_time_zone_id(out, d),
        BoltRef::LocalDateTime(d) => put_local_date_time(out, d),
        BoltRef::Duration(d) => put_duration(out, d),
        BoltRef::Point2D(p) => put_point_2d(out, p),
        BoltRef::Point3D(p) => put_point_3d(out, p),
        BoltRef::LegacyDateTime(d) => put_legacy_date_time(out, d),
        BoltRef::LegacyDateTimeZoneId(d) => put_legacy_date_time_zone_id(out, d),
    }
}

/// What `encode` returns for a value: its bytes, unless a container of it is
/// too long for a 32-bit length.
pub open spec fn encoded(v: Value) -> Result<Seq<u8>, Container> {
    match oversize(v) {
        Some(c) => Err(c),
        None => Ok(spec_encode(v)),
    }
}

/// The bytes of a value, with the shortest header for every part of it.
///
/// Fails with `TooLong` exactly where a string, byte string, list or
/// dictionary of the value has more than `u32::MAX` bytes, items or entries,
/// and names the first such container in the order of writing. A value that
/// is written is well formed, so that decoding the bytes gives it back.
pub fn encode(value: &BoltRef) -> (r: Result<Vec<u8>, Error>)
    ensures
        match encoded(value@) {
            Ok(bytes) => r matches Ok(out) && out@ == bytes && well_formed(value@),
            Err(c) => r == Err::<Vec<u8>, Error>(Error::TooLong { container: c }),
        },
{
    let mut out: Vec<u8> = Vec::new();
    proof {
        lemma_not_deferred(value);
    }
    match put_value(&mut out, value) {
        Ok(()) => {
            assert(out@ =~= spec_encode(value@));
            Ok(out)
        },
        Err(c) => Err(Error::TooLong { container: c }),
    }
}

} // verus!
