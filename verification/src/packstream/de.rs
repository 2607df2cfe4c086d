//! The decoder: from bytes to a value whose strings are views into the bytes.

use crate::bolt::structs::node::text_values;
use crate::bolt::structs::path::{int_values, node_values, relationship_values};
use crate::bolt::structs::{
    entries_view, entry_keys, ids_whole, lemma_view_kind, values_of, BoltRef, Date, DateTime,
    DateTimeZoneIdRef, Duration, LegacyDateTime, LegacyDateTimeZoneIdRef, LocalDateTime,
    LocalTime, MapRef, NodeRef, PathRef, Point2D, Point3D, Relationship, Time,
    UnboundRelationship,
};
use crate::errors::{Container, Error, Violation};
use crate::packstream::grammar::{
    decode_entries, decode_entry, decode_field, decode_fields, decode_items, is_dictionary,
    spec_decode,
};
use crate::packstream::raw::{as_slice, contents, slice};
use crate::packstream::text::{lemma_decoded, str_eq, str_from_utf8};
use crate::packstream::value::{
    all_int, all_tagged, all_text, count_ok, field_kind, ints_of, keys_of, known_tag,
    path_ok, walk_ok, FieldKind, Value, TAG_DATE, TAG_DATE_TIME, TAG_DATE_TIME_ZONE_ID,
    TAG_DURATION, TAG_LEGACY_DATE_TIME, TAG_LEGACY_DATE_TIME_ZONE_ID, TAG_LOCAL_DATE_TIME,
    TAG_LOCAL_TIME, TAG_NODE, TAG_PATH, TAG_POINT_2D, TAG_POINT_3D, TAG_RELATIONSHIP, TAG_TIME,
    TAG_UNBOUND_RELATIONSHIP,
};
use crate::packstream::wire::{parse_head, read_head, Head};
use bytes::Bytes;
use vstd::prelude::*;
use vstd::slice::slice_subrange;

verus! {

/// Skipping twice is skipping once.
pub proof fn lemma_skip_skip(s: Seq<u8>, a: int, b: int)
    requires
        0 <= a,
        0 <= b,
        a + b <= s.len(),
    ensures
        s.skip(a).skip(b) == s.skip(a + b),
{
    assert(s.skip(a).skip(b) =~= s.skip(a + b));
}

/// A decoded value takes at least one byte and at most all there are.
pub proof fn lemma_decode_bound(s: Seq<u8>, strict: bool)
    ensures
        spec_decode(s, strict) matches Ok((_, k)) ==> 1 <= k <= s.len(),
    decreases s.len(), 0nat, 0nat,
{
    match parse_head(s, strict) {
        Err(_) => {},
        Ok((head, h)) => {
            if 1 <= h <= s.len() {
                match head {
                    Head::Sized(Container::List, n) => {
                        lemma_items_bound(s.skip(h as int), n as nat, strict);
                    },
                    Head::Sized(Container::Dictionary, n) => {
                        lemma_entries_bound(s.skip(h as int), n as nat, Seq::empty(), strict);
                    },
                    Head::Structure(n, tag) => {
                        lemma_fields_bound(s.skip(h as int), tag, 0, n as nat, strict);
                    },
                    _ => {},
                }
            }
        },
    }
}

/// Decoded items take at most all the bytes there are.
pub proof fn lemma_items_bound(s: Seq<u8>, n: nat, strict: bool)
    ensures
        decode_items(s, n, strict) matches Ok((items, k)) ==> k <= s.len() && items.len() == n,
    decreases s.len(), 2nat, n,
{
    if n > 0 {
        lemma_decode_bound(s, strict);
        match spec_decode(s, strict) {
            Ok((v, k)) => {
                if k <= s.len() {
                    lemma_items_bound(s.skip(k as int), (n - 1) as nat, strict);
                }
            },
            Err(_) => {},
        }
    }
}

/// A decoded entry takes at least two bytes and at most all there are.
pub proof fn lemma_entry_bound(s: Seq<u8>, strict: bool)
    ensures
        decode_entry(s, strict) matches Ok((_, _, k)) ==> 2 <= k <= s.len(),
    decreases s.len(), 1nat, 0nat,
{
    lemma_decode_bound(s, strict);
    match spec_decode(s, strict) {
        Ok((Value::String(key), k1)) => {
            lemma_decode_bound(s.skip(k1 as int), strict);
        },
        _ => {},
    }
}

/// Decoded entries take at most all the bytes there are.
pub proof fn lemma_entries_bound(s: Seq<u8>, n: nat, seen: Seq<Seq<char>>, strict: bool)
    ensures
        decode_entries(s, n, seen, strict) matches Ok((entries, k)) ==> k <= s.len()
            && entries.len() == n,
    decreases s.len(), 2nat, n,
{
    if n > 0 {
        lemma_entry_bound(s, strict);
        match decode_entry(s, strict) {
            Ok((key, v, k)) => {
                if !seen.contains(key) && k <= s.len() {
                    lemma_entries_bound(s.skip(k as int), (n - 1) as nat, seen.push(key), strict);
                }
            },
            Err(_) => {},
        }
    }
}

/// A decoded field takes at least one byte and at most all there are.
pub proof fn lemma_field_bound(s: Seq<u8>, kind: FieldKind, strict: bool)
    ensures
        decode_field(s, kind, strict) matches Ok((_, k)) ==> 1 <= k <= s.len(),
    decreases s.len(), 1nat, 0nat,
{
    if kind is Deferred {
        lemma_decode_bound(s, false);
    } else {
        lemma_decode_bound(s, strict);
    }
}

/// Decoded fields take at most all the bytes there are.
pub proof fn lemma_fields_bound(s: Seq<u8>, tag: u8, i: nat, n: nat, strict: bool)
    ensures
        decode_fields(s, tag, i, n, strict) matches Ok((fields, k)) ==> k <= s.len()
            && fields.len() == if i <= n {
            n - i
        } else {
            0
        },
    decreases s.len(), 2nat, n - i,
{
    if i < n {
        lemma_field_bound(s, field_kind(tag, i as int), strict);
        match decode_field(s, field_kind(tag, i as int), strict) {
            Ok((v, k)) => {
                if k <= s.len() {
                    lemma_fields_bound(s.skip(k as int), tag, i + 1, n, strict);
                }
            },
            Err(_) => {},
        }
    }
}

/// What decoding one more item adds to the items decoded so far.
pub open spec fn one_more_item(
    s: Seq<u8>,
    done: Seq<Value>,
    off: nat,
    strict: bool,
) -> Result<(Seq<Value>, nat), Violation> {
    match spec_decode(s.skip(off as int), strict) {
        Err(e) => Err(e),
        Ok((v, k)) => Ok((done.push(v), off + k)),
    }
}

/// Decoding `i + 1` items is decoding `i` items and then one more.
pub proof fn lemma_items_snoc(s: Seq<u8>, i: nat, strict: bool)
    ensures
        decode_items(s, i + 1, strict) == match decode_items(s, i, strict) {
            Err(e) => Err(e),
            Ok((done, off)) => one_more_item(s, done, off, strict),
        },
    decreases i,
{
    lemma_decode_bound(s, strict);
    assert(s.skip(0) =~= s);
    if i == 0 {
        match spec_decode(s, strict) {
            Err(e) => {},
            Ok((v, k)) => {
                assert(decode_items(s.skip(k as int), 0, strict) == Ok::<
                    (Seq<Value>, nat),
                    Violation,
                >((Seq::empty(), 0)));
                assert(seq![v] + Seq::<Value>::empty() =~= Seq::<Value>::empty().push(v));
            },
        }
    } else {
        match spec_decode(s, strict) {
            Err(e) => {},
            Ok((v, k)) => {
                let t = s.skip(k as int);
                lemma_items_snoc(t, (i - 1) as nat, strict);
                lemma_items_bound(t, (i - 1) as nat, strict);
                match decode_items(t, (i - 1) as nat, strict) {
                    Err(e) => {},
                    Ok((done, off)) => {
                        lemma_skip_skip(s, k as int, off as int);
                        match spec_decode(t.skip(off as int), strict) {
                            Err(e) => {},
                            Ok((w, k2)) => {
                                assert(seq![v] + done.push(w) =~= (seq![v] + done).push(w));
                            },
                        }
                    },
                }
            },
        }
    }
}

/// Where the first `i` items cannot be decoded, more cannot either, for the
/// same reason.
pub proof fn lemma_items_fail(s: Seq<u8>, i: nat, n: nat, strict: bool)
    requires
        i <= n,
        decode_items(s, i, strict) is Err,
    ensures
        decode_items(s, n, strict) == decode_items(s, i, strict),
    decreases n - i,
{
    if i < n {
        lemma_items_snoc(s, i, strict);
        lemma_items_fail(s, i + 1, n, strict);
    }
}

/// What decoding one more field adds to the fields decoded so far.
pub open spec fn one_more_field(
    s: Seq<u8>,
    kind: FieldKind,
    done: Seq<Value>,
    off: nat,
    strict: bool,
) -> Result<(Seq<Value>, nat), Violation> {
    match decode_field(s.skip(off as int), kind, strict) {
        Err(e) => Err(e),
        Ok((v, k)) => Ok((done.push(v), off + k)),
    }
}

/// Decoding the fields `a` to `b + 1` is decoding the fields `a` to `b` and
/// then one more.
pub proof fn lemma_fields_snoc(s: Seq<u8>, tag: u8, a: nat, b: nat, strict: bool)
    requires
        a <= b,
    ensures
        decode_fields(s, tag, a, b + 1, strict) == match decode_fields(s, tag, a, b, strict) {
            Err(e) => Err(e),
            Ok((done, off)) => one_more_field(s, field_kind(tag, b as int), done, off, strict),
        },
    decreases b - a,
{
    lemma_field_bound(s, field_kind(tag, a as int), strict);
    assert(s.skip(0) =~= s);
    if a == b {
        match decode_field(s, field_kind(tag, a as int), strict) {
            Err(e) => {},
            Ok((v, k)) => {
                assert(decode_fields(s.skip(k as int), tag, a + 1, b + 1, strict) == Ok::<
                    (Seq<Value>, nat),
                    Violation,
                >((Seq::empty(), 0)));
                assert(seq![v] + Seq::<Value>::empty() =~= Seq::<Value>::empty().push(v));
            },
        }
    } else {
        match decode_field(s, field_kind(tag, a as int), strict) {
            Err(e) => {},
            Ok((v, k)) => {
                let t = s.skip(k as int);
                lemma_fields_snoc(t, tag, a + 1, b, strict);
                lemma_fields_bound(t, tag, a + 1, b, strict);
                match decode_fields(t, tag, a + 1, b, strict) {
                    Err(e) => {},
                    Ok((done, off)) => {
                        lemma_skip_skip(s, k as int, off as int);
                        match decode_field(t.skip(off as int), field_kind(tag, b as int), strict) {
                            Err(e) => {},
                            Ok((w, k2)) => {
                                assert(seq![v] + done.push(w) =~= (seq![v] + done).push(w));
                            },
                        }
                    },
                }
            },
        }
    }
}

/// Where the fields up to `b` cannot be decoded, more cannot either, for the
/// same reason.
pub proof fn lemma_fields_fail(s: Seq<u8>, tag: u8, b: nat, n: nat, strict: bool)
    requires
        b <= n,
        decode_fields(s, tag, 0, b, strict) is Err,
    ensures
        decode_fields(s, tag, 0, n, strict) == decode_fields(s, tag, 0, b, strict),
    decreases n - b,
{
    if b < n {
        lemma_fields_snoc(s, tag, 0, b, strict);
        lemma_fields_fail(s, tag, b + 1, n, strict);
    }
}

/// What decoding one more entry adds to the entries decoded so far, where
/// the keys in `seen` and those of the entries so far are taken.
pub open spec fn one_more_entry(
    s: Seq<u8>,
    seen: Seq<Seq<char>>,
    done: Seq<(Seq<char>, Value)>,
    off: nat,
    strict: bool,
) -> Result<(Seq<(Seq<char>, Value)>, nat), Violation> {
    match decode_entry(s.skip(off as int), strict) {
        Err(e) => Err(e),
        Ok((key, v, k)) => {
            if (seen + keys_of(done)).contains(key) {
                Err(Violation::DuplicateKey)
            } else {
                Ok((done.push((key, v)), off + k))
            }
        },
    }
}

/// Decoding `i + 1` entries is decoding `i` entries and then one more.
#[verifier::rlimit(60)]
#[verifier::spinoff_prover]
pub proof fn lemma_entries_snoc(s: Seq<u8>, i: nat, seen: Seq<Seq<char>>, strict: bool)
    ensures
        decode_entries(s, i + 1, seen, strict) == match decode_entries(s, i, seen, strict) {
            Err(e) => Err(e),
            Ok((done, off)) => one_more_entry(s, seen, done, off, strict),
        },
    decreases i,
{
    lemma_entry_bound(s, strict);
    assert(s.skip(0) =~= s);
    if i == 0 {
        assert(seen + keys_of(Seq::<(Seq<char>, Value)>::empty()) =~= seen);
        match decode_entry(s, strict) {
            Err(e) => {},
            Ok((key, v, k)) => {
                assert(decode_entries(s.skip(k as int), 0, seen.push(key), strict) == Ok::<
                    (Seq<(Seq<char>, Value)>, nat),
                    Violation,
                >((Seq::empty(), 0)));
                assert(seq![(key, v)] + Seq::<(Seq<char>, Value)>::empty() =~= Seq::<
                    (Seq<char>, Value),
                >::empty().push((key, v)));
            },
        }
    } else {
        match decode_entry(s, strict) {
            Err(e) => {},
            Ok((key, v, k)) => {
                if !seen.contains(key) {
                    let t = s.skip(k as int);
                    let seen2 = seen.push(key);
                    lemma_entries_snoc(t, (i - 1) as nat, seen2, strict);
                    lemma_entries_bound(t, (i - 1) as nat, seen2, strict);
                    match decode_entries(t, (i - 1) as nat, seen2, strict) {
                        Err(e) => {},
                        Ok((done, off)) => {
                            let whole = seq![(key, v)] + done;
                            lemma_skip_skip(s, k as int, off as int);
                            assert(seen2 + keys_of(done) =~= seen + keys_of(whole));
                            match decode_entry(t.skip(off as int), strict) {
                                Err(e) => {},
                                Ok((key2, w, k2)) => {
                                    assert(seq![(key, v)] + done.push((key2, w)) =~= whole.push(
                                        (key2, w),
                                    ));
                                },
                            }
                        },
                    }
                }
            },
        }
    }
}

/// Where the first `i` entries cannot be decoded, more cannot either, for
/// the same reason.
pub proof fn lemma_entries_fail(s: Seq<u8>, i: nat, n: nat, seen: Seq<Seq<char>>, strict: bool)
    requires
        i <= n,
        decode_entries(s, i, seen, strict) is Err,
    ensures
        decode_entries(s, n, seen, strict) == decode_entries(s, i, seen, strict),
    decreases n - i,
{
    if i < n {
        lemma_entries_snoc(s, i, seen, strict);
        lemma_entries_fail(s, i + 1, n, seen, strict);
    }
}

// ---- executable decoder ----

/// What a decoding that started at `pos` returned: the value's model and the
/// number of bytes that the value takes.
pub open(crate) spec fn outcome(r: Result<(BoltRef, usize), Violation>, pos: usize) -> Result<
    (Value, nat),
    Violation,
> {
    match r {
        Ok((v, end)) => Ok((v@, (end - pos) as nat)),
        Err(e) => Err(e),
    }
}

/// How far the fields of a structure have been read.
pub ghost struct FieldsRead {
    /// Where the first field starts.
    pub start: int,
    pub tag: u8,
    /// The number of fields that the header announced.
    pub count: nat,
    /// The fields read so far.
    pub done: Seq<Value>,
}

impl FieldsRead {
    /// Whether the fields read so far are those that end at `p`.
    pub open spec fn at(self, buf: Seq<u8>, p: int) -> bool {
        &&& 0 <= self.start <= p <= buf.len()
        &&& self.done.len() <= self.count
        &&& decode_fields(buf.skip(self.start), self.tag, 0, self.done.len(), false) == Ok::<
            (Seq<Value>, nat),
            Violation,
        >((self.done, (p - self.start) as nat))
    }

    /// The kind of the field that comes next.
    pub open spec fn kind(self) -> FieldKind {
        field_kind(self.tag, self.done.len() as int)
    }

    /// The progress after one more field.
    pub open spec fn with(self, v: Value) -> FieldsRead {
        FieldsRead { done: self.done.push(v), ..self }
    }

    /// Whether the fields cannot be decoded, for the reason `e`.
    pub open spec fn failed(self, buf: Seq<u8>, e: Violation) -> bool {
        decode_fields(buf.skip(self.start), self.tag, 0, self.count, false) == Err::<
            (Seq<Value>, nat),
            Violation,
        >(e)
    }
}

/// Reading starts with no field read.
pub proof fn lemma_progress_start(buf: Seq<u8>, pos: int, tag: u8, count: nat)
    requires
        0 <= pos <= buf.len(),
    ensures
        (FieldsRead { start: pos, tag, count, done: Seq::empty() }).at(buf, pos),
{
}

/// The next field either makes the whole structure fail, or is one more
/// field read.
pub proof fn lemma_progress(cx: FieldsRead, buf: Seq<u8>, p: int)
    requires
        cx.at(buf, p),
        cx.done.len() < cx.count,
    ensures
        match decode_field(buf.skip(p), cx.kind(), false) {
            Err(e) => cx.failed(buf, e),
            Ok((v, k)) => cx.with(v).at(buf, p + k),
        },
{
    let s0 = buf.skip(cx.start);
    let b = cx.done.len();
    lemma_fields_snoc(s0, cx.tag, 0, b, false);
    lemma_skip_skip(buf, cx.start, p - cx.start);
    lemma_field_bound(buf.skip(p), cx.kind(), false);
    match decode_field(buf.skip(p), cx.kind(), false) {
        Err(e) => {
            lemma_fields_fail(s0, cx.tag, b + 1, cx.count, false);
        },
        Ok((v, k)) => {},
    }
}

/// The value at `pos`, and the position after it. Strings and byte strings
/// of the value are views into `buf`, deferred properties are parts of
/// `input`, which holds the same bytes.
pub(crate) fn decode_at<'de>(input: &'de Bytes, buf: &'de [u8], pos: usize) -> (r: Result<
    (BoltRef<'de>, usize),
    Violation,
>)
    requires
        buf@ == contents(*input),
        pos <= buf@.len(),
    ensures
        outcome(r, pos) == spec_decode(buf@.skip(pos as int), false),
        r matches Ok((_, end)) ==> pos < end <= buf@.len(),
        r matches Ok((v, _)) ==> ids_whole(v),
    decreases buf@.len() - pos, 0nat,
{
    let ghost s = buf@.skip(pos as int);
    let len: usize = buf.len();
    let (head, h): (Head, usize) = match read_head(buf, pos) {
        Ok(x) => x,
        Err(e) => {
            return Err(e);
        },
    };
    let start: usize = pos + h;
    proof {
        lemma_skip_skip(buf@, pos as int, h as int);
    }
    match head {
        Head::Null => Ok((BoltRef::Null, start)),
        Head::Boolean(b) => Ok((BoltRef::Boolean(b), start)),
        Head::Integer(i) => Ok((BoltRef::Integer(i), start)),
        Head::Float(bits) => Ok((BoltRef::Float(bits), start)),
        Head::Sized(Container::Bytes, n) => {
            if len - start < n as usize {
                return Err(Violation::UnexpectedEnd);
            }
            let end: usize = start + n as usize;
            let data: &'de [u8] = slice_subrange(buf, start, end);
            assert(data@ =~= s.subrange(h as int, h + n));
            Ok((BoltRef::Bytes(data), end))
        },
        Head::Sized(Container::String, n) => {
            if len - start < n as usize {
                return Err(Violation::UnexpectedEnd);
            }
            let end: usize = start + n as usize;
            let data: &'de [u8] = slice_subrange(buf, start, end);
            assert(data@ =~= s.subrange(h as int, h + n));
            match str_from_utf8(data) {
                None => Err(Violation::InvalidUtf8),
                Some(text) => {
                    proof {
                        lemma_decoded(text@, data@);
                    }
                    Ok((BoltRef::String(text), end))
                },
            }
        },
        Head::Sized(Container::List, n) => {
            let ghost s0 = buf@.skip(start as int);
            let mut items: Vec<BoltRef<'de>> = Vec::new();
            let mut p: usize = start;
            let mut i: u32 = 0;
            assert(values_of(items@) =~= Seq::<Value>::empty());
            while i < n
                invariant
                    buf@ == contents(*input),
                    s0 == buf@.skip(start as int),
                    pos < start <= p <= buf@.len(),
                    i <= n,
                    forall|j: int| 0 <= j < items@.len() ==> ids_whole(#[trigger] items@[j]),
                    decode_items(s0, i as nat, false) == Ok::<(Seq<Value>, nat), Violation>(
                        (values_of(items@), (p - start) as nat),
                    ),
                    spec_decode(buf@.skip(pos as int), false) == match decode_items(
                        s0,
                        n as nat,
                        false,
                    ) {
                        Err(e) => Err(e),
                        Ok((all, k)) => Ok((Value::List(all), (start - pos + k) as nat)),
                    },
                decreases n - i,
            {
                proof {
                    lemma_items_snoc(s0, i as nat, false);
                    lemma_skip_skip(buf@, start as int, p - start);
                }
                match decode_at(input, buf, p) {
                    Err(e) => {
                        proof {
                            lemma_items_fail(s0, (i + 1) as nat, n as nat, false);
                        }
                        return Err(e);
                    },
                    Ok((v, end)) => {
                        proof {
                            assert(values_of(items@.push(v)) =~= values_of(items@).push(v@));
                        }
                        items.push(v);
                        p = end;
                    },
                }
                i += 1;
            }
            let v = BoltRef::List(items);
            proof {
                lemma_view_kind(&v);
            }
            Ok((v, p))
        },
        Head::Sized(Container::Dictionary, n) => {
            let ghost s0 = buf@.skip(start as int);
            let mut entries: Vec<(&'de str, BoltRef<'de>)> = Vec::new();
            let mut p: usize = start;
            let mut i: u32 = 0;
            assert(entries_view(entries@) =~= Seq::<(Seq<char>, Value)>::empty());
            assert(entry_keys(entries@) =~= Seq::<Seq<char>>::empty());
            while i < n
                invariant
                    buf@ == contents(*input),
                    s0 == buf@.skip(start as int),
                    pos < start <= p <= buf@.len(),
                    i <= n,
                    entry_keys(entries@).no_duplicates(),
                    forall|j: int|
                        0 <= j < entries@.len() ==> ids_whole((#[trigger] entries@[j]).1),
                    decode_entries(s0, i as nat, Seq::empty(), false) == Ok::<
                        (Seq<(Seq<char>, Value)>, nat),
                        Violation,
                    >((entries_view(entries@), (p - start) as nat)),
                    spec_decode(buf@.skip(pos as int), false) == match decode_entries(
                        s0,
                        n as nat,
                        Seq::empty(),
                        false,
                    ) {
                        Err(e) => Err(e),
                        Ok((all, k)) => Ok((Value::Dictionary(all), (start - pos + k) as nat)),
                    },
                decreases n - i,
            {
                proof {
                    lemma_entries_snoc(s0, i as nat, Seq::empty(), false);
                    lemma_skip_skip(buf@, start as int, p - start);
                    assert(Seq::<Seq<char>>::empty() + keys_of(entries_view(entries@))
                        =~= entry_keys(entries@));
                }
                let (key, value, end) = match decode_entry_at(input, buf, p) {
                    Err(e) => {
                        proof {
                            lemma_entries_fail(s0, (i + 1) as nat, n as nat, Seq::empty(), false);
                        }
                        return Err(e);
                    },
                    Ok(x) => x,
                };
                if has_key(&entries, key) {
                    proof {
                        lemma_entries_fail(s0, (i + 1) as nat, n as nat, Seq::empty(), false);
                    }
                    return Err(Violation::DuplicateKey);
                }
                proof {
                    let e = (key, value);
                    assert(entries_view(entries@.push(e)) =~= entries_view(entries@).push(
                        (key@, value@),
                    ));
                    assert(entry_keys(entries@.push(e)) =~= entry_keys(entries@).push(key@));
                }
                entries.push((key, value));
                p = end;
                i += 1;
            }
            let v = BoltRef::Dictionary(MapRef::from_entries(entries));
            proof {
                lemma_view_kind(&v);
            }
            Ok((v, p))
        },
        Head::Structure(n, tag) => decode_structure(input, buf, start, n, tag),
    }
}

/// Whether one of the entries has the key `key`.
fn has_key(entries: &Vec<(&str, BoltRef)>, key: &str) -> (r: bool)
    ensures
        r == entry_keys(entries@).contains(key@),
{
    let mut i: usize = 0;
    while i < entries.len()
        invariant
            i <= entries@.len(),
            forall|j: int| 0 <= j < i ==> entry_keys(entries@)[j] != key@,
        decreases entries@.len() - i,
    {
        if str_eq(entries[i].0, key) {
            assert(entry_keys(entries@)[i as int] == key@);
            return true;
        }
        i += 1;
    }
    false
}

/// The dictionary entry at `pos`: its key, its value and the position after it.
fn decode_entry_at<'de>(input: &'de Bytes, buf: &'de [u8], pos: usize) -> (r: Result<
    (&'de str, BoltRef<'de>, usize),
    Violation,
>)
    requires
        buf@ == contents(*input),
        pos <= buf@.len(),
    ensures
        match r {
            Ok((key, v, end)) => decode_entry(buf@.skip(pos as int), false) == Ok::<
                (Seq<char>, Value, nat),
                Violation,
            >((key@, v@, (end - pos) as nat)) && pos < end <= buf@.len() && ids_whole(v),
            Err(e) => decode_entry(buf@.skip(pos as int), false) == Err::<
                (Seq<char>, Value, nat),
                Violation,
            >(e),
        },
    decreases buf@.len() - pos, 1nat,
{
    let (k, p): (BoltRef<'de>, usize) = decode_at(input, buf, pos)?;
    proof {
        lemma_view_kind(&k);
        lemma_skip_skip(buf@, pos as int, p - pos);
    }
    match k {
        BoltRef::String(key) => {
            let (v, end): (BoltRef<'de>, usize) = decode_at(input, buf, p)?;
            Ok((key, v, end))
        },
        _ => Err(Violation::UnexpectedMarker),
    }
}

/// The integer field at `p`.
fn take_int<'de>(input: &'de Bytes, buf: &'de [u8], p: usize, Ghost(cx): Ghost<FieldsRead>) -> (r:
    Result<(i64, usize), Violation>)
    requires
        buf@ == contents(*input),
        cx.at(buf@, p as int),
        cx.done.len() < cx.count,
        cx.kind() is Int,
    ensures
        match r {
            Ok((x, end)) => cx.with(Value::Integer(x)).at(buf@, end as int) && p < end,
            Err(e) => cx.failed(buf@, e),
        },
    decreases buf@.len() - p, 1nat,
{
    proof {
        lemma_progress(cx, buf@, p as int);
    }
    let (v, end): (BoltRef<'de>, usize) = decode_at(input, buf, p)?;
    proof {
        lemma_view_kind(&v);
    }
    match v {
        BoltRef::Integer(i) => Ok((i, end)),
        _ => Err(Violation::InvalidField),
    }
}

/// The field at `p`, an integer of 32 bits with a sign.
fn take_i32<'de>(input: &'de Bytes, buf: &'de [u8], p: usize, Ghost(cx): Ghost<FieldsRead>) -> (r:
    Result<(i32, usize), Violation>)
    requires
        buf@ == contents(*input),
        cx.at(buf@, p as int),
        cx.done.len() < cx.count,
        cx.kind() is Int32,
    ensures
        match r {
            Ok((x, end)) => cx.with(Value::Integer(x as i64)).at(buf@, end as int) && p < end,
            Err(e) => cx.failed(buf@, e),
        },
    decreases buf@.len() - p, 1nat,
{
    proof {
        lemma_progress(cx, buf@, p as int);
    }
    let (v, end): (BoltRef<'de>, usize) = decode_at(input, buf, p)?;
    proof {
        lemma_view_kind(&v);
    }
    match v {
        BoltRef::Integer(i) => {
            if i < i32::MIN as i64 || i > i32::MAX as i64 {
                Err(Violation::InvalidField)
            } else {
                Ok((i as i32, end))
            }
        },
        _ => Err(Violation::InvalidField),
    }
}

/// The field at `p`, an integer of 32 bits without a sign.
fn take_u32<'de>(input: &'de Bytes, buf: &'de [u8], p: usize, Ghost(cx): Ghost<FieldsRead>) -> (r:
    Result<(u32, usize), Violation>)
    requires
        buf@ == contents(*input),
        cx.at(buf@, p as int),
        cx.done.len() < cx.count,
        cx.kind() is UInt32,
    ensures
        match r {
            Ok((x, end)) => cx.with(Value::Integer(x as i64)).at(buf@, end as int) && p < end,
            Err(e) => cx.failed(buf@, e),
        },
    decreases buf@.len() - p, 1nat,
{
    proof {
        lemma_progress(cx, buf@, p as int);
    }
    let (v, end): (BoltRef<'de>, usize) = decode_at(input, buf, p)?;
    proof {
        lemma_view_kind(&v);
    }
    match v {
        BoltRef::Integer(i) => {
            if i < 0 || i > u32::MAX as i64 {
                Err(Violation::InvalidField)
            } else {
                Ok((i as u32, end))
            }
        },
        _ => Err(Violation::InvalidField),
    }
}

/// The field at `p`, a double given by its bit pattern.
fn take_float<'de>(input: &'de Bytes, buf: &'de [u8], p: usize, Ghost(cx): Ghost<FieldsRead>) -> (r:
    Result<(u64, usize), Violation>)
    requires
        buf@ == contents(*input),
        cx.at(buf@, p as int),
        cx.done.len() < cx.count,
        cx.kind() is Float,
    ensures
        match r {
            Ok((x, end)) => cx.with(Value::Float(x)).at(buf@, end as int) && p < end,
            Err(e) => cx.failed(buf@, e),
        },
    decreases buf@.len() - p, 1nat,
{
    proof {
        lemma_progress(cx, buf@, p as int);
    }
    let (v, end): (BoltRef<'de>, usize) = decode_at(input, buf, p)?;
    proof {
        lemma_view_kind(&v);
    }
    match v {
        BoltRef::Float(bits) => Ok((bits, end)),
        _ => Err(Violation::InvalidField),
    }
}

/// The string field at `p`.
fn take_text<'de>(input: &'de Bytes, buf: &'de [u8], p: usize, Ghost(cx): Ghost<FieldsRead>) -> (r:
    Result<(&'de str, usize), Violation>)
    requires
        buf@ == contents(*input),
        cx.at(buf@, p as int),
        cx.done.len() < cx.count,
        cx.kind() is Text,
    ensures
        match r {
            Ok((x, end)) => cx.with(Value::String(x@)).at(buf@, end as int) && p < end,
            Err(e) => cx.failed(buf@, e),
        },
    decreases buf@.len() - p, 1nat,
{
    proof {
        lemma_progress(cx, buf@, p as int);
    }
    let (v, end): (BoltRef<'de>, usize) = decode_at(input, buf, p)?;
    proof {
        lemma_view_kind(&v);
    }
    match v {
        BoltRef::String(s) => Ok((s, end)),
        _ => Err(Violation::InvalidField),
    }
}

/// The properties at `p`: checked to be one dictionary, and kept as bytes.
fn take_deferred<'de>(input: &'de Bytes, buf: &'de [u8], p: usize, Ghost(cx): Ghost<FieldsRead>) -> (r:
    Result<(Bytes, usize), Violation>)
    requires
        buf@ == contents(*input),
        cx.at(buf@, p as int),
        cx.done.len() < cx.count,
        cx.kind() is Deferred,
    ensures
        match r {
            Ok((x, end)) => cx.with(Value::Deferred(contents(x))).at(buf@, end as int) && p < end && is_dictionary(contents(x)),
            Err(e) => cx.failed(buf@, e),
        },
    decreases buf@.len() - p, 1nat,
{
    proof {
        lemma_progress(cx, buf@, p as int);
    }
    let (v, end): (BoltRef<'de>, usize) = decode_at(input, buf, p)?;
    proof {
        lemma_view_kind(&v);
    }
    match v {
        BoltRef::Dictionary(_) => {
            proof {
                crate::packstream::locality::lemma_deferred_is_dictionary(buf@.skip(p as int));
            }
            let raw: Bytes = slice(input, p, end);
            assert(contents(raw) =~= buf@.skip(p as int).take(end - p));
            Ok((raw, end))
        },
        _ => Err(Violation::InvalidField),
    }
}

/// The field at `p`, a list of strings.
fn take_texts<'de>(input: &'de Bytes, buf: &'de [u8], p: usize, Ghost(cx): Ghost<FieldsRead>) -> (r:
    Result<(Vec<&'de str>, usize), Violation>)
    requires
        buf@ == contents(*input),
        cx.at(buf@, p as int),
        cx.done.len() < cx.count,
        cx.kind() is TextList,
    ensures
        match r {
            Ok((x, end)) => cx.with(Value::List(text_values(x@))).at(buf@, end as int) && p < end,
            Err(e) => cx.failed(buf@, e),
        },
    decreases buf@.len() - p, 1nat,
{
    proof {
        lemma_progress(cx, buf@, p as int);
    }
    let (v, end): (BoltRef<'de>, usize) = decode_at(input, buf, p)?;
    proof {
        lemma_view_kind(&v);
    }
    match v {
        BoltRef::List(items) => {
            let ghost values = values_of(items@);
            let mut out: Vec<&'de str> = Vec::new();
            for x in it: items
                invariant
                    it.seq() == items@,
                    values == values_of(items@),
                    out@.len() == it.index(),
                    !all_text(values) ==> cx.failed(buf@, Violation::InvalidField),
                    forall|j: int|
                        0 <= j < out@.len() ==> (#[trigger] text_values(out@)[j]) == values[j],
            {
                proof {
                    lemma_view_kind(&x);
                    assert(values[it.index() as int] == x@);
                }
                match x {
                    BoltRef::String(s) => {
                        proof {
                            assert forall|j: int| 0 <= j < out@.len() + 1 implies (
                            #[trigger] text_values(out@.push(s))[j]) == values[j] by {
                                if j < out@.len() {
                                    assert(text_values(out@)[j] == values[j]);
                                }
                            }
                        }
                        out.push(s);
                    },
                    _ => {
                        assert(!all_text(values));
                        return Err(Violation::InvalidField);
                    },
                }
            }
            assert(text_values(out@) =~= values);
            Ok((out, end))
        },
        _ => Err(Violation::InvalidField),
    }
}

/// The field at `p`, a list of nodes.
fn take_nodes<'de>(input: &'de Bytes, buf: &'de [u8], p: usize, Ghost(cx): Ghost<FieldsRead>) -> (r:
    Result<(Vec<NodeRef<'de>>, usize), Violation>)
    requires
        buf@ == contents(*input),
        cx.at(buf@, p as int),
        cx.done.len() < cx.count,
        cx.kind() is Nodes,
    ensures
        match r {
            Ok((x, end)) => cx.with(Value::List(node_values(x@))).at(buf@, end as int) && p < end,
            Err(e) => cx.failed(buf@, e),
        },
    decreases buf@.len() - p, 1nat,
{
    proof {
        lemma_progress(cx, buf@, p as int);
    }
    let (v, end): (BoltRef<'de>, usize) = decode_at(input, buf, p)?;
    proof {
        lemma_view_kind(&v);
    }
    match v {
        BoltRef::List(items) => {
            let ghost values = values_of(items@);
            let mut out: Vec<NodeRef<'de>> = Vec::new();
            for x in it: items
                invariant
                    it.seq() == items@,
                    values == values_of(items@),
                    out@.len() == it.index(),
                    !all_tagged(values, TAG_NODE) ==> cx.failed(buf@, Violation::InvalidField),
                    forall|j: int|
                        0 <= j < out@.len() ==> (#[trigger] node_values(out@)[j]) == values[j],
            {
                proof {
                    lemma_view_kind(&x);
                    assert(values[it.index() as int] == x@);
                }
                match x {
                    BoltRef::Node(n) => {
                        proof {
                            assert forall|j: int| 0 <= j < out@.len() + 1 implies (
                            #[trigger] node_values(out@.push(n))[j]) == values[j] by {
                                if j < out@.len() {
                                    assert(node_values(out@)[j] == values[j]);
                                }
                            }
                        }
                        out.push(n);
                    },
                    _ => {
                        assert(!all_tagged(values, TAG_NODE));
                        return Err(Violation::InvalidField);
                    },
                }
            }
            assert(node_values(out@) =~= values);
            Ok((out, end))
        },
        _ => Err(Violation::InvalidField),
    }
}

/// The field at `p`, a list of relationships without end nodes.
fn take_relationships<'de>(input: &'de Bytes, buf: &'de [u8], p: usize, Ghost(cx): Ghost<FieldsRead>) -> (r:
    Result<(Vec<UnboundRelationship<'de>>, usize), Violation>)
    requires
        buf@ == contents(*input),
        cx.at(buf@, p as int),
        cx.done.len() < cx.count,
        cx.kind() is Relationships,
    ensures
        match r {
            Ok((x, end)) => cx.with(Value::List(relationship_values(x@))).at(buf@, end as int) && p < end,
            Err(e) => cx.failed(buf@, e),
        },
    decreases buf@.len() - p, 1nat,
{
    proof {
        lemma_progress(cx, buf@, p as int);
    }
    let (v, end): (BoltRef<'de>, usize) = decode_at(input, buf, p)?;
    proof {
        lemma_view_kind(&v);
    }
    match v {
        BoltRef::List(items) => {
            let ghost values = values_of(items@);
            let mut out: Vec<UnboundRelationship<'de>> = Vec::new();
            for x in it: items
                invariant
                    it.seq() == items@,
                    values == values_of(items@),
                    out@.len() == it.index(),
                    !all_tagged(values, TAG_UNBOUND_RELATIONSHIP) ==> cx.failed(buf@, Violation::InvalidField),
                    forall|j: int|
                        0 <= j < out@.len() ==> (#[trigger] relationship_values(out@)[j]) == values[j],
            {
                proof {
                    lemma_view_kind(&x);
                    assert(values[it.index() as int] == x@);
                }
                match x {
                    BoltRef::UnboundRelationship(u) => {
                        proof {
                            assert forall|j: int| 0 <= j < out@.len() + 1 implies (
                            #[trigger] relationship_values(out@.push(u))[j]) == values[j] by {
                                if j < out@.len() {
                                    assert(relationship_values(out@)[j] == values[j]);
                                }
                            }
                        }
                        out.push(u);
                    },
                    _ => {
                        assert(!all_tagged(values, TAG_UNBOUND_RELATIONSHIP));
                        return Err(Violation::InvalidField);
                    },
                }
            }
            assert(relationship_values(out@) =~= values);
            Ok((out, end))
        },
        _ => Err(Violation::InvalidField),
    }
}

/// The field at `p`, a list of integers.
fn take_indices<'de>(input: &'de Bytes, buf: &'de [u8], p: usize, Ghost(cx): Ghost<FieldsRead>) -> (r:
    Result<(Vec<i64>, usize), Violation>)
    requires
        buf@ == contents(*input),
        cx.at(buf@, p as int),
        cx.done.len() < cx.count,
        cx.kind() is Indices,
    ensures
        match r {
            Ok((x, end)) => cx.with(Value::List(int_values(x@))).at(buf@, end as int) && p < end,
            Err(e) => cx.failed(buf@, e),
        },
    decreases buf@.len() - p, 1nat,
{
    proof {
        lemma_progress(cx, buf@, p as int);
    }
    let (v, end): (BoltRef<'de>, usize) = decode_at(input, buf, p)?;
    proof {
        lemma_view_kind(&v);
    }
    match v {
        BoltRef::List(items) => {
            let ghost values = values_of(items@);
            let mut out: Vec<i64> = Vec::new();
            for x in it: items
                invariant
                    it.seq() == items@,
                    values == values_of(items@),
                    out@.len() == it.index(),
                    !all_int(values) ==> cx.failed(buf@, Violation::InvalidField),
                    forall|j: int|
                        0 <= j < out@.len() ==> (#[trigger] int_values(out@)[j]) == values[j],
            {
                proof {
                    lemma_view_kind(&x);
                    assert(values[it.index() as int] == x@);
                }
                match x {
                    BoltRef::Integer(i) => {
                        proof {
                            assert forall|j: int| 0 <= j < out@.len() + 1 implies (
                            #[trigger] int_values(out@.push(i))[j]) == values[j] by {
                                if j < out@.len() {
                                    assert(int_values(out@)[j] == values[j]);
                                }
                            }
                        }
                        out.push(i);
                    },
                    _ => {
                        assert(!all_int(values));
                        return Err(Violation::InvalidField);
                    },
                }
            }
            assert(int_values(out@) =~= values);
            Ok((out, end))
        },
        _ => Err(Violation::InvalidField),
    }
}

/// What the decoding of a structure returned, whose fields start at `pos`.
pub open(crate) spec fn structured(
    r: Result<(BoltRef, usize), Violation>,
    buf: Seq<u8>,
    pos: usize,
    tag: u8,
    n: nat,
) -> bool {
    match decode_fields(buf.skip(pos as int), tag, 0, n, false) {
        Err(e) => r == Err::<(BoltRef, usize), Violation>(e),
        Ok((fields, k)) => {
            if tag == TAG_PATH && !path_ok(fields) {
                r == Err::<(BoltRef, usize), Violation>(Violation::InvalidField)
            } else {
                r matches Ok((v, end)) && v@ == (Value::Structure { tag, fields }) && end == pos
                    + k && ids_whole(v)
            }
        },
    }
}

/// A date, whose fields start at `pos`.
fn decode_date<'de>(input: &'de Bytes, buf: &'de [u8], pos: usize, n: u8) -> (r: Result<
    (BoltRef<'de>, usize),
    Violation,
>)
    requires
        buf@ == contents(*input),
        pos <= buf@.len(),
        n == 1,
    ensures
        structured(r, buf@, pos, TAG_DATE, n as nat),
        r matches Ok((_, end)) ==> pos < end <= buf@.len(),
    decreases buf@.len() - pos, 2nat,
{
    let ghost cx0 = FieldsRead { start: pos as int, tag: TAG_DATE, count: n as nat, done: Seq::empty() };
    proof {
        lemma_progress_start(buf@, pos as int, TAG_DATE, n as nat);
    }
    let p: usize = pos;
    let (days, p) = take_int(input, buf, p, Ghost(cx0))?;
    let ghost cx1 = cx0.with(Value::Integer(days));
    let v = Date { days };
    proof {
        let fields = cx1.done;
        assert(v@ == Value::Structure { tag: TAG_DATE, fields }) by {
            assert(v@->fields =~= fields);
        }
    }
    Ok((BoltRef::Date(v), p))
}

/// A time of day with its offset.
fn decode_time<'de>(input: &'de Bytes, buf: &'de [u8], pos: usize, n: u8) -> (r: Result<
    (BoltRef<'de>, usize),
    Violation,
>)
    requires
        buf@ == contents(*input),
        pos <= buf@.len(),
        n == 2,
    ensures
        structured(r, buf@, pos, TAG_TIME, n as nat),
        r matches Ok((_, end)) ==> pos < end <= buf@.len(),
    decreases buf@.len() - pos, 2nat,
{
    let ghost cx0 = FieldsRead { start: pos as int, tag: TAG_TIME, count: n as nat, done: Seq::empty() };
    proof {
        lemma_progress_start(buf@, pos as int, TAG_TIME, n as nat);
    }
    let p: usize = pos;
    let (nanoseconds, p) = take_int(input, buf, p, Ghost(cx0))?;
    let ghost cx1 = cx0.with(Value::Integer(nanoseconds));
    let (tz_offset_seconds, p) = take_i32(input, buf, p, Ghost(cx1))?;
    let ghost cx2 = cx1.with(Value::Integer(tz_offset_seconds as i64));
    let v = Time { nanoseconds, tz_offset_seconds };
    proof {
        let fields = cx2.done;
        assert(v@ == Value::Structure { tag: TAG_TIME, fields }) by {
            assert(v@->fields =~= fields);
        }
    }
    Ok((BoltRef::Time(v), p))
}

/// A time of day.
fn decode_local_time<'de>(input: &'de Bytes, buf: &'de [u8], pos: usize, n: u8) -> (r: Result<
    (BoltRef<'de>, usize),
    Violation,
>)
    requires
        buf@ == contents(*input),
        pos <= buf@.len(),
        n == 1,
    ensures
        structured(r, buf@, pos, TAG_LOCAL_TIME, n as nat),
        r matches Ok((_, end)) ==> pos < end <= buf@.len(),
    decreases buf@.len() - pos, 2nat,
{
    let ghost cx0 = FieldsRead { start: pos as int, tag: TAG_LOCAL_TIME, count: n as nat, done: Seq::empty() };
    proof {
        lemma_progress_start(buf@, pos as int, TAG_LOCAL_TIME, n as nat);
    }
    let p: usize = pos;
    let (nanoseconds, p) = take_int(input, buf, p, Ghost(cx0))?;
    let ghost cx1 = cx0.with(Value::Integer(nanoseconds));
    let v = LocalTime { nanoseconds };
    proof {
        let fields = cx1.done;
        assert(v@ == Value::Structure { tag: TAG_LOCAL_TIME, fields }) by {
            assert(v@->fields =~= fields);
        }
    }
    Ok((BoltRef::LocalTime(v), p))
}

/// An instant with its offset.
fn decode_date_time<'de>(input: &'de Bytes, buf: &'de [u8], pos: usize, n: u8) -> (r: Result<
    (BoltRef<'de>, usize),
    Violation,
>)
    requires
        buf@ == contents(*input),
        pos <= buf@.len(),
        n == 3,
    ensures
        structured(r, buf@, pos, TAG_DATE_TIME, n as nat),
        r matches Ok((_, end)) ==> pos < end <= buf@.len(),
    decreases buf@.len() - pos, 2nat,
{
    let ghost cx0 = FieldsRead { start: pos as int, tag: TAG_DATE_TIME, count: n as nat, done: Seq::empty() };
    proof {
        lemma_progress_start(buf@, pos as int, TAG_DATE_TIME, n as nat);
    }
    let p: usize = pos;
    let (seconds, p) = take_int(input, buf, p, Ghost(cx0))?;
    let ghost cx1 = cx0.with(Value::Integer(seconds));
    let (nanoseconds, p) = take_u32(input, buf, p, Ghost(cx1))?;
    let ghost cx2 = cx1.with(Value::Integer(nanoseconds as i64));
    let (tz_offset_seconds, p) = take_i32(input, buf, p, Ghost(cx2))?;
    let ghost cx3 = cx2.with(Value::Integer(tz_offset_seconds as i64));
    let v = DateTime { seconds, nanoseconds, tz_offset_seconds };
    proof {
        let fields = cx3.done;
        assert(v@ == Value::Structure { tag: TAG_DATE_TIME, fields }) by {
            assert(v@->fields =~= fields);
        }
    }
    Ok((BoltRef::DateTime(v), p))
}

/// An instant with its named time zone.
fn decode_date_time_zone_id<'de>(input: &'de Bytes, buf: &'de [u8], pos: usize, n: u8) -> (r: Result<
    (BoltRef<'de>, usize),
    Violation,
>)
    requires
        buf@ == contents(*input),
        pos <= buf@.len(),
        n == 3,
    ensures
        structured(r, buf@, pos, TAG_DATE_TIME_ZONE_ID, n as nat),
        r matches Ok((_, end)) ==> pos < end <= buf@.len(),
    decreases buf@.len() - pos, 2nat,
{
    let ghost cx0 = FieldsRead { start: pos as int, tag: TAG_DATE_TIME_ZONE_ID, count: n as nat, done: Seq::empty() };
    proof {
        lemma_progress_start(buf@, pos as int, TAG_DATE_TIME_ZONE_ID, n as nat);
    }
    let p: usize = pos;
    let (seconds, p) = take_int(input, buf, p, Ghost(cx0))?;
    let ghost cx1 = cx0.with(Value::Integer(seconds));
    let (nanoseconds, p) = take_u32(input, buf, p, Ghost(cx1))?;
    let ghost cx2 = cx1.with(Value::Integer(nanoseconds as i64));
    let (tz_id, p) = take_text(input, buf, p, Ghost(cx2))?;
    let ghost cx3 = cx2.with(Value::String(tz_id@));
    let v = DateTimeZoneIdRef { seconds, nanoseconds, tz_id };
    proof {
        let fields = cx3.done;
        assert(v@ == Value::Structure { tag: TAG_DATE_TIME_ZONE_ID, fields }) by {
            assert(v@->fields =~= fields);
        }
    }
    Ok((BoltRef::DateTimeZoneId(v), p))
}

/// A date and time.
fn decode_local_date_time<'de>(input: &'de Bytes, buf: &'de [u8], pos: usize, n: u8) -> (r: Result<
    (BoltRef<'de>, usize),
    Violation,
>)
    requires
        buf@ == contents(*input),
        pos <= buf@.len(),
        n == 2,
    ensures
        structured(r, buf@, pos, TAG_LOCAL_DATE_TIME, n as nat),
        r matches Ok((_, end)) ==> pos < end <= buf@.len(),
    decreases buf@.len() - pos, 2nat,
{
    let ghost cx0 = FieldsRead { start: pos as int, tag: TAG_LOCAL_DATE_TIME, count: n as nat, done: Seq::empty() };
    proof {
        lemma_progress_start(buf@, pos as int, TAG_LOCAL_DATE_TIME, n as nat);
    }
    let p: usize = pos;
    let (seconds, p) = take_int(input, buf, p, Ghost(cx0))?;
    let ghost cx1 = cx0.with(Value::Integer(seconds));
    let (nanoseconds, p) = take_u32(input, buf, p, Ghost(cx1))?;
    let ghost cx2 = cx1.with(Value::Integer(nanoseconds as i64));
    let v = LocalDateTime { seconds, nanoseconds };
    proof {
        let fields = cx2.done;
        assert(v@ == Value::Structure { tag: TAG_LOCAL_DATE_TIME, fields }) by {
            assert(v@->fields =~= fields);
        }
    }
    Ok((BoltRef::LocalDateTime(v), p))
}

/// An instant in the older form.
fn decode_legacy_date_time<'de>(input: &'de Bytes, buf: &'de [u8], pos: usize, n: u8) -> (r: Result<
    (BoltRef<'de>, usize),
    Violation,
>)
    requires
        buf@ == contents(*input),
        pos <= buf@.len(),
        n == 3,
    ensures
        structured(r, buf@, pos, TAG_LEGACY_DATE_TIME, n as nat),
        r matches Ok((_, end)) ==> pos < end <= buf@.len(),
    decreases buf@.len() - pos, 2nat,
{
    let ghost cx0 = FieldsRead { start: pos as int, tag: TAG_LEGACY_DATE_TIME, count: n as nat, done: Seq::empty() };
    proof {
        lemma_progress_start(buf@, pos as int, TAG_LEGACY_DATE_TIME, n as nat);
    }
    let p: usize = pos;
    let (seconds, p) = take_int(input, buf, p, Ghost(cx0))?;
    let ghost cx1 = cx0.with(Value::Integer(seconds));
    let (nanoseconds, p) = take_u32(input, buf, p, Ghost(cx1))?;
    let ghost cx2 = cx1.with(Value::Integer(nanoseconds as i64));
    let (tz_offset_seconds, p) = take_i32(input, buf, p, Ghost(cx2))?;
    let ghost cx3 = cx2.with(Value::Integer(tz_offset_seconds as i64));
    let v = LegacyDateTime { seconds, nanoseconds, tz_offset_seconds };
    proof {
        let fields = cx3.done;
        assert(v@ == Value::Structure { tag: TAG_LEGACY_DATE_TIME, fields }) by {
            assert(v@->fields =~= fields);
        }
    }
    Ok((BoltRef::LegacyDateTime(v), p))
}

/// An instant in the older form with its named time zone.
fn decode_legacy_date_time_zone_id<'de>(input: &'de Bytes, buf: &'de [u8], pos: usize, n: u8) -> (r: Result<
    (BoltRef<'de>, usize),
    Violation,
>)
    requires
        buf@ == contents(*input),
        pos <= buf@.len(),
        n == 3,
    ensures
        structured(r, buf@, pos, TAG_LEGACY_DATE_TIME_ZONE_ID, n as nat),
        r matches Ok((_, end)) ==> pos < end <= buf@.len(),
    decreases buf@.len() - pos, 2nat,
{
    let ghost cx0 = FieldsRead { start: pos as int, tag: TAG_LEGACY_DATE_TIME_ZONE_ID, count: n as nat, done: Seq::empty() };
    proof {
        lemma_progress_start(buf@, pos as int, TAG_LEGACY_DATE_TIME_ZONE_ID, n as nat);
    }
    let p: usize = pos;
    let (seconds, p) = take_int(input, buf, p, Ghost(cx0))?;
    let ghost cx1 = cx0.with(Value::Integer(seconds));
    let (nanoseconds, p) = take_u32(input, buf, p, Ghost(cx1))?;
    let ghost cx2 = cx1.with(Value::Integer(nanoseconds as i64));
    let (tz_id, p) = take_text(input, buf, p, Ghost(cx2))?;
    let ghost cx3 = cx2.with(Value::String(tz_id@));
    let v = LegacyDateTimeZoneIdRef { seconds, nanoseconds, tz_id };
    proof {
        let fields = cx3.done;
        assert(v@ == Value::Structure { tag: TAG_LEGACY_DATE_TIME_ZONE_ID, fields }) by {
            assert(v@->fields =~= fields);
        }
    }
    Ok((BoltRef::LegacyDateTimeZoneId(v), p))
}

/// A duration.
fn decode_duration<'de>(input: &'de Bytes, buf: &'de [u8], pos: usize, n: u8) -> (r: Result<
    (BoltRef<'de>, usize),
    Violation,
>)
    requires
        buf@ == contents(*input),
        pos <= buf@.len(),
        n == 4,
    ensures
        structured(r, buf@, pos, TAG_DURATION, n as nat),
        r matches Ok((_, end)) ==> pos < end <= buf@.len(),
    decreases buf@.len() - pos, 2nat,
{
    let ghost cx0 = FieldsRead { start: pos as int, tag: TAG_DURATION, count: n as nat, done: Seq::empty() };
    proof {
        lemma_progress_start(buf@, pos as int, TAG_DURATION, n as nat);
    }
    let p: usize = pos;
    let (months, p) = take_int(input, buf, p, Ghost(cx0))?;
    let ghost cx1 = cx0.with(Value::Integer(months));
    let (days, p) = take_int(input, buf, p, Ghost(cx1))?;
    let ghost cx2 = cx1.with(Value::Integer(days));
    let (seconds, p) = take_int(input, buf, p, Ghost(cx2))?;
    let ghost cx3 = cx2.with(Value::Integer(seconds));
    let (nanoseconds, p) = take_i32(input, buf, p, Ghost(cx3))?;
    let ghost cx4 = cx3.with(Value::Integer(nanoseconds as i64));
    let v = Duration { months, days, seconds, nanoseconds };
    proof {
        let fields = cx4.done;
        assert(v@ == Value::Structure { tag: TAG_DURATION, fields }) by {
            assert(v@->fields =~= fields);
        }
    }
    Ok((BoltRef::Duration(v), p))
}

/// A point in a plane.
fn decode_point_2d<'de>(input: &'de Bytes, buf: &'de [u8], pos: usize, n: u8) -> (r: Result<
    (BoltRef<'de>, usize),
    Violation,
>)
    requires
        buf@ == contents(*input),
        pos <= buf@.len(),
        n == 3,
    ensures
        structured(r, buf@, pos, TAG_POINT_2D, n as nat),
        r matches Ok((_, end)) ==> pos < end <= buf@.len(),
    decreases buf@.len() - pos, 2nat,
{
    let ghost cx0 = FieldsRead { start: pos as int, tag: TAG_POINT_2D, count: n as nat, done: Seq::empty() };
    proof {
        lemma_progress_start(buf@, pos as int, TAG_POINT_2D, n as nat);
    }
    let p: usize = pos;
    let (srid, p) = take_i32(input, buf, p, Ghost(cx0))?;
    let ghost cx1 = cx0.with(Value::Integer(srid as i64));
    let (x, p) = take_float(input, buf, p, Ghost(cx1))?;
    let ghost cx2 = cx1.with(Value::Float(x));
    let (y, p) = take_float(input, buf, p, Ghost(cx2))?;
    let ghost cx3 = cx2.with(Value::Float(y));
    let v = Point2D { srid, x, y };
    proof {
        let fields = cx3.done;
        assert(v@ == Value::Structure { tag: TAG_POINT_2D, fields }) by {
            assert(v@->fields =~= fields);
        }
    }
    Ok((BoltRef::Point2D(v), p))
}

/// A point in space.
fn decode_point_3d<'de>(input: &'de Bytes, buf: &'de [u8], pos: usize, n: u8) -> (r: Result<
    (BoltRef<'de>, usize),
    Violation,
>)
    requires
        buf@ == contents(*input),
        pos <= buf@.len(),
        n == 4,
    ensures
        structured(r, buf@, pos, TAG_POINT_3D, n as nat),
        r matches Ok((_, end)) ==> pos < end <= buf@.len(),
    decreases buf@.len() - pos, 2nat,
{
    let ghost cx0 = FieldsRead { start: pos as int, tag: TAG_POINT_3D, count: n as nat, done: Seq::empty() };
    proof {
        lemma_progress_start(buf@, pos as int, TAG_POINT_3D, n as nat);
    }
    let p: usize = pos;
    let (srid, p) = take_i32(input, buf, p, Ghost(cx0))?;
    let ghost cx1 = cx0.with(Value::Integer(srid as i64));
    let (x, p) = take_float(input, buf, p, Ghost(cx1))?;
    let ghost cx2 = cx1.with(Value::Float(x));
    let (y, p) = take_float(input, buf, p, Ghost(cx2))?;
    let ghost cx3 = cx2.with(Value::Float(y));
    let (z, p) = take_float(input, buf, p, Ghost(cx3))?;
    let ghost cx4 = cx3.with(Value::Float(z));
    let v = Point3D { srid, x, y, z };
    proof {
        let fields = cx4.done;
        assert(v@ == Value::Structure { tag: TAG_POINT_3D, fields }) by {
            assert(v@->fields =~= fields);
        }
    }
    Ok((BoltRef::Point3D(v), p))
}

/// A node, whose fields start at `pos`.
fn decode_node<'de>(input: &'de Bytes, buf: &'de [u8], pos: usize, n: u8) -> (r: Result<
    (BoltRef<'de>, usize),
    Violation,
>)
    requires
        buf@ == contents(*input),
        pos <= buf@.len(),
        n == 3 || n == 4,
    ensures
        structured(r, buf@, pos, TAG_NODE, n as nat),
        r matches Ok((_, end)) ==> pos < end <= buf@.len(),
    decreases buf@.len() - pos, 2nat,
{
    let ghost cx0 = FieldsRead { start: pos as int, tag: TAG_NODE, count: n as nat, done: Seq::empty() };
    proof {
        lemma_progress_start(buf@, pos as int, TAG_NODE, n as nat);
    }
    let (id, p) = take_int(input, buf, pos, Ghost(cx0))?;
    let ghost cx1 = cx0.with(Value::Integer(id));
    let (labels, p) = take_texts(input, buf, p, Ghost(cx1))?;
    let ghost cx2 = cx1.with(Value::List(text_values(labels@)));
    let (properties, p) = take_deferred(input, buf, p, Ghost(cx2))?;
    let ghost cx3 = cx2.with(Value::Deferred(contents(properties)));
    if n == 4 {
        let (element_id, p) = take_text(input, buf, p, Ghost(cx3))?;
        let node = NodeRef { id, labels, properties, element_id: Some(element_id) };
        proof {
            let fields = cx3.with(Value::String(element_id@)).done;
            assert(node@ == Value::Structure { tag: TAG_NODE, fields }) by {
                assert(node@->fields =~= fields);
            }
        }
        Ok((BoltRef::Node(node), p))
    } else {
        let node = NodeRef { id, labels, properties, element_id: None };
        proof {
            let fields = cx3.done;
            assert(node@ == Value::Structure { tag: TAG_NODE, fields }) by {
                assert(node@->fields =~= fields);
            }
        }
        Ok((BoltRef::Node(node), p))
    }
}

/// A relationship without its end nodes, whose fields start at `pos`.
fn decode_unbound_relationship<'de>(input: &'de Bytes, buf: &'de [u8], pos: usize, n: u8) -> (r:
    Result<(BoltRef<'de>, usize), Violation>)
    requires
        buf@ == contents(*input),
        pos <= buf@.len(),
        n == 3 || n == 4,
    ensures
        structured(r, buf@, pos, TAG_UNBOUND_RELATIONSHIP, n as nat),
        r matches Ok((_, end)) ==> pos < end <= buf@.len(),
    decreases buf@.len() - pos, 2nat,
{
    let ghost cx0 = FieldsRead {
        start: pos as int,
        tag: TAG_UNBOUND_RELATIONSHIP,
        count: n as nat,
        done: Seq::empty(),
    };
    proof {
        lemma_progress_start(buf@, pos as int, TAG_UNBOUND_RELATIONSHIP, n as nat);
    }
    let (id, p) = take_int(input, buf, pos, Ghost(cx0))?;
    let ghost cx1 = cx0.with(Value::Integer(id));
    let (typ, p) = take_text(input, buf, p, Ghost(cx1))?;
    let ghost cx2 = cx1.with(Value::String(typ@));
    let (properties, p) = take_deferred(input, buf, p, Ghost(cx2))?;
    let ghost cx3 = cx2.with(Value::Deferred(contents(properties)));
    if n == 4 {
        let (element_id, p) = take_text(input, buf, p, Ghost(cx3))?;
        let rel = UnboundRelationship { id, typ, properties, element_id: Some(element_id) };
        proof {
            let fields = cx3.with(Value::String(element_id@)).done;
            assert(rel@ == Value::Structure { tag: TAG_UNBOUND_RELATIONSHIP, fields }) by {
                assert(rel@->fields =~= fields);
            }
        }
        Ok((BoltRef::UnboundRelationship(rel), p))
    } else {
        let rel = UnboundRelationship { id, typ, properties, element_id: None };
        proof {
            let fields = cx3.done;
            assert(rel@ == Value::Structure { tag: TAG_UNBOUND_RELATIONSHIP, fields }) by {
                assert(rel@->fields =~= fields);
            }
        }
        Ok((BoltRef::UnboundRelationship(rel), p))
    }
}

/// A relationship, whose fields start at `pos`.
fn decode_relationship<'de>(input: &'de Bytes, buf: &'de [u8], pos: usize, n: u8) -> (r: Result<
    (BoltRef<'de>, usize),
    Violation,
>)
    requires
        buf@ == contents(*input),
        pos <= buf@.len(),
        n == 5 || n == 8,
    ensures
        structured(r, buf@, pos, TAG_RELATIONSHIP, n as nat),
        r matches Ok((_, end)) ==> pos < end <= buf@.len(),
    decreases buf@.len() - pos, 2nat,
{
    let ghost cx0 = FieldsRead {
        start: pos as int,
        tag: TAG_RELATIONSHIP,
        count: n as nat,
        done: Seq::empty(),
    };
    proof {
        lemma_progress_start(buf@, pos as int, TAG_RELATIONSHIP, n as nat);
    }
    let (id, p) = take_int(input, buf, pos, Ghost(cx0))?;
    let ghost cx1 = cx0.with(Value::Integer(id));
    let (start_node_id, p) = take_int(input, buf, p, Ghost(cx1))?;
    let ghost cx2 = cx1.with(Value::Integer(start_node_id));
    let (end_node_id, p) = take_int(input, buf, p, Ghost(cx2))?;
    let ghost cx3 = cx2.with(Value::Integer(end_node_id));
    let (typ, p) = take_text(input, buf, p, Ghost(cx3))?;
    let ghost cx4 = cx3.with(Value::String(typ@));
    let (properties, p) = take_deferred(input, buf, p, Ghost(cx4))?;
    let ghost cx5 = cx4.with(Value::Deferred(contents(properties)));
    if n == 8 {
        let (a, p) = take_text(input, buf, p, Ghost(cx5))?;
        let ghost cx6 = cx5.with(Value::String(a@));
        let (b, p) = take_text(input, buf, p, Ghost(cx6))?;
        let ghost cx7 = cx6.with(Value::String(b@));
        let (c, p) = take_text(input, buf, p, Ghost(cx7))?;
        let rel = Relationship {
            id,
            start_node_id,
            end_node_id,
            typ,
            properties,
            element_id: Some(a),
            start_node_element_id: Some(b),
            end_node_element_id: Some(c),
        };
        proof {
            let fields = cx7.with(Value::String(c@)).done;
            assert(rel@ == Value::Structure { tag: TAG_RELATIONSHIP, fields }) by {
                assert(rel@->fields =~= fields);
            }
        }
        Ok((BoltRef::Relationship(rel), p))
    } else {
        let rel = Relationship {
            id,
            start_node_id,
            end_node_id,
            typ,
            properties,
            element_id: None,
            start_node_element_id: None,
            end_node_element_id: None,
        };
        proof {
            let fields = cx5.done;
            assert(rel@ == Value::Structure { tag: TAG_RELATIONSHIP, fields }) by {
                assert(rel@->fields =~= fields);
            }
        }
        Ok((BoltRef::Relationship(rel), p))
    }
}

/// Whether the pairs of `indices` describe a walk over `nodes` nodes and
/// `rels` relationships.
pub(crate) fn check_walk(nodes: usize, rels: usize, indices: &Vec<i64>) -> (r: bool)
    ensures
        r == walk_ok(nodes as nat, rels as nat, indices@),
{
    if nodes == 0 || indices.len() % 2 != 0 {
        return false;
    }
    let mut j: usize = 0;
    while j < indices.len()
        invariant
            j <= indices@.len(),
            forall|k: int|
                0 <= k < j ==> if k % 2 == 0 {
                    (#[trigger] indices@[k]) != 0 && -(rels as int) <= indices@[k] <= rels
                } else {
                    0 <= indices@[k] < nodes
                },
        decreases indices@.len() - j,
    {
        let x: i64 = indices[j];
        if j % 2 == 0 {
            let fits: bool = if x > 0 {
                (x as u64) <= (rels as u64)
            } else if x < 0 {
                ((-(x + 1)) as u64) < (rels as u64)
            } else {
                false
            };
            if !fits {
                return false;
            }
        } else {
            if x < 0 || (x as u64) >= (nodes as u64) {
                return false;
            }
        }
        j += 1;
    }
    true
}

/// A path, whose fields start at `pos`.
fn decode_path<'de>(input: &'de Bytes, buf: &'de [u8], pos: usize, n: u8) -> (r: Result<
    (BoltRef<'de>, usize),
    Violation,
>)
    requires
        buf@ == contents(*input),
        pos <= buf@.len(),
        n == 3,
    ensures
        structured(r, buf@, pos, TAG_PATH, n as nat),
        r matches Ok((_, end)) ==> pos < end <= buf@.len(),
    decreases buf@.len() - pos, 2nat,
{
    let ghost cx0 = FieldsRead { start: pos as int, tag: TAG_PATH, count: n as nat, done: Seq::empty() };
    proof {
        lemma_progress_start(buf@, pos as int, TAG_PATH, n as nat);
    }
    let (nodes, p) = take_nodes(input, buf, pos, Ghost(cx0))?;
    let ghost cx1 = cx0.with(Value::List(node_values(nodes@)));
    let (rels, p) = take_relationships(input, buf, p, Ghost(cx1))?;
    let ghost cx2 = cx1.with(Value::List(relationship_values(rels@)));
    let (indices, p) = take_indices(input, buf, p, Ghost(cx2))?;
    let ghost cx3 = cx2.with(Value::List(int_values(indices@)));
    proof {
        assert(ints_of(int_values(indices@)) =~= indices@);
    }
    if !check_walk(nodes.len(), rels.len(), &indices) {
        return Err(Violation::InvalidField);
    }
    let path = PathRef { nodes, rels, indices };
    proof {
        let fields = cx3.done;
        assert(path@ == Value::Structure { tag: TAG_PATH, fields }) by {
            assert(path@->fields =~= fields);
        }
    }
    Ok((BoltRef::Path(path), p))
}

/// The structure with `n` fields and the tag `tag`, whose fields start at `pos`.
fn decode_structure<'de>(input: &'de Bytes, buf: &'de [u8], pos: usize, n: u8, tag: u8) -> (r:
    Result<(BoltRef<'de>, usize), Violation>)
    requires
        buf@ == contents(*input),
        pos <= buf@.len(),
    ensures
        if !known_tag(tag) {
            r == Err::<(BoltRef, usize), Violation>(Violation::UnexpectedTag)
        } else if !count_ok(tag, n as nat) {
            r == Err::<(BoltRef, usize), Violation>(Violation::FieldCount)
        } else {
            structured(r, buf@, pos, tag, n as nat)
        },
        r matches Ok((_, end)) ==> pos < end <= buf@.len(),
    decreases buf@.len() - pos, 3nat,
{
    if tag == TAG_NODE {
        if n == 3 || n == 4 {
            decode_node(input, buf, pos, n)
        } else {
            Err(Violation::FieldCount)
        }
    } else if tag == TAG_RELATIONSHIP {
        if n == 5 || n == 8 {
            decode_relationship(input, buf, pos, n)
        } else {
            Err(Violation::FieldCount)
        }
    } else if tag == TAG_UNBOUND_RELATIONSHIP {
        if n == 3 || n == 4 {
            decode_unbound_relationship(input, buf, pos, n)
        } else {
            Err(Violation::FieldCount)
        }
    } else if tag == TAG_PATH {
        if n == 3 {
            decode_path(input, buf, pos, n)
        } else {
            Err(Violation::FieldCount)
        }
    } else if tag == TAG_DATE {
        if n == 1 {
            decode_date(input, buf, pos, n)
        } else {
            Err(Violation::FieldCount)
        }
    } else if tag == TAG_TIME {
        if n == 2 {
            decode_time(input, buf, pos, n)
        } else {
            Err(Violation::FieldCount)
        }
    } else if tag == TAG_LOCAL_TIME {
        if n == 1 {
            decode_local_time(input, buf, pos, n)
        } else {
            Err(Violation::FieldCount)
        }
    } else if tag == TAG_DATE_TIME {
        if n == 3 {
            decode_date_time(input, buf, pos, n)
        } else {
            Err(Violation::FieldCount)
        }
    } else if tag == TAG_DATE_TIME_ZONE_ID {
        if n == 3 {
            decode_date_time_zone_id(input, buf, pos, n)
        } else {
            Err(Violation::FieldCount)
        }
    } else if tag == TAG_LOCAL_DATE_TIME {
        if n == 2 {
            decode_local_date_time(input, buf, pos, n)
        } else {
            Err(Violation::FieldCount)
        }
    } else if tag == TAG_LEGACY_DATE_TIME {
        if n == 3 {
            decode_legacy_date_time(input, buf, pos, n)
        } else {
            Err(Violation::FieldCount)
        }
    } else if tag == TAG_LEGACY_DATE_TIME_ZONE_ID {
        if n == 3 {
            decode_legacy_date_time_zone_id(input, buf, pos, n)
        } else {
            Err(Violation::FieldCount)
        }
    } else if tag == TAG_DURATION {
        if n == 4 {
            decode_duration(input, buf, pos, n)
        } else {
            Err(Violation::FieldCount)
        }
    } else if tag == TAG_POINT_2D {
        if n == 3 {
            decode_point_2d(input, buf, pos, n)
        } else {
            Err(Violation::FieldCount)
        }
    } else if tag == TAG_POINT_3D {
        if n == 4 {
            decode_point_3d(input, buf, pos, n)
        } else {
            Err(Violation::FieldCount)
        }
    } else {
        Err(Violation::UnexpectedTag)
    }
}

/// What `decode` returns for a byte sequence: the value that the bytes stand
/// for, where they are one value and nothing more.
pub open spec fn decoded(s: Seq<u8>) -> Result<Value, Violation> {
    match spec_decode(s, false) {
        Err(e) => Err(e),
        Ok((v, k)) => if k == s.len() {
            Ok(v)
        } else {
            Err(Violation::TrailingBytes)
        },
    }
}

/// The value that `input` encodes. Its strings and byte strings are views
/// into `input`; the properties of its nodes and relationships are left
/// undecoded and share the memory of `input`.
///
/// Any valid marker width is accepted. Fails with `ProtocolViolation` where
/// the bytes are not one value and nothing more, and says why.
///
/// Every relationship of the value has its element ids whole: all three
/// where the bytes hold them, none where they do not.
pub fn decode<'de>(input: &'de Bytes) -> (r: Result<BoltRef<'de>, Error>)
    ensures
        match decoded(contents(*input)) {
            Ok(v) => r matches Ok(x) && x@ == v && ids_whole(x),
            Err(e) => r == Err::<BoltRef, Error>(Error::ProtocolViolation { detail: e }),
        },
{
    match decode_value(input) {
        Ok(v) => Ok(v),
        Err(e) => Err(Error::ProtocolViolation { detail: e }),
    }
}

/// The value that `input` encodes, or why it encodes none.
pub fn decode_value<'de>(input: &'de Bytes) -> (r: Result<BoltRef<'de>, Violation>)
    ensures
        match decoded(contents(*input)) {
            Ok(v) => r matches Ok(x) && x@ == v && ids_whole(x),
            Err(e) => r == Err::<BoltRef, Violation>(e),
        },
{
    let buf: &'de [u8] = as_slice(input);
    assert(buf@.skip(0) =~= buf@);
    match decode_at(input, buf, 0) {
        Err(e) => Err(e),
        Ok((v, end)) => {
            if end == buf.len() {
                Ok(v)
            } else {
                Err(Violation::TrailingBytes)
            }
        },
    }
}

/// The header of a structure: the number of its fields and its tag.
#[derive(Clone, Copy, Debug, PartialEq, Eq, Structural)]
pub struct StructHeader {
    pub fields: u8,
    pub tag: u8,
}

/// What `decode_deferred` makes of a byte sequence: the header of the
/// structure that it starts with.
pub open spec fn deferred(s: Seq<u8>) -> Result<StructHeader, Violation> {
    match parse_head(s, false) {
        Err(e) => Err(e),
        Ok((Head::Structure(fields, tag), _)) => Ok(StructHeader { fields, tag }),
        Ok(_) => Err(Violation::UnexpectedMarker),
    }
}

/// Splits the header of a structure or message from the fields that follow
/// it, which are left undecoded and share the memory of `input`.
///
/// Fails with `ProtocolViolation` where the input does not start with the
/// header of a structure.
pub fn decode_deferred(input: &Bytes) -> (r: Result<(StructHeader, Bytes), Error>)
    ensures
        match deferred(contents(*input)) {
            Ok(header) => r matches Ok((h, rest)) && h == header && contents(rest) == contents(
                *input,
            ).skip(2),
            Err(e) => r == Err::<(StructHeader, Bytes), Error>(
                Error::ProtocolViolation { detail: e },
            ),
        },
{
    let buf: &[u8] = as_slice(input);
    assert(buf@.skip(0) =~= buf@);
    match read_head(buf, 0) {
        Err(e) => Err(Error::ProtocolViolation { detail: e }),
        Ok((Head::Structure(fields, tag), h)) => {
            proof {
                reveal(parse_head);
            }
            let rest: Bytes = slice(input, 2, buf.len());
            assert(contents(rest) =~= contents(*input).skip(2));
            Ok((StructHeader { fields, tag }, rest))
        },
        Ok(_) => Err(Error::ProtocolViolation { detail: Violation::UnexpectedMarker }),
    }
}

} // verus!
