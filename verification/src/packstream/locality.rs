//! Decoding is local: what a value decodes to depends only on the bytes that
//! the value takes, not on what follows them.

use crate::errors::Container;
use crate::packstream::de::{
    lemma_decode_bound, lemma_entries_bound, lemma_entry_bound, lemma_field_bound,
    lemma_fields_bound, lemma_items_bound,
};
use crate::packstream::grammar::{
    decode_entries, decode_entry, decode_field, decode_fields, decode_items, is_dictionary,
    spec_decode,
};
use crate::packstream::value::{field_kind, FieldKind, Value};
use crate::packstream::wire::{parse_head, Head};
use vstd::prelude::*;

verus! {

/// Whether `s` and `t` start with the same `k` bytes.
pub open spec fn same_start(s: Seq<u8>, t: Seq<u8>, k: nat) -> bool {
    &&& k <= s.len()
    &&& k <= t.len()
    &&& forall|i: int| 0 <= i < k ==> s[i] == t[i]
}

/// Sequences with the same start have the same start after a skip.
pub proof fn lemma_same_start_skip(s: Seq<u8>, t: Seq<u8>, k: nat, a: nat)
    requires
        same_start(s, t, k),
        a <= k,
    ensures
        same_start(s.skip(a as int), t.skip(a as int), (k - a) as nat),
        same_start(s, t, a),
        s.take(a as int) == t.take(a as int),
{
    assert(s.take(a as int) =~= t.take(a as int));
    assert forall|i: int| 0 <= i < k - a implies s.skip(a as int)[i] == t.skip(a as int)[i] by {
        assert(s[i + a] == t[i + a]);
    }
}

/// A header depends only on the bytes that it takes.
pub proof fn lemma_head_local(s: Seq<u8>, t: Seq<u8>, strict: bool)
    requires
        parse_head(s, strict) matches Ok((_, h)) && same_start(s, t, h),
    ensures
        parse_head(t, strict) == parse_head(s, strict),
{
    reveal(parse_head);
}

/// A header takes at least one byte and at most nine.
pub proof fn lemma_head_bound(s: Seq<u8>, strict: bool)
    ensures
        parse_head(s, strict) matches Ok((_, h)) ==> 1 <= h <= 9 && h <= s.len(),
{
    reveal(parse_head);
}

/// A value depends only on the bytes that it takes.
pub proof fn lemma_decode_local(s: Seq<u8>, t: Seq<u8>, strict: bool)
    requires
        spec_decode(s, strict) matches Ok((_, k)) && same_start(s, t, k),
    ensures
        spec_decode(t, strict) == spec_decode(s, strict),
    decreases s.len(), 0nat, 0nat,
{
    lemma_decode_bound(s, strict);
    lemma_head_bound(s, strict);
    let k = spec_decode(s, strict)->Ok_0.1;
    match parse_head(s, strict) {
        Err(_) => {},
        Ok((head, h)) => {
            assert(h <= k) by {
                match head {
                    Head::Sized(Container::List, n) => {
                        lemma_items_bound(s.skip(h as int), n as nat, strict);
                    },
                    Head::Sized(Container::Dictionary, n) => {
                        lemma_entries_bound(s.skip(h as int), n as nat, Seq::empty(), strict);
                    },
                    Head::Structure(n, tag) => {
                        lemma_fields_bound(s.skip(h as int), tag, 0, n as nat, strict);
                    },
                    _ => {},
                }
            }
            lemma_same_start_skip(s, t, k, h);
            lemma_head_local(s, t, strict);
            match head {
                Head::Sized(Container::Bytes, n) => {
                    assert(s.subrange(h as int, h + n) =~= t.subrange(h as int, h + n));
                },
                Head::Sized(Container::String, n) => {
                    assert(s.subrange(h as int, h + n) =~= t.subrange(h as int, h + n));
                },
                Head::Sized(Container::List, n) => {
                    lemma_items_local(s.skip(h as int), t.skip(h as int), n as nat, strict);
                },
                Head::Sized(Container::Dictionary, n) => {
                    lemma_entries_local(
                        s.skip(h as int),
                        t.skip(h as int),
                        n as nat,
                        Seq::empty(),
                        strict,
                    );
                },
                Head::Structure(n, tag) => {
                    lemma_fields_local(s.skip(h as int), t.skip(h as int), tag, 0, n as nat, strict);
                },
                _ => {},
            }
        },
    }
}

/// Items depend only on the bytes that they take.
pub proof fn lemma_items_local(s: Seq<u8>, t: Seq<u8>, n: nat, strict: bool)
    requires
        decode_items(s, n, strict) matches Ok((_, k)) && same_start(s, t, k),
    ensures
        decode_items(t, n, strict) == decode_items(s, n, strict),
    decreases s.len(), 2nat, n,
{
    if n > 0 {
        let k = decode_items(s, n, strict)->Ok_0.1;
        lemma_decode_bound(s, strict);
        match spec_decode(s, strict) {
            Err(_) => {},
            Ok((v, k1)) => {
                lemma_items_bound(s.skip(k1 as int), (n - 1) as nat, strict);
                lemma_same_start_skip(s, t, k, k1);
                lemma_decode_local(s, t, strict);
                lemma_items_local(s.skip(k1 as int), t.skip(k1 as int), (n - 1) as nat, strict);
            },
        }
    }
}

/// An entry depends only on the bytes that it takes.
pub proof fn lemma_entry_local(s: Seq<u8>, t: Seq<u8>, strict: bool)
    requires
        decode_entry(s, strict) matches Ok((_, _, k)) && same_start(s, t, k),
    ensures
        decode_entry(t, strict) == decode_entry(s, strict),
    decreases s.len(), 1nat, 0nat,
{
    let k = decode_entry(s, strict)->Ok_0.2;
    lemma_decode_bound(s, strict);
    match spec_decode(s, strict) {
        Ok((Value::String(key), k1)) => {
            lemma_decode_bound(s.skip(k1 as int), strict);
            lemma_same_start_skip(s, t, k, k1);
            lemma_decode_local(s, t, strict);
            lemma_decode_local(s.skip(k1 as int), t.skip(k1 as int), strict);
        },
        _ => {},
    }
}

/// Entries depend only on the bytes that they take.
pub proof fn lemma_entries_local(
    s: Seq<u8>,
    t: Seq<u8>,
    n: nat,
    seen: Seq<Seq<char>>,
    strict: bool,
)
    requires
        decode_entries(s, n, seen, strict) matches Ok((_, k)) && same_start(s, t, k),
    ensures
        decode_entries(t, n, seen, strict) == decode_entries(s, n, seen, strict),
    decreases s.len(), 2nat, n,
{
    if n > 0 {
        let k = decode_entries(s, n, seen, strict)->Ok_0.1;
        lemma_entry_bound(s, strict);
        match decode_entry(s, strict) {
            Err(_) => {},
            Ok((key, v, k1)) => {
                lemma_entries_bound(s.skip(k1 as int), (n - 1) as nat, seen.push(key), strict);
                lemma_same_start_skip(s, t, k, k1);
                lemma_entry_local(s, t, strict);
                lemma_entries_local(
                    s.skip(k1 as int),
                    t.skip(k1 as int),
                    (n - 1) as nat,
                    seen.push(key),
                    strict,
                );
            },
        }
    }
}

/// A field depends only on the bytes that it takes.
pub proof fn lemma_field_local(s: Seq<u8>, t: Seq<u8>, kind: FieldKind, strict: bool)
    requires
        decode_field(s, kind, strict) matches Ok((_, k)) && same_start(s, t, k),
    ensures
        decode_field(t, kind, strict) == decode_field(s, kind, strict),
    decreases s.len(), 1nat, 0nat,
{
    let k = decode_field(s, kind, strict)->Ok_0.1;
    if kind is Deferred {
        lemma_decode_local(s, t, false);
        lemma_same_start_skip(s, t, k, k);
    } else {
        lemma_decode_local(s, t, strict);
    }
}

/// Fields depend only on the bytes that they take.
pub proof fn lemma_fields_local(s: Seq<u8>, t: Seq<u8>, tag: u8, i: nat, n: nat, strict: bool)
    requires
        decode_fields(s, tag, i, n, strict) matches Ok((_, k)) && same_start(s, t, k),
    ensures
        decode_fields(t, tag, i, n, strict) == decode_fields(s, tag, i, n, strict),
    decreases s.len(), 2nat, n - i,
{
    if i < n {
        let k = decode_fields(s, tag, i, n, strict)->Ok_0.1;
        lemma_field_bound(s, field_kind(tag, i as int), strict);
        match decode_field(s, field_kind(tag, i as int), strict) {
            Err(_) => {},
            Ok((v, k1)) => {
                lemma_fields_bound(s.skip(k1 as int), tag, i + 1, n, strict);
                lemma_same_start_skip(s, t, k, k1);
                lemma_field_local(s, t, field_kind(tag, i as int), strict);
                lemma_fields_local(s.skip(k1 as int), t.skip(k1 as int), tag, i + 1, n, strict);
            },
        }
    }
}

/// The bytes that a decoded dictionary takes are, on their own, the encoding
/// of one dictionary.
pub proof fn lemma_deferred_is_dictionary(s: Seq<u8>)
    requires
        spec_decode(s, false) matches Ok((v, _)) && v is Dictionary,
    ensures
        is_dictionary(s.take(spec_decode(s, false)->Ok_0.1 as int)),
{
    lemma_decode_bound(s, false);
    let k = spec_decode(s, false)->Ok_0.1;
    lemma_decode_local(s, s.take(k as int), false);
}

} // verus!
