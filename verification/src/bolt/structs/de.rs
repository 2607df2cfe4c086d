//! Reading from an encoded dictionary without keeping all of it: its keys,
//! or the value under one key.

use super::owned::{all_owned_whole, owned_values, Bolt};
use super::{all_whole, ids_whole, BoltRef, MapRef};
use crate::errors::{Error, Mismatch};
use crate::packstream::de::{decode, decoded};
use crate::packstream::grammar::{entries_of, is_dictionary};
use crate::packstream::raw::contents;
use crate::packstream::value::{keys_of, lookup, Value};
use bytes::Bytes;
use vstd::pervasive::unreached;
use vstd::prelude::*;

verus! {

/// The entries of the dictionary that `s` encodes. Bytes that are not one
/// value are a protocol violation; a value that is no dictionary is of the
/// wrong type.
pub open spec fn dictionary_of(s: Seq<u8>) -> Result<Seq<(Seq<char>, Value)>, Error> {
    match decoded(s) {
        Err(e) => Err(Error::ProtocolViolation { detail: e }),
        Ok(Value::Dictionary(entries)) => Ok(entries),
        Ok(_) => Err(Error::Deserialization { detail: Mismatch::WrongType }),
    }
}

/// The dictionary that `input` encodes.
pub fn decode_dictionary<'de>(input: &'de Bytes) -> (r: Result<MapRef<'de>, Error>)
    ensures
        match dictionary_of(contents(*input)) {
            Ok(entries) => r matches Ok(map) && map@ == entries && map.whole(),
            Err(e) => r == Err::<MapRef, Error>(e),
        },
{
    match decode(input) {
        Err(e) => Err(e),
        Ok(BoltRef::Dictionary(map)) => Ok(map),
        Ok(other) => {
            proof {
                super::lemma_view_kind(&other);
            }
            Err(Error::Deserialization { detail: Mismatch::WrongType })
        },
    }
}

/// Bytes that are the encoding of one dictionary decode to its entries.
pub proof fn lemma_dictionary(raw: Seq<u8>)
    requires
        is_dictionary(raw),
    ensures
        dictionary_of(raw) == Ok::<Seq<(Seq<char>, Value)>, Error>(entries_of(raw)),
{
}

/// The keys of an encoded dictionary, in the order of its entries.
pub struct Keys<'de>(pub Vec<&'de str>);

impl<'de> Keys<'de> {
    /// The keys of the dictionary that `input` encodes. The values are
    /// checked and dropped.
    pub fn deserialize(input: &'de Bytes) -> (r: Result<Keys<'de>, Error>)
        ensures
            match dictionary_of(contents(*input)) {
                Ok(entries) => r matches Ok(keys) && keys.0@.len() == entries.len() && forall|
                    i: int,
                |
                    0 <= i < entries.len() ==> (#[trigger] keys.0@[i])@ == entries[i].0,
                Err(e) => r == Err::<Keys, Error>(e),
            },
    {
        match decode_dictionary(input) {
            Err(e) => Err(e),
            Ok(map) => Ok(Keys(map.keys())),
        }
    }
}

/// A request for the value under one key of an encoded dictionary.
pub struct Single<'a>(pub &'a str);

impl<'a> Single<'a> {
    /// A request for the value under `key`.
    pub fn new(key: &'a str) -> (r: Self)
        ensures
            r.0 == key,
    {
        Single(key)
    }

    /// The value under the key in the dictionary that `input` encodes;
    /// `None` where the dictionary has no such key. The other entries are
    /// checked and skipped; a key that occurs twice makes the input invalid.
    pub fn deserialize<'de>(self, input: &'de Bytes) -> (r: Result<Option<BoltRef<'de>>, Error>)
        ensures
            match dictionary_of(contents(*input)) {
                Ok(entries) => match r {
                    Ok(Some(v)) => lookup(entries, self.0@) == Some(v@) && ids_whole(v),
                    Ok(None) => lookup(entries, self.0@) is None,
                    Err(_) => false,
                },
                Err(e) => r == Err::<Option<BoltRef>, Error>(e),
            },
    {
        match decode_dictionary(input) {
            Err(e) => Err(e),
            Ok(map) => Ok(map.take(self.0)),
        }
    }
}

/// The values under the given keys, in the order of the keys; or the first
/// of the keys that the entries lack.
pub open spec fn select(entries: Seq<(Seq<char>, Value)>, names: Seq<Seq<char>>) -> Result<
    Seq<Value>,
    Seq<char>,
>
    decreases names.len(),
{
    if names.len() == 0 {
        Ok(Seq::empty())
    } else {
        match select(entries, names.drop_last()) {
            Err(name) => Err(name),
            Ok(values) => match lookup(entries, names.last()) {
                None => Err(names.last()),
                Some(v) => Ok(values.push(v)),
            },
        }
    }
}

/// What `to` returns: the selected values, or an error that names the
/// missing key.
pub open(crate) spec fn selected(
    r: Result<Vec<BoltRef>, Error>,
    entries: Seq<(Seq<char>, Value)>,
    names: Seq<&str>,
) -> bool {
    match select(entries, Seq::new(names.len(), |i: int| names[i]@)) {
        Ok(values) => r matches Ok(found) && super::values_of(found@) == values,
        Err(missing) => r matches Err(Error::Deserialization { detail: Mismatch::MissingField { name } })
            && name@ == missing,
    }
}

/// What `into` returns: the selected values, or an error that names the
/// missing key.
pub open(crate) spec fn selected_owned(
    r: Result<Vec<Bolt>, Error>,
    entries: Seq<(Seq<char>, Value)>,
    names: Seq<&str>,
) -> bool {
    match select(entries, Seq::new(names.len(), |i: int| names[i]@)) {
        Ok(values) => r matches Ok(found) && owned_values(found@) == values,
        Err(missing) => r matches Err(Error::Deserialization { detail: Mismatch::MissingField { name } })
            && name@ == missing,
    }
}

/// The values under the given keys in deferred properties, as values that
/// own their memory.
pub(crate) fn select_owned(props: &Bytes, names: &[&str]) -> (r: Result<Vec<Bolt>, Error>)
    requires
        is_dictionary(contents(*props)),
    ensures
        selected_owned(r, entries_of(contents(*props)), names@),
        r matches Ok(values) ==> all_owned_whole(values@),
{
    let found: Vec<BoltRef<'_>> = select_in(props, names)?;
    let ghost values = super::values_of(found@);
    let ghost found_seq = found@;
    let mut out: Vec<Bolt> = Vec::new();
    for x in it: found
        invariant
            it.seq() == found_seq,
            out@.len() == it.index(),
            all_whole(found_seq),
            all_owned_whole(out@),
            forall|j: int| 0 <= j < out@.len() ==> (#[trigger] out@[j])@ == found_seq[j]@,
    {
        out.push(Bolt::of(x));
    }
    assert(owned_values(out@) =~= values);
    Ok(out)
}

/// The keys of deferred properties, in the order of the entries.
pub(crate) fn keys_in<'a>(props: &'a Bytes) -> (r: Vec<&'a str>)
    requires
        is_dictionary(contents(*props)),
    ensures
        r@.len() == entries_of(contents(*props)).len(),
        forall|i: int|
            0 <= i < r@.len() ==> (#[trigger] r@[i])@ == entries_of(contents(*props))[i].0,
{
    proof {
        lemma_dictionary(contents(*props));
    }
    match Keys::deserialize(props) {
        Ok(keys) => keys.0,
        Err(_) => unreached(),
    }
}

/// Checks that `props` is the encoding of one dictionary.
pub(crate) fn checked_dictionary(props: &Bytes) -> (r: Result<(), Error>)
    ensures
        match dictionary_of(contents(*props)) {
            Ok(entries) => r is Ok && is_dictionary(contents(*props)) && entries == entries_of(
                contents(*props),
            ),
            Err(e) => r == Err::<(), Error>(e),
        },
{
    match decode_dictionary(props) {
        Ok(_) => Ok(()),
        Err(e) => Err(e),
    }
}

/// The dictionary of deferred properties.
pub(crate) fn map_in<'a>(props: &'a Bytes) -> (r: MapRef<'a>)
    requires
        is_dictionary(contents(*props)),
    ensures
        r@ == entries_of(contents(*props)),
        r.whole(),
{
    proof {
        lemma_dictionary(contents(*props));
    }
    match decode_dictionary(props) {
        Ok(map) => map,
        Err(_) => unreached(),
    }
}

/// The value under `key` in deferred properties, if there is one.
pub(crate) fn get_in<'a>(props: &'a Bytes, key: &str) -> (r: Result<Option<BoltRef<'a>>, Error>)
    requires
        is_dictionary(contents(*props)),
    ensures
        match r {
            Ok(Some(v)) => lookup(entries_of(contents(*props)), key@) == Some(v@) && ids_whole(v),
            Ok(None) => lookup(entries_of(contents(*props)), key@) is None,
            Err(_) => false,
        },
{
    proof {
        lemma_dictionary(contents(*props));
    }
    Single::new(key).deserialize(props)
}

/// The values that `map` holds under the given keys, in the order of the
/// keys. Entries under other keys are skipped; a key that the dictionary
/// lacks is an error that names the first such key.
pub fn select_from<'a>(map: &MapRef<'a>, names: &[&str]) -> (r: Result<Vec<BoltRef<'a>>, Error>)
    ensures
        selected(r, map@, names@),
        r matches Ok(values) ==> (map.whole() ==> all_whole(values@)),
{
    let ghost wanted = Seq::new(names@.len(), |i: int| names@[i]@);
    let mut out: Vec<BoltRef<'a>> = Vec::new();
    let mut i: usize = 0;
    assert(wanted.take(0) =~= Seq::<Seq<char>>::empty());
    assert(super::values_of(out@) =~= Seq::<Value>::empty());
    while i < names.len()
        invariant
            i <= names@.len(),
            wanted == Seq::new(names@.len(), |i: int| names@[i]@),
            select(map@, wanted.take(i as int)) == Ok::<Seq<Value>, Seq<char>>(
                super::values_of(out@),
            ),
            map.whole() ==> all_whole(out@),
        decreases names@.len() - i,
    {
        let name: &str = names[i];
        proof {
            assert(wanted.take(i + 1).drop_last() =~= wanted.take(i as int));
            assert(wanted.take(i + 1).last() == name@);
        }
        match map.get(name) {
            None => {
                proof {
                    lemma_select_fails(map@, wanted, i + 1);
                }
                return Err(
                    Error::Deserialization {
                        detail: Mismatch::MissingField { name: name.to_owned() },
                    },
                );
            },
            Some(v) => {
                let copy = v.duplicate();
                assert(super::values_of(out@.push(copy)) =~= super::values_of(out@).push(v@));
                out.push(copy);
            },
        }
        i += 1;
    }
    assert(wanted.take(names@.len() as int) =~= wanted);
    Ok(out)
}

/// Decodes the dictionary that `input` encodes into the values under the
/// keys that the caller names, in the order of the names. Entries under
/// other keys are checked and skipped; a key that occurs twice makes the
/// input invalid; a key that is named and missing is an error that names
/// the first such key.
pub fn decode_as<'de>(input: &'de Bytes, names: &[&str]) -> (r: Result<Vec<BoltRef<'de>>, Error>)
    ensures
        match dictionary_of(contents(*input)) {
            Ok(entries) => selected(r, entries, names@),
            Err(e) => r == Err::<Vec<BoltRef>, Error>(e),
        },
        r matches Ok(values) ==> all_whole(values@),
{
    let map = decode_dictionary(input)?;
    select_from(&map, names)
}

/// The values under the given keys in deferred properties.
pub(crate) fn select_in<'a>(props: &'a Bytes, names: &[&str]) -> (r: Result<
    Vec<BoltRef<'a>>,
    Error,
>)
    requires
        is_dictionary(contents(*props)),
    ensures
        selected(r, entries_of(contents(*props)), names@),
        r matches Ok(values) ==> all_whole(values@),
{
    let map = map_in(props);
    select_from(&map, names)
}

/// Where the first `i` keys cannot all be found, the first missing key of
/// all the keys is the first missing one of those.
pub proof fn lemma_select_fails(entries: Seq<(Seq<char>, Value)>, names: Seq<Seq<char>>, i: int)
    requires
        0 <= i <= names.len(),
        select(entries, names.take(i)) is Err,
    ensures
        select(entries, names) == select(entries, names.take(i)),
    decreases names.len() - i,
{
    if i < names.len() {
        assert(names.take(i + 1).drop_last() =~= names.take(i));
        lemma_select_fails(entries, names, i + 1);
    } else {
        assert(names.take(i) =~= names);
    }
}

/// Selecting succeeds exactly where the entries have every key that is
/// asked for, whatever other keys they have; the values come in the order
/// of the keys asked for. Where a key is missing, the first missing key is
/// named.
pub proof fn lemma_select(entries: Seq<(Seq<char>, Value)>, names: Seq<Seq<char>>)
    ensures
        match select(entries, names) {
            Ok(values) => {
                &&& values.len() == names.len()
                &&& forall|i: int|
                    0 <= i < names.len() ==> keys_of(entries).contains(#[trigger] names[i])
                        && lookup(entries, names[i]) == Some(values[i])
            },
            Err(missing) => exists|i: int|
                {
                    &&& 0 <= i < names.len()
                    &&& #[trigger] names[i] == missing
                    &&& !keys_of(entries).contains(missing)
                    &&& forall|j: int| 0 <= j < i ==> keys_of(entries).contains(#[trigger] names[j])
                },
        },
    decreases names.len(),
{
    if names.len() > 0 {
        let front = names.drop_last();
        lemma_select(entries, front);
        super::lemma_lookup(entries, names.last());
        assert forall|j: int| 0 <= j < front.len() implies front[j] == names[j] by {}
        match select(entries, front) {
            Err(missing) => {
                let i = choose|i: int|
                    {
                        &&& 0 <= i < front.len()
                        &&& #[trigger] front[i] == missing
                        &&& !keys_of(entries).contains(missing)
                        &&& forall|j: int|
                            0 <= j < i ==> keys_of(entries).contains(#[trigger] front[j])
                    };
                assert(names[i] == missing);
                assert forall|j: int| 0 <= j < i implies keys_of(entries).contains(
                    #[trigger] names[j],
                ) by {
                    assert(front[j] == names[j]);
                }
            },
            Ok(values) => {
                match lookup(entries, names.last()) {
                    None => {
                        let i = names.len() - 1;
                        assert(names[i] == names.last());
                        assert forall|j: int| 0 <= j < i implies keys_of(entries).contains(
                            #[trigger] names[j],
                        ) by {
                            assert(front[j] == names[j]);
                        }
                    },
                    Some(v) => {
                        let all = values.push(v);
                        assert forall|i: int| 0 <= i < names.len() implies keys_of(
                            entries,
                        ).contains(#[trigger] names[i]) && lookup(entries, names[i]) == Some(
                            all[i],
                        ) by {
                            if i < front.len() {
                                assert(front[i] == names[i]);
                            }
                        }
                    },
                }
            },
        }
    }
}

} // verus!
