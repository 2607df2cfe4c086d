use super::de::{
    get_in, keys_in, map_in, select_in, select_owned, selected, selected_owned,
};
use super::de::{checked_dictionary, dictionary_of};
use super::MapRef;
use super::owned::{all_owned_whole, Bolt};
use super::{all_whole, ids_whole, BoltRef};
use crate::errors::Error;
use crate::packstream::grammar::{entries_of, is_dictionary};
use crate::packstream::value::lookup;
use crate::packstream::raw::contents;
use crate::packstream::value::{Value, TAG_RELATIONSHIP};
use bytes::Bytes;
use vstd::prelude::*;

verus! {

/// The three fields that element ids add to a relationship: none where the
/// relationship has no element id.
pub open spec fn optional_ids(
    id: Option<&str>,
    start: Option<&str>,
    end: Option<&str>,
) -> Seq<Value> {
    match (id, start, end) {
        (Some(a), Some(b), Some(c)) => seq![
            Value::String(a@),
            Value::String(b@),
            Value::String(c@),
        ],
        _ => Seq::empty(),
    }
}

/// What an element id says, where there is one.
pub open spec fn text_of(id: Option<&str>) -> Option<Seq<char>> {
    match id {
        Some(s) => Some(s@),
        None => None,
    }
}

/// A relationship within the graph, borrowing its strings from the received
/// message. Its properties are kept as the bytes of their dictionary.
#[derive(Debug, PartialEq, Eq)]
pub struct Relationship<'de> {
    pub(crate) id: i64,
    pub(crate) start_node_id: i64,
    pub(crate) end_node_id: i64,
    pub(crate) typ: &'de str,
    pub(crate) properties: Bytes,
    pub(crate) element_id: Option<&'de str>,
    pub(crate) start_node_element_id: Option<&'de str>,
    pub(crate) end_node_element_id: Option<&'de str>,
}

impl<'de> Relationship<'de> {
    /// The properties are the encoding of one dictionary.
    #[verifier::type_invariant]
    pub(crate) open spec fn inv(self) -> bool {
        is_dictionary(contents(self.properties))
    }

    /// The structure that this relationship is written as. The element ids
    /// are written only where all three are present.
    pub open(crate) spec fn view(&self) -> Value {
        Value::Structure {
            tag: TAG_RELATIONSHIP,
            fields: seq![
                Value::Integer(self.id),
                Value::Integer(self.start_node_id),
                Value::Integer(self.end_node_id),
                Value::String(self.typ@),
                Value::Deferred(contents(self.properties)),
            ] + optional_ids(
                self.element_id,
                self.start_node_element_id,
                self.end_node_element_id,
            ),
        }
    }

    /// What the three element ids say: that of the relationship, that of
    /// its start node and that of its end node. The structure that the
    /// relationship is written as has them only where all three are there.
    pub open(crate) spec fn element_ids(&self) -> (
        Option<Seq<char>>,
        Option<Seq<char>>,
        Option<Seq<char>>,
    ) {
        (
            text_of(self.element_id),
            text_of(self.start_node_element_id),
            text_of(self.end_node_element_id),
        )
    }

    /// Whether the element ids are whole: all three are there, or none is.
    /// A relationship that was read from bytes has them whole.
    pub open(crate) spec fn whole(&self) -> bool {
        ||| self.element_ids() == (
            None::<Seq<char>>,
            None::<Seq<char>>,
            None::<Seq<char>>,
        )
        ||| (self.element_id is Some && self.start_node_element_id is Some
            && self.end_node_element_id is Some)
    }

    pub open(crate) spec fn spec_id(&self) -> i64 {
        self.id
    }

    pub open(crate) spec fn spec_element_id(&self) -> Option<&'de str> {
        self.element_id
    }

    pub open(crate) spec fn spec_start_node_id(&self) -> i64 {
        self.start_node_id
    }

    pub open(crate) spec fn spec_start_node_element_id(&self) -> Option<&'de str> {
        self.start_node_element_id
    }

    pub open(crate) spec fn spec_end_node_id(&self) -> i64 {
        self.end_node_id
    }

    pub open(crate) spec fn spec_end_node_element_id(&self) -> Option<&'de str> {
        self.end_node_element_id
    }

    pub open(crate) spec fn spec_typ(&self) -> &'de str {
        self.typ
    }

    /// The bytes of the dictionary of this relationship's properties.
    pub open(crate) spec fn raw_properties(&self) -> Seq<u8> {
        contents(self.properties)
    }

    /// The entries of the properties of this relationship.
    pub open(crate) spec fn properties(&self) -> Seq<(Seq<char>, Value)> {
        entries_of(contents(self.properties))
    }

    /// A relationship with the given parts, whose properties are the
    /// dictionary that `properties` encodes. Fails as decoding does where
    /// `properties` is not the encoding of one dictionary.
    pub fn new(
        id: i64,
        start_node_id: i64,
        end_node_id: i64,
        typ: &'de str,
        properties: Bytes,
        element_id: Option<&'de str>,
        start_node_element_id: Option<&'de str>,
        end_node_element_id: Option<&'de str>,
    ) -> (r: Result<Self, Error>)
        ensures
            match dictionary_of(contents(properties)) {
                Ok(entries) => {
                    &&& r matches Ok(rel)
                    &&& rel.id() == id
                    &&& rel.start_node_id() == start_node_id
                    &&& rel.end_node_id() == end_node_id
                    &&& rel.typ() == typ
                    &&& rel.element_id() == element_id
                    &&& rel.start_node_element_id() == start_node_element_id
                    &&& rel.end_node_element_id() == end_node_element_id
                    &&& rel.raw_properties() == contents(properties)
                    &&& rel.properties() == entries
                },
                Err(e) => r == Err::<Self, Error>(e),
            },
    {
        checked_dictionary(&properties)?;
        Ok(
            Relationship::from_other_rel(
                id,
                element_id,
                start_node_id,
                start_node_element_id,
                end_node_id,
                end_node_element_id,
                typ,
                properties,
            ),
        )
    }

    /// The properties of this relationship, decoded.
    pub fn properties_map(&self) -> (r: MapRef<'_>)
        ensures
            r@ == self.properties(),
            r.whole(),
    {
        proof {
            use_type_invariant(self);
        }
        map_in(&self.properties)
    }

    /// Get the names of the properties of this relationship.
    pub fn keys(&self) -> (r: Vec<&str>)
        ensures
            r@.len() == self.properties().len(),
            forall|i: int| 0 <= i < r@.len() ==> (#[trigger] r@[i])@ == self.properties()[i].0,
    {
        proof {
            use_type_invariant(self);
        }
        keys_in(&self.properties)
    }

    /// Get a property of this relationship: `Ok(None)` where it has no property of
    /// that name. The properties are decoded anew on every call, so that the
    /// same call gives the same value again.
    pub fn get(&self, key: &str) -> (r: Result<Option<BoltRef<'_>>, Error>)
        ensures
            match r {
                Ok(Some(v)) => lookup(self.properties(), key@) == Some(v@),
                Ok(None) => lookup(self.properties(), key@) is None,
                Err(_) => false,
            },
            r matches Ok(Some(v)) ==> ids_whole(v),
    {
        proof {
            use_type_invariant(self);
        }
        get_in(&self.properties, key)
    }

    /// Decode the properties of this relationship into the values under the given
    /// names, in that order. Properties under other names are skipped. Where
    /// a name is missing, the error names the first missing one.
    pub fn to(&self, names: &[&str]) -> (r: Result<Vec<BoltRef<'_>>, Error>)
        ensures
            selected(r, self.properties(), names@),
            r matches Ok(values) ==> all_whole(values@),
    {
        proof {
            use_type_invariant(self);
        }
        select_in(&self.properties, names)
    }

    /// Convert the properties of this relationship into the values under the given
    /// names, in that order, as values that own their memory.
    pub fn into(self, names: &[&str]) -> (r: Result<Vec<Bolt>, Error>)
        ensures
            selected_owned(r, self.properties(), names@),
            r matches Ok(values) ==> all_owned_whole(values@),
    {
        proof {
            use_type_invariant(&self);
        }
        select_owned(&self.properties, names)
    }

    /// An id for this relationship.
    #[verifier::when_used_as_spec(spec_id)]
    pub fn id(&self) -> (r: i64)
        ensures
            r == self.spec_id(),
    {
        self.id
    }

    /// A unique id for this relationship; `None` where the server sent none.
    #[verifier::when_used_as_spec(spec_element_id)]
    pub fn element_id(&self) -> (r: Option<&'de str>)
        ensures
            r == self.spec_element_id(),
    {
        self.element_id
    }

    /// The id of the node where this relationship starts.
    #[verifier::when_used_as_spec(spec_start_node_id)]
    pub fn start_node_id(&self) -> (r: i64)
        ensures
            r == self.spec_start_node_id(),
    {
        self.start_node_id
    }

    /// A unique id for the node where this relationship starts.
    #[verifier::when_used_as_spec(spec_start_node_element_id)]
    pub fn start_node_element_id(&self) -> (r: Option<&'de str>)
        ensures
            r == self.spec_start_node_element_id(),
    {
        self.start_node_element_id
    }

    /// The id of the node where this relationship ends.
    #[verifier::when_used_as_spec(spec_end_node_id)]
    pub fn end_node_id(&self) -> (r: i64)
        ensures
            r == self.spec_end_node_id(),
    {
        self.end_node_id
    }

    /// A unique id for the node where this relationship ends.
    #[verifier::when_used_as_spec(spec_end_node_element_id)]
    pub fn end_node_element_id(&self) -> (r: Option<&'de str>)
        ensures
            r == self.spec_end_node_element_id(),
    {
        self.end_node_element_id
    }

    /// The type of this relationship.
    #[verifier::when_used_as_spec(spec_typ)]
    pub fn typ(&self) -> (r: &'de str)
        ensures
            r == self.spec_typ(),
    {
        self.typ
    }

    /// A relationship with the given parts. The properties must be the
    /// encoding of one dictionary.
    pub(crate) fn from_other_rel(
        id: i64,
        element_id: Option<&'de str>,
        start_node_id: i64,
        start_node_element_id: Option<&'de str>,
        end_node_id: i64,
        end_node_element_id: Option<&'de str>,
        typ: &'de str,
        properties: Bytes,
    ) -> (r: Self)
        requires
            is_dictionary(contents(properties)),
        ensures
            r.id == id,
            r.element_id == element_id,
            r.start_node_id == start_node_id,
            r.start_node_element_id == start_node_element_id,
            r.end_node_id == end_node_id,
            r.end_node_element_id == end_node_element_id,
            r.typ == typ,
            r.properties == properties,
    {
        Relationship {
            id,
            start_node_id,
            end_node_id,
            typ,
            properties,
            element_id,
            start_node_element_id,
            end_node_element_id,
        }
    }
}

/// Two relationships that stand for the same structure and have their
/// element ids whole have the same element ids.
pub proof fn lemma_whole_ids(a: Relationship, b: Relationship)
    requires
        a@ == b@,
        a.whole(),
        b.whole(),
    ensures
        a.element_ids() == b.element_ids(),
{
    let fa = a@->fields;
    let fb = b@->fields;
    let ia = optional_ids(a.element_id, a.start_node_element_id, a.end_node_element_id);
    let ib = optional_ids(b.element_id, b.start_node_element_id, b.end_node_element_id);
    assert(fa.len() == 5 + ia.len());
    assert(fb.len() == 5 + ib.len());
    if a.element_id is Some {
        assert(ia.len() == 3);
        assert(ib.len() == 3);
        assert(fa[5] == ia[0] && fa[6] == ia[1] && fa[7] == ia[2]);
        assert(fb[5] == ib[0] && fb[6] == ib[1] && fb[7] == ib[2]);
    } else {
        assert(ia.len() == 0);
        assert(ib.len() == 0);
    }
}

impl<'de> Clone for Relationship<'de> {
    fn clone(&self) -> (r: Self)
        ensures
            r@ == self@,
            r.id() == self.id(),
            r.element_id() == self.element_id(),
            r.start_node_id() == self.start_node_id(),
            r.start_node_element_id() == self.start_node_element_id(),
            r.end_node_id() == self.end_node_id(),
            r.end_node_element_id() == self.end_node_element_id(),
            r.typ() == self.typ(),
            r.raw_properties() == self.raw_properties(),
    {
        proof {
            use_type_invariant(self);
        }
        Relationship {
            id: self.id,
            start_node_id: self.start_node_id,
            end_node_id: self.end_node_id,
            typ: self.typ,
            properties: self.properties.clone(),
            element_id: self.element_id,
            start_node_element_id: self.start_node_element_id,
            end_node_element_id: self.end_node_element_id,
        }
    }
}

} // verus!
