use super::node::optional_text;
use super::rel::Relationship;
use super::de::{
    get_in, keys_in, map_in, select_in, select_owned, selected, selected_owned,
};
use super::de::{checked_dictionary, dictionary_of};
use super::MapRef;
use super::owned::{all_owned_whole, Bolt};
use super::{all_whole, ids_whole, BoltRef};
use crate::errors::Error;
use crate::packstream::grammar::{entries_of, is_dictionary};
use crate::packstream::value::lookup;
use crate::packstream::raw::contents;
use crate::packstream::value::{Value, TAG_UNBOUND_RELATIONSHIP};
use bytes::Bytes;
use vstd::prelude::*;

verus! {

/// A relationship as a path holds it: without the nodes at its ends, which
/// the path gives.
#[derive(Debug, PartialEq, Eq)]
pub struct UnboundRelationship<'de> {
    pub(crate) id: i64,
    pub(crate) typ: &'de str,
    pub(crate) properties: Bytes,
    pub(crate) element_id: Option<&'de str>,
}

impl<'de> UnboundRelationship<'de> {
    /// The properties are the encoding of one dictionary.
    #[verifier::type_invariant]
    pub(crate) open spec fn inv(self) -> bool {
        is_dictionary(contents(self.properties))
    }

    /// The structure that this relationship is written as.
    pub open(crate) spec fn view(&self) -> Value {
        Value::Structure {
            tag: TAG_UNBOUND_RELATIONSHIP,
            fields: seq![
                Value::Integer(self.id),
                Value::String(self.typ@),
                Value::Deferred(contents(self.properties)),
            ] + optional_text(self.element_id),
        }
    }

    pub open(crate) spec fn spec_id(&self) -> i64 {
        self.id
    }

    pub open(crate) spec fn spec_element_id(&self) -> Option<&'de str> {
        self.element_id
    }

    pub open(crate) spec fn spec_typ(&self) -> &'de str {
        self.typ
    }

    /// The bytes of the dictionary of this relationship's properties.
    pub open(crate) spec fn raw_properties(&self) -> Seq<u8> {
        contents(self.properties)
    }

    /// The entries of the properties of this relationship.
    pub open(crate) spec fn properties(&self) -> Seq<(Seq<char>, Value)> {
        entries_of(contents(self.properties))
    }

    /// A relationship with the given id, type and element id, whose
    /// properties are the dictionary that `properties` encodes. Fails as
    /// decoding does where `properties` is not the encoding of one
    /// dictionary.
    pub fn new(id: i64, typ: &'de str, properties: Bytes, element_id: Option<&'de str>) -> (r:
        Result<Self, Error>)
        ensures
            match dictionary_of(contents(properties)) {
                Ok(entries) => r matches Ok(rel) && rel.id() == id && rel.typ() == typ
                    && rel.element_id() == element_id && rel.raw_properties() == contents(
                    properties,
                ) && rel.properties() == entries,
                Err(e) => r == Err::<Self, Error>(e),
            },
    {
        checked_dictionary(&properties)?;
        Ok(UnboundRelationship { id, typ, properties, element_id })
    }

    /// The properties of this relationship, decoded.
    pub fn properties_map(&self) -> (r: MapRef<'_>)
        ensures
            r@ == self.properties(),
            r.whole(),
    {
        proof {
            use_type_invariant(self);
        }
        map_in(&self.properties)
    }

    /// Get the names of the properties of this relationship.
    pub fn keys(&self) -> (r: Vec<&str>)
        ensures
            r@.len() == self.properties().len(),
            forall|i: int| 0 <= i < r@.len() ==> (#[trigger] r@[i])@ == self.properties()[i].0,
    {
        proof {
            use_type_invariant(self);
        }
        keys_in(&self.properties)
    }

    /// Get a property of this relationship: `Ok(None)` where it has no property of
    /// that name. The properties are decoded anew on every call, so that the
    /// same call gives the same value again.
    pub fn get(&self, key: &str) -> (r: Result<Option<BoltRef<'_>>, Error>)
        ensures
            match r {
                Ok(Some(v)) => lookup(self.properties(), key@) == Some(v@),
                Ok(None) => lookup(self.properties(), key@) is None,
                Err(_) => false,
            },
            r matches Ok(Some(v)) ==> ids_whole(v),
    {
        proof {
            use_type_invariant(self);
        }
        get_in(&self.properties, key)
    }

    /// Decode the properties of this relationship into the values under the given
    /// names, in that order. Properties under other names are skipped. Where
    /// a name is missing, the error names the first missing one.
    pub fn to(&self, names: &[&str]) -> (r: Result<Vec<BoltRef<'_>>, Error>)
        ensures
            selected(r, self.properties(), names@),
            r matches Ok(values) ==> all_whole(values@),
    {
        proof {
            use_type_invariant(self);
        }
        select_in(&self.properties, names)
    }

    /// Convert the properties of this relationship into the values under the given
    /// names, in that order, as values that own their memory.
    pub fn into(self, names: &[&str]) -> (r: Result<Vec<Bolt>, Error>)
        ensures
            selected_owned(r, self.properties(), names@),
            r matches Ok(values) ==> all_owned_whole(values@),
    {
        proof {
            use_type_invariant(&self);
        }
        select_owned(&self.properties, names)
    }

    /// An id for this relationship.
    #[verifier::when_used_as_spec(spec_id)]
    pub fn id(&self) -> (r: i64)
        ensures
            r == self.spec_id(),
    {
        self.id
    }

    /// A unique id for this relationship; `None` where the server sent none.
    #[verifier::when_used_as_spec(spec_element_id)]
    pub fn element_id(&self) -> (r: Option<&'de str>)
        ensures
            r == self.spec_element_id(),
    {
        self.element_id
    }

    /// The type of this relationship.
    #[verifier::when_used_as_spec(spec_typ)]
    pub fn typ(&self) -> (r: &'de str)
        ensures
            r == self.spec_typ(),
    {
        self.typ
    }

    /// This relationship between the two given nodes. Id, type and
    /// properties are kept.
    pub fn bind(
        &self,
        start_node_id: i64,
        start_node_element_id: Option<&'de str>,
        end_node_id: i64,
        end_node_element_id: Option<&'de str>,
    ) -> (r: Relationship<'de>)
        ensures
            r.id() == self.id(),
            r.element_id() == self.element_id(),
            r.typ() == self.typ(),
            r.raw_properties() == self.raw_properties(),
            r.start_node_id() == start_node_id,
            r.start_node_element_id() == start_node_element_id,
            r.end_node_id() == end_node_id,
            r.end_node_element_id() == end_node_element_id,
    {
        proof {
            use_type_invariant(self);
        }
        Relationship::from_other_rel(
            self.id,
            self.element_id,
            start_node_id,
            start_node_element_id,
            end_node_id,
            end_node_element_id,
            self.typ,
            self.properties.clone(),
        )
    }
}

impl<'de> Clone for UnboundRelationship<'de> {
    fn clone(&self) -> (r: Self)
        ensures
            r@ == self@,
            r.id() == self.id(),
            r.element_id() == self.element_id(),
            r.typ() == self.typ(),
            r.raw_properties() == self.raw_properties(),
    {
        proof {
            use_type_invariant(self);
        }
        UnboundRelationship {
            id: self.id,
            typ: self.typ,
            properties: self.properties.clone(),
            element_id: self.element_id,
        }
    }
}

} // verus!
