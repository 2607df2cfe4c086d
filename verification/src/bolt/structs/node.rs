use super::de::{
    get_in, keys_in, map_in, select_in, select_owned, selected, selected_owned,
};
use super::de::{checked_dictionary, dictionary_of};
use super::MapRef;
use super::owned::{all_owned_whole, Bolt};
use super::{all_whole, ids_whole, BoltRef};
use crate::errors::Error;
use crate::packstream::grammar::{entries_of, is_dictionary};
use crate::packstream::value::lookup;
use crate::packstream::raw::contents;
use crate::packstream::value::{Value, TAG_NODE};
use bytes::Bytes;
use vstd::prelude::*;

verus! {

/// The string values of a list of borrowed strings.
pub open spec fn text_values(items: Seq<&str>) -> Seq<Value> {
    Seq::new(items.len(), |i: int| Value::String(items[i]@))
}

/// The field that an element id adds to a structure: none where it is absent.
pub open spec fn optional_text(id: Option<&str>) -> Seq<Value> {
    match id {
        Some(s) => seq![Value::String(s@)],
        None => Seq::empty(),
    }
}

/// A copy of a list of borrowed strings.
pub(crate) fn copy_texts<'a>(items: &Vec<&'a str>) -> (r: Vec<&'a str>)
    ensures
        r@ == items@,
{
    let mut out: Vec<&'a str> = Vec::new();
    let mut i: usize = 0;
    while i < items.len()
        invariant
            i <= items@.len(),
            out@ == items@.take(i as int),
        decreases items@.len() - i,
    {
        out.push(items[i]);
        assert(items@.take(i + 1) == items@.take(i as int).push(items@[i as int]));
        i += 1;
    }
    assert(items@.take(items@.len() as int) == items@);
    out
}

/// A node within the graph, borrowing its strings from the received message.
/// Its properties are kept as the bytes of their dictionary.
#[derive(Debug, PartialEq, Eq)]
pub struct NodeRef<'de> {
    pub(crate) id: i64,
    pub(crate) labels: Vec<&'de str>,
    pub(crate) properties: Bytes,
    pub(crate) element_id: Option<&'de str>,
}

impl<'de> NodeRef<'de> {
    /// The properties are the encoding of one dictionary.
    #[verifier::type_invariant]
    pub(crate) open spec fn inv(self) -> bool {
        is_dictionary(contents(self.properties))
    }

    /// The structure that this node is written as.
    pub open(crate) spec fn view(&self) -> Value {
        Value::Structure {
            tag: TAG_NODE,
            fields: seq![
                Value::Integer(self.id),
                Value::List(text_values(self.labels@)),
                Value::Deferred(contents(self.properties)),
            ] + optional_text(self.element_id),
        }
    }

    pub open(crate) spec fn spec_id(&self) -> i64 {
        self.id
    }

    pub open(crate) spec fn spec_element_id(&self) -> Option<&'de str> {
        self.element_id
    }

    pub open(crate) spec fn spec_labels(&self) -> Seq<&'de str> {
        self.labels@
    }

    /// The bytes of the dictionary of this node's properties.
    pub open(crate) spec fn raw_properties(&self) -> Seq<u8> {
        contents(self.properties)
    }

    /// The entries of the properties of this node.
    pub open(crate) spec fn properties(&self) -> Seq<(Seq<char>, Value)> {
        entries_of(contents(self.properties))
    }

    /// A node with the given id, labels and element id, whose properties
    /// are the dictionary that `properties` encodes. Fails as decoding does
    /// where `properties` is not the encoding of one dictionary.
    pub fn new(
        id: i64,
        labels: Vec<&'de str>,
        properties: Bytes,
        element_id: Option<&'de str>,
    ) -> (r: Result<Self, Error>)
        ensures
            match dictionary_of(contents(properties)) {
                Ok(entries) => r matches Ok(node) && node.id() == id && node.spec_labels()
                    == labels@ && node.element_id() == element_id && node.raw_properties()
                    == contents(properties) && node.properties() == entries,
                Err(e) => r == Err::<Self, Error>(e),
            },
    {
        checked_dictionary(&properties)?;
        Ok(NodeRef { id, labels, properties, element_id })
    }

    /// The properties of this node, decoded.
    pub fn properties_map(&self) -> (r: MapRef<'_>)
        ensures
            r@ == self.properties(),
            r.whole(),
    {
        proof {
            use_type_invariant(self);
        }
        map_in(&self.properties)
    }

    /// Get the names of the properties of this node.
    pub fn keys(&self) -> (r: Vec<&str>)
        ensures
            r@.len() == self.properties().len(),
            forall|i: int| 0 <= i < r@.len() ==> (#[trigger] r@[i])@ == self.properties()[i].0,
    {
        proof {
            use_type_invariant(self);
        }
        keys_in(&self.properties)
    }

    /// Get a property of this node: `Ok(None)` where it has no property of
    /// that name. The properties are decoded anew on every call, so that the
    /// same call gives the same value again.
    pub fn get(&self, key: &str) -> (r: Result<Option<BoltRef<'_>>, Error>)
        ensures
            match r {
                Ok(Some(v)) => lookup(self.properties(), key@) == Some(v@),
                Ok(None) => lookup(self.properties(), key@) is None,
                Err(_) => false,
            },
            r matches Ok(Some(v)) ==> ids_whole(v),
    {
        proof {
            use_type_invariant(self);
        }
        get_in(&self.properties, key)
    }

    /// Decode the properties of this node into the values under the given
    /// names, in that order. Properties under other names are skipped. Where
    /// a name is missing, the error names the first missing one.
    pub fn to(&self, names: &[&str]) -> (r: Result<Vec<BoltRef<'_>>, Error>)
        ensures
            selected(r, self.properties(), names@),
            r matches Ok(values) ==> all_whole(values@),
    {
        proof {
            use_type_invariant(self);
        }
        select_in(&self.properties, names)
    }

    /// Convert the properties of this node into the values under the given
    /// names, in that order, as values that own their memory.
    pub fn into(self, names: &[&str]) -> (r: Result<Vec<Bolt>, Error>)
        ensures
            selected_owned(r, self.properties(), names@),
            r matches Ok(values) ==> all_owned_whole(values@),
    {
        proof {
            use_type_invariant(&self);
        }
        select_owned(&self.properties, names)
    }

    /// An id for this node.
    ///
    /// Ids are guaranteed to remain stable for the duration of the session
    /// they were found in, but may be re-used for other entities after that.
    #[verifier::when_used_as_spec(spec_id)]
    pub fn id(&self) -> (r: i64)
        ensures
            r == self.spec_id(),
    {
        self.id
    }

    /// A unique id for this node; `None` where the server sent none.
    #[verifier::when_used_as_spec(spec_element_id)]
    pub fn element_id(&self) -> (r: Option<&'de str>)
        ensures
            r == self.spec_element_id(),
    {
        self.element_id
    }

    /// Return all labels.
    pub fn labels(&self) -> (r: &[&'de str])
        ensures
            r@ == self.spec_labels(),
    {
        self.labels.as_slice()
    }
}

impl<'de> Clone for NodeRef<'de> {
    fn clone(&self) -> (r: Self)
        ensures
            r@ == self@,
            r.id() == self.id(),
            r.element_id() == self.element_id(),
            r.spec_labels() == self.spec_labels(),
            r.raw_properties() == self.raw_properties(),
    {
        proof {
            use_type_invariant(self);
        }
        NodeRef {
            id: self.id,
            labels: copy_texts(&self.labels),
            properties: self.properties.clone(),
            element_id: self.element_id,
        }
    }
}

} // verus!
