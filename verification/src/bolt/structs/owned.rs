//! Values that own their memory, for when the message that they came in is
//! gone.

use super::node::{optional_text, text_values};
use super::path::{int_values, node_values, relationship_values};
use super::{
    entry_keys, ids_whole, index_of_key, lemma_found, lemma_not_found, put, values_of, BoltRef,
    Date, DateTime, DateTimeZoneIdRef, Duration, LegacyDateTime, LegacyDateTimeZoneIdRef,
    LocalDateTime, LocalTime, MapRef, NodeRef, PathRef, Point2D, Point3D, Relationship, Time,
    UnboundRelationship,
};
use crate::packstream::grammar::is_dictionary;
use crate::packstream::raw::{as_slice, contents, copy_from_slice};
use crate::packstream::text::str_eq;
use crate::packstream::value::{
    keys_of, lookup, walk_ok, Value, TAG_DATE_TIME_ZONE_ID, TAG_LEGACY_DATE_TIME_ZONE_ID,
    TAG_NODE, TAG_PATH, TAG_RELATIONSHIP, TAG_UNBOUND_RELATIONSHIP,
};
use bytes::Bytes;
use vstd::prelude::*;

verus! {

/// The string values of a list of owned strings.
pub open spec fn string_values(items: Seq<String>) -> Seq<Value> {
    Seq::new(items.len(), |i: int| Value::String(items[i]@))
}

/// The field that an owned element id adds to a structure.
pub open spec fn optional_string(id: Option<String>) -> Seq<Value> {
    match id {
        Some(s) => seq![Value::String(s@)],
        None => Seq::empty(),
    }
}

/// The three fields that owned element ids add to a relationship.
pub open spec fn optional_strings(
    id: Option<String>,
    start: Option<String>,
    end: Option<String>,
) -> Seq<Value> {
    match (id, start, end) {
        (Some(a), Some(b), Some(c)) => seq![
            Value::String(a@),
            Value::String(b@),
            Value::String(c@),
        ],
        _ => Seq::empty(),
    }
}

/// What an owned element id says, where there is one.
pub open spec fn string_of(id: Option<String>) -> Option<Seq<char>> {
    match id {
        Some(s) => Some(s@),
        None => None,
    }
}

/// Owned copies of borrowed strings.
pub(crate) fn own_texts(items: &Vec<&str>) -> (r: Vec<String>)
    ensures
        string_values(r@) == text_values(items@),
{
    let mut out: Vec<String> = Vec::new();
    let mut i: usize = 0;
    while i < items.len()
        invariant
            i <= items@.len(),
            out@.len() == i,
            forall|j: int| 0 <= j < i ==> (#[trigger] out@[j])@ == items@[j]@,
        decreases items@.len() - i,
    {
        out.push(items[i].to_owned());
        i += 1;
    }
    assert(string_values(out@) =~= text_values(items@));
    out
}

/// Views of owned strings.
pub(crate) fn borrow_texts<'a>(items: &'a Vec<String>) -> (r: Vec<&'a str>)
    ensures
        text_values(r@) == string_values(items@),
{
    let mut out: Vec<&'a str> = Vec::new();
    let mut i: usize = 0;
    while i < items.len()
        invariant
            i <= items@.len(),
            out@.len() == i,
            forall|j: int| 0 <= j < i ==> (#[trigger] out@[j])@ == items@[j]@,
        decreases items@.len() - i,
    {
        out.push(items[i].as_str());
        i += 1;
    }
    assert(text_values(out@) =~= string_values(items@));
    out
}

/// An owned copy of a borrowed string, where there is one.
pub(crate) fn own_text(id: Option<&str>) -> (r: Option<String>)
    ensures
        optional_string(r) == optional_text(id),
        r is Some <==> id is Some,
        r matches Some(s) ==> s@ == id->Some_0@,
{
    match id {
        Some(s) => Some(s.to_owned()),
        None => None,
    }
}

/// A view of an owned string, where there is one.
pub(crate) fn borrow_text<'a>(id: &'a Option<String>) -> (r: Option<&'a str>)
    ensures
        optional_text(r) == optional_string(*id),
        r is Some <==> id is Some,
        r matches Some(s) ==> s@ == id->Some_0@,
{
    match id {
        Some(s) => Some(s.as_str()),
        None => None,
    }
}

/// A node within the graph, owning its strings.
#[derive(Debug, PartialEq, Eq)]
pub struct Node {
    pub(crate) id: i64,
    pub(crate) labels: Vec<String>,
    pub(crate) properties: Bytes,
    pub(crate) element_id: Option<String>,
}

impl Node {
    /// The properties are the encoding of one dictionary.
    #[verifier::type_invariant]
    pub(crate) open spec fn inv(self) -> bool {
        is_dictionary(contents(self.properties))
    }

    /// The structure that this node is written as.
    pub open(crate) spec fn view(&self) -> Value {
        Value::Structure {
            tag: TAG_NODE,
            fields: seq![
                Value::Integer(self.id),
                Value::List(string_values(self.labels@)),
                Value::Deferred(contents(self.properties)),
            ] + optional_string(self.element_id),
        }
    }

    /// This node with its strings borrowed.
    pub fn as_ref(&self) -> (r: NodeRef<'_>)
        ensures
            r@ == self@,
    {
        proof {
            use_type_invariant(self);
        }
        NodeRef {
            id: self.id,
            labels: borrow_texts(&self.labels),
            properties: self.properties.clone(),
            element_id: borrow_text(&self.element_id),
        }
    }
}

impl<'de> NodeRef<'de> {
    /// This node with its strings copied.
    pub fn into_owned(self) -> (r: Node)
        ensures
            r@ == self@,
    {
        proof {
            use_type_invariant(&self);
        }
        Node {
            id: self.id,
            labels: own_texts(&self.labels),
            properties: self.properties,
            element_id: own_text(self.element_id),
        }
    }
}

/// A relationship within the graph, owning its strings.
#[derive(Debug, PartialEq, Eq)]
pub struct OwnedRelationship {
    pub(crate) id: i64,
    pub(crate) start_node_id: i64,
    pub(crate) end_node_id: i64,
    pub(crate) typ: String,
    pub(crate) properties: Bytes,
    pub(crate) element_id: Option<String>,
    pub(crate) start_node_element_id: Option<String>,
    pub(crate) end_node_element_id: Option<String>,
}

impl OwnedRelationship {
    /// The properties are the encoding of one dictionary.
    #[verifier::type_invariant]
    pub(crate) open spec fn inv(self) -> bool {
        is_dictionary(contents(self.properties))
    }

    /// The structure that this relationship is written as.
    pub open(crate) spec fn view(&self) -> Value {
        Value::Structure {
            tag: TAG_RELATIONSHIP,
            fields: seq![
                Value::Integer(self.id),
                Value::Integer(self.start_node_id),
                Value::Integer(self.end_node_id),
                Value::String(self.typ@),
                Value::Deferred(contents(self.properties)),
            ] + optional_strings(
                self.element_id,
                self.start_node_element_id,
                self.end_node_element_id,
            ),
        }
    }

    /// What the three element ids say: that of the relationship, that of
    /// its start node and that of its end node. The structure that the
    /// relationship is written as has them only where all three are there.
    pub open(crate) spec fn element_ids(&self) -> (
        Option<Seq<char>>,
        Option<Seq<char>>,
        Option<Seq<char>>,
    ) {
        (
            string_of(self.element_id),
            string_of(self.start_node_element_id),
            string_of(self.end_node_element_id),
        )
    }

    /// Whether the element ids are whole: all three are there, or none is.
    pub open(crate) spec fn whole(&self) -> bool {
        ||| self.element_ids() == (
            None::<Seq<char>>,
            None::<Seq<char>>,
            None::<Seq<char>>,
        )
        ||| (self.element_id is Some && self.start_node_element_id is Some
            && self.end_node_element_id is Some)
    }

    /// This relationship with its strings borrowed. The element ids are
    /// kept one by one, also where not all three are there.
    pub fn as_ref(&self) -> (r: Relationship<'_>)
        ensures
            r@ == self@,
            r.element_ids() == self.element_ids(),
    {
        proof {
            use_type_invariant(self);
        }
        Relationship {
            id: self.id,
            start_node_id: self.start_node_id,
            end_node_id: self.end_node_id,
            typ: self.typ.as_str(),
            properties: self.properties.clone(),
            element_id: borrow_text(&self.element_id),
            start_node_element_id: borrow_text(&self.start_node_element_id),
            end_node_element_id: borrow_text(&self.end_node_element_id),
        }
    }
}

impl<'de> Relationship<'de> {
    /// This relationship with its strings copied. The element ids are kept
    /// one by one, also where not all three are there.
    pub fn into_owned(self) -> (r: OwnedRelationship)
        ensures
            r@ == self@,
            r.element_ids() == self.element_ids(),
    {
        proof {
            use_type_invariant(&self);
        }
        OwnedRelationship {
            id: self.id,
            start_node_id: self.start_node_id,
            end_node_id: self.end_node_id,
            typ: self.typ.to_owned(),
            properties: self.properties,
            element_id: own_text(self.element_id),
            start_node_element_id: own_text(self.start_node_element_id),
            end_node_element_id: own_text(self.end_node_element_id),
        }
    }
}

/// A relationship as a path holds it, owning its strings.
#[derive(Debug, PartialEq, Eq)]
pub struct OwnedUnboundRelationship {
    pub(crate) id: i64,
    pub(crate) typ: String,
    pub(crate) properties: Bytes,
    pub(crate) element_id: Option<String>,
}

impl OwnedUnboundRelationship {
    /// The properties are the encoding of one dictionary.
    #[verifier::type_invariant]
    pub(crate) open spec fn inv(self) -> bool {
        is_dictionary(contents(self.properties))
    }

    /// The structure that this relationship is written as.
    pub open(crate) spec fn view(&self) -> Value {
        Value::Structure {
            tag: TAG_UNBOUND_RELATIONSHIP,
            fields: seq![
                Value::Integer(self.id),
                Value::String(self.typ@),
                Value::Deferred(contents(self.properties)),
            ] + optional_string(self.element_id),
        }
    }

    /// This relationship with its strings borrowed.
    pub fn as_ref(&self) -> (r: UnboundRelationship<'_>)
        ensures
            r@ == self@,
    {
        proof {
            use_type_invariant(self);
        }
        UnboundRelationship {
            id: self.id,
            typ: self.typ.as_str(),
            properties: self.properties.clone(),
            element_id: borrow_text(&self.element_id),
        }
    }
}

impl<'de> UnboundRelationship<'de> {
    /// This relationship with its strings copied.
    pub fn into_owned(self) -> (r: OwnedUnboundRelationship)
        ensures
            r@ == self@,
    {
        proof {
            use_type_invariant(&self);
        }
        OwnedUnboundRelationship {
            id: self.id,
            typ: self.typ.to_owned(),
            properties: self.properties,
            element_id: own_text(self.element_id),
        }
    }
}

/// The values of a list of owned nodes.
pub open spec fn owned_node_values(nodes: Seq<Node>) -> Seq<Value> {
    Seq::new(nodes.len(), |i: int| nodes[i]@)
}

/// The values of a list of owned relationships.
pub open spec fn owned_relationship_values(rels: Seq<OwnedUnboundRelationship>) -> Seq<Value> {
    Seq::new(rels.len(), |i: int| rels[i]@)
}

/// A walk through the graph, owning its strings.
#[derive(Debug, PartialEq, Eq)]
pub struct Path {
    pub(crate) nodes: Vec<Node>,
    pub(crate) rels: Vec<OwnedUnboundRelationship>,
    pub(crate) indices: Vec<i64>,
}

impl Path {
    /// There is a node to start from, and every pair of indices names a
    /// relationship and a node of this path.
    #[verifier::type_invariant]
    pub(crate) open spec fn inv(self) -> bool {
        walk_ok(self.nodes@.len(), self.rels@.len(), self.indices@)
    }

    /// The structure that this path is written as.
    pub open(crate) spec fn view(&self) -> Value {
        Value::Structure {
            tag: TAG_PATH,
            fields: seq![
                Value::List(owned_node_values(self.nodes@)),
                Value::List(owned_relationship_values(self.rels@)),
                Value::List(int_values(self.indices@)),
            ],
        }
    }

    /// This path with its strings borrowed.
    pub fn as_ref(&self) -> (r: PathRef<'_>)
        ensures
            r@ == self@,
    {
        proof {
            use_type_invariant(self);
        }
        let mut nodes: Vec<NodeRef<'_>> = Vec::new();
        let mut i: usize = 0;
        while i < self.nodes.len()
            invariant
                i <= self.nodes@.len(),
                nodes@.len() == i,
                forall|j: int| 0 <= j < i ==> (#[trigger] nodes@[j])@ == self.nodes@[j]@,
            decreases self.nodes@.len() - i,
        {
            nodes.push(self.nodes[i].as_ref());
            i += 1;
        }
        let mut rels: Vec<UnboundRelationship<'_>> = Vec::new();
        let mut i: usize = 0;
        while i < self.rels.len()
            invariant
                i <= self.rels@.len(),
                rels@.len() == i,
                forall|j: int| 0 <= j < i ==> (#[trigger] rels@[j])@ == self.rels@[j]@,
            decreases self.rels@.len() - i,
        {
            rels.push(self.rels[i].as_ref());
            i += 1;
        }
        let indices: Vec<i64> = copy_ints(&self.indices);
        assert(node_values(nodes@) =~= owned_node_values(self.nodes@));
        assert(relationship_values(rels@) =~= owned_relationship_values(self.rels@));
        PathRef { nodes, rels, indices }
    }
}

/// A copy of a list of integers.
pub(crate) fn copy_ints(items: &Vec<i64>) -> (r: Vec<i64>)
    ensures
        r@ == items@,
{
    let mut out: Vec<i64> = Vec::new();
    let mut i: usize = 0;
    while i < items.len()
        invariant
            i <= items@.len(),
            out@ == items@.take(i as int),
        decreases items@.len() - i,
    {
        out.push(items[i]);
        assert(items@.take(i + 1) == items@.take(i as int).push(items@[i as int]));
        i += 1;
    }
    assert(items@.take(items@.len() as int) == items@);
    out
}

impl<'de> PathRef<'de> {
    /// This path with its strings copied.
    pub fn into_owned(self) -> (r: Path)
        ensures
            r@ == self@,
    {
        proof {
            use_type_invariant(&self);
        }
        let ghost before = self@;
        let ghost count = self.nodes@.len();
        let ghost rel_count = self.rels@.len();
        let PathRef { nodes: from_nodes, rels: from_rels, indices } = self;
        let ghost node_seq = from_nodes@;
        let ghost rel_seq = from_rels@;
        let mut nodes: Vec<Node> = Vec::new();
        for x in it: from_nodes
            invariant
                it.seq() == node_seq,
                nodes@.len() == it.index(),
                forall|j: int| 0 <= j < nodes@.len() ==> (#[trigger] nodes@[j])@ == node_seq[j]@,
        {
            nodes.push(x.into_owned());
        }
        let mut rels: Vec<OwnedUnboundRelationship> = Vec::new();
        for x in it: from_rels
            invariant
                it.seq() == rel_seq,
                rels@.len() == it.index(),
                forall|j: int| 0 <= j < rels@.len() ==> (#[trigger] rels@[j])@ == rel_seq[j]@,
        {
            rels.push(x.into_owned());
        }
        assert(owned_node_values(nodes@) =~= node_values(node_seq));
        assert(owned_relationship_values(rels@) =~= relationship_values(rel_seq));
        Path { nodes, rels, indices }
    }
}

/// An instant with a named time zone, owning the name.
#[derive(Clone, Debug, PartialEq, Eq)]
pub struct DateTimeZoneId {
    pub seconds: i64,
    pub nanoseconds: u32,
    pub tz_id: String,
}

impl DateTimeZoneId {
    /// The structure that this instant is written as.
    pub open spec fn view(&self) -> Value {
        Value::Structure {
            tag: TAG_DATE_TIME_ZONE_ID,
            fields: seq![
                Value::Integer(self.seconds),
                Value::Integer(self.nanoseconds as i64),
                Value::String(self.tz_id@),
            ],
        }
    }

    /// This instant with the name borrowed.
    pub fn as_ref(&self) -> (r: DateTimeZoneIdRef<'_>)
        ensures
            r@ == self@,
    {
        DateTimeZoneIdRef {
            seconds: self.seconds,
            nanoseconds: self.nanoseconds,
            tz_id: self.tz_id.as_str(),
        }
    }
}

impl<'de> DateTimeZoneIdRef<'de> {
    /// This instant with the name copied.
    pub fn to_owned(&self) -> (r: DateTimeZoneId)
        ensures
            r@ == self@,
    {
        DateTimeZoneId {
            seconds: self.seconds,
            nanoseconds: self.nanoseconds,
            tz_id: self.tz_id.to_owned(),
        }
    }
}

/// An instant in the older form with a named time zone, owning the name.
#[derive(Clone, Debug, PartialEq, Eq)]
pub struct LegacyDateTimeZoneId {
    pub seconds: i64,
    pub nanoseconds: u32,
    pub tz_id: String,
}

impl LegacyDateTimeZoneId {
    /// The structure that this instant is written as.
    pub open spec fn view(&self) -> Value {
        Value::Structure {
            tag: TAG_LEGACY_DATE_TIME_ZONE_ID,
            fields: seq![
                Value::Integer(self.seconds),
                Value::Integer(self.nanoseconds as i64),
                Value::String(self.tz_id@),
            ],
        }
    }

    /// This instant with the name borrowed.
    pub fn as_ref(&self) -> (r: LegacyDateTimeZoneIdRef<'_>)
        ensures
            r@ == self@,
    {
        LegacyDateTimeZoneIdRef {
            seconds: self.seconds,
            nanoseconds: self.nanoseconds,
            tz_id: self.tz_id.as_str(),
        }
    }
}

impl<'de> LegacyDateTimeZoneIdRef<'de> {
    /// This instant with the name copied.
    pub fn to_owned(&self) -> (r: LegacyDateTimeZoneId)
        ensures
            r@ == self@,
    {
        LegacyDateTimeZoneId {
            seconds: self.seconds,
            nanoseconds: self.nanoseconds,
            tz_id: self.tz_id.to_owned(),
        }
    }
}

/// A value that owns its memory.
#[derive(Debug, PartialEq)]
#[non_exhaustive]
pub enum Bolt {
    Null,
    Boolean(bool),
    Integer(i64),
    /// A double, held as its bit pattern.
    Float(u64),
    Bytes(Bytes),
    String(String),
    List(Vec<Bolt>),
    Dictionary(BoltMap),
    Node(Node),
    Relationship(OwnedRelationship),
    UnboundRelationship(OwnedUnboundRelationship),
    Path(Path),
    Date(Date),
    Time(Time),
    LocalTime(LocalTime),
    DateTime(DateTime),
    DateTimeZoneId(DateTimeZoneId),
    LocalDateTime(LocalDateTime),
    Duration(Duration),
    Point2D(Point2D),
    Point3D(Point3D),
    LegacyDateTime(LegacyDateTime),
    LegacyDateTimeZoneId(LegacyDateTimeZoneId),
}

/// A dictionary with owned keys: entries with unique keys, in the order in
/// which they were inserted.
#[derive(Debug, PartialEq)]
pub struct BoltMap {
    pub(crate) entries: Vec<(String, Bolt)>,
}

/// The values of a list of owned values.
pub open spec fn owned_values(items: Seq<Bolt>) -> Seq<Value> {
    Seq::new(items.len(), |i: int| items[i]@)
}

/// The keys of a list of owned entries.
pub open spec fn owned_keys(entries: Seq<(String, Bolt)>) -> Seq<Seq<char>> {
    Seq::new(entries.len(), |i: int| entries[i].0@)
}

/// The entries of a list of pairs of an owned key and a value.
pub open spec fn owned_entries(entries: Seq<(String, Bolt)>) -> Seq<(Seq<char>, Value)> {
    Seq::new(entries.len(), |i: int| (entries[i].0@, entries[i].1@))
}

/// Whether the owned value has the element ids of the borrowed one,
/// wherever the two hold a relationship: the two being the same value, this
/// says that of an incomplete set of element ids, which the value that a
/// relationship stands for leaves out, nothing is lost either.
pub open(crate) spec fn ids_kept(borrowed: BoltRef, owned: Bolt) -> bool
    decreases borrowed,
{
    match (borrowed, owned) {
        (BoltRef::Relationship(b), Bolt::Relationship(o)) => b.element_ids() == o.element_ids(),
        (BoltRef::List(b), Bolt::List(o)) => {
            &&& b@.len() == o@.len()
            &&& forall|i: int| 0 <= i < b@.len() ==> ids_kept(#[trigger] b@[i], o@[i])
        },
        (BoltRef::Dictionary(b), Bolt::Dictionary(o)) => {
            &&& b.entries@.len() == o.entries@.len()
            &&& forall|i: int|
                0 <= i < b.entries@.len() ==> ids_kept((#[trigger] b.entries@[i]).1, o.entries@[i].1)
        },
        _ => true,
    }
}

/// Whether every relationship in the owned value has its element ids
/// whole: all three of them, or none.
pub open(crate) spec fn owned_whole(v: Bolt) -> bool
    decreases v,
{
    match v {
        Bolt::Relationship(r) => r.whole(),
        Bolt::List(items) => forall|i: int|
            0 <= i < items@.len() ==> owned_whole(#[trigger] items@[i]),
        Bolt::Dictionary(map) => forall|i: int|
            0 <= i < map.entries@.len() ==> owned_whole((#[trigger] map.entries@[i]).1),
        _ => true,
    }
}

/// Whether every relationship in the owned values has its element ids
/// whole.
pub open(crate) spec fn all_owned_whole(items: Seq<Bolt>) -> bool {
    forall|i: int| 0 <= i < items.len() ==> owned_whole(#[trigger] items[i])
}

impl Bolt {
    /// What this value stands for.
    pub open(crate) spec fn view(&self) -> Value
        decreases self,
    {
        match self {
            Bolt::Null => Value::Null,
            Bolt::Boolean(b) => Value::Boolean(*b),
            Bolt::Integer(i) => Value::Integer(*i),
            Bolt::Float(bits) => Value::Float(*bits),
            Bolt::Bytes(b) => Value::Bytes(contents(*b)),
            Bolt::String(s) => Value::String(s@),
            Bolt::List(items) => Value::List(
                Seq::new(
                    items@.len(),
                    |i: int|
                        if 0 <= i < items@.len() {
                            items@[i].view()
                        } else {
                            Value::Null
                        },
                ),
            ),
            Bolt::Dictionary(map) => Value::Dictionary(map.view()),
            Bolt::Node(n) => n@,
            Bolt::Relationship(r) => r@,
            Bolt::UnboundRelationship(r) => r@,
            Bolt::Path(p) => p@,
            Bolt::Date(d) => d@,
            Bolt::Time(t) => t@,
            Bolt::LocalTime(t) => t@,
            Bolt::DateTime(d) => d@,
            Bolt::DateTimeZoneId(d) => d@,
            Bolt::LocalDateTime(d) => d@,
            Bolt::Duration(d) => d@,
            Bolt::Point2D(p) => p@,
            Bolt::Point3D(p) => p@,
            Bolt::LegacyDateTime(d) => d@,
            Bolt::LegacyDateTimeZoneId(d) => d@,
        }
    }

    /// This value with its strings and byte strings borrowed.
    pub fn as_ref(&self) -> (r: BoltRef<'_>)
        ensures
            r@ == self@,
            ids_kept(r, *self),
            owned_whole(*self) ==> ids_whole(r),
        decreases self,
    {
        match self {
            Bolt::Null => BoltRef::Null,
            Bolt::Boolean(b) => BoltRef::Boolean(*b),
            Bolt::Integer(i) => BoltRef::Integer(*i),
            Bolt::Float(bits) => BoltRef::Float(*bits),
            Bolt::Bytes(b) => BoltRef::Bytes(as_slice(b)),
            Bolt::String(s) => BoltRef::String(s.as_str()),
            Bolt::List(items) => {
                let mut out: Vec<BoltRef<'_>> = Vec::new();
                let mut i: usize = 0;
                while i < items.len()
                    invariant
                        i <= items@.len(),
                        out@.len() == i,
                        forall|j: int| 0 <= j < i ==> (#[trigger] out@[j])@ == items@[j]@,
                        forall|j: int| 0 <= j < i ==> ids_kept(#[trigger] out@[j], items@[j]),
                        owned_whole(*self) ==> forall|j: int|
                            0 <= j < i ==> ids_whole(#[trigger] out@[j]),
                        *self == Bolt::List(*items),
                    decreases items@.len() - i,
                {
                    assert(self->List_0 == *items);
                    out.push(items[i].as_ref());
                    i += 1;
                }
                let r = BoltRef::List(out);
                assert(r@->List_0 =~= self@->List_0);
                r
            },
            Bolt::Dictionary(map) => {
                proof {
                    use_type_invariant(map);
                }
                let mut out: Vec<(&str, BoltRef<'_>)> = Vec::new();
                let mut i: usize = 0;
                while i < map.entries.len()
                    invariant
                        i <= map.entries@.len(),
                        out@.len() == i,
                        forall|j: int|
                            0 <= j < i ==> (#[trigger] out@[j]).0@ == map.entries@[j].0@
                                && out@[j].1@ == map.entries@[j].1@,
                        forall|j: int|
                            0 <= j < i ==> ids_kept((#[trigger] out@[j]).1, map.entries@[j].1),
                        owned_whole(*self) ==> forall|j: int|
                            0 <= j < i ==> ids_whole((#[trigger] out@[j]).1),
                        *self == Bolt::Dictionary(*map),
                    decreases map.entries@.len() - i,
                {
                    assert(self->Dictionary_0 == *map);
                    out.push((map.entries[i].0.as_str(), map.entries[i].1.as_ref()));
                    i += 1;
                }
                assert(entry_keys(out@) =~= owned_keys(map.entries@));
                let copy = MapRef::from_entries(out);
                assert(copy@ =~= map@);
                BoltRef::Dictionary(copy)
            },
            Bolt::Node(n) => BoltRef::Node(n.as_ref()),
            Bolt::Relationship(r) => BoltRef::Relationship(r.as_ref()),
            Bolt::UnboundRelationship(r) => BoltRef::UnboundRelationship(r.as_ref()),
            Bolt::Path(p) => BoltRef::Path(p.as_ref()),
            Bolt::Date(d) => BoltRef::Date(*d),
            Bolt::Time(t) => BoltRef::Time(*t),
            Bolt::LocalTime(t) => BoltRef::LocalTime(*t),
            Bolt::DateTime(d) => BoltRef::DateTime(*d),
            Bolt::DateTimeZoneId(d) => BoltRef::DateTimeZoneId(d.as_ref()),
            Bolt::LocalDateTime(d) => BoltRef::LocalDateTime(*d),
            Bolt::Duration(d) => BoltRef::Duration(*d),
            Bolt::Point2D(p) => BoltRef::Point2D(*p),
            Bolt::Point3D(p) => BoltRef::Point3D(*p),
            Bolt::LegacyDateTime(d) => BoltRef::LegacyDateTime(*d),
            Bolt::LegacyDateTimeZoneId(d) => BoltRef::LegacyDateTimeZoneId(d.as_ref()),
        }
    }

    /// The owned value that stands for the same as the borrowed `value`.
    /// Every borrowed value has one, and it has the element ids of every
    /// relationship in `value`.
    pub fn of(value: BoltRef<'_>) -> (r: Bolt)
        ensures
            r@ == value@,
            ids_kept(value, r),
            ids_whole(value) ==> owned_whole(r),
        decreases value,
    {
        match value {
            BoltRef::Null => Bolt::Null,
            BoltRef::Boolean(v) => Bolt::Boolean(v),
            BoltRef::Integer(v) => Bolt::Integer(v),
            BoltRef::Float(v) => Bolt::Float(v),
            BoltRef::Bytes(v) => Bolt::Bytes(copy_from_slice(v)),
            BoltRef::String(v) => Bolt::String(v.to_owned()),
            BoltRef::List(items) => {
                let ghost values = values_of(items@);
                let ghost item_seq = items@;
                assert(value@->List_0 =~= values);
                let mut out: Vec<Bolt> = Vec::new();
                for x in it: items
                    invariant
                        it.seq() == item_seq,
                        value->List_0@ == item_seq,
                        value is List,
                        out@.len() == it.index(),
                        forall|j: int| 0 <= j < out@.len() ==> (#[trigger] out@[j])@ == item_seq[j]@,
                        forall|j: int|
                            0 <= j < out@.len() ==> ids_kept(item_seq[j], #[trigger] out@[j]),
                        ids_whole(value) ==> forall|j: int|
                            0 <= j < out@.len() ==> owned_whole(#[trigger] out@[j]),
                {
                    assert(decreases_to!(value->List_0 => value->List_0[it.index() as int]));
                    out.push(Bolt::of(x));
                }
                let r = Bolt::List(out);
                assert(r@->List_0 =~= values);
                r
            },
            BoltRef::Dictionary(map) => {
                proof {
                    use_type_invariant(&map);
                }
                let ghost entries = map@;
                let ghost entry_seq = map.entries@;
                let mut out: Vec<(String, Bolt)> = Vec::new();
                for x in it: map.entries
                    invariant
                        it.seq() == entry_seq,
                        value is Dictionary,
                        value->Dictionary_0.entries@ == entry_seq,
                        out@.len() == it.index(),
                        forall|j: int|
                            0 <= j < out@.len() ==> (#[trigger] out@[j]).0@ == entry_seq[j].0@
                                && out@[j].1@ == entry_seq[j].1@,
                        forall|j: int|
                            0 <= j < out@.len() ==> ids_kept(entry_seq[j].1, (#[trigger] out@[j]).1),
                        ids_whole(value) ==> forall|j: int|
                            0 <= j < out@.len() ==> owned_whole((#[trigger] out@[j]).1),
                {
                    assert(decreases_to!(value->Dictionary_0.entries => value->Dictionary_0.entries[it.index() as int]));
                    let (key, v) = x;
                    out.push((key.to_owned(), Bolt::of(v)));
                }
                assert(owned_keys(out@) =~= entry_keys(entry_seq));
                let copy = BoltMap::from_entries(out);
                assert(copy@ =~= entries);
                Bolt::Dictionary(copy)
            },
            BoltRef::Node(v) => Bolt::Node(v.into_owned()),
            BoltRef::Relationship(v) => Bolt::Relationship(v.into_owned()),
            BoltRef::UnboundRelationship(v) => Bolt::UnboundRelationship(v.into_owned()),
            BoltRef::Path(v) => Bolt::Path(v.into_owned()),
            BoltRef::Date(v) => Bolt::Date(v),
            BoltRef::Time(v) => Bolt::Time(v),
            BoltRef::LocalTime(v) => Bolt::LocalTime(v),
            BoltRef::DateTime(v) => Bolt::DateTime(v),
            BoltRef::DateTimeZoneId(v) => Bolt::DateTimeZoneId(v.to_owned()),
            BoltRef::LocalDateTime(v) => Bolt::LocalDateTime(v),
            BoltRef::Duration(v) => Bolt::Duration(v),
            BoltRef::Point2D(v) => Bolt::Point2D(v),
            BoltRef::Point3D(v) => Bolt::Point3D(v),
            BoltRef::LegacyDateTime(v) => Bolt::LegacyDateTime(v),
            BoltRef::LegacyDateTimeZoneId(v) => Bolt::LegacyDateTimeZoneId(v.to_owned()),
        }
    }
}

impl BoltMap {
    /// No key occurs twice.
    #[verifier::type_invariant]
    pub(crate) open spec fn inv(self) -> bool {
        owned_keys(self.entries@).no_duplicates()
    }

    /// The entries themselves, in order.
    pub open(crate) spec fn items(&self) -> Seq<(String, Bolt)> {
        self.entries@
    }

    /// The entries, in order.
    pub open(crate) spec fn view(&self) -> Seq<(Seq<char>, Value)>
        decreases self,
    {
        Seq::new(
            self.entries@.len(),
            |i: int|
                if 0 <= i < self.entries@.len() {
                    (self.entries@[i].0@, self.entries@[i].1.view())
                } else {
                    (Seq::empty(), Value::Null)
                },
        )
    }

    /// The dictionary of the given entries, whose keys must be unique.
    pub(crate) fn from_entries(entries: Vec<(String, Bolt)>) -> (r: Self)
        requires
            owned_keys(entries@).no_duplicates(),
        ensures
            r@ == owned_entries(entries@),
            r.entries == entries,
    {
        let r = BoltMap { entries };
        assert(r@ =~= owned_entries(entries@));
        r
    }

    /// The empty dictionary.
    pub fn new() -> (r: Self)
        ensures
            r@ == Seq::<(Seq<char>, Value)>::empty(),
    {
        let r = BoltMap { entries: Vec::new() };
        assert(r@ =~= Seq::<(Seq<char>, Value)>::empty());
        r
    }

    /// The number of entries.
    pub fn len(&self) -> (r: usize)
        ensures
            r == self@.len(),
    {
        self.entries.len()
    }
}

} // verus!

verus! {

impl BoltMap {
    /// This dictionary with its keys and values borrowed.
    pub fn as_ref(&self) -> (r: MapRef<'_>)
        ensures
            r@ == self@,
            ids_kept(BoltRef::Dictionary(r), Bolt::Dictionary(*self)),
    {
        proof {
            use_type_invariant(self);
        }
        let mut out: Vec<(&str, BoltRef<'_>)> = Vec::new();
        let mut i: usize = 0;
        while i < self.entries.len()
            invariant
                i <= self.entries@.len(),
                out@.len() == i,
                forall|j: int|
                    0 <= j < i ==> (#[trigger] out@[j]).0@ == self.entries@[j].0@ && out@[j].1@
                        == self.entries@[j].1@,
                forall|j: int| 0 <= j < i ==> ids_kept((#[trigger] out@[j]).1, self.entries@[j].1),
            decreases self.entries@.len() - i,
        {
            out.push((self.entries[i].0.as_str(), self.entries[i].1.as_ref()));
            i += 1;
        }
        assert(entry_keys(out@) =~= owned_keys(self.entries@));
        let copy = MapRef::from_entries(out);
        assert(copy@ =~= self@);
        copy
    }

    /// The owned dictionary that stands for the same as the borrowed `map`.
    pub fn from(map: MapRef<'_>) -> (r: BoltMap)
        ensures
            r@ == map@,
            ids_kept(BoltRef::Dictionary(map), Bolt::Dictionary(r)),
    {
        let ghost entries = map@;
        match Bolt::of(BoltRef::Dictionary(map)) {
            Bolt::Dictionary(owned) => owned,
            other => {
                proof {
                    lemma_owned_kind(&other);
                }
                vstd::pervasive::unreached()
            },
        }
    }

    /// The index of the entry with the key `key`, if there is one.
    fn position(&self, key: &str) -> (r: Option<usize>)
        ensures
            match r {
                Some(i) => i < self@.len() && self@[i as int].0 == key@ && lookup(self@, key@)
                    == Some(self@[i as int].1) && index_of_key(self@, key@) == Some(i as int),
                None => lookup(self@, key@) is None && index_of_key(self@, key@) is None
                    && !keys_of(self@).contains(key@),
            },
    {
        let ghost entries = self@;
        let mut i: usize = 0;
        while i < self.entries.len()
            invariant
                i <= self.entries@.len(),
                entries == self@,
                entries.len() == self.entries@.len(),
                forall|j: int| 0 <= j < i ==> (#[trigger] entries[j]).0 != key@,
            decreases self.entries@.len() - i,
        {
            if str_eq(self.entries[i].0.as_str(), key) {
                proof {
                    assert(entries[i as int].0 == key@);
                    lemma_found(entries, key@, i as int);
                }
                return Some(i);
            }
            assert(entries[i as int].0 != key@);
            i += 1;
        }
        proof {
            lemma_not_found(entries, key@);
        }
        None
    }

    /// Puts `value` under `key`. Where the dictionary holds a value under
    /// that key, the entry keeps its place and the old value is returned;
    /// otherwise the entry is added at the end.
    pub fn insert(&mut self, key: String, value: Bolt) -> (r: Option<Bolt>)
        ensures
            final(self)@ == put(old(self)@, key@, value@),
            match r {
                Some(old_value) => lookup(old(self)@, key@) == Some(old_value@),
                None => lookup(old(self)@, key@) is None,
            },
            match index_of_key(old(self)@, key@) {
                Some(i) => final(self).items() == old(self).items().update(i, (key, value)) && r
                    == Some(old(self).items()[i].1),
                None => final(self).items() == old(self).items().push((key, value)) && r is None,
            },
    {
        proof {
            use_type_invariant(&*self);
        }
        let ghost before = self@;
        let ghost items = self.entries@;
        let ghost keys = owned_keys(self.entries@);
        let found: Option<usize> = self.position(key.as_str());
        let mut entries: Vec<(String, Bolt)> = Vec::new();
        assert(owned_keys(entries@) =~= Seq::<Seq<char>>::empty());
        core::mem::swap(&mut self.entries, &mut entries);
        assert(owned_entries(entries@) =~= before);
        match found {
            Some(i) => {
                assert(keys[i as int] == before[i as int].0);
                let old_entry = entries.remove(i);
                entries.insert(i, (key, value));
                proof {
                    assert(entries@.len() == keys.len());
                    assert forall|a: int| 0 <= a < entries@.len() implies owned_keys(entries@)[a]
                        == keys[a] by {
                        if a == i {
                            assert(entries@[a].0@ == key@);
                        }
                    }
                    assert(owned_keys(entries@) =~= keys);
                }
                assert(entries@ =~= items.update(i as int, (key, value)));
                self.entries = entries;
                assert(self@ =~= before.update(i as int, (key@, value@)));
                assert(before[i as int] == (key@, old_entry.1@));
                Some(old_entry.1)
            },
            None => {
                entries.push((key, value));
                proof {
                    assert(keys =~= keys_of(before));
                    assert forall|a: int, b: int|
                        0 <= a < entries@.len() && 0 <= b < entries@.len() && a
                            != b implies owned_keys(entries@)[a] != owned_keys(entries@)[b] by {
                        let n = keys.len() as int;
                        if a < n && b < n {
                            assert(owned_keys(entries@)[a] == keys[a]);
                            assert(owned_keys(entries@)[b] == keys[b]);
                        } else if a < n {
                            assert(owned_keys(entries@)[a] == keys_of(before)[a]);
                            assert(owned_keys(entries@)[b] == key@);
                        } else {
                            assert(owned_keys(entries@)[b] == keys_of(before)[b]);
                            assert(owned_keys(entries@)[a] == key@);
                        }
                    }
                }
                self.entries = entries;
                assert(self@ =~= before.push((key@, value@)));
                None
            },
        }
    }

    /// The value under `key`, if the dictionary holds one.
    pub fn get(&self, key: &str) -> (r: Option<&Bolt>)
        ensures
            match r {
                Some(v) => lookup(self@, key@) == Some(v@),
                None => lookup(self@, key@) is None,
            },
    {
        match self.position(key) {
            Some(i) => Some(&self.entries[i].1),
            None => None,
        }
    }
}

/// What kind of value an owned value stands for follows its variant.
pub proof fn lemma_owned_kind(v: &Bolt)
    ensures
        v@ is Null <==> v is Null,
        v@ is Boolean <==> v is Boolean,
        v@ is Integer <==> v is Integer,
        v@ is Float <==> v is Float,
        v@ is Bytes <==> v is Bytes,
        v@ is String <==> v is String,
        v@ is List <==> v is List,
        v@ is Dictionary <==> v is Dictionary,
        !(v@ is Deferred),
        v matches Bolt::Boolean(b) ==> v@ == Value::Boolean(*b),
        v matches Bolt::Integer(i) ==> v@ == Value::Integer(*i),
        v matches Bolt::String(s) ==> v@ == Value::String(s@),
        v matches Bolt::List(items) ==> v@ == Value::List(owned_values(items@)),
        v matches Bolt::Dictionary(map) ==> v@ == Value::Dictionary(map@),
{
    match v {
        Bolt::List(items) => {
            assert(v@->List_0 =~= owned_values(items@));
        },
        _ => {},
    }
}

} // verus!
