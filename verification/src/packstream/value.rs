//! The mathematical model of a PackStream value, and the table of the
//! structures that the graph database sends.

use vstd::prelude::*;

verus! {

pub const TAG_NODE: u8 = 0x4E;

pub const TAG_RELATIONSHIP: u8 = 0x52;

pub const TAG_UNBOUND_RELATIONSHIP: u8 = 0x72;

pub const TAG_PATH: u8 = 0x50;

pub const TAG_DATE: u8 = 0x44;

pub const TAG_TIME: u8 = 0x54;

pub const TAG_LOCAL_TIME: u8 = 0x74;

pub const TAG_DATE_TIME: u8 = 0x49;

pub const TAG_DATE_TIME_ZONE_ID: u8 = 0x69;

pub const TAG_LOCAL_DATE_TIME: u8 = 0x64;

pub const TAG_LEGACY_DATE_TIME: u8 = 0x46;

pub const TAG_LEGACY_DATE_TIME_ZONE_ID: u8 = 0x66;

pub const TAG_DURATION: u8 = 0x45;

pub const TAG_POINT_2D: u8 = 0x58;

pub const TAG_POINT_3D: u8 = 0x59;

/// A value as the codec sees it: what a byte sequence stands for.
///
/// Borrowed and owned values of the library have the same model, so two
/// values are equal as values exactly when their models are equal.
pub ghost enum Value {
    Null,
    Boolean(bool),
    Integer(i64),
    /// A double, given by its bit pattern.
    Float(u64),
    Bytes(Seq<u8>),
    String(Seq<char>),
    List(Seq<Value>),
    /// The entries in the order in which they are written.
    Dictionary(Seq<(Seq<char>, Value)>),
    Structure { tag: u8, fields: Seq<Value> },
    /// The properties of a node or relationship: the bytes of an encoded
    /// dictionary, kept as they came and decoded on demand.
    Deferred(Seq<u8>),
}

/// What a field of a structure must hold.
pub ghost enum FieldKind {
    Int,
    Int32,
    UInt32,
    Float,
    Text,
    TextList,
    Deferred,
    Nodes,
    Relationships,
    Indices,
}

/// Whether `tag` names one of the structures of the value model.
pub open spec fn known_tag(tag: u8) -> bool {
    tag == TAG_NODE || tag == TAG_RELATIONSHIP || tag == TAG_UNBOUND_RELATIONSHIP || tag
        == TAG_PATH || tag == TAG_DATE || tag == TAG_TIME || tag == TAG_LOCAL_TIME || tag
        == TAG_DATE_TIME || tag == TAG_DATE_TIME_ZONE_ID || tag == TAG_LOCAL_DATE_TIME || tag
        == TAG_LEGACY_DATE_TIME || tag == TAG_LEGACY_DATE_TIME_ZONE_ID || tag == TAG_DURATION
        || tag == TAG_POINT_2D || tag == TAG_POINT_3D
}

/// Whether a structure with this tag may have `n` fields. Nodes and
/// relationships have a short form without element ids and a long one with.
pub open spec fn count_ok(tag: u8, n: nat) -> bool {
    if tag == TAG_NODE || tag == TAG_UNBOUND_RELATIONSHIP {
        n == 3 || n == 4
    } else if tag == TAG_RELATIONSHIP {
        n == 5 || n == 8
    } else if tag == TAG_DATE || tag == TAG_LOCAL_TIME {
        n == 1
    } else if tag == TAG_TIME || tag == TAG_LOCAL_DATE_TIME {
        n == 2
    } else if tag == TAG_DURATION || tag == TAG_POINT_3D {
        n == 4
    } else {
        n == 3
    }
}

/// What field `i` of a structure with this tag must hold.
pub open spec fn field_kind(tag: u8, i: int) -> FieldKind {
    if tag == TAG_NODE {
        if i == 0 {
            FieldKind::Int
        } else if i == 1 {
            FieldKind::TextList
        } else if i == 2 {
            FieldKind::Deferred
        } else {
            FieldKind::Text
        }
    } else if tag == TAG_RELATIONSHIP {
        if i < 3 {
            FieldKind::Int
        } else if i == 4 {
            FieldKind::Deferred
        } else {
            FieldKind::Text
        }
    } else if tag == TAG_UNBOUND_RELATIONSHIP {
        if i == 0 {
            FieldKind::Int
        } else if i == 2 {
            FieldKind::Deferred
        } else {
            FieldKind::Text
        }
    } else if tag == TAG_PATH {
        if i == 0 {
            FieldKind::Nodes
        } else if i == 1 {
            FieldKind::Relationships
        } else {
            FieldKind::Indices
        }
    } else if tag == TAG_DATE || tag == TAG_LOCAL_TIME {
        FieldKind::Int
    } else if tag == TAG_TIME {
        if i == 0 {
            FieldKind::Int
        } else {
            FieldKind::Int32
        }
    } else if tag == TAG_DATE_TIME || tag == TAG_LEGACY_DATE_TIME {
        if i == 0 {
            FieldKind::Int
        } else if i == 1 {
            FieldKind::UInt32
        } else {
            FieldKind::Int32
        }
    } else if tag == TAG_DATE_TIME_ZONE_ID || tag == TAG_LEGACY_DATE_TIME_ZONE_ID {
        if i == 0 {
            FieldKind::Int
        } else if i == 1 {
            FieldKind::UInt32
        } else {
            FieldKind::Text
        }
    } else if tag == TAG_LOCAL_DATE_TIME {
        if i == 0 {
            FieldKind::Int
        } else {
            FieldKind::UInt32
        }
    } else if tag == TAG_DURATION {
        if i < 3 {
            FieldKind::Int
        } else {
            FieldKind::Int32
        }
    } else {
        if i == 0 {
            FieldKind::Int32
        } else {
            FieldKind::Float
        }
    }
}

/// Whether every item of `items` is a string.
pub open spec fn all_text(items: Seq<Value>) -> bool {
    forall|i: int| 0 <= i < items.len() ==> #[trigger] items[i] is String
}

/// Whether every item of `items` is an integer.
pub open spec fn all_int(items: Seq<Value>) -> bool {
    forall|i: int| 0 <= i < items.len() ==> #[trigger] items[i] is Integer
}

/// Whether every item of `items` is a structure with the tag `tag`.
pub open spec fn all_tagged(items: Seq<Value>, tag: u8) -> bool {
    forall|i: int|
        0 <= i < items.len() ==> (#[trigger] items[i] matches Value::Structure { tag: t, .. }
            && t == tag)
}

/// Whether a decoded value fits a field of the given kind. A deferred field
/// is not decoded, so no decoded value fits it.
pub open spec fn field_ok(kind: FieldKind, v: Value) -> bool {
    match kind {
        FieldKind::Int => v is Integer,
        FieldKind::Int32 => v matches Value::Integer(i) && i32::MIN <= i <= i32::MAX,
        FieldKind::UInt32 => v matches Value::Integer(i) && 0 <= i <= u32::MAX,
        FieldKind::Float => v is Float,
        FieldKind::Text => v is String,
        FieldKind::TextList => v matches Value::List(items) && all_text(items),
        FieldKind::Deferred => false,
        FieldKind::Nodes => v matches Value::List(items) && all_tagged(items, TAG_NODE),
        FieldKind::Relationships => v matches Value::List(items) && all_tagged(
            items,
            TAG_UNBOUND_RELATIONSHIP,
        ),
        FieldKind::Indices => v matches Value::List(items) && all_int(items),
    }
}

/// Whether the pairs of `indices` describe a walk over `nodes` nodes and
/// `rels` relationships: each pair is a relationship, counted from 1 and
/// negative where it is walked backwards, and the node it leads to.
pub open spec fn walk_ok(nodes: nat, rels: nat, indices: Seq<i64>) -> bool {
    &&& nodes >= 1
    &&& indices.len() % 2 == 0
    &&& forall|j: int|
        0 <= j < indices.len() ==> if j % 2 == 0 {
            (#[trigger] indices[j]) != 0 && -(rels as int) <= indices[j] <= rels
        } else {
            0 <= indices[j] < nodes
        }
}

/// The integers of a list of integer values.
pub open spec fn ints_of(items: Seq<Value>) -> Seq<i64> {
    Seq::new(items.len(), |i: int| items[i]->Integer_0)
}

/// Whether the three fields of a path belong together.
pub open spec fn path_ok(fields: Seq<Value>) -> bool {
    &&& fields.len() == 3
    &&& fields[0] is List
    &&& fields[1] is List
    &&& fields[2] is List
    &&& walk_ok(
        fields[0]->List_0.len(),
        fields[1]->List_0.len(),
        ints_of(fields[2]->List_0),
    )
}

/// The keys of the entries of a dictionary, in order.
pub open spec fn keys_of(entries: Seq<(Seq<char>, Value)>) -> Seq<Seq<char>> {
    Seq::new(entries.len(), |i: int| entries[i].0)
}

/// The value that `entries` holds under `key`, if any. With unique keys there
/// is at most one; otherwise this is the first.
pub open spec fn lookup(entries: Seq<(Seq<char>, Value)>, key: Seq<char>) -> Option<Value>
    decreases entries.len(),
{
    if entries.len() == 0 {
        None
    } else if entries[0].0 == key {
        Some(entries[0].1)
    } else {
        lookup(entries.drop_first(), key)
    }
}

} // verus!
