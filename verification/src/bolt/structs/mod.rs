//! The values of the graph database: primitives, containers and structures.

pub mod convert;
pub mod date;
pub mod datetime;
pub mod de;
pub mod duration;
pub mod node;
pub mod owned;
pub mod path;
pub mod point;
pub mod rel;
pub mod time;
pub mod urel;

pub use self::date::Date;
pub use self::datetime::{
    DateTime, DateTimeZoneIdRef, LegacyDateTime, LegacyDateTimeZoneIdRef, LocalDateTime,
};
pub use self::duration::Duration;
pub use self::node::NodeRef;
pub use self::owned::{
    Bolt, BoltMap, DateTimeZoneId, LegacyDateTimeZoneId, Node, OwnedRelationship,
    OwnedUnboundRelationship, Path,
};
pub use self::path::{NodesIter, PathRef, Segment, SegmentsIter};
pub use self::point::{Point2D, Point3D};
pub use self::rel::Relationship;
pub use self::time::{LocalTime, Time};
pub use self::urel::UnboundRelationship;

use crate::packstream::text::str_eq;
use crate::packstream::value::{keys_of, lookup, Value};
use vstd::prelude::*;

verus! {

/// A value whose strings and byte strings are views into the message that it
/// was decoded from, or into other memory that outlives it.
#[derive(Debug, PartialEq)]
#[non_exhaustive]
pub enum BoltRef<'de> {
    Null,
    Boolean(bool),
    Integer(i64),
    /// A double, held as its bit pattern so that every value, NaN and the
    /// infinities included, is kept bit for bit.
    Float(u64),
    Bytes(&'de [u8]),
    String(&'de str),
    List(Vec<BoltRef<'de>>),
    Dictionary(MapRef<'de>),
    Node(NodeRef<'de>),
    Relationship(Relationship<'de>),
    UnboundRelationship(UnboundRelationship<'de>),
    Path(PathRef<'de>),
    Date(Date),
    Time(Time),
    LocalTime(LocalTime),
    DateTime(DateTime),
    DateTimeZoneId(DateTimeZoneIdRef<'de>),
    LocalDateTime(LocalDateTime),
    Duration(Duration),
    Point2D(Point2D),
    Point3D(Point3D),
    LegacyDateTime(LegacyDateTime),
    LegacyDateTimeZoneId(LegacyDateTimeZoneIdRef<'de>),
}

/// A dictionary with borrowed keys: entries with unique keys, in the order in
/// which they were inserted.
#[derive(Debug, PartialEq)]
pub struct MapRef<'de> {
    pub(crate) entries: Vec<(&'de str, BoltRef<'de>)>,
}

/// The values of a list of borrowed values.
pub open spec fn values_of(items: Seq<BoltRef>) -> Seq<Value> {
    Seq::new(items.len(), |i: int| items[i]@)
}

/// The keys of a list of entries.
pub open spec fn entry_keys(entries: Seq<(&str, BoltRef)>) -> Seq<Seq<char>> {
    Seq::new(entries.len(), |i: int| entries[i].0@)
}

impl<'de> BoltRef<'de> {
    /// What this value stands for.
    pub open(crate) spec fn view(&self) -> Value
        decreases self,
    {
        match self {
            BoltRef::Null => Value::Null,
            BoltRef::Boolean(b) => Value::Boolean(*b),
            BoltRef::Integer(i) => Value::Integer(*i),
            BoltRef::Float(bits) => Value::Float(*bits),
            BoltRef::Bytes(b) => Value::Bytes(b@),
            BoltRef::String(s) => Value::String(s@),
            BoltRef::List(items) => Value::List(
                Seq::new(
                    items@.len(),
                    |i: int|
                        if 0 <= i < items@.len() {
                            items@[i].view()
                        } else {
                            Value::Null
                        },
                ),
            ),
            BoltRef::Dictionary(map) => Value::Dictionary(map.view()),
            BoltRef::Node(n) => n@,
            BoltRef::Relationship(r) => r@,
            BoltRef::UnboundRelationship(r) => r@,
            BoltRef::Path(p) => p@,
            BoltRef::Date(d) => d@,
            BoltRef::Time(t) => t@,
            BoltRef::LocalTime(t) => t@,
            BoltRef::DateTime(d) => d@,
            BoltRef::DateTimeZoneId(d) => d@,
            BoltRef::LocalDateTime(d) => d@,
            BoltRef::Duration(d) => d@,
            BoltRef::Point2D(p) => p@,
            BoltRef::Point3D(p) => p@,
            BoltRef::LegacyDateTime(d) => d@,
            BoltRef::LegacyDateTimeZoneId(d) => d@,
        }
    }
}

impl<'de> MapRef<'de> {
    /// No key occurs twice.
    #[verifier::type_invariant]
    pub(crate) open spec fn inv(self) -> bool {
        entry_keys(self.entries@).no_duplicates()
    }

    /// The entries, in order.
    pub open(crate) spec fn view(&self) -> Seq<(Seq<char>, Value)>
        decreases self,
    {
        Seq::new(
            self.entries@.len(),
            |i: int|
                if 0 <= i < self.entries@.len() {
                    (self.entries@[i].0@, self.entries@[i].1.view())
                } else {
                    (Seq::empty(), Value::Null)
                },
        )
    }

    /// The empty dictionary.
    pub fn new() -> (r: Self)
        ensures
            r@ == Seq::<(Seq<char>, Value)>::empty(),
    {
        let r = MapRef { entries: Vec::new() };
        assert(r@ =~= Seq::<(Seq<char>, Value)>::empty());
        r
    }

    /// The number of entries.
    pub fn len(&self) -> (r: usize)
        ensures
            r == self@.len(),
    {
        self.entries.len()
    }

    /// Whether the dictionary has no entries.
    pub fn is_empty(&self) -> (r: bool)
        ensures
            r == (self@.len() == 0),
    {
        self.entries.len() == 0
    }
}

} // verus!

verus! {

/// The entries of a list of pairs of a borrowed key and a value.
pub open spec fn entries_view(entries: Seq<(&str, BoltRef)>) -> Seq<(Seq<char>, Value)> {
    Seq::new(entries.len(), |i: int| (entries[i].0@, entries[i].1@))
}

impl<'de> MapRef<'de> {
    /// The dictionary of the given entries, whose keys must be unique.
    pub(crate) fn from_entries(entries: Vec<(&'de str, BoltRef<'de>)>) -> (r: Self)
        requires
            entry_keys(entries@).no_duplicates(),
        ensures
            r@ == entries_view(entries@),
            r.entries == entries,
    {
        let r = MapRef { entries };
        assert(r@ =~= entries_view(entries@));
        r
    }
}

/// What kind of value a value of the library stands for follows its variant.
pub proof fn lemma_view_kind(v: &BoltRef)
    ensures
        v@ is Null <==> v is Null,
        v@ is Boolean <==> v is Boolean,
        v@ is Integer <==> v is Integer,
        v@ is Float <==> v is Float,
        v@ is Bytes <==> v is Bytes,
        v@ is String <==> v is String,
        v@ is List <==> v is List,
        v@ is Dictionary <==> v is Dictionary,
        !(v@ is Deferred),
        v matches BoltRef::Integer(i) ==> v@ == Value::Integer(*i),
        v matches BoltRef::Float(f) ==> v@ == Value::Float(*f),
        v matches BoltRef::String(s) ==> v@ == Value::String(s@),
        v matches BoltRef::List(items) ==> v@ == Value::List(values_of(items@)),
        v matches BoltRef::Dictionary(map) ==> v@ == Value::Dictionary(map@),
        v matches BoltRef::Node(n) ==> v@ == n@,
        v matches BoltRef::UnboundRelationship(r) ==> v@ == r@,
        (v@ matches Value::Structure { tag, .. } && tag == crate::packstream::value::TAG_NODE)
            <==> v is Node,
        (v@ matches Value::Structure { tag, .. } && tag
            == crate::packstream::value::TAG_UNBOUND_RELATIONSHIP) <==> v is UnboundRelationship,
{
    match v {
        BoltRef::List(items) => {
            assert(v@->List_0 =~= values_of(items@));
        },
        _ => {},
    }
}

} // verus!

verus! {

/// Looking a key up entry by entry.
pub proof fn lemma_lookup_step(entries: Seq<(Seq<char>, Value)>, key: Seq<char>, i: int)
    requires
        0 <= i <= entries.len(),
        forall|j: int| 0 <= j < i ==> (#[trigger] entries[j]).0 != key,
    ensures
        lookup(entries, key) == lookup(entries.skip(i), key),
    decreases i,
{
    if i > 0 {
        lemma_lookup_step(entries, key, i - 1);
        let rest = entries.skip(i - 1);
        assert(rest[0] == entries[i - 1]);
        assert(rest.drop_first() =~= entries.skip(i));
    } else {
        assert(entries.skip(0) =~= entries);
    }
}

/// A key that no entry has is not found; a key is found at its first entry.
pub proof fn lemma_lookup(entries: Seq<(Seq<char>, Value)>, key: Seq<char>)
    ensures
        lookup(entries, key) is None <==> !keys_of(entries).contains(key),
        forall|i: int|
            0 <= i < entries.len() && (#[trigger] entries[i]).0 == key && (forall|j: int|
                0 <= j < i ==> (#[trigger] entries[j]).0 != key) ==> lookup(entries, key) == Some(
                entries[i].1,
            ),
    decreases entries.len(),
{
    if entries.len() > 0 {
        let rest = entries.drop_first();
        lemma_lookup(rest, key);
        if entries[0].0 == key {
            assert(keys_of(entries)[0] == key);
        } else {
            if keys_of(entries).contains(key) {
                let j = choose|j: int| 0 <= j < entries.len() && keys_of(entries)[j] == key;
                assert(keys_of(rest)[j - 1] == key);
            }
            if keys_of(rest).contains(key) {
                let j = choose|j: int| 0 <= j < rest.len() && keys_of(rest)[j] == key;
                assert(keys_of(entries)[j + 1] == key);
            }
            assert forall|i: int|
                0 <= i < entries.len() && (#[trigger] entries[i]).0 == key && (forall|j: int|
                    0 <= j < i ==> (#[trigger] entries[j]).0 != key) implies lookup(entries, key)
                == Some(entries[i].1) by {
                assert(rest[i - 1] == entries[i]);
                assert forall|j: int| 0 <= j < i - 1 implies (#[trigger] rest[j]).0 != key by {
                    assert(rest[j] == entries[j + 1]);
                }
            }
        }
    }
}

impl<'de> MapRef<'de> {
    /// The index of the entry with the key `key`, if there is one.
    fn position(&self, key: &str) -> (r: Option<usize>)
        ensures
            match r {
                Some(i) => i < self@.len() && self@[i as int].0 == key@ && lookup(self@, key@)
                    == Some(self@[i as int].1) && index_of_key(self@, key@) == Some(i as int),
                None => lookup(self@, key@) is None && !keys_of(self@).contains(key@)
                    && index_of_key(self@, key@) is None,
            },
    {
        let ghost entries = self@;
        let mut i: usize = 0;
        while i < self.entries.len()
            invariant
                i <= self.entries@.len(),
                entries == self@,
                entries.len() == self.entries@.len(),
                forall|j: int| 0 <= j < i ==> (#[trigger] entries[j]).0 != key@,
            decreases self.entries@.len() - i,
        {
            if str_eq(self.entries[i].0, key) {
                proof {
                    assert(entries[i as int].0 == key@);
                    lemma_found(entries, key@, i as int);
                }
                return Some(i);
            }
            assert(entries[i as int].0 != key@);
            i += 1;
        }
        proof {
            lemma_not_found(entries, key@);
        }
        None
    }

    /// The value under `key`, if the dictionary holds one.
    pub fn get(&self, key: &str) -> (r: Option<&BoltRef<'de>>)
        ensures
            match r {
                Some(v) => lookup(self@, key@) == Some(v@),
                None => lookup(self@, key@) is None,
            },
            r matches Some(v) ==> (self.whole() ==> ids_whole(*v)),
    {
        match self.position(key) {
            Some(i) => Some(&self.entries[i].1),
            None => None,
        }
    }

    /// Whether the dictionary holds a value under `key`.
    pub fn contains_key(&self, key: &str) -> (r: bool)
        ensures
            r == keys_of(self@).contains(key@),
    {
        match self.position(key) {
            Some(i) => {
                assert(keys_of(self@)[i as int] == key@);
                true
            },
            None => false,
        }
    }

    /// Puts `value` under `key`. Where the dictionary holds a value under
    /// that key, the entry keeps its place and the old value is returned;
    /// otherwise the entry is added at the end.
    pub fn insert(&mut self, key: &'de str, value: BoltRef<'de>) -> (r: Option<BoltRef<'de>>)
        ensures
            final(self)@ == put(old(self)@, key@, value@),
            match r {
                Some(old_value) => lookup(old(self)@, key@) == Some(old_value@),
                None => lookup(old(self)@, key@) is None,
            },
            match index_of_key(old(self)@, key@) {
                Some(i) => final(self).items() == old(self).items().update(i, (key, value)) && r
                    == Some(old(self).items()[i].1),
                None => final(self).items() == old(self).items().push((key, value)) && r is None,
            },
    {
        proof {
            use_type_invariant(&*self);
        }
        let ghost before = self@;
        let ghost items = self.entries@;
        let ghost keys = entry_keys(self.entries@);
        let found: Option<usize> = self.position(key);
        let mut entries: Vec<(&'de str, BoltRef<'de>)> = Vec::new();
        assert(entry_keys(entries@) =~= Seq::<Seq<char>>::empty());
        core::mem::swap(&mut self.entries, &mut entries);
        assert(entries_view(entries@) =~= before);
        match found {
            Some(i) => {
                let old_entry = entries.remove(i);
                entries.insert(i, (key, value));
                proof {
                    assert forall|a: int, b: int|
                        0 <= a < entries@.len() && 0 <= b < entries@.len() && a
                            != b implies entry_keys(entries@)[a] != entry_keys(entries@)[b] by {
                        assert(entry_keys(entries@)[a] == keys[a]);
                        assert(entry_keys(entries@)[b] == keys[b]);
                    }
                }
                assert(entries@ =~= items.update(i as int, (key, value)));
                self.entries = entries;
                assert(self@ =~= before.update(i as int, (key@, value@)));
                assert(before[i as int] == (key@, old_entry.1@));
                Some(old_entry.1)
            },
            None => {
                entries.push((key, value));
                proof {
                    assert(keys =~= keys_of(before));
                    assert forall|a: int, b: int|
                        0 <= a < entries@.len() && 0 <= b < entries@.len() && a
                            != b implies entry_keys(entries@)[a] != entry_keys(entries@)[b] by {
                        if a < keys.len() {
                            assert(entry_keys(entries@)[a] == keys[a]);
                        }
                        if b < keys.len() {
                            assert(entry_keys(entries@)[b] == keys[b]);
                        }
                    }
                }
                self.entries = entries;
                assert(self@ =~= before.push((key@, value@)));
                None
            },
        }
    }

    /// The keys, in the order of the entries.
    pub fn keys(&self) -> (r: Vec<&'de str>)
        ensures
            r@.len() == self@.len(),
            forall|i: int| 0 <= i < r@.len() ==> (#[trigger] r@[i])@ == self@[i].0,
    {
        let mut out: Vec<&'de str> = Vec::new();
        let mut i: usize = 0;
        while i < self.entries.len()
            invariant
                i <= self.entries@.len(),
                out@.len() == i,
                forall|j: int| 0 <= j < i ==> (#[trigger] out@[j])@ == self@[j].0,
            decreases self.entries@.len() - i,
        {
            out.push(self.entries[i].0);
            i += 1;
        }
        out
    }

    /// The entries, in order, by value.
    pub fn into_entries(self) -> (r: Vec<(&'de str, BoltRef<'de>)>)
        ensures
            entries_view(r@) == self@,
    {
        let entries = self.entries;
        assert(entries_view(entries@) =~= self@);
        entries
    }

    /// The value under `key`, if the dictionary holds one, by value.
    pub fn take(self, key: &str) -> (r: Option<BoltRef<'de>>)
        ensures
            match r {
                Some(v) => lookup(self@, key@) == Some(v@),
                None => lookup(self@, key@) is None,
            },
            r matches Some(v) ==> (self.whole() ==> ids_whole(v)),
    {
        match self.position(key) {
            Some(i) => {
                let mut entries = self.entries;
                let entry = entries.remove(i);
                Some(entry.1)
            },
            None => None,
        }
    }
}

} // verus!

verus! {

/// Whether every relationship in the value has its element ids whole: all
/// three of them, or none. The value that a relationship stands for has
/// element ids only where all three are there, so of a whole relationship
/// it says all there is to say.
pub open(crate) spec fn ids_whole(v: BoltRef) -> bool
    decreases v,
{
    match v {
        BoltRef::Relationship(r) => r.whole(),
        BoltRef::List(items) => forall|i: int|
            0 <= i < items@.len() ==> ids_whole(#[trigger] items@[i]),
        BoltRef::Dictionary(map) => forall|i: int|
            0 <= i < map.entries@.len() ==> ids_whole((#[trigger] map.entries@[i]).1),
        _ => true,
    }
}

/// Whether every relationship in the values has its element ids whole.
pub open(crate) spec fn all_whole(items: Seq<BoltRef>) -> bool {
    forall|i: int| 0 <= i < items.len() ==> ids_whole(#[trigger] items[i])
}

impl<'de> MapRef<'de> {
    /// The entries themselves, in order.
    pub open(crate) spec fn items(&self) -> Seq<(&'de str, BoltRef<'de>)> {
        self.entries@
    }

    /// Whether every relationship in the values of this dictionary has its
    /// element ids whole.
    pub open(crate) spec fn whole(&self) -> bool {
        forall|i: int| 0 <= i < self.entries@.len() ==> ids_whole((#[trigger] self.entries@[i]).1)
    }
}

/// Whether the second value has the element ids of the first, wherever the
/// two hold a relationship.
pub open(crate) spec fn ids_same(first: BoltRef, second: BoltRef) -> bool
    decreases first,
{
    match (first, second) {
        (BoltRef::Relationship(a), BoltRef::Relationship(b)) => a.element_ids()
            == b.element_ids(),
        (BoltRef::List(a), BoltRef::List(b)) => {
            &&& a@.len() == b@.len()
            &&& forall|i: int| 0 <= i < a@.len() ==> ids_same(#[trigger] a@[i], b@[i])
        },
        (BoltRef::Dictionary(a), BoltRef::Dictionary(b)) => {
            &&& a.entries@.len() == b.entries@.len()
            &&& forall|i: int|
                0 <= i < a.entries@.len() ==> ids_same(
                    (#[trigger] a.entries@[i]).1,
                    b.entries@[i].1,
                )
        },
        _ => true,
    }
}

/// Two values that stand for the same and have their element ids whole
/// have the same element ids. So a value with whole element ids that is
/// written and read back is the value that it was, element ids and all:
/// what is read has them whole, and stands for the same.
pub proof fn lemma_whole_same(a: BoltRef, b: BoltRef)
    requires
        a@ == b@,
        ids_whole(a),
        ids_whole(b),
    ensures
        ids_same(a, b),
    decreases a,
{
    lemma_view_kind(&a);
    lemma_view_kind(&b);
    match (a, b) {
        (BoltRef::Relationship(x), BoltRef::Relationship(y)) => {
            self::rel::lemma_whole_ids(x, y);
        },
        (BoltRef::List(x), BoltRef::List(y)) => {
            assert(a@->List_0.len() == x@.len());
            assert(b@->List_0.len() == y@.len());
            assert forall|i: int| 0 <= i < x@.len() implies ids_same(#[trigger] x@[i], y@[i]) by {
                assert(a@->List_0[i] == x@[i]@);
                assert(b@->List_0[i] == y@[i]@);
                lemma_whole_same(x@[i], y@[i]);
            }
        },
        (BoltRef::Dictionary(x), BoltRef::Dictionary(y)) => {
            assert(x@.len() == x.entries@.len());
            assert(y@.len() == y.entries@.len());
            assert forall|i: int| 0 <= i < x.entries@.len() implies ids_same(
                (#[trigger] x.entries@[i]).1,
                y.entries@[i].1,
            ) by {
                assert(x@[i].1 == x.entries@[i].1@);
                assert(y@[i].1 == y.entries@[i].1@);
                lemma_whole_same(x.entries@[i].1, y.entries@[i].1);
            }
        },
        _ => {},
    }
}

impl<'de> Clone for BoltRef<'de> {
    fn clone(&self) -> (r: Self)
        ensures
            r@ == self@,
            ids_same(*self, r),
            ids_whole(*self) ==> ids_whole(r),
    {
        self.duplicate()
    }
}

impl<'de> BoltRef<'de> {
    /// A copy of this value. Strings and byte strings are still views into
    /// the same memory. The copy has the element ids of every relationship
    /// in the value.
    pub fn duplicate(&self) -> (r: Self)
        ensures
            r@ == self@,
            ids_same(*self, r),
            ids_whole(*self) ==> ids_whole(r),
    {
        copy_of(self)
    }
}

/// A copy of `v`.
fn copy_of<'de>(v: &BoltRef<'de>) -> (r: BoltRef<'de>)
    ensures
        r@ == v@,
        ids_same(*v, r),
        ids_whole(*v) ==> ids_whole(r),
    decreases v,
{
    {
        match v {
            BoltRef::Null => BoltRef::Null,
            BoltRef::Boolean(b) => BoltRef::Boolean(*b),
            BoltRef::Integer(i) => BoltRef::Integer(*i),
            BoltRef::Float(bits) => BoltRef::Float(*bits),
            BoltRef::Bytes(b) => BoltRef::Bytes(b),
            BoltRef::String(s) => BoltRef::String(s),
            BoltRef::List(items) => {
                let mut out: Vec<BoltRef<'de>> = Vec::new();
                let mut i: usize = 0;
                while i < items.len()
                    invariant
                        i <= items@.len(),
                        out@.len() == i,
                        forall|j: int| 0 <= j < i ==> (#[trigger] out@[j])@ == items@[j]@,
                        forall|j: int| 0 <= j < i ==> ids_same(items@[j], #[trigger] out@[j]),
                        ids_whole(*v) ==> forall|j: int|
                            0 <= j < i ==> ids_whole(#[trigger] out@[j]),
                        *v == BoltRef::List(*items),
                    decreases items@.len() - i,
                {
                    assert(v->List_0 == *items);
                    out.push(copy_of(&items[i]));
                    i += 1;
                }
                let r = BoltRef::List(out);
                assert(r@->List_0 =~= v@->List_0);
                r
            },
            BoltRef::Dictionary(map) => {
                proof {
                    use_type_invariant(map);
                }
                let mut out: Vec<(&'de str, BoltRef<'de>)> = Vec::new();
                let mut i: usize = 0;
                while i < map.entries.len()
                    invariant
                        i <= map.entries@.len(),
                        out@.len() == i,
                        forall|j: int|
                            0 <= j < i ==> (#[trigger] out@[j]).0@ == map.entries@[j].0@
                                && out@[j].1@ == map.entries@[j].1@,
                        forall|j: int|
                            0 <= j < i ==> ids_same(map.entries@[j].1, (#[trigger] out@[j]).1),
                        ids_whole(*v) ==> forall|j: int|
                            0 <= j < i ==> ids_whole((#[trigger] out@[j]).1),
                        *v == BoltRef::Dictionary(*map),
                    decreases map.entries@.len() - i,
                {
                    assert(v->Dictionary_0 == *map);
                    out.push((map.entries[i].0, copy_of(&map.entries[i].1)));
                    i += 1;
                }
                assert(entry_keys(out@) =~= entry_keys(map.entries@));
                let copy = MapRef::from_entries(out);
                assert(copy@ =~= map@);
                BoltRef::Dictionary(copy)
            },
            BoltRef::Node(n) => BoltRef::Node(n.clone()),
            BoltRef::Relationship(r) => BoltRef::Relationship(r.clone()),
            BoltRef::UnboundRelationship(r) => BoltRef::UnboundRelationship(r.clone()),
            BoltRef::Path(p) => BoltRef::Path(p.clone()),
            BoltRef::Date(d) => BoltRef::Date(*d),
            BoltRef::Time(t) => BoltRef::Time(*t),
            BoltRef::LocalTime(t) => BoltRef::LocalTime(*t),
            BoltRef::DateTime(d) => BoltRef::DateTime(*d),
            BoltRef::DateTimeZoneId(d) => BoltRef::DateTimeZoneId(*d),
            BoltRef::LocalDateTime(d) => BoltRef::LocalDateTime(*d),
            BoltRef::Duration(d) => BoltRef::Duration(*d),
            BoltRef::Point2D(p) => BoltRef::Point2D(*p),
            BoltRef::Point3D(p) => BoltRef::Point3D(*p),
            BoltRef::LegacyDateTime(d) => BoltRef::LegacyDateTime(*d),
            BoltRef::LegacyDateTimeZoneId(d) => BoltRef::LegacyDateTimeZoneId(*d),
        }
    }
}

impl<'de> Clone for MapRef<'de> {
    fn clone(&self) -> (r: Self)
        ensures
            r@ == self@,
    {
        proof {
            use_type_invariant(self);
        }
        let mut out: Vec<(&'de str, BoltRef<'de>)> = Vec::new();
        let mut i: usize = 0;
        while i < self.entries.len()
            invariant
                i <= self.entries@.len(),
                out@.len() == i,
                forall|j: int|
                    0 <= j < i ==> (#[trigger] out@[j]).0@ == self.entries@[j].0@ && out@[j].1@
                        == self.entries@[j].1@,
            decreases self.entries@.len() - i,
        {
            out.push((self.entries[i].0, self.entries[i].1.clone()));
            i += 1;
        }
        assert(entry_keys(out@) =~= entry_keys(self.entries@));
        let copy = MapRef::from_entries(out);
        assert(copy@ =~= self@);
        copy
    }
}

} // verus!

verus! {

/// The first index at which `entries` has the key `key`, if it has it.
pub open spec fn index_of_key(entries: Seq<(Seq<char>, Value)>, key: Seq<char>) -> Option<int>
    decreases entries.len(),
{
    if entries.len() == 0 {
        None
    } else {
        match index_of_key(entries.drop_last(), key) {
            Some(i) => Some(i),
            None => if entries.last().0 == key {
                Some(entries.len() - 1)
            } else {
                None
            },
        }
    }
}

/// `index_of_key` finds the first entry with the key.
pub proof fn lemma_index_of_key(entries: Seq<(Seq<char>, Value)>, key: Seq<char>)
    ensures
        match index_of_key(entries, key) {
            Some(i) => 0 <= i < entries.len() && entries[i].0 == key && forall|j: int|
                0 <= j < i ==> entries[j].0 != key,
            None => forall|j: int| 0 <= j < entries.len() ==> entries[j].0 != key,
        },
    decreases entries.len(),
{
    if entries.len() > 0 {
        lemma_index_of_key(entries.drop_last(), key);
        assert forall|j: int| 0 <= j < entries.len() - 1 implies entries.drop_last()[j]
            == entries[j] by {}
    }
}

/// The entries after `value` is put under `key`: the entry with that key
/// keeps its place and gets the value; without such an entry, one is added
/// at the end.
pub open spec fn put(entries: Seq<(Seq<char>, Value)>, key: Seq<char>, value: Value) -> Seq<
    (Seq<char>, Value),
> {
    match index_of_key(entries, key) {
        Some(i) => entries.update(i, (key, value)),
        None => entries.push((key, value)),
    }
}

/// The entries after each of the pairs was put, one after another.
pub open spec fn put_all(entries: Seq<(Seq<char>, Value)>, pairs: Seq<(Seq<char>, Value)>) -> Seq<
    (Seq<char>, Value),
>
    decreases pairs.len(),
{
    if pairs.len() == 0 {
        entries
    } else {
        put(put_all(entries, pairs.drop_last()), pairs.last().0, pairs.last().1)
    }
}

impl<'de> MapRef<'de> {
    /// The dictionary that holds the pairs, put one after another: of two
    /// pairs with the same key the later one stays.
    pub fn from_pairs(pairs: Vec<(&'de str, BoltRef<'de>)>) -> (r: Self)
        ensures
            r@ == put_all(Seq::empty(), entries_view(pairs@)),
    {
        let ghost all = entries_view(pairs@);
        let ghost pair_seq = pairs@;
        let mut map = MapRef::new();
        assert(all.take(0) =~= Seq::<(Seq<char>, Value)>::empty());
        for pair in it: pairs
            invariant
                it.seq() == pair_seq,
                all == entries_view(pair_seq),
                map@ == put_all(Seq::empty(), all.take(it.index() as int)),
        {
            let (key, value) = pair;
            proof {
                let k = it.index() as int;
                assert(all.take(k + 1).drop_last() =~= all.take(k));
                assert(all.take(k + 1).last() == (key@, value@));
            }
            map.insert(key, value);
        }
        assert(all.take(pair_seq.len() as int) =~= all);
        map
    }
}

/// A key that stands at `i` and nowhere before is found there.
pub proof fn lemma_found(entries: Seq<(Seq<char>, Value)>, key: Seq<char>, i: int)
    requires
        0 <= i < entries.len(),
        entries[i].0 == key,
        forall|j: int| 0 <= j < i ==> (#[trigger] entries[j]).0 != key,
    ensures
        lookup(entries, key) == Some(entries[i].1),
        index_of_key(entries, key) == Some(i),
        keys_of(entries).contains(key),
{
    lemma_lookup(entries, key);
    lemma_index_of_key(entries, key);
    assert(keys_of(entries)[i] == key);
}

/// A key that stands nowhere is not found.
pub proof fn lemma_not_found(entries: Seq<(Seq<char>, Value)>, key: Seq<char>)
    requires
        forall|j: int| 0 <= j < entries.len() ==> (#[trigger] entries[j]).0 != key,
    ensures
        lookup(entries, key) is None,
        index_of_key(entries, key) is None,
        !keys_of(entries).contains(key),
{
    lemma_lookup(entries, key);
    lemma_index_of_key(entries, key);
    if keys_of(entries).contains(key) {
        let j = choose|j: int| 0 <= j < entries.len() && keys_of(entries)[j] == key;
        assert(entries[j].0 == key);
    }
}

} // verus!
