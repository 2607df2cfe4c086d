use super::node::NodeRef;
use super::rel::Relationship;
use super::urel::UnboundRelationship;
use crate::errors::{Error, Violation};
use crate::packstream::value::{walk_ok, Value, TAG_PATH};
use vstd::prelude::*;
use vstd::slice::slice_subrange;

verus! {

/// The values of a list of nodes.
pub open spec fn node_values(nodes: Seq<NodeRef>) -> Seq<Value> {
    Seq::new(nodes.len(), |i: int| nodes[i]@)
}

/// The values of a list of relationships.
pub open spec fn relationship_values(rels: Seq<UnboundRelationship>) -> Seq<Value> {
    Seq::new(rels.len(), |i: int| rels[i]@)
}

/// The values of a list of integers.
pub open spec fn int_values(items: Seq<i64>) -> Seq<Value> {
    Seq::new(items.len(), |i: int| Value::Integer(items[i]))
}

/// The index, among the nodes of a path, of the node that the walk reaches
/// after `k` segments.
pub open spec fn node_index(indices: Seq<i64>, k: int) -> int {
    if k <= 0 {
        0
    } else {
        indices[2 * k - 1] as int
    }
}

/// The index, among the relationships of a path, of the one that segment
/// `k` walks.
pub open spec fn relationship_index(indices: Seq<i64>, k: int) -> int {
    if indices[2 * k] > 0 {
        indices[2 * k] - 1
    } else {
        -indices[2 * k] - 1
    }
}

/// Whether `r` is `rel` between the nodes `start` and `end`.
pub open spec fn binds(
    r: Relationship,
    rel: UnboundRelationship,
    start: NodeRef,
    end: NodeRef,
) -> bool {
    &&& r.id() == rel.id()
    &&& r.element_id() == rel.element_id()
    &&& r.typ() == rel.typ()
    &&& r.raw_properties() == rel.raw_properties()
    &&& r.start_node_id() == start.id()
    &&& r.start_node_element_id() == start.element_id()
    &&& r.end_node_id() == end.id()
    &&& r.end_node_element_id() == end.element_id()
}

/// A walk through the graph: nodes, the relationships between them, and the
/// order in which the walk visits them.
#[derive(Debug, PartialEq, Eq)]
pub struct PathRef<'de> {
    pub(crate) nodes: Vec<NodeRef<'de>>,
    pub(crate) rels: Vec<UnboundRelationship<'de>>,
    pub(crate) indices: Vec<i64>,
}

/// A segment combines a relationship in a path with a start and end node that
/// describe the traversal direction for that relationship.
/// For example, the path `(n1)-[r1]->(n2)<-[r2]-(n3)` contains two segments:
/// Segment 1: `(n1)-[r1]->(n2)`, Segment 2: `(n2)<-[r2]-(n3)`
#[derive(Clone, Debug, PartialEq)]
pub struct Segment<'path, 'de> {
    /// The node at the start of the segment.
    pub start: &'path NodeRef<'de>,
    /// The relationship connecting the two nodes. Its start node differs from
    /// `start` where the walk follows the relationship backwards.
    pub relationship: Relationship<'de>,
    /// The node at the end of the segment.
    pub end: &'path NodeRef<'de>,
}

impl<'de> PathRef<'de> {
    /// There is a node to start from, and every pair of indices names a
    /// relationship and a node of this path.
    #[verifier::type_invariant]
    pub(crate) open spec fn inv(self) -> bool {
        walk_ok(self.nodes@.len(), self.rels@.len(), self.indices@)
    }

    /// The structure that this path is written as.
    pub open(crate) spec fn view(&self) -> Value {
        Value::Structure {
            tag: TAG_PATH,
            fields: seq![
                Value::List(node_values(self.nodes@)),
                Value::List(relationship_values(self.rels@)),
                Value::List(int_values(self.indices@)),
            ],
        }
    }

    /// The nodes of this path, each once, in the order in which they were
    /// received.
    pub open(crate) spec fn spec_nodes(&self) -> Seq<NodeRef<'de>> {
        self.nodes@
    }

    /// The relationships of this path, each once, in the order in which they
    /// were received.
    pub open(crate) spec fn spec_rels(&self) -> Seq<UnboundRelationship<'de>> {
        self.rels@
    }

    /// The walk: pairs of a relationship, counted from 1 and negative where
    /// it is walked backwards, and the node that it leads to.
    pub open(crate) spec fn spec_indices(&self) -> Seq<i64> {
        self.indices@
    }

    /// The number of segments.
    pub open(crate) spec fn spec_len(&self) -> int {
        self.indices@.len() as int / 2
    }

    /// The node that the walk reaches after `k` segments.
    pub open(crate) spec fn node_at(&self, k: int) -> NodeRef<'de> {
        self.nodes@[node_index(self.indices@, k)]
    }

    /// The relationship that segment `k` walks.
    pub open(crate) spec fn relationship_at(&self, k: int) -> UnboundRelationship<'de> {
        self.rels@[relationship_index(self.indices@, k)]
    }

    /// Whether `r` is the relationship of segment `k`, bound to the nodes of
    /// that segment: it starts at the node reached after `k` segments where
    /// it is walked forwards, and at the node after that where it is walked
    /// backwards.
    pub open(crate) spec fn is_relationship(&self, k: int, r: Relationship<'de>) -> bool {
        if self.indices@[2 * k] > 0 {
            binds(r, self.relationship_at(k), self.node_at(k), self.node_at(k + 1))
        } else {
            binds(r, self.relationship_at(k), self.node_at(k + 1), self.node_at(k))
        }
    }

    /// Whether `s` is segment `k` of this path: it leads from the node
    /// reached after `k` segments to the next, along the relationship of
    /// that segment.
    pub open(crate) spec fn is_segment(&self, k: int, s: Segment<'_, 'de>) -> bool {
        &&& *s.start == self.node_at(k)
        &&& *s.end == self.node_at(k + 1)
        &&& self.is_relationship(k, s.relationship)
    }

    /// The path over the given nodes and relationships that the pairs of
    /// `indices` describe: each pair is a relationship, counted from 1 and
    /// negative where it is walked backwards, and the index of the node that
    /// it leads to. Fails with an invalid field where there is no node, or
    /// where the pairs do not describe a walk over these nodes and
    /// relationships.
    pub fn new(
        nodes: Vec<NodeRef<'de>>,
        rels: Vec<UnboundRelationship<'de>>,
        indices: Vec<i64>,
    ) -> (r: Result<Self, Error>)
        ensures
            if walk_ok(nodes@.len(), rels@.len(), indices@) {
                r matches Ok(path) && path.spec_nodes() == nodes@ && path.spec_rels() == rels@
                    && path.spec_indices() == indices@
            } else {
                r == Err::<Self, Error>(
                    Error::ProtocolViolation { detail: Violation::InvalidField },
                )
            },
    {
        if crate::packstream::de::check_walk(nodes.len(), rels.len(), &indices) {
            Ok(PathRef { nodes, rels, indices })
        } else {
            Err(Error::ProtocolViolation { detail: Violation::InvalidField })
        }
    }

    /// Returns the start node of this path.
    pub fn start(&self) -> (r: &NodeRef<'de>)
        ensures
            *r == self.node_at(0),
    {
        proof {
            use_type_invariant(self);
        }
        &self.nodes[0]
    }

    /// Returns the end node of this path.
    pub fn end(&self) -> (r: &NodeRef<'de>)
        ensures
            *r == self.node_at(self.spec_len()),
    {
        proof {
            use_type_invariant(self);
        }
        let n: usize = self.indices.len();
        let count: usize = self.nodes.len();
        if n == 0 {
            &self.nodes[0]
        } else {
            let last: i64 = self.indices[n - 1];
            assert((n - 1) % 2 == 1);
            assert(2 * (n as int / 2) == n);
            &self.nodes[last as usize]
        }
    }

    /// Returns the number of segments in this path, which will be the same as
    /// the number of relationships that the walk follows.
    pub fn len(&self) -> (r: usize)
        ensures
            r == self.spec_len(),
    {
        self.indices.len() / 2
    }

    /// Returns true if this path has no segments.
    pub fn is_empty(&self) -> (r: bool)
        ensures
            r == (self.spec_len() == 0),
    {
        proof {
            use_type_invariant(self);
        }
        self.indices.len() == 0
    }

    /// Returns the first node with the given id if this path contains one.
    pub fn get_node_by_id(&self, id: i64) -> (r: Option<&NodeRef<'de>>)
        ensures
            match r {
                Some(n) => exists|i: int|
                    {
                        &&& 0 <= i < self.spec_nodes().len()
                        &&& *n == #[trigger] self.spec_nodes()[i]
                        &&& n.id() == id
                        &&& forall|j: int| 0 <= j < i ==> (#[trigger] self.spec_nodes()[j]).id() != id
                    },
                None => forall|i: int|
                    0 <= i < self.spec_nodes().len() ==> (#[trigger] self.spec_nodes()[i]).id() != id,
            },
    {
        let mut i: usize = 0;
        while i < self.nodes.len()
            invariant
                i <= self.nodes@.len(),
                forall|j: int| 0 <= j < i ==> (#[trigger] self.spec_nodes()[j]).id() != id,
            decreases self.nodes@.len() - i,
        {
            if self.nodes[i].id == id {
                assert(self.spec_nodes()[i as int] == self.nodes@[i as int]);
                return Some(&self.nodes[i]);
            }
            i += 1;
        }
        None
    }

    /// Returns the first relationship with the given id among those that this
    /// path holds, without the nodes at its ends.
    pub fn get_unbounded_relationship_by_id(&self, id: i64) -> (r: Option<
        &UnboundRelationship<'de>,
    >)
        ensures
            match r {
                Some(u) => exists|i: int|
                    {
                        &&& 0 <= i < self.spec_rels().len()
                        &&& *u == #[trigger] self.spec_rels()[i]
                        &&& u.id() == id
                        &&& forall|j: int| 0 <= j < i ==> (#[trigger] self.spec_rels()[j]).id() != id
                    },
                None => forall|i: int|
                    0 <= i < self.spec_rels().len() ==> (#[trigger] self.spec_rels()[i]).id() != id,
            },
    {
        let mut i: usize = 0;
        while i < self.rels.len()
            invariant
                i <= self.rels@.len(),
                forall|j: int| 0 <= j < i ==> (#[trigger] self.spec_rels()[j]).id() != id,
            decreases self.rels@.len() - i,
        {
            if self.rels[i].id == id {
                assert(self.spec_rels()[i as int] == self.rels@[i as int]);
                return Some(&self.rels[i]);
            }
            i += 1;
        }
        None
    }

    /// Returns the relationship of the first segment whose relationship has
    /// the given id, bound to the nodes of that segment.
    pub fn get_relationship_by_id(&self, id: i64) -> (r: Option<Relationship<'de>>)
        ensures
            match r {
                Some(rel) => exists|k: int|
                    {
                        &&& 0 <= k < self.spec_len()
                        &&& #[trigger] self.is_relationship(k, rel)
                        &&& rel.id() == id
                        &&& forall|j: int|
                            0 <= j < k ==> (#[trigger] self.relationship_at(j)).id() != id
                    },
                None => forall|j: int|
                    0 <= j < self.spec_len() ==> (#[trigger] self.relationship_at(j)).id() != id,
            },
    {
        let mut it = SegmentsIter::new(self);
        let n: usize = self.len();
        let mut k: usize = 0;
        while k < n
            invariant
                n == self.spec_len(),
                k <= n,
                it.path == self,
                it.next == k,
                forall|j: int|
                    0 <= j < k ==> (#[trigger] self.relationship_at(j)).id() != id,
            decreases n - k,
        {
            match it.next() {
                Some(s) => {
                    if s.relationship.id == id {
                        return Some(s.relationship);
                    }
                },
                None => {},
            }
            k += 1;
        }
        None
    }

    /// Returns the nodes in this path, in the order in which the walk visits
    /// them. A node that the walk visits twice appears twice.
    pub fn nodes(&self) -> (r: Vec<&NodeRef<'de>>)
        ensures
            r@.len() == self.spec_len() + 1,
            forall|k: int| 0 <= k <= self.spec_len() ==> *(#[trigger] r@[k]) == self.node_at(k),
    {
        let mut it = NodesIter::new(self);
        let mut out: Vec<&NodeRef<'de>> = Vec::new();
        let n: usize = self.len() + 1;
        let mut k: usize = 0;
        while k < n
            invariant
                n == self.spec_len() + 1,
                k <= n,
                it.path == self,
                it.front == k,
                it.back == n,
                out@.len() == k,
                forall|j: int| 0 <= j < k ==> *(#[trigger] out@[j]) == self.node_at(j),
            decreases n - k,
        {
            match it.next() {
                Some(node) => {
                    out.push(node);
                },
                None => {},
            }
            k += 1;
        }
        out
    }

    /// Returns the relationships in this path, in the order in which the walk
    /// follows them, each bound to the nodes of its segment.
    pub fn relationships(&self) -> (r: Vec<Relationship<'de>>)
        ensures
            r@.len() == self.spec_len(),
            forall|k: int| 0 <= k < self.spec_len() ==> self.is_relationship(k, #[trigger] r@[k]),
    {
        let mut it = SegmentsIter::new(self);
        let mut out: Vec<Relationship<'de>> = Vec::new();
        let n: usize = self.len();
        let mut k: usize = 0;
        while k < n
            invariant
                n == self.spec_len(),
                k <= n,
                it.path == self,
                it.next == k,
                out@.len() == k,
                forall|j: int| 0 <= j < k ==> self.is_relationship(j, #[trigger] out@[j]),
            decreases n - k,
        {
            match it.next() {
                Some(s) => {
                    out.push(s.relationship);
                },
                None => {},
            }
            k += 1;
        }
        out
    }

    /// Returns the segments of this path, in order.
    pub fn segments<'a>(&'a self) -> (r: Vec<Segment<'a, 'de>>)
        ensures
            r@.len() == self.spec_len(),
            forall|k: int| 0 <= k < self.spec_len() ==> self.is_segment(k, #[trigger] r@[k]),
    {
        let mut it = SegmentsIter::new(self);
        let mut out: Vec<Segment<'a, 'de>> = Vec::new();
        let n: usize = self.len();
        let mut k: usize = 0;
        while k < n
            invariant
                n == self.spec_len(),
                k <= n,
                it.path == self,
                it.next == k,
                out@.len() == k,
                forall|j: int| 0 <= j < k ==> self.is_segment(j, #[trigger] out@[j]),
            decreases n - k,
        {
            match it.next() {
                Some(s) => {
                    out.push(s);
                },
                None => {},
            }
            k += 1;
        }
        out
    }
}

impl<'de> Clone for PathRef<'de> {
    fn clone(&self) -> (r: Self)
        ensures
            r@ == self@,
            r.spec_indices() == self.spec_indices(),
    {
        proof {
            use_type_invariant(self);
        }
        let mut nodes: Vec<NodeRef<'de>> = Vec::new();
        let mut i: usize = 0;
        while i < self.nodes.len()
            invariant
                i <= self.nodes@.len(),
                nodes@.len() == i,
                forall|j: int| 0 <= j < i ==> (#[trigger] nodes@[j])@ == self.nodes@[j]@,
            decreases self.nodes@.len() - i,
        {
            nodes.push(self.nodes[i].clone());
            i += 1;
        }
        let mut rels: Vec<UnboundRelationship<'de>> = Vec::new();
        let mut i: usize = 0;
        while i < self.rels.len()
            invariant
                i <= self.rels@.len(),
                rels@.len() == i,
                forall|j: int| 0 <= j < i ==> (#[trigger] rels@[j])@ == self.rels@[j]@,
            decreases self.rels@.len() - i,
        {
            rels.push(self.rels[i].clone());
            i += 1;
        }
        let mut indices: Vec<i64> = Vec::new();
        let mut i: usize = 0;
        while i < self.indices.len()
            invariant
                i <= self.indices@.len(),
                indices@ == self.indices@.take(i as int),
            decreases self.indices@.len() - i,
        {
            indices.push(self.indices[i]);
            assert(self.indices@.take(i + 1) == self.indices@.take(i as int).push(
                self.indices@[i as int],
            ));
            i += 1;
        }
        assert(indices@ == self.indices@);
        assert(node_values(nodes@) == node_values(self.nodes@));
        assert(relationship_values(rels@) == relationship_values(self.rels@));
        PathRef { nodes, rels, indices }
    }
}

/// A cursor over the segments of a path.
pub struct SegmentsIter<'a, 'de> {
    pub(crate) path: &'a PathRef<'de>,
    pub(crate) next: usize,
    pub(crate) last_node: usize,
}

impl<'a, 'de> SegmentsIter<'a, 'de> {
    /// The cursor stands before a segment of the path or at its end, and
    /// remembers the node that the walk has reached.
    #[verifier::type_invariant]
    pub(crate) open spec fn inv(self) -> bool {
        &&& self.next <= self.path.spec_len()
        &&& self.last_node == node_index(self.path.indices@, self.next as int)
    }

    /// The path that this cursor walks.
    pub open(crate) spec fn spec_path(&self) -> &'a PathRef<'de> {
        self.path
    }

    /// The number of the segment that comes next.
    pub open(crate) spec fn position(&self) -> int {
        self.next as int
    }

    /// A cursor before the first segment of `path`.
    pub fn new(path: &'a PathRef<'de>) -> (r: Self)
        ensures
            r.spec_path() == path,
            r.position() == 0,
    {
        SegmentsIter { path, next: 0, last_node: 0 }
    }

    /// The segment that the given pair of indices describes, from the node
    /// that the walk has reached. Moves the cursor on to the segment's end.
    fn extract_segment(&mut self, rel_and_node: &[i64]) -> (r: Segment<'a, 'de>)
        requires
            old(self).position() < old(self).spec_path().spec_len(),
            rel_and_node@ == old(self).spec_path().spec_indices().subrange(
                2 * old(self).position(),
                2 * old(self).position() + 2,
            ),
        ensures
            final(self).spec_path() == old(self).spec_path(),
            final(self).position() == old(self).position() + 1,
            old(self).spec_path().is_segment(old(self).position(), r),
    {
        proof {
            use_type_invariant(&*self);
            use_type_invariant(self.path);
        }
        let path: &'a PathRef<'de> = self.path;
        let ghost k = self.next as int;
        let node_count: usize = path.nodes.len();
        let rel_count: usize = path.rels.len();
        let index_count: usize = path.indices.len();
        assert(rel_and_node@[0] == path.indices@[2 * k]);
        assert(rel_and_node@[1] == path.indices@[2 * k + 1]);
        assert((2 * k) % 2 == 0);
        assert((2 * k + 1) % 2 == 1);
        assert(k > 0 ==> (2 * k - 1) % 2 == 1);
        let next_node_index: usize = NodesIter::extract_node_index(rel_and_node);
        let rel_index: i64 = rel_and_node[0];
        let rel: Relationship<'de> = if rel_index > 0 {
            let start_node: &NodeRef<'de> = &path.nodes[self.last_node];
            let end_node: &NodeRef<'de> = &path.nodes[next_node_index];
            path.rels[(rel_index - 1) as usize].bind(
                start_node.id,
                start_node.element_id,
                end_node.id,
                end_node.element_id,
            )
        } else {
            let start_node: &NodeRef<'de> = &path.nodes[next_node_index];
            let end_node: &NodeRef<'de> = &path.nodes[self.last_node];
            path.rels[(-(rel_index + 1)) as usize].bind(
                start_node.id,
                start_node.element_id,
                end_node.id,
                end_node.element_id,
            )
        };
        let segment = Segment {
            start: &path.nodes[self.last_node],
            relationship: rel,
            end: &path.nodes[next_node_index],
        };
        *self = SegmentsIter { path, next: self.next + 1, last_node: next_node_index };
        segment
    }

    /// The next segment, if any is left.
    pub fn next(&mut self) -> (r: Option<Segment<'a, 'de>>)
        ensures
            final(self).spec_path() == old(self).spec_path(),
            match r {
                Some(s) => {
                    &&& old(self).position() < old(self).spec_path().spec_len()
                    &&& final(self).position() == old(self).position() + 1
                    &&& old(self).spec_path().is_segment(old(self).position(), s)
                },
                None => {
                    &&& old(self).position() == old(self).spec_path().spec_len()
                    &&& final(self).position() == old(self).position()
                },
            },
    {
        proof {
            use_type_invariant(&*self);
            use_type_invariant(self.path);
        }
        let path: &'a PathRef<'de> = self.path;
        if self.next >= path.len() {
            return None;
        }
        let index_count: usize = path.indices.len();
        let at: usize = 2 * self.next;
        let pair: &[i64] = slice_subrange(path.indices.as_slice(), at, at + 2);
        Some(self.extract_segment(pair))
    }

    /// The number of segments that are left.
    pub fn len(&self) -> (r: usize)
        ensures
            r == self.spec_path().spec_len() - self.position(),
    {
        proof {
            use_type_invariant(self);
        }
        self.path.len() - self.next
    }

    /// The number of segments that are left, as a lower and an upper bound.
    pub fn size_hint(&self) -> (r: (usize, Option<usize>))
        ensures
            r.0 == self.spec_path().spec_len() - self.position(),
            r.1 == Some(r.0),
    {
        let n: usize = self.len();
        (n, Some(n))
    }

    /// The number of segments that are left.
    pub fn count(self) -> (r: usize)
        ensures
            r == self.spec_path().spec_len() - self.position(),
    {
        self.len()
    }
}

/// A cursor over the nodes of a path in the order of the walk, from both ends.
pub struct NodesIter<'a, 'de> {
    pub(crate) path: &'a PathRef<'de>,
    pub(crate) front: usize,
    pub(crate) back: usize,
}

impl<'a, 'de> NodesIter<'a, 'de> {
    /// The nodes from `front` up to `back`, counted along the walk, are left.
    #[verifier::type_invariant]
    pub(crate) open spec fn inv(self) -> bool {
        self.front <= self.back <= self.path.spec_len() + 1
    }

    /// The path that this cursor walks.
    pub open(crate) spec fn spec_path(&self) -> &'a PathRef<'de> {
        self.path
    }

    /// The number, along the walk, of the node that comes next from the front.
    pub open(crate) spec fn spec_front(&self) -> int {
        self.front as int
    }

    /// One more than the number, along the walk, of the node that comes next
    /// from the back.
    pub open(crate) spec fn spec_back(&self) -> int {
        self.back as int
    }

    /// A cursor over all nodes that the walk of `path` visits.
    pub fn new(path: &'a PathRef<'de>) -> (r: Self)
        ensures
            r.spec_path() == path,
            r.spec_front() == 0,
            r.spec_back() == path.spec_len() + 1,
    {
        let index_count: usize = path.indices.len();
        NodesIter { path, front: 0, back: path.len() + 1 }
    }

    /// The node index of a pair of a relationship index and a node index.
    pub(crate) fn extract_node_index(rel_and_node: &[i64]) -> (r: usize)
        requires
            rel_and_node@.len() == 2,
            0 <= rel_and_node@[1] <= usize::MAX,
        ensures
            r == rel_and_node@[1],
    {
        rel_and_node[1] as usize
    }

    /// The node that a pair of a relationship index and a node index names.
    fn extract_node(&self, rel_and_node: &[i64]) -> (r: &'a NodeRef<'de>)
        requires
            rel_and_node@.len() == 2,
            0 <= rel_and_node@[1] < self.path.nodes@.len(),
        ensures
            *r == self.path.nodes@[rel_and_node@[1] as int],
    {
        let path: &'a PathRef<'de> = self.path;
        let node_count: usize = path.nodes.len();
        let index: usize = Self::extract_node_index(rel_and_node);
        &path.nodes[index]
    }

    /// The node that the walk reaches after `k` segments.
    fn node(&self, k: usize) -> (r: &'a NodeRef<'de>)
        requires
            k <= self.path.spec_len(),
        ensures
            *r == self.path.node_at(k as int),
    {
        proof {
            use_type_invariant(self.path);
        }
        let path: &'a PathRef<'de> = self.path;
        let index_count: usize = path.indices.len();
        if k == 0 {
            &path.nodes[0]
        } else {
            let at: usize = 2 * (k - 1);
            let pair: &[i64] = slice_subrange(path.indices.as_slice(), at, at + 2);
            assert(pair@[1] == path.indices@[2 * k - 1]);
            assert((2 * k - 1) % 2 == 1);
            self.extract_node(pair)
        }
    }

    /// The next node from the front, if any is left.
    pub fn next(&mut self) -> (r: Option<&'a NodeRef<'de>>)
        ensures
            final(self).spec_path() == old(self).spec_path(),
            final(self).spec_back() == old(self).spec_back(),
            match r {
                Some(n) => {
                    &&& old(self).spec_front() < old(self).spec_back()
                    &&& final(self).spec_front() == old(self).spec_front() + 1
                    &&& *n == old(self).spec_path().node_at(old(self).spec_front())
                },
                None => old(self).spec_front() == old(self).spec_back() && final(self).spec_front() == old(self).spec_front(),
            },
    {
        proof {
            use_type_invariant(&*self);
        }
        if self.front >= self.back {
            return None;
        }
        let node = self.node(self.front);
        self.front = self.front + 1;
        Some(node)
    }

    /// The next node from the back, if any is left.
    pub fn next_back(&mut self) -> (r: Option<&'a NodeRef<'de>>)
        ensures
            final(self).spec_path() == old(self).spec_path(),
            final(self).spec_front() == old(self).spec_front(),
            match r {
                Some(n) => {
                    &&& old(self).spec_front() < old(self).spec_back()
                    &&& final(self).spec_back() == old(self).spec_back() - 1
                    &&& *n == old(self).spec_path().node_at(old(self).spec_back() - 1)
                },
                None => old(self).spec_front() == old(self).spec_back() && final(self).spec_back() == old(self).spec_back(),
            },
    {
        proof {
            use_type_invariant(&*self);
        }
        if self.front >= self.back {
            return None;
        }
        let node = self.node(self.back - 1);
        self.back = self.back - 1;
        Some(node)
    }

    /// Skips `n` nodes from the front and returns the one after them, if the
    /// cursor holds that many. Otherwise no node is left.
    pub fn nth(&mut self, n: usize) -> (r: Option<&'a NodeRef<'de>>)
        ensures
            final(self).spec_path() == old(self).spec_path(),
            final(self).spec_back() == old(self).spec_back(),
            match r {
                Some(node) => {
                    &&& old(self).spec_front() + n < old(self).spec_back()
                    &&& final(self).spec_front() == old(self).spec_front() + n + 1
                    &&& *node == old(self).spec_path().node_at(old(self).spec_front() + n)
                },
                None => old(self).spec_front() + n >= old(self).spec_back() && final(self).spec_front() == old(self).spec_back(),
            },
    {
        proof {
            use_type_invariant(&*self);
        }
        if n >= self.back - self.front {
            self.front = self.back;
            return None;
        }
        self.front = self.front + n;
        self.next()
    }

    /// The last node that is left, if any.
    pub fn last(self) -> (r: Option<&'a NodeRef<'de>>)
        ensures
            match r {
                Some(n) => self.spec_front() < self.spec_back() && *n == self.spec_path().node_at(
                    self.spec_back() - 1,
                ),
                None => self.spec_front() == self.spec_back(),
            },
    {
        proof {
            use_type_invariant(&self);
        }
        if self.front >= self.back {
            return None;
        }
        Some(self.node(self.back - 1))
    }

    /// The number of nodes that are left.
    pub fn len(&self) -> (r: usize)
        ensures
            r == self.spec_back() - self.spec_front(),
    {
        proof {
            use_type_invariant(self);
        }
        self.back - self.front
    }

    /// The number of nodes that are left, as a lower and an upper bound.
    pub fn size_hint(&self) -> (r: (usize, Option<usize>))
        ensures
            r.0 == self.spec_back() - self.spec_front(),
            r.1 == Some(r.0),
    {
        let n: usize = self.len();
        (n, Some(n))
    }

    /// The number of nodes that are left.
    pub fn count(self) -> (r: usize)
        ensures
            r == self.spec_back() - self.spec_front(),
    {
        self.len()
    }
}

} // verus!
