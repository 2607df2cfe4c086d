use bytes::Bytes;
use neo4rs::bolt::structs::de::{decode_dictionary, Keys, Single};
use neo4rs::bolt::structs::{Bolt, BoltRef, MapRef, NodeRef, PathRef, Segment};
use neo4rs::errors::{Error, Mismatch, Violation};
use neo4rs::packstream::de::decode;
use neo4rs::packstream::ser::encode;

/// Builds encoded values marker by marker.
struct Builder {
    data: Vec<u8>,
}

fn bolt() -> Builder {
    Builder { data: Vec::new() }
}

#[allow(dead_code)]
impl Builder {
    fn structure(mut self, fields: u8, tag: u8) -> Self {
        self.data.push(0xB0 | fields);
        self.data.push(tag);
        self
    }

    fn null(mut self) -> Self {
        self.data.push(0xC0);
        self
    }

    fn bool(mut self, b: bool) -> Self {
        self.data.push(if b { 0xC3 } else { 0xC2 });
        self
    }

    fn tiny_map(mut self, len: u8) -> Self {
        self.data.push(0xA0 | len);
        self
    }

    fn tiny_list(mut self, len: u8) -> Self {
        self.data.push(0x90 | len);
        self
    }

    fn tiny_string(mut self, s: &str) -> Self {
        self.data.push(0x80 | s.len() as u8);
        self.data.extend_from_slice(s.as_bytes());
        self
    }

    fn tiny_int(mut self, n: i8) -> Self {
        self.data.push(n as u8);
        self
    }

    fn int8(mut self, n: i8) -> Self {
        self.data.push(0xC8);
        self.data.push(n as u8);
        self
    }

    fn int16(mut self, n: i16) -> Self {
        self.data.push(0xC9);
        self.data.extend_from_slice(&n.to_be_bytes());
        self
    }

    fn int32(mut self, n: i32) -> Self {
        self.data.push(0xCA);
        self.data.extend_from_slice(&n.to_be_bytes());
        self
    }

    fn int64(mut self, n: i64) -> Self {
        self.data.push(0xCB);
        self.data.extend_from_slice(&n.to_be_bytes());
        self
    }

    fn float(mut self, f: f64) -> Self {
        self.data.push(0xC1);
        self.data.extend_from_slice(&f.to_be_bytes());
        self
    }

    fn extend(mut self, other: Bytes) -> Self {
        self.data.extend_from_slice(&other);
        self
    }

    fn build(self) -> Bytes {
        Bytes::from(self.data)
    }
}

fn properties_data() -> Bytes {
    bolt()
        .tiny_map(2)
        .tiny_string("age")
        .int16(1337)
        .tiny_string("name")
        .tiny_string("Alice")
        .build()
}

fn node_test_data(fields: u8) -> Builder {
    bolt()
        .structure(fields, 0x4E)
        .tiny_int(42)
        .tiny_list(1)
        .tiny_string("Label")
        .extend(properties_data())
}

fn person() -> Bytes {
    bolt()
        .tiny_map(3)
        .tiny_string("name")
        .tiny_string("Alice")
        .tiny_string("age")
        .tiny_int(42)
        .tiny_string("email")
        .tiny_string("foo@bar.com")
        .build()
}

fn as_node<'a>(value: BoltRef<'a>) -> NodeRef<'a> {
    match value {
        BoltRef::Node(node) => node,
        other => panic!("not a node: {:?}", other),
    }
}

fn as_path<'a>(value: BoltRef<'a>) -> PathRef<'a> {
    match value {
        BoltRef::Path(path) => path,
        other => panic!("not a path: {:?}", other),
    }
}

#[test]
fn keys() {
    let data = person();

    let keys = Keys::deserialize(&data).unwrap();

    assert_eq!(keys.0, vec!["name", "age", "email"]);
}

#[test]
fn single() {
    let data = person();

    let name = Single::new("name").deserialize(&data).unwrap();
    let age = Single::new("age").deserialize(&data).unwrap();
    let email = Single::new("email").deserialize(&data).unwrap();
    let missing = Single::new("missing").deserialize(&data).unwrap();

    assert_eq!(name, Some(BoltRef::String("Alice")));
    assert_eq!(age, Some(BoltRef::Integer(42)));
    assert_eq!(email, Some(BoltRef::String("foo@bar.com")));
    assert_eq!(missing, None);
}

#[test]
fn single_refuses_what_is_no_dictionary() {
    let list = bolt().tiny_list(1).tiny_int(1).build();
    assert_eq!(
        Single::new("a").deserialize(&list),
        Err(Error::Deserialization { detail: Mismatch::WrongType })
    );
    let cut = bolt().tiny_map(1).tiny_string("a").build();
    assert_eq!(
        Keys::deserialize(&cut).err(),
        Some(Error::ProtocolViolation { detail: Violation::UnexpectedEnd })
    );
}

#[test]
fn duplicate_keys_are_refused() {
    let twice = bolt()
        .tiny_map(2)
        .tiny_string("a")
        .tiny_int(1)
        .tiny_string("a")
        .tiny_int(2)
        .build();
    assert_eq!(
        decode(&twice),
        Err(Error::ProtocolViolation { detail: Violation::DuplicateKey })
    );
    assert_eq!(
        decode_dictionary(&twice).err(),
        Some(Error::ProtocolViolation { detail: Violation::DuplicateKey })
    );
}

/// (42)-[1000]->(69)<-[1000]-(42)-[1001]->(1)
fn bolt_path() -> Bytes {
    fn node(id: i8) -> Bytes {
        bolt()
            .structure(3, 0x4E)
            .tiny_int(id)
            .tiny_list(0)
            .tiny_map(0)
            .build()
    }

    fn rel(id: i16) -> Bytes {
        bolt()
            .structure(3, 0x72)
            .int16(id)
            .tiny_string("REL")
            .tiny_map(0)
            .build()
    }

    bolt()
        .structure(3, 0x50)
        .tiny_list(3)
        .extend(node(42))
        .extend(node(1))
        .extend(node(69))
        .tiny_list(2)
        .extend(rel(1000))
        .extend(rel(1001))
        .tiny_list(6)
        .tiny_int(1)
        .tiny_int(2)
        .tiny_int(-1)
        .tiny_int(0)
        .tiny_int(2)
        .tiny_int(1)
        .build()
}

#[test]
fn deserialize() {
    let data = bolt_path();
    let path: PathRef = as_path(decode(&data).unwrap());

    assert_eq!(path.start().id(), 42);
    assert_eq!(path.end().id(), 1);

    assert_eq!(path.len(), 3);

    let nodes: Vec<_> = path.nodes().iter().map(|n| n.id()).collect();
    assert_eq!(nodes, vec![42, 69, 42, 1]);

    let rels: Vec<_> = path
        .relationships()
        .iter()
        .map(|r| (r.start_node_id(), r.id(), r.end_node_id()))
        .collect();
    assert_eq!(rels, vec![(42, 1000, 69), (42, 1000, 69), (42, 1001, 1)]);

    let segments: Vec<_> = path.segments();

    assert_eq!(
        segments,
        vec![
            Segment {
                start: path.get_node_by_id(42).unwrap(),
                relationship: path
                    .get_unbounded_relationship_by_id(1000)
                    .unwrap()
                    .bind(42, None, 69, None),
                end: path.get_node_by_id(69).unwrap(),
            },
            Segment {
                start: path.get_node_by_id(69).unwrap(),
                relationship: path
                    .get_unbounded_relationship_by_id(1000)
                    .unwrap()
                    .bind(42, None, 69, None),
                end: path.get_node_by_id(42).unwrap(),
            },
            Segment {
                start: path.get_node_by_id(42).unwrap(),
                relationship: path
                    .get_unbounded_relationship_by_id(1001)
                    .unwrap()
                    .bind(42, None, 1, None),
                end: path.get_node_by_id(1).unwrap(),
            },
        ]
    )
}

#[test]
fn path_lookups_and_cursors() {
    let data = bolt_path();
    let path = as_path(decode(&data).unwrap());

    assert!(!path.is_empty());
    assert!(path.get_node_by_id(7).is_none());
    assert_eq!(path.get_relationship_by_id(1001).unwrap().end_node_id(), 1);
    assert!(path.get_relationship_by_id(5).is_none());

    let mut nodes = neo4rs::bolt::structs::NodesIter::new(&path);
    assert_eq!(nodes.len(), 4);
    assert_eq!(nodes.size_hint(), (4, Some(4)));
    assert_eq!(nodes.next().unwrap().id(), 42);
    assert_eq!(nodes.next_back().unwrap().id(), 1);
    assert_eq!(nodes.nth(1).unwrap().id(), 42);
    assert!(nodes.next().is_none());
    assert!(nodes.next_back().is_none());
    assert_eq!(neo4rs::bolt::structs::NodesIter::new(&path).last().unwrap().id(), 1);
    assert_eq!(neo4rs::bolt::structs::NodesIter::new(&path).count(), 4);

    let mut segments = neo4rs::bolt::structs::SegmentsIter::new(&path);
    assert_eq!(segments.len(), 3);
    assert_eq!(segments.next().unwrap().end.id(), 69);
    assert_eq!(segments.size_hint(), (2, Some(2)));
    assert_eq!(segments.count(), 2);
}

#[test]
fn path_with_a_bad_walk_is_refused() {
    fn path_with(indices: &[i8]) -> Bytes {
        let node = bolt()
            .structure(3, 0x4E)
            .tiny_int(1)
            .tiny_list(0)
            .tiny_map(0)
            .build();
        let rel = bolt()
            .structure(3, 0x72)
            .tiny_int(9)
            .tiny_string("R")
            .tiny_map(0)
            .build();
        let mut b = bolt()
            .structure(3, 0x50)
            .tiny_list(1)
            .extend(node)
            .tiny_list(1)
            .extend(rel)
            .tiny_list(indices.len() as u8);
        for i in indices {
            b = b.tiny_int(*i);
        }
        b.build()
    }
    let refused = Err(Error::ProtocolViolation { detail: Violation::InvalidField });
    assert!(decode(&path_with(&[1, 0])).is_ok());
    assert!(decode(&path_with(&[-1, 0])).is_ok());
    assert!(decode(&path_with(&[])).is_ok());
    assert_eq!(decode(&path_with(&[0, 0])), refused);
    assert_eq!(decode(&path_with(&[1])), refused);
    assert_eq!(decode(&path_with(&[2, 0])), refused);
    assert_eq!(decode(&path_with(&[1, 1])), refused);
    assert_eq!(decode(&path_with(&[1, -1])), refused);

    let no_nodes = bolt()
        .structure(3, 0x50)
        .tiny_list(0)
        .tiny_list(0)
        .tiny_list(0)
        .build();
    assert_eq!(decode(&no_nodes), refused);
}

#[test]
fn node_without_element_id() {
    let data = node_test_data(3).build();
    let node = as_node(decode(&data).unwrap());

    assert_eq!(node.id(), 42);
    assert_eq!(node.labels(), &["Label"]);
    assert_eq!(node.element_id(), None);
    assert_eq!(node.keys(), &["age", "name"]);
    assert_eq!(node.get("age").unwrap(), Some(BoltRef::Integer(1337)));
    assert_eq!(node.get("name").unwrap(), Some(BoltRef::String("Alice")));
    assert_eq!(node.get("missing").unwrap(), None);
}

#[test]
fn node_with_element_id() {
    let data = node_test_data(4).tiny_string("foobar").build();
    assert_eq!(
        &data[..11],
        &[0xB4, 0x4E, 0x2A, 0x91, 0x85, 0x4C, 0x61, 0x62, 0x65, 0x6C, 0xA2]
    );
    let node = as_node(decode(&data).unwrap());

    assert_eq!(node.id(), 42);
    assert_eq!(node.labels(), &["Label"]);
    assert_eq!(node.element_id(), Some("foobar"));
    assert_eq!(node.keys(), &["age", "name"]);
    assert_eq!(node.get("age").unwrap(), Some(BoltRef::Integer(1337)));
    assert_eq!(node.get("missing").unwrap(), None);
}

#[test]
fn properties_decode_in_any_order_and_again() {
    let data = node_test_data(3).build();
    let node = as_node(decode(&data).unwrap());

    let name_first = node.get("name").unwrap();
    let age = node.get("age").unwrap();
    let name_second = node.get("name").unwrap();
    let age_again = node.get("age").unwrap();

    assert_eq!(name_first, name_second);
    assert_eq!(age, age_again);
    assert_eq!(node.keys(), node.keys());
}

#[test]
fn properties_decode_into_named_fields() {
    let data = node_test_data(3).build();
    let node = as_node(decode(&data).unwrap());

    assert_eq!(node.to(&["name"]).unwrap(), vec![BoltRef::String("Alice")]);
    assert_eq!(
        node.to(&["age", "name"]).unwrap(),
        vec![BoltRef::Integer(1337), BoltRef::String("Alice")]
    );
    assert_eq!(node.to(&[]).unwrap(), vec![]);
    assert_eq!(
        node.to(&["name", "email", "phone"]),
        Err(Error::Deserialization {
            detail: Mismatch::MissingField { name: "email".to_owned() }
        })
    );
    assert_eq!(
        node.into(&["age"]).unwrap(),
        vec![Bolt::Integer(1337)]
    );
}

#[test]
fn relationship_with_and_without_element_ids() {
    let short = bolt()
        .structure(5, 0x52)
        .tiny_int(42)
        .tiny_int(84)
        .int16(1337)
        .tiny_string("REL")
        .extend(properties_data())
        .build();
    let rel = match decode(&short).unwrap() {
        BoltRef::Relationship(rel) => rel,
        other => panic!("not a relationship: {:?}", other),
    };
    assert_eq!(rel.id(), 42);
    assert_eq!(rel.start_node_id(), 84);
    assert_eq!(rel.end_node_id(), 1337);
    assert_eq!(rel.element_id(), None);
    assert_eq!(rel.start_node_element_id(), None);
    assert_eq!(rel.end_node_element_id(), None);
    assert_eq!(rel.typ(), "REL");
    assert_eq!(rel.keys(), &["age", "name"]);
    assert_eq!(rel.get("age").unwrap(), Some(BoltRef::Integer(1337)));
    assert_eq!(rel.get("missing").unwrap(), None);
    assert_eq!(rel.to(&["name"]).unwrap(), vec![BoltRef::String("Alice")]);

    let long = bolt()
        .structure(8, 0x52)
        .tiny_int(42)
        .tiny_int(84)
        .int16(1337)
        .tiny_string("REL")
        .extend(properties_data())
        .tiny_string("id")
        .tiny_string("start")
        .tiny_string("end")
        .build();
    let rel = match decode(&long).unwrap() {
        BoltRef::Relationship(rel) => rel,
        other => panic!("not a relationship: {:?}", other),
    };
    assert_eq!(rel.element_id(), Some("id"));
    assert_eq!(rel.start_node_element_id(), Some("start"));
    assert_eq!(rel.end_node_element_id(), Some("end"));
    assert_eq!(rel.into(&["name"]).unwrap(), vec![Bolt::String("Alice".to_owned())]);
}

#[test]
fn unbound_relationship_with_and_without_element_id() {
    let short = bolt()
        .structure(3, 0x72)
        .tiny_int(42)
        .tiny_string("REL")
        .extend(properties_data())
        .build();
    let rel = match decode(&short).unwrap() {
        BoltRef::UnboundRelationship(rel) => rel,
        other => panic!("not a relationship: {:?}", other),
    };
    assert_eq!(rel.id(), 42);
    assert_eq!(rel.typ(), "REL");
    assert_eq!(rel.element_id(), None);
    assert_eq!(rel.keys(), &["age", "name"]);
    assert_eq!(rel.get("name").unwrap(), Some(BoltRef::String("Alice")));

    let long = bolt()
        .structure(4, 0x72)
        .tiny_int(42)
        .tiny_string("REL")
        .extend(properties_data())
        .tiny_string("id")
        .build();
    let rel = match decode(&long).unwrap() {
        BoltRef::UnboundRelationship(rel) => rel,
        other => panic!("not a relationship: {:?}", other),
    };
    assert_eq!(rel.element_id(), Some("id"));
    let bound = rel.bind(1, Some("a"), 2, Some("b"));
    assert_eq!(bound.id(), 42);
    assert_eq!(bound.typ(), "REL");
    assert_eq!(bound.start_node_id(), 1);
    assert_eq!(bound.end_node_id(), 2);
    assert_eq!(bound.start_node_element_id(), Some("a"));
    assert_eq!(bound.end_node_element_id(), Some("b"));
    assert_eq!(bound.keys(), &["age", "name"]);
    assert_eq!(rel.into(&["age"]).unwrap(), vec![Bolt::Integer(1337)]);
}

#[test]
fn structures_with_a_wrong_shape_are_refused() {
    let count = bolt().structure(2, 0x4E).tiny_int(1).tiny_list(0).build();
    assert_eq!(
        decode(&count),
        Err(Error::ProtocolViolation { detail: Violation::FieldCount })
    );
    let tag = bolt().structure(1, 0x01).tiny_int(1).build();
    assert_eq!(
        decode(&tag),
        Err(Error::ProtocolViolation { detail: Violation::UnexpectedTag })
    );
    let field = bolt()
        .structure(3, 0x4E)
        .tiny_string("id")
        .tiny_list(0)
        .tiny_map(0)
        .build();
    assert_eq!(
        decode(&field),
        Err(Error::ProtocolViolation { detail: Violation::InvalidField })
    );
    let properties = bolt()
        .structure(3, 0x4E)
        .tiny_int(1)
        .tiny_list(0)
        .tiny_list(0)
        .build();
    assert_eq!(
        decode(&properties),
        Err(Error::ProtocolViolation { detail: Violation::InvalidField })
    );
}

#[test]
fn owned_values_stand_for_the_same() {
    let data = node_test_data(4).tiny_string("foobar").build();
    let borrowed = decode(&data).unwrap();
    let owned = Bolt::from(borrowed.clone());
    assert_eq!(owned.as_ref(), borrowed);
    assert_eq!(encode(&owned.as_ref()).unwrap(), data.to_vec());

    let data = bolt_path();
    let borrowed = decode(&data).unwrap();
    let owned = Bolt::from(borrowed.clone());
    assert_eq!(owned.as_ref(), borrowed);
    assert_eq!(encode(&owned.as_ref()).unwrap(), data.to_vec());

    let data = person();
    let borrowed = decode(&data).unwrap();
    let owned = Bolt::from(borrowed.clone());
    assert_eq!(owned.as_ref(), borrowed);
}

#[test]
fn dictionaries_keep_their_keys_apart() {
    let mut map = MapRef::new();
    assert!(map.is_empty());
    assert_eq!(map.insert("a", BoltRef::Integer(1)), None);
    assert_eq!(map.insert("b", BoltRef::Integer(2)), None);
    assert_eq!(map.insert("a", BoltRef::Integer(3)), Some(BoltRef::Integer(1)));
    assert_eq!(map.len(), 2);
    assert_eq!(map.keys(), vec!["a", "b"]);
    assert_eq!(map.get("a"), Some(&BoltRef::Integer(3)));
    assert_eq!(map.get("c"), None);
    assert!(map.contains_key("b"));
    assert!(!map.contains_key("c"));
    let bytes = encode(&BoltRef::Dictionary(map.clone())).unwrap();
    assert_eq!(bytes, vec![0xA2, 0x81, 0x61, 0x03, 0x81, 0x62, 0x02]);
    assert_eq!(map.take("b"), Some(BoltRef::Integer(2)));
}

#[test]
fn nodes_and_relationships_from_their_parts() {
    let data = node_test_data(4).tiny_string("foobar").build();
    let node = NodeRef::new(42, vec!["Label"], properties_data(), Some("foobar")).unwrap();
    assert_eq!(BoltRef::Node(node.clone()), decode(&data).unwrap());
    assert_eq!(encode(&BoltRef::Node(node.clone())).unwrap(), data.to_vec());
    assert_eq!(node.clone().get("age").unwrap(), Some(BoltRef::Integer(1337)));
    assert_eq!(node.properties_map().keys(), vec!["age", "name"]);

    let no_dictionary = bolt().tiny_list(0).build();
    assert_eq!(
        NodeRef::new(1, vec![], no_dictionary.clone(), None).err(),
        Some(Error::Deserialization { detail: Mismatch::WrongType })
    );
    let cut = bolt().tiny_map(1).build();
    assert_eq!(
        NodeRef::new(1, vec![], cut, None).err(),
        Some(Error::ProtocolViolation { detail: Violation::UnexpectedEnd })
    );

    let rel = neo4rs::Relationship::new(
        42,
        84,
        1337,
        "REL",
        properties_data(),
        Some("id"),
        Some("start"),
        Some("end"),
    )
    .unwrap();
    let bytes = encode(&BoltRef::Relationship(rel.clone())).unwrap();
    assert_eq!(&bytes[..2], &[0xB8, 0x52]);
    assert_eq!(decode(&Bytes::from(bytes)).unwrap(), BoltRef::Relationship(rel));
    assert!(neo4rs::Relationship::new(1, 2, 3, "R", no_dictionary.clone(), None, None, None)
        .is_err());

    // element ids are written only where all three are there
    let partly = neo4rs::Relationship::new(
        1,
        2,
        3,
        "R",
        bolt().tiny_map(0).build(),
        Some("id"),
        None,
        None,
    )
    .unwrap();
    assert_eq!(
        encode(&BoltRef::Relationship(partly)).unwrap(),
        vec![0xB5, 0x52, 0x01, 0x02, 0x03, 0x81, 0x52, 0xA0]
    );

    let unbound =
        neo4rs::UnboundRelationship::new(7, "R", bolt().tiny_map(0).build(), None).unwrap();
    assert_eq!(
        encode(&BoltRef::UnboundRelationship(unbound.clone())).unwrap(),
        vec![0xB3, 0x72, 0x07, 0x81, 0x52, 0xA0]
    );
    assert!(neo4rs::UnboundRelationship::new(7, "R", no_dictionary, None).is_err());

    let start = NodeRef::new(1, vec![], bolt().tiny_map(0).build(), None).unwrap();
    let end = NodeRef::new(2, vec![], bolt().tiny_map(0).build(), None).unwrap();
    let path = PathRef::new(
        vec![start.clone(), end.clone()],
        vec![unbound.clone()],
        vec![-1, 1],
    )
    .unwrap();
    assert_eq!(path.len(), 1);
    assert_eq!(path.end().id(), 2);
    let segments = path.segments();
    assert_eq!(segments[0].relationship.start_node_id(), 2);
    assert_eq!(segments[0].relationship.end_node_id(), 1);
    let bytes = encode(&BoltRef::Path(path.clone())).unwrap();
    assert_eq!(decode(&Bytes::from(bytes)).unwrap(), BoltRef::Path(path));
    assert_eq!(
        PathRef::new(vec![start], vec![unbound], vec![2, 0]).err(),
        Some(Error::ProtocolViolation { detail: Violation::InvalidField })
    );
    assert!(PathRef::new(vec![], vec![], vec![]).is_err());
}

#[test]
fn host_values_become_values() {
    assert_eq!(BoltRef::from(()), BoltRef::Null);
    assert_eq!(BoltRef::from(true), BoltRef::Boolean(true));
    assert_eq!(BoltRef::from(7u8), BoltRef::Integer(7));
    assert_eq!(BoltRef::from(7u16), BoltRef::Integer(7));
    assert_eq!(BoltRef::from(7u32), BoltRef::Integer(7));
    assert_eq!(BoltRef::from(-7i8), BoltRef::Integer(-7));
    assert_eq!(BoltRef::from(-7i16), BoltRef::Integer(-7));
    assert_eq!(BoltRef::from(-7i32), BoltRef::Integer(-7));
    assert_eq!(BoltRef::from(-7i64), BoltRef::Integer(-7));
    assert_eq!(BoltRef::from("a"), BoltRef::String("a"));
    assert_eq!(BoltRef::from(&[1u8, 2][..]), BoltRef::Bytes(&[1, 2]));
    assert_eq!(BoltRef::from(vec![BoltRef::Null]), BoltRef::List(vec![BoltRef::Null]));
    assert_eq!(BoltRef::from(MapRef::new()), BoltRef::Dictionary(MapRef::new()));
    assert_eq!(
        BoltRef::from(neo4rs::Date::new(3)),
        BoltRef::Date(neo4rs::Date::new(3))
    );

    assert_eq!(BoltRef::try_from(7u64), Ok(BoltRef::Integer(7)));
    assert_eq!(BoltRef::try_from(i64::MAX as u64), Ok(BoltRef::Integer(i64::MAX)));
    let overflow = Err(Error::IntegerOverflow { field: "value" });
    assert_eq!(BoltRef::try_from(i64::MAX as u64 + 1), overflow);
    assert_eq!(BoltRef::try_from(u64::MAX), overflow);
    assert_eq!(BoltRef::try_from(7usize), Ok(BoltRef::Integer(7)));
    assert_eq!(BoltRef::try_from(-7isize), Ok(BoltRef::Integer(-7)));
    assert_eq!(BoltRef::try_from(u128::MAX), overflow);
    assert_eq!(BoltRef::try_from(i128::MIN), overflow);
    assert_eq!(BoltRef::try_from(i64::MIN as i128), Ok(BoltRef::Integer(i64::MIN)));
    assert_eq!(BoltRef::try_from(i64::MIN as i128 - 1), overflow);

    assert_eq!(Bolt::from(()), Bolt::Null);
    assert_eq!(Bolt::from(false), Bolt::Boolean(false));
    assert_eq!(Bolt::from(7u32), Bolt::Integer(7));
    assert_eq!(Bolt::from(-7i64), Bolt::Integer(-7));
    assert_eq!(Bolt::from("a"), Bolt::String("a".to_owned()));
    assert_eq!(Bolt::from("a".to_owned()), Bolt::String("a".to_owned()));
    assert_eq!(Bolt::from(vec![1u8, 2]), Bolt::Bytes(Bytes::from_static(&[1, 2])));
    assert_eq!(Bolt::from(vec![Bolt::Null]), Bolt::List(vec![Bolt::Null]));
    assert_eq!(
        Bolt::from(BoltRef::Bytes(&[1, 2])),
        Bolt::Bytes(Bytes::from_static(&[1, 2]))
    );
    assert_eq!(Bolt::from(BoltRef::Bytes(&[1, 2])).as_ref(), BoltRef::Bytes(&[1, 2]));
    assert_eq!(
        Bolt::of(BoltRef::List(vec![BoltRef::String("x"), BoltRef::Float(3)])),
        Bolt::List(vec![Bolt::String("x".to_owned()), Bolt::Float(3)])
    );
}

#[test]
fn dictionaries_from_pairs() {
    let map = MapRef::from_pairs(vec![
        ("a", BoltRef::Integer(1)),
        ("b", BoltRef::Integer(2)),
        ("a", BoltRef::Integer(3)),
    ]);
    assert_eq!(map.keys(), vec!["a", "b"]);
    assert_eq!(map.get("a"), Some(&BoltRef::Integer(3)));
    assert_eq!(
        map.clone().into_entries(),
        vec![("a", BoltRef::Integer(3)), ("b", BoltRef::Integer(2))]
    );
    let owned = neo4rs::BoltMap::from(map.clone());
    assert_eq!(owned.len(), 2);
    assert_eq!(owned.get("b"), Some(&Bolt::Integer(2)));
    assert_eq!(owned.get("c"), None);
    assert_eq!(owned.as_ref(), map);
    assert_eq!(neo4rs::BoltMap::new().len(), 0);
}

#[test]
fn zoned_instants_own_their_names() {
    let borrowed = neo4rs::DateTimeZoneIdRef::new(1, 2, "Europe/Paris");
    let owned = borrowed.to_owned();
    assert_eq!(owned.tz_id, "Europe/Paris");
    assert_eq!(owned.as_ref(), borrowed);
    assert_eq!(borrowed.timezone_id(), "Europe/Paris");
    assert_eq!(borrowed.seconds_since_epoch(), 1);
    assert_eq!(borrowed.nanoseconds_since_midnight(), 2);
    let legacy = neo4rs::LegacyDateTimeZoneIdRef::new(1, 2, "UTC");
    assert_eq!(legacy.to_owned().as_ref(), legacy);
    assert_eq!(legacy.local_seconds(), 1);
    assert_eq!(legacy.timezone_id(), "UTC");
}

#[test]
fn decoding_into_named_fields() {
    let data = person();
    assert_eq!(
        neo4rs::decode_as(&data, &["age", "name"]).unwrap(),
        vec![BoltRef::Integer(42), BoltRef::String("Alice")]
    );
    assert_eq!(neo4rs::decode_as(&data, &[]).unwrap(), vec![]);
    assert_eq!(
        neo4rs::decode_as(&data, &["name", "phone", "fax"]),
        Err(Error::Deserialization {
            detail: Mismatch::MissingField { name: "phone".to_owned() }
        })
    );
    let twice = bolt()
        .tiny_map(2)
        .tiny_string("a")
        .tiny_int(1)
        .tiny_string("a")
        .tiny_int(2)
        .build();
    assert_eq!(
        neo4rs::decode_as(&twice, &["b"]),
        Err(Error::ProtocolViolation { detail: Violation::DuplicateKey })
    );
    assert_eq!(
        neo4rs::decode_as(&bolt().tiny_int(1).build(), &[]),
        Err(Error::Deserialization { detail: Mismatch::WrongType })
    );
}

#[test]
fn element_ids_are_kept_one_by_one() {
    let empty = Bytes::from_static(&[0xA0]);
    let rel =
        neo4rs::Relationship::new(1, 2, 3, "R", empty, Some("r"), None, Some("e")).unwrap();

    let owned = rel.clone().into_owned();
    let back = owned.as_ref();
    assert_eq!(back.element_id(), Some("r"));
    assert_eq!(back.start_node_element_id(), None);
    assert_eq!(back.end_node_element_id(), Some("e"));
    assert_eq!(back, rel);

    let list = BoltRef::List(vec![BoltRef::Relationship(rel.clone())]);
    let owned = Bolt::of(list);
    match owned.as_ref() {
        BoltRef::List(items) => assert_eq!(items[0], BoltRef::Relationship(rel.clone())),
        other => panic!("no list: {:?}", other),
    }

    let mut map = MapRef::new();
    map.insert("r", BoltRef::Relationship(rel.clone()));
    let owned = Bolt::from(BoltRef::Dictionary(map));
    match owned.as_ref() {
        BoltRef::Dictionary(map) => {
            assert_eq!(map.get("r"), Some(&BoltRef::Relationship(rel)));
        }
        other => panic!("no dictionary: {:?}", other),
    }
}
