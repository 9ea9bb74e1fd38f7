use gust::traits::{HasID, Identifier, NodeID};
use gust::{Edge, PathDirection, Vertex};

struct Node;

impl NodeID for Node {
    type ID_TYPE = i32;
}

#[test]
fn directed_edge_has_forward_path_only() {
    let e: Edge<Node> = Edge::new(1, 2, false);
    assert!(!e.is_bidirectional());
    assert!(e.backward.is_none());
    let p = e.get_path(&PathDirection::Forward);
    assert_eq!((p.from, p.to), (1, 2));
    assert_eq!(*e.get_connected_id(&PathDirection::Forward), 2);
}

#[test]
fn bidirectional_edge_mirrors_its_path() {
    let e: Edge<Node> = Edge::new(-3, 8, true);
    assert!(e.is_bidirectional());
    let b = e.get_path(&PathDirection::Backward);
    assert_eq!((b.from, b.to), (8, -3));
    assert_eq!(*e.get_connected_id(&PathDirection::Backward), -3);
    assert_eq!(*e.get_connected_id(&PathDirection::Forward), 8);
}

#[test]
fn edge_clone_is_equal() {
    let e: Edge<Node> = Edge::new(4, 5, true);
    let c = e.clone();
    assert_eq!((c.forward.from, c.forward.to), (4, 5));
    let b = c.backward.unwrap();
    assert_eq!((b.from, b.to), (5, 4));
}

#[test]
fn vertex_exposes_its_id() {
    let v = Vertex::new(17);
    assert_eq!(v.id, 17);
    assert_eq!(*v.get_id(), 17);
}

#[test]
fn integer_identifiers_compare_and_copy() {
    assert!(7u32.id_eq(&7));
    assert!(!7u32.id_eq(&8));
    assert_eq!(9u64.id_clone(), 9);
    assert_eq!(11usize.id_clone(), 11);
    assert!((-2i64).id_eq(&-2));
}
