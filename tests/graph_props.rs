use gust::traits::NodeID;
use gust::{Graph, PathDirection};

struct Id;

impl NodeID for Id {
    type ID_TYPE = u32;
}

fn adjacent(g: &Graph<Id>, id: u32) -> Vec<u32> {
    g.get_adjacent(&id).into_iter().copied().collect()
}

#[test]
fn bidirectional_edge_is_seen_from_both_ends() {
    let mut g: Graph<Id> = Graph::new();
    g.add_edge_bidi(1, 2);
    assert_eq!(adjacent(&g, 1), vec![2]);
    assert_eq!(adjacent(&g, 2), vec![1]);
    assert_eq!(g.length(), 2);
}

#[test]
fn directed_edge_is_seen_from_its_source_only() {
    let mut g: Graph<Id> = Graph::new();
    g.add_edge(1, 2);
    assert_eq!(adjacent(&g, 1), vec![2]);
    assert!(adjacent(&g, 2).is_empty());
    assert_eq!(g.length(), 1);
    assert!(g.get_edge(&1, &2).is_some());
    assert!(g.get_edge(&2, &1).is_none());
}

#[test]
fn unknown_identifier_has_no_neighbours() {
    let mut g: Graph<Id> = Graph::new();
    assert!(g.get_adjacent(&5).is_empty());
    g.add_edge(1, 2);
    g.add_edge_bidi(3, 4);
    assert!(g.get_adjacent(&5).is_empty());
    assert!(g.get_edge(&5, &1).is_none());
}

#[test]
fn bidirectional_edge_shares_one_record() {
    let mut g: Graph<Id> = Graph::new();
    let h = g.add_edge_bidi(100, 4);
    let a = g.get_edge(&100, &4).unwrap();
    let b = g.get_edge(&4, &100).unwrap();
    assert_eq!((a.forward.from, a.forward.to), (100, 4));
    assert_eq!((b.forward.from, b.forward.to), (100, 4));
    assert!(b.is_bidirectional());
    assert_eq!(*b.get_connected_id(&PathDirection::Backward), 100);
    assert_eq!(h.idx, 0);
}

#[test]
fn handles_are_issued_in_order() {
    let mut g: Graph<Id> = Graph::new();
    let h0 = g.add_edge(1, 2);
    let h1 = g.add_edge_bidi(2, 3);
    let h2 = g.add_edge(3, 1);
    assert_eq!((h0.idx, h1.idx, h2.idx), (0, 1, 2));
    assert_eq!((h0.generation, h1.generation, h2.generation), (0, 0, 0));
}

#[test]
fn neighbours_keep_insertion_order_and_repeats() {
    let mut g: Graph<Id> = Graph::new();
    g.add_edge(1, 3);
    g.add_edge_bidi(2, 1);
    g.add_edge(1, 3);
    assert_eq!(adjacent(&g, 1), vec![3, 2, 3]);
    assert_eq!(adjacent(&g, 2), vec![1]);
}

#[test]
fn vertices_in_order_of_first_use() {
    let mut g: Graph<Id> = Graph::new();
    g.add_edge(21, 4);
    g.add_edge(4, 21);
    g.add_edge_bidi(100, 4);
    g.add_edge(7, 43);
    let v: Vec<u32> = g.vertices().into_iter().copied().collect();
    assert_eq!(v, vec![21, 4, 100, 7]);
    assert_eq!(g.length(), 4);
}

#[test]
fn scenario_adjacent_of_four() {
    let mut g: Graph<Id> = Graph::new();
    g.add_edge(21, 4);
    g.add_edge(4, 21);
    g.add_edge_bidi(100, 4);
    g.add_edge(7, 43);
    assert_eq!(adjacent(&g, 4), vec![21, 100]);
    assert!(g.get_edge(&7, &43).is_some());
    assert!(g.get_edge(&100, &4).is_some());
    assert!(g.get_edge(&7, &100).is_none());
}

#[test]
fn self_loop_bidirectional() {
    let mut g: Graph<Id> = Graph::new();
    g.add_edge_bidi(9, 9);
    assert_eq!(adjacent(&g, 9), vec![9, 9]);
    assert_eq!(g.length(), 1);
}

#[test]
fn get_edge_returns_first_match() {
    let mut g: Graph<Id> = Graph::new();
    g.add_edge(1, 2);
    g.add_edge_bidi(1, 2);
    let e = g.get_edge(&1, &2).unwrap();
    assert!(!e.is_bidirectional());
}
