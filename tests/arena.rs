use gust::traits::NodeID;
use gust::{Edge, EdgeKey, EdgeMap};

struct Node;

impl NodeID for Node {
    type ID_TYPE = u64;
}

fn edge(from: u64, to: u64) -> Edge<Node> {
    Edge::new(from, to, false)
}

fn ends(e: &Edge<Node>) -> (u64, u64) {
    (e.forward.from, e.forward.to)
}

#[test]
fn fresh_handles_count_up_from_zero() {
    let mut m: EdgeMap<Node> = EdgeMap::new();
    let h0 = m.insert(edge(1, 2));
    let h1 = m.insert(edge(3, 4));
    assert_eq!(h0, EdgeKey { idx: 0, generation: 0 });
    assert_eq!(h1, EdgeKey { idx: 1, generation: 0 });
    assert_eq!(ends(m.get(&h0).unwrap()), (1, 2));
    assert_eq!(ends(m.get(&h1).unwrap()), (3, 4));
    assert!(m.has_key(&h0));
    assert!(m.has_key(&h1));
}

#[test]
fn remove_returns_record_and_forgets_handle() {
    let mut m: EdgeMap<Node> = EdgeMap::new();
    let h = m.insert(edge(5, 6));
    let removed = m.remove(&h).unwrap();
    assert_eq!(ends(&removed), (5, 6));
    assert!(m.get(&h).is_none());
    assert!(!m.has_key(&h));
    assert!(m.remove(&h).is_none());
}

#[test]
fn unknown_handle_is_not_found() {
    let mut m: EdgeMap<Node> = EdgeMap::new();
    let h = m.insert(edge(1, 2));
    let unknown = EdgeKey { idx: 9, generation: 0 };
    let wrong_generation = EdgeKey { idx: h.idx, generation: 1 };
    assert!(m.get(&unknown).is_none());
    assert!(!m.has_key(&wrong_generation));
    assert!(m.remove(&wrong_generation).is_none());
    assert_eq!(ends(m.get(&h).unwrap()), (1, 2));
}

#[test]
fn stale_handle_rejected_after_reuse() {
    let mut m: EdgeMap<Node> = EdgeMap::new();
    let h = m.insert(edge(1, 2));
    m.remove(&h);
    let h2 = m.insert(edge(7, 8));
    assert_eq!(h2.idx, h.idx);
    assert_eq!(h2.generation, h.generation + 1);
    assert!(m.get(&h).is_none());
    assert!(!m.has_key(&h));
    assert_eq!(ends(m.get(&h2).unwrap()), (7, 8));
}

#[test]
fn free_pool_reuses_most_recent_first() {
    let mut m: EdgeMap<Node> = EdgeMap::new();
    let h1 = m.insert(edge(1, 2));
    let h2 = m.insert(edge(3, 4));
    let _h3 = m.insert(edge(5, 6));
    m.remove(&h1);
    m.remove(&h2);
    let a = m.insert(edge(7, 8));
    let b = m.insert(edge(9, 10));
    let c = m.insert(edge(11, 12));
    assert_eq!(a, EdgeKey { idx: h2.idx, generation: 1 });
    assert_eq!(b, EdgeKey { idx: h1.idx, generation: 1 });
    assert_eq!(c, EdgeKey { idx: 3, generation: 0 });
}

#[test]
fn clone_keeps_records() {
    let mut m: EdgeMap<Node> = EdgeMap::new();
    let h = m.insert(edge(1, 2));
    let c = m.clone();
    m.remove(&h);
    assert_eq!(ends(c.get(&h).unwrap()), (1, 2));
    assert!(m.get(&h).is_none());
}
