use vstd::prelude::*;

use std::collections::HashMap;

use crate::traits::{Identifier, NodeID};

verus! {

broadcast use vstd::std_specs::hash::group_hash_axioms;

/// Which of an edge's paths an adjacency entry reads.
#[derive(Debug, Copy, Clone, PartialEq, Eq, Structural)]
pub enum PathDirection {
    Forward,
    Backward,
}

/// A directed connection between two identifiers.
#[derive(Debug)]
pub struct EdgePath<T: NodeID> {
    pub from: T::ID_TYPE,
    pub to: T::ID_TYPE,
}

impl<T: NodeID> Clone for EdgePath<T> {
    fn clone(&self) -> (r: Self)
        ensures
            r == *self,
    {
        EdgePath { from: self.from.id_clone(), to: self.to.id_clone() }
    }
}

/// An edge record: a forward path, and the mirrored backward path when the
/// edge is bidirectional.
#[derive(Debug)]
pub struct Edge<T: NodeID> {
    pub forward: EdgePath<T>,
    pub backward: Option<EdgePath<T>>,
}

impl<T: NodeID> Edge<T> {
    /// The record that `new(from, to, bidi)` builds.
    pub open spec fn spec_new(from: T::ID_TYPE, to: T::ID_TYPE, bidi: bool) -> Edge<T> {
        Edge {
            forward: EdgePath { from, to },
            backward: if bidi {
                Some(EdgePath { from: to, to: from })
            } else {
                None
            },
        }
    }

    /// A direction can be read from this record: always forward, backward
    /// only on a bidirectional record.
    pub open spec fn has_path(self, dir: PathDirection) -> bool {
        dir == PathDirection::Forward || self.backward.is_some()
    }

    /// The path that `dir` selects.
    pub open spec fn path(self, dir: PathDirection) -> EdgePath<T> {
        match dir {
            PathDirection::Forward => self.forward,
            PathDirection::Backward => self.backward.unwrap(),
        }
    }

    pub fn new(from: T::ID_TYPE, to: T::ID_TYPE, bidi: bool) -> (r: Edge<T>)
        ensures
            r == Self::spec_new(from, to, bidi),
    {
        let mut backward = None;
        if bidi {
            backward = Some(EdgePath { from: to.id_clone(), to: from.id_clone() });
        }
        let forward = EdgePath { from, to };
        Edge { forward, backward }
    }

    /// The path selected by `dir`. Reading the backward path of an edge that
    /// is not bidirectional is a usage error, excluded by `requires`.
    pub fn get_path(&self, dir: &PathDirection) -> (r: &EdgePath<T>)
        requires
            self.has_path(*dir),
        ensures
            *r == self.path(*dir),
    {
        match dir {
            PathDirection::Forward => &self.forward,
            PathDirection::Backward => {
                match &self.backward {
                    Some(path) => path,
                    None => {
                        proof {
                            assert(false);
                        }
                        &self.forward
                    },
                }
            },
        }
    }

    /// The identifier reached by following the path selected by `dir`.
    pub fn get_connected_id(&self, dir: &PathDirection) -> (r: &T::ID_TYPE)
        requires
            self.has_path(*dir),
        ensures
            *r == self.path(*dir).to,
    {
        &self.get_path(dir).to
    }

    pub fn is_bidirectional(&self) -> (r: bool)
        ensures
            r == self.backward.is_some(),
    {
        self.backward.is_some()
    }
}

impl<T: NodeID> Clone for Edge<T> {
    fn clone(&self) -> (r: Self)
        ensures
            r == *self,
    {
        let backward = match &self.backward {
            Some(path) => Some(path.clone()),
            None => None,
        };
        Edge { forward: self.forward.clone(), backward }
    }
}

/// A handle to an edge record: a slot index and the generation of the slot
/// at the time the handle was issued.
#[derive(Debug, Clone, Copy, PartialEq, Eq, Structural)]
pub struct EdgeKey {
    pub idx: usize,
    pub generation: usize,
}

/// The abstract state of an `EdgeMap`.
pub struct EdgeMapModel<T: NodeID> {
    /// The next never-used slot index.
    pub cursor: nat,
    /// Handles of removed records, most recently removed last.
    pub free_pool: Seq<EdgeKey>,
    /// For each live slot, the handle that currently owns it.
    pub keys: Map<usize, EdgeKey>,
    /// For each live slot, its record.
    pub records: Map<usize, Edge<T>>,
}

impl<T: NodeID> EdgeMapModel<T> {
    pub open spec fn empty() -> Self {
        EdgeMapModel {
            cursor: 0,
            free_pool: Seq::empty(),
            keys: Map::empty(),
            records: Map::empty(),
        }
    }

    /// Every live slot is below the cursor and has a record and a handle that
    /// names it; freed slots are below the cursor, not live, and distinct.
    pub open spec fn wf(self) -> bool {
        &&& self.cursor <= usize::MAX
        &&& self.keys.dom() == self.records.dom()
        &&& forall|i: usize| #[trigger]
            self.keys.contains_key(i) ==> self.keys[i].idx == i && i < self.cursor
        &&& forall|j: int|
            0 <= j < self.free_pool.len() ==> (#[trigger] self.free_pool[j]).idx < self.cursor
                && !self.keys.contains_key(self.free_pool[j].idx)
        &&& forall|j: int, l: int|
            0 <= j < l < self.free_pool.len() ==> #[trigger] self.free_pool[j].idx
                != #[trigger] self.free_pool[l].idx
    }

    /// The handle is current: its slot is live with the same generation.
    pub open spec fn contains(self, k: EdgeKey) -> bool {
        self.keys.contains_key(k.idx) && self.keys[k.idx].generation == k.generation
    }

    /// The record that a handle refers to, if the handle is current.
    pub open spec fn lookup(self, k: EdgeKey) -> Option<Edge<T>> {
        if self.contains(k) {
            Some(self.records[k.idx])
        } else {
            None
        }
    }

    /// The handle that the next insertion issues: the most recently freed slot
    /// with its generation advanced, or else a fresh slot at generation 0.
    pub open spec fn next_key(self) -> EdgeKey {
        if self.free_pool.len() > 0 {
            let freed = self.free_pool.last();
            EdgeKey { idx: freed.idx, generation: (freed.generation + 1) as usize }
        } else {
            EdgeKey { idx: self.cursor as usize, generation: 0 }
        }
    }

    /// The next handle is representable: the cursor or the reused generation
    /// can still be advanced within `usize`.
    pub open spec fn has_room(self) -> bool {
        if self.free_pool.len() > 0 {
            self.free_pool.last().generation < usize::MAX
        } else {
            self.cursor < usize::MAX
        }
    }

    /// The state after the next handle is taken: the most recently freed slot
    /// leaves the free pool, or else the cursor advances.
    pub open spec fn advance(self) -> Self {
        if self.free_pool.len() > 0 {
            EdgeMapModel { free_pool: self.free_pool.drop_last(), ..self }
        } else {
            EdgeMapModel { cursor: self.cursor + 1, ..self }
        }
    }

    /// The state after inserting `e` under `self.next_key()`.
    pub open spec fn insert(self, e: Edge<T>) -> Self {
        let k = self.next_key();
        let a = self.advance();
        EdgeMapModel { keys: a.keys.insert(k.idx, k), records: a.records.insert(k.idx, e), ..a }
    }

    /// The state after removing the record of `k`; unchanged if `k` is not
    /// current.
    pub open spec fn remove(self, k: EdgeKey) -> Self {
        if self.contains(k) {
            EdgeMapModel {
                cursor: self.cursor,
                free_pool: self.free_pool.push(k),
                keys: self.keys.remove(k.idx),
                records: self.records.remove(k.idx),
            }
        } else {
            self
        }
    }
}

/// Generational arena owning the edge records.
#[derive(Debug)]
pub struct EdgeMap<T: NodeID> {
    cursor: usize,
    free_pool: Vec<EdgeKey>,
    keys: HashMap<usize, EdgeKey>,
    internal_map: HashMap<usize, Edge<T>>,
}

impl<T: NodeID> View for EdgeMap<T> {
    type V = EdgeMapModel<T>;

    closed spec fn view(&self) -> EdgeMapModel<T> {
        EdgeMapModel {
            cursor: self.cursor as nat,
            free_pool: self.free_pool@,
            keys: self.keys@,
            records: self.internal_map@,
        }
    }
}

impl<T: NodeID> Clone for EdgeMap<T> {
    fn clone(&self) -> (r: Self)
        ensures
            r@ == self@,
    {
        EdgeMap {
            cursor: self.cursor,
            free_pool: self.free_pool.clone(),
            keys: self.keys.clone(),
            internal_map: self.internal_map.clone(),
        }
    }
}

impl<T: NodeID> EdgeMap<T> {
    pub fn new() -> (r: EdgeMap<T>)
        ensures
            r@ == EdgeMapModel::<T>::empty(),
            r@.wf(),
    {
        EdgeMap { cursor: 0, free_pool: Vec::new(), keys: HashMap::new(), internal_map: HashMap::new() }
    }

    fn get_next_key(&mut self) -> (r: EdgeKey)
        requires
            old(self)@.wf(),
            old(self)@.has_room(),
        ensures
            r == old(self)@.next_key(),
            final(self)@ == old(self)@.advance(),
    {
        let next_id = self.free_pool.pop();
        match next_id {
            Some(free_key) => EdgeKey { idx: free_key.idx, generation: free_key.generation + 1 },
            None => {
                let idx = self.cursor;
                self.cursor = self.cursor + 1;
                EdgeKey { idx, generation: 0 }
            },
        }
    }

    /// Stores `edge` and returns its handle.
    pub fn insert(&mut self, edge: Edge<T>) -> (r: EdgeKey)
        requires
            old(self)@.wf(),
            old(self)@.has_room(),
        ensures
            r == old(self)@.next_key(),
            final(self)@ == old(self)@.insert(edge),
            final(self)@.wf(),
    {
        let key = self.get_next_key();
        self.internal_map.insert(key.idx, edge);
        self.keys.insert(key.idx, key);
        proof {
            lemma_insert(old(self)@, edge);
            assert(self@ == old(self)@.insert(edge));
        }
        key
    }

    /// Removes the record of `key` if `key` is current; a stale or unknown
    /// handle leaves the arena unchanged and gives `None`.
    pub fn remove(&mut self, key: &EdgeKey) -> (r: Option<Edge<T>>)
        requires
            old(self)@.wf(),
        ensures
            r == old(self)@.lookup(*key),
            final(self)@ == old(self)@.remove(*key),
            final(self)@.wf(),
    {
        match self.keys.get(&key.idx) {
            Some(found_key) => {
                if key.generation != found_key.generation {
                    return None;
                }
                self.free_pool.push(*key);
                self.keys.remove(&key.idx);
                let r = self.internal_map.remove(&key.idx);
                proof {
                    let m = old(self)@;
                    let n = self@;
                    assert(n.keys.dom() =~= n.records.dom());
                    assert forall|j: int| 0 <= j < n.free_pool.len() implies (#[trigger] n.free_pool[
                        j]).idx < n.cursor && !n.keys.contains_key(n.free_pool[j].idx) by {
                        if j < m.free_pool.len() {
                            assert(n.free_pool[j] == m.free_pool[j]);
                        }
                    }
                    assert forall|j: int, l: int|
                        0 <= j < l < n.free_pool.len() implies #[trigger] n.free_pool[j].idx
                        != #[trigger] n.free_pool[l].idx by {
                        assert(n.free_pool[j] == m.free_pool[j]);
                        if l < m.free_pool.len() {
                            assert(n.free_pool[l] == m.free_pool[l]);
                        }
                    }
                    assert(n == m.remove(*key));
                }
                r
            },
            None => None,
        }
    }

    /// The record of `key`, if `key` is current.
    pub fn get(&self, key: &EdgeKey) -> (r: Option<&Edge<T>>)
        requires
            self@.wf(),
        ensures
            r.is_some() == self@.contains(*key),
            r.is_some() ==> Some(*r.unwrap()) == self@.lookup(*key),
    {
        match self.keys.get(&key.idx) {
            Some(found_key) => {
                if key.generation != found_key.generation {
                    return None;
                }
                self.internal_map.get(&key.idx)
            },
            None => None,
        }
    }

    /// Whether `key` is current.
    pub fn has_key(&self, key: &EdgeKey) -> (r: bool)
        requires
            self@.wf(),
        ensures
            r == self@.contains(*key),
    {
        match self.keys.get(&key.idx) {
            Some(found_key) => key.generation == found_key.generation,
            None => false,
        }
    }
}

/// Inserting into a well-formed arena with room keeps it well-formed, makes
/// the issued handle current for the new record, and keeps every handle that
/// was current, with its record.
pub proof fn lemma_insert<T: NodeID>(m: EdgeMapModel<T>, e: Edge<T>)
    requires
        m.wf(),
        m.has_room(),
    ensures
        m.insert(e).wf(),
        !m.keys.contains_key(m.next_key().idx),
        m.insert(e).lookup(m.next_key()) == Some(e),
        forall|k: EdgeKey|
            #[trigger] m.contains(k) ==> k.idx != m.next_key().idx && m.insert(e).contains(k)
                && m.insert(e).records[k.idx] == m.records[k.idx],
{
    let n = m.insert(e);
    if m.free_pool.len() > 0 {
        assert(m.free_pool.last() == m.free_pool[m.free_pool.len() - 1]);
    }
    assert(n.keys.dom() =~= n.records.dom());
    assert forall|j: int, l: int|
        0 <= j < l < n.free_pool.len() implies #[trigger] n.free_pool[j].idx
        != #[trigger] n.free_pool[l].idx by {
        assert(n.free_pool[j] == m.free_pool[j]);
        assert(n.free_pool[l] == m.free_pool[l]);
    }
    assert forall|j: int| 0 <= j < n.free_pool.len() implies (#[trigger] n.free_pool[j]).idx
        < n.cursor && !n.keys.contains_key(n.free_pool[j].idx) by {
        assert(n.free_pool[j] == m.free_pool[j]);
    }
}

/// A removed handle stays rejected after its slot is reused: insert `e` under
/// `h`, remove `h`, then insert `e2` under `h2`. The second insertion reuses
/// the slot of `h`, and from then on `h` finds nothing while `h2` finds `e2`.
pub proof fn lemma_stale_handle_rejected<T: NodeID>(m: EdgeMapModel<T>, e: Edge<T>, e2: Edge<T>)
    requires
        m.wf(),
        m.has_room(),
        m.insert(e).remove(m.next_key()).has_room(),
    ensures
        ({
            let h = m.next_key();
            let m1 = m.insert(e).remove(h);
            let h2 = m1.next_key();
            let m2 = m1.insert(e2);
            &&& h2.idx == h.idx
            &&& m2.lookup(h) is None
            &&& m2.lookup(h2) == Some(e2)
        }),
{
    let h = m.next_key();
    let m1 = m.insert(e).remove(h);
    assert(m.insert(e).contains(h));
    assert(m1.free_pool.last() == h);
}

/// Freed slots are reused most recently freed first: after removing the
/// current handles `h1` and then `h2`, the next insertion reuses the slot of
/// `h2` and the one after it the slot of `h1`.
pub proof fn lemma_free_pool_lifo<T: NodeID>(
    m: EdgeMapModel<T>,
    h1: EdgeKey,
    h2: EdgeKey,
    e: Edge<T>,
)
    requires
        m.wf(),
        m.contains(h1),
        m.contains(h2),
        h1 != h2,
    ensures
        ({
            let m1 = m.remove(h1).remove(h2);
            &&& m1.next_key().idx == h2.idx
            &&& m1.insert(e).next_key().idx == h1.idx
        }),
{
    let m0 = m.remove(h1);
    assert(h1.idx != h2.idx);
    assert(m0.contains(h2));
    let m1 = m0.remove(h2);
    assert(m1.free_pool.last() == h2);
    assert(m1.free_pool.drop_last().last() == h1);
}

} // verus!
