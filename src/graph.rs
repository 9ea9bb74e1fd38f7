use vstd::prelude::*;

use crate::edge::{lemma_insert, Edge, EdgeKey, EdgeMap, EdgeMapModel, PathDirection};
use crate::traits::{Identifier, NodeID};

verus! {

/// The abstract state of a `Graph`: the arena of edge records, and one row
/// per identifier that has adjacency entries, in order of first use. Each
/// entry pairs a handle with the direction in which its record is read.
pub struct GraphModel<T: NodeID> {
    pub edges: EdgeMapModel<T>,
    pub rows: Seq<(T::ID_TYPE, Seq<(EdgeKey, PathDirection)>)>,
}

impl<T: NodeID> GraphModel<T> {
    /// The identifiers present in the adjacency index, in order of first use.
    pub open spec fn ids(self) -> Seq<T::ID_TYPE> {
        self.rows.map_values(|r: (T::ID_TYPE, Seq<(EdgeKey, PathDirection)>)| r.0)
    }

    pub open spec fn ids_distinct(self) -> bool {
        forall|i: int, j: int|
            0 <= i < j < self.rows.len() ==> #[trigger] self.rows[i].0 != #[trigger] self.rows[j].0
    }

    /// The row that holds `id`.
    pub open spec fn row_index(self, id: T::ID_TYPE) -> int {
        choose|i: int| 0 <= i < self.rows.len() && self.rows[i].0 == id
    }

    /// The adjacency entries of `id`, in insertion order; none for an
    /// identifier that is not in the index.
    pub open spec fn adjacency(self, id: T::ID_TYPE) -> Seq<(EdgeKey, PathDirection)> {
        if self.ids().contains(id) {
            self.rows[self.row_index(id)].1
        } else {
            Seq::empty()
        }
    }

    /// The identifier that an entry leads to.
    pub open spec fn resolve(self, en: (EdgeKey, PathDirection)) -> T::ID_TYPE {
        self.edges.records[en.0.idx].path(en.1).to
    }

    /// The identifiers adjacent to `id`, one per adjacency entry, in order.
    pub open spec fn neighbours(self, id: T::ID_TYPE) -> Seq<T::ID_TYPE> {
        self.adjacency(id).map_values(|en: (EdgeKey, PathDirection)| self.resolve(en))
    }

    /// The record of the `i`-th adjacency entry of `id`.
    pub open spec fn edge_at(self, id: T::ID_TYPE, i: int) -> Edge<T> {
        self.edges.records[self.adjacency(id)[i].0.idx]
    }

    /// `i` is the first position among the neighbours of `from` that holds `to`.
    pub open spec fn is_first_match(self, from: T::ID_TYPE, to: T::ID_TYPE, i: int) -> bool {
        &&& 0 <= i < self.neighbours(from).len()
        &&& self.neighbours(from)[i] == to
        &&& forall|j: int| 0 <= j < i ==> self.neighbours(from)[j] != to
    }

    /// An entry is current in the arena and its direction can be read.
    pub open spec fn entry_valid(self, en: (EdgeKey, PathDirection)) -> bool {
        self.edges.contains(en.0) && self.edges.records[en.0.idx].has_path(en.1)
    }

    /// The arena is well-formed, identifiers are unique, every identifier in
    /// the index has an entry, and every entry resolves.
    pub open spec fn wf(self) -> bool {
        &&& self.edges.wf()
        &&& self.ids_distinct()
        &&& forall|x: T::ID_TYPE| self.ids().contains(x) ==> #[trigger] self.adjacency(x).len() > 0
        &&& forall|x: T::ID_TYPE, j: int|
            0 <= j < self.adjacency(x).len() ==> self.entry_valid(#[trigger] self.adjacency(x)[j])
    }

    /// The state after appending `en` to the entries of `id`.
    pub open spec fn with_entry(self, id: T::ID_TYPE, en: (EdgeKey, PathDirection)) -> Self {
        if self.ids().contains(id) {
            let i = self.row_index(id);
            GraphModel { rows: self.rows.update(i, (id, self.rows[i].1.push(en))), ..self }
        } else {
            GraphModel { rows: self.rows.push((id, seq![en])), ..self }
        }
    }

    /// The state after adding an edge from `from` to `to`: the record goes
    /// into the arena, `from` gets a forward entry and, for a bidirectional
    /// edge, `to` gets a backward entry.
    pub open spec fn add_edge(self, from: T::ID_TYPE, to: T::ID_TYPE, bidi: bool) -> Self {
        let key = self.edges.next_key();
        let g = GraphModel {
            edges: self.edges.insert(Edge::spec_new(from, to, bidi)),
            ..self
        }.with_entry(from, (key, PathDirection::Forward));
        if bidi {
            g.with_entry(to, (key, PathDirection::Backward))
        } else {
            g
        }
    }
}

/// Locates the unique row of an identifier in the index.
pub proof fn lemma_row_index<T: NodeID>(g: GraphModel<T>, id: T::ID_TYPE)
    requires
        g.ids_distinct(),
        g.ids().contains(id),
    ensures
        0 <= g.row_index(id) < g.rows.len(),
        g.rows[g.row_index(id)].0 == id,
        forall|i: int| 0 <= i < g.rows.len() && g.rows[i].0 == id ==> i == g.row_index(id),
{
    let k = choose|k: int| 0 <= k < g.ids().len() && g.ids()[k] == id;
    assert(g.rows[k].0 == id);
    let r = g.row_index(id);
    assert forall|i: int| 0 <= i < g.rows.len() && g.rows[i].0 == id implies i == r by {
        if i < r {
            assert(g.rows[i].0 != g.rows[r].0);
        } else if r < i {
            assert(g.rows[r].0 != g.rows[i].0);
        }
    }
}

/// Appending an entry to `id` extends the entries of `id` alone, adds `id`
/// to the index if it was absent, and keeps identifiers unique.
pub proof fn lemma_with_entry<T: NodeID>(
    g: GraphModel<T>,
    id: T::ID_TYPE,
    en: (EdgeKey, PathDirection),
)
    requires
        g.ids_distinct(),
    ensures
        g.with_entry(id, en).edges == g.edges,
        g.with_entry(id, en).ids_distinct(),
        forall|x: T::ID_TYPE|
            #[trigger] g.with_entry(id, en).ids().contains(x) <==> g.ids().contains(x) || x == id,
        forall|x: T::ID_TYPE|
            #[trigger] g.with_entry(id, en).adjacency(x) == if x == id {
                g.adjacency(x).push(en)
            } else {
                g.adjacency(x)
            },
{
    let h = g.with_entry(id, en);
    if g.ids().contains(id) {
        lemma_row_index(g, id);
        let i = g.row_index(id);
        assert(h.ids() =~= g.ids());
        assert forall|a: int, b: int| 0 <= a < b < h.rows.len() implies #[trigger] h.rows[a].0
            != #[trigger] h.rows[b].0 by {
            assert(h.ids()[a] == h.rows[a].0);
            assert(h.ids()[b] == h.rows[b].0);
            assert(g.ids()[a] == g.rows[a].0);
            assert(g.ids()[b] == g.rows[b].0);
        }
        assert forall|x: T::ID_TYPE| #[trigger] h.adjacency(x) == if x == id {
            g.adjacency(x).push(en)
        } else {
            g.adjacency(x)
        } by {
            if g.ids().contains(x) {
                lemma_row_index(g, x);
                lemma_row_index(h, x);
                let ri = g.row_index(x);
                assert(h.rows[ri].0 == x);
            }
        }
    } else {
        let n = g.rows.len() as int;
        assert(h.ids() =~= g.ids().push(id));
        assert forall|x: T::ID_TYPE| #[trigger] h.ids().contains(x) <==> g.ids().contains(x)
            || x == id by {
            if g.ids().contains(x) {
                let k = choose|k: int| 0 <= k < g.ids().len() && g.ids()[k] == x;
                assert(h.ids()[k] == x);
            }
            if x == id {
                assert(h.ids()[n] == x);
            }
            if h.ids().contains(x) && x != id {
                let k = choose|k: int| 0 <= k < h.ids().len() && h.ids()[k] == x;
                assert(g.ids()[k] == x);
            }
        }
        assert forall|a: int, b: int| 0 <= a < b < h.rows.len() implies #[trigger] h.rows[a].0
            != #[trigger] h.rows[b].0 by {
            if b == n {
                assert(g.ids()[a] == g.rows[a].0);
            }
        }
        assert forall|x: T::ID_TYPE| #[trigger] h.adjacency(x) == if x == id {
            g.adjacency(x).push(en)
        } else {
            g.adjacency(x)
        } by {
            if x == id {
                assert(h.ids()[n] == id);
                lemma_row_index(h, x);
                assert(g.adjacency(x) =~= Seq::empty());
                assert(h.adjacency(x) =~= seq![en]);
            } else if g.ids().contains(x) {
                lemma_row_index(g, x);
                let ri = g.row_index(x);
                assert(h.ids()[ri] == x);
                lemma_row_index(h, x);
            } else {
                assert(!h.ids().contains(x));
            }
        }
    }
}

/// The entries that adding an edge with handle `k` appends for `x`.
pub open spec fn new_entries<T: NodeID>(
    x: T::ID_TYPE,
    from: T::ID_TYPE,
    to: T::ID_TYPE,
    bidi: bool,
    k: EdgeKey,
) -> Seq<(EdgeKey, PathDirection)> {
    (if x == from {
        seq![(k, PathDirection::Forward)]
    } else {
        Seq::empty()
    }) + (if bidi && x == to {
        seq![(k, PathDirection::Backward)]
    } else {
        Seq::empty()
    })
}

/// The neighbours that adding an edge appends for `x`.
pub open spec fn new_neighbours<T: NodeID>(
    x: T::ID_TYPE,
    from: T::ID_TYPE,
    to: T::ID_TYPE,
    bidi: bool,
) -> Seq<T::ID_TYPE> {
    (if x == from {
        seq![to]
    } else {
        Seq::empty()
    }) + (if bidi && x == to {
        seq![from]
    } else {
        Seq::empty()
    })
}

/// Adding an edge keeps the graph well-formed. The index gains `from`, and
/// `to` for a bidirectional edge. `from` gains a forward entry leading to
/// `to`, then, for a bidirectional edge, `to` gains a backward entry leading
/// to `from`; the entries of every other identifier stay as they were.
pub proof fn lemma_add_edge<T: NodeID>(
    g: GraphModel<T>,
    from: T::ID_TYPE,
    to: T::ID_TYPE,
    bidi: bool,
)
    requires
        g.wf(),
        g.edges.has_room(),
    ensures
        g.add_edge(from, to, bidi).wf(),
        g.add_edge(from, to, bidi).edges == g.edges.insert(Edge::spec_new(from, to, bidi)),
        forall|x: T::ID_TYPE|
            #[trigger] g.add_edge(from, to, bidi).ids().contains(x) <==> g.ids().contains(x) || x
                == from || (bidi && x == to),
        forall|x: T::ID_TYPE|
            #[trigger] g.add_edge(from, to, bidi).adjacency(x) == g.adjacency(x) + new_entries::<T>(
                x,
                from,
                to,
                bidi,
                g.edges.next_key(),
            ),
        forall|x: T::ID_TYPE|
            #[trigger] g.add_edge(from, to, bidi).neighbours(x) == g.neighbours(x)
                + new_neighbours::<T>(x, from, to, bidi),
{
    let e = Edge::<T>::spec_new(from, to, bidi);
    let k = g.edges.next_key();
    lemma_insert(g.edges, e);
    let g1 = GraphModel { edges: g.edges.insert(e), ..g };
    assert(g1.ids() == g.ids());
    assert forall|x: T::ID_TYPE| #[trigger] g1.adjacency(x) == g.adjacency(x) by {}
    lemma_with_entry(g1, from, (k, PathDirection::Forward));
    let g2 = g1.with_entry(from, (k, PathDirection::Forward));
    if bidi {
        lemma_with_entry(g2, to, (k, PathDirection::Backward));
    }
    let h = g.add_edge(from, to, bidi);
    assert forall|x: T::ID_TYPE| #[trigger] h.adjacency(x) == g.adjacency(x) + new_entries::<T>(
        x,
        from,
        to,
        bidi,
        k,
    ) by {
        assert(h.adjacency(x) =~= g.adjacency(x) + new_entries::<T>(x, from, to, bidi, k));
    }
    assert forall|x: T::ID_TYPE, j: int|
        0 <= j < h.adjacency(x).len() implies h.entry_valid(#[trigger] h.adjacency(x)[j])
        && h.resolve(h.adjacency(x)[j]) == (g.neighbours(x) + new_neighbours::<T>(
        x,
        from,
        to,
        bidi,
    ))[j] by {
        let old_len = g.adjacency(x).len();
        assert(h.adjacency(x) == g.adjacency(x) + new_entries::<T>(x, from, to, bidi, k));
        if j < old_len {
            let en = g.adjacency(x)[j];
            assert(g.entry_valid(en));
            assert(g.edges.contains(en.0));
        } else {
            assert(h.edges.lookup(k) == Some(e));
        }
    }
    assert forall|x: T::ID_TYPE| #[trigger] h.neighbours(x) == g.neighbours(x) + new_neighbours::<
        T,
    >(x, from, to, bidi) by {
        assert(h.adjacency(x) == g.adjacency(x) + new_entries::<T>(x, from, to, bidi, k));
        assert forall|j: int| 0 <= j < h.neighbours(x).len() implies h.neighbours(x)[j] == (
        g.neighbours(x) + new_neighbours::<T>(x, from, to, bidi))[j] by {
            assert(h.resolve(h.adjacency(x)[j]) == (g.neighbours(x) + new_neighbours::<T>(
                x,
                from,
                to,
                bidi,
            ))[j]);
        }
        assert(h.neighbours(x) =~= g.neighbours(x) + new_neighbours::<T>(x, from, to, bidi));
    }
    assert forall|x: T::ID_TYPE| h.ids().contains(x) implies #[trigger] h.adjacency(x).len()
        > 0 by {
        assert(h.adjacency(x) == g.adjacency(x) + new_entries::<T>(x, from, to, bidi, k));
        if g.ids().contains(x) {
            assert(g.adjacency(x).len() > 0);
        }
    }
}

/// A bidirectional edge between `a` and `b` makes each a neighbour of the
/// other. A directed edge from `a` to `b` makes `b` a neighbour of `a` and,
/// when `b` differs from `a`, leaves the neighbours of `b` as they were.
pub proof fn lemma_edge_symmetry<T: NodeID>(g: GraphModel<T>, a: T::ID_TYPE, b: T::ID_TYPE)
    requires
        g.wf(),
        g.edges.has_room(),
    ensures
        g.add_edge(a, b, true).neighbours(a).contains(b),
        g.add_edge(a, b, true).neighbours(b).contains(a),
        g.add_edge(a, b, false).neighbours(a).contains(b),
        a != b ==> g.add_edge(a, b, false).neighbours(b) == g.neighbours(b),
{
    lemma_add_edge(g, a, b, true);
    lemma_add_edge(g, a, b, false);
    let n = g.neighbours(a).len() as int;
    let m = g.neighbours(b).len() as int;
    let hb = g.add_edge(a, b, true);
    let hd = g.add_edge(a, b, false);
    assert(hb.neighbours(a)[n] == b);
    assert(hd.neighbours(a)[n] == b);
    if a == b {
        assert(hb.neighbours(b)[n] == a);
    } else {
        assert(hb.neighbours(b)[m] == a);
        assert(hd.neighbours(b) =~= g.neighbours(b));
    }
}

/// An identifier that is not in the adjacency index has no neighbours.
pub proof fn lemma_unknown_id_has_no_neighbours<T: NodeID>(g: GraphModel<T>, id: T::ID_TYPE)
    requires
        !g.ids().contains(id),
    ensures
        g.neighbours(id) == Seq::<T::ID_TYPE>::empty(),
{
    assert(g.neighbours(id) =~= Seq::<T::ID_TYPE>::empty());
}

/// A graph over identifiers of `T`: edge records in a generational arena,
/// and an adjacency index from identifier to (handle, direction) entries.
#[derive(Debug)]
pub struct Graph<T: NodeID> {
    edges: EdgeMap<T>,
    adjacencies: Vec<(T::ID_TYPE, Vec<(EdgeKey, PathDirection)>)>,
}

impl<T: NodeID> View for Graph<T> {
    type V = GraphModel<T>;

    closed spec fn view(&self) -> GraphModel<T> {
        GraphModel {
            edges: self.edges@,
            rows: self.adjacencies@.map_values(
                |r: (T::ID_TYPE, Vec<(EdgeKey, PathDirection)>)| (r.0, r.1@),
            ),
        }
    }
}

impl<T: NodeID> Graph<T> {
    pub fn new() -> (r: Graph<T>)
        ensures
            r@.wf(),
            r@.edges == EdgeMapModel::<T>::empty(),
            r@.rows == Seq::<(T::ID_TYPE, Seq<(EdgeKey, PathDirection)>)>::empty(),
    {
        let r = Graph { edges: EdgeMap::new(), adjacencies: Vec::new() };
        assert(r@.rows =~= Seq::empty());
        r
    }

    /// The position of the row of `id`, if `id` is in the index.
    fn find_row(&self, id: &T::ID_TYPE) -> (r: Option<usize>)
        ensures
            match r {
                Some(i) => i < self@.rows.len() && self@.rows[i as int].0 == *id
                    && self@.ids().contains(*id),
                None => !self@.ids().contains(*id),
            },
    {
        let mut i: usize = 0;
        while i < self.adjacencies.len()
            invariant
                i <= self.adjacencies.len(),
                forall|j: int| 0 <= j < i ==> self@.rows[j].0 != *id,
            decreases self.adjacencies.len() - i,
        {
            if self.adjacencies[i].0.id_eq(id) {
                assert(self@.ids()[i as int] == *id);
                return Some(i);
            }
            i = i + 1;
        }
        assert forall|k: int| 0 <= k < self@.ids().len() implies self@.ids()[k] != *id by {
            assert(self@.rows[k].0 != *id);
        }
        None
    }

    fn add_entry(&mut self, id: T::ID_TYPE, en: (EdgeKey, PathDirection))
        requires
            old(self)@.ids_distinct(),
        ensures
            final(self)@ == old(self)@.with_entry(id, en),
            final(self)@.ids_distinct(),
    {
        proof {
            lemma_with_entry(old(self)@, id, en);
        }
        match self.find_row(&id) {
            Some(i) => {
                proof {
                    lemma_row_index(old(self)@, id);
                }
                self.adjacencies[i].1.push(en);
                assert(self@.rows =~= old(self)@.with_entry(id, en).rows);
            },
            None => {
                let mut entries = Vec::new();
                entries.push(en);
                self.adjacencies.push((id, entries));
                assert(self@.rows =~= old(self)@.with_entry(id, en).rows);
            },
        }
    }

    fn add_edge_base(&mut self, from: T::ID_TYPE, to: T::ID_TYPE, bidi: bool) -> (r: EdgeKey)
        requires
            old(self)@.wf(),
            old(self)@.edges.has_room(),
        ensures
            r == old(self)@.edges.next_key(),
            final(self)@ == old(self)@.add_edge(from, to, bidi),
            final(self)@.wf(),
    {
        let ghost g = self@;
        let ghost f = from;
        let ghost t = to;
        let key = self.edges.insert(Edge::new(from.id_clone(), to.id_clone(), bidi));
        assert(self@ == GraphModel { edges: g.edges.insert(Edge::spec_new(f, t, bidi)), ..g });
        self.add_entry(from, (key, PathDirection::Forward));
        if bidi {
            self.add_entry(to, (key, PathDirection::Backward));
        }
        proof {
            lemma_add_edge(g, f, t, bidi);
        }
        key
    }

    /// Adds a directed edge from `from` to `to`: a record in the arena and a
    /// forward entry for `from`. Returns the record's handle.
    pub fn add_edge(&mut self, from: T::ID_TYPE, to: T::ID_TYPE) -> (r: EdgeKey)
        requires
            old(self)@.wf(),
            old(self)@.edges.has_room(),
        ensures
            r == old(self)@.edges.next_key(),
            final(self)@ == old(self)@.add_edge(from, to, false),
            final(self)@.wf(),
    {
        self.add_edge_base(from, to, false)
    }

    /// Adds a bidirectional edge between `from` and `to`: one record holding
    /// both paths, a forward entry for `from` and a backward entry for `to`.
    /// Returns the record's handle.
    pub fn add_edge_bidi(&mut self, from: T::ID_TYPE, to: T::ID_TYPE) -> (r: EdgeKey)
        requires
            old(self)@.wf(),
            old(self)@.edges.has_room(),
        ensures
            r == old(self)@.edges.next_key(),
            final(self)@ == old(self)@.add_edge(from, to, true),
            final(self)@.wf(),
    {
        self.add_edge_base(from, to, true)
    }

    /// The number of identifiers with at least one adjacency entry.
    pub fn length(&self) -> (r: usize)
        ensures
            r == self@.ids().len(),
    {
        self.adjacencies.len()
    }

    /// The identifiers in the adjacency index, in order of first use.
    pub fn vertices(&self) -> (r: Vec<&T::ID_TYPE>)
        ensures
            r@.len() == self@.ids().len(),
            forall|i: int| 0 <= i < r@.len() ==> *r@[i] == self@.ids()[i],
    {
        let mut out: Vec<&T::ID_TYPE> = Vec::new();
        let mut i: usize = 0;
        while i < self.adjacencies.len()
            invariant
                i <= self.adjacencies.len(),
                out@.len() == i,
                forall|j: int| 0 <= j < i ==> *out@[j] == self@.ids()[j],
            decreases self.adjacencies.len() - i,
        {
            out.push(&self.adjacencies[i].0);
            i = i + 1;
        }
        out
    }

    /// The identifiers adjacent to `id`, one per adjacency entry, in order;
    /// empty for an identifier that no edge uses.
    pub fn get_adjacent(&self, id: &T::ID_TYPE) -> (r: Vec<&T::ID_TYPE>)
        requires
            self@.wf(),
        ensures
            r@.len() == self@.neighbours(*id).len(),
            forall|i: int| 0 <= i < r@.len() ==> *r@[i] == self@.neighbours(*id)[i],
    {
        match self.find_row(id) {
            Some(i) => {
                proof {
                    lemma_row_index(self@, *id);
                }
                let adjacencies = &self.adjacencies[i].1;
                assert(adjacencies@ == self@.adjacency(*id));
                let mut paths: Vec<&T::ID_TYPE> = Vec::new();
                let mut j: usize = 0;
                while j < adjacencies.len()
                    invariant
                        self@.wf(),
                        adjacencies@ == self@.adjacency(*id),
                        j <= adjacencies.len(),
                        paths@.len() == j,
                        forall|k: int| 0 <= k < j ==> *paths@[k] == self@.neighbours(*id)[k],
                    decreases adjacencies.len() - j,
                {
                    let entry = &adjacencies[j];
                    assert(self@.entry_valid(self@.adjacency(*id)[j as int]));
                    let edge = self.edges.get(&entry.0).unwrap();
                    paths.push(edge.get_connected_id(&entry.1));
                    j = j + 1;
                }
                paths
            },
            None => Vec::new(),
        }
    }

    /// The record of the first adjacency entry of `from` that leads to `to`.
    pub fn get_edge(&self, from: &T::ID_TYPE, to: &T::ID_TYPE) -> (r: Option<&Edge<T>>)
        requires
            self@.wf(),
        ensures
            match r {
                Some(e) => exists|i: int|
                    self@.is_first_match(*from, *to, i) && *e == self@.edge_at(*from, i),
                None => !self@.neighbours(*from).contains(*to),
            },
    {
        match self.find_row(from) {
            Some(i) => {
                proof {
                    lemma_row_index(self@, *from);
                }
                let adjacencies = &self.adjacencies[i].1;
                assert(adjacencies@ == self@.adjacency(*from));
                let mut j: usize = 0;
                while j < adjacencies.len()
                    invariant
                        self@.wf(),
                        adjacencies@ == self@.adjacency(*from),
                        j <= adjacencies.len(),
                        forall|k: int| 0 <= k < j ==> self@.neighbours(*from)[k] != *to,
                    decreases adjacencies.len() - j,
                {
                    let entry = &adjacencies[j];
                    assert(self@.entry_valid(self@.adjacency(*from)[j as int]));
                    let edge = self.edges.get(&entry.0).unwrap();
                    let path = edge.get_path(&entry.1);
                    if path.to.id_eq(to) {
                        assert(self@.neighbours(*from)[j as int] == *to);
                        assert(self@.is_first_match(*from, *to, j as int));
                        assert(*edge == self@.edge_at(*from, j as int));
                        return Some(edge);
                    }
                    j = j + 1;
                }
                None
            },
            None => None,
        }
    }
}

} // verus!
