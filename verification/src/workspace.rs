pub mod accessor;
pub mod decode;
pub mod editor;
pub mod encode;

use vstd::prelude::*;

use crate::definitions::atom::Atom;
use crate::definitions::bond::Bond;

verus! {

/// A stable identifier of a node. Identifiers stay valid across removals of
/// other nodes: removal leaves a tombstone, slots are never reused.
#[derive(Debug, Clone, Copy, PartialEq, Eq, Structural, Hash)]
pub struct NodeIndex {
    pub index: usize,
}

/// A stable identifier of an edge, under the same regime as `NodeIndex`.
#[derive(Debug, Clone, Copy, PartialEq, Eq, Structural, Hash)]
pub struct EdgeIndex {
    pub index: usize,
}

/// A directed edge of the graph: source and target slots, and the bond on it.
#[derive(Debug, Clone, Copy, PartialEq, Eq, Structural)]
pub struct Edge {
    pub source: usize,
    pub target: usize,
    pub bond: Bond,
}

/// A workspace owns a directed graph of atoms and bonds. Nodes and edges sit
/// in dense vectors; a removed entry becomes `None` and its slot is never
/// written again, so indices are stable for the workspace's whole life.
#[derive(Debug)]
pub struct Workspace {
    pub nodes: Vec<Option<Atom>>,
    pub edges: Vec<Option<Edge>>,
}

/// How many live entries the first `n` slots hold.
pub open spec fn count_live<T>(s: Seq<Option<T>>, n: int) -> int
    decreases n,
{
    if n <= 0 {
        0
    } else {
        count_live(s, n - 1) + if 0 <= n - 1 < s.len() && s[n - 1] is Some {
            1int
        } else {
            0int
        }
    }
}

/// How many live ring edges the first `n` slots hold.
pub open spec fn count_ring(s: Seq<Option<Edge>>, n: int) -> int
    decreases n,
{
    if n <= 0 {
        0
    } else {
        count_ring(s, n - 1) + if 0 <= n - 1 < s.len() && s[n - 1] is Some && s[
            n - 1
        ]->Some_0.bond.ring {
            1int
        } else {
            0int
        }
    }
}

/// Two slot rows that agree up to `n`, liveness and ring mark alike, hold the
/// same number of ring edges.
pub proof fn lemma_count_ring_agree(s1: Seq<Option<Edge>>, s2: Seq<Option<Edge>>, n: int)
    requires
        n <= s1.len(),
        n <= s2.len(),
        forall|i: int|
            0 <= i < n ==> (((#[trigger] s1[i]) is Some <==> s2[i] is Some) && (s1[i] is Some
                ==> (s1[i]->Some_0.bond.ring <==> s2[i]->Some_0.bond.ring))),
    ensures
        count_ring(s1, n) == count_ring(s2, n),
    decreases n,
{
    if n > 0 {
        lemma_count_ring_agree(s1, s2, n - 1);
    }
}

impl Workspace {
    /// Does `i` name a live node?
    pub open spec fn valid_node(self, i: int) -> bool {
        0 <= i < self.nodes@.len() && self.nodes@[i] is Some
    }

    /// The atom in slot `i`.
    pub open spec fn atom_at(self, i: int) -> Atom {
        self.nodes@[i]->0
    }

    /// Does `e` name a live edge?
    pub open spec fn valid_edge(self, e: int) -> bool {
        0 <= e < self.edges@.len() && self.edges@[e] is Some
    }

    /// The edge in slot `e`.
    pub open spec fn edge_at(self, e: int) -> Edge {
        self.edges@[e]->0
    }

    /// Every live edge joins two live nodes.
    pub open spec fn wf(self) -> bool {
        forall|e: int|
            self.valid_edge(e) ==> self.valid_node(#[trigger] self.edge_at(e).source as int)
                && self.valid_node(self.edge_at(e).target as int)
    }

    /// Does some live non-ring edge come into node `i`?
    pub open spec fn has_tree_incoming(self, i: int) -> bool {
        exists|e: int|
            self.valid_edge(e) && (#[trigger] self.edge_at(e)).target == i && !self.edge_at(
                e,
            ).bond.ring
    }

    /// A structure root: a live node that no non-ring edge comes into.
    pub open spec fn is_root(self, i: int) -> bool {
        self.valid_node(i) && !self.has_tree_incoming(i)
    }

    /// The non-ring edges form a forest: no node is the target of two of them.
    pub open spec fn forest_in(self) -> bool {
        forall|e1: int, e2: int|
            #![trigger self.edge_at(e1), self.edge_at(e2)]
            self.valid_edge(e1) && self.valid_edge(e2) && !self.edge_at(e1).bond.ring
                && !self.edge_at(e2).bond.ring && self.edge_at(e1).target == self.edge_at(
                e2,
            ).target ==> e1 == e2
    }

    pub open spec fn spec_node_count(self) -> int {
        count_live(self.nodes@, self.nodes@.len() as int)
    }

    pub open spec fn spec_edge_count(self) -> int {
        count_live(self.edges@, self.edges@.len() as int)
    }

    /// How many live edges carry the ring mark.
    pub open spec fn spec_ring_edge_count(self) -> int {
        count_ring(self.edges@, self.edges@.len() as int)
    }

    /// An empty workspace.
    pub fn new() -> (r: Self)
        ensures
            r.nodes@ == Seq::<Option<Atom>>::empty(),
            r.edges@ == Seq::<Option<Edge>>::empty(),
            r.wf(),
    {
        Workspace { nodes: Vec::new(), edges: Vec::new() }
    }

    /// The atom a node id names, if the node is live.
    pub fn get_atom(&self, index: NodeIndex) -> (r: Option<&Atom>)
        ensures
            match r {
                Some(a) => self.valid_node(index.index as int) && *a == self.atom_at(
                    index.index as int,
                ),
                None => !self.valid_node(index.index as int),
            },
    {
        if index.index < self.nodes.len() {
            match &self.nodes[index.index] {
                Some(a) => Some(a),
                None => None,
            }
        } else {
            None
        }
    }

    /// Replace the atom a live node holds.
    #[verifier::spinoff_prover]
    pub fn set_atom(&mut self, index: NodeIndex, atom: Atom) -> (r: bool)
        ensures
            r == old(self).valid_node(index.index as int),
            r ==> final(self).nodes@ == old(self).nodes@.update(index.index as int, Some(atom)),
            !r ==> final(self).nodes@ == old(self).nodes@,
            final(self).edges@ == old(self).edges@,
            old(self).wf() ==> final(self).wf(),
    {
        if index.index < self.nodes.len() && self.nodes[index.index].is_some() {
            let slot = &mut self.nodes[index.index];
            *slot = Some(atom);
            proof {
                assert(self.nodes@ == old(self).nodes@.update(index.index as int, Some(atom)));
                if old(self).wf() {
                    assert forall|e: int| self.valid_edge(e) implies self.valid_node(
                        self.edge_at(e).source as int,
                    ) && self.valid_node(self.edge_at(e).target as int) by {
                        assert(old(self).valid_edge(e));
                        assert(self.edge_at(e) == old(self).edge_at(e));
                        assert(old(self).valid_node(old(self).edge_at(e).source as int));
                        assert(old(self).valid_node(old(self).edge_at(e).target as int));
                        let src = old(self).edge_at(e).source as int;
                        let tgt = old(self).edge_at(e).target as int;
                        assert(self.nodes@[src] is Some);
                        assert(self.nodes@[tgt] is Some);
                    }
                    assert(self.wf());
                }
            }
            true
        } else {
            false
        }
    }

    /// A mutable borrow of the atom a live node holds; writing through it
    /// updates that node alone.
    pub fn get_atom_mut(&mut self, index: NodeIndex) -> (r: Option<&mut Atom>)
        ensures
            match r {
                Some(a) => old(self).valid_node(index.index as int) && *a == old(self).atom_at(
                    index.index as int,
                ) && final(self).nodes@ == old(self).nodes@.update(
                    index.index as int,
                    Some(*final(a)),
                ) && final(self).edges@ == old(self).edges@,
                None => !old(self).valid_node(index.index as int) && final(self).nodes@ == old(
                    self,
                ).nodes@ && final(self).edges@ == old(self).edges@,
            },
    {
        if index.index < self.nodes.len() {
            match &mut self.nodes[index.index] {
                Some(a) => Some(a),
                None => None,
            }
        } else {
            None
        }
    }

    /// Add a node; its id is the next slot, and nothing else changes.
    #[verifier::spinoff_prover]
    pub fn add_node(&mut self, atom: Atom) -> (r: NodeIndex)
        ensures
            r.index == old(self).nodes@.len(),
            final(self).nodes@ == old(self).nodes@.push(Some(atom)),
            final(self).edges@ == old(self).edges@,
            old(self).wf() ==> final(self).wf(),
    {
        let idx = self.nodes.len();
        self.nodes.push(Some(atom));
        proof {
            assert(self.nodes@ == old(self).nodes@.push(Some(atom)));
            if old(self).wf() {
                assert forall|e: int| self.valid_edge(e) implies self.valid_node(
                    self.edge_at(e).source as int,
                ) && self.valid_node(self.edge_at(e).target as int) by {
                    assert(old(self).valid_edge(e));
                    assert(self.edge_at(e) == old(self).edge_at(e));
                    assert(old(self).valid_node(old(self).edge_at(e).source as int));
                    assert(old(self).valid_node(old(self).edge_at(e).target as int));
                    let src = old(self).edge_at(e).source as int;
                    let tgt = old(self).edge_at(e).target as int;
                    assert(self.nodes@[src] == old(self).nodes@[src]);
                    assert(self.nodes@[tgt] == old(self).nodes@[tgt]);
                }
                assert(self.wf());
            }
        }
        NodeIndex { index: idx }
    }

    /// Add an edge between two live nodes; its id is the next slot.
    #[verifier::spinoff_prover]
    pub fn add_edge(&mut self, from: NodeIndex, to: NodeIndex, bond: Bond) -> (r: EdgeIndex)
        requires
            old(self).valid_node(from.index as int),
            old(self).valid_node(to.index as int),
        ensures
            r.index == old(self).edges@.len(),
            final(self).edges@ == old(self).edges@.push(
                Some(Edge { source: from.index, target: to.index, bond }),
            ),
            final(self).nodes@ == old(self).nodes@,
            old(self).wf() ==> final(self).wf(),
    {
        let idx = self.edges.len();
        self.edges.push(Some(Edge { source: from.index, target: to.index, bond }));
        proof {
            assert(self.edges@ == old(self).edges@.push(
                Some(Edge { source: from.index, target: to.index, bond }),
            ));
            if old(self).wf() {
                assert forall|e: int| self.valid_edge(e) implies self.valid_node(
                    self.edge_at(e).source as int,
                ) && self.valid_node(self.edge_at(e).target as int) by {
                    if e < old(self).edges@.len() {
                        assert(old(self).valid_edge(e));
                        assert(self.edge_at(e) == old(self).edge_at(e));
                        assert(old(self).valid_node(old(self).edge_at(e).source as int));
                        assert(old(self).valid_node(old(self).edge_at(e).target as int));
                    } else {
                        assert(e == old(self).edges@.len());
                        assert(self.edges@[e] == Some(
                            Edge { source: from.index, target: to.index, bond },
                        ));
                        assert(self.edge_at(e).source == from.index);
                        assert(self.edge_at(e).target == to.index);
                        assert(self.valid_node(from.index as int));
                        assert(self.valid_node(to.index as int));
                    }
                }
                assert(self.wf());
            }
        }
        EdgeIndex { index: idx }
    }

    /// The first live edge from `from` to `to`, with its bond.
    pub fn get_edge(&self, atom_from: NodeIndex, atom_to: NodeIndex) -> (r: Option<(&Bond, EdgeIndex)>)
        ensures
            match r {
                Some((b, e)) => self.valid_edge(e.index as int) && self.edge_at(e.index as int)
                    == (Edge { source: atom_from.index, target: atom_to.index, bond: *b }),
                None => forall|e: int|
                    self.valid_edge(e) ==> !((#[trigger] self.edge_at(e)).source == atom_from.index
                        && self.edge_at(e).target == atom_to.index),
            },
    {
        let mut e: usize = 0;
        while e < self.edges.len()
            invariant
                e <= self.edges@.len(),
                forall|k: int|
                    0 <= k < e && self.valid_edge(k) ==> !((#[trigger] self.edge_at(k)).source
                        == atom_from.index && self.edge_at(k).target == atom_to.index),
            decreases self.edges@.len() - e,
        {
            match &self.edges[e] {
                Some(edge) => {
                    if edge.source == atom_from.index && edge.target == atom_to.index {
                        return Some((&edge.bond, EdgeIndex { index: e }));
                    }
                },
                None => {},
            }
            e = e + 1;
        }
        None
    }

    /// The first live edge between the two nodes in either direction; the flag
    /// says whether it runs `atom_a -> atom_b`.
    pub fn get_edge_undirected(&self, atom_a: NodeIndex, atom_b: NodeIndex) -> (r: Option<
        (&Bond, EdgeIndex, bool),
    >)
        ensures
            match r {
                Some((b, e, fwd)) => self.valid_edge(e.index as int) && self.edge_at(e.index as int)
                    == (if fwd {
                    Edge { source: atom_a.index, target: atom_b.index, bond: *b }
                } else {
                    Edge { source: atom_b.index, target: atom_a.index, bond: *b }
                }),
                None => forall|e: int|
                    self.valid_edge(e) ==> !(((#[trigger] self.edge_at(e)).source == atom_a.index
                        && self.edge_at(e).target == atom_b.index) || (self.edge_at(e).source
                        == atom_b.index && self.edge_at(e).target == atom_a.index)),
            },
    {
        let mut e: usize = 0;
        while e < self.edges.len()
            invariant
                e <= self.edges@.len(),
                forall|k: int|
                    0 <= k < e && self.valid_edge(k) ==> !(((#[trigger] self.edge_at(k)).source
                        == atom_a.index && self.edge_at(k).target == atom_b.index) || (self.edge_at(
                        k,
                    ).source == atom_b.index && self.edge_at(k).target == atom_a.index)),
            decreases self.edges@.len() - e,
        {
            match &self.edges[e] {
                Some(edge) => {
                    if edge.source == atom_a.index && edge.target == atom_b.index {
                        return Some((&edge.bond, EdgeIndex { index: e }, true));
                    }
                    if edge.source == atom_b.index && edge.target == atom_a.index {
                        return Some((&edge.bond, EdgeIndex { index: e }, false));
                    }
                },
                None => {},
            }
            e = e + 1;
        }
        None
    }

    /// A mutable borrow of the bond on the first live edge from `atom_from`
    /// to `atom_to`; writing through it updates that edge's bond alone.
    pub fn get_edge_mut(&mut self, atom_from: NodeIndex, atom_to: NodeIndex) -> (r: Option<
        (&mut Bond, EdgeIndex),
    >)
        ensures
            match r {
                Some((b, e)) => old(self).valid_edge(e.index as int) && old(self).edge_at(
                    e.index as int,
                ) == (Edge {
                    source: atom_from.index,
                    target: atom_to.index,
                    bond: *b,
                }) && final(self).edges@ == old(self).edges@.update(
                    e.index as int,
                    Some(
                        Edge {
                            source: atom_from.index,
                            target: atom_to.index,
                            bond: *final(b),
                        },
                    ),
                ) && final(self).nodes@ == old(self).nodes@,
                None => final(self).nodes@ == old(self).nodes@ && final(self).edges@ == old(
                    self,
                ).edges@ && (forall|e: int|
                    old(self).valid_edge(e) ==> !((#[trigger] old(self).edge_at(e)).source
                        == atom_from.index && old(self).edge_at(e).target == atom_to.index)),
            },
    {
        let found = match self.get_edge(atom_from, atom_to) {
            Some((_, e)) => Some(e),
            None => None,
        };
        match found {
            Some(e) => {
                match &mut self.edges[e.index] {
                    Some(edge) => {
                        proof {
                            assert(edge.source == atom_from.index && edge.target == atom_to.index);
                        }
                        Some((&mut edge.bond, e))
                    },
                    None => {
                        proof {
                            assert(false);
                        }
                        None
                    },
                }
            },
            None => None,
        }
    }

    /// How many live nodes the workspace holds.
    pub fn node_count(&self) -> (r: usize)
        ensures
            r as int == self.spec_node_count(),
    {
        let mut n: usize = 0;
        let mut i: usize = 0;
        while i < self.nodes.len()
            invariant
                i <= self.nodes@.len(),
                n as int == count_live(self.nodes@, i as int),
                n <= i,
            decreases self.nodes@.len() - i,
        {
            if self.nodes[i].is_some() {
                n = n + 1;
            }
            i = i + 1;
        }
        n
    }

    /// How many live edges the workspace holds.
    pub fn edge_count(&self) -> (r: usize)
        ensures
            r as int == self.spec_edge_count(),
    {
        let mut n: usize = 0;
        let mut i: usize = 0;
        while i < self.edges.len()
            invariant
                i <= self.edges@.len(),
                n as int == count_live(self.edges@, i as int),
                n <= i,
            decreases self.edges@.len() - i,
        {
            if self.edges[i].is_some() {
                n = n + 1;
            }
            i = i + 1;
        }
        n
    }

    /// How many live edges carry the ring mark.
    pub fn ring_edge_count(&self) -> (r: usize)
        ensures
            r as int == self.spec_ring_edge_count(),
    {
        let mut n: usize = 0;
        let mut i: usize = 0;
        while i < self.edges.len()
            invariant
                i <= self.edges@.len(),
                n as int == count_ring(self.edges@, i as int),
                n <= i,
            decreases self.edges@.len() - i,
        {
            match &self.edges[i] {
                Some(edge) => {
                    if edge.bond.ring {
                        n = n + 1;
                    }
                },
                None => {},
            }
            i = i + 1;
        }
        n
    }

    /// Does some live non-ring edge come into node `i`?
    pub fn has_tree_incoming_at(&self, i: usize) -> (r: bool)
        ensures
            r == self.has_tree_incoming(i as int),
    {
        let mut e: usize = 0;
        while e < self.edges.len()
            invariant
                e <= self.edges@.len(),
                forall|k: int|
                    0 <= k < e && self.valid_edge(k) ==> !((#[trigger] self.edge_at(k)).target
                        == i && !self.edge_at(k).bond.ring),
            decreases self.edges@.len() - e,
        {
            match &self.edges[e] {
                Some(edge) => {
                    if edge.target == i && !edge.bond.ring {
                        proof {
                            assert(self.valid_edge(e as int) && self.edge_at(e as int).target
                                == i as int && !self.edge_at(e as int).bond.ring);
                        }
                        return true;
                    }
                },
                None => {},
            }
            e = e + 1;
        }
        false
    }
}

} // verus!
