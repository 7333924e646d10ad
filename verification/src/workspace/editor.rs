use vstd::prelude::*;

use crate::definitions::atom::{Atom, AtomV};
use crate::definitions::bond::{Bond, BondType};
use crate::definitions::element::Element;
use crate::workspace::{
    count_ring, lemma_count_ring_agree, Edge, EdgeIndex, NodeIndex, Workspace,
};

verus! {

/// The same edge run the other way, its bond's written direction reversed too.
pub open spec fn flip_edge(e: Edge) -> Edge {
    Edge { source: e.target, target: e.source, bond: e.bond.spec_reverse() }
}

/// How many live edges touch node `i` among the first `n` slots.
pub open spec fn count_incident(s: Seq<Option<Edge>>, i: int, n: int) -> int
    decreases n,
{
    if n <= 0 {
        0
    } else {
        count_incident(s, i, n - 1) + if 0 <= n - 1 < s.len() && (s[n - 1] matches Some(e) && (
        e.source == i || e.target == i)) {
            1int
        } else {
            0int
        }
    }
}

/// Rows that agree up to `n` touch a node equally often.
pub proof fn lemma_count_incident_agree(s1: Seq<Option<Edge>>, s2: Seq<Option<Edge>>, i: int, n: int)
    requires
        n <= s1.len(),
        n <= s2.len(),
        forall|k: int| 0 <= k < n ==> (#[trigger] s1[k]) == s2[k],
    ensures
        count_incident(s1, i, n) == count_incident(s2, i, n),
    decreases n,
{
    if n > 0 {
        lemma_count_incident_agree(s1, s2, i, n - 1);
    }
}

impl Workspace {
    /// The undirected degree of node `i`: how many live edges touch it.
    pub open spec fn spec_degree(self, i: int) -> int {
        count_incident(self.edges@, i, self.edges@.len() as int)
    }

    /// How many hydrogen atoms completion owes node `i`: the written explicit
    /// count if any, else what the element's default hydrogen count leaves
    /// after the charge, the neighbors and an aromatic seat are taken out.
    pub open spec fn spec_hydrogens_needed(self, i: int) -> int {
        let a = self.atom_at(i);
        if a.explicit_hydrogen > 0 {
            a.explicit_hydrogen as int
        } else if a.element.spec_default_hydrogen() == 0 {
            0
        } else {
            let need = a.element.spec_default_hydrogen() + a.charge as int - self.spec_degree(i) - (
            if a.aromatic {
                1int
            } else {
                0int
            });
            if need >= 0 {
                need
            } else {
                0
            }
        }
    }

    /// Node `i` carries no pending explicit hydrogen, and, where its element
    /// has a default hydrogen count, its degree fills the default valence
    /// adjusted by charge and aromaticity.
    pub open spec fn hydrogen_saturated(self, i: int) -> bool {
        let a = self.atom_at(i);
        &&& a.explicit_hydrogen == 0
        &&& (a.element.spec_default_hydrogen() > 0 ==> self.spec_degree(i) + (if a.aromatic {
            1int
        } else {
            0int
        }) == a.element.spec_default_hydrogen() + a.charge as int)
    }

    /// Connect two live atoms. The edge is marked as a ring bond exactly when
    /// both already sit in one structure.
    pub fn connect(
        &mut self,
        outgoing_from: NodeIndex,
        incoming_to: NodeIndex,
        bond_type: BondType,
    ) -> (r: EdgeIndex)
        requires
            old(self).wf(),
            old(self).valid_node(outgoing_from.index as int),
            old(self).valid_node(incoming_to.index as int),
        ensures
            final(self).wf(),
            final(self).nodes@ == old(self).nodes@,
            r.index == old(self).edges@.len(),
            final(self).edges@ == old(self).edges@.push(
                Some(
                    Edge {
                        source: outgoing_from.index,
                        target: incoming_to.index,
                        bond: Bond {
                            bond_type,
                            ring: old(self).spec_root_of(outgoing_from.index as int) == old(self).spec_root_of(incoming_to.index as int),
                        },
                    },
                ),
            ),
    {
        let ring = self.in_same_structure(&[outgoing_from, incoming_to]);
        proof {
            assert([outgoing_from, incoming_to]@[0] == outgoing_from);
            assert([outgoing_from, incoming_to]@[1] == incoming_to);
        }
        self.add_edge(outgoing_from, incoming_to, Bond { bond_type, ring })
    }

    /// Add a new atom and connect it from an existing one. The fresh atom is a
    /// structure of its own until the edge lands, so the edge is no ring bond.
    pub fn connect_new_atom(&mut self, atom: Atom, connect_to: NodeIndex, bond_type: BondType) -> (r:
        NodeIndex)
        requires
            old(self).wf(),
            old(self).valid_node(connect_to.index as int),
        ensures
            final(self).wf(),
            r.index == old(self).nodes@.len(),
            final(self).nodes@ == old(self).nodes@.push(Some(atom)),
            final(self).edges@ == old(self).edges@.push(
                Some(
                    Edge {
                        source: connect_to.index,
                        target: r.index,
                        bond: Bond { bond_type, ring: false },
                    },
                ),
            ),
    {
        let new_node = self.add_node(atom);
        let ghost mid = *self;
        proof {
            assert forall|e: int| mid.valid_edge(e) implies (#[trigger] mid.edge_at(e)).source
                < new_node.index as int by {
                assert(old(self).valid_edge(e));
                assert(old(self).valid_node(old(self).edge_at(e).source as int));
                assert(mid.edge_at(e) == old(self).edge_at(e));
            }
            lemma_roots_stay_low(mid, connect_to.index as int, mid.nodes@.len() as nat, new_node.index as int);
            crate::workspace::accessor::lemma_parent_iff_incoming(mid, new_node.index as int);
            assert(!mid.has_tree_incoming(new_node.index as int)) by {
                assert forall|e: int| mid.valid_edge(e) implies !((#[trigger] mid.edge_at(
                    e,
                )).target == new_node.index as int && !mid.edge_at(e).bond.ring) by {
                    assert(old(self).valid_edge(e));
                    assert(old(self).valid_node(old(self).edge_at(e).source as int));
                    assert(old(self).valid_node(old(self).edge_at(e).target as int));
                    assert(mid.edge_at(e) == old(self).edge_at(e));
                }
            }
            assert(mid.spec_root_of(new_node.index as int) == Some(new_node.index as int));
        }
        self.connect(connect_to, new_node, bond_type);
        new_node
    }
}

/// In a well-formed graph every root walk from a node below `bound` stays
/// below `bound`, as long as every edge source lies below it.
pub proof fn lemma_roots_stay_low(ws: Workspace, i: int, fuel: nat, bound: int)
    requires
        i < bound,
        forall|e: int|
            ws.valid_edge(e) ==> (#[trigger] ws.edge_at(e)).source < bound,
    ensures
        match ws.spec_find_root(i, fuel) {
            Some(x) => x < bound,
            None => true,
        },
    decreases fuel,
{
    crate::workspace::accessor::lemma_first_tree_parent_from(ws, i, 0);
    match ws.spec_first_tree_parent(i) {
        None => {},
        Some(p) => {
            if fuel > 0 {
                assert(p < bound);
                lemma_roots_stay_low(ws, p, (fuel - 1) as nat, bound);
            }
        },
    }
}

impl Workspace {
    /// Turn the live edge in slot `e` around in place: endpoints swapped, the
    /// bond's written direction reversed, the slot and the ring mark kept.
    fn reverse_edge(&mut self, e: usize)
        requires
            old(self).wf(),
            old(self).valid_edge(e as int),
        ensures
            final(self).nodes@ == old(self).nodes@,
            final(self).edges@ == old(self).edges@.update(
                e as int,
                Some(flip_edge(old(self).edge_at(e as int))),
            ),
            final(self).wf(),
    {
        let cur: Edge = match &self.edges[e] {
            Some(ed) => *ed,
            None => {
                proof {
                    assert(false);
                }
                Edge { source: 0, target: 0, bond: Bond { bond_type: BondType::Single, ring: false } }
            },
        };
        let slot = &mut self.edges[e];
        *slot = Some(Edge { source: cur.target, target: cur.source, bond: cur.bond.reverse() });
        proof {
            assert forall|k: int| self.valid_edge(k) implies self.valid_node(
                self.edge_at(k).source as int,
            ) && self.valid_node(self.edge_at(k).target as int) by {
                assert(old(self).valid_edge(k));
                if k != e {
                    assert(self.edge_at(k) == old(self).edge_at(k));
                }
                assert(old(self).valid_node(old(self).edge_at(k).source as int));
            }
            assert(self.wf());
        }
    }

    /// The id of the first live non-ring edge into `i`, scanning from `e`.
    fn first_tree_edge_at(&self, i: usize, e: usize) -> (r: Option<usize>)
        requires
            e <= self.edges@.len(),
        ensures
            match r {
                Some(x) => self.spec_first_tree_edge_from(i as int, e as int) == Some(x as int)
                    && self.valid_edge(x as int) && self.edge_at(x as int).target == i
                    && !self.edge_at(x as int).bond.ring,
                None => self.spec_first_tree_edge_from(i as int, e as int) is None,
            },
        decreases self.edges@.len() - e,
    {
        if e >= self.edges.len() {
            return None;
        }
        match &self.edges[e] {
            Some(ed) => {
                if ed.target == i && !ed.bond.ring {
                    return Some(e);
                }
            },
            None => {},
        }
        self.first_tree_edge_at(i, e + 1)
    }

    /// Walk the first-parent chain up from `i` on the untouched graph and
    /// collect the edge taken at each step; nothing where the walk does not
    /// end within the fuel.
    fn chain_edges(&self, i: usize, fuel: usize) -> (r: Option<Vec<usize>>)
        requires
            self.wf(),
            self.valid_node(i as int),
        ensures
            match r {
                Some(es) => {
                    &&& self.spec_find_root(i as int, fuel as nat) is Some
                    &&& es@.len() <= fuel
                    &&& (forall|t: int|
                        0 <= t < es@.len() ==> {
                            let e = (#[trigger] es@[t]) as int;
                            &&& self.valid_edge(e)
                            &&& !self.edge_at(e).bond.ring
                            &&& self.spec_chain_node(i as int, t as nat) == Some(
                                self.edge_at(e).target as int,
                            )
                            &&& self.spec_chain_node(i as int, (t + 1) as nat) == Some(
                                self.edge_at(e).source as int,
                            )
                        })
                    &&& self.spec_chain_node(i as int, es@.len() as nat) == self.spec_find_root(
                        i as int,
                        fuel as nat,
                    )
                },
                None => self.spec_find_root(i as int, fuel as nat) is None,
            },
        decreases fuel,
    {
        let first = self.first_tree_edge_at(i, 0);
        proof {
            crate::workspace::accessor::lemma_parent_is_edge_source(*self, i as int, 0);
        }
        match first {
            None => {
                let es: Vec<usize> = Vec::new();
                proof {
                    assert(self.spec_first_tree_parent(i as int) is None);
                    assert(self.spec_find_root(i as int, fuel as nat) == Some(i as int));
                    assert(self.spec_chain_node(i as int, 0) == Some(i as int));
                }
                Some(es)
            },
            Some(e) => {
                proof {
                    assert(self.spec_first_tree_parent(i as int) == Some(
                        self.edge_at(e as int).source as int,
                    ));
                }
                if fuel == 0 {
                    return None;
                }
                let p = match &self.edges[e] {
                    Some(ed) => ed.source,
                    None => {
                        proof {
                            assert(false);
                        }
                        0
                    },
                };
                proof {
                    assert(self.valid_node(self.edge_at(e as int).source as int));
                }
                match self.chain_edges(p, fuel - 1) {
                    None => None,
                    Some(mut rest) => {
                        let ghost grest = rest@;
                        rest.insert(0, e);
                        proof {
                            assert(rest@ =~= seq![e].add(grest));
                            assert(self.spec_chain_node(i as int, 0) == Some(i as int));
                            assert(self.spec_chain_node(i as int, 1) == Some(p as int));
                            assert forall|t: int|
                                0 <= t < rest@.len() implies {
                                let ee = (#[trigger] rest@[t]) as int;
                                &&& self.valid_edge(ee)
                                &&& !self.edge_at(ee).bond.ring
                                &&& self.spec_chain_node(i as int, t as nat) == Some(
                                    self.edge_at(ee).target as int,
                                )
                                &&& self.spec_chain_node(i as int, (t + 1) as nat) == Some(
                                    self.edge_at(ee).source as int,
                                )
                            } by {
                                if t == 0 {
                                    assert(rest@[0] == e);
                                } else {
                                    assert(rest@[t] == grest[t - 1]);
                                    crate::workspace::accessor::lemma_chain_compose(
                                        *self,
                                        i as int,
                                        1,
                                        (t - 1) as nat,
                                    );
                                    crate::workspace::accessor::lemma_chain_compose(
                                        *self,
                                        i as int,
                                        1,
                                        t as nat,
                                    );
                                    assert(self.spec_chain_node(i as int, t as nat)
                                        == self.spec_chain_node(p as int, (t - 1) as nat));
                                    assert(self.spec_chain_node(i as int, (t + 1) as nat)
                                        == self.spec_chain_node(p as int, t as nat));
                                }
                            }
                            crate::workspace::accessor::lemma_chain_compose(
                                *self,
                                i as int,
                                1,
                                grest.len() as nat,
                            );
                            assert(self.spec_chain_node(i as int, rest@.len() as nat)
                                == self.spec_chain_node(p as int, grest.len() as nat));
                            assert(self.spec_find_root(i as int, fuel as nat)
                                == self.spec_find_root(p as int, (fuel - 1) as nat));
                        }
                        Some(rest)
                    },
                }
            },
        }
    }

    /// Make `root_index` the root of its structure: walk the chain of first
    /// incoming non-ring edges up from it and turn each of those edges around
    /// in place, leaving ring edges alone. Where the non-ring edges form a
    /// forest and the walk from the node ends, the call is owed success.
    /// Nothing comes back when the node is missing or the graph is too
    /// malformed; the graph itself is never corrupted — every edge is either
    /// kept or turned around in place.
    #[verifier::rlimit(100)]
    #[verifier::loop_isolation(false)]
    #[verifier::spinoff_prover]
    pub fn reset_root(&mut self, root_index: NodeIndex) -> (r: Option<()>)
        requires
            old(self).wf(),
        ensures
            final(self).nodes@ == old(self).nodes@,
            final(self).edges@.len() == old(self).edges@.len(),
            forall|e: int| #[trigger] final(self).valid_edge(e) <==> old(self).valid_edge(e),
            forall|e: int|
                old(self).valid_edge(e) ==> (#[trigger] final(self).edge_at(e)) == old(self).edge_at(e) || final(self).edge_at(e) == flip_edge(old(self).edge_at(e)),
            forall|e: int|
                old(self).valid_edge(e) && old(self).edge_at(e).bond.ring ==> (#[trigger] final(self).edge_at(e)) == old(self).edge_at(e),
            final(self).wf(),
            final(self).spec_ring_edge_count() == old(self).spec_ring_edge_count(),
            r is Some ==> final(self).is_root(root_index.index as int),
            old(self).is_root(root_index.index as int) ==> r is Some && final(self).edges@ == old(self).edges@,
            (old(self).forest_in() && old(self).spec_root_of(root_index.index as int) is Some)
                ==> r is Some,
    {
        let v = root_index.index;
        let valid = v < self.nodes.len() && self.get_atom(root_index).is_some();
        proof {
            lemma_ring_count_frame(*old(self), *old(self));
        }
        if !valid {
            return None;
        }
        let ghost ws0 = *self;
        let ghost gfuel = self.nodes@.len() as nat;
        let chain = match self.chain_edges(v, self.nodes.len()) {
            Some(c) => c,
            None => {
                proof {
                    if old(self).is_root(v as int) {
                        crate::workspace::accessor::lemma_parent_iff_incoming(*self, v as int);
                        assert(self.spec_find_root(v as int, self.nodes@.len() as nat) == Some(
                            v as int,
                        ));
                        assert(false);
                    }
                }
                return None;
            },
        };
        proof {
            // the chain edges are pairwise distinct: their targets are
            // distinct nodes of a walk that ends
            assert forall|t1: int, t2: int|
                0 <= t1 < t2 < chain@.len() implies (#[trigger] chain@[t1]) != (
            #[trigger] chain@[t2]) by {
                crate::workspace::accessor::lemma_chain_distinct(
                    ws0,
                    v as int,
                    gfuel,
                    t1 as nat,
                    t2 as nat,
                );
                if chain@[t1] == chain@[t2] {
                    assert(ws0.spec_chain_node(v as int, t1 as nat) == Some(
                        ws0.edge_at(chain@[t1] as int).target as int,
                    ));
                    assert(ws0.spec_chain_node(v as int, t2 as nat) == Some(
                        ws0.edge_at(chain@[t2] as int).target as int,
                    ));
                }
            }
            // the already-root case: the walk is empty
            if old(self).is_root(v as int) {
                crate::workspace::accessor::lemma_parent_iff_incoming(ws0, v as int);
                crate::workspace::accessor::lemma_parent_is_edge_source(ws0, v as int, 0);
                if chain@.len() > 0 {
                    assert(ws0.spec_chain_node(v as int, 0) == Some(
                        ws0.edge_at(chain@[0] as int).target as int,
                    ));
                    assert(ws0.valid_edge(chain@[0] as int) && ws0.edge_at(
                        chain@[0] as int,
                    ).target == v && !ws0.edge_at(chain@[0] as int).bond.ring);
                    assert(ws0.has_tree_incoming(v as int));
                    assert(false);
                }
            }
        }
        let mut j: usize = 0;
        while j < chain.len()
            invariant
                j <= chain@.len(),
                self.nodes@ == ws0.nodes@,
                self.edges@.len() == ws0.edges@.len(),
                forall|e: int|
                    0 <= e < self.edges@.len() ==> (#[trigger] self.edges@[e]) == (
                    if exists|t: int| 0 <= t < j && (#[trigger] chain@[t]) as int == e {
                        Some(flip_edge(ws0.edge_at(e)))
                    } else {
                        ws0.edges@[e]
                    }),
                self.wf(),
            decreases chain@.len() - j,
        {
            let e = chain[j];
            proof {
                assert(ws0.spec_chain_node(v as int, j as nat) == Some(
                    ws0.edge_at(e as int).target as int,
                ));
                assert(!(exists|t: int| 0 <= t < j && (#[trigger] chain@[t]) as int == e as int))
                    by {
                    if exists|t: int| 0 <= t < j && (#[trigger] chain@[t]) as int == e as int {
                        let t = choose|t: int|
                            0 <= t < j && (#[trigger] chain@[t]) as int == e as int;
                        assert(chain@[t] != chain@[j as int]);
                    }
                }
                assert(self.edges@[e as int] == ws0.edges@[e as int]);
                assert(self.valid_edge(e as int));
                assert(self.edge_at(e as int) == ws0.edge_at(e as int));
            }
            let ghost before = *self;
            self.reverse_edge(e);
            j = j + 1;
            proof {
                assert forall|ee: int|
                    0 <= ee < self.edges@.len() implies (#[trigger] self.edges@[ee]) == (
                if exists|t: int| 0 <= t < j && (#[trigger] chain@[t]) as int == ee {
                    Some(flip_edge(ws0.edge_at(ee)))
                } else {
                    ws0.edges@[ee]
                }) by {
                    if ee == e as int {
                        assert(chain@[j - 1] as int == ee);
                        assert(self.edges@[ee] == Some(flip_edge(before.edge_at(ee))));
                        assert(before.edge_at(ee) == ws0.edge_at(ee));
                    } else {
                        assert(self.edges@[ee] == before.edges@[ee]);
                        assert forall|t: int|
                            0 <= t < j && (#[trigger] chain@[t]) as int == ee implies t < j - 1 by {}
                    }
                }
            }
        }
        proof {
            // every edge is kept or turned around; ring edges never sit on the chain
            assert forall|e: int| #[trigger]
                self.valid_edge(e) <==> ws0.valid_edge(e) by {
                if exists|t: int| 0 <= t < chain@.len() && (#[trigger] chain@[t]) as int == e {
                    let t = choose|t: int|
                        0 <= t < chain@.len() && (#[trigger] chain@[t]) as int == e;
                    assert(ws0.valid_edge(e));
                }
            }
            assert forall|e: int|
                ws0.valid_edge(e) implies ((#[trigger] self.edge_at(e)) == ws0.edge_at(e)
                || self.edge_at(e) == flip_edge(ws0.edge_at(e))) by {}
            assert forall|e: int|
                ws0.valid_edge(e) && ws0.edge_at(e).bond.ring implies (#[trigger] self.edge_at(e))
                == ws0.edge_at(e) by {
                if exists|t: int| 0 <= t < chain@.len() && (#[trigger] chain@[t]) as int == e {
                    let t = choose|t: int|
                        0 <= t < chain@.len() && (#[trigger] chain@[t]) as int == e;
                    assert(!ws0.edge_at(e).bond.ring);
                }
            }
            lemma_ring_count_frame(ws0, *self);
        }
        if self.has_tree_incoming_at(v) {
            proof {
                // under the forest shape this cannot happen: the one old edge
                // into the node was turned around, and every turned edge now
                // points at a later chain node
                if old(self).forest_in() && old(self).spec_root_of(v as int) is Some {
                    let e = choose|e: int|
                        self.valid_edge(e) && (#[trigger] self.edge_at(e)).target == v as int
                            && !self.edge_at(e).bond.ring;
                    if exists|t: int| 0 <= t < chain@.len() && (#[trigger] chain@[t]) as int == e {
                        let t = choose|t: int|
                            0 <= t < chain@.len() && (#[trigger] chain@[t]) as int == e;
                        assert(self.edge_at(e) == flip_edge(ws0.edge_at(e)));
                        assert(ws0.spec_chain_node(v as int, (t + 1) as nat) == Some(
                            ws0.edge_at(e).source as int,
                        ));
                        assert(ws0.spec_chain_node(v as int, 0) == Some(v as int));
                        crate::workspace::accessor::lemma_chain_distinct(
                            ws0,
                            v as int,
                            gfuel,
                            0,
                            (t + 1) as nat,
                        );
                        assert(false);
                    } else {
                        assert(self.edges@[e] == ws0.edges@[e]);
                        assert(ws0.valid_edge(e) && ws0.edge_at(e).target == v as int
                            && !ws0.edge_at(e).bond.ring);
                        if chain@.len() == 0 {
                            assert(ws0.spec_chain_node(v as int, 0) == Some(v as int));
                            assert(ws0.spec_find_root(v as int, gfuel) == Some(v as int));
                            crate::workspace::accessor::lemma_find_root_is_root(
                                ws0,
                                v as int,
                                gfuel,
                            );
                            assert(ws0.has_tree_incoming(v as int));
                            assert(false);
                        } else {
                            let e0 = chain@[0] as int;
                            assert(ws0.spec_chain_node(v as int, 0) == Some(
                                ws0.edge_at(e0).target as int,
                            ));
                            assert(ws0.valid_edge(e0) && ws0.edge_at(e0).target == v as int
                                && !ws0.edge_at(e0).bond.ring);
                            assert(e == e0);
                            assert(false);
                        }
                    }
                }
            }
            return None;
        }
        Some(())
    }
}

/// Two graphs whose edges pairwise agree up to a flip hold ring edges alike.
proof fn lemma_ring_count_frame(a: Workspace, b: Workspace)
    requires
        a.edges@.len() == b.edges@.len(),
        forall|e: int| #[trigger] b.valid_edge(e) <==> a.valid_edge(e),
        forall|e: int|
            a.valid_edge(e) ==> (#[trigger] b.edge_at(e)) == a.edge_at(e) || b.edge_at(e)
                == flip_edge(a.edge_at(e)),
    ensures
        a.spec_ring_edge_count() == b.spec_ring_edge_count(),
{
    assert forall|i: int|
        0 <= i < a.edges@.len() implies (((#[trigger] a.edges@[i]) is Some <==> b.edges@[i]
        is Some) && (a.edges@[i] is Some ==> (a.edges@[i]->Some_0.bond.ring
        <==> b.edges@[i]->Some_0.bond.ring))) by {
        if a.edges@[i] is Some {
            assert(a.valid_edge(i));
            assert(b.valid_edge(i));
            assert(b.edge_at(i) == a.edge_at(i) || b.edge_at(i) == flip_edge(a.edge_at(i)));
        } else {
            assert(!a.valid_edge(i));
            assert(!b.valid_edge(i));
        }
    }
    lemma_count_ring_agree(a.edges@, b.edges@, a.edges@.len() as int);
}


/// A bare hydrogen atom, as the completion writes it.
pub open spec fn spec_hydrogen_atom() -> AtomV {
    AtomV {
        element: Element::H,
        isotope: None,
        charge: 0,
        chirality_type: None,
        explicit_hydrogen: 0,
        selector: None,
        aromatic: false,
        react_id: None,
    }
}

/// Extending the edge row with edges that do not touch `y` keeps `y`'s degree.
pub proof fn lemma_count_incident_extend(s1: Seq<Option<Edge>>, s2: Seq<Option<Edge>>, y: int)
    requires
        s1.len() <= s2.len(),
        forall|k: int| 0 <= k < s1.len() ==> (#[trigger] s2[k]) == s1[k],
        forall|k: int|
            s1.len() <= k < s2.len() ==> ((#[trigger] s2[k]) matches Some(e) ==> e.source != y
                && e.target != y),
    ensures
        count_incident(s2, y, s2.len() as int) == count_incident(s1, y, s1.len() as int),
    decreases s2.len(),
{
    if s2.len() == s1.len() {
        lemma_count_incident_agree(s1, s2, y, s1.len() as int);
    } else {
        lemma_count_incident_extend(s1, s2.drop_last(), y);
        assert(count_incident(s2, y, s2.len() as int) == count_incident(s2, y, s2.len() - 1));
        lemma_count_incident_agree(s2.drop_last(), s2, y, s2.len() - 1);
    }
}

impl Workspace {
    /// The undirected degree of a node: how many live edges touch it.
    pub fn degree_of(&self, i: usize) -> (r: usize)
        ensures
            r as int == self.spec_degree(i as int),
    {
        let mut n: usize = 0;
        let mut e: usize = 0;
        while e < self.edges.len()
            invariant
                e <= self.edges@.len(),
                n as int == count_incident(self.edges@, i as int, e as int),
                n <= e,
            decreases self.edges@.len() - e,
        {
            match &self.edges[e] {
                Some(ed) => {
                    if ed.source == i || ed.target == i {
                        n = n + 1;
                    }
                },
                None => {},
            }
            e = e + 1;
        }
        n
    }

    /// Complete the hydrogens of one atom: add as many `[H]` atoms as the
    /// written explicit count asks, or as the element's default leaves open;
    /// the explicit count is consumed either way.
    #[verifier::rlimit(100)]
    #[verifier::loop_isolation(false)]
    fn add_hydrogen_to_atom(&mut self, atom: NodeIndex) -> (r: Option<Vec<NodeIndex>>)
        requires
            old(self).wf(),
        ensures
            final(self).wf(),
            match r {
                None => !old(self).valid_node(atom.index as int) && final(self).nodes@ == old(self).nodes@ && final(self).edges@ == old(self).edges@,
                Some(v) => {
                    let i = atom.index as int;
                    let k = old(self).spec_hydrogens_needed(i);
                    let onodes = old(self).nodes@;
                    let oedges = old(self).edges@;
                    &&& old(self).valid_node(i)
                    &&& v@.len() == k
                    &&& final(self).nodes@.len() == onodes.len() + k
                    &&& final(self).nodes@.subrange(0, onodes.len() as int) == onodes.update(
                        i,
                        Some(
                            Atom {
                                explicit_hydrogen: 0,
                                ..old(self).atom_at(i)
                            },
                        ),
                    )
                    &&& forall|j: int|
                        0 <= j < k ==> ((#[trigger] final(self).nodes@[onodes.len() + j])
                            matches Some(h) && h@ == spec_hydrogen_atom())
                    &&& final(self).edges@.len() == oedges.len() + k
                    &&& final(self).edges@.subrange(0, oedges.len() as int) == oedges
                    &&& forall|j: int|
                        0 <= j < k ==> ((#[trigger] final(self).edges@[oedges.len() + j])
                            matches Some(e) && e.source == atom.index && e.target as int
                            == onodes.len() + j && e.bond == (Bond {
                            bond_type: BondType::Single,
                            ring: false,
                        }))
                    &&& final(self).spec_degree(i) == old(self).spec_degree(i) + k
                    &&& final(self).spec_ring_edge_count() == old(self).spec_ring_edge_count()
                },
            },
    {
        let a: Atom = match self.get_atom(atom) {
            Some(found) => Atom {
                element: found.element,
                isotope: found.isotope,
                charge: found.charge,
                chirality_type: found.chirality_type,
                explicit_hydrogen: found.explicit_hydrogen,
                selector: match &found.selector {
                    Some(sel) => Some(sel.clone()),
                    None => None,
                },
                aromatic: found.aromatic,
                react_id: found.react_id,
            },
            None => {
                return None;
            },
        };
        proof {
            assert(a == old(self).atom_at(atom.index as int));
        }
        let cleared = Atom { explicit_hydrogen: 0, ..a };
        let expl = a.explicit_hydrogen;
        let deg = self.degree_of(atom.index);
        self.set_atom(atom, cleared);
        let default = a.element.default_hydrogen();
        let hydrogens_to_add: usize = if expl != 0 {
            expl
        } else if default == 0 {
            0
        } else {
            let need: i128 = default as i128 + a.charge as i128 - deg as i128 - (
            if a.aromatic {
                1i128
            } else {
                0i128
            });
            if need >= 0 {
                proof {
                    assert(need <= 4 + isize::MAX as i128);
                    assert(isize::MAX as i128 + 4 <= usize::MAX as i128) by {
                        assert(usize::MAX == 2 * (isize::MAX as usize) + 1);
                        assert(isize::MAX >= 7);
                    }
                }
                need as usize
            } else {
                0
            }
        };
        proof {
            assert(hydrogens_to_add as int == old(self).spec_hydrogens_needed(atom.index as int));
        }
        let ghost mid = *self;
        let mut added: Vec<NodeIndex> = Vec::new();
        let mut j: usize = 0;
        while j < hydrogens_to_add
            invariant
                j <= hydrogens_to_add,
                added@.len() == j,
                self.wf(),
                mid.wf(),
                mid.valid_node(atom.index as int),
                self.nodes@.len() == mid.nodes@.len() + j,
                self.nodes@.subrange(0, mid.nodes@.len() as int) == mid.nodes@,
                forall|t: int|
                    0 <= t < j ==> ((#[trigger] self.nodes@[mid.nodes@.len() + t]) matches Some(h)
                        && h@ == spec_hydrogen_atom()),
                self.edges@.len() == mid.edges@.len() + j,
                self.edges@.subrange(0, mid.edges@.len() as int) == mid.edges@,
                forall|t: int|
                    0 <= t < j ==> ((#[trigger] self.edges@[mid.edges@.len() + t]) matches Some(e)
                        && e.source == atom.index && e.target as int == mid.nodes@.len() + t
                        && e.bond == (Bond { bond_type: BondType::Single, ring: false })),
            decreases hydrogens_to_add - j,
        {
            let h = Atom {
                element: Element::H,
                isotope: None,
                charge: 0,
                chirality_type: None,
                explicit_hydrogen: 0,
                selector: None,
                aromatic: false,
                react_id: None,
            };
            proof {
                assert(self.valid_node(atom.index as int));
            }
            let ghost pre = *self;
            let nid = self.connect_new_atom(h, atom, BondType::Single);
            added.push(nid);
            j = j + 1;
            proof {
                assert(self.nodes@.subrange(0, mid.nodes@.len() as int) =~= mid.nodes@);
                assert(self.edges@.subrange(0, mid.edges@.len() as int) =~= mid.edges@);
            }
        }
        proof {
            // the appended edges all touch the host, so its degree grew by k;
            // none of them is a ring edge, so the ring count is unchanged
            assert forall|t: int|
                mid.edges@.len() <= t < self.edges@.len() implies ((#[trigger] self.edges@[t])
                matches Some(e) && (e.source == atom.index as int || e.target == atom.index as int)
                && !e.bond.ring) by {
                let t2 = t - mid.edges@.len();
                assert(0 <= t2 < hydrogens_to_add);
                assert((self.edges@[mid.edges@.len() + t2]) matches Some(e) && e.source
                    == atom.index && e.bond == (Bond { bond_type: BondType::Single, ring: false }));
            }
            lemma_count_incident_appends(
                mid.edges@,
                self.edges@,
                atom.index as int,
                hydrogens_to_add as int,
            );
            lemma_count_ring_appends(mid.edges@, self.edges@);
            lemma_count_incident_agree(
                old(self).edges@,
                mid.edges@,
                atom.index as int,
                mid.edges@.len() as int,
            );
            lemma_count_ring_agree(old(self).edges@, mid.edges@, mid.edges@.len() as int);
        }
        Some(added)
    }
}

/// Appending `k` edges that all touch `i` raises `i`'s degree by `k`.
pub proof fn lemma_count_incident_appends(a: Seq<Option<Edge>>, b: Seq<Option<Edge>>, i: int, k: int)
    requires
        0 <= k,
        b.len() == a.len() + k,
        b.subrange(0, a.len() as int) == a,
        forall|t: int|
            a.len() <= t < b.len() ==> ((#[trigger] b[t]) matches Some(e) && (e.source == i
                || e.target == i)),
    ensures
        count_incident(b, i, b.len() as int) == count_incident(a, i, a.len() as int) + k,
    decreases k,
{
    if k == 0 {
        assert(b =~= a);
    } else {
        let b1 = b.drop_last();
        assert(b1.subrange(0, a.len() as int) =~= a);
        lemma_count_incident_appends(a, b1, i, k - 1);
        lemma_count_incident_agree(b1, b, i, b.len() - 1);
        assert(b[b.len() - 1] matches Some(e) && (e.source == i || e.target == i));
    }
}

/// Appending edges without the ring mark keeps the ring-edge count.
pub proof fn lemma_count_ring_appends(a: Seq<Option<Edge>>, b: Seq<Option<Edge>>)
    requires
        b.len() >= a.len(),
        b.subrange(0, a.len() as int) == a,
        forall|t: int|
            a.len() <= t < b.len() ==> ((#[trigger] b[t]) matches Some(e) ==> !e.bond.ring),
    ensures
        count_ring(b, b.len() as int) == count_ring(a, a.len() as int),
    decreases b.len(),
{
    if b.len() == a.len() {
        assert(b =~= a);
    } else {
        let b1 = b.drop_last();
        assert(b1.subrange(0, a.len() as int) =~= a);
        lemma_count_ring_appends(a, b1);
        lemma_count_ring_agree(b1, b, b.len() - 1);
    }
}


impl Workspace {
    /// Whether the old-state conditions of hydrogen completion hold of node
    /// `x`: no written explicit count, and room under the adjusted valence.
    pub open spec fn completion_applies(self, x: int) -> bool {
        &&& self.atom_at(x).explicit_hydrogen == 0
        &&& self.spec_degree(x) + (if self.atom_at(x).aromatic {
            1int
        } else {
            0int
        }) <= self.atom_at(x).element.spec_default_hydrogen() + self.atom_at(x).charge as int
    }

    /// Complete the hydrogens of every atom in the structure that holds
    /// `node`. Afterwards each such atom, where its written explicit count was
    /// spent and its adjusted valence had room, is hydrogen-saturated: its
    /// degree fills the element's default count plus charge, less an aromatic
    /// seat. Ring edges are untouched.
    #[verifier::rlimit(100)]
    #[verifier::loop_isolation(false)]
    pub fn add_hydrogen_to_structure(&mut self, node: NodeIndex) -> (r: Option<()>)
        requires
            old(self).wf(),
        ensures
            final(self).wf(),
            match r {
                None => final(self).nodes@ == old(self).nodes@ && final(self).edges@ == old(self).edges@ && old(self).spec_structure_atoms(node.index as int) is None,
                Some(_) => {
                    let atoms = old(self).spec_structure_atoms(node.index as int)->Some_0;
                    &&& old(self).spec_structure_atoms(node.index as int) is Some
                    &&& final(self).spec_ring_edge_count() == old(self).spec_ring_edge_count()
                    &&& final(self).nodes@.len() >= old(self).nodes@.len()
                    &&& (forall|j: int|
                        0 <= j < old(self).nodes@.len() && !atoms.contains(j) ==> (#[trigger] final(self).nodes@[j]) == old(self).nodes@[j])
                    &&& (forall|p: int|
                        0 <= p < atoms.len() ==> (#[trigger] final(self).nodes@[atoms[p]]) == Some(
                            Atom { explicit_hydrogen: 0, ..old(self).atom_at(atoms[p]) },
                        ))
                    &&& (forall|j: int|
                        old(self).nodes@.len() <= j < final(self).nodes@.len() ==> ((
                        #[trigger] final(self).nodes@[j]) matches Some(h) && h@
                            == spec_hydrogen_atom()))
                    &&& (forall|e: int|
                        0 <= e < old(self).edges@.len() ==> (#[trigger] final(self).edges@[e])
                            == old(self).edges@[e])
                    &&& (forall|e: int|
                        old(self).edges@.len() <= e < final(self).edges@.len() ==> ((
                        #[trigger] final(self).edges@[e]) matches Some(ed) && ed.bond == (Bond {
                            bond_type: BondType::Single,
                            ring: false,
                        }) && atoms.contains(ed.source as int) && ed.target as int >= old(self).nodes@.len()))
                    &&& (atoms.no_duplicates() ==> (forall|p: int|
                        0 <= p < atoms.len() && old(self).completion_applies(#[trigger] atoms[p])
                            ==> final(self).hydrogen_saturated(atoms[p])))
                },
            },
    {
        let atoms = match self.get_atoms_of_structure(node) {
            Some(v) => v,
            None => {
                return None;
            },
        };
        let ghost gatoms = atoms@.map_values(|n: NodeIndex| n.index as int);
        let ghost base_nodes = old(self).nodes@.len() as int;
        let mut k: usize = 0;
        while k < atoms.len()
            invariant
                k <= atoms@.len(),
                gatoms == atoms@.map_values(|n: NodeIndex| n.index as int),
                forall|j: int| 0 <= j < gatoms.len() ==> 0 <= #[trigger] gatoms[j] < base_nodes,
                self.wf(),
                self.nodes@.len() >= base_nodes,
                forall|j: int| 0 <= j < gatoms.len() ==> self.valid_node(#[trigger] gatoms[j]),
                self.spec_ring_edge_count() == old(self).spec_ring_edge_count(),
                forall|j: int|
                    0 <= j < base_nodes && !gatoms.subrange(0, k as int).contains(j) ==> (
                    #[trigger] self.nodes@[j]) == old(self).nodes@[j],
                forall|p: int|
                    0 <= p < k ==> (#[trigger] self.nodes@[gatoms[p]]) == Some(
                        Atom { explicit_hydrogen: 0, ..old(self).atom_at(gatoms[p]) },
                    ),
                forall|j: int|
                    base_nodes <= j < self.nodes@.len() ==> ((#[trigger] self.nodes@[j])
                        matches Some(h) && h@ == spec_hydrogen_atom()),
                forall|e: int|
                    0 <= e < old(self).edges@.len() ==> (#[trigger] self.edges@[e]) == old(self).edges@[e],
                self.edges@.len() >= old(self).edges@.len(),
                forall|e: int|
                    old(self).edges@.len() <= e < self.edges@.len() ==> ((
                    #[trigger] self.edges@[e]) matches Some(ed) && ed.bond == (Bond {
                        bond_type: BondType::Single,
                        ring: false,
                    }) && gatoms.subrange(0, k as int).contains(ed.source as int) && ed.target as int
                        >= base_nodes),
                gatoms.no_duplicates() ==> (forall|p: int|
                    k <= p < gatoms.len() ==> self.atom_at(#[trigger] gatoms[p]) == old(self).atom_at(gatoms[p]) && self.spec_degree(gatoms[p]) == old(self).spec_degree(
                        gatoms[p],
                    )),
                gatoms.no_duplicates() ==> (forall|p: int|
                    0 <= p < k && old(self).completion_applies(#[trigger] gatoms[p])
                        ==> self.hydrogen_saturated(gatoms[p])),
            decreases atoms@.len() - k,
        {
            let x = atoms[k];
            proof {
                assert(gatoms[k as int] == x.index as int);
            }
            let ghost pre = *self;
            match self.add_hydrogen_to_atom(x) {
                Some(_) => {},
                None => {
                    proof {
                        assert(pre.valid_node(gatoms[k as int]));
                        assert(false);
                    }
                },
            }
            k = k + 1;
            proof {
                let xi = x.index as int;
                let kk = pre.spec_hydrogens_needed(xi);
                assert forall|j: int| 0 <= j < gatoms.len() implies self.valid_node(
                    #[trigger] gatoms[j]) by {
                    let y = gatoms[j];
                    assert(pre.valid_node(y));
                    assert(self.nodes@.subrange(0, pre.nodes@.len() as int)[y] == self.nodes@[y]);
                    assert(self.nodes@.subrange(0, pre.nodes@.len() as int) == pre.nodes@.update(
                        xi,
                        Some(Atom { explicit_hydrogen: 0, ..pre.atom_at(xi) }),
                    ));
                }
                let ghost done_old = gatoms.subrange(0, k - 1);
                let ghost done = gatoms.subrange(0, k as int);
                assert(done =~= done_old.push(xi));
                assert forall|j: int| done_old.contains(j) implies done.contains(j) by {
                    let w = choose|w: int| 0 <= w < done_old.len() && done_old[w] == j;
                    assert(done[w] == j);
                }
                assert(k >= 1 && done.len() == k as int);
                assert(done[k - 1] == xi);
                assert(done.contains(xi)) by {
                    assert(0 <= k - 1 < done.len() && done[k - 1] == xi);
                }
                // untouched old slots stay what they were
                assert forall|j: int|
                    0 <= j < base_nodes && !done.contains(j) implies (#[trigger] self.nodes@[j])
                    == old(self).nodes@[j] by {
                    assert(!done_old.contains(j));
                    assert(j != xi);
                    assert(self.nodes@.subrange(0, pre.nodes@.len() as int)[j] == self.nodes@[j]);
                }
                // every processed atom holds its old fields with the explicit count spent
                assert forall|p: int|
                    0 <= p < k implies (#[trigger] self.nodes@[gatoms[p]]) == Some(
                    Atom { explicit_hydrogen: 0, ..old(self).atom_at(gatoms[p]) },
                ) by {
                    let y = gatoms[p];
                    assert(self.nodes@.subrange(0, pre.nodes@.len() as int)[y] == self.nodes@[y]);
                    if p < k - 1 {
                        if y != xi {
                            assert(self.nodes@[y] == pre.nodes@[y]);
                        } else {
                            assert(pre.nodes@[y] == Some(
                                Atom { explicit_hydrogen: 0, ..old(self).atom_at(y) },
                            ));
                            assert(pre.atom_at(y) == (Atom {
                                explicit_hydrogen: 0,
                                ..old(self).atom_at(y)
                            }));
                        }
                    } else {
                        assert(y == xi);
                        if done_old.contains(y) {
                            let w = choose|w: int| 0 <= w < done_old.len() && done_old[w] == y;
                            assert(pre.nodes@[y] == Some(
                                Atom { explicit_hydrogen: 0, ..old(self).atom_at(y) },
                            ));
                            assert(pre.atom_at(y) == (Atom {
                                explicit_hydrogen: 0,
                                ..old(self).atom_at(y)
                            }));
                        } else {
                            assert(pre.nodes@[y] == old(self).nodes@[y]);
                            assert(pre.atom_at(y) == old(self).atom_at(y));
                        }
                    }
                }
                // appended slots hold hydrogen atoms
                assert forall|j: int|
                    base_nodes <= j < self.nodes@.len() implies ((#[trigger] self.nodes@[j])
                    matches Some(h) && h@ == spec_hydrogen_atom()) by {
                    if j < pre.nodes@.len() {
                        assert(self.nodes@.subrange(0, pre.nodes@.len() as int)[j]
                            == self.nodes@[j]);
                        assert(j != xi);
                        assert(self.nodes@[j] == pre.nodes@[j]);
                    } else {
                        let t2 = j - pre.nodes@.len();
                        assert(self.nodes@[pre.nodes@.len() + t2] matches Some(h) && h@
                            == spec_hydrogen_atom());
                    }
                }
                // old edge slots stay; appended edges are host-to-hydrogen singles
                assert forall|e: int|
                    0 <= e < old(self).edges@.len() implies (#[trigger] self.edges@[e]) == old(self).edges@[e] by {
                    assert(self.edges@.subrange(0, pre.edges@.len() as int)[e] == self.edges@[e]);
                    assert(self.edges@[e] == pre.edges@[e]);
                }
                assert forall|e: int|
                    old(self).edges@.len() <= e < self.edges@.len() implies ((
                #[trigger] self.edges@[e]) matches Some(ed) && ed.bond == (Bond {
                    bond_type: BondType::Single,
                    ring: false,
                }) && done.contains(ed.source as int) && ed.target as int >= base_nodes) by {
                    if e < pre.edges@.len() {
                        assert(self.edges@.subrange(0, pre.edges@.len() as int)[e]
                            == self.edges@[e]);
                        assert(self.edges@[e] == pre.edges@[e]);
                    } else {
                        let t2 = e - pre.edges@.len();
                        assert((self.edges@[pre.edges@.len() + t2]) matches Some(ed) && ed.source
                            == x.index && ed.target as int == pre.nodes@.len() + t2 && ed.bond == (
                        Bond { bond_type: BondType::Single, ring: false }));
                    }
                }
                if gatoms.no_duplicates() {
                    // every other listed atom keeps its fields and its degree
                    assert forall|p: int|
                        k <= p < gatoms.len() || (0 <= p < k - 1) implies gatoms[p] != xi by {
                        assert(gatoms[k - 1] == xi);
                    }
                    assert forall|p: int|
                        0 <= p < gatoms.len() && p != k - 1 implies self.atom_at(
                        #[trigger] gatoms[p]) == pre.atom_at(gatoms[p]) && self.spec_degree(
                        gatoms[p]) == pre.spec_degree(gatoms[p]) by {
                        let y = gatoms[p];
                        assert(gatoms[k - 1] == xi);
                        assert(y != xi);
                        assert(self.nodes@.subrange(0, pre.nodes@.len() as int) == pre.nodes@.update(
                            xi,
                            Some(Atom { explicit_hydrogen: 0, ..pre.atom_at(xi) }),
                        ));
                        assert(self.nodes@.subrange(0, pre.nodes@.len() as int)[y]
                            == self.nodes@[y]);
                        assert(self.nodes@[y] == pre.nodes@[y]);
                        assert forall|t: int|
                            pre.edges@.len() <= t < self.edges@.len() implies ((
                        #[trigger] self.edges@[t]) matches Some(e) ==> e.source != y && e.target
                            != y) by {
                            let t2 = t - pre.edges@.len();
                            assert((self.edges@[pre.edges@.len() + t2]) matches Some(e)
                                && e.source == x.index && e.target as int == pre.nodes@.len()
                                + t2);
                            assert(y < base_nodes <= pre.nodes@.len());
                        }
                        assert forall|t: int|
                            0 <= t < pre.edges@.len() implies (#[trigger] self.edges@[t])
                            == pre.edges@[t] by {
                            assert(self.edges@.subrange(0, pre.edges@.len() as int)[t]
                                == self.edges@[t]);
                        }
                        lemma_count_incident_extend(pre.edges@, self.edges@, y);
                    }
                    // the processed atom is saturated where completion applied
                    if old(self).completion_applies(xi) {
                        assert(pre.atom_at(xi) == old(self).atom_at(xi));
                        assert(pre.spec_degree(xi) == old(self).spec_degree(xi));
                        assert(self.atom_at(xi) == (Atom {
                            explicit_hydrogen: 0,
                            ..pre.atom_at(xi)
                        })) by {
                            assert(self.nodes@.subrange(0, pre.nodes@.len() as int)[xi]
                                == self.nodes@[xi]);
                        }
                        assert(self.hydrogen_saturated(xi));
                    }
                }
            }
        }
        Some(())
    }

    /// Remove every hydrogen atom, with all edges that touched one.
    #[verifier::loop_isolation(false)]
    pub fn remove_hydrogens(&mut self)
        requires
            old(self).wf(),
        ensures
            final(self).wf(),
            final(self).nodes@.len() == old(self).nodes@.len(),
            final(self).edges@.len() == old(self).edges@.len(),
            forall|i: int|
                0 <= i < old(self).nodes@.len() ==> (#[trigger] final(self).nodes@[i]) == (
                if old(self).nodes@[i] matches Some(a) && a.element is H {
                    None
                } else {
                    old(self).nodes@[i]
                }),
            forall|e: int|
                old(self).valid_edge(e) ==> (#[trigger] final(self).edges@[e]) == (
                if old(self).atom_at(old(self).edge_at(e).source as int).element is H || old(self).atom_at(old(self).edge_at(e).target as int).element is H {
                    None
                } else {
                    old(self).edges@[e]
                }),
            forall|e: int|
                !old(self).valid_edge(e) && 0 <= e < old(self).edges@.len() ==> (#[trigger] final(self).edges@[e]) == old(self).edges@[e],
    {
        let mut i: usize = 0;
        while i < self.nodes.len()
            invariant
                i <= self.nodes@.len(),
                self.nodes@.len() == old(self).nodes@.len(),
                self.edges@ == old(self).edges@,
                forall|j: int|
                    0 <= j < i ==> (#[trigger] self.nodes@[j]) == (
                    if old(self).nodes@[j] matches Some(a) && a.element is H {
                        None
                    } else {
                        old(self).nodes@[j]
                    }),
                forall|j: int| i <= j < self.nodes@.len() ==> (#[trigger] self.nodes@[j]) == old(self).nodes@[j],
            decreases self.nodes@.len() - i,
        {
            let is_h = match &self.nodes[i] {
                Some(a) => matches!(a.element, Element::H),
                None => false,
            };
            if is_h {
                let slot = &mut self.nodes[i];
                *slot = None;
            }
            i = i + 1;
        }
        let ghost mid = *self;
        let mut e: usize = 0;
        while e < self.edges.len()
            invariant
                e <= self.edges@.len(),
                self.nodes@ == mid.nodes@,
                self.edges@.len() == old(self).edges@.len(),
                mid.edges@ == old(self).edges@,
                mid.nodes@.len() == old(self).nodes@.len(),
                forall|j: int|
                    0 <= j < mid.nodes@.len() ==> (#[trigger] mid.nodes@[j]) == (
                    if old(self).nodes@[j] matches Some(a) && a.element is H {
                        None
                    } else {
                        old(self).nodes@[j]
                    }),
                forall|j: int|
                    0 <= j < e && old(self).valid_edge(j) ==> (#[trigger] self.edges@[j]) == (
                    if old(self).atom_at(old(self).edge_at(j).source as int).element is H || old(self).atom_at(old(self).edge_at(j).target as int).element is H {
                        None
                    } else {
                        old(self).edges@[j]
                    }),
                forall|j: int|
                    0 <= j < e && !old(self).valid_edge(j) ==> (#[trigger] self.edges@[j]) == old(self).edges@[j],
                forall|j: int| e <= j < self.edges@.len() ==> (#[trigger] self.edges@[j]) == old(self).edges@[j],
            decreases self.edges@.len() - e,
        {
            let drop_it: bool = match &self.edges[e] {
                Some(ed) => {
                    let src_gone = ed.source >= self.nodes.len() || self.nodes[ed.source].is_none();
                    let tgt_gone = ed.target >= self.nodes.len() || self.nodes[ed.target].is_none();
                    src_gone || tgt_gone
                },
                None => false,
            };
            proof {
                if old(self).valid_edge(e as int) {
                    let src = old(self).edge_at(e as int).source as int;
                    let tgt = old(self).edge_at(e as int).target as int;
                    assert(old(self).valid_node(src));
                    assert(old(self).valid_node(tgt));
                    assert(mid.nodes@[src] is None <==> old(self).atom_at(src).element is H);
                    assert(mid.nodes@[tgt] is None <==> old(self).atom_at(tgt).element is H);
                    assert(drop_it <==> (old(self).atom_at(src).element is H || old(self).atom_at(
                        tgt,
                    ).element is H));
                }
            }
            if drop_it {
                let slot = &mut self.edges[e];
                *slot = None;
            }
            e = e + 1;
        }
        proof {
            assert forall|k: int| self.valid_edge(k) implies self.valid_node(
                self.edge_at(k).source as int,
            ) && self.valid_node(self.edge_at(k).target as int) by {
                assert(old(self).valid_edge(k));
                assert(old(self).valid_node(old(self).edge_at(k).source as int));
            }
            assert(self.wf());
        }
    }
}


} // verus!
