use vstd::prelude::*;

use crate::definitions::atom::Atom;
use crate::workspace::{NodeIndex, Workspace};

verus! {

impl Workspace {
    /// The source of the first live non-ring edge into `i`, scanning from `e`.
    pub open spec fn spec_first_tree_parent_from(self, i: int, e: int) -> Option<int>
        decreases self.edges@.len() - e,
    {
        if e < 0 || e >= self.edges@.len() {
            None
        } else if self.valid_edge(e) && self.edge_at(e).target == i && !self.edge_at(e).bond.ring {
            Some(self.edge_at(e).source as int)
        } else {
            self.spec_first_tree_parent_from(i, e + 1)
        }
    }

    /// The node the first live non-ring edge into `i` comes from.
    pub open spec fn spec_first_tree_parent(self, i: int) -> Option<int> {
        self.spec_first_tree_parent_from(i, 0)
    }

    /// Following first tree parents up for at most `fuel` steps.
    pub open spec fn spec_find_root(self, i: int, fuel: nat) -> Option<int>
        decreases fuel,
    {
        if !self.valid_node(i) {
            None
        } else {
            match self.spec_first_tree_parent(i) {
                None => Some(i),
                Some(p) => if fuel == 0 {
                    None
                } else {
                    self.spec_find_root(p, (fuel - 1) as nat)
                },
            }
        }
    }

    /// What `find_root_of` yields: the walk gets one step of fuel per node.
    pub open spec fn spec_root_of(self, i: int) -> Option<int> {
        self.spec_find_root(i, self.nodes@.len() as nat)
    }

    /// The id of the first live non-ring edge into `i`, scanning from `e`.
    pub open spec fn spec_first_tree_edge_from(self, i: int, e: int) -> Option<int>
        decreases self.edges@.len() - e,
    {
        if e < 0 || e >= self.edges@.len() {
            None
        } else if self.valid_edge(e) && self.edge_at(e).target == i && !self.edge_at(e).bond.ring {
            Some(e)
        } else {
            self.spec_first_tree_edge_from(i, e + 1)
        }
    }

    /// The node reached after `k` steps up the first-parent chain from `x`.
    pub open spec fn spec_chain_node(self, x: int, k: nat) -> Option<int>
        decreases k,
    {
        if k == 0 {
            Some(x)
        } else {
            match self.spec_chain_node(x, (k - 1) as nat) {
                None => None,
                Some(y) => self.spec_first_tree_parent(y),
            }
        }
    }
}

/// The first tree parent is the source of the first tree edge in.
pub proof fn lemma_parent_is_edge_source(ws: Workspace, i: int, e: int)
    requires
        0 <= e <= ws.edges@.len(),
    ensures
        ws.spec_first_tree_parent_from(i, e) == (match ws.spec_first_tree_edge_from(i, e) {
            Some(x) => Some(ws.edge_at(x).source as int),
            None => None,
        }),
    decreases ws.edges@.len() - e,
{
    if e < ws.edges@.len() {
        if !(ws.valid_edge(e) && ws.edge_at(e).target == i && !ws.edge_at(e).bond.ring) {
            lemma_parent_is_edge_source(ws, i, e + 1);
        }
    }
}

/// Chain steps compose: `a` steps and then `b` steps are `a + b` steps.
pub proof fn lemma_chain_compose(ws: Workspace, x: int, a: nat, b: nat)
    ensures
        ws.spec_chain_node(x, a + b) == (match ws.spec_chain_node(x, a) {
            Some(y) => ws.spec_chain_node(y, b),
            None => None,
        }),
    decreases b,
{
    if b > 0 {
        lemma_chain_compose(ws, x, a, (b - 1) as nat);
        assert(a + b == (a + (b - 1) as nat) + 1);
        match ws.spec_chain_node(x, a) {
            Some(y) => {
                assert(ws.spec_chain_node(x, a + b) == (match ws.spec_chain_node(
                    x,
                    (a + b - 1) as nat,
                ) {
                    None => None::<int>,
                    Some(z) => ws.spec_first_tree_parent(z),
                }));
            },
            None => {
                assert(ws.spec_chain_node(x, a + b) == (match ws.spec_chain_node(
                    x,
                    (a + b - 1) as nat,
                ) {
                    None => None::<int>,
                    Some(z) => ws.spec_first_tree_parent(z),
                }));
            },
        }
    }
}

/// On a chain that comes back to its start, the root walk never ends.
pub proof fn lemma_chain_periodic_no_root(ws: Workspace, y: int, p: nat, f: nat)
    requires
        p >= 1,
        ws.spec_chain_node(y, p) == Some(y),
    ensures
        ws.spec_find_root(y, f) is None,
    decreases f,
{
    assert(ws.spec_chain_node(y, 1) is Some) by {
        lemma_chain_defined_prefix(ws, y, p, 1);
    }
    let z = ws.spec_chain_node(y, 1)->Some_0;
    assert(ws.spec_chain_node(y, 0) == Some(y));
    assert(ws.spec_chain_node(y, 1) == ws.spec_first_tree_parent(y));
    assert(ws.spec_first_tree_parent(y) == Some(z));
    if ws.valid_node(y) {
        if f > 0 {
            // the chain from the parent also comes back to the parent
            lemma_chain_compose(ws, y, 1, p);
            lemma_chain_compose(ws, y, p, 1);
            assert(ws.spec_chain_node(z, p) == ws.spec_chain_node(y, 1 + p));
            assert(ws.spec_chain_node(y, p + 1) == ws.spec_chain_node(y, 1));
            assert(ws.spec_chain_node(z, p) == Some(z));
            lemma_chain_periodic_no_root(ws, z, p, (f - 1) as nat);
        }
    }
}

/// A chain defined at `p` is defined at every earlier step.
pub proof fn lemma_chain_defined_prefix(ws: Workspace, y: int, p: nat, q: nat)
    requires
        q <= p,
        ws.spec_chain_node(y, p) is Some,
    ensures
        ws.spec_chain_node(y, q) is Some,
    decreases p - q,
{
    if q < p {
        assert(ws.spec_chain_node(y, p) == (match ws.spec_chain_node(y, (p - 1) as nat) {
            None => None::<int>,
            Some(z) => ws.spec_first_tree_parent(z),
        }));
        lemma_chain_defined_prefix(ws, y, (p - 1) as nat, q);
    }
}

/// The root walk carries down the chain: after `i` steps, the rest of the
/// fuel finds the same root.
pub proof fn lemma_find_root_down_chain(ws: Workspace, x: int, f: nat, i: nat)
    requires
        i <= f,
        ws.spec_find_root(x, f) is Some,
        ws.spec_chain_node(x, i) is Some,
    ensures
        ws.spec_find_root(ws.spec_chain_node(x, i)->Some_0, (f - i) as nat) == ws.spec_find_root(
            x,
            f,
        ),
    decreases i,
{
    if i > 0 {
        lemma_chain_defined_prefix(ws, x, i, (i - 1) as nat);
        lemma_find_root_down_chain(ws, x, f, (i - 1) as nat);
        let y = ws.spec_chain_node(x, (i - 1) as nat)->Some_0;
        assert(ws.spec_find_root(y, (f - i + 1) as nat) == ws.spec_find_root(x, f));
        assert(ws.spec_first_tree_parent(y) == ws.spec_chain_node(x, i));
        assert(ws.valid_node(y));
    }
}

/// Where the root walk ends, the chain never visits one node twice.
pub proof fn lemma_chain_distinct(ws: Workspace, x: int, f: nat, i: nat, j: nat)
    requires
        i < j <= f,
        ws.spec_find_root(x, f) is Some,
        ws.spec_chain_node(x, i) is Some,
        ws.spec_chain_node(x, j) is Some,
    ensures
        ws.spec_chain_node(x, i) != ws.spec_chain_node(x, j),
{
    if ws.spec_chain_node(x, i) == ws.spec_chain_node(x, j) {
        let y = ws.spec_chain_node(x, i)->Some_0;
        lemma_chain_compose(ws, x, i, (j - i) as nat);
        assert(ws.spec_chain_node(y, (j - i) as nat) == Some(y));
        lemma_find_root_down_chain(ws, x, f, i);
        assert(ws.spec_find_root(y, (f - i) as nat) is Some);
        lemma_chain_periodic_no_root(ws, y, (j - i) as nat, (f - i) as nat);
    }
}


/// A first tree parent exists exactly where some non-ring edge comes in.
pub proof fn lemma_first_tree_parent_from(ws: Workspace, i: int, e: int)
    requires
        0 <= e <= ws.edges@.len(),
    ensures
        (ws.spec_first_tree_parent_from(i, e) is Some) <==> exists|k: int|
            e <= k < ws.edges@.len() && ws.valid_edge(k) && (#[trigger] ws.edge_at(k)).target == i
                && !ws.edge_at(k).bond.ring,
        match ws.spec_first_tree_parent_from(i, e) {
            Some(p) => exists|k: int|
                e <= k < ws.edges@.len() && ws.valid_edge(k) && (#[trigger] ws.edge_at(k)).target
                    == i && !ws.edge_at(k).bond.ring && ws.edge_at(k).source == p,
            None => true,
        },
    decreases ws.edges@.len() - e,
{
    if e < ws.edges@.len() {
        if ws.valid_edge(e) && ws.edge_at(e).target == i && !ws.edge_at(e).bond.ring {
        } else {
            lemma_first_tree_parent_from(ws, i, e + 1);
        }
    }
}

/// No first tree parent means no incoming non-ring edge, and the other way round.
pub proof fn lemma_parent_iff_incoming(ws: Workspace, i: int)
    ensures
        (ws.spec_first_tree_parent(i) is Some) <==> ws.has_tree_incoming(i),
        match ws.spec_first_tree_parent(i) {
            Some(p) => ws.wf() ==> ws.valid_node(p),
            None => true,
        },
{
    lemma_first_tree_parent_from(ws, i, 0);
}

/// The node the root walk finds is a root: live, with no incoming non-ring edge.
pub proof fn lemma_find_root_is_root(ws: Workspace, i: int, fuel: nat)
    requires
        ws.spec_find_root(i, fuel) is Some,
    ensures
        ws.is_root(ws.spec_find_root(i, fuel)->Some_0),
    decreases fuel,
{
    lemma_parent_iff_incoming(ws, i);
    match ws.spec_first_tree_parent(i) {
        None => {},
        Some(p) => {
            lemma_find_root_is_root(ws, p, (fuel - 1) as nat);
        },
    }
}

/// Finding the root of a found root finds that root again: the walk is a
/// fixed point.
pub proof fn lemma_find_root_fixed_point(ws: Workspace, i: int, fuel: nat)
    requires
        ws.spec_find_root(i, fuel) is Some,
    ensures
        ws.spec_find_root(ws.spec_find_root(i, fuel)->Some_0, fuel) == ws.spec_find_root(i, fuel),
{
    lemma_find_root_is_root(ws, i, fuel);
    let root = ws.spec_find_root(i, fuel)->Some_0;
    lemma_parent_iff_incoming(ws, root);
}

impl Workspace {
    fn first_tree_parent_from(&self, i: usize, e: usize) -> (r: Option<usize>)
        requires
            e <= self.edges@.len(),
        ensures
            match r {
                Some(p) => self.spec_first_tree_parent_from(i as int, e as int) == Some(p as int),
                None => self.spec_first_tree_parent_from(i as int, e as int) is None,
            },
        decreases self.edges@.len() - e,
    {
        if e >= self.edges.len() {
            return None;
        }
        match &self.edges[e] {
            Some(edge) => {
                if edge.target == i && !edge.bond.ring {
                    return Some(edge.source);
                }
            },
            None => {},
        }
        self.first_tree_parent_from(i, e + 1)
    }

    fn find_root_fuel(&self, i: usize, fuel: usize) -> (r: Option<NodeIndex>)
        ensures
            match r {
                Some(x) => self.spec_find_root(i as int, fuel as nat) == Some(x.index as int),
                None => self.spec_find_root(i as int, fuel as nat) is None,
            },
        decreases fuel,
    {
        if i >= self.nodes.len() {
            return None;
        }
        if self.nodes[i].is_none() {
            return None;
        }
        match self.first_tree_parent_from(i, 0) {
            None => Some(NodeIndex { index: i }),
            Some(p) => {
                if fuel == 0 {
                    None
                } else {
                    self.find_root_fuel(p, fuel - 1)
                }
            },
        }
    }

    /// The root of the structure that holds `structure_node`: follow incoming
    /// non-ring edges until a node has none. On a malformed graph whose parent
    /// chain never ends, the walk gives up after one step per node and yields
    /// nothing rather than diverging.
    pub fn find_root_of(&self, structure_node: NodeIndex) -> (r: Option<NodeIndex>)
        ensures
            match r {
                Some(x) => self.spec_root_of(structure_node.index as int) == Some(x.index as int)
                    && self.is_root(x.index as int),
                None => self.spec_root_of(structure_node.index as int) is None,
            },
    {
        let r = self.find_root_fuel(structure_node.index, self.nodes.len());
        proof {
            if self.spec_root_of(structure_node.index as int) is Some {
                lemma_find_root_is_root(
                    *self,
                    structure_node.index as int,
                    self.nodes@.len() as nat,
                );
            }
        }
        r
    }

    /// Every live node that no non-ring edge comes into, in strictly
    /// increasing id order: one entry per root.
    pub fn find_strcutres_roots(&self) -> (r: Vec<NodeIndex>)
        ensures
            forall|k: int| 0 <= k < r@.len() ==> self.is_root((#[trigger] r@[k]).index as int),
            forall|j: int|
                0 <= j < self.nodes@.len() && self.is_root(j) ==> r@.contains(
                    NodeIndex { index: j as usize },
                ),
            forall|k1: int, k2: int|
                0 <= k1 < k2 < r@.len() ==> (#[trigger] r@[k1]).index < (#[trigger] r@[k2]).index,
    {
        let mut out: Vec<NodeIndex> = Vec::new();
        let mut i: usize = 0;
        while i < self.nodes.len()
            invariant
                i <= self.nodes@.len(),
                forall|k: int| 0 <= k < out@.len() ==> self.is_root((#[trigger] out@[k]).index as int),
                forall|j: int|
                    0 <= j < i && self.is_root(j) ==> out@.contains(NodeIndex { index: j as usize }),
                forall|k: int| 0 <= k < out@.len() ==> (#[trigger] out@[k]).index < i,
                forall|k1: int, k2: int|
                    0 <= k1 < k2 < out@.len() ==> (#[trigger] out@[k1]).index < (
                    #[trigger] out@[k2]).index,
            decreases self.nodes@.len() - i,
        {
            if self.nodes[i].is_some() && !self.has_tree_incoming_at(i) {
                let ghost prev = out@;
                out.push(NodeIndex { index: i });
                proof {
                    assert(out@[out@.len() - 1] == (NodeIndex { index: i }));
                    assert forall|y: NodeIndex| prev.contains(y) implies out@.contains(y) by {
                        let k = choose|k: int| 0 <= k < prev.len() && prev[k] == y;
                        assert(out@[k] == y);
                    }
                }
            }
            i = i + 1;
        }
        out
    }

    /// Targets of the live edges leaving `node`, ring edges included, in edge order.
    pub open spec fn spec_out_neighbors_from(self, i: int, e: int) -> Seq<int>
        decreases self.edges@.len() - e,
    {
        if e < 0 || e >= self.edges@.len() {
            Seq::<int>::empty()
        } else {
            (if self.valid_edge(e) && self.edge_at(e).source == i {
                seq![self.edge_at(e).target as int]
            } else {
                Seq::<int>::empty()
            }) + self.spec_out_neighbors_from(i, e + 1)
        }
    }

    pub open spec fn spec_out_neighbors(self, i: int) -> Seq<int> {
        self.spec_out_neighbors_from(i, 0)
    }

    /// Targets of the live non-ring edges leaving `node`, in edge order.
    pub open spec fn spec_tree_children_from(self, i: int, e: int) -> Seq<int>
        decreases self.edges@.len() - e,
    {
        if e < 0 || e >= self.edges@.len() {
            Seq::<int>::empty()
        } else {
            (if self.valid_edge(e) && self.edge_at(e).source == i && !self.edge_at(e).bond.ring {
                seq![self.edge_at(e).target as int]
            } else {
                Seq::<int>::empty()
            }) + self.spec_tree_children_from(i, e + 1)
        }
    }

    pub open spec fn spec_tree_children(self, i: int) -> Seq<int> {
        self.spec_tree_children_from(i, 0)
    }

    /// Neighbors reached over outgoing edges, ring edges included, in edge order.
    pub fn get_next_neighbors(&self, node: NodeIndex) -> (r: Vec<NodeIndex>)
        ensures
            r@.map_values(|n: NodeIndex| n.index as int) == self.spec_out_neighbors(
                node.index as int,
            ),
    {
        let mut out: Vec<NodeIndex> = Vec::new();
        let mut e: usize = 0;
        while e < self.edges.len()
            invariant
                e <= self.edges@.len(),
                out@.map_values(|n: NodeIndex| n.index as int) + self.spec_out_neighbors_from(
                    node.index as int,
                    e as int,
                ) == self.spec_out_neighbors(node.index as int),
            decreases self.edges@.len() - e,
        {
            let ghost prefix = out@.map_values(|n: NodeIndex| n.index as int);
            match &self.edges[e] {
                Some(edge) => {
                    if edge.source == node.index {
                        out.push(NodeIndex { index: edge.target });
                        proof {
                            assert(out@.map_values(|n: NodeIndex| n.index as int) =~= prefix.push(
                                self.edge_at(e as int).target as int,
                            ));
                            assert(prefix.push(self.edge_at(e as int).target as int)
                                + self.spec_out_neighbors_from(node.index as int, e + 1) =~= prefix
                                + self.spec_out_neighbors_from(node.index as int, e as int));
                        }
                    }
                },
                None => {},
            }
            e = e + 1;
        }
        proof {
            assert(out@.map_values(|n: NodeIndex| n.index as int) =~= self.spec_out_neighbors(
                node.index as int,
            ));
        }
        out
    }

    /// Targets of the non-ring edges leaving `node`, in edge order.
    pub(crate) fn tree_children(&self, node: usize) -> (r: Vec<NodeIndex>)
        ensures
            r@.map_values(|n: NodeIndex| n.index as int) == self.spec_tree_children(node as int),
            self.wf() ==> forall|k: int|
                0 <= k < r@.len() ==> self.valid_node((#[trigger] r@[k]).index as int),
    {
        let mut out: Vec<NodeIndex> = Vec::new();
        let mut e: usize = 0;
        while e < self.edges.len()
            invariant
                e <= self.edges@.len(),
                out@.map_values(|n: NodeIndex| n.index as int) + self.spec_tree_children_from(
                    node as int,
                    e as int,
                ) == self.spec_tree_children(node as int),
                self.wf() ==> forall|k: int|
                    0 <= k < out@.len() ==> self.valid_node((#[trigger] out@[k]).index as int),
            decreases self.edges@.len() - e,
        {
            let ghost prefix = out@.map_values(|n: NodeIndex| n.index as int);
            match &self.edges[e] {
                Some(edge) => {
                    if edge.source == node && !edge.bond.ring {
                        out.push(NodeIndex { index: edge.target });
                        proof {
                            assert(self.valid_edge(e as int));
                            assert(out@.map_values(|n: NodeIndex| n.index as int) =~= prefix.push(
                                self.edge_at(e as int).target as int,
                            ));
                            assert(prefix.push(self.edge_at(e as int).target as int)
                                + self.spec_tree_children_from(node as int, e + 1) =~= prefix
                                + self.spec_tree_children_from(node as int, e as int));
                        }
                    }
                },
                None => {},
            }
            e = e + 1;
        }
        proof {
            assert(out@.map_values(|n: NodeIndex| n.index as int) =~= self.spec_tree_children(
                node as int,
            ));
        }
        out
    }

    /// The nodes below `i` over non-ring edges: the children, then each
    /// child's own reach, until the fuel runs out.
    pub open spec fn spec_reach_below(self, i: int, fuel: nat) -> Seq<int>
        decreases fuel, 0int,
    {
        if fuel == 0 {
            Seq::<int>::empty()
        } else {
            self.spec_tree_children(i) + self.spec_reach_below_list(
                self.spec_tree_children(i),
                (fuel - 1) as nat,
            )
        }
    }

    /// The reaches of a list of nodes, one after the other.
    pub open spec fn spec_reach_below_list(self, ns: Seq<int>, fuel: nat) -> Seq<int>
        decreases fuel, 1int, ns.len(),
    {
        if ns.len() == 0 {
            Seq::<int>::empty()
        } else {
            self.spec_reach_below(ns[0], fuel) + self.spec_reach_below_list(
                ns.drop_first(),
                fuel,
            )
        }
    }
}

/// The reach of a list grows one head at a time.
pub proof fn lemma_reach_list_push(ws: Workspace, ns: Seq<int>, x: int, fuel: nat)
    ensures
        ws.spec_reach_below_list(ns.push(x), fuel) == ws.spec_reach_below_list(ns, fuel)
            + ws.spec_reach_below(x, fuel),
    decreases ns.len(),
{
    if ns.len() == 0 {
        assert(ns.push(x).drop_first() =~= Seq::<int>::empty());
        assert(ns.push(x)[0] == x);
        assert(ws.spec_reach_below_list(Seq::<int>::empty(), fuel) =~= Seq::<int>::empty());
        assert(ws.spec_reach_below_list(ns.push(x), fuel) =~= ws.spec_reach_below(x, fuel)
            + ws.spec_reach_below_list(Seq::<int>::empty(), fuel));
        assert(ws.spec_reach_below_list(ns.push(x), fuel) =~= ws.spec_reach_below_list(ns, fuel)
            + ws.spec_reach_below(x, fuel));
    } else {
        assert(ns.push(x).drop_first() =~= ns.drop_first().push(x));
        assert(ns.push(x)[0] == ns[0]);
        lemma_reach_list_push(ws, ns.drop_first(), x, fuel);
        assert(ws.spec_reach_below_list(ns.push(x), fuel) =~= ws.spec_reach_below(ns[0], fuel)
            + ws.spec_reach_below_list(ns.drop_first().push(x), fuel));
        assert(ws.spec_reach_below_list(ns.push(x), fuel) =~= ws.spec_reach_below_list(ns, fuel)
            + ws.spec_reach_below(x, fuel));
    }
}

impl Workspace {
    /// All nodes reached from `node` over non-ring edges, children first.
    fn search_all_atoms(&self, node: usize, fuel: usize) -> (r: Vec<NodeIndex>)
        requires
            self.wf(),
        ensures
            r@.map_values(|n: NodeIndex| n.index as int) == self.spec_reach_below(
                node as int,
                fuel as nat,
            ),
            forall|k: int| 0 <= k < r@.len() ==> self.valid_node((#[trigger] r@[k]).index as int),
        decreases fuel,
    {
        if fuel == 0 {
            let out: Vec<NodeIndex> = Vec::new();
            proof {
                assert(out@.map_values(|n: NodeIndex| n.index as int) =~= self.spec_reach_below(
                    node as int,
                    fuel as nat,
                ));
            }
            return out;
        }
        let children = self.tree_children(node);
        let ghost children_ids = children@.map_values(|n: NodeIndex| n.index as int);
        let mut out: Vec<NodeIndex> = Vec::new();
        let mut k: usize = 0;
        while k < children.len()
            invariant
                k <= children@.len(),
                children_ids == children@.map_values(|n: NodeIndex| n.index as int),
                forall|j: int|
                    0 <= j < children@.len() ==> self.valid_node(
                        (#[trigger] children@[j]).index as int,
                    ),
                out@ == children@.subrange(0, k as int),
            decreases children@.len() - k,
        {
            out.push(children[k]);
            k = k + 1;
            proof {
                assert(out@ =~= children@.subrange(0, k as int));
            }
        }
        proof {
            assert(out@ =~= children@);
        }
        let mut k: usize = 0;
        while k < children.len()
            invariant
                k <= children@.len(),
                self.wf(),
                fuel >= 1,
                children_ids == children@.map_values(|n: NodeIndex| n.index as int),
                children_ids == self.spec_tree_children(node as int),
                forall|j: int|
                    0 <= j < children@.len() ==> self.valid_node(
                        (#[trigger] children@[j]).index as int,
                    ),
                out@.map_values(|n: NodeIndex| n.index as int) == children_ids
                    + self.spec_reach_below_list(
                    children_ids.subrange(0, k as int),
                    (fuel - 1) as nat,
                ),
                forall|j: int| 0 <= j < out@.len() ==> self.valid_node((#[trigger] out@[j]).index as int),
            decreases children@.len() - k,
        {
            let c = children[k];
            let ghost done = children_ids.subrange(0, k as int);
            let mut sub = self.search_all_atoms(c.index, fuel - 1);
            let ghost sub_ids = sub@.map_values(|n: NodeIndex| n.index as int);
            out.append(&mut sub);
            k = k + 1;
            proof {
                let now = children_ids.subrange(0, k as int);
                assert(now =~= done.push(c.index as int));
                lemma_reach_list_push(*self, done, c.index as int, (fuel - 1) as nat);
                assert(out@.map_values(|n: NodeIndex| n.index as int) =~= children_ids
                    + self.spec_reach_below_list(done, (fuel - 1) as nat) + sub_ids);
                assert(children_ids + self.spec_reach_below_list(done, (fuel - 1) as nat)
                    + sub_ids =~= children_ids + self.spec_reach_below_list(
                    now,
                    (fuel - 1) as nat,
                ));
            }
        }
        proof {
            assert(children_ids.subrange(0, children@.len() as int) =~= children_ids);
            assert(out@.map_values(|n: NodeIndex| n.index as int) =~= self.spec_reach_below(
                node as int,
                fuel as nat,
            ));
        }
        out
    }

    /// Every node below `node` over non-ring edges, children first; the node
    /// itself is not listed.
    pub fn get_outgoings(&self, node: NodeIndex) -> (r: Vec<NodeIndex>)
        requires
            self.wf(),
        ensures
            r@.map_values(|n: NodeIndex| n.index as int) == self.spec_reach_below(
                node.index as int,
                self.nodes@.len() as nat,
            ),
            forall|k: int| 0 <= k < r@.len() ==> self.valid_node((#[trigger] r@[k]).index as int),
    {
        self.search_all_atoms(node.index, self.nodes.len())
    }

    /// What `get_atoms_of_structure` yields: the root, then its reach.
    pub open spec fn spec_structure_atoms(self, i: int) -> Option<Seq<int>> {
        match self.spec_root_of(i) {
            None => None,
            Some(root) => Some(
                seq![root] + self.spec_reach_below(root, self.nodes@.len() as nat),
            ),
        }
    }

    /// Every node of the structure that holds `structure_node`: its root
    /// first, then all nodes below the root over non-ring edges.
    pub fn get_atoms_of_structure(&self, structure_node: NodeIndex) -> (r: Option<Vec<NodeIndex>>)
        requires
            self.wf(),
        ensures
            match r {
                Some(v) => self.spec_structure_atoms(structure_node.index as int) == Some(
                    v@.map_values(|n: NodeIndex| n.index as int),
                ) && (forall|k: int|
                    0 <= k < v@.len() ==> self.valid_node((#[trigger] v@[k]).index as int)),
                None => self.spec_structure_atoms(structure_node.index as int) is None,
            },
    {
        let root = match self.find_root_of(structure_node) {
            Some(root) => root,
            None => {
                return None;
            },
        };
        let mut out: Vec<NodeIndex> = Vec::new();
        out.push(root);
        let mut rest = self.search_all_atoms(root.index, self.nodes.len());
        let ghost rest_ids = rest@.map_values(|n: NodeIndex| n.index as int);
        out.append(&mut rest);
        proof {
            assert(out@.map_values(|n: NodeIndex| n.index as int) =~= seq![root.index as int]
                + rest_ids);
        }
        Some(out)
    }

    /// Ids of the structure's atoms whose atom the predicate accepts, in
    /// traversal order: a structure atom left out was rejected.
    pub fn filter_nodes_in_structure<F: Fn(&Atom) -> bool>(
        &self,
        structre_root: NodeIndex,
        find_fn: F,
    ) -> (r: Option<Vec<NodeIndex>>)
        requires
            self.wf(),
            forall|a: Atom| #[trigger] find_fn.requires((&a,)),
        ensures
            match r {
                Some(v) => {
                    let atoms = self.spec_structure_atoms(structre_root.index as int)->Some_0;
                    &&& self.spec_structure_atoms(structre_root.index as int) is Some
                    &&& (forall|k: int|
                        0 <= k < v@.len() ==> self.valid_node((#[trigger] v@[k]).index as int)
                            && find_fn.ensures((&self.atom_at(v@[k].index as int),), true))
                    &&& (forall|j: int|
                        0 <= j < atoms.len() && !v@.contains(
                            NodeIndex { index: (#[trigger] atoms[j]) as usize },
                        ) ==> find_fn.ensures((&self.atom_at(atoms[j]),), false))
                },
                None => self.spec_structure_atoms(structre_root.index as int) is None,
            },
    {
        let atoms = match self.get_atoms_of_structure(structre_root) {
            Some(v) => v,
            None => {
                return None;
            },
        };
        let ghost gatoms = atoms@.map_values(|n: NodeIndex| n.index as int);
        let mut out: Vec<NodeIndex> = Vec::new();
        let mut k: usize = 0;
        while k < atoms.len()
            invariant
                k <= atoms@.len(),
                self.wf(),
                gatoms == atoms@.map_values(|n: NodeIndex| n.index as int),
                forall|a: Atom| #[trigger] find_fn.requires((&a,)),
                forall|j: int|
                    0 <= j < atoms@.len() ==> self.valid_node((#[trigger] atoms@[j]).index as int),
                forall|j: int|
                    0 <= j < out@.len() ==> self.valid_node((#[trigger] out@[j]).index as int)
                        && find_fn.ensures((&self.atom_at(out@[j].index as int),), true),
                forall|j: int|
                    0 <= j < k && !out@.contains(
                        NodeIndex { index: (#[trigger] gatoms[j]) as usize },
                    ) ==> find_fn.ensures((&self.atom_at(gatoms[j]),), false),
            decreases atoms@.len() - k,
        {
            let idx = atoms[k];
            proof {
                assert(gatoms[k as int] == idx.index as int);
                assert(NodeIndex { index: gatoms[k as int] as usize } == idx);
            }
            match self.get_atom(idx) {
                Some(atom) => {
                    if find_fn(atom) {
                        let ghost prev = out@;
                        out.push(idx);
                        proof {
                            assert(out@[out@.len() - 1] == idx);
                            assert forall|y: NodeIndex| prev.contains(y) implies out@.contains(
                                y,
                            ) by {
                                let w = choose|w: int| 0 <= w < prev.len() && prev[w] == y;
                                assert(out@[w] == y);
                            }
                        }
                    }
                },
                None => {},
            }
            k = k + 1;
        }
        Some(out)
    }

    /// The first structure atom, in traversal order, that the predicate
    /// accepts; nothing where the structure does not resolve or every one of
    /// its atoms is rejected.
    pub fn find_node_in_structure<F: Fn(&Atom) -> bool>(
        &self,
        structure_root: NodeIndex,
        find_fn: F,
    ) -> (r: Option<NodeIndex>)
        requires
            self.wf(),
            forall|a: Atom| #[trigger] find_fn.requires((&a,)),
        ensures
            match r {
                Some(n) => {
                    let atoms = self.spec_structure_atoms(structure_root.index as int)->Some_0;
                    &&& self.spec_structure_atoms(structure_root.index as int) is Some
                    &&& self.valid_node(n.index as int)
                    &&& find_fn.ensures((&self.atom_at(n.index as int),), true)
                    &&& exists|k: int|
                        0 <= k < atoms.len() && (#[trigger] atoms[k]) == n.index as int && (forall|
                            j: int,
                        |
                            0 <= j < k ==> find_fn.ensures((&self.atom_at(#[trigger] atoms[j]),), false))
                },
                None => self.spec_structure_atoms(structure_root.index as int) is None || (forall|
                    j: int,
                |
                    0 <= j < self.spec_structure_atoms(structure_root.index as int)->Some_0.len()
                        ==> find_fn.ensures(
                        (
                            &self.atom_at(
                                #[trigger] self.spec_structure_atoms(
                                    structure_root.index as int,
                                )->Some_0[j],
                            ),
                        ),
                        false,
                    )),
            },
    {
        let atoms = match self.get_atoms_of_structure(structure_root) {
            Some(v) => v,
            None => {
                return None;
            },
        };
        let ghost gatoms = atoms@.map_values(|n: NodeIndex| n.index as int);
        let mut k: usize = 0;
        while k < atoms.len()
            invariant
                k <= atoms@.len(),
                self.wf(),
                gatoms == atoms@.map_values(|n: NodeIndex| n.index as int),
                gatoms == self.spec_structure_atoms(structure_root.index as int)->Some_0,
                self.spec_structure_atoms(structure_root.index as int) is Some,
                forall|a: Atom| #[trigger] find_fn.requires((&a,)),
                forall|j: int|
                    0 <= j < atoms@.len() ==> self.valid_node((#[trigger] atoms@[j]).index as int),
                forall|j: int|
                    0 <= j < k ==> find_fn.ensures((&self.atom_at(#[trigger] gatoms[j]),), false),
            decreases atoms@.len() - k,
        {
            let idx = atoms[k];
            proof {
                assert(gatoms[k as int] == idx.index as int);
            }
            match self.get_atom(idx) {
                Some(atom) => {
                    if find_fn(atom) {
                        proof {
                            assert(0 <= k < gatoms.len() && gatoms[k as int] == idx.index as int
                                && (forall|j: int|
                                0 <= j < k ==> find_fn.ensures(
                                    (&self.atom_at(#[trigger] gatoms[j]),),
                                    false,
                                )));
                        }
                        return Some(idx);
                    }
                },
                None => {
                    proof {
                        assert(false);
                    }
                },
            }
            k = k + 1;
        }
        None
    }

    /// Ids of all live nodes whose atom the predicate accepts, in id order.
    pub fn filter_nodes<F: Fn(&Atom) -> bool>(&self, find_fn: F) -> (r: Vec<NodeIndex>)
        requires
            forall|a: Atom| #[trigger] find_fn.requires((&a,)),
        ensures
            forall|k: int|
                0 <= k < r@.len() ==> self.valid_node((#[trigger] r@[k]).index as int)
                    && find_fn.ensures((&self.atom_at(r@[k].index as int),), true),
            forall|j: int|
                self.valid_node(j) && !r@.contains(NodeIndex { index: j as usize })
                    ==> find_fn.ensures((&self.atom_at(j),), false),
    {
        let mut out: Vec<NodeIndex> = Vec::new();
        let mut i: usize = 0;
        while i < self.nodes.len()
            invariant
                i <= self.nodes@.len(),
                forall|a: Atom| #[trigger] find_fn.requires((&a,)),
                forall|k: int|
                    0 <= k < out@.len() ==> self.valid_node((#[trigger] out@[k]).index as int)
                        && find_fn.ensures((&self.atom_at(out@[k].index as int),), true),
                forall|j: int|
                    0 <= j < i && self.valid_node(j) && !out@.contains(
                        NodeIndex { index: j as usize },
                    ) ==> find_fn.ensures((&self.atom_at(j),), false),
                forall|k: int| 0 <= k < out@.len() ==> (#[trigger] out@[k]).index < i,
            decreases self.nodes@.len() - i,
        {
            match &self.nodes[i] {
                Some(atom) => {
                    if find_fn(atom) {
                        let ghost prev = out@;
                        out.push(NodeIndex { index: i });
                        proof {
                            assert(out@[out@.len() - 1] == (NodeIndex { index: i }));
                            assert forall|y: NodeIndex| prev.contains(y) implies out@.contains(
                                y,
                            ) by {
                                let k = choose|k: int| 0 <= k < prev.len() && prev[k] == y;
                                assert(out@[k] == y);
                            }
                        }
                    }
                },
                None => {},
            }
            i = i + 1;
        }
        out
    }

    /// The first live node, in id order, that the predicate accepts: every
    /// live node with a smaller id was rejected.
    pub fn find_node<F: Fn(&Atom) -> bool>(&self, find_fn: F) -> (r: Option<NodeIndex>)
        requires
            forall|a: Atom| #[trigger] find_fn.requires((&a,)),
        ensures
            match r {
                Some(n) => self.valid_node(n.index as int) && find_fn.ensures(
                    (&self.atom_at(n.index as int),),
                    true,
                ) && (forall|j: int|
                    0 <= j < n.index as int && self.valid_node(j) ==> find_fn.ensures(
                        (&self.atom_at(j),),
                        false,
                    )),
                None => forall|j: int|
                    self.valid_node(j) ==> find_fn.ensures((&self.atom_at(j),), false),
            },
    {
        let mut i: usize = 0;
        while i < self.nodes.len()
            invariant
                i <= self.nodes@.len(),
                forall|a: Atom| #[trigger] find_fn.requires((&a,)),
                forall|j: int|
                    0 <= j < i && self.valid_node(j) ==> find_fn.ensures(
                        (&self.atom_at(j),),
                        false,
                    ),
            decreases self.nodes@.len() - i,
        {
            match &self.nodes[i] {
                Some(atom) => {
                    if find_fn(atom) {
                        return Some(NodeIndex { index: i });
                    }
                },
                None => {},
            }
            i = i + 1;
        }
        None
    }

    /// Do all the given atoms sit in one structure, sharing one root? An empty
    /// list has none.
    pub fn in_same_structure(&self, atoms: &[NodeIndex]) -> (r: bool)
        ensures
            r == (atoms@.len() > 0 && forall|k: int|
                0 <= k < atoms@.len() ==> self.spec_root_of((#[trigger] atoms@[k]).index as int)
                    == self.spec_root_of(atoms@[0].index as int)),
    {
        if atoms.len() == 0 {
            return false;
        }
        let first = self.find_root_of(atoms[0]);
        let mut k: usize = 1;
        while k < atoms.len()
            invariant
                1 <= k <= atoms@.len(),
                match first {
                    Some(x) => self.spec_root_of(atoms@[0].index as int) == Some(x.index as int),
                    None => self.spec_root_of(atoms@[0].index as int) is None,
                },
                forall|j: int|
                    0 <= j < k ==> self.spec_root_of((#[trigger] atoms@[j]).index as int)
                        == self.spec_root_of(atoms@[0].index as int),
            decreases atoms@.len() - k,
        {
            let rk = self.find_root_of(atoms[k]);
            let same = match (&first, &rk) {
                (Some(a), Some(b)) => a.index == b.index,
                (None, None) => true,
                _ => false,
            };
            if !same {
                return false;
            }
            k = k + 1;
        }
        true
    }
}

} // verus!
