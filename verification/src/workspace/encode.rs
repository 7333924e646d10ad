use vstd::prelude::*;

use crate::definitions::bond::{spec_bond_char, Bond, BondType};
use crate::text::{dec_digits, push_dec, push_str_chars, string_of_chars};
use crate::workspace::{NodeIndex, Workspace};

verus! {

/// The walk state of the SMILES writer: the atom written last, the atom to
/// write next, the open branch points with their remaining children, and the
/// ring edges in the order their labels were handed out.
pub ghost struct EncodeState {
    pub previous: Option<int>,
    pub current: Option<int>,
    pub branch: Seq<(int, Seq<int>)>,
    pub rings: Seq<int>,
}

/// The first live edge from `p` to `c`, scanning from `e`.
pub open spec fn spec_first_edge_from(ws: Workspace, p: int, c: int, e: int) -> Option<int>
    decreases ws.edges@.len() - e,
{
    if e < 0 || e >= ws.edges@.len() {
        None
    } else if ws.valid_edge(e) && ws.edge_at(e).source == p && ws.edge_at(e).target == c {
        Some(e)
    } else {
        spec_first_edge_from(ws, p, c, e + 1)
    }
}

/// The live ring edges touching `c`, in edge order, scanning from `e`.
pub open spec fn spec_ring_edges_from(ws: Workspace, c: int, e: int) -> Seq<int>
    decreases ws.edges@.len() - e,
{
    if e < 0 || e >= ws.edges@.len() {
        Seq::<int>::empty()
    } else {
        (if ws.valid_edge(e) && ws.edge_at(e).bond.ring && (ws.edge_at(e).source == c || ws.edge_at(
            e,
        ).target == c) {
            seq![e]
        } else {
            Seq::<int>::empty()
        }) + spec_ring_edges_from(ws, c, e + 1)
    }
}

/// The position of an edge id in the ring-label list, from `k`.
pub open spec fn spec_index_of_from(rings: Seq<int>, e: int, k: int) -> Option<int>
    decreases rings.len() - k,
{
    if k < 0 || k >= rings.len() {
        None
    } else if rings[k] == e {
        Some(k)
    } else {
        spec_index_of_from(rings, e, k + 1)
    }
}

/// A ring label as written: bare for one digit, `%`-prefixed from ten up.
pub open spec fn spec_ring_label(n: nat) -> Seq<char> {
    if n >= 10 {
        seq!['%'] + dec_digits(n)
    } else {
        dec_digits(n)
    }
}

/// The written ring references at atom `c`: each incident ring edge gets its
/// label, a fresh one with its bond kind unless implicit, a known one bare;
/// several references with a written bond kind go in parentheses.
pub open spec fn spec_ring_tokens(
    ws: Workspace,
    c: int,
    list: Seq<int>,
    k: int,
    rings: Seq<int>,
) -> (Seq<char>, Seq<int>)
    decreases list.len() - k,
{
    if k < 0 || k >= list.len() {
        (Seq::<char>::empty(), rings)
    } else {
        let e = list[k];
        let b = ws.edge_at(e).bond;
        let other: int = if ws.edge_at(e).source == c {
            ws.edge_at(e).target as int
        } else {
            ws.edge_at(e).source as int
        };
        let known = spec_index_of_from(rings, e, 0);
        let label: nat = match known {
            Some(pos) => (pos + 1) as nat,
            None => (rings.len() + 1) as nat,
        };
        let rings2 = match known {
            Some(_) => rings,
            None => rings.push(e),
        };
        let prefix: Seq<char> = if known is None && !(b.bond_type is Single) && !(ws.atom_at(
            other,
        ).aromatic && ws.atom_at(c).aromatic && b.bond_type is Aromatic) {
            b.spec_token()
        } else {
            Seq::<char>::empty()
        };
        let tok: Seq<char> = if k + 1 < list.len() && prefix.len() > 0 {
            seq!['('] + prefix + spec_ring_label(label) + seq![')']
        } else {
            prefix + spec_ring_label(label)
        };
        let (rest, rings3) = spec_ring_tokens(ws, c, list, k + 1, rings2);
        (tok + rest, rings3)
    }
}

/// One writer step: the bond from the previous atom unless implicit, the atom
/// token, the ring references, and the branch bookkeeping that picks the atom
/// to write next. `None` marks a graph the walk cannot continue on.
pub open spec fn spec_encode_step(ws: Workspace, st: EncodeState) -> Option<(Seq<char>, EncodeState)> {
    let c = st.current->Some_0;
    if !ws.valid_node(c) {
        None
    } else {
        let atom_tok = ws.atom_at(c)@.spec_token();
        let prefix: Option<Seq<char>> = match st.previous {
            None => Some(Seq::<char>::empty()),
            Some(p) => match spec_first_edge_from(ws, p, c, 0) {
                None => None,
                Some(e) => {
                    let b = ws.edge_at(e).bond;
                    if (ws.atom_at(p).aromatic && ws.atom_at(c).aromatic && b.bond_type
                        is Aromatic) || b.bond_type is Single {
                        Some(Seq::<char>::empty())
                    } else {
                        Some(b.spec_token())
                    }
                },
            },
        };
        match prefix {
            None => None,
            Some(pre) => {
                let rlist = spec_ring_edges_from(ws, c, 0);
                let (rtoks, rings2) = spec_ring_tokens(ws, c, rlist, 0, st.rings);
                let children = ws.spec_tree_children(c);
                if children.len() == 0 {
                    if st.branch.len() == 0 {
                        Some(
                            (
                                pre + atom_tok + rtoks,
                                EncodeState { current: None, rings: rings2, ..st },
                            ),
                        )
                    } else {
                        let (bnode, kids) = st.branch.last();
                        let close: Seq<char> = seq![')'] + (if kids.len() > 1 {
                            seq!['(']
                        } else {
                            Seq::<char>::empty()
                        });
                        let branch2 = if kids.len() >= 2 {
                            st.branch.drop_last().push((bnode, kids.drop_first()))
                        } else {
                            st.branch.drop_last()
                        };
                        Some(
                            (
                                pre + atom_tok + rtoks + close,
                                EncodeState {
                                    previous: Some(bnode),
                                    current: Some(kids[0]),
                                    branch: branch2,
                                    rings: rings2,
                                },
                            ),
                        )
                    }
                } else if children.len() == 1 {
                    Some(
                        (
                            pre + atom_tok + rtoks,
                            EncodeState {
                                previous: Some(c),
                                current: Some(children[0]),
                                rings: rings2,
                                ..st
                            },
                        ),
                    )
                } else {
                    Some(
                        (
                            pre + atom_tok + rtoks + seq!['('],
                            EncodeState {
                                previous: Some(c),
                                current: Some(children[0]),
                                branch: st.branch.push((c, children.drop_first())),
                                rings: rings2,
                            },
                        ),
                    )
                }
            },
        }
    }
}

/// The writer run to completion, one atom a step, within the fuel.
pub open spec fn spec_encode_loop(ws: Workspace, st: EncodeState, fuel: nat) -> Option<Seq<char>>
    decreases fuel,
{
    match st.current {
        None => Some(Seq::<char>::empty()),
        Some(_) => {
            if fuel == 0 {
                None
            } else {
                match spec_encode_step(ws, st) {
                    None => None,
                    Some((frag, st2)) => match spec_encode_loop(ws, st2, (fuel - 1) as nat) {
                        None => None,
                        Some(rest) => Some(frag + rest),
                    },
                }
            }
        },
    }
}

/// What writing the structure of node `n` yields: the walk starts at the
/// structure's root and gets one step of fuel per node.
pub open spec fn spec_to_smiles(ws: Workspace, n: int) -> Option<Seq<char>> {
    match ws.spec_root_of(n) {
        None => None,
        Some(root) => spec_encode_loop(
            ws,
            EncodeState {
                previous: None,
                current: Some(root),
                branch: Seq::<(int, Seq<int>)>::empty(),
                rings: Seq::<int>::empty(),
            },
            ws.nodes@.len() as nat,
        ),
    }
}

fn bond_char_of(bt: BondType) -> (c: char)
    ensures
        c == spec_bond_char(bt),
{
    match bt {
        BondType::Single => '-',
        BondType::UpSingle => '/',
        BondType::DownSingle => '\\',
        BondType::Double => '=',
        BondType::Triple => '#',
        BondType::Quad => '$',
        BondType::Aromatic => ':',
        BondType::NoBond => '.',
    }
}

/// Append a ring label: one bare digit, or `%` and the digits from ten up.
fn push_ring_label(out: &mut Vec<char>, n: u64)
    ensures
        final(out)@ == old(out)@ + spec_ring_label(n as nat),
{
    if n >= 10 {
        out.push('%');
        push_dec(out, n);
        proof {
            assert(out@ =~= old(out)@ + spec_ring_label(n as nat));
        }
    } else {
        push_dec(out, n);
    }
}

impl Workspace {
    fn first_edge_from(&self, p: usize, c: usize, e: usize) -> (r: Option<usize>)
        requires
            e <= self.edges@.len(),
        ensures
            match r {
                Some(x) => spec_first_edge_from(*self, p as int, c as int, e as int) == Some(
                    x as int,
                ) && self.valid_edge(x as int),
                None => spec_first_edge_from(*self, p as int, c as int, e as int) is None,
            },
        decreases self.edges@.len() - e,
    {
        if e >= self.edges.len() {
            return None;
        }
        match &self.edges[e] {
            Some(ed) => {
                if ed.source == p && ed.target == c {
                    return Some(e);
                }
            },
            None => {},
        }
        self.first_edge_from(p, c, e + 1)
    }

    /// The live ring edges touching `c`, in edge order.
    fn ring_edges_at(&self, c: usize) -> (r: Vec<usize>)
        ensures
            r@.map_values(|x: usize| x as int) == spec_ring_edges_from(*self, c as int, 0),
            forall|k: int|
                0 <= k < r@.len() ==> self.valid_edge((#[trigger] r@[k]) as int) && self.edge_at(
                    r@[k] as int,
                ).bond.ring,
    {
        let mut out: Vec<usize> = Vec::new();
        let mut e: usize = 0;
        while e < self.edges.len()
            invariant
                e <= self.edges@.len(),
                out@.map_values(|x: usize| x as int) + spec_ring_edges_from(*self, c as int, e as int)
                    == spec_ring_edges_from(*self, c as int, 0),
                forall|k: int|
                    0 <= k < out@.len() ==> self.valid_edge((#[trigger] out@[k]) as int)
                        && self.edge_at(out@[k] as int).bond.ring,
            decreases self.edges@.len() - e,
        {
            let ghost prefix = out@.map_values(|x: usize| x as int);
            match &self.edges[e] {
                Some(ed) => {
                    if ed.bond.ring && (ed.source == c || ed.target == c) {
                        out.push(e);
                        proof {
                            assert(out@.map_values(|x: usize| x as int) =~= prefix.push(e as int));
                            assert(prefix.push(e as int) + spec_ring_edges_from(
                                *self,
                                c as int,
                                e + 1,
                            ) =~= prefix + spec_ring_edges_from(*self, c as int, e as int));
                        }
                    }
                },
                None => {},
            }
            e = e + 1;
        }
        proof {
            assert(out@.map_values(|x: usize| x as int) =~= spec_ring_edges_from(
                *self,
                c as int,
                0,
            ));
        }
        out
    }

    fn index_of_ring(rings: &Vec<usize>, e: usize, k: usize) -> (r: Option<usize>)
        requires
            k <= rings@.len(),
        ensures
            ({
                let gr = rings@.map_values(|x: usize| x as int);
                match r {
                    Some(p) => spec_index_of_from(gr, e as int, k as int) == Some(p as int) && p
                        < rings@.len(),
                    None => spec_index_of_from(gr, e as int, k as int) is None,
                }
            }),
        decreases rings@.len() - k,
    {
        if k >= rings.len() {
            return None;
        }
        if rings[k] == e {
            return Some(k);
        }
        Self::index_of_ring(rings, e, k + 1)
    }

    /// Write the ring references of atom `c` for the listed edges from `k` on.
    #[verifier::rlimit(100)]
    #[verifier::spinoff_prover]
    fn ring_tokens_at(
        &self,
        c: usize,
        list: &Vec<usize>,
        k: usize,
        rings: &mut Vec<usize>,
        out: &mut Vec<char>,
    )
        requires
            self.wf(),
            self.valid_node(c as int),
            k <= list@.len(),
            forall|j: int|
                0 <= j < list@.len() ==> self.valid_edge((#[trigger] list@[j]) as int),
        ensures
            ({
                let pair = spec_ring_tokens(
                    *self,
                    c as int,
                    list@.map_values(|x: usize| x as int),
                    k as int,
                    old(rings)@.map_values(|x: usize| x as int),
                );
                final(out)@ == old(out)@ + pair.0 && final(rings)@.map_values(|x: usize| x as int)
                    == pair.1
            }),
        decreases list@.len() - k,
    {
        if k >= list.len() {
            return ;
        }
        let e = list[k];
        let (b, other): (Bond, usize) = match &self.edges[e] {
            Some(ed) => (
                ed.bond,
                if ed.source == c {
                    ed.target
                } else {
                    ed.source
                },
            ),
            None => {
                proof {
                    assert(false);
                }
                (Bond { bond_type: BondType::Single, ring: false }, 0)
            },
        };
        let known = Self::index_of_ring(rings, e, 0);
        let label: usize = match known {
            Some(pos) => {
                let rl = rings.len();
                proof {
                    assert(pos < rl);
                }
                pos + 1
            },
            None => {
                rings.push(e);
                rings.len()
            },
        };
        let opening = known.is_none();
        let other_aromatic = match self.get_atom(NodeIndex { index: other }) {
            Some(a) => a.aromatic,
            None => false,
        };
        let c_aromatic = match self.get_atom(NodeIndex { index: c }) {
            Some(a) => a.aromatic,
            None => false,
        };
        proof {
            assert(self.valid_edge(e as int));
            assert(self.valid_node(self.edge_at(e as int).source as int));
            assert(self.valid_node(other as int) && self.valid_node(c as int));
        }
        let has_prefix = opening && !matches!(b.bond_type, BondType::Single) && !(other_aromatic
            && c_aromatic && matches!(b.bond_type, BondType::Aromatic));
        let wrap = k + 1 < list.len() && has_prefix;
        if wrap {
            out.push('(');
        }
        if has_prefix {
            out.push(bond_char_of(b.bond_type));
        }
        push_ring_label(out, label as u64);
        if wrap {
            out.push(')');
        }
        proof {
            let glist = list@.map_values(|x: usize| x as int);
            let grings0 = old(rings)@.map_values(|x: usize| x as int);
            let pair = spec_ring_tokens(*self, c as int, glist, k as int, grings0);
            assert(glist[k as int] == e as int);
            if known is None {
                assert(rings@.map_values(|x: usize| x as int) =~= grings0.push(e as int));
            }
        }
        let ghost out_here = out@;
        self.ring_tokens_at(c, list, k + 1, rings, out);
        proof {
            let glist = list@.map_values(|x: usize| x as int);
            let grings0 = old(rings)@.map_values(|x: usize| x as int);
            let pair = spec_ring_tokens(*self, c as int, glist, k as int, grings0);
            assert(out@ =~= old(out)@ + pair.0);
        }
    }

    /// One exec writer step, mirroring `spec_encode_step`: emits the step's
    /// fragment and hands back the next previous/current pair, or nothing
    /// where the walk cannot continue.
    #[verifier::rlimit(100)]
    #[verifier::loop_isolation(false)]
    #[verifier::spinoff_prover]
    fn encode_step_exec(
        &self,
        previous: Option<usize>,
        c: usize,
        branch: &mut Vec<(usize, Vec<usize>)>,
        rings: &mut Vec<usize>,
        out: &mut Vec<char>,
        Ghost(gst): Ghost<EncodeState>,
    ) -> (r: Option<(Option<usize>, Option<usize>)>)
        requires
            self.wf(),
            gst.current == Some(c as int),
            self.valid_node(c as int),
            match (previous, gst.previous) {
                (Some(p), Some(g)) => p as int == g && self.valid_node(p as int),
                (None, None) => true,
                _ => false,
            },
            old(branch)@.map_values(
                |f: (usize, Vec<usize>)| (f.0 as int, f.1@.map_values(|x: usize| x as int)),
            ) == gst.branch,
            forall|j: int|
                0 <= j < old(branch)@.len() ==> {
                    let f = #[trigger] old(branch)@[j];
                    &&& f.1@.len() >= 1
                    &&& self.valid_node(f.0 as int)
                    &&& (forall|t: int|
                        0 <= t < f.1@.len() ==> self.valid_node((#[trigger] f.1@[t]) as int))
                },
            old(rings)@.map_values(|x: usize| x as int) == gst.rings,
        ensures
            match r {
                None => spec_encode_step(*self, gst) is None,
                Some((np, nc)) => spec_encode_step(*self, gst) matches Some(pr) && {
                    let st2 = pr.1;
                    &&& final(out)@ == old(out)@ + pr.0
                    &&& st2.previous == (match np {
                        Some(p) => Some(p as int),
                        None => None,
                    })
                    &&& st2.current == (match nc {
                        Some(x) => Some(x as int),
                        None => None,
                    })
                    &&& (match np {
                        Some(p) => self.valid_node(p as int),
                        None => true,
                    })
                    &&& (match nc {
                        Some(x) => self.valid_node(x as int),
                        None => true,
                    })
                    &&& st2.branch == final(branch)@.map_values(
                        |f: (usize, Vec<usize>)| (f.0 as int, f.1@.map_values(|x: usize| x as int)),
                    )
                    &&& st2.rings == final(rings)@.map_values(|x: usize| x as int)
                    &&& (forall|j: int|
                        0 <= j < final(branch)@.len() ==> {
                            let f = #[trigger] final(branch)@[j];
                            &&& f.1@.len() >= 1
                            &&& self.valid_node(f.0 as int)
                            &&& (forall|t: int|
                                0 <= t < f.1@.len() ==> self.valid_node(
                                    (#[trigger] f.1@[t]) as int,
                                ))
                        })
                },
            },
    {
        let ghost gbranch0 = gst.branch;
        // bond from the previous atom, unless implicit
        match previous {
            None => {},
            Some(p) => {
                match self.first_edge_from(p, c, 0) {
                    None => {
                        return None;
                    },
                    Some(e) => {
                        let b = match &self.edges[e] {
                            Some(ed) => ed.bond,
                            None => {
                                proof {
                                    assert(false);
                                }
                                Bond { bond_type: BondType::Single, ring: false }
                            },
                        };
                        let p_aromatic = match self.get_atom(NodeIndex { index: p }) {
                            Some(a) => a.aromatic,
                            None => false,
                        };
                        let c_aromatic = match self.get_atom(NodeIndex { index: c }) {
                            Some(a) => a.aromatic,
                            None => false,
                        };
                        let implicit = (p_aromatic && c_aromatic && matches!(
                            b.bond_type,
                            BondType::Aromatic,
                        )) || matches!(b.bond_type, BondType::Single);
                        if !implicit {
                            out.push(bond_char_of(b.bond_type));
                        }
                    },
                }
            },
        }
        let ghost after_pre = out@;
        // the atom token
        let atom_token = match self.get_atom(NodeIndex { index: c }) {
            Some(a) => a.to_token(),
            None => {
                proof {
                    assert(false);
                }
                String::new()
            },
        };
        push_str_chars(out, atom_token.as_str());
        // ring references at this atom
        let rlist = self.ring_edges_at(c);
        self.ring_tokens_at(c, &rlist, 0, rings, out);
        let ghost after_rings = out@;
        // branch bookkeeping and the next atom
        let children_idx = self.tree_children_of(c);
        proof {
            assert(children_idx@.map_values(|x: usize| x as int) == self.spec_tree_children(
                c as int,
            ));
        }
        if children_idx.len() == 0 {
            match branch.pop() {
                None => {
                    proof {
                        assert(gst.branch.len() == 0);
                        assert(out@ =~= old(out)@ + (spec_encode_step(*self, gst)->Some_0.0));
                    }
                    Some((previous, None))
                },
                Some((bnode, mut kids)) => {
                    proof {
                        assert(old(branch)@[old(branch)@.len() - 1] == (bnode, kids));
                        assert(gst.branch.last() == (bnode as int, kids@.map_values(
                            |x: usize| x as int,
                        )));
                        assert(kids@.len() >= 1);
                        assert(branch@.map_values(
                            |f: (usize, Vec<usize>)| (f.0 as int, f.1@.map_values(|x: usize| x as int)),
                        ) =~= gst.branch.drop_last());
                    }
                    out.push(')');
                    if kids.len() > 1 {
                        out.push('(');
                    }
                    let ghost gkids = kids@.map_values(|x: usize| x as int);
                    let next = kids.remove(0);
                    proof {
                        assert(kids@ =~= old(branch)@[old(branch)@.len() - 1].1@.drop_first());
                        assert(kids@.map_values(|x: usize| x as int) =~= gkids.drop_first());
                        assert(gkids[0] == next as int);
                    }
                    if kids.len() >= 1 {
                        let ghost before_push = branch@;
                        branch.push((bnode, kids));
                        proof {
                            assert(branch@.map_values(
                                |f: (usize, Vec<usize>)| (f.0 as int, f.1@.map_values(
                                    |x: usize| x as int,
                                )),
                            ) =~= gst.branch.drop_last().push(
                                (bnode as int, gkids.drop_first()),
                            ));
                        }
                    }
                    proof {
                        assert(out@ =~= old(out)@ + (spec_encode_step(*self, gst)->Some_0.0));
                    }
                    Some((Some(bnode), Some(next)))
                },
            }
        } else if children_idx.len() == 1 {
            proof {
                assert(self.spec_tree_children(c as int)[0] == children_idx@[0] as int);
                assert(out@ =~= old(out)@ + (spec_encode_step(*self, gst)->Some_0.0));
            }
            Some((Some(c), Some(children_idx[0])))
        } else {
            out.push('(');
            let mut rest: Vec<usize> = Vec::new();
            let mut t: usize = 1;
            while t < children_idx.len()
                invariant
                    1 <= t <= children_idx@.len(),
                    rest@ == children_idx@.subrange(1, t as int),
                decreases children_idx@.len() - t,
            {
                rest.push(children_idx[t]);
                t = t + 1;
                proof {
                    assert(rest@ =~= children_idx@.subrange(1, t as int));
                }
            }
            proof {
                assert(rest@ =~= children_idx@.subrange(1, children_idx@.len() as int));
                assert(rest@.map_values(|x: usize| x as int) =~= self.spec_tree_children(
                    c as int,
                ).drop_first());
            }
            let ghost before_push = branch@;
            branch.push((c, rest));
            proof {
                assert(branch@.map_values(
                    |f: (usize, Vec<usize>)| (f.0 as int, f.1@.map_values(|x: usize| x as int)),
                ) =~= gst.branch.push((c as int, self.spec_tree_children(c as int).drop_first())));
                assert(self.spec_tree_children(c as int)[0] == children_idx@[0] as int);
                assert(out@ =~= old(out)@ + (spec_encode_step(*self, gst)->Some_0.0));
            }
            Some((Some(c), Some(children_idx[0])))
        }
    }

    /// Write the structure that holds `node` as a SMILES string: its root
    /// first, branches in parentheses, ring closures numbered in the order
    /// they are met. Nothing comes back when the node is missing or the graph
    /// is no proper structure.
    #[verifier::rlimit(100)]
    #[verifier::loop_isolation(false)]
    #[verifier::spinoff_prover]
    pub fn to_smiles(&self, node: NodeIndex) -> (r: Option<String>)
        requires
            self.wf(),
        ensures
            match r {
                Some(s) => spec_to_smiles(*self, node.index as int) == Some(s@),
                None => spec_to_smiles(*self, node.index as int) is None,
            },
    {
        let root = match self.find_root_of(node) {
            Some(root) => root,
            None => {
                return None;
            },
        };
        let mut previous: Option<usize> = None;
        let mut current: Option<usize> = Some(root.index);
        let mut branch: Vec<(usize, Vec<usize>)> = Vec::new();
        let mut rings: Vec<usize> = Vec::new();
        let mut out: Vec<char> = Vec::new();
        let mut fuel: usize = self.nodes.len();
        let ghost st0 = EncodeState {
            previous: None,
            current: Some(root.index as int),
            branch: Seq::<(int, Seq<int>)>::empty(),
            rings: Seq::<int>::empty(),
        };
        let ghost mut gst = st0;
        let ghost gfuel0 = self.nodes@.len() as nat;
        let ghost mut gfuel = gfuel0;

        loop
            invariant
                self.wf(),
                fuel as nat == gfuel,
                match (current, gst.current) {
                    (Some(c), Some(g)) => c as int == g && self.valid_node(c as int),
                    (None, None) => true,
                    _ => false,
                },
                match (previous, gst.previous) {
                    (Some(p), Some(g)) => p as int == g && self.valid_node(p as int),
                    (None, None) => true,
                    _ => false,
                },
                branch@.map_values(
                    |f: (usize, Vec<usize>)| (f.0 as int, f.1@.map_values(|x: usize| x as int)),
                ) == gst.branch,
                forall|j: int|
                    0 <= j < branch@.len() ==> {
                        let f = #[trigger] branch@[j];
                        &&& f.1@.len() >= 1
                        &&& self.valid_node(f.0 as int)
                        &&& (forall|t: int|
                            0 <= t < f.1@.len() ==> self.valid_node((#[trigger] f.1@[t]) as int))
                    },
                rings@.map_values(|x: usize| x as int) == gst.rings,
                spec_encode_loop(*self, st0, gfuel0) == (match spec_encode_loop(*self, gst, gfuel) {
                    None => None,
                    Some(rest) => Some(out@ + rest),
                }),
            decreases gfuel,
        {
            let c = match current {
                Some(c) => c,
                None => {
                    break ;
                },
            };
            if fuel == 0 {
                return None;
            }
            let ghost prev_gst = gst;
            let ghost out_before = out@;
            match self.encode_step_exec(previous, c, &mut branch, &mut rings, &mut out, Ghost(gst)) {
                None => {
                    return None;
                },
                Some((np, nc)) => {
                    previous = np;
                    current = nc;
                },
            }
            fuel = fuel - 1;
            proof {
                gfuel = (gfuel - 1) as nat;
                let pr = spec_encode_step(*self, prev_gst)->Some_0;
                gst = pr.1;
                assert(spec_encode_loop(*self, prev_gst, (gfuel + 1) as nat) == (
                match spec_encode_loop(*self, gst, gfuel) {
                    None => None,
                    Some(rest) => Some(pr.0 + rest),
                }));
                match spec_encode_loop(*self, gst, gfuel) {
                    Some(rest) => {
                        assert(out_before + (pr.0 + rest) =~= out@ + rest);
                    },
                    None => {},
                }
            }
        }
        proof {
            assert(spec_encode_loop(*self, gst, gfuel) == Some(Seq::<char>::empty()));
            assert(out@ + Seq::<char>::empty() =~= out@);
        }
        Some(string_of_chars(&out))
    }

    /// Targets of the non-ring edges leaving `node`, in edge order, as slots.
    fn tree_children_of(&self, node: usize) -> (r: Vec<usize>)
        ensures
            r@.map_values(|x: usize| x as int) == self.spec_tree_children(node as int),
            self.wf() ==> forall|k: int|
                0 <= k < r@.len() ==> self.valid_node((#[trigger] r@[k]) as int),
    {
        let v = self.tree_children(node);
        let mut out: Vec<usize> = Vec::new();
        let mut k: usize = 0;
        while k < v.len()
            invariant
                k <= v@.len(),
                out@.map_values(|x: usize| x as int) == v@.map_values(
                    |n: NodeIndex| n.index as int,
                ).subrange(0, k as int),
                forall|j: int| 0 <= j < out@.len() ==> (#[trigger] out@[j]) == v@[j].index,
            decreases v@.len() - k,
        {
            let ghost prevm = out@.map_values(|x: usize| x as int);
            out.push(v[k].index);
            k = k + 1;
            proof {
                assert(out@.map_values(|x: usize| x as int) =~= prevm.push(
                    v@[k - 1].index as int,
                ));
                assert(v@.map_values(|n: NodeIndex| n.index as int).subrange(0, k as int)
                    =~= prevm.push(v@.map_values(|n: NodeIndex| n.index as int)[k - 1]));
                assert(v@.map_values(|n: NodeIndex| n.index as int)[k - 1] == v@[k - 1].index as int);
            }
        }
        proof {
            assert(out@.map_values(|x: usize| x as int) =~= v@.map_values(
                |n: NodeIndex| n.index as int,
            ));
        }
        out
    }
}

} // verus!
