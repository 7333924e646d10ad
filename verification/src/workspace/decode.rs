use vstd::prelude::*;

use crate::definitions::atom::{spec_parse_atom, Atom, AtomV};
use crate::definitions::bond::{bond_type_of, spec_bond_type_of, Bond, BondType};
use crate::text::{chars_of, dec_value, digit_run_end_at, is_digit, parse_dec};
use crate::tokenizer::{is_bond_char, bond_char, spec_tokenize, tokenize_chars};
use crate::workspace::{Edge, NodeIndex, Workspace};

verus! {

/// Why a SMILES string was rejected.
#[derive(Debug, PartialEq)]
pub enum DecodeError {
    /// The input began with something other than an atom token.
    NoInitialAtom,
    /// A `)` arrived with no branch open.
    BranchUnderflow,
    /// The input ended with branches still open; the payload holds the tokens
    /// of the open branch points.
    BranchLeftOpen(Vec<String>),
    /// The input ended with ring numbers still waiting for their partner.
    RingUnclosed(Vec<u32>),
    /// The two occurrences of one ring number named different bonds.
    RingBondMismatch,
}

/// What a ring-bond reference token carries: an optional bond kind, and the
/// ring number. Numbers beyond `u32` are not recognized.
pub open spec fn spec_ring_of(t: Seq<char>) -> Option<(Option<BondType>, nat)> {
    let pre: Option<BondType> = if t.len() >= 1 && is_bond_char(t[0]) {
        spec_bond_type_of(t[0])
    } else {
        None
    };
    let j: int = if t.len() >= 1 && is_bond_char(t[0]) {
        1
    } else {
        0
    };
    if t.len() == j + 1 && is_digit(t[j]) && t[j] != '0' {
        Some((pre, crate::text::digit_val(t[j])))
    } else if t.len() >= j + 3 && t[j] == '%' && t[j + 1] != '0' && (forall|k: int|
        j + 1 <= k < t.len() ==> is_digit(t[k])) && dec_value(t.subrange(j + 1, t.len() as int))
        <= u32::MAX {
        Some((pre, dec_value(t.subrange(j + 1, t.len() as int))))
    } else {
        None
    }
}

/// Read a ring-bond reference token.
fn classify_ring(t: &Vec<char>) -> (r: Option<(Option<BondType>, u32)>)
    ensures
        match r {
            Some((pre, id)) => spec_ring_of(t@) == Some((pre, id as nat)),
            None => spec_ring_of(t@) is None,
        },
{
    if t.len() == 0 {
        return None;
    }
    let (pre, j): (Option<BondType>, usize) = if bond_char(t[0]) {
        (bond_type_of(t[0]), 1)
    } else {
        (None, 0)
    };
    if t.len() == j + 1 && is_digit_char_at(t, j) && t[j] != '0' {
        let d = (t[j] as u32) - 48;
        Some((pre, d))
    } else if t.len() - j >= 3 && t[j] == '%' && t[j + 1] != '0' {
        let dend = digit_run_end_at(t, j + 1);
        proof {
            crate::text::lemma_digit_run_end(t@, j + 1);
        }
        if dend != t.len() {
            return None;
        }
        match parse_dec(t, j + 1, dend) {
            Some(v) => {
                if v <= u32::MAX as u64 {
                    Some((pre, v as u32))
                } else {
                    None
                }
            },
            None => None,
        }
    } else {
        None
    }
}

fn is_digit_char_at(t: &Vec<char>, j: usize) -> (r: bool)
    requires
        j < t.len(),
    ensures
        r == is_digit(t@[j as int]),
{
    crate::text::is_digit_char(t[j])
}

/// The decoder's state over a token walk, in mathematical terms. Node ids are
/// absolute workspace slots; the nodes and edges listed here are the ones this
/// decoding call creates, in creation order.
pub ghost struct DecodeState {
    pub base: int,
    pub nodes: Seq<AtomV>,
    pub edges: Seq<(int, int, Bond)>,
    pub current: Option<int>,
    pub branch: Seq<int>,
    pub pending: Option<BondType>,
    pub rings: Seq<(int, Option<BondType>, nat)>,
}

/// The mid-walk failures.
pub ghost enum DecodeStepErr {
    NoInitialAtom,
    BranchUnderflow,
    RingBondMismatch,
}

/// All the ways a decode can end short of a graph.
pub ghost enum SpecDecodeErr {
    NoInitialAtom,
    BranchUnderflow,
    RingBondMismatch,
    BranchLeftOpen(DecodeState),
    RingUnclosed(DecodeState),
}

pub open spec fn init_state(base: int) -> DecodeState {
    DecodeState {
        base,
        nodes: Seq::<AtomV>::empty(),
        edges: Seq::<(int, int, Bond)>::empty(),
        current: None,
        branch: Seq::<int>::empty(),
        pending: None,
        rings: Seq::<(int, Option<BondType>, nat)>::empty(),
    }
}

/// The atom a state holds for absolute node id `i`.
pub open spec fn atom_of(st: DecodeState, i: int) -> AtomV {
    st.nodes[i - st.base]
}

/// The bond two adjacent atoms get when none is written: aromatic between two
/// aromatic atoms, else single.
pub open spec fn default_pair_bond(a1: AtomV, a2: AtomV, ring: bool) -> Bond {
    if a1.aromatic && a2.aromatic {
        Bond { bond_type: BondType::Aromatic, ring }
    } else {
        Bond { bond_type: BondType::Single, ring }
    }
}

/// The position of the first open ring entry with the given number, from `j`.
pub open spec fn spec_ring_find_from(
    rings: Seq<(int, Option<BondType>, nat)>,
    id: nat,
    j: int,
) -> Option<int>
    decreases rings.len() - j,
{
    if j < 0 || j >= rings.len() {
        None
    } else if rings[j].2 == id {
        Some(j)
    } else {
        spec_ring_find_from(rings, id, j + 1)
    }
}

/// The position of the first open ring entry with the given number.
pub open spec fn spec_ring_find(rings: Seq<(int, Option<BondType>, nat)>, id: nat) -> Option<int> {
    spec_ring_find_from(rings, id, 0)
}

/// The effect of one ring-bond reference at the current atom `cur`.
pub open spec fn spec_ring_step(
    st: DecodeState,
    cur: int,
    pre: Option<BondType>,
    id: nat,
) -> Result<DecodeState, DecodeStepErr> {
    match spec_ring_find(st.rings, id) {
        None => Ok(DecodeState { rings: st.rings.push((cur, pre, id)), ..st }),
        Some(pos) => {
            let (onode, obond, _oid) = st.rings[pos];
            let rem = st.rings.remove(pos);
            match (obond, pre) {
                (Some(b1), Some(b2)) => {
                    if b1 == b2 {
                        Ok(
                            DecodeState {
                                edges: st.edges.push(
                                    (onode, cur, Bond { bond_type: b1, ring: true }),
                                ),
                                rings: rem,
                                ..st
                            },
                        )
                    } else {
                        Err(DecodeStepErr::RingBondMismatch)
                    }
                },
                (Some(b1), None) => Ok(
                    DecodeState {
                        edges: st.edges.push((onode, cur, Bond { bond_type: b1, ring: true })),
                        rings: rem,
                        ..st
                    },
                ),
                (None, Some(b2)) => Ok(
                    DecodeState {
                        edges: st.edges.push((onode, cur, Bond { bond_type: b2, ring: true })),
                        rings: rem,
                        ..st
                    },
                ),
                (None, None) => Ok(
                    DecodeState {
                        edges: st.edges.push(
                            (onode, cur, default_pair_bond(atom_of(st, onode), atom_of(st, cur), true)),
                        ),
                        rings: rem,
                        ..st
                    },
                ),
            }
        },
    }
}

/// One token's effect on the decoder state.
pub open spec fn spec_decode_step(st: DecodeState, t: Seq<char>) -> Result<
    DecodeState,
    DecodeStepErr,
> {
    match st.current {
        None => {
            match spec_parse_atom(t) {
                Some(av) => Ok(
                    DecodeState { nodes: seq![av], current: Some(st.base), ..st },
                ),
                None => {
                    if t == seq![')'] {
                        Err(DecodeStepErr::BranchUnderflow)
                    } else {
                        Err(DecodeStepErr::NoInitialAtom)
                    }
                },
            }
        },
        Some(cur) => {
            if spec_parse_atom(t) is Some {
                let av = spec_parse_atom(t)->Some_0;
                let nid = st.base + st.nodes.len();
                let b = match st.pending {
                    Some(bt) => Bond { bond_type: bt, ring: false },
                    None => default_pair_bond(atom_of(st, cur), av, false),
                };
                Ok(
                    DecodeState {
                        nodes: st.nodes.push(av),
                        edges: st.edges.push((cur, nid, b)),
                        pending: None,
                        current: Some(nid),
                        ..st
                    },
                )
            } else if BondType::spec_new(t) is Some {
                Ok(DecodeState { pending: Some(BondType::spec_new(t)->Some_0), ..st })
            } else if spec_ring_of(t) is Some {
                let (pre, id) = spec_ring_of(t)->Some_0;
                spec_ring_step(st, cur, pre, id)
            } else if t == seq!['('] {
                Ok(DecodeState { branch: st.branch.push(cur), ..st })
            } else if t == seq![')'] {
                if st.branch.len() == 0 {
                    Err(DecodeStepErr::BranchUnderflow)
                } else {
                    Ok(
                        DecodeState {
                            current: Some(st.branch.last()),
                            branch: st.branch.drop_last(),
                            ..st
                        },
                    )
                }
            } else {
                Ok(st)
            }
        },
    }
}

/// The decoder state after the tokens from `k` on.
pub open spec fn spec_decode_fold(ts: Seq<Seq<char>>, k: int, st: DecodeState) -> Result<
    DecodeState,
    DecodeStepErr,
>
    decreases ts.len() - k,
{
    if k < 0 || k >= ts.len() {
        Ok(st)
    } else {
        match spec_decode_step(st, ts[k]) {
            Err(e) => Err(e),
            Ok(st2) => spec_decode_fold(ts, k + 1, st2),
        }
    }
}

/// What decoding a SMILES string against a workspace with `base` nodes yields:
/// the finished state, or the failure, branch and ring bookkeeping checked at
/// the end.
pub open spec fn spec_decode(s: Seq<char>, base: int) -> Result<DecodeState, SpecDecodeErr> {
    match spec_decode_fold(spec_tokenize(s), 0, init_state(base)) {
        Err(DecodeStepErr::NoInitialAtom) => Err(SpecDecodeErr::NoInitialAtom),
        Err(DecodeStepErr::BranchUnderflow) => Err(SpecDecodeErr::BranchUnderflow),
        Err(DecodeStepErr::RingBondMismatch) => Err(SpecDecodeErr::RingBondMismatch),
        Ok(st) => {
            if st.current is None {
                Err(SpecDecodeErr::NoInitialAtom)
            } else if st.branch.len() > 0 {
                Err(SpecDecodeErr::BranchLeftOpen(st))
            } else if st.rings.len() > 0 {
                Err(SpecDecodeErr::RingUnclosed(st))
            } else {
                Ok(st)
            }
        },
    }
}

/// The created edges with the structure-dot edges stripped.
pub open spec fn strip_no_bond(es: Seq<(int, int, Bond)>) -> Seq<(int, int, Bond)>
    decreases es.len(),
{
    if es.len() == 0 {
        Seq::<(int, int, Bond)>::empty()
    } else {
        strip_no_bond(es.drop_last()) + (if es.last().2.bond_type is NoBond {
            Seq::<(int, int, Bond)>::empty()
        } else {
            seq![es.last()]
        })
    }
}

/// How a successful decode relates the old and the new workspace: the nodes
/// gain exactly the created atoms, the edges exactly the created edges less
/// the stripped dot edges, in order.
pub open spec fn decode_commits(before: Workspace, after: Workspace, st: DecodeState) -> bool {
    &&& after.nodes@.len() == st.base + st.nodes.len()
    &&& after.nodes@.subrange(0, st.base) == before.nodes@
    &&& forall|j: int|
        0 <= j < st.nodes.len() ==> ((#[trigger] after.nodes@[st.base + j]) matches Some(a)
            && a@ == st.nodes[j])
    &&& after.edges@ == before.edges@ + strip_no_bond(st.edges).map_values(
        |e: (int, int, Bond)|
            Some(Edge { source: e.0 as usize, target: e.1 as usize, bond: e.2 }),
    )
}

/// Does the returned error name what the decode ended in, payloads included?
pub open spec fn spec_err_matches(e: DecodeError, out: Result<DecodeState, SpecDecodeErr>) -> bool {
    match e {
        DecodeError::NoInitialAtom => out == Err::<DecodeState, SpecDecodeErr>(
            SpecDecodeErr::NoInitialAtom,
        ),
        DecodeError::BranchUnderflow => out == Err::<DecodeState, SpecDecodeErr>(
            SpecDecodeErr::BranchUnderflow,
        ),
        DecodeError::RingBondMismatch => out == Err::<DecodeState, SpecDecodeErr>(
            SpecDecodeErr::RingBondMismatch,
        ),
        DecodeError::BranchLeftOpen(toks) => match out {
            Err(SpecDecodeErr::BranchLeftOpen(st)) => toks@.map_values(|t: String| t@)
                == st.branch.map_values(|i: int| atom_of(st, i).spec_token()),
            _ => false,
        },
        DecodeError::RingUnclosed(ids) => match out {
            Err(SpecDecodeErr::RingUnclosed(st)) => ids@.map_values(|x: u32| x as nat)
                == st.rings.map_values(|rr: (int, Option<BondType>, nat)| rr.2),
            _ => false,
        },
    }
}

/// Well-formedness only reads the node and edge views.
proof fn lemma_wf_views(a: Workspace, b: Workspace)
    requires
        a.nodes@ == b.nodes@,
        a.edges@ == b.edges@,
        a.wf(),
    ensures
        b.wf(),
{
    assert forall|e: int| b.valid_edge(e) implies b.valid_node(b.edge_at(e).source as int)
        && b.valid_node(b.edge_at(e).target as int) by {
        assert(a.valid_edge(e));
        assert(b.edge_at(e) == a.edge_at(e));
    }
}

/// The position of the first entry with the given ring number, from `j` on.
fn ring_pos_from(
    rings: &Vec<(usize, Option<BondType>, u32)>,
    id: u32,
    j: usize,
) -> (r: Option<usize>)
    requires
        j <= rings@.len(),
    ensures
        ({
            let grings = rings@.map_values(
                |rr: (usize, Option<BondType>, u32)| (rr.0 as int, rr.1, rr.2 as nat),
            );
            match r {
                Some(p) => spec_ring_find_from(grings, id as nat, j as int) == Some(p as int) && p
                    < rings@.len(),
                None => spec_ring_find_from(grings, id as nat, j as int) is None,
            }
        }),
    decreases rings@.len() - j,
{
    if j >= rings.len() {
        return None;
    }
    if rings[j].2 == id {
        return Some(j);
    }
    ring_pos_from(rings, id, j + 1)
}

impl Workspace {
    /// Decode a SMILES string and add its structures to the workspace. On
    /// success the first created node comes back; on failure the workspace is
    /// exactly as it was, and the error says what went wrong.
    #[verifier::rlimit(100)]
    #[verifier::loop_isolation(false)]
    #[verifier::spinoff_prover]
    pub fn add_structure(&mut self, smiles: &str) -> (r: Result<NodeIndex, DecodeError>)
        requires
            old(self).wf(),
        ensures
            final(self).wf(),
            match r {
                Ok(root) => {
                    &&& spec_decode(smiles@, old(self).nodes@.len() as int) matches Ok(st)
                        && decode_commits(*old(self), *final(self), st)
                    &&& root.index == old(self).nodes@.len()
                    &&& final(self).valid_node(root.index as int)
                    &&& forall|j: int|
                        old(self).valid_node(j) ==> #[trigger] final(self).valid_node(j)
                },
                Err(e) => {
                    &&& final(self).nodes@ == old(self).nodes@
                    &&& final(self).edges@ == old(self).edges@
                    &&& spec_err_matches(e, spec_decode(smiles@, old(self).nodes@.len() as int))
                },
            },
    {
        let chars = chars_of(smiles);
        let tokens = tokenize_chars(&chars);
        let ghost ts = spec_tokenize(smiles@);
        let base = self.nodes.len();
        let ghost gbase = base as int;

        let mut current: Option<usize> = None;
        let mut branch: Vec<usize> = Vec::new();
        let mut pending: Option<BondType> = None;
        let mut rings: Vec<(usize, Option<BondType>, u32)> = Vec::new();
        let mut new_edges: Vec<(usize, usize, Bond)> = Vec::new();
        let ghost mut gst = init_state(gbase);

        let mut k: usize = 0;
        while k < tokens.len()
            invariant
                k <= tokens@.len(),
                tokens@.map_values(|t: Vec<char>| t@) == ts,
                spec_decode_fold(ts, 0, init_state(gbase)) == spec_decode_fold(ts, k as int, gst),
                gst.base == gbase,
                self.wf(),
                self.edges@ == old(self).edges@,
                self.nodes@.len() == gbase + gst.nodes.len(),
                self.nodes@.subrange(0, gbase) == old(self).nodes@,
                forall|j: int|
                    0 <= j < gst.nodes.len() ==> ((#[trigger] self.nodes@[gbase + j]) matches Some(
                        a,
                    ) && a@ == gst.nodes[j]),
                match (current, gst.current) {
                    (Some(c), Some(g)) => c as int == g && base <= c < self.nodes@.len(),
                    (None, None) => gst.nodes.len() == 0,
                    _ => false,
                },
                branch@.map_values(|x: usize| x as int) == gst.branch,
                forall|j: int| 0 <= j < branch@.len() ==> base <= #[trigger] branch@[j] < self.nodes@.len(),
                pending == gst.pending,
                rings@.map_values(|rr: (usize, Option<BondType>, u32)| (rr.0 as int, rr.1, rr.2 as nat))
                    == gst.rings,
                forall|j: int| 0 <= j < rings@.len() ==> base <= (#[trigger] rings@[j]).0 < self.nodes@.len(),
                new_edges@.map_values(|e: (usize, usize, Bond)| (e.0 as int, e.1 as int, e.2))
                    == gst.edges,
                forall|j: int|
                    0 <= j < new_edges@.len() ==> self.valid_node(
                        (#[trigger] new_edges@[j]).0 as int,
                    ) && self.valid_node(new_edges@[j].1 as int),
            decreases tokens@.len() - k,
        {
            let tok = &tokens[k];
            let ghost prev_gst = gst;
            proof {
                assert(tokens@.map_values(|t: Vec<char>| t@)[k as int] == ts[k as int]);
                assert(tok@ == ts[k as int]);
            }
            let parsed = Atom::parse_chars(tok);
            match current {
                None => {
                    match parsed {
                        Some(a) => {
                            let nid = self.add_node(a);
                            current = Some(nid.index);
                            proof {
                                gst = DecodeState {
                                    nodes: seq![a@],
                                    current: Some(gst.base),
                                    ..gst
                                };
                            }
                        },
                        None => {
                            let is_close = tok.len() == 1 && tok[0] == ')';
                            proof {
                                if is_close {
                                    assert(ts[k as int] =~= seq![')']);
                                } else {
                                    assert(ts[k as int] != seq![')']) by {
                                        if ts[k as int] == seq![')'] {
                                            assert(tok@.len() == 1 && tok@[0] == ')');
                                        }
                                    }
                                }
                            }
                            self.nodes.truncate(base);
                            proof {
                                assert(self.nodes@ =~= old(self).nodes@);
                                lemma_wf_views(*old(self), *self);
                            }
                            if is_close {
                                return Err(DecodeError::BranchUnderflow);
                            } else {
                                return Err(DecodeError::NoInitialAtom);
                            }
                        },
                    }
                },
                Some(cur) => {
                    match parsed {
                        Some(a) => {
                            let ghost av = a@;
                            let b: Bond = match pending {
                                Some(bt) => {
                                    pending = None;
                                    Bond { bond_type: bt, ring: false }
                                },
                                None => {
                                    let cur_aromatic = match self.get_atom(
                                        NodeIndex { index: cur },
                                    ) {
                                        Some(at) => at.aromatic,
                                        None => false,
                                    };
                                    if cur_aromatic && a.aromatic {
                                        Bond { bond_type: BondType::Aromatic, ring: false }
                                    } else {
                                        Bond { bond_type: BondType::Single, ring: false }
                                    }
                                },
                            };
                            let nid = self.add_node(a);
                            new_edges.push((cur, nid.index, b));
                            current = Some(nid.index);
                            proof {
                                let jj = cur as int - gbase;
                                assert(self.nodes@[gbase + jj] matches Some(aa) && aa@
                                    == gst.nodes[jj]);
                                assert(atom_of(gst, cur as int) == self.nodes@[cur as int]->0@);
                                gst = DecodeState {
                                    nodes: gst.nodes.push(av),
                                    edges: gst.edges.push(
                                        (cur as int, gst.base + gst.nodes.len(), b),
                                    ),
                                    pending: None,
                                    current: Some(gst.base + gst.nodes.len()),
                                    ..gst
                                };
                                assert(new_edges@.map_values(
                                    |e: (usize, usize, Bond)| (e.0 as int, e.1 as int, e.2),
                                ) =~= gst.edges);
                            }
                        },
                        None => {
                            let bond = if tok.len() == 1 {
                                bond_type_of(tok[0])
                            } else {
                                None
                            };
                            match bond {
                                Some(bt) => {
                                    pending = Some(bt);
                                    proof {
                                        gst = DecodeState { pending: Some(bt), ..gst };
                                    }
                                },
                                None => {
                                    match classify_ring(tok) {
                                        Some((pre, id)) => {
                                            let (ok, g2) = self.ring_event(
                                                cur,
                                                pre,
                                                id,
                                                &mut rings,
                                                &mut new_edges,
                                                Ghost(gst),
                                            );
                                            if !ok {
                                                self.nodes.truncate(base);
                                                proof {
                                                    assert(self.nodes@ =~= old(self).nodes@);
                                                    lemma_wf_views(*old(self), *self);
                                                }
                                                return Err(DecodeError::RingBondMismatch);
                                            }
                                            proof {
                                                gst = g2@;
                                            }
                                        },
                                        None => {
                                            let open = tok.len() == 1 && tok[0] == '(';
                                            let close = tok.len() == 1 && tok[0] == ')';
                                            proof {
                                                if open {
                                                    assert(ts[k as int] =~= seq!['(']);
                                                } else {
                                                    assert(ts[k as int] != seq!['(']) by {
                                                        if ts[k as int] == seq!['('] {
                                                            assert(tok@.len() == 1 && tok@[0]
                                                                == '(');
                                                        }
                                                    }
                                                }
                                                if close {
                                                    assert(ts[k as int] =~= seq![')']);
                                                } else {
                                                    assert(ts[k as int] != seq![')']) by {
                                                        if ts[k as int] == seq![')'] {
                                                            assert(tok@.len() == 1 && tok@[0]
                                                                == ')');
                                                        }
                                                    }
                                                }
                                            }
                                            if open {
                                                branch.push(cur);
                                                proof {
                                                    gst = DecodeState {
                                                        branch: gst.branch.push(cur as int),
                                                        ..gst
                                                    };
                                                    assert(branch@.map_values(|x: usize| x as int)
                                                        =~= gst.branch);
                                                }
                                            } else if close {
                                                match branch.pop() {
                                                    Some(b) => {
                                                        current = Some(b);
                                                        proof {
                                                            gst = DecodeState {
                                                                current: Some(
                                                                    gst.branch.last(),
                                                                ),
                                                                branch: gst.branch.drop_last(),
                                                                ..gst
                                                            };
                                                            assert(branch@.map_values(
                                                                |x: usize| x as int,
                                                            ) =~= gst.branch);
                                                        }
                                                    },
                                                    None => {
                                                        self.nodes.truncate(base);
                                                        proof {
                                                            assert(self.nodes@ =~= old(
                                                                self,
                                                            ).nodes@);
                                                            lemma_wf_views(*old(self), *self);
                                                        }
                                                        return Err(DecodeError::BranchUnderflow);
                                                    },
                                                }
                                            }
                                        },
                                    }
                                },
                            }
                        },
                    }
                },
            }
            proof {
                assert(spec_decode_step(prev_gst, ts[k as int]) == Ok::<
                    DecodeState,
                    DecodeStepErr,
                >(gst));
                assert forall|j: int|
                    0 <= j < gst.nodes.len() implies ((#[trigger] self.nodes@[gbase + j])
                    matches Some(a) && a@ == gst.nodes[j]) by {
                    if j < prev_gst.nodes.len() {
                        assert(gst.nodes[j] == prev_gst.nodes[j]);
                    }
                }
            }
            k = k + 1;
        }
        proof {
            assert(spec_decode_fold(ts, 0, init_state(gbase)) == Ok::<DecodeState, DecodeStepErr>(
                gst,
            ));
        }

        // end-of-input bookkeeping
        if current.is_none() {
            self.nodes.truncate(base);
            proof {
                assert(self.nodes@ =~= old(self).nodes@);
                lemma_wf_views(*old(self), *self);
            }
            return Err(DecodeError::NoInitialAtom);
        }
        if branch.len() > 0 {
            let mut toks: Vec<String> = Vec::new();
            let mut j: usize = 0;
            while j < branch.len()
                invariant
                    j <= branch@.len(),
                    toks@.map_values(|t: String| t@) == gst.branch.subrange(0, j as int).map_values(
                        |i: int| atom_of(gst, i).spec_token(),
                    ),
                decreases branch@.len() - j,
            {
                let b = branch[j];
                proof {
                    assert(branch@.map_values(|x: usize| x as int)[j as int] == gst.branch[j as int]);
                    let jb = b as int - gbase;
                    assert(self.nodes@[gbase + jb] matches Some(a) && a@ == gst.nodes[jb]);
                    assert(self.valid_node(b as int));
                }
                let t = match self.get_atom(NodeIndex { index: b }) {
                    Some(a) => a.to_token(),
                    None => {
                        proof {
                            assert(false);
                        }
                        String::new()
                    },
                };
                let ghost prev_toks = toks@;
                toks.push(t);
                j = j + 1;
                proof {
                    assert(t@ == atom_of(gst, gst.branch[j - 1]).spec_token());
                    assert(toks@.map_values(|t: String| t@) =~= prev_toks.map_values(
                        |t: String| t@,
                    ).push(t@));
                    assert(toks@.map_values(|t: String| t@) =~= gst.branch.subrange(
                        0,
                        j as int,
                    ).map_values(|i: int| atom_of(gst, i).spec_token()));
                }
            }
            proof {
                assert(gst.branch.subrange(0, gst.branch.len() as int) =~= gst.branch);
            }
            self.nodes.truncate(base);
            proof {
                assert(self.nodes@ =~= old(self).nodes@);
                lemma_wf_views(*old(self), *self);
            }
            return Err(DecodeError::BranchLeftOpen(toks));
        }
        if rings.len() > 0 {
            let mut ids: Vec<u32> = Vec::new();
            let mut j: usize = 0;
            while j < rings.len()
                invariant
                    j <= rings@.len(),
                    ids@.map_values(|x: u32| x as nat) == gst.rings.subrange(0, j as int).map_values(
                        |rr: (int, Option<BondType>, nat)| rr.2,
                    ),
                decreases rings@.len() - j,
            {
                proof {
                    assert(rings@.map_values(
                        |rr: (usize, Option<BondType>, u32)| (rr.0 as int, rr.1, rr.2 as nat),
                    )[j as int] == gst.rings[j as int]);
                }
                let ghost prev_ids = ids@;
                ids.push(rings[j].2);
                j = j + 1;
                proof {
                    assert(ids@.map_values(|x: u32| x as nat) =~= prev_ids.map_values(
                        |x: u32| x as nat,
                    ).push(rings@[j - 1].2 as nat));
                    assert(ids@.map_values(|x: u32| x as nat) =~= gst.rings.subrange(
                        0,
                        j as int,
                    ).map_values(|rr: (int, Option<BondType>, nat)| rr.2));
                }
            }
            proof {
                assert(gst.rings.subrange(0, gst.rings.len() as int) =~= gst.rings);
            }
            self.nodes.truncate(base);
            proof {
                assert(self.nodes@ =~= old(self).nodes@);
                lemma_wf_views(*old(self), *self);
            }
            return Err(DecodeError::RingUnclosed(ids));
        }

        // commit the edges, stripping the structure-dot edges
        let mut j: usize = 0;
        while j < new_edges.len()
            invariant
                j <= new_edges@.len(),
                self.wf(),
                self.nodes@.len() == gbase + gst.nodes.len(),
                self.nodes@.subrange(0, gbase) == old(self).nodes@,
                forall|jj: int|
                    0 <= jj < gst.nodes.len() ==> ((#[trigger] self.nodes@[gbase + jj]) matches Some(
                        a,
                    ) && a@ == gst.nodes[jj]),
                new_edges@.map_values(|e: (usize, usize, Bond)| (e.0 as int, e.1 as int, e.2))
                    == gst.edges,
                forall|jj: int|
                    0 <= jj < new_edges@.len() ==> self.valid_node(
                        (#[trigger] new_edges@[jj]).0 as int,
                    ) && self.valid_node(new_edges@[jj].1 as int),
                self.edges@ == old(self).edges@ + strip_no_bond(
                    gst.edges.subrange(0, j as int),
                ).map_values(
                    |e: (int, int, Bond)|
                        Some(Edge { source: e.0 as usize, target: e.1 as usize, bond: e.2 }),
                ),
            decreases new_edges@.len() - j,
        {
            let (from, to, b) = new_edges[j];
            let ghost done = gst.edges.subrange(0, j as int);
            if !matches!(b.bond_type, BondType::NoBond) {
                self.add_edge(NodeIndex { index: from }, NodeIndex { index: to }, b);
            }
            j = j + 1;
            proof {
                let now = gst.edges.subrange(0, j as int);
                assert(now.drop_last() =~= done);
                assert(now.last() == (from as int, to as int, b));
                assert(self.edges@ =~= old(self).edges@ + strip_no_bond(now).map_values(
                    |e: (int, int, Bond)|
                        Some(Edge { source: e.0 as usize, target: e.1 as usize, bond: e.2 }),
                ));
            }
        }
        proof {
            assert(gst.edges.subrange(0, gst.edges.len() as int) =~= gst.edges);
            assert(gst.nodes.len() >= 1);
            assert(self.nodes@[gbase + 0] matches Some(a));
            assert(self.valid_node(base as int));
            assert forall|j: int| old(self).valid_node(j) implies self.valid_node(j) by {
                assert(self.nodes@.subrange(0, gbase)[j] == self.nodes@[j]);
            }
        }
        Ok(NodeIndex { index: base })
    }

    /// One ring-reference token: open a new ring entry, or close the pair and
    /// record the ring edge from the earlier atom to the current one. A
    /// mismatch of the two written bond kinds yields `false`.
    #[verifier::rlimit(100)]
    fn ring_event(
        &self,
        cur: usize,
        pre: Option<BondType>,
        id: u32,
        rings: &mut Vec<(usize, Option<BondType>, u32)>,
        new_edges: &mut Vec<(usize, usize, Bond)>,
        Ghost(gst0): Ghost<DecodeState>,
    ) -> (res: (bool, Ghost<DecodeState>))
        requires
            gst0.base <= cur < self.nodes@.len(),
            0 <= gst0.base,
            old(rings)@.map_values(
                |rr: (usize, Option<BondType>, u32)| (rr.0 as int, rr.1, rr.2 as nat),
            ) == gst0.rings,
            forall|j: int|
                0 <= j < old(rings)@.len() ==> gst0.base <= (#[trigger] old(rings)@[j]).0
                    < self.nodes@.len(),
            old(new_edges)@.map_values(|e: (usize, usize, Bond)| (e.0 as int, e.1 as int, e.2))
                == gst0.edges,
            forall|j: int|
                0 <= j < old(new_edges)@.len() ==> self.valid_node(
                    (#[trigger] old(new_edges)@[j]).0 as int,
                ) && self.valid_node(old(new_edges)@[j].1 as int),
            forall|j: int|
                0 <= j < gst0.nodes.len() ==> ((#[trigger] self.nodes@[gst0.base + j]) matches Some(
                    a,
                ) && a@ == gst0.nodes[j]),
            self.nodes@.len() == gst0.base + gst0.nodes.len(),
        ensures
            res.0 ==> spec_ring_step(gst0, cur as int, pre, id as nat) == Ok::<
                DecodeState,
                DecodeStepErr,
            >(res.1@),
            res.0 ==> {
                let st2 = res.1@;
                &&& final(rings)@.map_values(
                    |rr: (usize, Option<BondType>, u32)| (rr.0 as int, rr.1, rr.2 as nat),
                ) == st2.rings
                &&& forall|j: int|
                    0 <= j < final(rings)@.len() ==> gst0.base <= (#[trigger] final(rings)@[j]).0
                        < self.nodes@.len()
                &&& final(new_edges)@.map_values(
                    |e: (usize, usize, Bond)| (e.0 as int, e.1 as int, e.2),
                ) == st2.edges
                &&& forall|j: int|
                    0 <= j < final(new_edges)@.len() ==> self.valid_node(
                        (#[trigger] final(new_edges)@[j]).0 as int,
                    ) && self.valid_node(final(new_edges)@[j].1 as int)
                &&& st2.base == gst0.base
                &&& st2.nodes == gst0.nodes
                &&& st2.current == gst0.current
                &&& st2.pending == gst0.pending
                &&& st2.branch == gst0.branch
            },
            !res.0 ==> spec_ring_step(gst0, cur as int, pre, id as nat) is Err,
    {
        let ghost grings = gst0.rings;
        let pos = ring_pos_from(rings, id, 0);
        match pos {
            None => {
                rings.push((cur, pre, id));
                let ghost st2 = DecodeState { rings: gst0.rings.push((cur as int, pre, id as nat)), ..gst0 };
                proof {
                    assert(final(rings)@.map_values(
                        |rr: (usize, Option<BondType>, u32)| (rr.0 as int, rr.1, rr.2 as nat),
                    ) =~= st2.rings);
                }
                (true, Ghost(st2))
            },
            Some(p) => {
                let (onode, obond, _oid) = rings[p];
                proof {
                    assert(grings[p as int] == (onode as int, obond, _oid as nat));
                }
                proof {
                    let jo = onode as int - gst0.base;
                    assert(self.nodes@[gst0.base + jo] matches Some(a) && a@ == gst0.nodes[jo]);
                    let jc = cur as int - gst0.base;
                    assert(self.nodes@[gst0.base + jc] matches Some(a) && a@ == gst0.nodes[jc]);
                    assert(self.valid_node(onode as int) && self.valid_node(cur as int));
                }
                let bond: Bond = match (obond, pre) {
                    (Some(b1), Some(b2)) => {
                        if b1 == b2 {
                            Bond { bond_type: b1, ring: true }
                        } else {
                            return (false, Ghost(gst0));
                        }
                    },
                    (Some(b1), None) => Bond { bond_type: b1, ring: true },
                    (None, Some(b2)) => Bond { bond_type: b2, ring: true },
                    (None, None) => {
                        let o_aromatic = match self.get_atom(NodeIndex { index: onode }) {
                            Some(a) => a.aromatic,
                            None => false,
                        };
                        let c_aromatic = match self.get_atom(NodeIndex { index: cur }) {
                            Some(a) => a.aromatic,
                            None => false,
                        };
                        proof {
                            let jo = onode as int - gst0.base;
                            assert(self.nodes@[gst0.base + jo] matches Some(a) && a@
                                == gst0.nodes[jo]);
                            let jc = cur as int - gst0.base;
                            assert(self.nodes@[gst0.base + jc] matches Some(a) && a@
                                == gst0.nodes[jc]);
                            assert(self.nodes@[onode as int] matches Some(a) && a@ == atom_of(
                                gst0,
                                onode as int,
                            ));
                            assert(self.nodes@[cur as int] matches Some(a) && a@ == atom_of(
                                gst0,
                                cur as int,
                            ));
                        }
                        if o_aromatic && c_aromatic {
                            Bond { bond_type: BondType::Aromatic, ring: true }
                        } else {
                            Bond { bond_type: BondType::Single, ring: true }
                        }
                    },
                };
                rings.remove(p);
                new_edges.push((onode, cur, bond));
                let ghost st2 = DecodeState {
                    edges: gst0.edges.push((onode as int, cur as int, bond)),
                    rings: gst0.rings.remove(p as int),
                    ..gst0
                };
                proof {
                    assert(final(rings)@.map_values(
                        |rr: (usize, Option<BondType>, u32)| (rr.0 as int, rr.1, rr.2 as nat),
                    ) =~= st2.rings);
                    assert(final(new_edges)@.map_values(
                        |e: (usize, usize, Bond)| (e.0 as int, e.1 as int, e.2),
                    ) =~= st2.edges);
                    assert(self.valid_node(onode as int) && self.valid_node(cur as int));
                }
                (true, Ghost(st2))
            },
        }
    }
}

// ---------------------------------------------------------------------------
// The decoded graph is a forest: one root per dot-separated structure
// ---------------------------------------------------------------------------
/// How many of the first `n` created edges run into node `t` without the ring
/// mark.
pub open spec fn count_tree_in(es: Seq<(int, int, Bond)>, t: int, n: int) -> int
    decreases n,
{
    if n <= 0 {
        0
    } else {
        count_tree_in(es, t, n - 1) + if 0 <= n - 1 < es.len() && es[n - 1].1 == t && !es[
            n - 1
        ].2.ring {
            1int
        } else {
            0int
        }
    }
}

proof fn lemma_count_tree_in_push(es: Seq<(int, int, Bond)>, x: (int, int, Bond), t: int, n: int)
    requires
        0 <= n <= es.len(),
    ensures
        count_tree_in(es.push(x), t, n) == count_tree_in(es, t, n),
    decreases n,
{
    if n > 0 {
        lemma_count_tree_in_push(es, x, t, n - 1);
    }
}

proof fn lemma_count_tree_in_none(es: Seq<(int, int, Bond)>, t: int, n: int)
    requires
        n <= es.len(),
        forall|e: int| 0 <= e < n ==> (#[trigger] es[e]).1 != t,
    ensures
        count_tree_in(es, t, n) == 0,
    decreases n,
{
    if n > 0 {
        lemma_count_tree_in_none(es, t, n - 1);
    }
}

/// A count of one means one hit; a count names its hits.
proof fn lemma_count_tree_in_unique(es: Seq<(int, int, Bond)>, t: int, n: int, e1: int, e2: int)
    requires
        n <= es.len(),
        count_tree_in(es, t, n) <= 1,
        0 <= e1 < n && es[e1].1 == t && !es[e1].2.ring,
        0 <= e2 < n && es[e2].1 == t && !es[e2].2.ring,
    ensures
        e1 == e2,
    decreases n,
{
    if e1 != e2 {
        lemma_count_tree_in_at_least(es, t, n, e1);
        lemma_count_tree_in_at_least_two(es, t, n, e1, e2);
    }
}

proof fn lemma_count_tree_in_nonneg(es: Seq<(int, int, Bond)>, t: int, n: int)
    ensures
        count_tree_in(es, t, n) >= 0,
    decreases n,
{
    if n > 0 {
        lemma_count_tree_in_nonneg(es, t, n - 1);
    }
}

proof fn lemma_count_tree_in_at_least(es: Seq<(int, int, Bond)>, t: int, n: int, e1: int)
    requires
        n <= es.len(),
        0 <= e1 < n && es[e1].1 == t && !es[e1].2.ring,
    ensures
        count_tree_in(es, t, n) >= 1,
    decreases n,
{
    lemma_count_tree_in_nonneg(es, t, n - 1);
    if e1 < n - 1 {
        lemma_count_tree_in_at_least(es, t, n - 1, e1);
    }
}

proof fn lemma_count_tree_in_at_least_two(es: Seq<(int, int, Bond)>, t: int, n: int, e1: int, e2: int)
    requires
        n <= es.len(),
        0 <= e1 < n && es[e1].1 == t && !es[e1].2.ring,
        0 <= e2 < n && es[e2].1 == t && !es[e2].2.ring,
        e1 != e2,
    ensures
        count_tree_in(es, t, n) >= 2,
    decreases n,
{
    if e1 < n - 1 && e2 < n - 1 {
        lemma_count_tree_in_at_least_two(es, t, n - 1, e1, e2);
    } else if e1 == n - 1 {
        lemma_count_tree_in_at_least(es, t, n - 1, e2);
    } else {
        lemma_count_tree_in_at_least(es, t, n - 1, e1);
    }
}

/// The shape the decode walk keeps: all ids in range, and each created node
/// except the first is the target of exactly one non-ring created edge.
pub open spec fn st_tree_ok(st: DecodeState) -> bool {
    &&& (st.current matches Some(c) ==> st.base <= c < st.base + st.nodes.len())
    &&& (st.current is None ==> st.nodes.len() == 0)
    &&& (forall|j: int|
        0 <= j < st.branch.len() ==> st.base <= #[trigger] st.branch[j] < st.base
            + st.nodes.len())
    &&& (forall|j: int|
        0 <= j < st.rings.len() ==> st.base <= (#[trigger] st.rings[j]).0 < st.base
            + st.nodes.len())
    &&& (forall|e: int|
        0 <= e < st.edges.len() ==> st.base <= (#[trigger] st.edges[e]).0 < st.base
            + st.nodes.len() && st.base <= st.edges[e].1 < st.base + st.nodes.len())
    &&& (forall|j: int|
        0 <= j < st.nodes.len() ==> #[trigger] count_tree_in(
            st.edges,
            st.base + j,
            st.edges.len() as int,
        ) == (if j == 0 {
            0int
        } else {
            1int
        }))
}

/// One decode step keeps the forest shape.
#[verifier::rlimit(100)]
#[verifier::spinoff_prover]
proof fn lemma_step_tree_ok(st: DecodeState, t: Seq<char>)
    requires
        st_tree_ok(st),
    ensures
        spec_decode_step(st, t) matches Ok(st2) ==> st_tree_ok(st2) && st2.base == st.base,
{
    match spec_decode_step(st, t) {
        Err(_) => {},
        Ok(st2) => {
            match st.current {
                None => {
                    assert(st2.edges == st.edges);
                    assert(st2.nodes.len() == 1);
                    assert forall|j: int|
                        0 <= j < st2.nodes.len() implies #[trigger] count_tree_in(
                        st2.edges,
                        st2.base + j,
                        st2.edges.len() as int,
                    ) == (if j == 0 {
                        0int
                    } else {
                        1int
                    }) by {
                        assert(st.edges.len() == 0);
                    }
                },
                Some(cur) => {
                    if spec_parse_atom(t) is Some {
                        let nid = st.base + st.nodes.len();
                        assert forall|j: int|
                            0 <= j < st2.nodes.len() implies #[trigger] count_tree_in(
                            st2.edges,
                            st2.base + j,
                            st2.edges.len() as int,
                        ) == (if j == 0 {
                            0int
                        } else {
                            1int
                        }) by {
                            lemma_count_tree_in_push(
                                st.edges,
                                st2.edges.last(),
                                st.base + j,
                                st.edges.len() as int,
                            );
                            if j < st.nodes.len() {
                                assert(count_tree_in(st2.edges, st.base + j, st.edges.len() as int)
                                    == count_tree_in(st.edges, st.base + j, st.edges.len() as int));
                                assert(st2.edges[st2.edges.len() - 1].1 == nid && nid != st.base + j);
                            } else {
                                assert(st.base + j == nid);
                                assert forall|e: int|
                                    0 <= e < st.edges.len() implies (#[trigger] st.edges[e]).1
                                    != nid by {}
                                lemma_count_tree_in_none(st.edges, nid, st.edges.len() as int);
                                assert(count_tree_in(st2.edges, nid, st.edges.len() as int) == 0);
                                assert(st2.edges[st2.edges.len() - 1].1 == nid && !st2.edges[
                                    st2.edges.len() - 1
                                ].2.ring);
                            }
                        }
                    } else if BondType::spec_new(t) is Some {
                    } else if spec_ring_of(t) is Some {
                        let (pre, id) = spec_ring_of(t)->Some_0;
                        lemma_ring_find_in_range(st.rings, id, 0);
                        match spec_ring_find(st.rings, id) {
                            None => {},
                            Some(pos) => {
                                assert(st2.edges == st.edges.push(st2.edges.last()));
                                assert(st2.edges.last().2.ring);
                                assert forall|j: int|
                                    0 <= j < st2.nodes.len() implies #[trigger] count_tree_in(
                                    st2.edges,
                                    st2.base + j,
                                    st2.edges.len() as int,
                                ) == (if j == 0 {
                                    0int
                                } else {
                                    1int
                                }) by {
                                    lemma_count_tree_in_push(
                                        st.edges,
                                        st2.edges.last(),
                                        st.base + j,
                                        st.edges.len() as int,
                                    );
                                }
                                assert forall|j: int|
                                    0 <= j < st2.rings.len() implies st2.base <= (
                                #[trigger] st2.rings[j]).0 < st2.base + st2.nodes.len() by {
                                    assert(st2.rings[j] == st.rings.remove(pos)[j]);
                                    if j < pos {
                                        assert(st.rings.remove(pos)[j] == st.rings[j]);
                                    } else {
                                        assert(st.rings.remove(pos)[j] == st.rings[j + 1]);
                                    }
                                }
                            },
                        }
                    } else {
                    }
                },
            }
        },
    }
}

/// A found ring entry sits inside the table.
proof fn lemma_ring_find_in_range(rings: Seq<(int, Option<BondType>, nat)>, id: nat, j: int)
    requires
        0 <= j <= rings.len(),
    ensures
        match spec_ring_find_from(rings, id, j) {
            Some(p) => j <= p < rings.len(),
            None => true,
        },
    decreases rings.len() - j,
{
    if j < rings.len() && rings[j].2 != id {
        lemma_ring_find_in_range(rings, id, j + 1);
    }
}

/// The walk keeps the forest shape from any token on.
proof fn lemma_fold_tree_ok(ts: Seq<Seq<char>>, k: int, st: DecodeState)
    requires
        st_tree_ok(st),
    ensures
        spec_decode_fold(ts, k, st) matches Ok(st2) ==> st_tree_ok(st2) && st2.base == st.base,
    decreases ts.len() - k,
{
    if 0 <= k < ts.len() {
        lemma_step_tree_ok(st, ts[k]);
        match spec_decode_step(st, ts[k]) {
            Err(_) => {},
            Ok(st2) => {
                lemma_fold_tree_ok(ts, k + 1, st2);
            },
        }
    }
}

/// A successful decode ends in the forest shape.
pub proof fn lemma_decode_tree_ok(s: Seq<char>, base: int)
    ensures
        spec_decode(s, base) matches Ok(st) ==> st_tree_ok(st) && st.base == base
            && st.nodes.len() >= 1,
{
    assert(st_tree_ok(init_state(base)));
    lemma_fold_tree_ok(spec_tokenize(s), 0, init_state(base));
}

/// Every stripped edge is one of the created edges, and no structure dot stays.
proof fn lemma_strip_elements(es: Seq<(int, int, Bond)>)
    ensures
        forall|k: int|
            0 <= k < strip_no_bond(es).len() ==> exists|e: int|
                0 <= e < es.len() && es[e] == #[trigger] strip_no_bond(es)[k] && !(es[e].2.bond_type
                    is NoBond),
    decreases es.len(),
{
    if es.len() > 0 {
        lemma_strip_elements(es.drop_last());
        assert forall|k: int|
            0 <= k < strip_no_bond(es).len() implies exists|e: int|
                0 <= e < es.len() && es[e] == #[trigger] strip_no_bond(es)[k] && !(es[e].2.bond_type
                    is NoBond) by {
            if k < strip_no_bond(es.drop_last()).len() {
                assert(strip_no_bond(es)[k] == strip_no_bond(es.drop_last())[k]);
                let e = choose|e: int|
                    0 <= e < es.drop_last().len() && es.drop_last()[e] == strip_no_bond(
                        es.drop_last(),
                    )[k] && !(es.drop_last()[e].2.bond_type is NoBond);
                assert(es[e] == strip_no_bond(es)[k] && !(es[e].2.bond_type is NoBond));
            } else {
                assert(strip_no_bond(es)[k] == es.last());
                assert(es[es.len() - 1] == strip_no_bond(es)[k]);
            }
        }
    }
}

/// Every created edge that is no structure dot survives the stripping.
proof fn lemma_strip_keeps(es: Seq<(int, int, Bond)>, e: int)
    requires
        0 <= e < es.len(),
        !(es[e].2.bond_type is NoBond),
    ensures
        exists|k: int| 0 <= k < strip_no_bond(es).len() && #[trigger] strip_no_bond(es)[k] == es[e],
    decreases es.len(),
{
    if e == es.len() - 1 {
        assert(strip_no_bond(es)[strip_no_bond(es).len() - 1] == es[e]);
    } else {
        lemma_strip_keeps(es.drop_last(), e);
        let k = choose|k: int|
            0 <= k < strip_no_bond(es.drop_last()).len() && #[trigger] strip_no_bond(
                es.drop_last(),
            )[k] == es.drop_last()[e];
        assert(strip_no_bond(es)[k] == es[e]);
    }
}

/// One root per dot-separated structure: the first created node is a root of
/// the grown workspace, and any other created node is a root exactly where the
/// one non-ring edge that led into it carried the structure dot and was
/// stripped. Older nodes never gain an edge into the new ones.
#[verifier::rlimit(100)]
#[verifier::spinoff_prover]
pub proof fn lemma_decode_structure_roots(
    before: Workspace,
    after: Workspace,
    st: DecodeState,
    s: Seq<char>,
)
    requires
        before.wf(),
        spec_decode(s, before.nodes@.len() as int) == Ok::<DecodeState, SpecDecodeErr>(st),
        decode_commits(before, after, st),
        st.base + st.nodes.len() <= usize::MAX,
    ensures
        after.is_root(st.base),
        forall|j: int|
            1 <= j < st.nodes.len() ==> (#[trigger] after.is_root(st.base + j) <==> exists|e: int|
                0 <= e < st.edges.len() && (#[trigger] st.edges[e]).1 == st.base + j
                    && !st.edges[e].2.ring && st.edges[e].2.bond_type is NoBond),
{
    lemma_decode_tree_ok(s, before.nodes@.len() as int);
    let base = st.base;
    let strip = strip_no_bond(st.edges);
    let blen = before.edges@.len() as int;
    lemma_strip_elements(st.edges);

    // what an incoming non-ring edge of a new node can be
    assert forall|j: int|
        0 <= j < st.nodes.len() implies (#[trigger] after.has_tree_incoming(base + j) <==> exists|
            k: int,
        |
        0 <= k < strip.len() && (#[trigger] strip[k]).1 == base + j && !strip[k].2.ring) by {
        let t = base + j;
        if after.has_tree_incoming(t) {
            let e = choose|e: int|
                after.valid_edge(e) && (#[trigger] after.edge_at(e)).target == t && !after.edge_at(
                    e,
                ).bond.ring;
            if e < blen {
                assert(after.edges@[e] == before.edges@[e]);
                assert(before.valid_edge(e));
                assert(before.valid_node(before.edge_at(e).source as int));
                assert(before.valid_node(before.edge_at(e).target as int));
                assert(false);
            } else {
                let k = e - blen;
                assert(after.edges@[e] == strip.map_values(
                    |x: (int, int, Bond)|
                        Some(Edge { source: x.0 as usize, target: x.1 as usize, bond: x.2 }),
                )[k]);
                let ee = choose|ee: int|
                    0 <= ee < st.edges.len() && st.edges[ee] == strip[k] && !(
                    st.edges[ee].2.bond_type is NoBond);
                assert(base <= st.edges[ee].1 < base + st.nodes.len());
                assert(strip[k].1 as usize as int == strip[k].1);
                assert(strip[k].1 == t && !strip[k].2.ring);
            }
        }
        if exists|k: int|
            0 <= k < strip.len() && (#[trigger] strip[k]).1 == base + j && !strip[k].2.ring {
            let k = choose|k: int|
                0 <= k < strip.len() && (#[trigger] strip[k]).1 == base + j && !strip[k].2.ring;
            let e = blen + k;
            assert(after.edges@[e] == strip.map_values(
                |x: (int, int, Bond)|
                    Some(Edge { source: x.0 as usize, target: x.1 as usize, bond: x.2 }),
            )[k]);
            let ee = choose|ee: int|
                0 <= ee < st.edges.len() && st.edges[ee] == strip[k] && !(st.edges[ee].2.bond_type
                    is NoBond);
            assert(base <= st.edges[ee].1 < base + st.nodes.len());
            assert(strip[k].1 as usize as int == strip[k].1);
            assert(after.valid_edge(e) && after.edge_at(e).target == t && !after.edge_at(
                e,
            ).bond.ring);
        }
    }

    // the first created node: nothing strips to an edge into it
    assert(after.valid_node(base));
    assert(!after.has_tree_incoming(base)) by {
        if exists|k: int| 0 <= k < strip.len() && (#[trigger] strip[k]).1 == base && !strip[k].2.ring {
            let k = choose|k: int|
                0 <= k < strip.len() && (#[trigger] strip[k]).1 == base && !strip[k].2.ring;
            let ee = choose|ee: int|
                0 <= ee < st.edges.len() && st.edges[ee] == strip[k] && !(st.edges[ee].2.bond_type
                    is NoBond);
            lemma_count_tree_in_at_least(st.edges, base, st.edges.len() as int, ee);
        }
    }

    // the later created nodes: their one incoming edge decides
    assert forall|j: int|
        1 <= j < st.nodes.len() implies (#[trigger] after.is_root(base + j) <==> exists|e: int|
        0 <= e < st.edges.len() && (#[trigger] st.edges[e]).1 == base + j && !st.edges[e].2.ring
            && st.edges[e].2.bond_type is NoBond) by {
        let t = base + j;
        assert(after.valid_node(t));
        assert(count_tree_in(st.edges, t, st.edges.len() as int) == 1);
        if exists|e: int|
            0 <= e < st.edges.len() && (#[trigger] st.edges[e]).1 == t && !st.edges[e].2.ring
                && st.edges[e].2.bond_type is NoBond {
            // the one edge in was a structure dot: stripped, so the node is a root
            let e0 = choose|e: int|
                0 <= e < st.edges.len() && (#[trigger] st.edges[e]).1 == t && !st.edges[e].2.ring
                    && st.edges[e].2.bond_type is NoBond;
            assert(!after.has_tree_incoming(t)) by {
                if exists|k: int|
                    0 <= k < strip.len() && (#[trigger] strip[k]).1 == t && !strip[k].2.ring {
                    let k = choose|k: int|
                        0 <= k < strip.len() && (#[trigger] strip[k]).1 == t && !strip[k].2.ring;
                    let ee = choose|ee: int|
                        0 <= ee < st.edges.len() && st.edges[ee] == strip[k] && !(
                        st.edges[ee].2.bond_type is NoBond);
                    lemma_count_tree_in_unique(
                        st.edges,
                        t,
                        st.edges.len() as int,
                        e0,
                        ee,
                    );
                }
            }
        } else {
            // the one edge in survives the stripping: the node is no root
            let e0 = choose|e: int|
                0 <= e < st.edges.len() && (#[trigger] st.edges[e]).1 == t && !st.edges[e].2.ring;
            assert(0 <= e0 < st.edges.len() && st.edges[e0].1 == t && !st.edges[e0].2.ring) by {
                lemma_count_tree_in_has_witness(st.edges, t, st.edges.len() as int);
            }
            assert(!(st.edges[e0].2.bond_type is NoBond));
            lemma_strip_keeps(st.edges, e0);
            assert(after.has_tree_incoming(t));
        }
    }
}

/// A positive count names a hit.
proof fn lemma_count_tree_in_has_witness(es: Seq<(int, int, Bond)>, t: int, n: int)
    requires
        n <= es.len(),
        count_tree_in(es, t, n) >= 1,
    ensures
        exists|e: int| 0 <= e < n && (#[trigger] es[e]).1 == t && !es[e].2.ring,
    decreases n,
{
    if n > 0 {
        if es[n - 1].1 == t && !es[n - 1].2.ring {
            assert(0 <= n - 1 < n && es[n - 1].1 == t && !es[n - 1].2.ring);
        } else {
            lemma_count_tree_in_has_witness(es, t, n - 1);
        }
    }
}

/// Stripping the dot edges never raises the number of non-ring edges into a node.
proof fn lemma_count_tree_strip_le(es: Seq<(int, int, Bond)>, t: int)
    ensures
        count_tree_in(strip_no_bond(es), t, strip_no_bond(es).len() as int) <= count_tree_in(
            es,
            t,
            es.len() as int,
        ),
    decreases es.len(),
{
    if es.len() == 0 {
    } else {
        let d = es.drop_last();
        lemma_count_tree_strip_le(d, t);
        lemma_count_tree_in_push(d, es.last(), t, d.len() as int);
        assert(d.push(es.last()) =~= es);
        if es.last().2.bond_type is NoBond {
            assert(strip_no_bond(es) == strip_no_bond(d));
            lemma_count_tree_in_nonneg(es, t, es.len() as int);
        } else {
            assert(strip_no_bond(es) =~= strip_no_bond(d).push(es.last()));
            lemma_count_tree_in_push(
                strip_no_bond(d),
                es.last(),
                t,
                strip_no_bond(d).len() as int,
            );
        }
    }
}

/// A decode into a workspace whose non-ring edges form a forest keeps the
/// forest shape: every created node takes at most one incoming non-ring edge,
/// and older nodes take none.
#[verifier::rlimit(100)]
#[verifier::spinoff_prover]
pub proof fn lemma_decode_keeps_forest(
    before: Workspace,
    after: Workspace,
    st: DecodeState,
    s: Seq<char>,
)
    requires
        before.wf(),
        before.forest_in(),
        spec_decode(s, before.nodes@.len() as int) == Ok::<DecodeState, SpecDecodeErr>(st),
        decode_commits(before, after, st),
        st.base + st.nodes.len() <= usize::MAX,
    ensures
        after.forest_in(),
{
    lemma_decode_tree_ok(s, before.nodes@.len() as int);
    let base = st.base;
    let strip = strip_no_bond(st.edges);
    let blen = before.edges@.len() as int;
    lemma_strip_elements(st.edges);
    let gmap = |x: (int, int, Bond)|
        Some(Edge { source: x.0 as usize, target: x.1 as usize, bond: x.2 });
    assert forall|e1: int, e2: int|
        after.valid_edge(e1) && after.valid_edge(e2) && !(#[trigger] after.edge_at(e1)).bond.ring
            && !(#[trigger] after.edge_at(e2)).bond.ring && after.edge_at(e1).target
            == after.edge_at(e2).target implies e1 == e2 by {
        if e1 != e2 {
            if e1 < blen && e2 < blen {
                assert(after.edges@[e1] == before.edges@[e1]);
                assert(after.edges@[e2] == before.edges@[e2]);
                assert(before.valid_edge(e1) && before.valid_edge(e2));
                assert(before.edge_at(e1) == after.edge_at(e1));
                assert(before.edge_at(e2) == after.edge_at(e2));
            } else if e1 >= blen && e2 >= blen {
                let k1 = e1 - blen;
                let k2 = e2 - blen;
                assert(after.edges@[e1] == strip.map_values(gmap)[k1]);
                assert(after.edges@[e2] == strip.map_values(gmap)[k2]);
                let ee1 = choose|ee: int|
                    0 <= ee < st.edges.len() && st.edges[ee] == strip[k1] && !(
                    st.edges[ee].2.bond_type is NoBond);
                let ee2 = choose|ee: int|
                    0 <= ee < st.edges.len() && st.edges[ee] == strip[k2] && !(
                    st.edges[ee].2.bond_type is NoBond);
                let t = strip[k1].1;
                assert(base <= st.edges[ee1].1 < base + st.nodes.len());
                assert(base <= st.edges[ee2].1 < base + st.nodes.len());
                assert(base <= strip[k1].1 < base + st.nodes.len());
                assert(base <= strip[k2].1 < base + st.nodes.len());
                assert(0 <= base);
                assert(strip[k1].1 as usize as int == strip[k1].1);
                assert(strip[k2].1 as usize as int == strip[k2].1);
                assert(strip[k2].1 == t);
                assert(strip[k1].1 == t && !strip[k1].2.ring);
                assert(strip[k2].1 == t && !strip[k2].2.ring);
                lemma_count_tree_in_at_least_two(strip, t, strip.len() as int, k1, k2);
                lemma_count_tree_strip_le(st.edges, t);
                assert(count_tree_in(st.edges, t, st.edges.len() as int) >= 2);
                let j = t - base;
                assert(0 <= j < st.nodes.len());
                assert(count_tree_in(st.edges, base + j, st.edges.len() as int) <= 1);
                assert(false);
            } else {
                let eo = if e1 < blen {
                    e1
                } else {
                    e2
                };
                let en = if e1 < blen {
                    e2
                } else {
                    e1
                };
                assert(after.edges@[eo] == before.edges@[eo]);
                assert(before.valid_edge(eo));
                assert(before.valid_node(before.edge_at(eo).source as int));
                assert(before.valid_node(before.edge_at(eo).target as int));
                assert(after.edge_at(eo).target < base);
                let k = en - blen;
                assert(after.edges@[en] == strip.map_values(gmap)[k]);
                let ee = choose|ee: int|
                    0 <= ee < st.edges.len() && st.edges[ee] == strip[k] && !(st.edges[ee].2.bond_type
                        is NoBond);
                assert(base <= st.edges[ee].1 < base + st.nodes.len());
                assert(base <= strip[k].1 < base + st.nodes.len());
                assert(0 <= base);
                assert(strip[k].1 as usize as int == strip[k].1);
                assert(after.edge_at(en).target >= base);
                assert(false);
            }
        }
    }
}

} // verus!
