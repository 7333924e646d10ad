pub mod definitions;
pub mod text;
pub mod tokenizer;
pub mod workspace;

use rand::Rng;
use vstd::prelude::*;

use crate::definitions::atom::Atom;
use crate::definitions::bond::BondType;
use crate::definitions::selectors::{remove_selector_occurrence, selector_matches};
use crate::workspace::{NodeIndex, Workspace};

verus! {

/// Relies on rand's `gen_range` over `0..n` with the thread-local generator:
/// it panics only on an empty range and samples within the range.
#[verifier::external_body]
fn random_below(n: usize) -> (r: usize)
    requires
        n >= 1,
    ensures
        r < n,
{
    rand::thread_rng().gen_range(0..n)
}

/// The first atom of the structure of `root` whose selector list names `target`.
fn find_with_selector(ws: &Workspace, root: NodeIndex, target: &str) -> (r: Option<NodeIndex>)
    requires
        ws.wf(),
    ensures
        match r {
            Some(n) => ws.valid_node(n.index as int),
            None => true,
        },
{
    ws.find_node_in_structure(
        root,
        |atom: &Atom| -> bool {
            match &atom.selector {
                Some(s) => selector_matches(s.as_str(), target),
                None => false,
            }
        },
    )
}

/// Take the first occurrence of `target` out of the atom's selector list, as
/// far as the list names it; a list spent by the removal goes away entirely.
fn remove_selector_at(ws: &mut Workspace, n: NodeIndex, target: &str)
    requires
        old(ws).wf(),
    ensures
        final(ws).wf(),
        final(ws).nodes@.len() == old(ws).nodes@.len(),
        final(ws).edges@ == old(ws).edges@,
        forall|j: int| #[trigger] final(ws).valid_node(j) <==> old(ws).valid_node(j),
{
    let current: Option<String> = match ws.get_atom(n) {
        Some(a) => match &a.selector {
            Some(s) => Some(s.clone()),
            None => None,
        },
        None => None,
    };
    let sel = match current {
        Some(s) => s,
        None => {
            return ;
        },
    };
    let updated = match remove_selector_occurrence(sel.as_str(), target) {
        Some(u) => u,
        None => {
            return ;
        },
    };
    let rebuilt: Option<Atom> = match ws.get_atom(n) {
        Some(a) => Some(
            Atom {
                element: a.element,
                isotope: a.isotope,
                charge: a.charge,
                chirality_type: a.chirality_type,
                explicit_hydrogen: a.explicit_hydrogen,
                selector: updated,
                aromatic: a.aromatic,
                react_id: a.react_id,
            },
        ),
        None => None,
    };
    match rebuilt {
        Some(a) => {
            ws.set_atom(n, a);
            proof {
                assert forall|j: int| final(ws).valid_node(j) <==> old(ws).valid_node(j) by {}
            }
        },
        None => {},
    }
}

/// Grow a random structure: a chain of `duals_amount` randomly chosen two-port
/// fragments between the start and end fragments, joined `Out` to `In`, then
/// every remaining `R` port filled with a randomly chosen one-port fragment at
/// its `RIn` atom. Nothing comes back when a fragment fails to decode or a
/// needed port is missing; the bound on port fillings keeps the growth finite.
pub fn random_generate_structures(
    start: &str,
    end: &str,
    duals: Vec<&str>,
    singles: Vec<&str>,
    duals_amount: usize,
) -> Option<String> {
    let mut ws = Workspace::new();
    let start_point = match ws.add_structure(start) {
        Ok(n) => n,
        Err(_) => {
            return None;
        },
    };
    proof {
        assert(ws.valid_node(start_point.index as int));
    }
    let mut i: usize = 0;
    while i < duals_amount
        invariant
            ws.wf(),
            ws.valid_node(start_point.index as int),
        decreases duals_amount - i,
    {
        if duals.len() == 0 {
            return None;
        }
        let pick = random_below(duals.len());
        let dual_root = match ws.add_structure(duals[pick]) {
            Ok(n) => n,
            Err(_) => {
                return None;
            },
        };
        let outgoing = match find_with_selector(&ws, start_point, "Out") {
            Some(n) => n,
            None => {
                return None;
            },
        };
        let incoming = match find_with_selector(&ws, dual_root, "In") {
            Some(n) => n,
            None => {
                return None;
            },
        };
        proof {
            assert(ws.valid_node(start_point.index as int));
        }
        if ws.reset_root(incoming).is_none() {
            return None;
        }
        proof {
            assert(ws.valid_node(start_point.index as int));
        }
        ws.connect(outgoing, incoming, BondType::Single);
        proof {
            assert(ws.valid_node(start_point.index as int));
        }
        remove_selector_at(&mut ws, outgoing, "Out");
        proof {
            assert(ws.valid_node(start_point.index as int));
        }
        remove_selector_at(&mut ws, incoming, "In");
        proof {
            assert(ws.valid_node(start_point.index as int));
        }
        i = i + 1;
    }
    let outgoing = match find_with_selector(&ws, start_point, "Out") {
        Some(n) => n,
        None => {
            return None;
        },
    };
    let end_root = match ws.add_structure(end) {
        Ok(n) => n,
        Err(_) => {
            return None;
        },
    };
    proof {
        assert(ws.valid_node(outgoing.index as int));
    }
    let end_incoming = match find_with_selector(&ws, end_root, "In") {
        Some(n) => n,
        None => {
            return None;
        },
    };
    proof {
        assert(ws.valid_node(start_point.index as int));
    }
    if ws.reset_root(end_incoming).is_none() {
        return None;
    }
    proof {
        assert(ws.valid_node(start_point.index as int));
    }
    ws.connect(outgoing, end_incoming, BondType::Single);
    proof {
        assert(ws.valid_node(start_point.index as int));
    }
    remove_selector_at(&mut ws, outgoing, "Out");
    proof {
        assert(ws.valid_node(start_point.index as int));
    }
    remove_selector_at(&mut ws, end_incoming, "In");
    proof {
        assert(ws.valid_node(start_point.index as int));
    }
    // fill the remaining R ports; the bound keeps a fragment set that always
    // leaves new ports from looping forever
    let mut fuel: usize = 4096;
    loop
        invariant
            ws.wf(),
            ws.valid_node(start_point.index as int),
        decreases fuel,
    {
        if fuel == 0 {
            return None;
        }
        let r_outgoing = match find_with_selector(&ws, start_point, "R") {
            Some(n) => n,
            None => {
                break ;
            },
        };
        if singles.len() == 0 {
            return None;
        }
        let pick = random_below(singles.len());
        let r_root = match ws.add_structure(singles[pick]) {
            Ok(n) => n,
            Err(_) => {
                return None;
            },
        };
        proof {
            assert(ws.valid_node(r_outgoing.index as int));
        }
        let r_incoming = match find_with_selector(&ws, r_root, "RIn") {
            Some(n) => n,
            None => {
                return None;
            },
        };
        proof {
            assert(ws.valid_node(start_point.index as int));
        }
        ws.connect(r_outgoing, r_incoming, BondType::Single);
        proof {
            assert(ws.valid_node(start_point.index as int));
        }
        remove_selector_at(&mut ws, r_outgoing, "R");
        proof {
            assert(ws.valid_node(start_point.index as int));
        }
        remove_selector_at(&mut ws, r_incoming, "RIn");
        proof {
            assert(ws.valid_node(start_point.index as int));
        }
        fuel = fuel - 1;
    }
    ws.to_smiles(start_point)
}

} // verus!
