use smiles_workspace::definitions::atom::Atom;
use smiles_workspace::definitions::bond::BondType;
use smiles_workspace::definitions::element::Element;
use smiles_workspace::workspace::decode::DecodeError;
use smiles_workspace::workspace::{NodeIndex, Workspace};

#[test]
fn benzene_decodes_to_one_aromatic_ring() {
    let mut ws = Workspace::new();
    let root = ws.add_structure("c1ccccc1").unwrap();
    assert_eq!(root, NodeIndex { index: 0 });
    assert_eq!(ws.node_count(), 6);
    assert_eq!(ws.edge_count(), 6);
    assert_eq!(ws.ring_edge_count(), 1);
    let roots = ws.find_strcutres_roots();
    assert_eq!(roots.len(), 1);
    let atoms = ws.get_atoms_of_structure(root).unwrap();
    assert_eq!(atoms.len(), 6);
    for a in &atoms {
        let atom = ws.get_atom(*a).unwrap();
        assert_eq!(atom.element, Element::C);
        assert!(atom.aromatic);
    }
    // all six bonds are aromatic
    for e in 0..6usize {
        let from = NodeIndex { index: e % 6 };
        let to = NodeIndex { index: (e + 1) % 6 };
        let found = ws.get_edge_undirected(from, to);
        assert!(found.is_some());
        let (bond, _, _) = found.unwrap();
        assert!(bond.is_aromatic());
    }
    assert_eq!(ws.to_smiles(root).unwrap(), "c1ccccc1");
}

#[test]
fn acetic_acid_round_trip() {
    let mut ws = Workspace::new();
    let root = ws.add_structure("CC(=O)O").unwrap();
    assert_eq!(ws.node_count(), 4);
    assert_eq!(ws.ring_edge_count(), 0);
    let (b, _) = ws.get_edge(NodeIndex { index: 1 }, NodeIndex { index: 2 }).unwrap();
    assert_eq!(b.bond_type, BondType::Double);
    // the double-bonded oxygen is written inside a branch
    assert_eq!(ws.to_smiles(root).unwrap(), "CC(=O)O");
}

#[test]
fn dot_separated_structures() {
    let mut ws = Workspace::new();
    let root = ws.add_structure("[I-].[Na+].C=CCBr").unwrap();
    assert_eq!(root, NodeIndex { index: 0 });
    let roots = ws.find_strcutres_roots();
    assert_eq!(roots.len(), 3);
    let a0 = ws.get_atom(roots[0]).unwrap();
    let a1 = ws.get_atom(roots[1]).unwrap();
    let a2 = ws.get_atom(roots[2]).unwrap();
    assert_eq!(a0.element, Element::I);
    assert_eq!(a0.charge, -1);
    assert_eq!(a1.element, Element::Na);
    assert_eq!(a1.charge, 1);
    assert_eq!(a2.element, Element::C);
    assert_eq!(a2.charge, 0);
    let (b, _) = ws.get_edge(NodeIndex { index: 2 }, NodeIndex { index: 3 }).unwrap();
    assert_eq!(b.bond_type, BondType::Double);
    // no edge survives between the separated structures
    assert!(ws.get_edge_undirected(roots[0], roots[1]).is_none());
    assert!(ws.get_edge_undirected(roots[1], roots[2]).is_none());
    assert!(!ws.in_same_structure(&[roots[0], roots[1]]));
    assert!(ws.in_same_structure(&[NodeIndex { index: 2 }, NodeIndex { index: 4 }]));
}

#[test]
fn ring_left_open_is_reported() {
    let mut ws = Workspace::new();
    let before = ws.node_count();
    let r = ws.add_structure("C1CC");
    assert_eq!(r, Err(DecodeError::RingUnclosed(vec![1])));
    assert_eq!(ws.node_count(), before);
}

#[test]
fn close_at_start_underflows() {
    let mut ws = Workspace::new();
    let r = ws.add_structure(")C");
    assert_eq!(r, Err(DecodeError::BranchUnderflow));
    let r2 = ws.add_structure("C)C");
    assert_eq!(r2, Err(DecodeError::BranchUnderflow));
}

#[test]
fn ring_bond_kinds_must_agree() {
    let mut ws = Workspace::new();
    let r = ws.add_structure("C=1CC#1");
    assert_eq!(r, Err(DecodeError::RingBondMismatch));
    // matching kinds pass, and the written kind lands on the ring edge
    let root = ws.add_structure("C=1CCC=1").unwrap();
    assert_eq!(ws.ring_edge_count(), 1);
    let (b, _) = ws.get_edge(root, NodeIndex { index: 3 }).unwrap();
    assert_eq!(b.bond_type, BondType::Double);
    assert!(b.is_ring_bond());
}

#[test]
fn branch_left_open_names_the_atoms() {
    let mut ws = Workspace::new();
    let r = ws.add_structure("C(C");
    assert_eq!(r, Err(DecodeError::BranchLeftOpen(vec![String::from("C")])));
    let r2 = ws.add_structure("x");
    assert_eq!(r2, Err(DecodeError::NoInitialAtom));
}

#[test]
fn find_root_is_a_fixed_point() {
    let mut ws = Workspace::new();
    ws.add_structure("CC(=O)O").unwrap();
    for i in 0..4usize {
        let r1 = ws.find_root_of(NodeIndex { index: i }).unwrap();
        let r2 = ws.find_root_of(r1).unwrap();
        assert_eq!(r1, r2);
        assert_eq!(r1, NodeIndex { index: 0 });
    }
}

#[test]
fn reset_root_reorients_the_structure() {
    let mut ws = Workspace::new();
    let root = ws.add_structure("C1CCCCC1").unwrap();
    let rings_before = ws.ring_edge_count();
    let target = NodeIndex { index: 3 };
    ws.reset_root(target).unwrap();
    // resetting to the root it already has is owed success and changes nothing
    assert!(ws.reset_root(target).is_some());
    // the chosen atom is the new root of every atom in the structure
    assert_eq!(ws.find_root_of(target).unwrap(), target);
    for i in 0..6usize {
        assert_eq!(ws.find_root_of(NodeIndex { index: i }).unwrap(), target);
    }
    // ring edges survive reorientation untouched in number
    assert_eq!(ws.ring_edge_count(), rings_before);
    let _ = root;
    // re-encoding still describes a six-carbon ring with one ring bond
    let s = ws.to_smiles(target).unwrap();
    let mut ws2 = Workspace::new();
    let root2 = ws2.add_structure(s.as_str()).unwrap();
    assert_eq!(ws2.node_count(), 6);
    assert_eq!(ws2.edge_count(), 6);
    assert_eq!(ws2.ring_edge_count(), 1);
    let _ = root2;
}

#[test]
fn isotope_ring_gains_six_hydrogens() {
    let mut ws = Workspace::new();
    let root = ws.add_structure("[13c]1ccccc1").unwrap();
    let a0 = ws.get_atom(root).unwrap();
    assert_eq!(a0.isotope, Some(13));
    assert!(a0.aromatic);
    assert_eq!(a0.element, Element::C);
    ws.add_hydrogen_to_structure(root).unwrap();
    assert_eq!(ws.node_count(), 12);
    // untouched fields survive the completion; only the explicit count is spent
    let a0_after = ws.get_atom(root).unwrap();
    assert_eq!(a0_after.isotope, Some(13));
    assert_eq!(a0_after.explicit_hydrogen, 0);
    let mut hydrogens = 0;
    for i in 0..12usize {
        if ws.get_atom(NodeIndex { index: i }).unwrap().element == Element::H {
            hydrogens += 1;
        }
    }
    assert_eq!(hydrogens, 6);
}

#[test]
fn hydrogen_completion_and_removal() {
    let mut ws = Workspace::new();
    let root = ws.add_structure("C").unwrap();
    ws.add_hydrogen_to_structure(root).unwrap();
    // a bare carbon gains its four default hydrogens
    assert_eq!(ws.node_count(), 5);
    assert_eq!(ws.edge_count(), 4);
    ws.remove_hydrogens();
    assert_eq!(ws.node_count(), 1);
    assert_eq!(ws.edge_count(), 0);
    // explicit hydrogen counts win over the default and are consumed
    let root2 = ws.add_structure("[CH2]").unwrap();
    ws.add_hydrogen_to_structure(root2).unwrap();
    let c = ws.get_atom(root2).unwrap();
    assert_eq!(c.explicit_hydrogen, 0);
    let atoms = ws.get_atoms_of_structure(root2).unwrap();
    assert_eq!(atoms.len(), 3);
}

#[test]
fn connect_marks_ring_edges() {
    let mut ws = Workspace::new();
    let r1 = ws.add_structure("CC").unwrap();
    let r2 = ws.add_structure("O").unwrap();
    // joining two structures lays a tree edge
    ws.connect(r1, r2, BondType::Single);
    assert_eq!(ws.ring_edge_count(), 0);
    // joining two atoms of one structure lays a ring edge
    ws.connect(NodeIndex { index: 1 }, r2, BondType::Single);
    assert_eq!(ws.ring_edge_count(), 1);
}

#[test]
fn selector_rides_through_branches() {
    let mut ws = Workspace::new();
    let root = ws.add_structure("[P{selected}](c1ccccc1)(c2ccccc2)CC").unwrap();
    let p = ws.get_atom(root).unwrap();
    assert_eq!(p.element, Element::P);
    assert_eq!(p.selector, Some(String::from("selected")));
    assert_eq!(ws.find_strcutres_roots().len(), 1);
    assert_eq!(ws.node_count(), 15);
    assert_eq!(ws.ring_edge_count(), 2);
    // the selector survives a round trip through the writer
    let s = ws.to_smiles(root).unwrap();
    assert!(s.contains("{selected}"));
    let mut ws2 = Workspace::new();
    ws2.add_structure(s.as_str()).unwrap();
    assert_eq!(ws2.node_count(), 15);
    assert_eq!(ws2.ring_edge_count(), 2);
}

#[test]
fn ring_labels_from_ten_use_the_percent_form() {
    let mut ws = Workspace::new();
    let root = ws.add_structure("C123456789%10%11C123456789%10%11").unwrap();
    assert_eq!(ws.node_count(), 2);
    assert_eq!(ws.ring_edge_count(), 11);
    let s = ws.to_smiles(root).unwrap();
    assert!(s.contains("%10"));
    assert!(s.contains("%11"));
    assert!(!s.contains("%9"));
    let mut ws2 = Workspace::new();
    ws2.add_structure(s.as_str()).unwrap();
    assert_eq!(ws2.ring_edge_count(), 11);
}

#[test]
fn mutable_access_updates_in_place() {
    let mut ws = Workspace::new();
    ws.add_structure("CC").unwrap();
    {
        let atom = ws.get_atom_mut(NodeIndex { index: 0 }).unwrap();
        atom.charge = 1;
    }
    assert_eq!(ws.get_atom(NodeIndex { index: 0 }).unwrap().charge, 1);
    {
        let (bond, _) = ws
            .get_edge_mut(NodeIndex { index: 0 }, NodeIndex { index: 1 })
            .unwrap();
        *bond = smiles_workspace::definitions::bond::Bond::new(BondType::Double, false);
    }
    let (b, _) = ws.get_edge(NodeIndex { index: 0 }, NodeIndex { index: 1 }).unwrap();
    assert_eq!(b.bond_type, BondType::Double);
    assert!(ws.get_edge_mut(NodeIndex { index: 1 }, NodeIndex { index: 0 }).is_none());
    assert!(ws.get_atom_mut(NodeIndex { index: 9 }).is_none());
}

#[test]
fn filters_and_finders() {
    let mut ws = Workspace::new();
    ws.add_structure("CCO").unwrap();
    let all = ws.filter_nodes(|_a: &Atom| true);
    assert_eq!(all.len(), 3);
    let oxygens = ws.filter_nodes(|a: &Atom| a.element == Element::O);
    assert_eq!(oxygens.len(), 1);
    assert_eq!(oxygens[0], NodeIndex { index: 2 });
    let first_c = ws.find_node(|a: &Atom| a.element == Element::C).unwrap();
    assert_eq!(first_c, NodeIndex { index: 0 });
    assert!(ws.find_node(|a: &Atom| a.element == Element::Fe).is_none());
    let in_struct = ws
        .find_node_in_structure(NodeIndex { index: 1 }, |a: &Atom| a.element == Element::O)
        .unwrap();
    assert_eq!(in_struct, NodeIndex { index: 2 });
}
