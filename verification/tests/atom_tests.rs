use smiles_workspace::definitions::atom::Atom;
use smiles_workspace::definitions::bond::{Bond, BondType};
use smiles_workspace::definitions::chirality::ChiralityType;
use smiles_workspace::definitions::element::Element;

#[test]
fn parse_organic_subset() {
    let a = Atom::new("c").unwrap();
    assert_eq!(a.element, Element::C);
    assert!(a.aromatic);
    assert_eq!(a.charge, 0);
    assert_eq!(a.explicit_hydrogen, 0);

    let b = Atom::new("Br").unwrap();
    assert_eq!(b.element, Element::Br);
    assert!(!b.aromatic);

    let c = Atom::new("C@@").unwrap();
    assert_eq!(c.chirality_type, Some(ChiralityType::Clockwise));

    assert!(Atom::new("x").is_none());
    assert!(Atom::new("[Zz]").is_none());
}

#[test]
fn parse_signed_charges() {
    // a run of signs and a signed count write the same charge
    let a = Atom::new("[Fe++]").unwrap();
    assert_eq!(a.charge, 2);
    let b = Atom::new("[Fe+2]").unwrap();
    assert_eq!(b.charge, 2);
    assert_eq!(a.element, Element::Fe);
    let c = Atom::new("[O--]").unwrap();
    assert_eq!(c.charge, -2);
    let d = Atom::new("[O-2]").unwrap();
    assert_eq!(d.charge, -2);
}

#[test]
fn parse_hydrogen_and_charge() {
    let a = Atom::new("[OH2+]").unwrap();
    assert_eq!(a.element, Element::O);
    assert_eq!(a.explicit_hydrogen, 2);
    assert_eq!(a.charge, 1);

    let b = Atom::new("[OH]").unwrap();
    assert_eq!(b.explicit_hydrogen, 1);
}

#[test]
fn parse_full_bracket_atom() {
    let a = Atom::new("[13C@@H2+2:5{tag}]").unwrap();
    assert_eq!(a.element, Element::C);
    assert_eq!(a.isotope, Some(13));
    assert_eq!(a.chirality_type, Some(ChiralityType::Clockwise));
    assert_eq!(a.explicit_hydrogen, 2);
    assert_eq!(a.charge, 2);
    assert_eq!(a.react_id, Some(5));
    assert_eq!(a.selector, Some(String::from("tag")));
    assert!(!a.aromatic);
}

#[test]
fn atom_token_round_trip() {
    // writing an atom and reading the token back keeps every semantic field
    let samples = vec![
        "c", "C", "Br", "br", "C@@", "n", "[H]", "[13c]", "[Fe+2]", "[OH2+]", "[O-]",
        "[13C@@H2+2:5{tag}]", "[P{R;R;Out}]", "[CH2:1]", "[nH]",
    ];
    for s in samples {
        let a = Atom::new(s).unwrap();
        let t = a.to_token();
        let b = Atom::new(t.as_str()).unwrap_or_else(|| panic!("token {} did not re-parse", t));
        assert_eq!(a.element, b.element);
        assert_eq!(a.isotope, b.isotope);
        assert_eq!(a.charge, b.charge);
        assert_eq!(a.chirality_type, b.chirality_type);
        assert_eq!(a.explicit_hydrogen, b.explicit_hydrogen);
        assert_eq!(a.selector, b.selector);
        assert_eq!(a.aromatic, b.aromatic);
        assert_eq!(a.react_id, b.react_id);
    }
}

#[test]
fn bond_reverse_is_involution() {
    // reversing twice restores direction and kind
    let kinds = vec![
        BondType::Single,
        BondType::UpSingle,
        BondType::DownSingle,
        BondType::Double,
        BondType::Triple,
        BondType::Quad,
        BondType::Aromatic,
        BondType::NoBond,
    ];
    for k in kinds {
        let b = Bond::new(k, false);
        assert_eq!(b.reverse().reverse(), b);
    }
    let up = Bond::new(BondType::UpSingle, false);
    assert_eq!(up.reverse(), Bond::new(BondType::DownSingle, false));
    let ring = Bond::new(BondType::DownSingle, true);
    assert_eq!(ring.reverse(), Bond::new(BondType::UpSingle, true));
}

#[test]
fn bond_parsing() {
    assert_eq!(BondType::new("="), Some(BondType::Double));
    assert_eq!(BondType::new("#"), Some(BondType::Triple));
    assert_eq!(BondType::new("$"), Some(BondType::Quad));
    assert_eq!(BondType::new("."), Some(BondType::NoBond));
    assert_eq!(BondType::new("/"), Some(BondType::UpSingle));
    assert_eq!(BondType::new("\\"), Some(BondType::DownSingle));
    assert_eq!(BondType::new(":"), Some(BondType::Aromatic));
    assert_eq!(BondType::new("-"), Some(BondType::Single));
    assert_eq!(BondType::new("=="), None);
    let b = Bond::new(BondType::Double, false);
    assert_eq!(b.as_str(), "=");
    assert!(!b.is_ring_bond());
    assert!(!b.is_no_bond());
    assert!(!b.is_aromatic());
    assert!(Bond::new(BondType::Aromatic, true).is_aromatic());
    assert!(Bond::new(BondType::Single, false).is_normal_single());
}

#[test]
fn element_tables() {
    assert_eq!(Element::C.default_hydrogen(), 4);
    assert_eq!(Element::N.default_hydrogen(), 3);
    assert_eq!(Element::O.default_hydrogen(), 2);
    assert_eq!(Element::Cl.default_hydrogen(), 1);
    assert_eq!(Element::Fe.default_hydrogen(), 0);
    assert!(Element::C.is_organic_subset());
    assert!(Element::Br.is_organic_subset());
    assert!(!Element::Fe.is_organic_subset());
}
