use smiles_workspace::definitions::selectors::{remove_selector_occurrence, selector_matches};

#[test]
fn match_replace_selector() {
    let result = vec![('=', 1u64), ('-', 2), ('=', 1), ('-', 1)];
    let inputs = vec!["Replacer(=)", "Replacer(-, 2)", "Replacer(=,1)", "Replacer(-)"];
    for (idx, s) in inputs.iter().enumerate() {
        let (keytype, amount) = smiles_workspace::definitions::selectors::match_replace_selector(s)
            .unwrap_or_else(|| panic!("{:?}", s));
        let (target_type, target_amount) = result[idx];
        assert_eq!(keytype, target_type);
        assert_eq!(amount.unwrap_or(1), target_amount);
    }
    assert!(smiles_workspace::definitions::selectors::match_replace_selector("nothing here")
        .is_none());
}

#[test]
fn selector_membership_and_removal() {
    assert!(selector_matches("R;R;Out", "Out"));
    assert!(selector_matches("R;R;Out", "R"));
    assert!(!selector_matches("R;R;Out", "In"));
    assert!(!selector_matches("ROut", "R"));

    // removing one occurrence keeps the rest, separators rejoined around one `;`
    let r = remove_selector_occurrence("R;R;Out", "Out").unwrap().unwrap();
    assert_eq!(r, "R;R;");
    let r2 = remove_selector_occurrence("R;In;Out", "R").unwrap().unwrap();
    assert_eq!(r2, ";In;Out");
    // a spent list goes away
    assert_eq!(remove_selector_occurrence("R", "R").unwrap(), None);
    // an absent part leaves nothing to do
    assert!(remove_selector_occurrence("R;Out", "In").is_none());
}
