use smiles_workspace::tokenizer::smiles_tokenize;

#[test]
fn tokenize_with_chirality_and_branches() {
    let toks = smiles_tokenize("c1ccccc1C@@(N)(P)S");
    let expected = vec![
        "c", "1", "c", "c", "c", "c", "c", "1", "C@@", "(", "N", ")", "(", "P", ")", "S",
    ];
    assert_eq!(toks, expected);
}

#[test]
fn tokenize_ring_references() {
    // a bond character fuses with the following ring number
    let toks = smiles_tokenize("C=1CCC1");
    assert_eq!(toks, vec!["C", "=1", "C", "C", "C", "1"]);
    let toks = smiles_tokenize("C1%12C3C4C1C5C%12C3C45");
    assert_eq!(
        toks,
        vec!["C", "1", "%12", "C", "3", "C", "4", "C", "1", "C", "5", "C", "%12", "C", "3", "C", "4", "5"]
    );
}

#[test]
fn tokenize_brackets_and_dots() {
    let toks = smiles_tokenize("[I-].[Na+].C=CCBr");
    assert_eq!(toks, vec!["[I-]", ".", "[Na+]", ".", "C", "=", "C", "C", "Br"]);
    let toks = smiles_tokenize("[P{R;R;Out}]");
    assert_eq!(toks, vec!["[P{R;R;Out}]"]);
}

#[test]
fn tokenize_skips_unknown_characters() {
    let toks = smiles_tokenize("C?C");
    assert_eq!(toks, vec!["C", "C"]);
}
