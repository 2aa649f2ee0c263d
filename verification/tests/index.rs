use partons::index::{Index, LookupError, ParseIndexError};

#[test]
fn index_round_trip() {
    let index = Index::parse("1 SetA 100\n2 SetB 1\n").unwrap();
    assert_eq!(index.len(), 2);
    assert_eq!(index.at(0).id, 1);
    assert_eq!(index.at(0).name, "SetA");
    assert_eq!(index.at(0).number, 100);
    assert_eq!(index.at(1).id, 2);
    assert_eq!(index.at(1).name, "SetB");
    assert_eq!(index.at(1).number, 1);

    let hit = index.get("SetA").unwrap();
    assert_eq!(hit.id, 1);
    assert_eq!(hit.name, "SetA");
    assert_eq!(hit.number, 100);

    match index.get("Set.*") {
        Err(LookupError::Ambiguous(n)) => assert_eq!(n, 2),
        _ => panic!("expected an ambiguity error"),
    }
    assert!(matches!(index.get("NoSuch"), Err(LookupError::NoMatch)));
}

#[test]
fn invalid_patterns_are_reported() {
    let index = Index::parse("1 SetA 100\n").unwrap();
    assert!(matches!(index.get("("), Err(LookupError::InvalidPattern)));
}

#[test]
fn malformed_lines_fail_the_document() {
    assert!(matches!(Index::parse("1 SetA\n"), Err(ParseIndexError)));
    assert!(matches!(Index::parse("1 SetA 100 extra\n"), Err(ParseIndexError)));
    assert!(matches!(Index::parse("x SetA 100\n"), Err(ParseIndexError)));
    assert!(matches!(Index::parse("1 SetA -3\n"), Err(ParseIndexError)));
}

#[test]
fn blank_lines_fail_the_document() {
    assert!(matches!(
        Index::parse("1 SetA 100\n\n2 SetB 1\n"),
        Err(ParseIndexError)
    ));
    assert!(matches!(Index::parse("\n"), Err(ParseIndexError)));
    assert!(matches!(
        Index::parse("  \n1 SetA 100\n"),
        Err(ParseIndexError)
    ));
    // a single terminating newline closes the last record, it opens no line
    let index = Index::parse("1 SetA 100\n2 SetB 1\n").unwrap();
    assert_eq!(index.len(), 2);
    let bare = Index::parse("1 SetA 100").unwrap();
    assert_eq!(bare.len(), 1);
    let empty = Index::parse("").unwrap();
    assert_eq!(empty.len(), 0);
}

#[test]
fn numeric_bounds() {
    let index = Index::parse("4294967295 Big 0\n").unwrap();
    assert_eq!(index.at(0).id, u32::MAX);
    assert!(matches!(Index::parse("4294967296 Big 0\n"), Err(ParseIndexError)));
    assert!(matches!(Index::parse("007 Padded 1\n").unwrap().at(0).id, 7));
}

#[test]
fn identifier_form() {
    let index = Index::parse("7 SetC 3").unwrap();
    assert_eq!(index.at(0).identifier(), "SetC:7");
}
