use partons::grid::{grid_blocks, parse_member, GridError};
use partons::member::Member;

const DOC: &str = "{}\n---\n0.1 0.5\n10 100\n1 21\n1 2\n3 4\n5 6\n7 8\n---";

#[test]
fn legacy_grid_decode_round_trip() {
    let member = parse_member(DOC).unwrap();
    assert_eq!(member.metadata.len(), 0);
    assert_eq!(member.blocks.len(), 2);
    let total: usize = member.blocks.iter().map(|b| b.values.len()).sum();
    assert_eq!(total, 8);

    assert_eq!(member.blocks[0].pids, vec![1]);
    assert_eq!(member.blocks[1].pids, vec![21]);
    assert_eq!(member.blocks[0].xgrid, vec!["0.1", "0.5"]);
    assert_eq!(member.blocks[0].mu2grid, vec!["10", "100"]);
    // row-major (x, mu2, pid) becomes per-pid (x, mu2)
    assert_eq!(member.blocks[0].values, vec!["1", "3", "5", "7"]);
    assert_eq!(member.blocks[1].values, vec!["2", "4", "6", "8"]);
    assert_eq!(member.blocks[0].value_at(0, 1, 0), "5");
    assert_eq!(member.blocks[1].value_at(0, 1, 1), "8");

    // re-encoding then re-decoding reproduces the identical numeric values
    let bytes = member.encode();
    let again = Member::decode(&bytes).unwrap();
    assert_eq!(again.blocks.len(), member.blocks.len());
    for (a, b) in again.blocks.iter().zip(member.blocks.iter()) {
        assert_eq!(a.pids, b.pids);
        assert_eq!(a.xgrid, b.xgrid);
        assert_eq!(a.mu2grid, b.mu2grid);
        assert_eq!(a.values, b.values);
    }
    assert_eq!(again.metadata, member.metadata);
}

#[test]
fn grid_metadata_is_kept() {
    let doc = "PdfType: replica\nFormat: lhagrid1\n---\n0.1\n10\n21\n5\n---";
    let member = parse_member(doc).unwrap();
    let mut metadata = member.metadata.clone();
    metadata.sort();
    assert_eq!(
        metadata,
        vec![
            (String::from("Format"), String::from("lhagrid1")),
            (String::from("PdfType"), String::from("replica")),
        ]
    );
    assert_eq!(member.blocks.len(), 1);
    assert_eq!(member.blocks[0].values, vec!["5"]);
}

#[test]
fn shape_mismatch_is_an_error() {
    // three table rows for a 2x2 grid
    let doc = "{}\n---\n0.1 0.5\n10 100\n1 21\n1 2\n3 4\n5 6\n---";
    assert_eq!(parse_member(doc).unwrap_err(), GridError::Section);
    // ragged row
    let doc = "{}\n---\n0.1 0.5\n10 100\n1 21\n1 2\n3\n5 6\n7 8\n---";
    assert_eq!(parse_member(doc).unwrap_err(), GridError::Section);
    // a token that is not numeric
    let doc = "{}\n---\n0.1 oops\n10 100\n1 21\n1 2\n3 4\n5 6\n7 8\n---";
    assert!(grid_blocks(doc).is_err());
}

#[test]
fn metadata_must_be_a_string_map() {
    let doc = "]: [\n---\n0.1\n10\n21\n5\n---";
    assert_eq!(parse_member(doc).unwrap_err(), GridError::Metadata);
}

#[test]
fn numeric_tokens_cover_exponents() {
    let doc = "{}\n---\n1.0E-09 0.5\n1e4 1E+6\n-1 21\n1 2\n3 4\n+5.5 6.25\n7e0 .5\n---";
    let member = parse_member(doc).unwrap();
    assert_eq!(member.blocks[0].xgrid, vec!["1.0E-09", "0.5"]);
    assert_eq!(member.blocks[0].values, vec!["1", "3", "+5.5", "7e0"]);
}

#[test]
fn document_without_sections_has_no_blocks() {
    let member = parse_member("PdfType: replica").unwrap();
    assert_eq!(member.blocks.len(), 0);
}
