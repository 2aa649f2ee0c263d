use partons::block::Block;
use partons::member::Member;

fn tokens(v: &[&str]) -> Vec<String> {
    v.iter().map(|s| String::from(*s)).collect()
}

fn sample() -> Member {
    Member {
        metadata: vec![
            (String::from("PdfType"), String::from("replica")),
            (String::from("unicode"), String::from("µ² → x")),
        ],
        blocks: vec![
            Block::new(
                vec![-3, 21],
                tokens(&["1e-3", "0.5"]),
                tokens(&["1.65", "4.92", "100"]),
                tokens(&[
                    "0.1", "0.2", "0.3", "0.4", "0.5", "0.6", "1.1", "1.2", "1.3", "1.4",
                    "1.5", "1.6",
                ]),
            ),
            Block::new(vec![2], tokens(&["0.9"]), tokens(&["12"]), tokens(&["7.5"])),
        ],
    }
}

#[test]
fn member_codec_round_trip() {
    let member = sample();
    let bytes = member.encode();
    let again = Member::decode(&bytes).unwrap();
    assert_eq!(again.metadata, member.metadata);
    assert_eq!(again.blocks.len(), member.blocks.len());
    for (a, b) in again.blocks.iter().zip(member.blocks.iter()) {
        assert_eq!(a.pids, b.pids);
        assert_eq!(a.xgrid, b.xgrid);
        assert_eq!(a.mu2grid, b.mu2grid);
        assert_eq!(a.values, b.values);
    }
}

#[test]
fn truncated_streams_are_rejected() {
    let member = sample();
    let bytes = member.encode();
    for cut in [0, 1, 7, 8, bytes.len() - 1] {
        let short: Vec<u8> = bytes[..cut].to_vec();
        assert!(Member::decode(&short).is_err());
    }
    let mut long = bytes.clone();
    long.push(0);
    assert!(Member::decode(&long).is_err());
}

#[test]
fn member_description() {
    let member = sample();
    assert_eq!(member.describe(), "Member(2 metadata entries, 2 blocks)");
}

#[test]
fn empty_member_round_trip() {
    let member = Member { metadata: vec![], blocks: vec![] };
    let bytes = member.encode();
    let again = Member::decode(&bytes).unwrap();
    assert!(again.metadata.is_empty());
    assert!(again.blocks.is_empty());
}
