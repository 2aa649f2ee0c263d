use partons::format::{ConvertError, Format};
use partons::info::Info;
use partons::member::Member;
use partons::resource::Data;

#[test]
fn legacy_archive_names() {
    let f = Format::Legacy;
    assert_eq!(
        f.convert_name("NNPDF40_nnlo/NNPDF40_0031.dat").unwrap(),
        "000031.member.lz4"
    );
    assert_eq!(f.convert_name("dir/NNPDF40.info").unwrap(), "info.yaml");
    assert!(f.convert_name("dir/readme.txt").is_err());
    assert!(f.convert_name("member_31.dat").is_err());
}

#[test]
fn native_archive_names() {
    let f = Format::Native;
    assert_eq!(f.convert_name("a/b/keep.bin").unwrap(), "keep.bin");
    assert_eq!(f.convert_name("plain").unwrap(), "plain");
    // trailing slashes name no component of their own
    assert_eq!(f.convert_name("trailing/").unwrap(), "trailing");
    assert_eq!(f.convert_name("a/b/").unwrap(), "b");
    // the directory names are no file names
    assert!(f.convert_name("a/..").is_err());
    assert!(f.convert_name(".").is_err());
    assert!(f.convert_name("").is_err());
}

#[test]
fn native_conversion_is_identity() {
    let bytes = vec![1u8, 2, 3];
    let out = Format::Native.convert(bytes.clone(), &Data::Index).unwrap();
    assert_eq!(out, bytes);
}

#[test]
fn legacy_info_conversion() {
    let doc = b"SetIndex: 4\nSetDesc: \"d\"\nAuthors: \"A\"\n".to_vec();
    let out = Format::Legacy
        .convert(doc, &Data::Info(String::from("FOO")))
        .unwrap();
    let info = Info::from_canonical(&out).unwrap();
    assert_eq!(info.id, Some(4));
    assert_eq!(info.description, "d");
    assert_eq!(info.authors, "A");
    assert_eq!(info.year, None);
}

#[test]
fn legacy_member_conversion() {
    let doc = b"{}\n---\n0.1 0.5\n10 100\n1 21\n1 2\n3 4\n5 6\n7 8\n---".to_vec();
    let out = Format::Legacy
        .convert(doc, &Data::Member(String::from("FOO"), 0))
        .unwrap();
    let member = Member::decode(&out).unwrap();
    assert_eq!(member.blocks.len(), 2);
    assert_eq!(member.blocks[0].values, vec!["1", "3", "5", "7"]);
}

#[test]
fn conversion_errors_name_the_cause() {
    let bad = vec![0xffu8, 0xfe];
    assert!(matches!(
        Format::Legacy.convert(bad, &Data::Member(String::from("FOO"), 0)),
        Err(ConvertError::Text)
    ));
    let bad_grid = b"{}\n---\nnope\n---".to_vec();
    assert!(matches!(
        Format::Legacy.convert(bad_grid, &Data::Member(String::from("FOO"), 0)),
        Err(ConvertError::Grid(_))
    ));
}
