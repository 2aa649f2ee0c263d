use partons::info::{ConversionError, Info, InfoError};
use partons::yaml::LegacyValue;

const LEGACY: &str = "SetIndex: 0\nSetDesc: \"desc\"\nAuthors: \"A\"\nYear: 2020\nParticle: 2212\n";

#[test]
fn legacy_info_decode() {
    let info = Info::from_legacy(LEGACY.as_bytes()).unwrap();
    assert_eq!(info.id, Some(0));
    assert_eq!(info.description, "desc");
    assert_eq!(info.authors, "A");
    assert_eq!(info.year, Some(2020));
    assert_eq!(info.more_members.len(), 1);
    assert_eq!(info.more_members[0].0, "Particle");
    assert!(matches!(info.more_members[0].1, LegacyValue::UInt(2212)));
}

#[test]
fn canonical_round_trip() {
    let info = Info::from_legacy(LEGACY.as_bytes()).unwrap();
    let text = info.to_canonical();
    let again = Info::from_canonical(text.as_bytes()).unwrap();
    assert_eq!(again.id, info.id);
    assert_eq!(again.description, info.description);
    assert_eq!(again.authors, info.authors);
    assert_eq!(again.year, info.year);
    assert_eq!(again.more_members.len(), info.more_members.len());
    assert_eq!(again.more_members[0].0, "Particle");
}

#[test]
fn canonical_text_layout() {
    let info = Info {
        id: Some(3),
        description: String::from("a \"quoted\" thing"),
        authors: String::from("A, B"),
        year: None,
        more_members: vec![(String::from("Note"), LegacyValue::Int(-7))],
    };
    let text = info.to_canonical();
    assert_eq!(
        text,
        "id: 3\ndescription: \"a \\\"quoted\\\" thing\"\nauthors: \"A, B\"\n\"Note\": -7\n"
    );
}

#[test]
fn missing_required_field() {
    let doc = "SetIndex: 0\nAuthors: \"A\"\n";
    match Info::from_legacy(doc.as_bytes()) {
        Err(InfoError::Field(ConversionError::MissingField(name))) => {
            assert_eq!(name, "description")
        },
        _ => panic!("expected a missing-field error"),
    }
}

#[test]
fn mistyped_field() {
    let doc = "SetIndex: 0\nSetDesc: 5\nAuthors: \"A\"\n";
    match Info::from_legacy(doc.as_bytes()) {
        Err(InfoError::Field(ConversionError::FieldType(name))) => {
            assert_eq!(name, "description")
        },
        _ => panic!("expected a field-type error"),
    }
    // a negative number is the wrong kind for the unsigned id
    let doc = "SetIndex: -1\nSetDesc: \"d\"\nAuthors: \"A\"\n";
    match Info::from_legacy(doc.as_bytes()) {
        Err(InfoError::Field(ConversionError::FieldType(name))) => assert_eq!(name, "id"),
        _ => panic!("expected a field-type error"),
    }
}

#[test]
fn document_errors() {
    assert!(matches!(
        Info::from_legacy(b"- just\n- a list\n"),
        Err(InfoError::Document)
    ));
}

#[test]
fn author_parse() {
    let author = partons::info::Author::parse(" N. Body  < n@example.org > ").unwrap();
    assert_eq!(author.name, "N. Body");
    assert_eq!(author.address, "n@example.org");
    // the closing bracket may be missing, as in a truncated record
    let author = partons::info::Author::parse("A <b").unwrap();
    assert_eq!(author.name, "A");
    assert_eq!(author.address, "b");
    assert!(partons::info::Author::parse("no address").is_err());
}

#[test]
fn author_display() {
    let author = partons::info::Author::new(String::from("N. Body"), String::from("n@example.org"));
    assert_eq!(author.display_string(), "N. Body <n@example.org>");
}
