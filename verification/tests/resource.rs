use partons::resource::{Data, Resource, State};

#[test]
fn path_templates() {
    let index = Resource { data: Data::Index, state: State::Regular };
    assert_eq!(index.path(), "index.csv");
    assert_eq!(index.raw_path(), "original.index.csv");

    let info = Resource { data: Data::Info(String::from("SetA")), state: State::Regular };
    assert_eq!(info.path(), "SetA/info.yaml");
    assert_eq!(info.raw_path(), "SetA/original.info.yaml");

    let set = Resource { data: Data::SetArchive(String::from("SetA")), state: State::Regular };
    assert_eq!(set.path(), "SetA/set.tar.gz");

    let member = Resource { data: Data::Member(String::from("SetA"), 42), state: State::Original };
    assert_eq!(member.path(), "SetA/000042.member.lz4");
    assert_eq!(member.raw_path(), "SetA/original.000042.member.lz4");
}

#[test]
fn member_padding_keeps_wide_numbers() {
    let member = Resource { data: Data::Member(String::from("S"), 1234567), state: State::Regular };
    assert_eq!(member.path(), "S/1234567.member.lz4");
}

#[test]
fn state_markers() {
    assert_eq!(State::Regular.marker(), "");
    assert_eq!(State::Original.marker(), "original");
}

#[test]
fn raw_path_differs_only_by_leaf_marker() {
    let names = ["A", "Set_B", "x"];
    for name in names {
        let r = Resource { data: Data::Info(String::from(name)), state: State::Regular };
        let path = r.path();
        let raw = r.raw_path();
        let (dir, leaf) = path.rsplit_once('/').unwrap();
        let (rdir, rleaf) = raw.rsplit_once('/').unwrap();
        assert_eq!(dir, rdir);
        assert_eq!(format!("original.{leaf}"), rleaf);
        assert!(path.starts_with(&format!("{name}/")));
    }
}

#[test]
fn describe_resources() {
    let r = Resource { data: Data::Member(String::from("SetA"), 7), state: State::Original };
    assert_eq!(r.data.describe(), "Grid: SetA-7");
    assert_eq!(r.describe(), "original Grid: SetA-7");
    let r2 = Resource { data: Data::Index, state: State::Regular };
    assert_eq!(r2.describe(), " Index");
}
