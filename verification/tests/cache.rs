use std::io::Write;

use partons::cache::{convert_archive_entries, unpack_archive, Cache};
use partons::format::Format;
use partons::resource::{Data, Resource, State};

fn archive(entries: &[(&str, &[u8])]) -> Vec<u8> {
    let gz = flate2::write::GzEncoder::new(Vec::new(), flate2::Compression::default());
    let mut builder = tar::Builder::new(gz);
    for (name, content) in entries {
        let mut header = tar::Header::new_gnu();
        header.set_size(content.len() as u64);
        header.set_mode(0o644);
        header.set_cksum();
        builder.append_data(&mut header, name, *content).unwrap();
    }
    builder.into_inner().unwrap().finish().unwrap()
}

#[test]
fn cache_paths() {
    let cache = Cache::new("registry", String::from("/data/partons"));
    assert_eq!(cache.root, "/data/partons/registry");
    let regular = Resource { data: Data::Info(String::from("FOO")), state: State::Regular };
    let original = Resource { data: Data::Info(String::from("FOO")), state: State::Original };
    assert_eq!(cache.absolute(&regular), "/data/partons/registry/FOO/info.yaml");
    assert_eq!(
        cache.absolute(&original),
        "/data/partons/registry/FOO/original.info.yaml"
    );
}

#[test]
fn unpack_translates_entry_names() {
    let bytes = archive(&[
        ("FOO/FOO.info", b"SetDesc: d"),
        ("FOO/FOO_0002.dat", b"grid"),
    ]);
    let out = unpack_archive(&Format::Legacy, &bytes).unwrap();
    assert_eq!(out.len(), 2);
    assert_eq!(out[0].0, "original.info.yaml");
    assert_eq!(out[0].1, b"SetDesc: d");
    assert_eq!(out[1].0, "original.000002.member.lz4");
    assert_eq!(out[1].1, b"grid");
}

#[test]
fn unrecognized_entries_fail_the_archive() {
    let bytes = archive(&[("FOO/readme.txt", b"hello")]);
    assert!(unpack_archive(&Format::Legacy, &bytes).is_err());
    assert!(unpack_archive(&Format::Native, &bytes).is_ok());
}

#[test]
fn empty_entries_are_dropped() {
    let entries = vec![
        (String::from("dir/"), Vec::new()),
        (String::from("a.info"), b"x".to_vec()),
    ];
    let out = convert_archive_entries(&Format::Legacy, &entries).unwrap();
    assert_eq!(out.len(), 1);
    assert_eq!(out[0].0, "original.info.yaml");
}

#[test]
fn garbage_is_not_an_archive() {
    let mut w: Vec<u8> = Vec::new();
    w.write_all(b"not a tarball").unwrap();
    assert!(unpack_archive(&Format::Native, &w).is_err());
}
