use partons::cache::Cache;
use partons::format::Format;
use partons::index::Index;
use partons::info::Info;
use partons::resource::{Data, Resource, State};
use partons::source::{Patterns, Route, Source};

fn sample_source() -> Source {
    Source {
        name: String::from("R"),
        url: String::from("https://example.org/pdfs/"),
        index: String::from("https://example.org/pdfs/index.csv"),
        format: Format::Legacy,
        patterns: Patterns::default(),
        cache: None,
    }
}

#[test]
fn url_and_patterns() {
    let source = sample_source();
    assert_eq!(
        source.url("FOO/info.yaml"),
        "https://example.org/pdfs/FOO/info.yaml"
    );
    let patterns = Patterns::default();
    assert_eq!(patterns.info, "{name}/info.yaml");
    assert_eq!(patterns.grids, "{name}.partons.lz4");
    assert_eq!(
        Source::replace_name(&patterns.info, "FOO"),
        "FOO/info.yaml"
    );
    assert_eq!(
        Source::replace_name("{name}/{name}.x", "A"),
        "A/A.x"
    );
}

#[test]
fn cache_registration() {
    let mut source = sample_source();
    assert!(source.cache().is_err());
    source.register_cache(String::from("/data/partons"));
    let cache = source.cache().unwrap();
    assert_eq!(cache.root, "/data/partons/R");
    let base = String::from("/data/partons");
    assert_eq!(
        source.in_cache("index.csv", Some(&base)).unwrap(),
        "/data/partons/R/index.csv"
    );
    assert!(source.in_cache("index.csv", None).is_err());
}

#[test]
fn fetch_routes() {
    assert_eq!(Source::route(true, true), Route::RegularHit);
    assert_eq!(Source::route(true, false), Route::RegularHit);
    assert_eq!(Source::route(false, true), Route::OriginalHit);
    assert_eq!(Source::route(false, false), Route::Miss);
}

#[test]
fn end_to_end_info() {
    // registry R with one legacy-format set FOO
    let source = sample_source();
    let index = Index::parse("0 FOO 1").unwrap();
    let header = index.get("FOO").unwrap();
    assert_eq!(header.id, 0);
    assert_eq!(header.number, 1);

    // nothing cached: the pipeline downloads
    assert_eq!(Source::route(false, false), Route::Miss);
    let remote = Source::replace_name(&source.patterns.info, &header.name);
    assert_eq!(source.url(&remote), "https://example.org/pdfs/FOO/info.yaml");

    // the downloaded legacy metadata converts to the canonical form
    let legacy = b"SetIndex: 0\nSetDesc: \"desc\"\nAuthors: \"A\"\nYear: 2020\n".to_vec();
    let regular = source
        .format
        .convert(legacy, &Data::Info(header.name.clone()))
        .unwrap();

    // the canonical bytes land under the set's regular cache entry
    let target = Resource { data: Data::Info(header.name.clone()), state: State::Regular };
    let cache = Cache::new(&source.name, String::from("/data/partons"));
    assert_eq!(cache.absolute(&target), "/data/partons/R/FOO/info.yaml");

    // and decode into the expected record
    let info = Info::from_canonical(&regular).unwrap();
    assert_eq!(info.id, Some(0));
    assert_eq!(info.description, "desc");
    assert_eq!(info.authors, "A");
    assert_eq!(info.year, Some(2020));

    // a second fetch would serve the cached regular form
    assert_eq!(Source::route(true, false), Route::RegularHit);
}
