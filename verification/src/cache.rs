//! The content cache of one registry.
//!
//! The cache owns the placement of fetched artifacts under the registry's
//! root directory; callers own the bytes. The path computations and the
//! per-entry name translation of archive unpacking are verified here; the
//! reads and writes themselves are the host program's.

use vstd::prelude::*;

use crate::format::{spec_convert_name, Format, UnrecognizedName};
use crate::resource::{spec_path, spec_raw_path, Resource, State};

verus! {

/// A cache operation asked of a source with no registered cache.
#[derive(Debug, PartialEq, Eq, Structural)]
pub struct CacheMissing;

/// A gzip+tar stream the archive reader refuses.
#[derive(Debug, PartialEq, Eq, Structural)]
pub struct ArchiveError;

/// The filesystem-backed store of one registry's fetched artifacts.
pub struct Cache {
    /// The registry's root directory.
    pub root: String,
}

/// The relative path of a resource in its own lifecycle state: the
/// canonical path for `Regular`, the marker-prefixed one for `Original`.
pub open spec fn spec_state_path(r: Resource) -> Seq<char> {
    match r.state {
        State::Regular => spec_path(r),
        State::Original => spec_raw_path(r),
    }
}

impl Cache {
    /// A cache rooted at `data_path/name`.
    pub fn new(name: &str, data_path: String) -> (r: Cache)
        ensures
            r.root@ == data_path@ + "/"@ + name@,
    {
        let mut root = data_path;
        root.append("/");
        root.append(name);
        Cache { root }
    }

    /// The relative path a resource is stored under, honouring its state.
    pub fn path(resource: &Resource) -> (r: String)
        ensures
            r@ == spec_state_path(*resource),
    {
        match resource.state {
            State::Regular => resource.path(),
            State::Original => resource.raw_path(),
        }
    }

    /// The absolute location of a resource under this cache's root.
    pub fn absolute(&self, resource: &Resource) -> (r: String)
        ensures
            r@ == self.root@ + "/"@ + spec_state_path(*resource),
    {
        let mut r = self.root.clone();
        r.append("/");
        let p = Self::path(resource);
        r.append(p.as_str());
        r
    }
}

/// The entries of a gzip-compressed tar stream — path names and contents,
/// in archive order — if the bytes form one that decodes cleanly.
pub uninterp spec fn tar_entries_of(b: Seq<u8>) -> Option<Seq<(Seq<char>, Seq<u8>)>>;

/// Relies on `flate2::read::GzDecoder` and `tar::Archive`: decodes a
/// gzip-compressed tar stream into its entries' path names and contents, in
/// archive order; deterministic in the stream bytes.
#[verifier::external_body]
fn untar_gz(bytes: &[u8]) -> (r: Result<Vec<(String, Vec<u8>)>, ArchiveError>)
    ensures
        match r {
            Ok(v) => tar_entries_of(bytes@) == Some(entry_views(v@)),
            Err(_) => tar_entries_of(bytes@) is None,
        },
{
    let tar = flate2::read::GzDecoder::new(bytes);
    let mut archive = tar::Archive::new(tar);
    let mut out: Vec<(String, Vec<u8>)> = Vec::new();
    for entry in archive.entries().map_err(|_| ArchiveError)? {
        let mut en = entry.map_err(|_| ArchiveError)?;
        let name = en.path().map_err(|_| ArchiveError)?.to_string_lossy().into_owned();
        let mut buf = Vec::new();
        std::io::Read::read_to_end(&mut en, &mut buf).map_err(|_| ArchiveError)?;
        out.push((name, buf));
    }
    Ok(out)
}

/// The canonical target file names of archive entries under a format:
/// every entry with content maps through the format's name rule to the
/// `original.`-prefixed name it is stored under; empty entries (such as
/// directories) carry nothing.
pub open spec fn spec_converted_entries(f: Format, es: Seq<(Seq<char>, Seq<u8>)>) -> Option<
    Seq<(Seq<char>, Seq<u8>)>,
>
    decreases es.len(),
{
    if es.len() == 0 {
        Some(Seq::empty())
    } else {
        match spec_converted_entries(f, es.drop_last()) {
            Some(out) => {
                if es.last().1.len() == 0 {
                    Some(out)
                } else {
                    match spec_convert_name(f, es.last().0) {
                        Some(name) => Some(out + seq![("original."@ + name, es.last().1)]),
                        None => None,
                    }
                }
            },
            None => None,
        }
    }
}

proof fn lemma_converted_none_extends(f: Format, es: Seq<(Seq<char>, Seq<u8>)>, j: int)
    requires
        0 <= j <= es.len(),
        spec_converted_entries(f, es.take(j)) is None,
    ensures
        spec_converted_entries(f, es) is None,
    decreases es.len() - j,
{
    if j == es.len() {
        assert(es.take(j) =~= es);
    } else {
        assert(es.take(j + 1).drop_last() =~= es.take(j));
        lemma_converted_none_extends(f, es, j + 1);
    }
}

/// The view of an entry list.
pub open spec fn entry_views(es: Seq<(String, Vec<u8>)>) -> Seq<(Seq<char>, Seq<u8>)> {
    Seq::new(es.len(), |i: int| (es[i].0@, es[i].1@))
}

/// Translates unpacked archive entries to the file names the cache stores
/// them under.
///
/// Each entry with content is renamed through the format's name rule and
/// prefixed with the `original.` marker; entries without content are
/// dropped; one unrecognized name fails the archive.
pub fn convert_archive_entries(format: &Format, entries: &Vec<(String, Vec<u8>)>) -> (r: Result<
    Vec<(String, Vec<u8>)>,
    UnrecognizedName,
>)
    ensures
        r matches Ok(out) ==> spec_converted_entries(*format, entry_views(entries@)) == Some(
            entry_views(out@),
        ),
        r is Err <==> spec_converted_entries(*format, entry_views(entries@)) is None,
{
    let ghost ev = entry_views(entries@);
    let mut out: Vec<(String, Vec<u8>)> = Vec::new();
    let mut i: usize = 0;
    proof {
        assert(ev.take(0) =~= Seq::<(Seq<char>, Seq<u8>)>::empty());
        assert(entry_views(out@) =~= Seq::<(Seq<char>, Seq<u8>)>::empty());
    }
    while i < entries.len()
        invariant
            i <= entries@.len(),
            ev == entry_views(entries@),
            spec_converted_entries(*format, ev.take(i as int)) == Some(entry_views(out@)),
        decreases entries@.len() - i,
    {
        proof {
            assert(ev.take(i + 1).drop_last() =~= ev.take(i as int));
            assert(ev.take(i + 1).last() == ev[i as int]);
            assert(ev[i as int].0 == entries@[i as int].0@);
            assert(ev[i as int].1 == entries@[i as int].1@);
        }
        if entries[i].1.len() > 0 {
            match format.convert_name(entries[i].0.as_str()) {
                Ok(mapped) => {
                    let mut target = String::from_str("original.");
                    target.append(mapped.as_str());
                    let content = copy_bytes(&entries[i].1);
                    out.push((target, content));
                    proof {
                        assert(entry_views(out@) =~= spec_converted_entries(
                            *format,
                            ev.take(i as int),
                        )->Some_0 + seq![("original."@ + mapped@, ev[i as int].1)]);
                    }
                },
                Err(e) => {
                    proof {
                        assert(ev[i as int].1.len() > 0);
                        assert(spec_convert_name(*format, ev[i as int].0) is None);
                        assert(spec_converted_entries(*format, ev.take(i + 1)) is None);
                        lemma_converted_none_extends(*format, ev, i + 1);
                    }
                    return Err(e);
                },
            }
        }
        i = i + 1;
    }
    proof {
        assert(ev.take(entries@.len() as int) =~= ev);
    }
    Ok(out)
}

/// Copies a byte vector.
fn copy_bytes(v: &Vec<u8>) -> (r: Vec<u8>)
    ensures
        r@ == v@,
{
    let mut r: Vec<u8> = Vec::new();
    let mut i: usize = 0;
    while i < v.len()
        invariant
            i <= v@.len(),
            r@ == v@.take(i as int),
        decreases v@.len() - i,
    {
        r.push(v[i]);
        assert(r@ =~= v@.take(i + 1));
        i = i + 1;
    }
    assert(r@ =~= v@);
    r
}

/// Unpacks a gzip+tar archive into the entries the cache stores: the
/// decoded entries of the stream ([`tar_entries_of`]), renamed by
/// [`convert_archive_entries`].
pub fn unpack_archive(format: &Format, bytes: &[u8]) -> (r: Result<
    Vec<(String, Vec<u8>)>,
    ArchiveError,
>)
    ensures
        r matches Ok(out) ==> (tar_entries_of(bytes@) matches Some(es) && spec_converted_entries(
            *format,
            es,
        ) == Some(entry_views(out@))),
        r is Err <==> (tar_entries_of(bytes@) is None || spec_converted_entries(
            *format,
            tar_entries_of(bytes@)->Some_0,
        ) is None),
{
    let raw = match untar_gz(bytes) {
        Ok(es) => es,
        Err(e) => {
            return Err(e);
        },
    };
    match convert_archive_entries(format, &raw) {
        Ok(out) => Ok(out),
        Err(_) => Err(ArchiveError),
    }
}

} // verus!
