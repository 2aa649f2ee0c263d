//! Addressing of cacheable artifacts.
//!
//! A [`Resource`] names one artifact a registry publishes (the index, a
//! set's metadata, a set's archive, or one member's grid) together with its
//! lifecycle state, and deterministically computes the relative path the
//! cache stores it under.

use vstd::prelude::*;

use crate::text::{chars_string, dec_chars, padded_dec, padded_dec_chars, dec_digits};

verus! {

/// The kind of artifact a registry publishes.
#[derive(Debug, Clone)]
pub enum Data {
    /// The registry's listing of available sets.
    Index,
    /// The metadata file of the named set.
    Info(String),
    /// The archive holding the named set's files.
    SetArchive(String),
    /// One member grid of the named set: set name and member index.
    Member(String, u32),
}

/// Lifecycle state of a cached artifact.
#[derive(Debug, Clone)]
pub enum State {
    /// Converted to the canonical encoding.
    Regular,
    /// As downloaded from the registry.
    Original,
}

/// A cacheable artifact: a kind of data crossed with a lifecycle state.
#[derive(Debug, Clone)]
pub struct Resource {
    pub data: Data,
    pub state: State,
}

/// The marker the `Original` state carries: empty for `Regular`.
pub open spec fn spec_marker(s: State) -> Seq<char> {
    match s {
        State::Regular => Seq::<char>::empty(),
        State::Original => "original"@,
    }
}

/// The set directory an artifact lives in: empty for the index.
pub open spec fn spec_set_dir(d: Data) -> Seq<char> {
    match d {
        Data::Index => Seq::<char>::empty(),
        Data::Info(name) => name@,
        Data::SetArchive(name) => name@,
        Data::Member(name, _) => name@,
    }
}

/// The leaf file name of an artifact in the `Regular` state.
pub open spec fn spec_file_name(d: Data) -> Seq<char> {
    match d {
        Data::Index => "index.csv"@,
        Data::Info(_) => "info.yaml"@,
        Data::SetArchive(_) => "set.tar.gz"@,
        Data::Member(_, m) => padded_dec(m as nat, 6) + ".member.lz4"@,
    }
}

/// The directory prefix of an artifact's path, with its trailing slash.
pub open spec fn spec_dir_prefix(d: Data) -> Seq<char> {
    if spec_set_dir(d).len() == 0 {
        Seq::<char>::empty()
    } else {
        spec_set_dir(d) + "/"@
    }
}

/// The canonical relative path of an artifact's `Regular` form.
pub open spec fn spec_path(r: Resource) -> Seq<char> {
    spec_dir_prefix(r.data) + spec_file_name(r.data)
}

/// The relative path of an artifact's `Original` form: the same path with
/// the leaf file name prefixed by the marker and a dot.
pub open spec fn spec_raw_path(r: Resource) -> Seq<char> {
    spec_dir_prefix(r.data) + "original."@ + spec_file_name(r.data)
}

impl State {
    /// The textual marker of this state: empty for `Regular`, `"original"`
    /// for `Original`.
    pub fn marker(&self) -> (r: String)
        ensures
            r@ == spec_marker(*self),
    {
        match self {
            State::Regular => String::new(),
            State::Original => String::from_str("original"),
        }
    }
}

impl Data {
    /// A short description of the artifact, for diagnostics.
    pub fn describe(&self) -> (r: String)
        ensures
            r@ == spec_describe(*self),
    {
        match self {
            Data::Index => String::from_str("Index"),
            Data::Info(name) => {
                let mut r = String::from_str("Info: ");
                r.append(name.as_str());
                r
            },
            Data::SetArchive(name) => {
                let mut r = String::from_str("Set: ");
                r.append(name.as_str());
                r
            },
            Data::Member(name, m) => {
                let mut r = String::from_str("Grid: ");
                r.append(name.as_str());
                r.append("-");
                let digits = chars_string(&dec_chars(*m as u64));
                r.append(digits.as_str());
                r
            },
        }
    }
}

/// The description [`Data::describe`] returns.
pub open spec fn spec_describe(d: Data) -> Seq<char> {
    match d {
        Data::Index => "Index"@,
        Data::Info(name) => "Info: "@ + name@,
        Data::SetArchive(name) => "Set: "@ + name@,
        Data::Member(name, m) => "Grid: "@ + name@ + "-"@ + dec_digits(m as nat),
    }
}

impl Resource {
    /// The set directory and leaf file name of this resource's canonical
    /// form, as the cache lays them out.
    pub fn dir_file(&self) -> (r: (String, String))
        ensures
            r.0@ == spec_set_dir(self.data),
            r.1@ == spec_file_name(self.data),
    {
        match &self.data {
            Data::Index => (String::new(), String::from_str("index.csv")),
            Data::Info(name) => (name.clone(), String::from_str("info.yaml")),
            Data::SetArchive(name) => (name.clone(), String::from_str("set.tar.gz")),
            Data::Member(name, m) => {
                let digits = padded_dec_chars(*m as u64, 6);
                let mut file = chars_string(&digits);
                file.append(".member.lz4");
                (name.clone(), file)
            },
        }
    }

    /// The canonical relative path of this resource's `Regular` form.
    pub fn path(&self) -> (r: String)
        ensures
            r@ == spec_path(*self),
    {
        let (dir, file) = self.dir_file();
        if dir.as_str().is_empty() {
            file
        } else {
            let mut r = dir;
            r.append("/");
            r.append(file.as_str());
            r
        }
    }

    /// The relative path of this resource's `Original` form: the canonical
    /// path with the leaf file name prefixed by the `original.` marker.
    pub fn raw_path(&self) -> (r: String)
        ensures
            r@ == spec_raw_path(*self),
    {
        let (dir, file) = self.dir_file();
        if dir.as_str().is_empty() {
            let mut r = String::from_str("original.");
            r.append(file.as_str());
            r
        } else {
            let mut r = dir;
            r.append("/");
            r.append("original.");
            r.append(file.as_str());
            r
        }
    }

    /// A short description of the resource, for diagnostics.
    pub fn describe(&self) -> (r: String)
        ensures
            r@ == spec_marker(self.state) + " "@ + spec_describe(self.data),
    {
        let mut r = self.state.marker();
        r.append(" ");
        let d = self.data.describe();
        r.append(d.as_str());
        r
    }
}

/// A resource's two paths share the directory part, and the `Original`
/// path's leaf differs from the canonical one only by the fixed marker
/// prefix.
pub proof fn lemma_raw_path_marker(r: Resource)
    ensures
        spec_path(r) == spec_dir_prefix(r.data) + spec_file_name(r.data),
        spec_raw_path(r) == spec_dir_prefix(r.data) + ("original."@ + spec_file_name(r.data)),
{
    assert(spec_raw_path(r) =~= spec_dir_prefix(r.data) + ("original."@ + spec_file_name(
        r.data,
    )));
}

/// The metadata artifact of a named set lives under that set's directory.
pub proof fn lemma_info_path_under_set_dir(r: Resource, s: Seq<char>)
    requires
        r.data matches Data::Info(name) && name@ == s,
        s.len() > 0,
    ensures
        spec_path(r) == s + "/"@ + "info.yaml"@,
{
    assert(spec_path(r) =~= s + "/"@ + "info.yaml"@);
}

/// The canonical and the `Original` path of one resource never collide.
pub proof fn lemma_path_raw_path_distinct(r: Resource)
    ensures
        spec_path(r) != spec_raw_path(r),
{
    reveal_strlit("original.");
    assert(spec_raw_path(r).len() == spec_path(r).len() + 9);
}

} // verus!
