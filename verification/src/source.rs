//! A remote registry and its fetch pipeline.
//!
//! A `Source` knows how to name remote artifacts (URL patterns with a
//! `{name}` placeholder) and where its cache lives. A fetch runs a
//! three-state pipeline: serve the cached canonical form if it exists, else
//! convert the cached raw form, else download, store the raw form, convert
//! and store the canonical form. The decisions are verified here; the host
//! program performs the network and disk actions they call for.

use vstd::prelude::*;

use crate::cache::{Cache, CacheMissing, spec_state_path};
use crate::format::Format;
use crate::resource::{lemma_path_raw_path_distinct, spec_path, spec_raw_path, Resource};
use crate::text::{replace_all, replace_spec, str_chars, chars_string};

verus! {

/// The URL path patterns of a registry, with a `{name}` placeholder for the
/// set name.
pub struct Patterns {
    /// Where a set's metadata lives.
    pub info: String,
    /// Where a set's grid data lives.
    pub grids: String,
}

impl Default for Patterns {
    /// The default layout of a registry.
    fn default() -> (r: Patterns)
        ensures
            r.info@ == "{name}/info.yaml"@,
            r.grids@ == "{name}.partons.lz4"@,
    {
        Patterns {
            info: String::from_str("{name}/info.yaml"),
            grids: String::from_str("{name}.partons.lz4"),
        }
    }
}

/// A remote registry: its name, endpoints, format, and (once registered)
/// its cache.
pub struct Source {
    /// The registry's name; the cache root directory is named after it.
    pub name: String,
    /// The base URL remote paths are appended to.
    pub url: String,
    /// The URL of the registry's index document.
    pub index: String,
    /// The encoding the registry serves.
    pub format: Format,
    /// The URL path patterns.
    pub patterns: Patterns,
    /// The content cache, registered separately from configuration.
    pub cache: Option<Cache>,
}

impl Source {
    /// The full URL of a remote path.
    pub fn url(&self, path: &str) -> (r: String)
        ensures
            r@ == self.url@ + path@,
    {
        let mut r = self.url.clone();
        r.append(path);
        r
    }

    /// A pattern with every `{name}` placeholder replaced by the set name.
    pub fn replace_name(pattern: &str, name: &str) -> (r: String)
        ensures
            r@ == replace_spec(pattern@, "{name}"@, name@),
    {
        let pat = str_chars("{name}");
        proof {
            reveal_strlit("{name}");
        }
        let p = str_chars(pattern);
        let n = str_chars(name);
        let out = replace_all(&p, &pat, &n);
        chars_string(&out)
    }

    /// The location of `path` under a cache directory, namespaced by this
    /// registry's name; fails when no cache directory is given.
    pub fn in_cache(&self, path: &str, cache: Option<&String>) -> (r: Result<String, CacheMissing>)
        ensures
            cache matches Some(c) ==> (r matches Ok(p) && p@ == c@ + "/"@ + self.name@ + "/"@
                + path@),
            cache is None <==> r is Err,
    {
        match cache {
            Some(dir) => {
                let mut p = (*dir).clone();
                p.append("/");
                p.append(self.name.as_str());
                p.append("/");
                p.append(path);
                Ok(p)
            },
            None => Err(CacheMissing),
        }
    }

    /// Registers the cache location under the common data directory.
    pub fn register_cache(&mut self, data_path: String)
        ensures
            final(self).cache matches Some(c) && c.root@ == data_path@ + "/"@ + old(self).name@,
            final(self).name == old(self).name,
            final(self).url == old(self).url,
            final(self).index == old(self).index,
            final(self).format == old(self).format,
            final(self).patterns == old(self).patterns,
    {
        let cache = Cache::new(self.name.as_str(), data_path);
        self.cache = Some(cache);
    }

    /// The registered cache, or the configuration error.
    pub fn cache(&self) -> (r: Result<&Cache, CacheMissing>)
        ensures
            self.cache matches Some(c) ==> (r matches Ok(rc) && rc == c),
            self.cache is None <==> r is Err,
    {
        match &self.cache {
            Some(c) => Ok(c),
            None => Err(CacheMissing),
        }
    }
}

// ------------------------------------------------------------------
// The fetch pipeline
// ------------------------------------------------------------------

/// The route one fetch takes, from the two cache existence checks.
#[derive(Debug, PartialEq, Eq, Structural)]
pub enum Route {
    /// The canonical form is cached: serve it.
    RegularHit,
    /// Only the raw form is cached: convert, store, serve.
    OriginalHit,
    /// Nothing is cached: download, store raw, convert, store, serve.
    Miss,
}

/// The route the pipeline takes given which forms exist in the cache.
pub open spec fn spec_route(regular_exists: bool, original_exists: bool) -> Route {
    if regular_exists {
        Route::RegularHit
    } else if original_exists {
        Route::OriginalHit
    } else {
        Route::Miss
    }
}

impl Source {
    /// Decides the route of one fetch. The canonical form short-circuits;
    /// the raw form spares the download; a full miss downloads.
    pub fn route(regular_exists: bool, original_exists: bool) -> (r: Route)
        ensures
            r == spec_route(regular_exists, original_exists),
    {
        if regular_exists {
            Route::RegularHit
        } else if original_exists {
            Route::OriginalHit
        } else {
            Route::Miss
        }
    }
}

/// What one fetch does to a cache, modelled as a map from relative paths to
/// contents: the cache afterwards, the bytes served, and how many downloads
/// and raw-form writes were performed.
#[verifier::ext_equal]
pub struct FetchEffect {
    pub cache: Map<Seq<char>, Seq<u8>>,
    pub served: Seq<u8>,
    pub downloads: nat,
    pub raw_writes: nat,
}

/// The model of one fetch of the resource kind `d`: `reg` and `orig` are
/// its two cache paths, `dl` what the network would serve, and `conv` the
/// conversion to canonical bytes.
pub open spec fn fetch_effect(
    cache: Map<Seq<char>, Seq<u8>>,
    reg: Seq<char>,
    orig: Seq<char>,
    dl: Seq<u8>,
    conv: spec_fn(Seq<u8>) -> Seq<u8>,
) -> FetchEffect {
    match spec_route(cache.contains_key(reg), cache.contains_key(orig)) {
        Route::RegularHit => FetchEffect {
            cache: cache,
            served: cache[reg],
            downloads: 0,
            raw_writes: 0,
        },
        Route::OriginalHit => FetchEffect {
            cache: cache.insert(reg, conv(cache[orig])),
            served: conv(cache[orig]),
            downloads: 0,
            raw_writes: 0,
        },
        Route::Miss => FetchEffect {
            cache: cache.insert(orig, dl).insert(reg, conv(dl)),
            served: conv(dl),
            downloads: 1,
            raw_writes: 1,
        },
    }
}

/// Fetching the same resource twice with no intervening cache mutation
/// performs at most one download and one raw-form write in total — exactly
/// one of each when nothing was cached — serves byte-identical content both
/// times, and leaves the cache as the first fetch left it, whatever the
/// network would have returned the second time.
pub proof fn lemma_fetch_idempotent(
    cache: Map<Seq<char>, Seq<u8>>,
    reg: Seq<char>,
    orig: Seq<char>,
    dl: Seq<u8>,
    dl2: Seq<u8>,
    conv: spec_fn(Seq<u8>) -> Seq<u8>,
)
    requires
        reg != orig,
    ensures
        ({
            let first = fetch_effect(cache, reg, orig, dl, conv);
            let second = fetch_effect(first.cache, reg, orig, dl2, conv);
            &&& first.downloads + second.downloads <= 1
            &&& first.raw_writes + second.raw_writes <= 1
            &&& second.served == first.served
            &&& second.cache == first.cache
            &&& second.downloads == 0
            &&& !cache.contains_key(reg) && !cache.contains_key(orig) ==> first.downloads
                + second.downloads == 1 && first.raw_writes + second.raw_writes == 1
        }),
{
    let first = fetch_effect(cache, reg, orig, dl, conv);
    assert(first.cache.contains_key(reg) || cache.contains_key(reg));
}

/// The cache idempotence law, stated for a resource: the two paths of one
/// resource never collide, so a repeated fetch of any resource downloads
/// nothing and serves the same bytes.
pub proof fn lemma_fetch_idempotent_for_resource(
    cache: Map<Seq<char>, Seq<u8>>,
    r: Resource,
    dl: Seq<u8>,
    dl2: Seq<u8>,
    conv: spec_fn(Seq<u8>) -> Seq<u8>,
)
    ensures
        ({
            let first = fetch_effect(cache, spec_path(r), spec_raw_path(r), dl, conv);
            let second = fetch_effect(first.cache, spec_path(r), spec_raw_path(r), dl2, conv);
            &&& first.downloads + second.downloads <= 1
            &&& first.raw_writes + second.raw_writes <= 1
            &&& second.served == first.served
            &&& second.cache == first.cache
            &&& !cache.contains_key(spec_path(r)) && !cache.contains_key(spec_raw_path(r))
                ==> first.downloads + second.downloads == 1
        }),
{
    lemma_path_raw_path_distinct(r);
    lemma_fetch_idempotent(cache, spec_path(r), spec_raw_path(r), dl, dl2, conv);
}

} // verus!
