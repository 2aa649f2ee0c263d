//! Retrieval, caching and normalisation of parton distribution data.
//!
//! The crate models the artifacts a remote registry publishes (an index, a
//! metadata file and grid data per set), addresses them through
//! [`resource`], caches them under deterministic relative paths, and
//! converts the legacy encodings into the canonical typed representation:
//! [`info::Info`] for metadata and [`member::Member`] — a list of
//! interpolation [`block::Block`]s — for grid data, stored in the binary
//! form of [`codec`]. The network and disk actions of the fetch pipeline
//! are the host program's; [`source`] decides them.

pub mod block;
pub mod cache;
pub mod codec;
pub mod configs;
pub mod engine;
pub mod format;
pub mod grid;
pub mod header;
pub mod index;
pub mod info;
pub mod member;
pub mod resource;
pub mod source;
pub mod text;
pub mod yaml;
