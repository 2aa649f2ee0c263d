//! Application configuration: the registries a user has set up.
//!
//! Discovering and reading the configuration file is the host program's
//! business; the library only holds the validated result.

use vstd::prelude::*;

use crate::source::Source;

verus! {

/// The validated application configuration.
pub struct Configs {
    /// The configured registries.
    pub sources: Vec<Source>,
}

impl Configs {
    /// A configuration from its registries.
    pub fn new(sources: Vec<Source>) -> (r: Configs)
        ensures
            r.sources@ == sources@,
    {
        Configs { sources }
    }

    /// The configured registries.
    pub fn sources(&self) -> (r: &Vec<Source>)
        ensures
            r == &self.sources,
    {
        &self.sources
    }
}

} // verus!
