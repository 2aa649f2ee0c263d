//! The physics-engine capability.
//!
//! The interpolation backend is a substitutable external capability; this
//! crate carries the closed dispatch types and the no-op fallback, which
//! answers every query with fixed values. A host program with a real
//! backend dispatches to it outside the verified core; the numeric entry
//! points live there too, since they speak floating point.

use vstd::prelude::*;

verus! {

/// A backend failure, carrying the backend's message.
#[derive(Debug)]
pub enum Error {
    Backend(String),
}

/// The no-op distribution: a placeholder that answers every query with
/// fixed values.
#[derive(Debug)]
pub struct NoopPdf;

/// The no-op set: it knows no metadata and holds one distribution.
#[derive(Debug)]
pub struct NoopPdfSet;

/// A parton distribution, dispatched over the available backends.
#[derive(Debug)]
pub enum PdfEnum {
    Noop(NoopPdf),
}

/// A distribution set, dispatched over the available backends.
#[derive(Debug)]
pub enum PdfSetEnum {
    Noop(NoopPdfSet),
}

impl NoopPdfSet {
    /// The metadata entry under `key`: the no-op set knows none.
    pub fn entry(&self, key: &str) -> (r: Option<String>)
        ensures
            r is None,
    {
        None
    }

    /// The error treatment of the set: the no-op set reports none.
    pub fn error_type(&self) -> (r: String)
        ensures
            r@ == Seq::<char>::empty(),
    {
        String::new()
    }

    /// The distributions of the set: the no-op set holds exactly one.
    pub fn pdfs(&self) -> (r: Result<Vec<PdfEnum>, Error>)
        ensures
            r matches Ok(v) && v@.len() == 1 && v@[0] is Noop,
    {
        let mut v: Vec<PdfEnum> = Vec::new();
        v.push(PdfEnum::Noop(NoopPdf));
        Ok(v)
    }
}

impl PdfEnum {
    /// Opens the named distribution on the available backend.
    ///
    /// With only the no-op backend compiled in, every name resolves to the
    /// no-op distribution.
    pub fn new(pdfname: &str) -> (r: Result<PdfEnum, Error>)
        ensures
            r matches Ok(p) && p is Noop,
    {
        Ok(PdfEnum::Noop(NoopPdf))
    }
}

impl PdfSetEnum {
    /// The names of the available sets.
    ///
    /// With only the no-op backend compiled in, this is the one placeholder
    /// name.
    pub fn available() -> (r: Vec<String>)
        ensures
            r@.len() == 1,
            r@[0]@ == "NOOP"@,
    {
        let mut v: Vec<String> = Vec::new();
        v.push(String::from_str("NOOP"));
        v
    }

    /// Opens the named set on the available backend.
    pub fn new(setname: &str) -> (r: Result<PdfSetEnum, Error>)
        ensures
            r matches Ok(s) && s is Noop,
    {
        Ok(PdfSetEnum::Noop(NoopPdfSet))
    }
}

/// Sets the backend's verbosity. The no-op backend ignores it.
pub fn set_verbosity(_verbosity: i32) {
}

/// The backend's verbosity level. The no-op backend always reports zero.
pub fn verbosity() -> (r: i32)
    ensures
        r == 0,
{
    0
}

} // verus!
