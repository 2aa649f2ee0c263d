//! Minimal per-set records of a registry's index.

use vstd::prelude::*;

use crate::text::{chars_string, dec_chars, dec_digits};

verus! {

/// One record of a registry index: a set's numeric id, its name, and how
/// many members it has.
pub struct Header {
    pub id: u32,
    pub name: String,
    pub number: u32,
}

impl View for Header {
    type V = (u32, Seq<char>, u32);

    open spec fn view(&self) -> (u32, Seq<char>, u32) {
        (self.id, self.name@, self.number)
    }
}

impl Clone for Header {
    fn clone(&self) -> (r: Self)
        ensures
            r == *self,
    {
        Header { id: self.id, name: self.name.clone(), number: self.number }
    }
}

impl Header {
    /// A header from its three fields.
    pub fn new(id: u32, name: String, number: u32) -> (r: Self)
        ensures
            r.id == id,
            r.name == name,
            r.number == number,
    {
        Header { id, name, number }
    }

    /// The `name:id` form used in diagnostics.
    pub fn identifier(&self) -> (r: String)
        ensures
            r@ == self.name@ + ":"@ + dec_digits(self.id as nat),
    {
        let mut r = self.name.clone();
        r.append(":");
        let digits = chars_string(&dec_chars(self.id as u64));
        r.append(digits.as_str());
        r
    }
}

} // verus!
