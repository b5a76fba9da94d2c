//! The version number that an editor gives each state of a document.

use vstd::prelude::*;
use crate::text::{decimal_of, push_decimal};

verus! {

/// A document's version; versions of one document never go down.
#[derive(Clone, Copy, Debug, PartialEq, Eq, Structural)]
pub struct DocumentVersion(pub i32);

impl From<i32> for DocumentVersion {
    fn from(version: i32) -> (r: DocumentVersion) {
        DocumentVersion(version)
    }
}

impl vstd::std_specs::convert::FromSpecImpl<i32> for DocumentVersion {
    open spec fn obeys_from_spec() -> bool {
        true
    }

    open spec fn from_spec(v: i32) -> DocumentVersion {
        DocumentVersion(v)
    }
}

impl DocumentVersion {
    /// The version in decimal.
    pub fn to_text(&self) -> (r: String)
        ensures
            r@ == decimal_of(self.0 as int),
    {
        let mut r = String::new();
        push_decimal(&mut r, self.0 as i64);
        r
    }
}

} // verus!
