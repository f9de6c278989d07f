//! A mirror: where it is, and the index it offers.

use vstd::prelude::*;
use crate::database::{index_address, Database};

verus! {

/// A remote source of one index and of the artifacts that the index lists.
#[derive(Debug, Clone, PartialEq, Eq)]
pub struct Mirror {
    pub uri: String,
    pub db: Database,
}

impl Mirror {
    /// The address under which the mirror offers its index.
    pub fn index_url(&self) -> (r: String)
        ensures
            r@ == index_address(self.uri@, self.db@.name),
    {
        Database::mirror_url(self.uri.as_str(), self.db.name.as_str())
    }
}

} // verus!
