//! The Pokemon category: its set shape.
//!
//! The Pokemon catalog arrives from its remote source already in its stored
//! shape, so this category adds no preparation of its own; fetching and
//! caching the catalog, like all file access, is the caller's business.

use vstd::prelude::*;

verus! {

/// Pokemon TCG set information.
pub struct CardSet {
    /// The set id under which the remote catalog lists the set.
    pub id: String,
    /// The set's name.
    pub name: String,
    /// Release date in the format YYYY/MM/DD.
    pub release_date: String,
}

impl CardSet {
    /// An owned copy equal to this set.
    pub fn duplicate(&self) -> (r: CardSet)
        ensures
            r == *self,
    {
        CardSet {
            id: self.id.clone(),
            name: self.name.clone(),
            release_date: self.release_date.clone(),
        }
    }
}

} // verus!
