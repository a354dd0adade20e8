//! Display identities: the hash of a node's display name.
use vstd::prelude::*;

verus! {

/// The hash of a display name. It depends on the name's characters alone.
pub uninterp spec fn name_hash(name: Seq<char>) -> u64;

/// Identity of a graph node, derived from its display name.
#[derive(Debug, PartialEq, Eq, Clone, Copy, Hash, Structural)]
pub struct Id(pub u64);

impl Id {
    /// Relies on ahash's `RandomState::with_seeds` and its hasher, through std's
    /// `BuildHasher`, `Hash` and `Hasher`: with fixed seeds the hash of a string is a
    /// function of its characters.
    #[verifier::external_body]
    pub fn new(name: &str) -> (r: Id)
        ensures
            r == Id(name_hash(name@)),
    {
        let state = egui::epaint::ahash::RandomState::with_seeds(123, 456, 0, 0);
        let mut hasher = std::hash::BuildHasher::build_hasher(&state);
        std::hash::Hash::hash(name, &mut hasher);
        Id(std::hash::Hasher::finish(&hasher))
    }

    #[inline]
    pub fn value(&self) -> (r: u64)
        ensures
            r == self.0,
    {
        self.0
    }
}

} // verus!
