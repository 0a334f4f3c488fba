//! Personal word frequencies. Nothing is recorded yet.

use vstd::prelude::*;

verus! {

/// The store of what the user accepted.
#[derive(Debug, Default, Clone, Copy)]
pub struct PersonalizationStore;

impl PersonalizationStore {
    /// Takes note of an accepted completion. The store keeps nothing, so
    /// this does nothing.
    pub fn bump(&self, _text: &str) {
    }
}

} // verus!
