//! Entity handles.

use vstd::prelude::*;

verus! {

/// The identity of an entity: an index into the dense arrays of every
/// component manager. A handle does not say that any component exists.
#[derive(Clone, Copy, Debug, PartialEq, Eq, Structural)]
pub struct Handle {
    index: u32,
}

impl Handle {
    /// The handle of the entity at `index`.
    pub closed spec fn spec_new(index: u32) -> Handle {
        Handle { index }
    }

    /// The handle of the entity at `index`.
    #[verifier::when_used_as_spec(spec_new)]
    pub fn new(index: u32) -> (r: Handle)
        ensures
            r == Handle::spec_new(index),
            r.get_index() == index,
    {
        Handle { index }
    }

    /// The dense index of the entity.
    pub closed spec fn spec_get_index(self) -> u32 {
        self.index
    }

    /// The dense index of the entity.
    #[verifier::when_used_as_spec(spec_get_index)]
    pub fn get_index(self) -> (r: u32)
        ensures
            r == self.spec_get_index(),
    {
        self.index
    }

    /// The dense index as a position in a component array.
    pub open spec fn slot(self) -> int {
        self.get_index() as int
    }
}

} // verus!
