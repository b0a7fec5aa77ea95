//! Component managers: each owns one kind of data for every entity, in an
//! array indexed by the entity's dense index.

pub mod softbody;
pub mod transform;

use crate::entity::Handle;
use vstd::prelude::*;

verus! {

/// The least number of slots, not below `slots`, that has one for `entity`.
pub open spec fn covering(slots: nat, entity: Handle) -> nat {
    if entity.slot() < slots {
        slots
    } else {
        (entity.slot() + 1) as nat
    }
}

/// What every component manager offers: storage that grows to cover an entity.
pub trait Component {
    /// The manager's internal invariant.
    spec fn valid(&self) -> bool;

    /// The number of slots in the backing storage.
    spec fn slots(&self) -> nat;

    /// Grows the storage until it has a slot for `entity`. Slots that exist
    /// keep their place, so registering a covered entity changes nothing.
    fn register(&mut self, entity: Handle)
        requires
            old(self).valid(),
        ensures
            final(self).valid(),
            final(self).slots() == covering(old(self).slots(), entity),
    ;

    /// The length of the backing storage, which counts every slot and not
    /// only those that hold a component.
    fn count(&self) -> (n: usize)
        requires
            self.valid(),
        ensures
            n == self.slots(),
    ;
}

} // verus!
