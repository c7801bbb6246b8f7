//! Identifier for the entities of the scheduler: users, calendars,
//! schedules, services, events and accounts.

use vstd::prelude::*;

verus! {

/// An entity identifier.
#[derive(Clone, Copy, Debug, PartialEq, Eq, Structural)]
pub struct ID(pub u64);

impl Default for ID {
    fn default() -> (r: Self)
        ensures
            r == ID(0u64),
    {
        ID(0)
    }
}

} // verus!
