//! Events: records of something that happened.

use vstd::prelude::*;

verus! {

/// An event of the reactor: one variant of the registered enumeration, and what it carries.
#[derive(Clone, Debug, PartialEq, Eq)]
pub struct Event<P> {
    /// The variant, by which the event is routed to its owner.
    pub variant: usize,
    pub payload: P,
}

impl<P> Event<P> {
    pub fn new(variant: usize, payload: P) -> (event: Self)
        ensures
            event == (Event { variant, payload }),
    {
        Event { variant, payload }
    }
}

} // verus!
