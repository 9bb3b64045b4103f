use vstd::prelude::*;

verus! {

/// Marker for the events a game dispatches.
pub trait EventT {
}

/// A queue of events together with the reaction to each of them.
pub trait EventSystemT<E: EventT>: Default {
    fn add_event(&mut self, event: E);

    fn on_trigger(&mut self, event: &E);
}

} // verus!
