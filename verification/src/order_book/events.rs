//! The list of events that one command gives.

use crate::core_types::events::EngineEvent;
use smallvec::SmallVec;
use vstd::prelude::*;

verus! {

/// The events of one command: a `smallvec::SmallVec` that keeps up to eight
/// of them without touching the heap.
#[verifier::external_body]
pub struct EventVec {
    inner: SmallVec<[EngineEvent; 8]>,
}

/// The events in the list, oldest first.
pub uninterp spec fn events_in(list: EventVec) -> Seq<EngineEvent>;

impl View for EventVec {
    type V = Seq<EngineEvent>;

    open spec fn view(&self) -> Seq<EngineEvent> {
        events_in(*self)
    }
}

impl EventVec {
    /// Calls `SmallVec::new`, an empty list.
    #[verifier::external_body]
    pub(crate) fn new() -> (list: EventVec)
        ensures
            events_in(list) == Seq::<EngineEvent>::empty(),
    {
        EventVec { inner: SmallVec::new() }
    }

    /// Calls `SmallVec::push`, which appends the event.
    #[verifier::external_body]
    pub(crate) fn push(&mut self, event: EngineEvent)
        ensures
            events_in(*final(self)) == events_in(*old(self)).push(event),
    {
        self.inner.push(event)
    }

    /// Calls `SmallVec::into_vec`: the same events in the same order.
    #[verifier::external_body]
    fn spill(self) -> (v: Vec<EngineEvent>)
        ensures
            v@ == events_in(self),
    {
        self.inner.into_vec()
    }

    /// The events as a plain vector.
    pub fn into_vec(self) -> (v: Vec<EngineEvent>)
        ensures
            v@ == self@,
    {
        self.spill()
    }
}

} // verus!
