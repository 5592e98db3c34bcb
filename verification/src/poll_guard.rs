//! The guard of the one poll that is admitted.
//!
//! A guard reaches no more than the slot it holds: it can ask for reruns and free the slot,
//! but not request it.

use vstd::prelude::*;

use crate::poll_gate::{PollGate, RequestPass};
use crate::poll_schedule;
use crate::poll_schedule::{
    is_rerun_pending, update_state, write_state, Found, Hold, Slot, SlotStep, FREE,
};

verus! {

/// RAII token proving the holder owns the single poll slot. Dropping it releases the
/// slot.
#[must_use]
pub struct PollGuard<'a> {
    slot: &'a Slot,
    hold: Option<Hold>,
}

impl<'a> PollGuard<'a> {
    /// What the guard holds the slot of.
    pub closed spec fn guarded(self) -> PollGate {
        PollGate::around(*self.slot)
    }

    /// The guard has the right to free the slot.
    pub closed spec fn holds(self) -> bool {
        self.hold is Some
    }

    /// A step on the slot was made, and found the given state.
    pub closed spec fn found(self, step: SlotStep, state: u8) -> bool {
        exists|pass: Option<RequestPass>, found: Found| #[trigger]
            call_ensures(update_state, (self.slot, step, pass), found) && found.state() == state
    }

    /// The slot was freed.
    pub closed spec fn freed(self) -> bool {
        exists|value: u8, hold: Hold| #[trigger]
            call_ensures(write_state, (self.slot, value, hold), ()) && !poll_schedule::taken(value)
    }

    /// What can be freed is the slot that is guarded.
    #[verifier::type_invariant]
    closed spec fn frees_its_own(self) -> bool {
        self.hold matches Some(hold) ==> hold.of() == *self.slot
    }

    /// A guard with the right to free the slot.
    pub(crate) fn new(slot: &'a Slot, hold: Hold) -> (guard: PollGuard<'a>)
        requires
            hold.of() == *slot,
        ensures
            guard.guarded() == PollGate::around(*slot),
            guard.holds(),
    {
        PollGuard { slot, hold: Some(hold) }
    }

    /// Returns true once for the coalesced requests that arrived while this guard was held
    /// and since it was last asked: exactly if one was pending in the state that was found.
    /// None is pending afterwards, and the slot stays taken. The holder should run one more
    /// poll when it sees `true`.
    pub fn take_rerun_request(&self) -> (requested: bool)
        ensures
            exists|state: u8| #[trigger]
                self.found(SlotStep::TakeRerun, state) && requested
                    == poll_schedule::rerun_pending(state),
    {
        let found = update_state(self.slot, SlotStep::TakeRerun, None);
        assert(self.found(SlotStep::TakeRerun, found.state()));
        is_rerun_pending(found.get())
    }
}

impl<'a> Drop for PollGuard<'a> {
    fn drop(&mut self)
        ensures
            old(self).holds() ==> old(self).freed(),
        opens_invariants none
        no_unwind
    {
        proof {
            use_type_invariant(&*self);
        }
        let mut hold: Option<Hold> = None;
        std::mem::swap(&mut hold, &mut self.hold);
        if let Some(hold) = hold {
            write_state(self.slot, FREE, hold);
        }
    }
}

/// Asking a guard for a rerun request leaves the slot taken: whatever the state was, the one
/// behind the step is a taken one without a pending rerun; and the answer is whether one was
/// pending.
pub proof fn law_asking_for_a_rerun_keeps_the_slot(guard: &PollGuard<'_>, requested: bool)
    requires
        call_ensures(PollGuard::take_rerun_request, (guard,), requested),
    ensures
        exists|state: u8| #[trigger]
            guard.found(SlotStep::TakeRerun, state) && requested == poll_schedule::rerun_pending(
                state,
            ) && poll_schedule::taken(poll_schedule::after_step(state, SlotStep::TakeRerun))
                && !poll_schedule::rerun_pending(
                poll_schedule::after_step(state, SlotStep::TakeRerun),
            ),
{
    let state = choose|state: u8| #[trigger]
        guard.found(SlotStep::TakeRerun, state) && requested == poll_schedule::rerun_pending(state);
    poll_schedule::law_steps_keep_the_slot_taken(state, SlotStep::TakeRerun);
}

} // verus!
