//! Admission of at most one poll at a time, by steps on a [`Slot`].

use vstd::prelude::*;

use crate::poll_guard::PollGuard;
use crate::poll_schedule;
use crate::poll_schedule::{is_taken, update_state, Found, Slot, SlotStep};

verus! {

/// Admission gate that allows at most one poll to be in flight at a time.
///
/// Timer ticks that arrive while a poll is running are simply dropped. User initiated
/// requests can ask to be *coalesced* instead: the running poll will run one more time
/// after it finishes, so the UI stays responsive without ever running two polls
/// concurrently.
///
/// The slot and the rerun request are one atomic value, and every operation is one atomic
/// step on it: a request that is refused is at the same moment reported to the holder that
/// it was refused for. [`crate::poll_schedule::GateModel`] describes how the steps of many
/// callers follow each other. The contracts say which step an operation makes and what it
/// does with the state that the step found; which state that is at some moment no contract
/// could say, since threads share it.
pub struct PollGate {
    slot: Slot,
}

/// What it takes to request the slot. None is made out but here.
pub struct RequestPass {
    here: (),
}

impl PollGate {
    /// The one with the given slot.
    pub closed spec fn around(slot: Slot) -> PollGate {
        PollGate { slot }
    }

    /// Its slot was made with the given state.
    pub closed spec fn made_with(self, state: u8) -> bool {
        self.slot.made_with(state)
    }

    /// A step on the slot was made, and found the given state.
    pub closed spec fn found(self, step: SlotStep, state: u8) -> bool {
        exists|pass: Option<RequestPass>, found: Found| #[trigger]
            call_ensures(update_state, (&self.slot, step, pass), found) && found.state() == state
    }

    /// An open gate: its slot is free.
    pub fn new() -> (gate: PollGate)
        ensures
            exists|state: u8| #[trigger] gate.made_with(state) && !poll_schedule::taken(state),
    {
        let slot = Slot::new();
        let ghost state = choose|state: u8| #[trigger]
            slot.made_with(state) && !poll_schedule::taken(state);
        let gate = PollGate { slot };
        assert(gate.made_with(state));
        gate
    }

    /// Makes a step on the slot.
    fn step(&self, step: SlotStep) -> (found: Found)
        ensures
            self.found(step, found.state()),
            found.step() == step,
            found.of() == self.slot,
    {
        update_state(&self.slot, step, Some(RequestPass { here: () }))
    }

    /// What a request comes to: a guard exactly where it found the slot free.
    fn granted(&self, found: Found) -> (guard: Option<PollGuard<'_>>)
        requires
            found.step() is Request,
            found.of() == self.slot,
        ensures
            guard is Some == !poll_schedule::taken(found.state()),
            guard matches Some(g) ==> g.guarded() == *self && g.holds(),
    {
        match found.into_hold() {
            Some(hold) => Some(PollGuard::new(&self.slot, hold)),
            None => None,
        }
    }

    /// Try to take the poll slot.
    ///
    /// Returns `None` if a poll is already running. In that case, when `coalesce` is
    /// true, one follow-up poll is queued and will be reported by
    /// [`PollGuard::take_rerun_request`] to the current holder.
    ///
    /// Whether a poll is running is what the request for the slot found, in one atomic step
    /// on a value that threads share.
    pub fn try_acquire(&self, coalesce: bool) -> (guard: Option<PollGuard<'_>>)
        ensures
            exists|state: u8| #[trigger]
                self.found(SlotStep::Request { coalesce }, state) && guard is Some
                    == !poll_schedule::taken(state),
            guard matches Some(g) ==> g.guarded() == *self && g.holds(),
    {
        let found = self.step(SlotStep::Request { coalesce });
        self.granted(found)
    }

    /// True while a poll is in flight.
    pub fn is_busy(&self) -> (busy: bool)
        ensures
            exists|state: u8| #[trigger]
                self.found(SlotStep::Look, state) && busy == poll_schedule::taken(state),
    {
        let found = self.step(SlotStep::Look);
        is_taken(found.get())
    }
}

impl Default for PollGate {
    fn default() -> (gate: PollGate)
        ensures
            exists|state: u8| #[trigger] gate.made_with(state) && !poll_schedule::taken(state),
    {
        PollGate::new()
    }
}

/// A request is granted exactly where it found the slot free, and the slot is taken behind
/// it. One that is refused leaves the state as it was, or with a rerun pending if it wants to
/// be coalesced.
pub proof fn law_requests_are_granted_one_at_a_time(
    gate: &PollGate,
    coalesce: bool,
    guard: Option<PollGuard<'_>>,
)
    requires
        call_ensures(PollGate::try_acquire, (gate, coalesce), guard),
    ensures
        exists|state: u8| #[trigger]
            gate.found(SlotStep::Request { coalesce }, state) && {
                let after = poll_schedule::after_step(state, SlotStep::Request { coalesce });
                &&& guard is Some <==> !poll_schedule::taken(state)
                &&& poll_schedule::taken(after)
                &&& guard is Some ==> !poll_schedule::rerun_pending(after)
                &&& guard is None && coalesce ==> poll_schedule::rerun_pending(after)
                &&& guard is None && !coalesce ==> after == state
            },
{
    let state = choose|state: u8| #[trigger]
        gate.found(SlotStep::Request { coalesce }, state) && guard is Some
            == !poll_schedule::taken(state);
    poll_schedule::law_steps_keep_the_slot_taken(state, SlotStep::Request { coalesce });
}

/// Asking whether a poll is in flight changes nothing, and the answer is whether the slot was
/// found taken.
pub proof fn law_looking_changes_nothing(gate: &PollGate, busy: bool)
    requires
        call_ensures(PollGate::is_busy, (gate,), busy),
    ensures
        exists|state: u8| #[trigger]
            gate.found(SlotStep::Look, state) && busy == poll_schedule::taken(state)
                && poll_schedule::after_step(state, SlotStep::Look) == state,
{
    let state = choose|state: u8| #[trigger]
        gate.found(SlotStep::Look, state) && busy == poll_schedule::taken(state);
    poll_schedule::law_steps_keep_the_slot_taken(state, SlotStep::Look);
}

} // verus!
