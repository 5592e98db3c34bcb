//! Pure scheduling and sizing policy shared by the window, tray-icon and poller code.
//!
//! * [`PollGate`] admits at most one poll at a time.
//! * [`reset_poll_delay_ms`] bounds the fast "reset watch" polling to a short,
//!   backing-off burst instead of an endless 5-second loop.
//! * [`mono_mask_bytes`] / [`pixel_count`] compute buffer sizes handed to GDI so that the
//!   kernel never receives an undersized or overflowed buffer.

use std::sync::atomic::{AtomicU8, Ordering};

use vstd::arithmetic::mul::*;
use vstd::arithmetic::power2::*;
use vstd::bits::*;
use vstd::prelude::*;

use crate::poll_gate::RequestPass;
pub use crate::poll_gate::PollGate;
pub use crate::poll_guard::PollGuard;

verus! {

/// The poll slot is free.
pub const FREE: u8 = 0;

/// The poll slot is taken, and no rerun is requested.
pub const HELD: u8 = 1;

/// The poll slot is taken, and its holder is asked to poll once more.
pub const RERUN: u8 = 2;

/// What a request for the poll slot writes, when it finds the slot in the given state: it
/// takes a free slot; it asks the holder of a taken one to poll once more if it wants to be
/// coalesced; else it writes nothing.
pub open spec fn requested(state: u8, coalesce: bool) -> Option<u8> {
    if state == FREE {
        Some(HELD)
    } else if coalesce {
        Some(RERUN)
    } else {
        None
    }
}

/// Decides what a request for the poll slot writes (see [`requested`]).
pub fn state_after_request(state: u8, coalesce: bool) -> (next: Option<u8>)
    ensures
        next == requested(state, coalesce),
{
    if state == FREE {
        Some(HELD)
    } else if coalesce {
        Some(RERUN)
    } else {
        None
    }
}

/// The slot is taken.
pub open spec fn taken(state: u8) -> bool {
    state != FREE
}

/// Tests whether the slot is taken.
pub fn is_taken(state: u8) -> (yes: bool)
    ensures
        yes == taken(state),
{
    state != FREE
}

/// The holder of the slot is asked to poll once more.
pub open spec fn rerun_pending(state: u8) -> bool {
    state == RERUN
}

/// Tests whether the holder of the slot is asked to poll once more.
pub fn is_rerun_pending(state: u8) -> (yes: bool)
    ensures
        yes == rerun_pending(state),
{
    state == RERUN
}

/// An atomic step on the poll slot. None of them frees a taken slot; that takes a [`Hold`].
#[derive(Clone, Copy, Debug, PartialEq, Eq)]
pub enum SlotStep {
    /// Look at the state.
    Look,
    /// Ask for the slot.
    Request { coalesce: bool },
    /// Take the rerun request that is pending, if there is one.
    TakeRerun,
}

/// What a step writes, when it finds the slot in the given state.
pub open spec fn written(state: u8, step: SlotStep) -> Option<u8> {
    match step {
        SlotStep::Look => None,
        SlotStep::Request { coalesce } => requested(state, coalesce),
        SlotStep::TakeRerun => Some(HELD),
    }
}

/// The state after a step.
pub open spec fn after_step(state: u8, step: SlotStep) -> u8 {
    match written(state, step) {
        Some(next) => next,
        None => state,
    }
}

/// Decides what a step writes (see [`written`]).
pub fn state_after_step(state: u8, step: SlotStep) -> (next: Option<u8>)
    ensures
        next == written(state, step),
{
    match step {
        SlotStep::Look => None,
        SlotStep::Request { coalesce } => state_after_request(state, coalesce),
        SlotStep::TakeRerun => Some(HELD),
    }
}

/// The steps leave a taken slot taken. Looking changes nothing. A request takes a free slot
/// for a holder that starts without a pending rerun; it changes a taken one only to ask for
/// a rerun, and only if it wants to be coalesced. Taking the rerun request leaves none
/// pending.
pub proof fn law_steps_keep_the_slot_taken(state: u8, step: SlotStep)
    ensures
        taken(state) ==> taken(after_step(state, step)),
        step is Look ==> after_step(state, step) == state,
        step matches SlotStep::Request { coalesce } ==> {
            &&& taken(after_step(state, step))
            &&& !taken(state) ==> !rerun_pending(after_step(state, step))
            &&& taken(state) && !coalesce ==> after_step(state, step) == state
            &&& taken(state) && coalesce ==> rerun_pending(after_step(state, step))
        },
        step is TakeRerun ==> taken(after_step(state, step)) && !rerun_pending(
            after_step(state, step),
        ),
{
}

/// The poll slot and the rerun request, one atomic value that threads share. Only the two
/// functions that step and free it reach the value.
pub struct Slot {
    state: AtomicU8,
}

impl Slot {
    /// The slot was made with the given state.
    pub closed spec fn made_with(self, state: u8) -> bool {
        call_ensures(AtomicU8::new, (state,), self.state)
    }

    /// A free slot.
    pub fn new() -> (slot: Slot)
        ensures
            exists|state: u8| #[trigger] slot.made_with(state) && !taken(state),
    {
        let slot = Slot { state: AtomicU8::new(FREE) };
        assert(slot.made_with(FREE));
        slot
    }
}

/// What a step found. There is one for every step that was made, and no other way to get
/// one.
pub struct Found {
    state: u8,
    step: SlotStep,
    slot: Ghost<Slot>,
}

/// The right to free a slot. There is one for every request that found the slot free, and no
/// other way to get one; freeing the slot uses it up. So between the request that took the
/// slot and the moment when it is freed no other request is granted.
pub struct Hold {
    slot: Ghost<Slot>,
}

impl Found {
    /// The state that was found.
    pub closed spec fn state(self) -> u8 {
        self.state
    }

    /// The step that was made.
    pub closed spec fn step(self) -> SlotStep {
        self.step
    }

    /// The slot that it was made on.
    pub closed spec fn of(self) -> Slot {
        self.slot@
    }

    /// Tells the state that was found.
    pub fn get(&self) -> (state: u8)
        ensures
            state == self.state(),
    {
        self.state
    }

    /// Makes the right to free the slot of a request that found it free.
    pub fn into_hold(self) -> (hold: Option<Hold>)
        ensures
            hold is Some == (self.step() is Request && !taken(self.state())),
            hold matches Some(h) ==> h.of() == self.of(),
    {
        match self.step {
            SlotStep::Request { .. } => if is_taken(self.state) {
                None
            } else {
                Some(Hold { slot: self.slot })
            },
            _ => None,
        }
    }
}

impl Hold {
    /// The slot that can be freed.
    pub closed spec fn of(self) -> Slot {
        self.slot@
    }
}

/// `AtomicU8::store` of `value` with the ordering `Release`, which never panics. The value
/// frees the slot, and the right to do so is used up. No clause says what the atomic holds
/// afterwards: other threads may write it at any time.
#[verifier::external_body]
pub(crate) fn write_state(slot: &Slot, value: u8, hold: Hold)
    requires
        !taken(value),
        hold.of() == *slot,
    opens_invariants none
    no_unwind
{
    slot.state.store(value, Ordering::Release)
}

/// `AtomicU8::fetch_update` with [`state_after_step`]: in one atomic step the state is
/// replaced by what that function gives for it, if anything, and the state that was found
/// is returned either way, with the step and the slot it belongs to. A request takes a pass.
/// No clause says which state is found: other threads may write it at any time.
#[verifier::external_body]
pub(crate) fn update_state(slot: &Slot, step: SlotStep, _pass: Option<RequestPass>) -> (found:
    Found)
    requires
        step is Request ==> _pass is Some,
    ensures
        found.step() == step,
        found.of() == *slot,
{
    let next = |found: u8| state_after_step(found, step);
    match slot.state.fetch_update(Ordering::AcqRel, Ordering::Acquire, next) {
        Ok(state) => Found { state, step, slot: Ghost(*slot) },
        Err(state) => Found { state, step, slot: Ghost(*slot) },
    }
}

/// The state of a gate, and which of its callers have the slot.
pub struct GateModel {
    pub state: u8,
    pub inside: Seq<bool>,
}

/// One atomic step of a caller.
pub enum GateStep {
    /// [`PollGate::try_acquire`].
    Request { caller: int, coalesce: bool },
    /// [`PollGuard::take_rerun_request`] of the holder.
    TakeRerun { caller: int },
    /// The holder drops its guard.
    Release { caller: int },
}

impl GateStep {
    pub open spec fn caller(self) -> int {
        match self {
            GateStep::Request { caller, .. } => caller,
            GateStep::TakeRerun { caller } => caller,
            GateStep::Release { caller } => caller,
        }
    }

    /// A request that wants to be coalesced.
    pub open spec fn coalesces(self) -> bool {
        self matches GateStep::Request { coalesce, .. } && coalesce
    }
}

impl GateModel {
    /// A new gate with the given number of callers.
    pub open spec fn initial(callers: nat) -> GateModel {
        GateModel { state: FREE, inside: Seq::new(callers, |i: int| false) }
    }

    /// The caller has the slot.
    pub open spec fn has_slot(self, i: int) -> bool {
        0 <= i < self.inside.len() && self.inside[i]
    }

    /// The caller can take the step next: a caller without the slot can request it, one
    /// with it can ask for reruns and release it.
    pub open spec fn can(self, step: GateStep) -> bool {
        let i = step.caller();
        0 <= i < self.inside.len() && match step {
            GateStep::Request { .. } => !self.inside[i],
            GateStep::TakeRerun { .. } => self.inside[i],
            GateStep::Release { .. } => self.inside[i],
        }
    }

    /// What is there after the step.
    pub open spec fn after(self, step: GateStep) -> GateModel {
        let i = step.caller();
        match step {
            GateStep::Request { coalesce, .. } => GateModel {
                state: after_step(self.state, SlotStep::Request { coalesce }),
                inside: self.inside.update(i, !taken(self.state)),
            },
            GateStep::TakeRerun { .. } => GateModel {
                state: after_step(self.state, SlotStep::TakeRerun),
                ..self
            },
            GateStep::Release { .. } => GateModel {
                state: FREE,
                inside: self.inside.update(i, false),
            },
        }
    }

    /// The steps can be taken one after the other.
    pub open spec fn can_all(self, steps: Seq<GateStep>) -> bool
        decreases steps.len(),
    {
        steps.len() == 0 || (self.can_all(steps.drop_last()) && self.after_all(
            steps.drop_last(),
        ).can(steps.last()))
    }

    /// What is there after the steps.
    pub open spec fn after_all(self, steps: Seq<GateStep>) -> GateModel
        decreases steps.len(),
    {
        if steps.len() == 0 {
            self
        } else {
            self.after_all(steps.drop_last()).after(steps.last())
        }
    }

    /// The slot is taken exactly while a caller has it, and never by two.
    pub open spec fn exclusive(self) -> bool {
        &&& taken(self.state) == (exists|i: int| #[trigger] self.has_slot(i))
        &&& forall|i: int, j: int| #[trigger]
            self.has_slot(i) && #[trigger] self.has_slot(j) ==> i == j
    }
}

/// One step keeps the slot exclusive.
proof fn lemma_step_keeps_exclusive(gate: GateModel, step: GateStep)
    requires
        gate.exclusive(),
        gate.can(step),
    ensures
        gate.after(step).exclusive(),
{
    let next = gate.after(step);
    let c = step.caller();
    assert forall|i: int| i != c implies #[trigger] next.has_slot(i) == gate.has_slot(i) by {}
    if taken(gate.state) {
        let holder = choose|i: int| #[trigger] gate.has_slot(i);
        if holder != c {
            assert(next.has_slot(holder));
        }
    }
    assert(gate.has_slot(c) == gate.inside[c]);
    assert(next.has_slot(c) == next.inside[c]);
}

/// A gate admits at most one poll at a time: however the steps of its callers follow each
/// other, never do two of them have the slot, and it is taken exactly while one has it.
pub proof fn law_at_most_one_poll(callers: nat, steps: Seq<GateStep>)
    requires
        GateModel::initial(callers).can_all(steps),
    ensures
        GateModel::initial(callers).after_all(steps).exclusive(),
    decreases steps.len(),
{
    let start = GateModel::initial(callers);
    if steps.len() == 0 {
        assert forall|i: int| !(#[trigger] start.has_slot(i)) by {}
    } else {
        law_at_most_one_poll(callers, steps.drop_last());
        lemma_step_keeps_exclusive(start.after_all(steps.drop_last()), steps.last());
    }
}

/// A request gets the slot exactly if it is free, and the slot is taken afterwards. A refused
/// one leaves everything as it was, but that a rerun is pending if it wants to be coalesced.
pub proof fn law_request(gate: GateModel, caller: int, coalesce: bool)
    requires
        gate.can(GateStep::Request { caller, coalesce }),
    ensures
        ({
            let after = gate.after(GateStep::Request { caller, coalesce });
            &&& after.has_slot(caller) == !taken(gate.state)
            &&& taken(after.state)
            &&& taken(gate.state) && !coalesce ==> after == gate
            &&& taken(gate.state) && coalesce ==> after == (GateModel { state: RERUN, ..gate })
        }),
{
    let after = gate.after(GateStep::Request { caller, coalesce });
    if taken(gate.state) {
        assert(after.inside =~= gate.inside);
    }
}

/// While a caller has the slot, no other request is granted; once it has released the slot,
/// the next request is.
pub proof fn law_slot_is_refused_then_released(
    gate: GateModel,
    holder: int,
    other: int,
    coalesce: bool,
)
    requires
        gate.exclusive(),
        gate.has_slot(holder),
        gate.can(GateStep::Request { caller: other, coalesce }),
    ensures
        !gate.after(GateStep::Request { caller: other, coalesce }).has_slot(other),
        gate.after(GateStep::Release { caller: holder }).after(
            GateStep::Request { caller: other, coalesce },
        ).has_slot(other),
{
    assert(taken(gate.state));
}

/// A holder is told of a rerun only if a coalesced request arrived since it got the slot:
/// what was asked of an earlier holder is gone.
pub proof fn law_fresh_holder_starts_clean(
    gate: GateModel,
    holder: int,
    coalesce: bool,
    steps: Seq<GateStep>,
)
    requires
        gate.can(GateStep::Request { caller: holder, coalesce }),
        !taken(gate.state),
        gate.after(GateStep::Request { caller: holder, coalesce }).can_all(steps),
        forall|k: int| 0 <= k < steps.len() ==> !(#[trigger] steps[k]).coalesces(),
    ensures
        !rerun_pending(
            gate.after(GateStep::Request { caller: holder, coalesce }).after_all(steps).state,
        ),
    decreases steps.len(),
{
    if steps.len() > 0 {
        let earlier = steps.drop_last();
        assert forall|k: int| 0 <= k < earlier.len() implies !(
        #[trigger] earlier[k]).coalesces() by {
            assert(earlier[k] == steps[k]);
        }
        law_fresh_holder_starts_clean(gate, holder, coalesce, earlier);
        assert(!steps[steps.len() - 1].coalesces());
    }
}

/// A coalesced request that is refused is reported to the holder that it was refused for:
/// whatever the others do, it is there when that holder next asks.
pub proof fn law_queued_request_is_there_when_asked(
    gate: GateModel,
    requester: int,
    holder: int,
    steps: Seq<GateStep>,
)
    requires
        gate.exclusive(),
        gate.has_slot(holder),
        gate.can(GateStep::Request { caller: requester, coalesce: true }),
        gate.after(GateStep::Request { caller: requester, coalesce: true }).can_all(steps),
        forall|k: int| 0 <= k < steps.len() ==> (#[trigger] steps[k]).caller() != holder,
    ensures
        ({
            let later = gate.after(
                GateStep::Request { caller: requester, coalesce: true },
            ).after_all(steps);
            &&& rerun_pending(later.state)
            &&& later.has_slot(holder)
            &&& later.exclusive()
        }),
    decreases steps.len(),
{
    let request = GateStep::Request { caller: requester, coalesce: true };
    assert(taken(gate.state));
    lemma_step_keeps_exclusive(gate, request);
    assert(gate.after(request).has_slot(holder));
    if steps.len() > 0 {
        let earlier = steps.drop_last();
        let last = steps.last();
        assert forall|k: int| 0 <= k < earlier.len() implies (#[trigger] earlier[k]).caller()
            != holder by {
            assert(earlier[k] == steps[k]);
        }
        law_queued_request_is_there_when_asked(gate, requester, holder, earlier);
        let before = gate.after(request).after_all(earlier);
        lemma_step_keeps_exclusive(before, last);
        assert(steps[steps.len() - 1] == last);
        // Without the slot a caller can only request it.
        assert(!before.has_slot(last.caller()));
        assert(before.after(last).has_slot(holder));
    }
}

/// Queued requests are reported once: after the holder has asked, nothing is pending until
/// another coalesced request arrives.
pub proof fn law_rerun_is_reported_once(gate: GateModel, holder: int, steps: Seq<GateStep>)
    requires
        gate.can(GateStep::TakeRerun { caller: holder }),
        gate.after(GateStep::TakeRerun { caller: holder }).can_all(steps),
        forall|k: int| 0 <= k < steps.len() ==> !(#[trigger] steps[k]).coalesces(),
    ensures
        !rerun_pending(gate.after(GateStep::TakeRerun { caller: holder }).after_all(steps).state),
    decreases steps.len(),
{
    if steps.len() > 0 {
        let earlier = steps.drop_last();
        assert forall|k: int| 0 <= k < earlier.len() implies !(
        #[trigger] earlier[k]).coalesces() by {
            assert(earlier[k] == steps[k]);
        }
        law_rerun_is_reported_once(gate, holder, earlier);
        assert(!steps[steps.len() - 1].coalesces());
    }
}

/// Why a poll was requested. Determines whether a request that arrives while a poll is
/// already running is dropped (timer-driven) or coalesced (user-driven).
#[derive(Clone, Copy, Debug, PartialEq, Eq, Structural)]
pub enum PollReason {
    Startup,
    Interval,
    ResetWatch,
    UserRefresh,
    ModelChanged,
}

impl PollReason {
    /// The user asked for the poll.
    pub open spec fn user_driven(self) -> bool {
        self == PollReason::UserRefresh || self == PollReason::ModelChanged
    }

    /// User-initiated requests should never look "dead" just because a background poll
    /// happens to be running, so they queue one follow-up poll. Timer-driven requests
    /// are dropped: the next tick will try again.
    pub fn coalesces(self) -> (yes: bool)
        ensures
            yes == self.user_driven(),
    {
        matches!(self, PollReason::UserRefresh | PollReason::ModelChanged)
    }
}

/// Shortest interval ever used for the fast "reset watch" poll.
pub const RESET_POLL_MIN_INTERVAL_MS: u32 = 5_000;

/// Longest interval used for the fast "reset watch" poll before giving up.
pub const RESET_POLL_MAX_INTERVAL_MS: u32 = 160_000;

/// Number of fast polls attempted after a usage window has reset before the app falls
/// back to its regular poll interval.
pub const RESET_POLL_MAX_ATTEMPTS: u32 = 6;

/// The delay before fast poll number `attempts`, counted from 0: twice the one before.
pub open spec fn reset_delay(attempts: nat) -> Option<nat> {
    if attempts < RESET_POLL_MAX_ATTEMPTS {
        Some(RESET_POLL_MIN_INTERVAL_MS as nat * pow2(attempts))
    } else {
        None
    }
}

/// Delay before the next fast "has the new usage window started yet?" poll.
///
/// `attempts` counts fast polls already made since the reset was detected. The sequence
/// is 5 s, 10 s, 20 s, 40 s, 80 s, 160 s and then `None`, meaning stop fast-polling and
/// rely on the normal interval timer.
pub fn reset_poll_delay_ms(attempts: u32) -> (delay: Option<u32>)
    ensures
        delay is Some == reset_delay(attempts as nat) is Some,
        delay matches Some(ms) ==> reset_delay(attempts as nat) == Some(ms as nat),
        delay matches Some(ms) ==> RESET_POLL_MIN_INTERVAL_MS <= ms <= RESET_POLL_MAX_INTERVAL_MS,
{
    if attempts >= RESET_POLL_MAX_ATTEMPTS {
        return None;
    }
    proof {
        lemma2_to64();
        lemma_u32_shl_is_mul(RESET_POLL_MIN_INTERVAL_MS, attempts);
    }
    let delay = RESET_POLL_MIN_INTERVAL_MS << attempts;
    if delay > RESET_POLL_MAX_INTERVAL_MS {
        Some(RESET_POLL_MAX_INTERVAL_MS)
    } else {
        Some(delay)
    }
}

/// The time that the first `polls` fast polls take.
pub open spec fn reset_watch_ms(polls: nat) -> nat
    decreases polls,
{
    if polls == 0 {
        0
    } else {
        reset_watch_ms((polls - 1) as nat) + match reset_delay((polls - 1) as nat) {
            Some(ms) => ms,
            None => 0,
        }
    }
}

/// The fast polling ends: after [`RESET_POLL_MAX_ATTEMPTS`] polls no more is due, and
/// however many were asked for, they take 315 seconds at most.
pub proof fn law_reset_polling_is_bounded(polls: nat)
    ensures
        reset_delay(polls) is Some <==> polls < RESET_POLL_MAX_ATTEMPTS,
        reset_watch_ms(polls) <= 315_000,
    decreases polls,
{
    lemma2_to64();
    reveal_with_fuel(reset_watch_ms, 8);
    if polls > 6 {
        law_reset_polling_is_bounded((polls - 1) as nat);
    }
}

/// Every fast poll waits twice as long as the one before it.
pub proof fn law_reset_delays_double(attempts: nat)
    requires
        attempts + 1 < RESET_POLL_MAX_ATTEMPTS,
    ensures
        reset_delay(attempts + 1) == Some(2 * reset_delay(attempts).unwrap()),
{
    lemma_pow2_unfold(attempts + 1);
    lemma_mul_is_associative(
        2,
        RESET_POLL_MIN_INTERVAL_MS as int,
        pow2(attempts) as int,
    );
    lemma_mul_is_associative(
        RESET_POLL_MIN_INTERVAL_MS as int,
        2,
        pow2(attempts) as int,
    );
}

/// The bytes of a 1 bit-per-pixel bitmap whose scanlines are padded to 16 bits.
pub open spec fn mask_bytes(width: int, height: int) -> int {
    if width <= 0 || height <= 0 {
        0
    } else {
        ((width + 15) / 16 * 2) * height
    }
}

/// Size in bytes of the pixel buffer for a 1 bit-per-pixel device-dependent bitmap as
/// required by `CreateBitmap`: every scanline is padded to a WORD (16-bit) boundary.
/// Returns 0 for non-positive dimensions.
pub fn mono_mask_bytes(width: i32, height: i32) -> (bytes: usize)
    requires
        mask_bytes(width as int, height as int) <= usize::MAX,
    ensures
        bytes == mask_bytes(width as int, height as int),
{
    if width <= 0 || height <= 0 {
        return 0;
    }
    let stride: usize = ((width as u32 + 15) / 16 * 2) as usize;
    stride * height as usize
}

/// A padded mask has a bit for every pixel, rows of whole 16-bit words, and on a 64-bit
/// machine a size that can be held.
pub proof fn law_mask_covers_the_bitmap(width: i32, height: i32)
    requires
        width > 0,
        height > 0,
    ensures
        8 * mask_bytes(width as int, height as int) >= width * height,
        mask_bytes(width as int, height as int) % 2 == 0,
        mask_bytes(width as int, height as int) >= (width * height + 7) / 8,
        mask_bytes(width as int, height as int) <= u64::MAX,
{
    let stride = (width + 15) / 16 * 2;
    assert(8 * stride >= width);
    assert(8 * (stride * height) >= width * height) by (nonlinear_arith)
        requires
            8 * stride >= width,
            height > 0,
    ;
    let words = (width + 15) / 16;
    assert(stride * height == 2 * (words * height)) by (nonlinear_arith)
        requires
            stride == words * 2,
    ;
    assert(stride * height <= 0x1000_0002 * 0x7FFF_FFFF) by (nonlinear_arith)
        requires
            0 <= stride <= 0x1000_0002,
            0 < height <= 0x7FFF_FFFF,
    ;
}

/// Number of 32-bit pixels in a `width` x `height` top-down DIB, or `None` if either
/// dimension is non-positive or the product overflows. Callers must not touch DIB memory
/// when this returns `None`.
pub fn pixel_count(width: i32, height: i32) -> (count: Option<usize>)
    ensures
        count is Some == (width > 0 && height > 0 && width * height <= usize::MAX),
        count matches Some(n) ==> n == width * height,
{
    if width <= 0 || height <= 0 {
        return None;
    }
    (width as usize).checked_mul(height as usize)
}

/// The fast polls wait 5, 10, 20, 40, 80 and 160 seconds, and then no more.
pub proof fn law_reset_delays_in_numbers(attempts: nat)
    ensures
        attempts < 6 ==> reset_delay(attempts) == Some(
            seq![5_000nat, 10_000, 20_000, 40_000, 80_000, 160_000][attempts as int],
        ),
        attempts >= 6 ==> reset_delay(attempts) is None,
{
    lemma2_to64();
}

/// A row of the mask has as many 16-bit words as it takes to hold its pixels, and no more;
/// there is nothing to hold without a width or a height.
pub proof fn law_mask_rows_are_whole_words(width: i32, height: i32, words: int)
    ensures
        width > 0 && height > 0 && 16 * (words - 1) < width <= 16 * words ==> mask_bytes(
            width as int,
            height as int,
        ) == 2 * words * height,
        width <= 0 || height <= 0 ==> mask_bytes(width as int, height as int) == 0,
{
    if width > 0 && height > 0 && 16 * (words - 1) < width <= 16 * words {
        assert((width + 15) / 16 == words);
    }
}

/// Of the reasons for a poll, those that the user gives are coalesced and those of a timer or
/// of the start are not.
pub proof fn law_user_driven_reasons(reason: PollReason)
    ensures
        reason.user_driven() <==> !(reason is Startup || reason is Interval || reason
            is ResetWatch),
{
}

} // verus!
