use usage_monitor::poll_schedule::{
    is_rerun_pending, is_taken, mono_mask_bytes, pixel_count, reset_poll_delay_ms,
    state_after_request, PollGate, PollReason, FREE, HELD, RERUN, RESET_POLL_MAX_ATTEMPTS,
    RESET_POLL_MAX_INTERVAL_MS, RESET_POLL_MIN_INTERVAL_MS,
};

#[test]
fn gate_allows_one_acquire_at_a_time() {
    let gate = PollGate::new();
    let first = gate.try_acquire(false);
    assert!(first.is_some());
    assert!(gate.is_busy());
    assert!(gate.try_acquire(false).is_none());
    drop(first);
    assert!(!gate.is_busy());
}

#[test]
fn gate_releases_on_drop() {
    let gate = PollGate::new();
    {
        let _guard = gate.try_acquire(false).expect("first acquire");
    }
    assert!(gate.try_acquire(false).is_some());
}

#[test]
fn gate_coalesces_only_when_requested() {
    let gate = PollGate::new();
    let guard = gate.try_acquire(false).expect("first acquire");

    assert!(gate.try_acquire(false).is_none());
    assert!(
        !guard.take_rerun_request(),
        "plain skip must not queue a rerun"
    );

    assert!(gate.try_acquire(true).is_none());
    assert!(gate.try_acquire(true).is_none());
    assert!(
        guard.take_rerun_request(),
        "coalesced request is reported once"
    );
    assert!(!guard.take_rerun_request(), "...and only once");
}

#[test]
fn gate_rerun_flag_is_cleared_for_a_new_holder() {
    let gate = PollGate::new();
    let guard = gate.try_acquire(false).expect("first acquire");
    assert!(gate.try_acquire(true).is_none());
    // Holder exits without draining the flag.
    drop(guard);
    let next = gate.try_acquire(false).expect("second acquire");
    assert!(!next.take_rerun_request());
}

#[test]
fn default_gate_is_free() {
    let gate = PollGate::default();
    assert!(!gate.is_busy());
    assert!(gate.try_acquire(true).is_some());
}

#[test]
fn requests_decide_by_the_state_of_the_slot() {
    for coalesce in [false, true] {
        assert_eq!(state_after_request(FREE, coalesce), Some(HELD));
    }
    for state in [HELD, RERUN] {
        assert_eq!(state_after_request(state, false), None);
        assert_eq!(state_after_request(state, true), Some(RERUN));
    }
    assert!(!is_taken(FREE) && is_taken(HELD) && is_taken(RERUN));
    assert!(!is_rerun_pending(FREE) && !is_rerun_pending(HELD) && is_rerun_pending(RERUN));
}

#[test]
fn requests_of_an_earlier_holder_are_gone() {
    let gate = PollGate::new();
    for _ in 0..3 {
        let guard = gate.try_acquire(true).expect("free slot");
        assert!(!guard.take_rerun_request());
        assert!(gate.try_acquire(true).is_none());
        drop(guard);
        assert!(!gate.is_busy());
    }
}

#[test]
fn quiet_requests_leave_the_gate_as_the_model_says() {
    let gate = PollGate::new();
    let guard = gate.try_acquire(true).expect("free slot");
    assert!(gate.is_busy());
    assert!(!guard.take_rerun_request());
    assert!(gate.try_acquire(true).is_none());
    // A plain refusal leaves a pending request as it is.
    assert!(gate.try_acquire(false).is_none());
    assert!(gate.is_busy());
    assert!(guard.take_rerun_request());
}

#[test]
fn poll_reason_coalescing_matrix() {
    assert!(PollReason::UserRefresh.coalesces());
    assert!(PollReason::ModelChanged.coalesces());
    assert!(!PollReason::Startup.coalesces());
    assert!(!PollReason::Interval.coalesces());
    assert!(!PollReason::ResetWatch.coalesces());
}

#[test]
fn reset_poll_delay_backs_off_then_gives_up() {
    let observed: Vec<Option<u32>> = (0..8).map(reset_poll_delay_ms).collect();
    assert_eq!(
        observed,
        vec![
            Some(5_000),
            Some(10_000),
            Some(20_000),
            Some(40_000),
            Some(80_000),
            Some(160_000),
            None,
            None,
        ]
    );
}

#[test]
fn reset_poll_delay_never_below_floor_or_above_ceiling() {
    for attempts in 0..1_000u32 {
        if let Some(ms) = reset_poll_delay_ms(attempts) {
            assert!(ms >= RESET_POLL_MIN_INTERVAL_MS, "attempt {attempts}: {ms}");
            assert!(ms <= RESET_POLL_MAX_INTERVAL_MS, "attempt {attempts}: {ms}");
        }
    }
    assert!(reset_poll_delay_ms(u32::MAX).is_none());
}

/// An hour of "still past reset" responses stops after a small, fixed number of polls.
#[test]
fn reset_poll_storm_is_bounded() {
    let one_hour_ms: u64 = 60 * 60 * 1_000;
    let mut simulated_ms: u64 = 0;
    let mut polls = 0u32;
    let mut attempts = 0u32;

    while simulated_ms < one_hour_ms {
        match reset_poll_delay_ms(attempts) {
            Some(delay) => {
                simulated_ms += u64::from(delay);
                attempts += 1;
                polls += 1;
            }
            None => break,
        }
    }

    assert_eq!(polls, RESET_POLL_MAX_ATTEMPTS);
    assert!(
        simulated_ms < 400_000,
        "fast-poll phase must end within a few minutes, took {simulated_ms} ms"
    );
    assert!(
        polls < 720,
        "must be far below a rate of one poll per 5 seconds"
    );
}

#[test]
fn mono_mask_bytes_matches_word_aligned_stride() {
    assert_eq!(mono_mask_bytes(64, 64), 512);
    assert_eq!(mono_mask_bytes(20, 20), 80);
    assert_eq!(mono_mask_bytes(1, 1), 2);
    assert_eq!(mono_mask_bytes(17, 3), 12);
    assert_eq!(mono_mask_bytes(16, 1), 2);
    assert_eq!(mono_mask_bytes(32, 32), 128);
    assert_eq!(mono_mask_bytes(0, 0), 0);
    assert_eq!(mono_mask_bytes(-1, 10), 0);
    assert_eq!(mono_mask_bytes(10, -1), 0);
}

#[test]
fn mono_mask_bytes_is_never_smaller_than_naive_bit_count() {
    for width in 1..=70 {
        for height in 1..=70 {
            let naive = ((width * height) as usize).div_ceil(8);
            assert!(
                mono_mask_bytes(width, height) >= naive,
                "{width}x{height}: aligned {} < naive {naive}",
                mono_mask_bytes(width, height)
            );
        }
    }
}

#[test]
fn pixel_count_rejects_non_positive_dimensions() {
    assert_eq!(pixel_count(0, 46), None);
    assert_eq!(pixel_count(-1, 46), None);
    assert_eq!(pixel_count(300, 0), None);
    assert_eq!(pixel_count(300, -46), None);
}

#[test]
fn pixel_count_matches_dib_size_for_realistic_widgets() {
    for (width, height) in [(200, 46), (300, 69), (400, 92), (1, 1)] {
        let count = pixel_count(width, height).expect("positive dims");
        assert_eq!(count * 4, (width as usize) * 4 * (height as usize));
    }
}

#[test]
fn pixel_count_is_overflow_safe() {
    let result = pixel_count(i32::MAX, i32::MAX);
    // On 64-bit targets the product fits; on 32-bit it must be None, never a
    // wrapped value.
    if let Some(n) = result {
        assert_eq!(n, (i32::MAX as usize) * (i32::MAX as usize));
    }
}
