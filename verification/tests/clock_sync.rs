use dryer::clock_sync::{
    div_ceil, div_floor, div_round_nearest_ties_away, estimate_drift, observe, ClockSample,
    ClockSync, ClockSyncError, ControllerTick, ControllerWindow, DriftEstimate, HostTick,
};

fn sample(t0: u64, c1: u64, c2: u64, t3: u64) -> ClockSample {
    ClockSample {
        host_send: HostTick(t0),
        controller_receive: ControllerTick(c1),
        controller_send: ControllerTick(c2),
        host_receive: HostTick(t3),
    }
}

#[test]
fn observes_zero_and_signed_offsets() {
    let zero = observe(sample(100, 100, 110, 110)).unwrap();
    assert_eq!(zero.reference_host, HostTick(105));
    assert_eq!(zero.offset_ticks, 0);
    assert_eq!(zero.offset_min_ticks, 0);
    assert_eq!(zero.offset_max_ticks, 0);
    assert_eq!(zero.round_trip_ticks, 0);

    let positive = observe(sample(100, 160, 180, 140)).unwrap();
    assert_eq!(positive.offset_ticks, 50);
    assert_eq!(
        (positive.offset_min_ticks, positive.offset_max_ticks),
        (40, 60)
    );

    let negative = observe(sample(100, 80, 100, 140)).unwrap();
    assert_eq!(negative.offset_ticks, -30);
    assert_eq!(
        (negative.offset_min_ticks, negative.offset_max_ticks),
        (-40, -20)
    );
}

#[test]
fn asymmetric_path_preserves_the_true_offset_inside_bounds() {
    let observation = observe(sample(100, 155, 175, 140)).unwrap();
    assert_eq!(observation.offset_ticks, 45);
    assert_eq!(observation.offset_min_ticks, 35);
    assert_eq!(observation.offset_max_ticks, 55);
    assert!(observation.offset_min_ticks <= 50 && 50 <= observation.offset_max_ticks);
}

#[test]
fn controller_processing_is_excluded_from_round_trip() {
    let observation = observe(sample(100, 110, 140, 140)).unwrap();
    assert_eq!(observation.round_trip_ticks, 10);
    assert_eq!(
        (observation.offset_min_ticks, observation.offset_max_ticks),
        (0, 10)
    );
}

#[test]
fn odd_interval_width_uses_floor_midpoint_and_ceiling_uncertainty() {
    let observation = observe(sample(0, 2, 2, 5)).unwrap();
    assert_eq!(observation.offset_ticks, -1);
    assert_eq!(
        (observation.offset_min_ticks, observation.offset_max_ticks),
        (-3, 2)
    );
    let uncertainty = (observation.offset_ticks - observation.offset_min_ticks)
        .max(observation.offset_max_ticks - observation.offset_ticks);
    assert_eq!(uncertainty, 3);
}

#[test]
fn invalid_within_sample_ordering_is_rejected() {
    assert_eq!(
        observe(sample(10, 10, 10, 9)),
        Err(ClockSyncError::HostRegressed)
    );
    assert_eq!(
        observe(sample(0, 11, 10, 20)),
        Err(ClockSyncError::ControllerRegressed)
    );
    assert_eq!(
        observe(sample(0, 0, 11, 10)),
        Err(ClockSyncError::ControllerProcessingExceedsRoundTrip)
    );
}

#[test]
fn observations_accept_both_u64_offset_endpoints_without_wrapping() {
    let positive = observe(sample(0, u64::MAX, u64::MAX, 0)).unwrap();
    assert_eq!(positive.offset_ticks, i128::from(u64::MAX));
    assert_eq!(positive.offset_min_ticks, i128::from(u64::MAX));
    assert_eq!(positive.offset_max_ticks, i128::from(u64::MAX));

    let negative = observe(sample(u64::MAX, 0, 0, u64::MAX)).unwrap();
    assert_eq!(negative.offset_ticks, -i128::from(u64::MAX));
    assert_eq!(negative.offset_min_ticks, -i128::from(u64::MAX));
    assert_eq!(negative.offset_max_ticks, -i128::from(u64::MAX));
}

#[test]
fn negative_slew_bound_is_rejected() {
    assert_eq!(ClockSync::new(-1), Err(ClockSyncError::InvalidSlewBound));
    assert_eq!(ClockSync::new(0).unwrap().max_slew_ppb(), 0);
}

#[test]
fn first_sample_has_no_drift_or_projection() {
    let mut sync = ClockSync::new(0).unwrap();
    assert_eq!(sync.push(sample(10, 10, 10, 10)).unwrap(), None);
    assert_eq!(sync.estimate(), None);
    assert_eq!(
        sync.controller_window(HostTick(10)),
        Err(ClockSyncError::EstimateUnavailable)
    );
    assert_eq!(
        sync.uncertainty_at(HostTick(10)),
        Err(ClockSyncError::EstimateUnavailable)
    );
    assert!(sync.resync_due(HostTick(10), 100));
}

#[test]
fn estimates_known_positive_and_negative_drift() {
    let mut positive = ClockSync::new(0).unwrap();
    positive.push(sample(1_000, 1_100, 1_100, 1_000)).unwrap();
    positive
        .push(sample(1_001_000, 1_001_200, 1_001_200, 1_001_000))
        .unwrap();
    assert_eq!(
        positive.estimate().unwrap().drift,
        DriftEstimate {
            ppb: 100_000,
            min_ppb: 100_000,
            max_ppb: 100_000,
            baseline_ticks: 1_000_000,
        }
    );

    let mut negative = ClockSync::new(0).unwrap();
    negative.push(sample(1_000, 1_100, 1_100, 1_000)).unwrap();
    negative
        .push(sample(1_001_000, 1_001_025, 1_001_025, 1_001_000))
        .unwrap();
    assert_eq!(negative.estimate().unwrap().drift.ppb, -75_000);
    assert_eq!(negative.estimate().unwrap().drift.min_ppb, -75_000);
    assert_eq!(negative.estimate().unwrap().drift.max_ppb, -75_000);
}

#[test]
fn signed_drift_bounds_round_outward() {
    let previous = observe(sample(0, 1, 1, 2)).unwrap();
    let current = observe(sample(3, 4, 4, 5)).unwrap();
    let drift = estimate_drift(previous, current).unwrap();
    assert_eq!(drift.baseline_ticks, 3);
    assert_eq!(drift.ppb, 0);
    assert_eq!(drift.min_ppb, -666_666_667);
    assert_eq!(drift.max_ppb, 666_666_667);

    assert_eq!(div_floor(-2_000_000_000, 3).unwrap(), -666_666_667);
    assert_eq!(div_ceil(2_000_000_000, 3).unwrap(), 666_666_667);
    assert_eq!(div_round_nearest_ties_away(1, 2).unwrap(), 1);
    assert_eq!(div_round_nearest_ties_away(-1, 2).unwrap(), -1);
}

#[test]
fn uncertainty_grows_under_drift_bounds() {
    let mut sync = ClockSync::new(0).unwrap();
    sync.push(sample(0, 1, 1, 2)).unwrap();
    sync.push(sample(100, 101, 101, 102)).unwrap();

    assert_eq!(sync.uncertainty_at(HostTick(101)).unwrap(), 1);
    assert_eq!(sync.uncertainty_at(HostTick(151)).unwrap(), 2);
    assert_eq!(
        sync.controller_window(HostTick(151)).unwrap(),
        ControllerWindow {
            earliest: ControllerTick(149),
            estimate: ControllerTick(151),
            latest: ControllerTick(153),
        }
    );
}

#[test]
fn bounded_slew_contains_an_affine_controller_clock() {
    const MAX_SLEW_PPB: i128 = 100_000_000;
    let mut sync = ClockSync::new(MAX_SLEW_PPB).unwrap();

    sync.push(sample(0, 0, 0, 100)).unwrap();
    let estimate = sync
        .push(sample(1_000, 1_100, 1_100, 1_100))
        .unwrap()
        .unwrap();

    // C = 1.1 H. The raw second-sample interval [0, 100] misses
    // its offset 105 at the host midpoint; the 5-tick half-exchange
    // slew allowance expands the accepted anchor to [-5, 105].
    assert_eq!(estimate.anchor.reference_host, HostTick(1_050));
    assert_eq!(estimate.anchor.offset_min_ticks, -5);
    assert_eq!(estimate.anchor.offset_max_ticks, 105);
    let at_anchor = sync.controller_window(HostTick(1_050)).unwrap();
    assert!(at_anchor.earliest.0 <= 1_155 && 1_155 <= at_anchor.latest.0);

    let future = sync.controller_window(HostTick(1_150)).unwrap();
    assert!(future.earliest.0 <= 1_265 && 1_265 <= future.latest.0);
    let past = sync.controller_window(HostTick(1_000)).unwrap();
    assert!(past.earliest.0 <= 1_100 && 1_100 <= past.latest.0);
}

#[test]
fn bounded_ingestion_accepts_processing_measured_in_a_faster_clock() {
    const MAX_SLEW_PPB: i128 = 100_000_000;

    // C = 1.1 H, with 100 host ticks of return-path delay after a long
    // controller processing interval. The nominal cross-domain
    // subtraction gives a zero residual, but host-span widening produces
    // [45, 155] at H=1550 and contains C-H=155.
    let mut delayed = ClockSync::new(MAX_SLEW_PPB).unwrap();
    delayed.push(sample(0, 0, 0, 100)).unwrap();
    let delayed_estimate = delayed
        .push(sample(1_000, 1_100, 2_200, 2_100))
        .unwrap()
        .unwrap();
    assert_eq!(delayed_estimate.anchor.reference_host, HostTick(1_550));
    assert_eq!(delayed_estimate.anchor.offset_min_ticks, 45);
    assert_eq!(delayed_estimate.anchor.offset_max_ticks, 155);
    assert_eq!(delayed_estimate.anchor.round_trip_ticks, 1_100);
    let delayed_window = delayed.controller_window(HostTick(1_550)).unwrap();
    assert!(delayed_window.earliest.0 <= 1_705 && 1_705 <= delayed_window.latest.0);

    // With no network delay, controller processing advances 1100 local
    // ticks while the host advances only 1000. This is valid at the
    // configured slew even though c2-c1 > t3-t0.
    let mut local = ClockSync::new(MAX_SLEW_PPB).unwrap();
    local.push(sample(0, 0, 0, 100)).unwrap();
    let local_estimate = local
        .push(sample(1_000, 1_100, 2_200, 2_000))
        .unwrap()
        .unwrap();
    assert_eq!(local_estimate.anchor.reference_host, HostTick(1_500));
    assert_eq!(local_estimate.anchor.offset_min_ticks, 150);
    assert_eq!(local_estimate.anchor.offset_max_ticks, 150);
    assert_eq!(local_estimate.anchor.round_trip_ticks, 1_000);
    assert_eq!(
        local.controller_window(HostTick(1_500)).unwrap(),
        ControllerWindow {
            earliest: ControllerTick(1_650),
            estimate: ControllerTick(1_650),
            latest: ControllerTick(1_650),
        }
    );
}

#[test]
fn past_projection_is_allowed_within_but_not_before_the_session() {
    let mut sync = ClockSync::new(0).unwrap();
    sync.push(sample(10, 10, 10, 10)).unwrap();
    sync.push(sample(20, 20, 20, 20)).unwrap();
    assert_eq!(
        sync.controller_window(HostTick(19)).unwrap(),
        ControllerWindow {
            earliest: ControllerTick(19),
            estimate: ControllerTick(19),
            latest: ControllerTick(19),
        }
    );
    assert_eq!(
        sync.controller_window(HostTick(9)),
        Err(ClockSyncError::HostTickBeforeSession)
    );
}

#[test]
fn resync_is_due_at_the_exact_interval_boundary() {
    let mut sync = ClockSync::new(0).unwrap();
    sync.push(sample(10, 10, 10, 10)).unwrap();
    sync.push(sample(20, 20, 20, 20)).unwrap();
    assert!(!sync.resync_due(HostTick(119), 100));
    assert!(sync.resync_due(HostTick(120), 100));
    assert!(!sync.resync_due(HostTick(19), 0));
}

#[test]
fn cross_sample_regressions_and_zero_separation_do_not_mutate_state() {
    let mut sync = ClockSync::new(0).unwrap();
    sync.push(sample(10, 10, 10, 10)).unwrap();
    sync.push(sample(20, 20, 20, 20)).unwrap();
    let before = sync;

    assert_eq!(
        sync.push(sample(19, 21, 21, 21)),
        Err(ClockSyncError::HostRegressed)
    );
    assert_eq!(sync, before);
    assert_eq!(
        sync.push(sample(21, 19, 19, 21)),
        Err(ClockSyncError::ControllerRegressed)
    );
    assert_eq!(sync, before);
    assert_eq!(
        sync.push(sample(20, 20, 20, 20)),
        Err(ClockSyncError::InsufficientSeparation)
    );
    assert_eq!(sync, before);
    assert_eq!(
        sync.push(sample(21, 21, 32, 31)),
        Err(ClockSyncError::ControllerProcessingExceedsRoundTrip)
    );
    assert_eq!(sync, before);
}

#[test]
fn projected_controller_endpoints_are_checked() {
    let mut positive = ClockSync::new(0).unwrap();
    positive.push(sample(10, 11, 11, 10)).unwrap();
    positive.push(sample(20, 21, 21, 20)).unwrap();
    assert_eq!(
        positive.controller_window(HostTick(u64::MAX)),
        Err(ClockSyncError::ArithmeticOverflow)
    );
    assert_eq!(
        positive.uncertainty_at(HostTick(u64::MAX)),
        Err(ClockSyncError::ArithmeticOverflow)
    );

    let mut negative = ClockSync::new(0).unwrap();
    negative.push(sample(0, 0, 0, 2)).unwrap();
    negative.push(sample(2, 0, 0, 4)).unwrap();
    assert_eq!(
        negative.controller_window(HostTick(3)),
        Err(ClockSyncError::ArithmeticOverflow)
    );
    assert_eq!(
        negative.uncertainty_at(HostTick(3)),
        Err(ClockSyncError::ArithmeticOverflow)
    );
}

#[test]
fn projection_multiplication_overflow_is_reported() {
    let mut sync = ClockSync::new(0).unwrap();
    sync.push(sample(0, 0, 0, 0)).unwrap();
    sync.push(sample(1, u64::MAX, u64::MAX, 1)).unwrap();
    assert_eq!(
        sync.controller_window(HostTick(u64::MAX)),
        Err(ClockSyncError::ArithmeticOverflow)
    );
}


#[test]
fn a_second_accepted_push_brackets_its_sample() {
    let mut sync = ClockSync::new(1_000).unwrap();
    assert_eq!(sync.push(sample(1_000, 1_040, 1_060, 1_100)).unwrap(), None);
    let x = sample(2_000, 2_050, 2_070, 2_100);
    let e = sync.push(x).unwrap().unwrap();
    assert_eq!(e.sampled_at, HostTick(2_100));
    assert!(e.anchor.offset_min_ticks <= e.anchor.offset_ticks && e.anchor.offset_ticks <= e.anchor.offset_max_ticks);
    assert!(e.anchor.offset_min_ticks <= 2_070 - 2_100);
    assert!(e.anchor.offset_max_ticks >= 2_050 - 2_000);
    assert!(e.drift.baseline_ticks > 0);
    assert!(e.drift.min_ppb <= e.drift.ppb && e.drift.ppb <= e.drift.max_ppb);
    assert_eq!(sync.estimate(), Some(&e));
}
