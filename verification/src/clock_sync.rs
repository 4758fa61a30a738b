//! Allocation-free host/controller clock estimation.
//!
//! A sample holds the four timestamps of one synchronization exchange. Host
//! and controller ticks are distinct clock domains normalized to the same tick
//! duration. The estimator keeps a conservative offset interval, derives signed
//! drift bounds from consecutive samples, combines them with an explicit
//! maximum slew bound, and projects those bounds with checked arithmetic only.

use vstd::prelude::*;
use vstd::arithmetic::div_mod::{
    lemma_fundamental_div_mod, lemma_fundamental_div_mod_converse, lemma_mod_bound,
    lemma_div_pos_is_pos, lemma_div_nonincreasing, lemma_div_is_ordered,
};

verus! {

pub const PARTS_PER_BILLION: i128 = 1_000_000_000;

pub const MIDPOINT_SLEW_DENOMINATOR: i128 = 2_000_000_000;

/// A monotonic tick in the host clock domain.
#[derive(Debug, Clone, Copy, PartialEq, Eq, Structural, PartialOrd, Ord, Hash)]
pub struct HostTick(pub u64);

/// A monotonic tick in one controller's local clock domain.
#[derive(Debug, Clone, Copy, PartialEq, Eq, Structural, PartialOrd, Ord, Hash)]
pub struct ControllerTick(pub u64);

/// Four timestamps captured by one round-trip synchronization exchange.
#[derive(Debug, Clone, Copy, PartialEq, Eq, Structural)]
pub struct ClockSample {
    pub host_send: HostTick,
    pub controller_receive: ControllerTick,
    pub controller_send: ControllerTick,
    pub host_receive: HostTick,
}

/// An offset interval established by one sample. Offsets are
/// `controller - host`; `offset_ticks` is the floor midpoint of the inclusive
/// interval `[offset_min_ticks, offset_max_ticks]`.
#[derive(Debug, Clone, Copy, PartialEq, Eq, Structural)]
pub struct OffsetObservation {
    pub reference_host: HostTick,
    pub offset_ticks: i128,
    pub offset_min_ticks: i128,
    pub offset_max_ticks: i128,
    pub round_trip_ticks: u64,
}

/// Signed controller-clock drift relative to the host, in parts per billion.
#[derive(Debug, Clone, Copy, PartialEq, Eq, Structural)]
pub struct DriftEstimate {
    pub ppb: i128,
    pub min_ppb: i128,
    pub max_ppb: i128,
    pub baseline_ticks: u64,
}

/// Latest offset anchor and drift derived from two consecutive observations.
#[derive(Debug, Clone, Copy, PartialEq, Eq, Structural)]
pub struct ClockEstimate {
    pub anchor: OffsetObservation,
    pub drift: DriftEstimate,
    pub sampled_at: HostTick,
}

/// Conservative projection of a host tick into controller-local time.
#[derive(Debug, Clone, Copy, PartialEq, Eq, Structural)]
pub struct ControllerWindow {
    pub earliest: ControllerTick,
    pub estimate: ControllerTick,
    pub latest: ControllerTick,
}

/// Deterministic validation or arithmetic failure.
#[derive(Debug, Clone, Copy, PartialEq, Eq, Structural)]
pub enum ClockSyncError {
    InvalidSlewBound,
    HostRegressed,
    ControllerRegressed,
    ControllerProcessingExceedsRoundTrip,
    InsufficientSeparation,
    ArithmeticOverflow,
    EstimateUnavailable,
    HostTickBeforeSession,
}

impl ClockSyncError {
    /// Human-readable description of the failure.
    pub fn message(&self) -> (text: &'static str)
        ensures
            text@ == clock_sync_error_message(*self),
    {
        match self {
            ClockSyncError::InvalidSlewBound => "maximum clock slew must be nonnegative",
            ClockSyncError::HostRegressed => "host clock regressed",
            ClockSyncError::ControllerRegressed => "controller clock regressed",
            ClockSyncError::ControllerProcessingExceedsRoundTrip => {
                "controller timing is inconsistent with the host exchange and slew bound"
            },
            ClockSyncError::InsufficientSeparation => "clock samples have no host-time separation",
            ClockSyncError::ArithmeticOverflow => "clock synchronization arithmetic overflowed",
            ClockSyncError::EstimateUnavailable => "clock estimate is unavailable",
            ClockSyncError::HostTickBeforeSession => "host tick predates the clock-sync session",
        }
    }
}

pub open spec fn clock_sync_error_message(e: ClockSyncError) -> Seq<char> {
    match e {
        ClockSyncError::InvalidSlewBound => "maximum clock slew must be nonnegative"@,
        ClockSyncError::HostRegressed => "host clock regressed"@,
        ClockSyncError::ControllerRegressed => "controller clock regressed"@,
        ClockSyncError::ControllerProcessingExceedsRoundTrip =>
            "controller timing is inconsistent with the host exchange and slew bound"@,
        ClockSyncError::InsufficientSeparation => "clock samples have no host-time separation"@,
        ClockSyncError::ArithmeticOverflow => "clock synchronization arithmetic overflowed"@,
        ClockSyncError::EstimateUnavailable => "clock estimate is unavailable"@,
        ClockSyncError::HostTickBeforeSession => "host tick predates the clock-sync session"@,
    }
}

// ---------------------------------------------------------------------------
// Integer division with explicit rounding
// ---------------------------------------------------------------------------

pub open spec fn fits_i128(x: int) -> bool {
    i128::MIN <= x <= i128::MAX
}

/// Quotient of Rust's truncating integer division.
pub open spec fn trunc_quotient(n: int, d: int) -> int {
    if n == 0 {
        0
    } else if n > 0 && d > 0 {
        n / d
    } else if n < 0 && d < 0 {
        (-n) / (-d)
    } else if n < 0 {
        -((-n) / d)
    } else {
        -(n / (-d))
    }
}

/// Remainder of Rust's truncating integer division (sign follows `n`).
pub open spec fn trunc_remainder(n: int, d: int) -> int {
    if n == 0 {
        0
    } else if n > 0 && d > 0 {
        n % d
    } else if n < 0 && d < 0 {
        -((-n) % (-d))
    } else if n < 0 {
        -((-n) % d)
    } else {
        n % (-d)
    }
}

/// Floor division as computed from the truncating quotient and remainder.
pub open spec fn spec_div_floor(n: i128, d: i128) -> Result<i128, ClockSyncError> {
    let q = trunc_quotient(n as int, d as int);
    if d == 0 || !fits_i128(q) {
        Err(ClockSyncError::ArithmeticOverflow)
    } else if trunc_remainder(n as int, d as int) < 0 {
        if fits_i128(q - 1) {
            Ok((q - 1) as i128)
        } else {
            Err(ClockSyncError::ArithmeticOverflow)
        }
    } else {
        Ok(q as i128)
    }
}

/// Ceiling division as computed from the truncating quotient and remainder.
pub open spec fn spec_div_ceil(n: i128, d: i128) -> Result<i128, ClockSyncError> {
    let q = trunc_quotient(n as int, d as int);
    if d == 0 || !fits_i128(q) {
        Err(ClockSyncError::ArithmeticOverflow)
    } else if trunc_remainder(n as int, d as int) > 0 {
        if fits_i128(q + 1) {
            Ok((q + 1) as i128)
        } else {
            Err(ClockSyncError::ArithmeticOverflow)
        }
    } else {
        Ok(q as i128)
    }
}

/// Round-to-nearest with ties away from zero, from the truncating quotient.
pub open spec fn spec_div_round(n: i128, d: i128) -> Result<i128, ClockSyncError> {
    let q = trunc_quotient(n as int, d as int);
    let r = trunc_remainder(n as int, d as int);
    let magnitude = if r < 0 { -r } else { r };
    if d == 0 || !fits_i128(q) || (n == i128::MIN && d == -1) || !fits_i128(magnitude)
        || !fits_i128(magnitude * 2) {
        Err(ClockSyncError::ArithmeticOverflow)
    } else if magnitude * 2 < d {
        Ok(q as i128)
    } else if n < 0 {
        if fits_i128(q - 1) {
            Ok((q - 1) as i128)
        } else {
            Err(ClockSyncError::ArithmeticOverflow)
        }
    } else if fits_i128(q + 1) {
        Ok((q + 1) as i128)
    } else {
        Err(ClockSyncError::ArithmeticOverflow)
    }
}

/// Ceiling of `n / d` for a positive divisor.
pub open spec fn ceil_div(n: int, d: int) -> int {
    -((-n) / d)
}

/// Round-half-away-from-zero of `n / d` for a positive divisor.
pub open spec fn round_half_away(n: int, d: int) -> int {
    if n >= 0 {
        (2 * n + d) / (2 * d)
    } else {
        -((2 * (-n) + d) / (2 * d))
    }
}

/// Truncating division by a positive divisor: the Euclidean decomposition of
/// `|n|` carried back to the sign of `n`.
proof fn lemma_trunc_positive_divisor(n: int, d: int)
    requires
        d > 0,
    ensures
        n == d * trunc_quotient(n, d) + trunc_remainder(n, d),
        -d < trunc_remainder(n, d) < d,
        n >= 0 ==> 0 <= trunc_remainder(n, d) && 0 <= trunc_quotient(n, d) <= n,
        n < 0 ==> trunc_remainder(n, d) <= 0 && n <= trunc_quotient(n, d) <= 0,
{
    if n >= 0 {
        lemma_fundamental_div_mod(n, d);
        lemma_mod_bound(n, d);
        lemma_div_pos_is_pos(n, d);
        lemma_div_nonincreasing(n, d);
    } else {
        lemma_fundamental_div_mod(-n, d);
        lemma_mod_bound(-n, d);
        lemma_div_pos_is_pos(-n, d);
        lemma_div_nonincreasing(-n, d);
        assert(d * (-((-n) / d)) == -(d * ((-n) / d))) by (nonlinear_arith);
    }
}

/// For a positive divisor the floor rule agrees with Euclidean division.
proof fn lemma_div_floor_positive(n: i128, d: i128)
    requires
        d > 0,
    ensures
        spec_div_floor(n, d) == Ok::<i128, ClockSyncError>((n as int / d as int) as i128),
        fits_i128(n as int / d as int),
{
    let ni = n as int;
    let di = d as int;
    lemma_trunc_positive_divisor(ni, di);
    let q = trunc_quotient(ni, di);
    let r = trunc_remainder(ni, di);
    if r < 0 {
        assert(ni == (q - 1) * di + (r + di)) by (nonlinear_arith)
            requires
                ni == di * q + r,
        ;
        assert(q - 1 >= ni) by (nonlinear_arith)
            requires
                ni == di * (q - 1) + (r + di),
                0 < r + di < di,
                di >= 1,
                ni < 0,
        ;
        lemma_fundamental_div_mod_converse(ni, di, q - 1, r + di);
    } else {
        assert(ni == q * di + r) by (nonlinear_arith)
            requires
                ni == di * q + r,
        ;
        lemma_fundamental_div_mod_converse(ni, di, q, r);
    }
}

/// For a positive divisor the ceiling rule is the mathematical ceiling.
proof fn lemma_div_ceil_positive(n: i128, d: i128)
    requires
        d > 0,
    ensures
        spec_div_ceil(n, d) == Ok::<i128, ClockSyncError>(ceil_div(n as int, d as int) as i128),
        fits_i128(ceil_div(n as int, d as int)),
{
    let ni = n as int;
    let di = d as int;
    lemma_trunc_positive_divisor(ni, di);
    let q = trunc_quotient(ni, di);
    let r = trunc_remainder(ni, di);
    // -n == d * (-q) + (-r); the ceiling is minus the floor of -n / d.
    if r > 0 {
        assert(-ni == (-q - 1) * di + (di - r)) by (nonlinear_arith)
            requires
                ni == di * q + r,
        ;
        assert(q + 1 <= ni) by (nonlinear_arith)
            requires
                -ni == di * (-q - 1) + (di - r),
                0 < di - r < di,
                di >= 1,
                ni > 0,
        ;
        lemma_fundamental_div_mod_converse(-ni, di, -q - 1, di - r);
    } else {
        assert(-ni == (-q) * di + (-r)) by (nonlinear_arith)
            requires
                ni == di * q + r,
        ;
        lemma_fundamental_div_mod_converse(-ni, di, -q, -r);
    }
}

/// Floor division; for a positive divisor the exact mathematical floor.
pub fn div_floor(numerator: i128, denominator: i128) -> (result: Result<i128, ClockSyncError>)
    ensures
        result == spec_div_floor(numerator, denominator),
        denominator > 0 ==> result == Ok::<i128, ClockSyncError>(
            (numerator as int / denominator as int) as i128,
        ),
{
    proof {
        if denominator > 0 {
            lemma_div_floor_positive(numerator, denominator);
        }
    }
    let quotient = match numerator.checked_div(denominator) {
        Some(q) => q,
        None => return Err(ClockSyncError::ArithmeticOverflow),
    };
    let remainder = match numerator.checked_rem(denominator) {
        Some(r) => r,
        None => {
            proof {
                assert((-(numerator as int)) / 1 == -(numerator as int));
            }
            return Err(ClockSyncError::ArithmeticOverflow);
        },
    };
    if remainder < 0 {
        match quotient.checked_sub(1) {
            Some(q) => Ok(q),
            None => Err(ClockSyncError::ArithmeticOverflow),
        }
    } else {
        Ok(quotient)
    }
}

/// Round-half-away for a positive divisor that fits in 64 bits.
proof fn lemma_div_round_positive(n: i128, d: i128)
    requires
        0 < d <= 0x1_0000_0000_0000_0000,
    ensures
        spec_div_round(n, d) == Ok::<i128, ClockSyncError>(
            round_half_away(n as int, d as int) as i128,
        ),
        fits_i128(round_half_away(n as int, d as int)),
{
    let ni = n as int;
    let di = d as int;
    lemma_trunc_positive_divisor(ni, di);
    let q = trunc_quotient(ni, di);
    let r = trunc_remainder(ni, di);
    if ni >= 0 {
        if 2 * r < di {
            assert(2 * ni + di == q * (2 * di) + (2 * r + di)) by (nonlinear_arith)
                requires
                    ni == di * q + r,
            ;
            lemma_fundamental_div_mod_converse(2 * ni + di, 2 * di, q, 2 * r + di);
        } else {
            assert(2 * ni + di == (q + 1) * (2 * di) + (2 * r - di)) by (nonlinear_arith)
                requires
                    ni == di * q + r,
            ;
            lemma_fundamental_div_mod_converse(2 * ni + di, 2 * di, q + 1, 2 * r - di);
            assert(q * 2 <= ni) by (nonlinear_arith)
                requires
                    ni == di * q + r,
                    r >= 0,
                    q >= 0,
                    di >= 2,
            ;
        }
    } else {
        let m = -ni;
        if 2 * (-r) < di {
            assert(2 * m + di == (-q) * (2 * di) + (2 * (-r) + di)) by (nonlinear_arith)
                requires
                    ni == di * q + r,
                    m == -ni,
            ;
            lemma_fundamental_div_mod_converse(2 * m + di, 2 * di, -q, 2 * (-r) + di);
        } else {
            assert(2 * m + di == (-q + 1) * (2 * di) + (2 * (-r) - di)) by (nonlinear_arith)
                requires
                    ni == di * q + r,
                    m == -ni,
            ;
            lemma_fundamental_div_mod_converse(2 * m + di, 2 * di, -q + 1, 2 * (-r) - di);
            assert(q * 2 >= ni) by (nonlinear_arith)
                requires
                    ni == di * q + r,
                    r <= 0,
                    q <= 0,
                    di >= 2,
            ;
        }
    }
}

/// Ceiling division; for a positive divisor the exact mathematical ceiling.
pub fn div_ceil(numerator: i128, denominator: i128) -> (result: Result<i128, ClockSyncError>)
    ensures
        result == spec_div_ceil(numerator, denominator),
        denominator > 0 ==> result == Ok::<i128, ClockSyncError>(
            ceil_div(numerator as int, denominator as int) as i128,
        ),
{
    proof {
        if denominator > 0 {
            lemma_div_ceil_positive(numerator, denominator);
        }
    }
    let quotient = match numerator.checked_div(denominator) {
        Some(q) => q,
        None => return Err(ClockSyncError::ArithmeticOverflow),
    };
    let remainder = match numerator.checked_rem(denominator) {
        Some(r) => r,
        None => {
            proof {
                assert((-(numerator as int)) / 1 == -(numerator as int));
            }
            return Err(ClockSyncError::ArithmeticOverflow);
        },
    };
    if remainder > 0 {
        match quotient.checked_add(1) {
            Some(q) => Ok(q),
            None => Err(ClockSyncError::ArithmeticOverflow),
        }
    } else {
        Ok(quotient)
    }
}

/// Round to nearest with ties away from zero; for a positive divisor of at
/// most 64 bits the exact mathematical rounding.
pub fn div_round_nearest_ties_away(numerator: i128, denominator: i128) -> (result: Result<
    i128,
    ClockSyncError,
>)
    ensures
        result == spec_div_round(numerator, denominator),
        0 < denominator <= 0x1_0000_0000_0000_0000 ==> result == Ok::<i128, ClockSyncError>(
            round_half_away(numerator as int, denominator as int) as i128,
        ),
{
    proof {
        if 0 < denominator <= 0x1_0000_0000_0000_0000 {
            lemma_div_round_positive(numerator, denominator);
        }
    }
    let quotient = match numerator.checked_div(denominator) {
        Some(q) => q,
        None => return Err(ClockSyncError::ArithmeticOverflow),
    };
    let remainder = match numerator.checked_rem(denominator) {
        Some(r) => r,
        None => {
            proof {
                assert((-(numerator as int)) / 1 == -(numerator as int));
            }
            return Err(ClockSyncError::ArithmeticOverflow);
        },
    };
    let absolute = if remainder >= 0 {
        remainder
    } else {
        match 0i128.checked_sub(remainder) {
            Some(a) => a,
            None => return Err(ClockSyncError::ArithmeticOverflow),
        }
    };
    let magnitude = match absolute.checked_mul(2) {
        Some(m) => m,
        None => return Err(ClockSyncError::ArithmeticOverflow),
    };
    if magnitude < denominator {
        return Ok(quotient);
    }
    if numerator < 0 {
        match quotient.checked_sub(1) {
            Some(q) => Ok(q),
            None => Err(ClockSyncError::ArithmeticOverflow),
        }
    } else {
        match quotient.checked_add(1) {
            Some(q) => Ok(q),
            None => Err(ClockSyncError::ArithmeticOverflow),
        }
    }
}

// ---------------------------------------------------------------------------
// Observations
// ---------------------------------------------------------------------------

/// Nominal NTP-style interval of one sample: rejected orderings, otherwise the
/// offsets `[c2 - t3, c1 - t0]`, their floor midpoint, the host midpoint and
/// the round trip with controller processing excluded.
pub open spec fn spec_observe(sample: ClockSample) -> Result<OffsetObservation, ClockSyncError> {
    let t0 = sample.host_send.0 as int;
    let c1 = sample.controller_receive.0 as int;
    let c2 = sample.controller_send.0 as int;
    let t3 = sample.host_receive.0 as int;
    if t3 < t0 {
        Err(ClockSyncError::HostRegressed)
    } else if c2 < c1 {
        Err(ClockSyncError::ControllerRegressed)
    } else if t3 - t0 < c2 - c1 {
        Err(ClockSyncError::ControllerProcessingExceedsRoundTrip)
    } else {
        let low = c2 - t3;
        let high = c1 - t0;
        Ok(
            OffsetObservation {
                reference_host: HostTick((t0 + (t3 - t0) / 2) as u64),
                offset_ticks: (low + (high - low) / 2) as i128,
                offset_min_ticks: low as i128,
                offset_max_ticks: high as i128,
                round_trip_ticks: ((t3 - t0) - (c2 - c1)) as u64,
            },
        )
    }
}

/// Validate a four-timestamp sample and derive its nominal offset interval.
///
/// This standalone result does not account for relative clock slew during the
/// exchange; scheduling code uses [`ClockSync`], which widens the interval.
pub fn observe(sample: ClockSample) -> (result: Result<OffsetObservation, ClockSyncError>)
    ensures
        result == spec_observe(sample),
{
    let host_elapsed = match sample.host_receive.0.checked_sub(sample.host_send.0) {
        Some(v) => v,
        None => return Err(ClockSyncError::HostRegressed),
    };
    let controller_processing = match sample.controller_send.0.checked_sub(
        sample.controller_receive.0,
    ) {
        Some(v) => v,
        None => return Err(ClockSyncError::ControllerRegressed),
    };
    let round_trip_ticks = match host_elapsed.checked_sub(controller_processing) {
        Some(v) => v,
        None => return Err(ClockSyncError::ControllerProcessingExceedsRoundTrip),
    };
    let low = match (sample.controller_send.0 as i128).checked_sub(sample.host_receive.0 as i128) {
        Some(v) => v,
        None => return Err(ClockSyncError::ArithmeticOverflow),
    };
    let high = match (sample.controller_receive.0 as i128).checked_sub(
        sample.host_send.0 as i128,
    ) {
        Some(v) => v,
        None => return Err(ClockSyncError::ArithmeticOverflow),
    };
    let width = match high.checked_sub(low) {
        Some(v) => v,
        None => return Err(ClockSyncError::ArithmeticOverflow),
    };
    let midpoint = match low.checked_add(width / 2) {
        Some(v) => v,
        None => return Err(ClockSyncError::ArithmeticOverflow),
    };
    let reference_host = match sample.host_send.0.checked_add(host_elapsed / 2) {
        Some(v) => v,
        None => return Err(ClockSyncError::ArithmeticOverflow),
    };
    Ok(
        OffsetObservation {
            reference_host: HostTick(reference_host),
            offset_ticks: midpoint,
            offset_min_ticks: low,
            offset_max_ticks: high,
            round_trip_ticks,
        },
    )
}

/// Bounded interval of one sample: the nominal interval widened on both sides
/// by the ceiling of half the slew the host exchange span admits.
pub open spec fn spec_observe_bounded(sample: ClockSample, max_slew_ppb: i128) -> Result<
    OffsetObservation,
    ClockSyncError,
> {
    let t0 = sample.host_send.0 as int;
    let c1 = sample.controller_receive.0 as int;
    let c2 = sample.controller_send.0 as int;
    let t3 = sample.host_receive.0 as int;
    let span = (t3 - t0) * max_slew_ppb;
    let allowance = ceil_div(span, MIDPOINT_SLEW_DENOMINATOR as int);
    let low = (c2 - t3) - allowance;
    let high = (c1 - t0) + allowance;
    if t3 < t0 {
        Err(ClockSyncError::HostRegressed)
    } else if c2 < c1 {
        Err(ClockSyncError::ControllerRegressed)
    } else if !fits_i128(span) || !fits_i128(low) || !fits_i128(high) || !fits_i128(high - low) {
        Err(ClockSyncError::ArithmeticOverflow)
    } else if high - low < 0 {
        Err(ClockSyncError::ControllerProcessingExceedsRoundTrip)
    } else {
        Ok(
            OffsetObservation {
                reference_host: HostTick((t0 + (t3 - t0) / 2) as u64),
                offset_ticks: (low + (high - low) / 2) as i128,
                offset_min_ticks: low as i128,
                offset_max_ticks: high as i128,
                round_trip_ticks: (t3 - t0) as u64,
            },
        )
    }
}

fn observe_bounded(sample: ClockSample, max_slew_ppb: i128) -> (result: Result<
    OffsetObservation,
    ClockSyncError,
>)
    ensures
        result == spec_observe_bounded(sample, max_slew_ppb),
{
    let host_elapsed = match sample.host_receive.0.checked_sub(sample.host_send.0) {
        Some(v) => v,
        None => return Err(ClockSyncError::HostRegressed),
    };
    if sample.controller_send.0 < sample.controller_receive.0 {
        return Err(ClockSyncError::ControllerRegressed);
    }
    let span = match (host_elapsed as i128).checked_mul(max_slew_ppb) {
        Some(v) => v,
        None => return Err(ClockSyncError::ArithmeticOverflow),
    };
    let allowance = match div_ceil(span, MIDPOINT_SLEW_DENOMINATOR) {
        Ok(v) => v,
        Err(e) => return Err(e),
    };
    let nominal_low = match (sample.controller_send.0 as i128).checked_sub(
        sample.host_receive.0 as i128,
    ) {
        Some(v) => v,
        None => return Err(ClockSyncError::ArithmeticOverflow),
    };
    let nominal_high = match (sample.controller_receive.0 as i128).checked_sub(
        sample.host_send.0 as i128,
    ) {
        Some(v) => v,
        None => return Err(ClockSyncError::ArithmeticOverflow),
    };
    let low = match nominal_low.checked_sub(allowance) {
        Some(v) => v,
        None => return Err(ClockSyncError::ArithmeticOverflow),
    };
    let high = match nominal_high.checked_add(allowance) {
        Some(v) => v,
        None => return Err(ClockSyncError::ArithmeticOverflow),
    };
    let width = match high.checked_sub(low) {
        Some(v) => v,
        None => return Err(ClockSyncError::ArithmeticOverflow),
    };
    if width < 0 {
        return Err(ClockSyncError::ControllerProcessingExceedsRoundTrip);
    }
    let midpoint = match low.checked_add(width / 2) {
        Some(v) => v,
        None => return Err(ClockSyncError::ArithmeticOverflow),
    };
    let reference_host = match sample.host_send.0.checked_add(host_elapsed / 2) {
        Some(v) => v,
        None => return Err(ClockSyncError::ArithmeticOverflow),
    };
    Ok(
        OffsetObservation {
            reference_host: HostTick(reference_host),
            offset_ticks: midpoint,
            offset_min_ticks: low,
            offset_max_ticks: high,
            round_trip_ticks: host_elapsed,
        },
    )
}

/// Drift bounds between two observations: the point estimate rounded to the
/// nearest ppb, the widest interval-to-interval slopes rounded outward.
pub open spec fn spec_estimate_drift(previous: OffsetObservation, current: OffsetObservation) -> Result<
    DriftEstimate,
    ClockSyncError,
> {
    let baseline = current.reference_host.0 as int - previous.reference_host.0 as int;
    let point = current.offset_ticks - previous.offset_ticks;
    let minimum = current.offset_min_ticks - previous.offset_max_ticks;
    let maximum = current.offset_max_ticks - previous.offset_min_ticks;
    let ppb = PARTS_PER_BILLION as int;
    if baseline <= 0 {
        Err(ClockSyncError::InsufficientSeparation)
    } else if !fits_i128(point) || !fits_i128(minimum) || !fits_i128(maximum) || !fits_i128(
        point * ppb,
    ) || !fits_i128(minimum * ppb) || !fits_i128(maximum * ppb) {
        Err(ClockSyncError::ArithmeticOverflow)
    } else {
        Ok(
            DriftEstimate {
                ppb: round_half_away(point * ppb, baseline) as i128,
                min_ppb: ((minimum * ppb) / baseline) as i128,
                max_ppb: ceil_div(maximum * ppb, baseline) as i128,
                baseline_ticks: baseline as u64,
            },
        )
    }
}

pub fn estimate_drift(previous: OffsetObservation, current: OffsetObservation) -> (result: Result<
    DriftEstimate,
    ClockSyncError,
>)
    ensures
        result == spec_estimate_drift(previous, current),
{
    let baseline_ticks = match current.reference_host.0.checked_sub(previous.reference_host.0) {
        Some(b) => b,
        None => return Err(ClockSyncError::InsufficientSeparation),
    };
    if baseline_ticks == 0 {
        return Err(ClockSyncError::InsufficientSeparation);
    }
    let denominator = baseline_ticks as i128;
    let point_delta = match current.offset_ticks.checked_sub(previous.offset_ticks) {
        Some(v) => v,
        None => return Err(ClockSyncError::ArithmeticOverflow),
    };
    let minimum_delta = match current.offset_min_ticks.checked_sub(previous.offset_max_ticks) {
        Some(v) => v,
        None => return Err(ClockSyncError::ArithmeticOverflow),
    };
    let maximum_delta = match current.offset_max_ticks.checked_sub(previous.offset_min_ticks) {
        Some(v) => v,
        None => return Err(ClockSyncError::ArithmeticOverflow),
    };
    let point_scaled = match point_delta.checked_mul(PARTS_PER_BILLION) {
        Some(v) => v,
        None => return Err(ClockSyncError::ArithmeticOverflow),
    };
    let ppb = match div_round_nearest_ties_away(point_scaled, denominator) {
        Ok(v) => v,
        Err(e) => return Err(e),
    };
    let minimum_scaled = match minimum_delta.checked_mul(PARTS_PER_BILLION) {
        Some(v) => v,
        None => return Err(ClockSyncError::ArithmeticOverflow),
    };
    let min_ppb = match div_floor(minimum_scaled, denominator) {
        Ok(v) => v,
        Err(e) => return Err(e),
    };
    let maximum_scaled = match maximum_delta.checked_mul(PARTS_PER_BILLION) {
        Some(v) => v,
        None => return Err(ClockSyncError::ArithmeticOverflow),
    };
    let max_ppb = match div_ceil(maximum_scaled, denominator) {
        Ok(v) => v,
        Err(e) => return Err(e),
    };
    Ok(DriftEstimate { ppb, min_ppb, max_ppb, baseline_ticks })
}

pub open spec fn fits_u64(x: int) -> bool {
    0 <= x <= u64::MAX
}

pub fn to_u64(value: i128) -> (result: Result<u64, ClockSyncError>)
    ensures
        result == (if fits_u64(value as int) {
            Ok::<u64, ClockSyncError>(value as u64)
        } else {
            Err(ClockSyncError::ArithmeticOverflow)
        }),
{
    if 0 <= value && value <= 0xffff_ffff_ffff_ffff {
        Ok(value as u64)
    } else {
        Err(ClockSyncError::ArithmeticOverflow)
    }
}

// ---------------------------------------------------------------------------
// Session state
// ---------------------------------------------------------------------------

/// O(1), allocation-free state for one host/controller clock session.
#[derive(Debug, Clone, Copy, PartialEq, Eq, Structural)]
pub struct ClockSync {
    max_slew_ppb: i128,
    session_start: Option<HostTick>,
    previous: Option<OffsetObservation>,
    estimate: Option<ClockEstimate>,
    last_raw: Option<ClockSample>,
}

/// The abstract state of a [`ClockSync`] session.
pub struct ClockSyncState {
    pub max_slew_ppb: i128,
    pub session_start: Option<HostTick>,
    pub previous: Option<OffsetObservation>,
    pub estimate: Option<ClockEstimate>,
    pub last_raw: Option<ClockSample>,
}

impl ClockSyncState {
    /// Every reachable session has a nonnegative slew bound and ordered
    /// offset intervals.
    pub open spec fn wf(self) -> bool {
        &&& self.max_slew_ppb >= 0
        &&& (self.previous matches Some(p) ==> p.offset_min_ticks <= p.offset_max_ticks)
        &&& (self.estimate matches Some(e) ==> e.anchor.offset_min_ticks
            <= e.anchor.offset_max_ticks)
    }
}

impl ClockSync {
    /// Every session is well formed.
    #[verifier::type_invariant]
    spec fn well_formed(self) -> bool {
        &&& self.max_slew_ppb >= 0
        &&& (self.previous matches Some(p) ==> p.offset_min_ticks <= p.offset_max_ticks)
        &&& (self.estimate matches Some(e) ==> e.anchor.offset_min_ticks <= e.anchor.offset_max_ticks)
    }
}

impl View for ClockSync {
    type V = ClockSyncState;

    closed spec fn view(&self) -> ClockSyncState {
        ClockSyncState {
            max_slew_ppb: self.max_slew_ppb,
            session_start: self.session_start,
            previous: self.previous,
            estimate: self.estimate,
            last_raw: self.last_raw,
        }
    }
}

pub open spec fn spec_new_session(max_slew_ppb: i128) -> Result<ClockSyncState, ClockSyncError> {
    if max_slew_ppb < 0 {
        Err(ClockSyncError::InvalidSlewBound)
    } else {
        Ok(
            ClockSyncState {
                max_slew_ppb,
                session_start: None,
                previous: None,
                estimate: None,
                last_raw: None,
            },
        )
    }
}

/// The state after accepting `sample`, or the error that rejects it. A
/// rejected sample leaves the session unchanged.
pub open spec fn spec_push(s: ClockSyncState, sample: ClockSample) -> Result<
    ClockSyncState,
    ClockSyncError,
> {
    match spec_observe_bounded(sample, s.max_slew_ppb) {
        Err(e) => Err(e),
        Ok(observation) => {
            if s.last_raw matches Some(last) && (sample.host_send.0 < last.host_send.0
                || sample.host_receive.0 < last.host_receive.0) {
                Err(ClockSyncError::HostRegressed)
            } else if s.last_raw matches Some(last) && (sample.controller_receive.0
                < last.controller_receive.0 || sample.controller_send.0
                < last.controller_send.0) {
                Err(ClockSyncError::ControllerRegressed)
            } else {
                let session_start = if s.session_start is None {
                    Some(observation.reference_host)
                } else {
                    s.session_start
                };
                match s.previous {
                    Some(previous) => {
                        if observation.reference_host.0 <= previous.reference_host.0 {
                            Err(ClockSyncError::InsufficientSeparation)
                        } else {
                            match spec_estimate_drift(previous, observation) {
                                Err(e) => Err(e),
                                Ok(drift) => Ok(
                                    ClockSyncState {
                                        max_slew_ppb: s.max_slew_ppb,
                                        session_start,
                                        previous: Some(observation),
                                        estimate: Some(
                                            ClockEstimate {
                                                anchor: observation,
                                                drift,
                                                sampled_at: sample.host_receive,
                                            },
                                        ),
                                        last_raw: Some(sample),
                                    },
                                ),
                            }
                        }
                    },
                    None => Ok(
                        ClockSyncState {
                            max_slew_ppb: s.max_slew_ppb,
                            session_start,
                            previous: Some(observation),
                            estimate: s.estimate,
                            last_raw: Some(sample),
                        },
                    ),
                }
            }
        },
    }
}

/// Conservative projection `(earliest, midpoint, latest)` of a host tick into
/// controller time: the anchor interval extended by the widest of the
/// estimated drift bounds and the physical slew bound, rounded outward.
pub open spec fn spec_project(s: ClockSyncState, host: HostTick) -> Result<
    (i128, i128, i128),
    ClockSyncError,
> {
    match s.estimate {
        None => Err(ClockSyncError::EstimateUnavailable),
        Some(estimate) => match s.session_start {
            None => Err(ClockSyncError::EstimateUnavailable),
            Some(start) => {
                let h = host.0 as int;
                let elapsed = h - estimate.anchor.reference_host.0 as int;
                let minimum = if estimate.drift.min_ppb <= -s.max_slew_ppb {
                    estimate.drift.min_ppb as int
                } else {
                    -s.max_slew_ppb
                };
                let maximum = if estimate.drift.max_ppb >= s.max_slew_ppb {
                    estimate.drift.max_ppb as int
                } else {
                    s.max_slew_ppb as int
                };
                let low_ppb = if elapsed < 0 { maximum } else { minimum };
                let high_ppb = if elapsed < 0 { minimum } else { maximum };
                let low_drift = (elapsed * low_ppb) / (PARTS_PER_BILLION as int);
                let high_drift = ceil_div(elapsed * high_ppb, PARTS_PER_BILLION as int);
                let controller_low = h + (estimate.anchor.offset_min_ticks + low_drift);
                let controller_high = h + (estimate.anchor.offset_max_ticks + high_drift);
                let width = controller_high - controller_low;
                let midpoint = controller_low + trunc_quotient(width, 2);
                if h < start.0 {
                    Err(ClockSyncError::HostTickBeforeSession)
                } else if !fits_i128(-s.max_slew_ppb) || !fits_i128(elapsed * low_ppb) || !fits_i128(
                    elapsed * high_ppb,
                ) || !fits_i128(estimate.anchor.offset_min_ticks + low_drift) || !fits_i128(
                    estimate.anchor.offset_max_ticks + high_drift,
                ) || !fits_i128(controller_low) || !fits_i128(controller_high) || !fits_i128(width)
                    || !fits_i128(midpoint) {
                    Err(ClockSyncError::ArithmeticOverflow)
                } else {
                    Ok((controller_low as i128, midpoint as i128, controller_high as i128))
                }
            },
        },
    }
}

pub open spec fn spec_controller_window(s: ClockSyncState, host: HostTick) -> Result<
    ControllerWindow,
    ClockSyncError,
> {
    match spec_project(s, host) {
        Err(e) => Err(e),
        Ok((low, midpoint, high)) => if fits_u64(low as int) && fits_u64(midpoint as int)
            && fits_u64(high as int) {
            Ok(
                ControllerWindow {
                    earliest: ControllerTick(low as u64),
                    estimate: ControllerTick(midpoint as u64),
                    latest: ControllerTick(high as u64),
                },
            )
        } else {
            Err(ClockSyncError::ArithmeticOverflow)
        },
    }
}

pub open spec fn spec_uncertainty_at(s: ClockSyncState, host: HostTick) -> Result<
    u64,
    ClockSyncError,
> {
    match spec_project(s, host) {
        Err(e) => Err(e),
        Ok((low, midpoint, high)) => {
            let below = midpoint - low;
            let above = high - midpoint;
            let widest = if below >= above { below } else { above };
            if !fits_u64(low as int) || !fits_u64(midpoint as int) || !fits_u64(high as int)
                || !fits_i128(below) || !fits_i128(above) || !fits_u64(widest) {
                Err(ClockSyncError::ArithmeticOverflow)
            } else {
                Ok(widest as u64)
            }
        },
    }
}

pub open spec fn spec_resync_due(s: ClockSyncState, host_now: HostTick, interval_ticks: u64) -> bool {
    match s.estimate {
        None => true,
        Some(estimate) => host_now.0 >= estimate.sampled_at.0 && host_now.0
            - estimate.sampled_at.0 >= interval_ticks,
    }
}

impl ClockSync {
    /// Start a session with an explicit maximum absolute relative clock slew,
    /// in parts per billion.
    pub fn new(max_slew_ppb: i128) -> (result: Result<Self, ClockSyncError>)
        ensures
            match (result, spec_new_session(max_slew_ppb)) {
                (Ok(sync), Ok(state)) => sync@ == state,
                (Err(e), Err(f)) => e == f,
                _ => false,
            },
            result matches Ok(sync) ==> sync@.wf(),
    {
        if max_slew_ppb < 0 {
            return Err(ClockSyncError::InvalidSlewBound);
        }
        Ok(
            ClockSync {
                max_slew_ppb,
                session_start: None,
                previous: None,
                estimate: None,
                last_raw: None,
            },
        )
    }

    /// Add one sample. The first accepted sample establishes an anchor; every
    /// subsequent accepted sample yields a drift-bearing estimate. All
    /// validation and arithmetic complete before the session changes.
    pub fn push(&mut self, sample: ClockSample) -> (result: Result<
        Option<ClockEstimate>,
        ClockSyncError,
    >)
        ensures
            match spec_push(old(self)@, sample) {
                Err(e) => result == Err::<Option<ClockEstimate>, ClockSyncError>(e)
                    && final(self)@ == old(self)@,
                Ok(next) => result == Ok::<Option<ClockEstimate>, ClockSyncError>(next.estimate)
                    && final(self)@ == next,
            },
            final(self)@.wf(),
    {
        proof {
            use_type_invariant(&*self);
        }
        let observation = match observe_bounded(sample, self.max_slew_ppb) {
            Ok(o) => o,
            Err(e) => return Err(e),
        };
        if let Some(last) = self.last_raw {
            if sample.host_send.0 < last.host_send.0 || sample.host_receive.0
                < last.host_receive.0 {
                return Err(ClockSyncError::HostRegressed);
            }
            if sample.controller_receive.0 < last.controller_receive.0 || sample.controller_send.0
                < last.controller_send.0 {
                return Err(ClockSyncError::ControllerRegressed);
            }
        }
        let next_estimate = match self.previous {
            Some(previous) => {
                if observation.reference_host.0 <= previous.reference_host.0 {
                    return Err(ClockSyncError::InsufficientSeparation);
                }
                let drift = match estimate_drift(previous, observation) {
                    Ok(d) => d,
                    Err(e) => return Err(e),
                };
                Some(ClockEstimate { anchor: observation, drift, sampled_at: sample.host_receive })
            },
            None => None,
        };
        if self.session_start.is_none() {
            self.session_start = Some(observation.reference_host);
        }
        self.previous = Some(observation);
        self.last_raw = Some(sample);
        if let Some(estimate) = next_estimate {
            self.estimate = Some(estimate);
        }
        Ok(self.estimate)
    }

    /// The session's maximum absolute relative clock slew, in parts per billion.
    pub fn max_slew_ppb(&self) -> (ppb: i128)
        ensures
            ppb == self@.max_slew_ppb,
            self@.wf(),
    {
        proof {
            use_type_invariant(self);
        }
        self.max_slew_ppb
    }

    /// The latest drift-bearing estimate, once two samples were accepted.
    pub fn estimate(&self) -> (result: Option<&ClockEstimate>)
        ensures
            result matches Some(e) ==> self@.estimate == Some(*e),
            result is None ==> self@.estimate is None,
    {
        self.estimate.as_ref()
    }

    /// Project a host tick into the controller clock domain with
    /// conservative offset and drift bounds.
    pub fn controller_window(&self, host: HostTick) -> (result: Result<
        ControllerWindow,
        ClockSyncError,
    >)
        ensures
            result == spec_controller_window(self@, host),
            result matches Ok(w) ==> w.earliest.0 <= w.estimate.0 <= w.latest.0,
    {
        proof {
            use_type_invariant(self);
            controller_windows_are_ordered(self@, host);
        }
        let (low, midpoint, high) = match self.project(host) {
            Ok(t) => t,
            Err(e) => return Err(e),
        };
        let earliest = match to_u64(low) {
            Ok(v) => v,
            Err(e) => return Err(e),
        };
        let estimate = match to_u64(midpoint) {
            Ok(v) => v,
            Err(e) => return Err(e),
        };
        let latest = match to_u64(high) {
            Ok(v) => v,
            Err(e) => return Err(e),
        };
        Ok(
            ControllerWindow {
                earliest: ControllerTick(earliest),
                estimate: ControllerTick(estimate),
                latest: ControllerTick(latest),
            },
        )
    }

    /// The ceiling half-width of the projected controller window.
    pub fn uncertainty_at(&self, host: HostTick) -> (result: Result<u64, ClockSyncError>)
        ensures
            result == spec_uncertainty_at(self@, host),
            result matches Ok(u) ==> spec_controller_window(self@, host) matches Ok(w) && u as int == (if w.estimate.0
                - w.earliest.0 >= w.latest.0 - w.estimate.0 {
                w.estimate.0 - w.earliest.0
            } else {
                w.latest.0 - w.estimate.0
            }),
            result is Err ==> spec_controller_window(self@, host) is Err,
    {
        proof {
            use_type_invariant(self);
            uncertainty_is_the_window_half_width(self@, host);
        }
        let (low, midpoint, high) = match self.project(host) {
            Ok(t) => t,
            Err(e) => return Err(e),
        };
        if let Err(e) = to_u64(low) {
            return Err(e);
        }
        if let Err(e) = to_u64(midpoint) {
            return Err(e);
        }
        if let Err(e) = to_u64(high) {
            return Err(e);
        }
        let below = match midpoint.checked_sub(low) {
            Some(v) => v,
            None => return Err(ClockSyncError::ArithmeticOverflow),
        };
        let above = match high.checked_sub(midpoint) {
            Some(v) => v,
            None => return Err(ClockSyncError::ArithmeticOverflow),
        };
        to_u64(if below >= above { below } else { above })
    }

    /// Whether a synchronization exchange is needed at `host_now`. A session
    /// without a complete estimate is always due; a tick before the latest
    /// completed sample is not elapsed time.
    pub fn resync_due(&self, host_now: HostTick, interval_ticks: u64) -> (due: bool)
        ensures
            due == spec_resync_due(self@, host_now, interval_ticks),
    {
        match self.estimate {
            None => true,
            Some(estimate) => match host_now.0.checked_sub(estimate.sampled_at.0) {
                Some(elapsed) => elapsed >= interval_ticks,
                None => false,
            },
        }
    }

    /// Projection `(earliest, midpoint, latest)` in controller ticks.
    fn project(&self, host: HostTick) -> (result: Result<(i128, i128, i128), ClockSyncError>)
        ensures
            result == spec_project(self@, host),
    {
        let estimate = match self.estimate {
            Some(e) => e,
            None => return Err(ClockSyncError::EstimateUnavailable),
        };
        let session_start = match self.session_start {
            Some(s) => s,
            None => return Err(ClockSyncError::EstimateUnavailable),
        };
        if host.0 < session_start.0 {
            return Err(ClockSyncError::HostTickBeforeSession);
        }
        let elapsed = match (host.0 as i128).checked_sub(estimate.anchor.reference_host.0 as i128) {
            Some(v) => v,
            None => return Err(ClockSyncError::ArithmeticOverflow),
        };
        let physical_min_ppb = match 0i128.checked_sub(self.max_slew_ppb) {
            Some(v) => v,
            None => return Err(ClockSyncError::ArithmeticOverflow),
        };
        let minimum_ppb = if estimate.drift.min_ppb <= physical_min_ppb {
            estimate.drift.min_ppb
        } else {
            physical_min_ppb
        };
        let maximum_ppb = if estimate.drift.max_ppb >= self.max_slew_ppb {
            estimate.drift.max_ppb
        } else {
            self.max_slew_ppb
        };
        let (low_ppb, high_ppb) = if elapsed < 0 {
            (maximum_ppb, minimum_ppb)
        } else {
            (minimum_ppb, maximum_ppb)
        };
        let low_scaled = match elapsed.checked_mul(low_ppb) {
            Some(v) => v,
            None => return Err(ClockSyncError::ArithmeticOverflow),
        };
        let low_drift = match div_floor(low_scaled, PARTS_PER_BILLION) {
            Ok(v) => v,
            Err(e) => return Err(e),
        };
        let high_scaled = match elapsed.checked_mul(high_ppb) {
            Some(v) => v,
            None => return Err(ClockSyncError::ArithmeticOverflow),
        };
        let high_drift = match div_ceil(high_scaled, PARTS_PER_BILLION) {
            Ok(v) => v,
            Err(e) => return Err(e),
        };
        let offset_low = match estimate.anchor.offset_min_ticks.checked_add(low_drift) {
            Some(v) => v,
            None => return Err(ClockSyncError::ArithmeticOverflow),
        };
        let offset_high = match estimate.anchor.offset_max_ticks.checked_add(high_drift) {
            Some(v) => v,
            None => return Err(ClockSyncError::ArithmeticOverflow),
        };
        let host_value = host.0 as i128;
        let controller_low = match host_value.checked_add(offset_low) {
            Some(v) => v,
            None => return Err(ClockSyncError::ArithmeticOverflow),
        };
        let controller_high = match host_value.checked_add(offset_high) {
            Some(v) => v,
            None => return Err(ClockSyncError::ArithmeticOverflow),
        };
        let width = match controller_high.checked_sub(controller_low) {
            Some(v) => v,
            None => return Err(ClockSyncError::ArithmeticOverflow),
        };
        let half = match width.checked_div(2) {
            Some(v) => v,
            None => return Err(ClockSyncError::ArithmeticOverflow),
        };
        let midpoint = match controller_low.checked_add(half) {
            Some(v) => v,
            None => return Err(ClockSyncError::ArithmeticOverflow),
        };
        Ok((controller_low, midpoint, controller_high))
    }
}

// ---------------------------------------------------------------------------
// Laws
// ---------------------------------------------------------------------------

/// An accepted observation's midpoint lies inside its offset interval.
pub proof fn observation_midpoint_is_bracketed(sample: ClockSample)
    ensures
        spec_observe(sample) matches Ok(o) ==> o.offset_min_ticks <= o.offset_ticks
            <= o.offset_max_ticks,
{
}

/// Whatever the path asymmetry, any true offset under which the controller's
/// receive and send events happen inside the host exchange lies inside the
/// observed interval.
pub proof fn causal_offsets_lie_inside_the_observation(sample: ClockSample, offset: int)
    requires
        sample.host_send.0 as int <= sample.controller_receive.0 as int - offset,
        sample.controller_send.0 as int - offset <= sample.host_receive.0 as int,
    ensures
        spec_observe(sample) matches Ok(o) ==> o.offset_min_ticks <= offset
            <= o.offset_max_ticks,
{
}

/// With a nonnegative slew bound, the bounded interval contains the nominal
/// interval of the same sample, and its midpoint is bracketed.
pub proof fn bounded_observation_widens_the_nominal_interval(
    sample: ClockSample,
    max_slew_ppb: i128,
)
    requires
        max_slew_ppb >= 0,
    ensures
        spec_observe_bounded(sample, max_slew_ppb) matches Ok(b) ==> {
            &&& b.offset_min_ticks <= b.offset_ticks <= b.offset_max_ticks
            &&& b.offset_min_ticks <= sample.controller_send.0 as int
                - sample.host_receive.0 as int
            &&& sample.controller_receive.0 as int - sample.host_send.0 as int
                <= b.offset_max_ticks
        },
        spec_observe(sample) is Ok && fits_i128(
            (sample.host_receive.0 as int - sample.host_send.0 as int) * max_slew_ppb,
        ) ==> spec_observe_bounded(sample, max_slew_ppb) is Ok,
{
    let t0 = sample.host_send.0 as int;
    let t3 = sample.host_receive.0 as int;
    let span = (t3 - t0) * max_slew_ppb;
    if t3 >= t0 {
        assert(span >= 0) by (nonlinear_arith)
            requires
                t3 - t0 >= 0,
                max_slew_ppb >= 0,
                span == (t3 - t0) * max_slew_ppb,
        ;
        lemma_ceil_nonnegative(span, MIDPOINT_SLEW_DENOMINATOR as int);
        if fits_i128(span) {
            assert(span <= i128::MAX);
            lemma_ceil_at_most(span, MIDPOINT_SLEW_DENOMINATOR as int);
        }
    }
}

proof fn lemma_ceil_nonnegative(n: int, d: int)
    requires
        n >= 0,
        d > 0,
    ensures
        ceil_div(n, d) >= 0,
{
    lemma_fundamental_div_mod(-n, d);
    lemma_mod_bound(-n, d);
    assert((-n) / d <= 0) by (nonlinear_arith)
        requires
            -n == d * ((-n) / d) + (-n) % d,
            0 <= (-n) % d < d,
            n >= 0,
            d > 0,
    ;
}

proof fn lemma_ceil_at_most(n: int, d: int)
    requires
        n >= 0,
        d > 0,
    ensures
        ceil_div(n, d) <= n,
{
    lemma_fundamental_div_mod(-n, d);
    lemma_mod_bound(-n, d);
    assert(-((-n) / d) <= n) by (nonlinear_arith)
        requires
            -n == d * ((-n) / d) + (-n) % d,
            0 <= (-n) % d < d,
            n >= 0,
            d > 0,
    ;
}

/// Floor of `a / d` never exceeds ceiling of `b / d` when `a <= b`.
proof fn lemma_floor_le_ceil(a: int, b: int, d: int)
    requires
        a <= b,
        d > 0,
    ensures
        a / d <= ceil_div(b, d),
{
    lemma_div_is_ordered(a, b, d);
    lemma_fundamental_div_mod(b, d);
    lemma_mod_bound(b, d);
    lemma_fundamental_div_mod(-b, d);
    lemma_mod_bound(-b, d);
    assert(b / d + (-b) / d <= 0) by (nonlinear_arith)
        requires
            b == d * (b / d) + b % d,
            -b == d * ((-b) / d) + (-b) % d,
            0 <= b % d < d,
            0 <= (-b) % d < d,
            d > 0,
    ;
}

/// Every projected controller window of a reachable session is ordered:
/// earliest, then the estimate, then latest.
pub proof fn controller_windows_are_ordered(s: ClockSyncState, host: HostTick)
    requires
        s.wf(),
    ensures
        spec_project(s, host) matches Ok((low, mid, high)) ==> low <= mid <= high,
        spec_controller_window(s, host) matches Ok(w) ==> w.earliest.0 <= w.estimate.0
            <= w.latest.0,
{
    if let Some(estimate) = s.estimate {
        let h = host.0 as int;
        let elapsed = h - estimate.anchor.reference_host.0 as int;
        let minimum = if estimate.drift.min_ppb <= -s.max_slew_ppb {
            estimate.drift.min_ppb as int
        } else {
            -s.max_slew_ppb
        };
        let maximum = if estimate.drift.max_ppb >= s.max_slew_ppb {
            estimate.drift.max_ppb as int
        } else {
            s.max_slew_ppb as int
        };
        let low_ppb = if elapsed < 0 { maximum } else { minimum };
        let high_ppb = if elapsed < 0 { minimum } else { maximum };
        assert(minimum <= maximum);
        assert(elapsed * low_ppb <= elapsed * high_ppb) by (nonlinear_arith)
            requires
                minimum <= maximum,
                low_ppb == (if elapsed < 0 { maximum } else { minimum }),
                high_ppb == (if elapsed < 0 { minimum } else { maximum }),
        ;
        lemma_floor_le_ceil(
            elapsed * low_ppb,
            elapsed * high_ppb,
            PARTS_PER_BILLION as int,
        );
        let width = (h + (estimate.anchor.offset_max_ticks + ceil_div(
            elapsed * high_ppb,
            PARTS_PER_BILLION as int,
        ))) - (h + (estimate.anchor.offset_min_ticks + (elapsed * low_ppb) / (
        PARTS_PER_BILLION as int)));
        assert(width >= 0);
        assert(trunc_quotient(width, 2) == width / 2);
        assert(0 <= width / 2 <= width);
    }
}

/// The reported uncertainty is the larger distance from the projected
/// estimate to either end of the projected window.
pub proof fn uncertainty_is_the_window_half_width(s: ClockSyncState, host: HostTick)
    requires
        s.wf(),
    ensures
        spec_uncertainty_at(s, host) matches Ok(u) ==> spec_controller_window(s, host) matches Ok(
            w,
        ) && u as int == (if w.estimate.0 - w.earliest.0 >= w.latest.0 - w.estimate.0 {
            w.estimate.0 - w.earliest.0
        } else {
            w.latest.0 - w.estimate.0
        }),
        spec_controller_window(s, host) is Ok ==> spec_uncertainty_at(s, host) is Ok,
{
    controller_windows_are_ordered(s, host);
}

/// Once a resynchronization is due, it stays due as host time advances.
pub proof fn resync_due_is_monotone(
    s: ClockSyncState,
    earlier: HostTick,
    later: HostTick,
    interval_ticks: u64,
)
    requires
        earlier.0 <= later.0,
        spec_resync_due(s, earlier, interval_ticks),
    ensures
        spec_resync_due(s, later, interval_ticks),
{
}

/// A rejected sample leaves a session's observable state unchanged, and an
/// accepted one keeps a reachable session reachable.
pub proof fn push_keeps_sessions_well_formed(s: ClockSyncState, sample: ClockSample)
    requires
        s.wf(),
    ensures
        spec_push(s, sample) matches Ok(next) ==> next.wf() && next.max_slew_ppb
            == s.max_slew_ppb && next.last_raw == Some(sample),
{
}

/// Rounding to nearest lies between the floor and the ceiling.
proof fn lemma_round_between(x: int, d: int)
    requires
        d > 0,
    ensures
        x / d <= round_half_away(x, d) <= ceil_div(x, d),
{
    if x >= 0 {
        lemma_fundamental_div_mod(x, d);
        lemma_mod_bound(x, d);
        let q = x / d;
        let r = x % d;
        if r == 0 {
            assert(-x == (-q) * d + 0) by (nonlinear_arith)
                requires
                    x == d * q + r,
                    r == 0,
            ;
            lemma_fundamental_div_mod_converse(-x, d, -q, 0);
        } else {
            assert(-x == (-q - 1) * d + (d - r)) by (nonlinear_arith)
                requires
                    x == d * q + r,
            ;
            lemma_fundamental_div_mod_converse(-x, d, -q - 1, d - r);
        }
        if 2 * r < d {
            assert(2 * x + d == q * (2 * d) + (2 * r + d)) by (nonlinear_arith)
                requires
                    x == d * q + r,
            ;
            lemma_fundamental_div_mod_converse(2 * x + d, 2 * d, q, 2 * r + d);
        } else {
            assert(2 * x + d == (q + 1) * (2 * d) + (2 * r - d)) by (nonlinear_arith)
                requires
                    x == d * q + r,
            ;
            lemma_fundamental_div_mod_converse(2 * x + d, 2 * d, q + 1, 2 * r - d);
        }
    } else {
        let y = -x;
        lemma_fundamental_div_mod(y, d);
        lemma_mod_bound(y, d);
        let q = y / d;
        let r = y % d;
        if r == 0 {
            assert(x == (-q) * d + 0) by (nonlinear_arith)
                requires
                    y == d * q + r,
                    r == 0,
                    x == -y,
            ;
            lemma_fundamental_div_mod_converse(x, d, -q, 0);
        } else {
            assert(x == (-q - 1) * d + (d - r)) by (nonlinear_arith)
                requires
                    y == d * q + r,
                    x == -y,
            ;
            lemma_fundamental_div_mod_converse(x, d, -q - 1, d - r);
        }
        if 2 * r < d {
            assert(2 * y + d == q * (2 * d) + (2 * r + d)) by (nonlinear_arith)
                requires
                    y == d * q + r,
            ;
            lemma_fundamental_div_mod_converse(2 * y + d, 2 * d, q, 2 * r + d);
        } else {
            assert(2 * y + d == (q + 1) * (2 * d) + (2 * r - d)) by (nonlinear_arith)
                requires
                    y == d * q + r,
            ;
            lemma_fundamental_div_mod_converse(2 * y + d, 2 * d, q + 1, 2 * r - d);
        }
    }
}

/// Drift bounds round outward: when both observations bracket their
/// midpoints, the point drift lies between the minimum and maximum drift.
pub proof fn drift_bounds_bracket_the_point_estimate(
    previous: OffsetObservation,
    current: OffsetObservation,
)
    requires
        previous.offset_min_ticks <= previous.offset_ticks <= previous.offset_max_ticks,
        current.offset_min_ticks <= current.offset_ticks <= current.offset_max_ticks,
    ensures
        spec_estimate_drift(previous, current) matches Ok(drift) ==> drift.min_ppb <= drift.ppb
            <= drift.max_ppb,
{
    let baseline = current.reference_host.0 as int - previous.reference_host.0 as int;
    let ppb = PARTS_PER_BILLION as int;
    let point = current.offset_ticks - previous.offset_ticks;
    let minimum = current.offset_min_ticks - previous.offset_max_ticks;
    let maximum = current.offset_max_ticks - previous.offset_min_ticks;
    if baseline > 0 {
        assert(minimum * ppb <= point * ppb <= maximum * ppb) by (nonlinear_arith)
            requires
                minimum <= point <= maximum,
                ppb > 0,
        ;
        lemma_round_between(point * ppb, baseline);
        lemma_div_is_ordered(minimum * ppb, point * ppb, baseline);
        lemma_floor_le_ceil(point * ppb, maximum * ppb, baseline);
        lemma_ceil_monotone(point * ppb, maximum * ppb, baseline);
        if fits_i128(point * ppb) && fits_i128(minimum * ppb) && fits_i128(maximum * ppb) {
            lemma_div_floor_positive((minimum * ppb) as i128, baseline as i128);
            lemma_div_round_positive((point * ppb) as i128, baseline as i128);
            lemma_div_ceil_positive((maximum * ppb) as i128, baseline as i128);
        }
    }
}

proof fn lemma_ceil_monotone(a: int, b: int, d: int)
    requires
        a <= b,
        d > 0,
    ensures
        ceil_div(a, d) <= ceil_div(b, d),
{
    lemma_div_is_ordered(-b, -a, d);
}

/// Once a session holds an observation, an accepted push brings an
/// estimate stamped with the sample's host receive tick: its anchor
/// interval brackets its midpoint and contains the sample's own interval
/// `[c2 - t3, c1 - t0]`, its baseline is positive, and its drift bounds
/// bracket the point drift.
pub proof fn pushed_estimates_bracket_their_sample(s: ClockSyncState, sample: ClockSample)
    requires
        s.max_slew_ppb >= 0,
        s.previous matches Some(p) ==> p.offset_min_ticks <= p.offset_ticks <= p.offset_max_ticks,
    ensures
        s.previous is Some ==> (spec_push(s, sample) matches Ok(t) ==> (t.estimate matches Some(e) && {
            &&& e.sampled_at == sample.host_receive
            &&& e.anchor.offset_min_ticks <= e.anchor.offset_ticks <= e.anchor.offset_max_ticks
            &&& e.anchor.offset_min_ticks <= sample.controller_send.0 as int
                - sample.host_receive.0 as int
            &&& sample.controller_receive.0 as int - sample.host_send.0 as int
                <= e.anchor.offset_max_ticks
            &&& e.drift.baseline_ticks > 0
            &&& e.drift.min_ppb <= e.drift.ppb <= e.drift.max_ppb
        })),
{
    bounded_observation_widens_the_nominal_interval(sample, s.max_slew_ppb);
    match spec_observe_bounded(sample, s.max_slew_ppb) {
        Ok(b) => match s.previous {
            Some(p) => drift_bounds_bracket_the_point_estimate(p, b),
            None => {},
        },
        Err(_) => {},
    }
}

/// The state after pushing the samples in order; a rejected push leaves
/// the state as it was.
pub open spec fn sync_run(s: ClockSyncState, samples: Seq<ClockSample>) -> ClockSyncState
    decreases samples.len(),
{
    if samples.len() == 0 {
        s
    } else {
        let before = sync_run(s, samples.drop_last());
        match spec_push(before, samples.last()) {
            Ok(next) => next,
            Err(_) => before,
        }
    }
}

/// How many of the pushes were accepted.
pub open spec fn accepted_pushes(s: ClockSyncState, samples: Seq<ClockSample>) -> nat
    decreases samples.len(),
{
    if samples.len() == 0 {
        0
    } else {
        accepted_pushes(s, samples.drop_last()) + if spec_push(
            sync_run(s, samples.drop_last()),
            samples.last(),
        ) is Ok {
            1nat
        } else {
            0nat
        }
    }
}

/// From a fresh estimator, the estimate exists exactly once two pushes
/// have been accepted: the first accepted push only records an
/// observation, and rejected pushes change nothing.
pub proof fn estimate_needs_two_accepted_pushes(s: ClockSyncState, samples: Seq<ClockSample>)
    requires
        s.previous is None,
        s.estimate is None,
    ensures
        sync_run(s, samples).estimate is None <==> accepted_pushes(s, samples) < 2,
        sync_run(s, samples).previous is None <==> accepted_pushes(s, samples) == 0,
    decreases samples.len(),
{
    if samples.len() > 0 {
        estimate_needs_two_accepted_pushes(s, samples.drop_last());
    }
}

} // verus!
