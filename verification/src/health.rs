//! Health supervision.
//!
//! The relayer is healthy while slot updates keep arriving.  A monitor
//! records the time of the last slot seen and, on each periodic tick,
//! decides the health state from how long ago that was.  The health state
//! gates authentication and subscriptions, and an unhealthy tick
//! disconnects every subscriber.

use vstd::prelude::*;

verus! {

/// Health of the relayer, derived from slot freshness.
#[derive(PartialEq, Eq, Structural, Clone, Copy, Debug)]
pub enum HealthState {
    /// No recent slot updates: reject new work and drop subscribers.
    Unhealthy,
    /// Slot updates are arriving: accept connections and requests.
    Healthy,
}

/// Error classes surfaced to callers of the authentication and
/// subscription entry points.
#[derive(PartialEq, Eq, Structural, Clone, Copy, Debug)]
pub enum StatusError {
    /// The relayer is unhealthy or an internal step failed.
    Internal,
    /// A request field was malformed.
    InvalidArgument,
    /// The caller is not allowed to do this.
    PermissionDenied,
    /// A capacity limit was reached.
    ResourceExhausted,
    /// No valid token accompanied the request.
    Unauthenticated,
}

/// Slot-freshness monitor: remembers when the last slot arrived.
/// Times are microseconds from an arbitrary monotonic origin.
pub struct HealthManager {
    last_update_micros: u64,
}

impl HealthManager {
    /// When the last slot arrived.
    pub closed spec fn last_update(&self) -> u64 {
        self.last_update_micros
    }

    /// A monitor that saw its last slot at `now_micros` (start of
    /// monitoring counts as an update).
    pub fn new(now_micros: u64) -> (r: HealthManager)
        ensures
            r.last_update() == now_micros,
    {
        HealthManager { last_update_micros: now_micros }
    }

    /// A slot arrived: remember when, and hand the same slot back for the
    /// downstream stream (the monitor republishes what it receives).
    pub fn on_slot(&mut self, slot: u64, now_micros: u64) -> (r: u64)
        ensures
            final(self).last_update() == now_micros,
            r == slot,
    {
        self.last_update_micros = now_micros;
        slot
    }

    /// Periodic tick: healthy iff a slot arrived within the threshold.
    pub fn evaluate(&self, now_micros: u64, threshold_micros: u64) -> (r: HealthState)
        requires
            self.last_update() <= now_micros,
        ensures
            r == HealthState::Healthy <==> now_micros - self.last_update()
                <= threshold_micros,
            r == HealthState::Healthy || r == HealthState::Unhealthy,
    {
        if now_micros - self.last_update_micros <= threshold_micros {
            HealthState::Healthy
        } else {
            HealthState::Unhealthy
        }
    }
}

/// Admission gate: anything health-gated fails with an internal error
/// unless the relayer is healthy.
pub fn check_health(health_state: HealthState) -> (r: Result<(), StatusError>)
    ensures
        r is Ok <==> health_state == HealthState::Healthy,
        r is Err ==> r->Err_0 == StatusError::Internal,
{
    if health_state == HealthState::Healthy {
        Ok(())
    } else {
        Err(StatusError::Internal)
    }
}

} // verus!
