//! Configurable, validated expiry policy for queued envelopes: how long each
//! [`TxPriority`] may wait before it is too stale to dispatch.
//!
//! | Tier      | Default    | Reasoning |
//! |-----------|------------|-----------|
//! | Emergency | 5 minutes  | An emergency payment that waits longer has failed its purpose. |
//! | Normal    | 1 hour     | Covers typical between-session gaps on a personal device. |
//! | Low       | 24 hours   | Expected to wait out connectivity droughts. |
//!
//! A policy where a more urgent tier outlives a less urgent one, or where a window
//! is zero or beyond a week, is rejected at construction.
use crate::errors::SyncEngineError;
use crate::queue::priority::TxPriority;
use crate::text::{append_decimal, decimal};
use vstd::prelude::*;
use vstd::string::*;

verus! {

/// Upper sanity bound: no queued envelope may be configured to live longer than a
/// week.
pub const MAX_EXPIRY_SECS: u64 = 604800;

/// Per-priority expiry windows for queued envelopes.
#[derive(Debug, Clone, Copy, PartialEq, Eq, Structural)]
pub struct ExpiryPolicy {
    low_secs: u64,
    normal_secs: u64,
    emergency_secs: u64,
}

/// Whether three windows make a policy.
pub open spec fn is_policy(low_secs: u64, normal_secs: u64, emergency_secs: u64) -> bool {
    0 < emergency_secs <= normal_secs <= low_secs <= MAX_EXPIRY_SECS
}

/// Why three windows do not make a policy.
pub open spec fn policy_fault(
    low_secs: u64,
    normal_secs: u64,
    emergency_secs: u64,
) -> Seq<char> {
    if low_secs == 0 || normal_secs == 0 || emergency_secs == 0 {
        "expiry windows must be non-zero; a zero window means the tier can never be dispatched"@
    } else if emergency_secs > normal_secs {
        "emergency expiry ("@ + decimal(emergency_secs as nat) + "s) exceeds normal expiry ("@
            + decimal(normal_secs as nat)
            + "s); higher-urgency tiers must not outlive lower-urgency ones"@
    } else if normal_secs > low_secs {
        "normal expiry ("@ + decimal(normal_secs as nat) + "s) exceeds low expiry ("@ + decimal(
            low_secs as nat,
        ) + "s); higher-urgency tiers must not outlive lower-urgency ones"@
    } else {
        "low expiry "@ + decimal(low_secs as nat) + "s exceeds the sanity ceiling of "@ + decimal(
            MAX_EXPIRY_SECS as nat,
        ) + "s (one week); check for a ms-vs-s units mistake"@
    }
}

impl ExpiryPolicy {
    /// The window of a tier.
    pub closed spec fn window(self, priority: TxPriority) -> u64 {
        match priority {
            TxPriority::Low => self.low_secs,
            TxPriority::Normal => self.normal_secs,
            TxPriority::Emergency => self.emergency_secs,
        }
    }

    /// The windows make a policy.
    pub open spec fn wf(self) -> bool {
        is_policy(
            self.window(TxPriority::Low),
            self.window(TxPriority::Normal),
            self.window(TxPriority::Emergency),
        )
    }

    /// Validates and constructs a custom policy: every window is positive, none
    /// exceeds [`MAX_EXPIRY_SECS`], and a more urgent tier does not outlive a less
    /// urgent one.
    pub fn new(low_secs: u64, normal_secs: u64, emergency_secs: u64) -> (r: Result<
        Self,
        SyncEngineError,
    >)
        ensures
            r is Ok <==> is_policy(low_secs, normal_secs, emergency_secs),
            r matches Ok(p) ==> {
                &&& p.wf()
                &&& p.window(TxPriority::Low) == low_secs
                &&& p.window(TxPriority::Normal) == normal_secs
                &&& p.window(TxPriority::Emergency) == emergency_secs
            },
            r matches Err(e) ==> e matches SyncEngineError::InvalidExpiryPolicy(msg) && msg@
                == policy_fault(low_secs, normal_secs, emergency_secs),
    {
        if low_secs == 0 || normal_secs == 0 || emergency_secs == 0 {
            return Err(
                SyncEngineError::InvalidExpiryPolicy(
                    "expiry windows must be non-zero; a zero window means the tier can never be dispatched".to_owned(),
                ),
            );
        }
        if emergency_secs > normal_secs {
            let mut s: String = "emergency expiry (".to_owned();
            append_decimal(&mut s, emergency_secs);
            s.append("s) exceeds normal expiry (");
            append_decimal(&mut s, normal_secs);
            s.append("s); higher-urgency tiers must not outlive lower-urgency ones");
            return Err(SyncEngineError::InvalidExpiryPolicy(s));
        }
        if normal_secs > low_secs {
            let mut s: String = "normal expiry (".to_owned();
            append_decimal(&mut s, normal_secs);
            s.append("s) exceeds low expiry (");
            append_decimal(&mut s, low_secs);
            s.append("s); higher-urgency tiers must not outlive lower-urgency ones");
            return Err(SyncEngineError::InvalidExpiryPolicy(s));
        }
        if low_secs > MAX_EXPIRY_SECS {
            let mut s: String = "low expiry ".to_owned();
            append_decimal(&mut s, low_secs);
            s.append("s exceeds the sanity ceiling of ");
            append_decimal(&mut s, MAX_EXPIRY_SECS);
            s.append("s (one week); check for a ms-vs-s units mistake");
            return Err(SyncEngineError::InvalidExpiryPolicy(s));
        }
        Ok(ExpiryPolicy { low_secs, normal_secs, emergency_secs })
    }

    /// The documented default policy: Emergency 5 minutes, Normal 1 hour, Low 24
    /// hours.
    pub fn default_policy() -> (p: Self)
        ensures
            p.wf(),
            p.window(TxPriority::Low) == 86400,
            p.window(TxPriority::Normal) == 3600,
            p.window(TxPriority::Emergency) == 300,
    {
        ExpiryPolicy { low_secs: 24 * 60 * 60, normal_secs: 60 * 60, emergency_secs: 5 * 60 }
    }

    /// Expiry window (in seconds) for the given priority tier.
    pub fn expiry_for(&self, priority: TxPriority) -> (secs: u64)
        ensures
            secs == self.window(priority),
    {
        match priority {
            TxPriority::Low => self.low_secs,
            TxPriority::Normal => self.normal_secs,
            TxPriority::Emergency => self.emergency_secs,
        }
    }

    /// Whether an envelope enqueued at `enqueued_at` is expired at `now`: its age
    /// is at or past its tier's window. An envelope from the future never is.
    pub open spec fn expired(self, priority: TxPriority, enqueued_at: u64, now: u64) -> bool {
        now >= enqueued_at && now - enqueued_at >= self.window(priority)
    }

    /// Whether an envelope of `priority`, enqueued at unix second `enqueued_at`, is
    /// expired as of unix second `now`.
    pub fn is_expired(&self, priority: TxPriority, enqueued_at: u64, now: u64) -> (r: bool)
        ensures
            r == self.expired(priority, enqueued_at, now),
    {
        if now < enqueued_at {
            return false;
        }
        now - enqueued_at >= self.expiry_for(priority)
    }
}

impl Default for ExpiryPolicy {
    fn default() -> (p: Self)
        ensures
            p.wf(),
            p.window(TxPriority::Low) == 86400,
            p.window(TxPriority::Normal) == 3600,
            p.window(TxPriority::Emergency) == 300,
    {
        Self::default_policy()
    }
}

/// A more urgent tier never outlives a less urgent one: what is expired at a tier is
/// expired at every more urgent one.
pub proof fn urgent_tiers_expire_first(
    policy: ExpiryPolicy,
    urgent: TxPriority,
    other: TxPriority,
    enqueued_at: u64,
    now: u64,
)
    requires
        policy.wf(),
        urgent.rank() >= other.rank(),
        policy.expired(other, enqueued_at, now),
    ensures
        policy.expired(urgent, enqueued_at, now),
{
}

/// Once expired, an envelope stays expired; and none is expired at the moment it is
/// queued.
pub proof fn expiry_is_final(
    policy: ExpiryPolicy,
    priority: TxPriority,
    enqueued_at: u64,
    now: u64,
    later: u64,
)
    requires
        policy.wf(),
        now <= later,
    ensures
        policy.expired(priority, enqueued_at, now) ==> policy.expired(priority, enqueued_at, later),
        !policy.expired(priority, enqueued_at, enqueued_at),
{
}

/// An envelope expires at the second at which it is as old as its tier's window, and not a
/// second before.
pub proof fn envelopes_expire_at_their_window(
    policy: ExpiryPolicy,
    priority: TxPriority,
    enqueued_at: u64,
    now: u64,
)
    requires
        policy.wf(),
    ensures
        now >= enqueued_at + policy.window(priority) ==> policy.expired(priority, enqueued_at, now),
        now < enqueued_at + policy.window(priority) ==> !policy.expired(priority, enqueued_at, now),
{
}

/// Three windows are refused where one is zero, where a more urgent tier outlives a less
/// urgent one, or where the longest exceeds a week, and accepted otherwise.
pub proof fn policies_are_ordered_and_bounded(low_secs: u64, normal_secs: u64, emergency_secs: u64)
    ensures
        low_secs == 0 || normal_secs == 0 || emergency_secs == 0 ==> !is_policy(
            low_secs,
            normal_secs,
            emergency_secs,
        ),
        emergency_secs > normal_secs || normal_secs > low_secs || low_secs > 7 * 24 * 3600
            ==> !is_policy(low_secs, normal_secs, emergency_secs),
        emergency_secs >= 1 && normal_secs >= emergency_secs && low_secs >= normal_secs && low_secs
            <= 7 * 24 * 3600 ==> is_policy(low_secs, normal_secs, emergency_secs),
{
}

} // verus!
