//! Wall-clock instants as plain values.

use vstd::prelude::*;

verus! {

/// Nanoseconds in one second.
pub const NANOS_PER_SEC: u32 = 1_000_000_000;

/// A wall-clock instant, as an offset from the Unix epoch.
#[derive(Clone, Copy, Debug, PartialEq, Eq, Structural)]
pub struct Timestamp {
    pub secs_since_epoch: u64,
    pub nanos_since_epoch: u32,
}

impl Timestamp {
    /// The sub-second part is below one second.
    pub open spec fn wf(self) -> bool {
        self.nanos_since_epoch < NANOS_PER_SEC
    }

    /// The instant in nanoseconds since the epoch.
    pub open spec fn as_nanos(self) -> int {
        self.secs_since_epoch * 1_000_000_000 + self.nanos_since_epoch
    }

    /// Chronological order: by seconds, then by the sub-second part.
    pub open spec fn le(self, other: Timestamp) -> bool {
        self.secs_since_epoch < other.secs_since_epoch || (self.secs_since_epoch
            == other.secs_since_epoch && self.nanos_since_epoch <= other.nanos_since_epoch)
    }

    /// The instant `secs` seconds and `nanos` nanoseconds after `self`,
    /// normalised.
    pub open spec fn plus(self, secs: int, nanos: int) -> Timestamp {
        Timestamp {
            secs_since_epoch: (self.secs_since_epoch + secs + (self.nanos_since_epoch + nanos)
                / 1_000_000_000) as u64,
            nanos_since_epoch: ((self.nanos_since_epoch + nanos) % 1_000_000_000) as u32,
        }
    }

    /// The instant `secs` seconds and `nanos` nanoseconds later fits in a
    /// `Timestamp`.
    pub open spec fn can_add(self, secs: u64, nanos: u32) -> bool {
        self.secs_since_epoch + secs + (self.nanos_since_epoch + nanos) / 1_000_000_000
            <= u64::MAX
    }

    pub fn new(secs_since_epoch: u64, nanos_since_epoch: u32) -> (r: Option<Timestamp>)
        ensures
            r is Some <==> nanos_since_epoch < NANOS_PER_SEC,
            r matches Some(t) ==> t.secs_since_epoch == secs_since_epoch
                && t.nanos_since_epoch == nanos_since_epoch,
    {
        if nanos_since_epoch < NANOS_PER_SEC {
            Some(Timestamp { secs_since_epoch, nanos_since_epoch })
        } else {
            None
        }
    }

    /// The instant `secs` seconds and `nanos` nanoseconds after `self`, or
    /// `None` where it lies beyond the last representable instant.
    pub fn checked_add(self, secs: u64, nanos: u32) -> (r: Option<Timestamp>)
        ensures
            r is Some <==> self.can_add(secs, nanos),
            r matches Some(t) ==> t == self.plus(secs as int, nanos as int) && t.wf(),
            self.wf() ==> (r matches Some(t) ==> t.as_nanos() == self.as_nanos() + secs
                * 1_000_000_000 + nanos),
    {
        let total_nanos: u64 = self.nanos_since_epoch as u64 + nanos as u64;
        let carry: u64 = total_nanos / (NANOS_PER_SEC as u64);
        let rem: u64 = total_nanos % (NANOS_PER_SEC as u64);
        match self.secs_since_epoch.checked_add(secs) {
            None => None,
            Some(s) => match s.checked_add(carry) {
                None => None,
                Some(s) => Some(Timestamp { secs_since_epoch: s, nanos_since_epoch: rem as u32 }),
            },
        }
    }

    /// Whether `self` is at or before `other`.
    pub fn is_at_or_before(self, other: Timestamp) -> (r: bool)
        ensures
            r == self.le(other),
            self.wf() && other.wf() ==> r == (self.as_nanos() <= other.as_nanos()),
    {
        if self.secs_since_epoch < other.secs_since_epoch {
            true
        } else if self.secs_since_epoch == other.secs_since_epoch {
            self.nanos_since_epoch <= other.nanos_since_epoch
        } else {
            false
        }
    }
}

} // verus!

verus! {

#[verifier::external_type_specification]
#[verifier::external_body]
pub struct ExSystemTime(std::time::SystemTime);

/// Relies on std's `SystemTime::now`: the current wall-clock time. Nothing
/// is known of its value.
#[verifier::external_body]
fn system_time_now() -> std::time::SystemTime {
    std::time::SystemTime::now()
}

/// Relies on std's `SystemTime::duration_since(UNIX_EPOCH)`: the offset of
/// `t` from the Unix epoch, whose sub-second part `Duration` keeps below one
/// second; `None` where `t` lies before the epoch.
#[verifier::external_body]
fn since_unix_epoch(t: &std::time::SystemTime) -> (r: Option<Timestamp>)
    ensures
        r matches Some(ts) ==> ts.wf(),
{
    match t.duration_since(std::time::UNIX_EPOCH) {
        Ok(d) => Some(Timestamp { secs_since_epoch: d.as_secs(), nanos_since_epoch: d.subsec_nanos() }),
        Err(_) => None,
    }
}

/// The current wall-clock time, or `None` while the clock reads before the
/// Unix epoch.
pub fn now() -> (r: Option<Timestamp>)
    ensures
        r matches Some(t) ==> t.wf(),
{
    since_unix_epoch(&system_time_now())
}

} // verus!
