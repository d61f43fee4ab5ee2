//! The host's local time zone: what offset it has at a UTC instant, and which
//! UTC instants a local wall-clock time stands for.

use chrono::{DateTime, Local, MappedLocalTime, TimeZone};
use vstd::prelude::*;
use crate::error::LedgerError;

verus! {

/// The largest distance from the epoch, in seconds, at which the host's time
/// zone is consulted. It lies inside the range of dates the calendar holds.
pub const ZONE_RANGE_SECONDS: i64 = 8_000_000_000_000;

/// How many minutes past a skipped local time are probed for one that exists.
pub const PROBE_MINUTES: i64 = 120;

/// The UTC instants, in whole seconds since the epoch, that a local
/// wall-clock time stands for.
#[derive(Clone, Copy, Debug, PartialEq, Eq, Structural)]
pub enum LocalLookup {
    /// The clocks skipped this local time: it stands for no instant.
    Missing,
    /// The local time stands for one instant.
    Single(i64),
    /// The clocks were turned back over this local time: it stands for two
    /// instants.
    Ambiguous(i64, i64),
}

/// Whether the host's time zone can be consulted at `secs`.
pub open spec fn in_zone_range(secs: int) -> bool {
    -ZONE_RANGE_SECONDS <= secs <= ZONE_RANGE_SECONDS
}

/// `TimeZone::offset_from_utc_datetime` of `chrono::Local`, at the UTC
/// instant `utc_secs` seconds after the epoch, as seconds east of UTC. The
/// offset depends on the host's time zone. All that is claimed is that it is
/// less than a day either way, which `FixedOffset` guarantees of every
/// offset. The instant must be in the range in which
/// `DateTime::from_timestamp` gives a date and the zone's rules can be
/// evaluated.
#[verifier::external_body]
pub(crate) fn local_offset_seconds(utc_secs: i64) -> (offset: i32)
    requires
        in_zone_range(utc_secs as int),
    ensures
        -86_400 < offset < 86_400,
{
    let utc = DateTime::from_timestamp(utc_secs, 0).unwrap().naive_utc();
    Local.offset_from_utc_datetime(&utc).local_minus_utc()
}

/// Whether `at` is less than a day away from `local_secs`.
pub open spec fn within_a_day(local_secs: int, at: int) -> bool {
    local_secs - 86_400 < at < local_secs + 86_400
}

/// `TimeZone::from_local_datetime` of `chrono::Local`, for the wall-clock
/// time that reads `local_secs` seconds after 1970-01-01T00:00:00 on the
/// local clock; each instant is handed on as `DateTime::timestamp` gives it.
/// Which instants the local time stands for depends on the host's time zone.
/// What is claimed holds in every zone: chrono finds each instant by taking
/// an offset of the zone from the local time, and `FixedOffset` keeps every
/// offset under a day, so each instant is less than a day away from the
/// local time read as UTC. The time must be in the range in which
/// `DateTime::from_timestamp` gives a date and the zone's rules can be
/// evaluated.
#[verifier::external_body]
pub(crate) fn local_lookup(local_secs: i64) -> (found: LocalLookup)
    requires
        in_zone_range(local_secs as int),
    ensures
        found matches LocalLookup::Single(at) ==> within_a_day(local_secs as int, at as int),
        found matches LocalLookup::Ambiguous(a, b) ==> within_a_day(local_secs as int, a as int)
            && within_a_day(local_secs as int, b as int),
{
    let local = DateTime::from_timestamp(local_secs, 0).unwrap().naive_utc();
    match Local.from_local_datetime(&local) {
        MappedLocalTime::Single(at) => LocalLookup::Single(at.timestamp()),
        MappedLocalTime::Ambiguous(a, b) => LocalLookup::Ambiguous(a.timestamp(), b.timestamp()),
        MappedLocalTime::None => LocalLookup::Missing,
    }
}

/// The instant a lookup resolves to: the only one, or the earlier of two.
pub open spec fn earliest_instant(found: LocalLookup) -> Option<int> {
    match found {
        LocalLookup::Missing => None,
        LocalLookup::Single(at) => Some(at as int),
        LocalLookup::Ambiguous(a, b) => Some(if a <= b { a as int } else { b as int }),
    }
}

/// Resolves a lookup to one instant: an ambiguous local time to the earlier
/// of its two instants, a skipped one to none.
pub fn resolve_lookup(found: LocalLookup) -> (at: Option<i64>)
    ensures
        match at {
            Some(secs) => earliest_instant(found) == Some(secs as int),
            None => earliest_instant(found) is None,
        },
{
    match found {
        LocalLookup::Missing => None,
        LocalLookup::Single(at) => Some(at),
        LocalLookup::Ambiguous(a, b) => if a <= b {
            Some(a)
        } else {
            Some(b)
        },
    }
}

/// Whether `local_secs` and every minute probed after it can be looked up.
pub open spec fn probe_range(local_secs: int) -> bool {
    in_zone_range(local_secs) && in_zone_range(local_secs + 60 * PROBE_MINUTES)
}

/// What to do once the zone has answered for one probed minute.
#[derive(Clone, Copy, Debug, PartialEq, Eq, Structural)]
pub enum ProbeStep {
    /// The minute exists: this is its instant, in seconds since the epoch.
    Resolved(i64),
    /// The minute was skipped: look up this local time next.
    Ask(i64),
    /// The minute was skipped and it was the last to probe.
    Exhausted,
}

/// The step that follows the answer `found` for the local time `minute`
/// minutes after `local_secs`: an answer that holds an instant ends the
/// probing with the earlier of its instants; a skipped time moves the probing
/// one minute on, until `PROBE_MINUTES` minutes have been tried.
pub open spec fn next_probe(local_secs: int, minute: int, found: LocalLookup) -> ProbeStep {
    match earliest_instant(found) {
        Some(at) => ProbeStep::Resolved(at as i64),
        None => if minute < PROBE_MINUTES {
            ProbeStep::Ask((local_secs + 60 * (minute + 1)) as i64)
        } else {
            ProbeStep::Exhausted
        },
    }
}

/// Decides the step that follows one answer of the zone.
pub fn probe_step(local_secs: i64, minute: i64, found: LocalLookup) -> (step: ProbeStep)
    requires
        0 <= minute <= PROBE_MINUTES,
        probe_range(local_secs as int),
    ensures
        step == next_probe(local_secs as int, minute as int, found),
        step matches ProbeStep::Ask(next) ==> next == local_secs + 60 * (minute + 1)
            && in_zone_range(next as int) && minute < PROBE_MINUTES,
{
    match resolve_lookup(found) {
        Some(at) => ProbeStep::Resolved(at),
        None => if minute < PROBE_MINUTES {
            ProbeStep::Ask(local_secs + 60 * (minute + 1))
        } else {
            ProbeStep::Exhausted
        },
    }
}

/// The UTC instant, in seconds since the epoch, of the local wall-clock time
/// `local_secs`. A time that exists is resolved at once, an ambiguous one to
/// the earlier of its instants. A time the clocks skipped is moved forward
/// minute by minute until one exists, and the call fails with
/// `ConfigurationFatal` when none of `PROBE_MINUTES` further minutes does, or
/// when a probed time is outside the range in which the zone can be
/// consulted.
///
/// Which instant comes back is the zone's answer. Whatever the zone, it is
/// less than a day away from one of the probed local times.
pub fn local_naive_to_utc_resolved(local_secs: i64) -> (at: Result<i64, LedgerError>)
    ensures
        at matches Err(e) ==> e == LedgerError::ConfigurationFatal,
        !probe_range(local_secs as int) ==> at is Err,
        at matches Ok(secs) ==> local_secs - 86_400 < secs < local_secs + 60 * PROBE_MINUTES
            + 86_400,
{
    if local_secs < -ZONE_RANGE_SECONDS || local_secs > ZONE_RANGE_SECONDS - 60 * PROBE_MINUTES {
        return Err(LedgerError::ConfigurationFatal);
    }
    let mut minute: i64 = 0;
    let mut ask: i64 = local_secs;
    loop
        invariant
            0 <= minute <= PROBE_MINUTES,
            probe_range(local_secs as int),
            ask == local_secs + 60 * minute,
        decreases PROBE_MINUTES - minute,
    {
        match probe_step(local_secs, minute, local_lookup(ask)) {
            ProbeStep::Resolved(secs) => {
                return Ok(secs);
            },
            ProbeStep::Ask(next) => {
                ask = next;
                minute = minute + 1;
            },
            ProbeStep::Exhausted => {
                return Err(LedgerError::ConfigurationFatal);
            },
        }
    }
}

} // verus!
