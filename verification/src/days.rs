//! Ledger days: which day an instant belongs to, and where a day begins and
//! ends, for a day that starts a whole number of hours after local midnight.

use vstd::prelude::*;
use crate::error::LedgerError;
use crate::time::{Timestamp, EARLIEST_NANOS, LATEST_NANOS};
use crate::zone::{
    in_zone_range, local_naive_to_utc_resolved, local_offset_seconds, next_probe, probe_range,
    LocalLookup, ProbeStep, PROBE_MINUTES, ZONE_RANGE_SECONDS,
};

verus! {

/// Nanoseconds in one hour.
pub const NANOS_PER_HOUR: i128 = 3_600_000_000_000;

/// Nanoseconds in one day of wall-clock time.
pub const NANOS_PER_DAY: i128 = 86_400_000_000_000;

/// Whole seconds in `nanos` nanoseconds, rounded towards minus infinity.
pub fn whole_seconds(nanos: i128) -> (secs: i128)
    ensures
        secs == nanos as int / 1_000_000_000,
{
    let q: i128 = nanos / 1_000_000_000;
    let r: i128 = nanos % 1_000_000_000;
    if r < 0 {
        q - 1
    } else {
        q
    }
}

/// Whole days in `nanos` nanoseconds, rounded towards minus infinity.
pub fn whole_days(nanos: i128) -> (days: i128)
    ensures
        days == nanos as int / NANOS_PER_DAY as int,
{
    let q: i128 = nanos / NANOS_PER_DAY;
    let r: i128 = nanos % NANOS_PER_DAY;
    if r < 0 {
        q - 1
    } else {
        q
    }
}

/// The instant whose local calendar date is the ledger day of `at`: `at`
/// moved back by the day-start offset.
pub open spec fn shifted_instant(at: int, day_start_hours: int) -> int {
    at - day_start_hours * NANOS_PER_HOUR as int
}

/// The ledger day of the instant `at`, as a count of days from 1970-01-01,
/// when the local clock is `offset_secs` seconds east of UTC at the shifted
/// instant.
pub open spec fn ledger_day(at: int, day_start_hours: int, offset_secs: int) -> int {
    (shifted_instant(at, day_start_hours) + offset_secs * 1_000_000_000) / NANOS_PER_DAY as int
}

/// What the local clock reads when the ledger day `day` begins, in seconds
/// from 1970-01-01T00:00:00 on that clock.
pub open spec fn day_start_local(day: int, day_start_hours: int) -> int {
    day * 86_400 + day_start_hours * 3_600
}

/// The ledger day of `at` under a given zone offset.
pub fn ledger_day_at_offset(at: Timestamp, day_start_hours: i32, offset_secs: i32) -> (day: i64)
    requires
        -86_400 < offset_secs < 86_400,
    ensures
        day == ledger_day(at.value(), day_start_hours as int, offset_secs as int),
{
    day_of_instant(at.to_nanos(), day_start_hours, offset_secs)
}

/// The ledger day of the instant `nanos` under a given zone offset.
pub(crate) fn day_of_instant(nanos: i128, day_start_hours: i32, offset_secs: i32) -> (day: i64)
    requires
        EARLIEST_NANOS - 1 <= nanos <= LATEST_NANOS,
        -86_400 < offset_secs < 86_400,
    ensures
        day == ledger_day(nanos as int, day_start_hours as int, offset_secs as int),
{
    let shifted: i128 = nanos - day_start_hours as i128 * NANOS_PER_HOUR;
    let local: i128 = shifted + offset_secs as i128 * 1_000_000_000;
    let day: i128 = whole_days(local);
    day as i64
}

/// The shifted instant of `at` in whole seconds, rounded towards the past:
/// the instant at which the zone is asked for its offset, where it lies in
/// the range in which the zone can be consulted.
pub fn shifted_seconds(at: Timestamp, day_start_hours: i32) -> (secs: Option<i64>)
    ensures
        match secs {
            Some(s) => s == shifted_instant(at.value(), day_start_hours as int) / 1_000_000_000
                && in_zone_range(s as int),
            None => !in_zone_range(
                shifted_instant(at.value(), day_start_hours as int) / 1_000_000_000,
            ),
        },
{
    shifted_seconds_of(at.to_nanos(), day_start_hours)
}

/// The shifted instant of `nanos` in whole seconds, where the zone can be
/// consulted there.
pub(crate) fn shifted_seconds_of(nanos: i128, day_start_hours: i32) -> (secs: Option<i64>)
    requires
        EARLIEST_NANOS - 1 <= nanos <= LATEST_NANOS,
    ensures
        match secs {
            Some(s) => s == shifted_instant(nanos as int, day_start_hours as int) / 1_000_000_000
                && in_zone_range(s as int),
            None => !in_zone_range(
                shifted_instant(nanos as int, day_start_hours as int) / 1_000_000_000,
            ),
        },
{
    let shifted: i128 = nanos - day_start_hours as i128 * NANOS_PER_HOUR;
    let secs: i128 = whole_seconds(shifted);
    if secs < -(ZONE_RANGE_SECONDS as i128) || secs > ZONE_RANGE_SECONDS as i128 {
        None
    } else {
        Some(secs as i64)
    }
}

/// Whether the zone can be asked for the ledger day of the instant `at`: the
/// shifted instant lies in the range in which the zone can be consulted.
pub open spec fn day_in_reach(at: int, day_start_hours: int) -> bool {
    in_zone_range(shifted_instant(at, day_start_hours) / 1_000_000_000)
}

/// The ledger day of `at` in the host's time zone: the local calendar date of
/// the shifted instant, under the offset that the zone has at the shifted
/// instant. Fails with `ConfigurationFatal` exactly when the shifted instant
/// is outside the range in which the zone can be consulted. Whatever offset
/// the zone has, it is less than a day, so the day is at most one day away
/// from the ledger day under UTC.
pub fn ledger_day_for_timestamp(at: Timestamp, day_start_hours: i32) -> (day: Result<
    i64,
    LedgerError,
>)
    ensures
        day is Ok <==> day_in_reach(at.value(), day_start_hours as int),
        day matches Err(e) ==> e == LedgerError::ConfigurationFatal,
        day matches Ok(d) ==> (exists|offset: int|
            -86_400 < offset < 86_400 && d == #[trigger] ledger_day(
                at.value(),
                day_start_hours as int,
                offset,
            )) && ledger_day(at.value(), day_start_hours as int, -86_399) <= d <= ledger_day(
            at.value(),
            day_start_hours as int,
            86_399,
        ),
{
    ledger_day_of_instant(at.to_nanos(), day_start_hours)
}

/// The ledger day of the instant `nanos` in the host's time zone.
pub(crate) fn ledger_day_of_instant(nanos: i128, day_start_hours: i32) -> (day: Result<
    i64,
    LedgerError,
>)
    requires
        EARLIEST_NANOS - 1 <= nanos <= LATEST_NANOS,
    ensures
        day is Ok <==> day_in_reach(nanos as int, day_start_hours as int),
        day matches Err(e) ==> e == LedgerError::ConfigurationFatal,
        day matches Ok(d) ==> (exists|offset: int|
            -86_400 < offset < 86_400 && d == #[trigger] ledger_day(
                nanos as int,
                day_start_hours as int,
                offset,
            )) && ledger_day(nanos as int, day_start_hours as int, -86_399) <= d <= ledger_day(
            nanos as int,
            day_start_hours as int,
            86_399,
        ),
{
    match shifted_seconds_of(nanos, day_start_hours) {
        Some(secs) => {
            let offset: i32 = local_offset_seconds(secs);
            Ok(day_of_instant(nanos, day_start_hours, offset))
        },
        None => Err(LedgerError::ConfigurationFatal),
    }
}

/// One ledger day as an interval `[start, end)` of UTC instants, in
/// nanoseconds from the epoch.
#[derive(Clone, Copy, Debug, PartialEq, Eq, Structural)]
pub struct DayWindow {
    pub day: i64,
    pub start: i128,
    pub end: i128,
}

/// What the local clock reads when the ledger day `day` begins, where that
/// time and the minutes probed after it can be looked up in the zone.
pub fn day_start_local_secs(day: i64, day_start_hours: i32) -> (local: Option<i64>)
    ensures
        match local {
            Some(secs) => secs == day_start_local(day as int, day_start_hours as int)
                && probe_range(secs as int),
            None => !probe_range(day_start_local(day as int, day_start_hours as int)),
        },
{
    let local: i128 = day as i128 * 86_400 + day_start_hours as i128 * 3_600;
    if local < -(ZONE_RANGE_SECONDS as i128) || local > ZONE_RANGE_SECONDS as i128 - 60
        * PROBE_MINUTES as i128 {
        None
    } else {
        Some(local as i64)
    }
}

/// An instant given in seconds since the epoch, in nanoseconds.
pub fn instant_nanos(secs: i64) -> (nanos: i128)
    ensures
        nanos == secs * 1_000_000_000,
{
    secs as i128 * 1_000_000_000
}

/// The ledger day `day` as the interval between the instants, in seconds
/// since the epoch, at which it and the next day begin.
pub fn day_window(day: i64, start_secs: i64, end_secs: i64) -> (window: DayWindow)
    ensures
        window.day == day,
        window.start == start_secs * 1_000_000_000,
        window.end == end_secs * 1_000_000_000,
{
    DayWindow { day, start: instant_nanos(start_secs), end: instant_nanos(end_secs) }
}

/// Whether the instant `nanos` is less than a day before, and less than a
/// day and the probed minutes after, the local time at which the ledger day
/// `day` begins, read as UTC. In every zone the beginning of the day lies
/// there.
pub open spec fn near_day_start(nanos: int, day: int, day_start_hours: int) -> bool {
    (day_start_local(day, day_start_hours) - 86_400) * 1_000_000_000 < nanos < (day_start_local(
        day,
        day_start_hours,
    ) + 60 * PROBE_MINUTES + 86_400) * 1_000_000_000
}

/// The ledger day `day` as an interval of UTC instants: it begins at local
/// midnight plus the day-start offset and ends where the next day begins,
/// twenty-four hours of wall-clock time later. Fails with
/// `ConfigurationFatal` when either local time is out of the zone's range or
/// cannot be resolved. Which instants come back is the zone's answer;
/// whatever the zone, each lies near the local time it was found for.
pub fn ledger_day_bounds_utc(day: i64, day_start_hours: i32) -> (window: Result<
    DayWindow,
    LedgerError,
>)
    ensures
        window matches Err(e) ==> e == LedgerError::ConfigurationFatal,
        !probe_range(day_start_local(day as int, day_start_hours as int)) || !probe_range(
            day_start_local(day + 1, day_start_hours as int),
        ) ==> window is Err,
        window matches Ok(w) ==> w.day == day && near_day_start(
            w.start as int,
            day as int,
            day_start_hours as int,
        ) && near_day_start(w.end as int, day + 1, day_start_hours as int),
{
    let start_local = match day_start_local_secs(day, day_start_hours) {
        Some(local) => local,
        None => {
            return Err(LedgerError::ConfigurationFatal);
        },
    };
    let end_local = match day_start_local_secs(day + 1, day_start_hours) {
        Some(local) => local,
        None => {
            return Err(LedgerError::ConfigurationFatal);
        },
    };
    let start_secs = match local_naive_to_utc_resolved(start_local) {
        Ok(secs) => secs,
        Err(e) => {
            return Err(e);
        },
    };
    let end_secs = match local_naive_to_utc_resolved(end_local) {
        Ok(secs) => secs,
        Err(e) => {
            return Err(e);
        },
    };
    Ok(day_window(day, start_secs, end_secs))
}

/// Where the ledger day `day` begins, in nanoseconds, on a clock that is
/// always `offset_secs` seconds east of UTC.
pub open spec fn fixed_offset_day_start(day: int, day_start_hours: int, offset_secs: int) -> int {
    (day_start_local(day, day_start_hours) - offset_secs) * 1_000_000_000
}

/// Under a fixed offset an instant lies inside the bounds of its own ledger
/// day, and of no other day.
pub proof fn lemma_fixed_offset_day(at: int, day: int, day_start_hours: int, offset_secs: int)
    ensures
        ledger_day(at, day_start_hours, offset_secs) == day <==> fixed_offset_day_start(
            day,
            day_start_hours,
            offset_secs,
        ) <= at < fixed_offset_day_start(day + 1, day_start_hours, offset_secs),
{
}

/// Under a fixed offset a ledger day lasts twenty-four hours and ends where
/// the next begins.
pub proof fn lemma_fixed_offset_days_tile(day: int, day_start_hours: int, offset_secs: int)
    ensures
        fixed_offset_day_start(day + 1, day_start_hours, offset_secs) == fixed_offset_day_start(
            day,
            day_start_hours,
            offset_secs,
        ) + NANOS_PER_DAY,
{
}

/// A zone that is always `offset_secs` seconds east of UTC answers every
/// local time with the one instant `offset_secs` earlier. From that answer
/// the probing ends at once, and the day begins where the fixed offset puts
/// it: under UTC with a day start of four hours, at 04:00.
pub proof fn lemma_fixed_offset_start(day: int, day_start_hours: int, offset_secs: int)
    requires
        -86_400 < offset_secs < 86_400,
        probe_range(day_start_local(day, day_start_hours)),
    ensures
        ({
            let local = day_start_local(day, day_start_hours);
            let answer = LocalLookup::Single((local - offset_secs) as i64);
            &&& next_probe(local, 0, answer) == ProbeStep::Resolved((local - offset_secs) as i64)
            &&& (local - offset_secs) * 1_000_000_000 == fixed_offset_day_start(
                day,
                day_start_hours,
                offset_secs,
            )
            &&& near_day_start(
                fixed_offset_day_start(day, day_start_hours, offset_secs),
                day,
                day_start_hours,
            )
        }),
{
}

} // verus!
