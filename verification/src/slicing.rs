//! Cutting a session at day boundaries.

use vstd::prelude::*;
use crate::days::{
    day_in_reach, day_start_local, day_start_local_secs, instant_nanos, ledger_day,
    ledger_day_of_instant, near_day_start,
};
use crate::error::LedgerError;
use crate::time::Timestamp;
use crate::zone::{local_naive_to_utc_resolved, PROBE_MINUTES};

verus! {

/// A run of consecutive ledger days, given by the instants at which they
/// begin: day `first_day + i` is `[boundaries[i], boundaries[i + 1])`. Each
/// day ends where the next begins.
#[derive(Clone, Debug)]
pub struct DayGrid {
    pub first_day: i64,
    /// UTC instants in nanoseconds from the epoch.
    pub boundaries: Vec<i128>,
}

/// A run of ledger days as mathematical integers.
pub struct GridModel {
    pub first_day: int,
    pub boundaries: Seq<int>,
}

/// The part of a session that falls into one ledger day.
#[derive(Clone, Copy, Debug, PartialEq, Eq, Structural)]
pub struct DaySlice {
    pub day: i64,
    /// Nanoseconds from the epoch.
    pub start: i128,
    /// Nanoseconds from the epoch.
    pub end: i128,
}

/// A slice as mathematical integers.
pub struct SliceModel {
    pub day: int,
    pub start: int,
    pub end: int,
}

impl DaySlice {
    pub open spec fn model(self) -> SliceModel {
        SliceModel { day: self.day as int, start: self.start as int, end: self.end as int }
    }

    /// The length of the slice in nanoseconds.
    pub fn length(self) -> (nanos: i128)
        requires
            i128::MIN <= self.end - self.start <= i128::MAX,
        ensures
            nanos == self.end - self.start,
    {
        self.end - self.start
    }
}

/// Slices as mathematical integers.
pub open spec fn slice_models(slices: Seq<DaySlice>) -> Seq<SliceModel> {
    Seq::new(slices.len(), |i: int| slices[i].model())
}

impl DayGrid {
    pub open spec fn model(self) -> GridModel {
        GridModel {
            first_day: self.first_day as int,
            boundaries: Seq::new(self.boundaries@.len(), |i: int| self.boundaries@[i] as int),
        }
    }

    /// Every day of the grid has a number that fits.
    pub open spec fn wf(self) -> bool {
        self.first_day + self.boundaries@.len() <= i64::MAX
    }
}

/// How many days the grid holds.
pub open spec fn window_count(grid: GridModel) -> nat {
    if grid.boundaries.len() == 0 {
        0
    } else {
        (grid.boundaries.len() - 1) as nat
    }
}

/// Where the part of `[start, stop)` in the grid's day `i` begins.
pub open spec fn slice_start(start: int, grid: GridModel, i: int) -> int {
    if start > grid.boundaries[i] {
        start
    } else {
        grid.boundaries[i]
    }
}

/// Where the part of `[start, stop)` in the grid's day `i` ends.
pub open spec fn slice_end(stop: int, grid: GridModel, i: int) -> int {
    if stop < grid.boundaries[i + 1] {
        stop
    } else {
        grid.boundaries[i + 1]
    }
}

/// How much of `[start, stop)` falls into the grid's day `i`.
pub open spec fn slice_length(start: int, stop: int, grid: GridModel, i: int) -> int {
    if slice_end(stop, grid, i) > slice_start(start, grid, i) {
        slice_end(stop, grid, i) - slice_start(start, grid, i)
    } else {
        0
    }
}

/// The non-empty parts of `[start, stop)` in the first `k` days of the grid.
pub open spec fn session_slices(start: int, stop: int, grid: GridModel, k: nat) -> Seq<SliceModel>
    decreases k,
{
    if k == 0 {
        Seq::empty()
    } else {
        let before = session_slices(start, stop, grid, (k - 1) as nat);
        if slice_length(start, stop, grid, k - 1) > 0 {
            before.push(
                SliceModel {
                    day: grid.first_day + k - 1,
                    start: slice_start(start, grid, k - 1),
                    end: slice_end(stop, grid, k - 1),
                },
            )
        } else {
            before
        }
    }
}

/// How much of `[start, stop)` falls into the first `k` days of the grid.
pub open spec fn sliced_total(start: int, stop: int, grid: GridModel, k: nat) -> int
    decreases k,
{
    if k == 0 {
        0
    } else {
        sliced_total(start, stop, grid, (k - 1) as nat) + slice_length(start, stop, grid, k - 1)
    }
}

/// The sum of the lengths of `slices`.
pub open spec fn slices_length(slices: Seq<SliceModel>) -> int
    decreases slices.len(),
{
    if slices.len() == 0 {
        0
    } else {
        slices_length(slices.drop_last()) + (slices.last().end - slices.last().start)
    }
}

/// No day of the grid begins before an earlier one.
pub open spec fn grid_ascends(grid: GridModel) -> bool {
    forall|i: int, j: int|
        0 <= i <= j < grid.boundaries.len() ==> grid.boundaries[i] <= grid.boundaries[j]
}

/// The grid's days reach from no later than `start` to no earlier than
/// `stop`.
pub open spec fn grid_covers(grid: GridModel, start: int, stop: int) -> bool {
    &&& grid.boundaries.len() >= 2
    &&& grid.boundaries[0] <= start
    &&& stop <= grid.boundaries.last()
}

/// What holds of the days that a time zone gives for the session
/// `[start, stop)`, whatever the zone: an empty session has none. Otherwise
/// the first day is at most one day away from the ledger day of `start` under
/// UTC, and the last from that of the last nanosecond before `stop`. Each day
/// begins less than a day before, and less than a day and the probed minutes
/// after, the local time of its beginning read as UTC. There are no days
/// only where the zone puts the end of the session on an earlier day than
/// its start.
pub open spec fn zone_grid(grid: GridModel, start: int, stop: int, day_start_hours: int) -> bool {
    if stop <= start {
        grid.boundaries.len() == 0
    } else if grid.boundaries.len() == 0 {
        ledger_day(stop - 1, day_start_hours, -86_399) < ledger_day(start, day_start_hours, 86_399)
    } else {
        &&& grid.boundaries.len() >= 2
        &&& ledger_day(start, day_start_hours, -86_399) <= grid.first_day <= ledger_day(
            start,
            day_start_hours,
            86_399,
        )
        &&& ledger_day(stop - 1, day_start_hours, -86_399) <= grid.first_day
            + grid.boundaries.len() - 2 <= ledger_day(stop - 1, day_start_hours, 86_399)
        &&& forall|i: int|
            0 <= i < grid.boundaries.len() ==> near_day_start(
                #[trigger] grid.boundaries[i],
                grid.first_day + i,
                day_start_hours,
            )
    }
}

/// The slices of a session add up to what `sliced_total` counts.
pub proof fn lemma_slices_length(start: int, stop: int, grid: GridModel, k: nat)
    ensures
        slices_length(session_slices(start, stop, grid, k)) == sliced_total(start, stop, grid, k),
    decreases k,
{
    if k > 0 {
        lemma_slices_length(start, stop, grid, (k - 1) as nat);
        let before = session_slices(start, stop, grid, (k - 1) as nat);
        if slice_length(start, stop, grid, k - 1) > 0 {
            let all = session_slices(start, stop, grid, k);
            assert(all.drop_last() =~= before);
        }
    }
}

proof fn lemma_sliced_prefix(start: int, stop: int, grid: GridModel, k: nat)
    requires
        start <= stop,
        grid_ascends(grid),
        grid.boundaries.len() >= 1,
        grid.boundaries[0] <= start,
        k < grid.boundaries.len(),
    ensures
        sliced_total(start, stop, grid, k) == if grid.boundaries[k as int] <= start {
            0
        } else if grid.boundaries[k as int] < stop {
            grid.boundaries[k as int] - start
        } else {
            stop - start
        },
    decreases k,
{
    if k > 0 {
        lemma_sliced_prefix(start, stop, grid, (k - 1) as nat);
        assert(grid.boundaries[k - 1] <= grid.boundaries[k as int]);
    }
}

/// Conservation: when the days of the grid follow one another in time and
/// reach from the session's start to its stop, the parts of the session in
/// the single days add up to `stop - start`.
pub proof fn lemma_slices_conserve(start: int, stop: int, grid: GridModel)
    requires
        start <= stop,
        grid_ascends(grid),
        grid_covers(grid, start, stop),
    ensures
        sliced_total(start, stop, grid, window_count(grid)) == stop - start,
        slices_length(session_slices(start, stop, grid, window_count(grid))) == stop - start,
{
    lemma_sliced_prefix(start, stop, grid, window_count(grid));
    lemma_slices_length(start, stop, grid, window_count(grid));
}

/// No double counting between neighbours: the part of a session in one day
/// ends no later than its part in the next day begins, whatever the grid,
/// because a day ends where the next begins.
pub proof fn lemma_adjacent_slices_disjoint(start: int, stop: int, grid: GridModel, i: int)
    requires
        0 <= i,
        i + 1 < window_count(grid),
    ensures
        slice_end(stop, grid, i) <= slice_start(start, grid, i + 1),
{
}

/// No double counting: when the days of the grid follow one another in time,
/// the part of a session in one day ends no later than its part in any later
/// day begins.
pub proof fn lemma_slices_disjoint(start: int, stop: int, grid: GridModel, i: int, j: int)
    requires
        grid_ascends(grid),
        0 <= i < j < window_count(grid),
    ensures
        slice_end(stop, grid, i) <= slice_start(start, grid, j),
{
    assert(grid.boundaries[i + 1] <= grid.boundaries[j]);
}

/// The non-empty parts of the session `[start, stop)` in the days of `grid`,
/// in the order of the days.
pub fn slice_session(start: Timestamp, stop: Timestamp, grid: &DayGrid) -> (slices: Vec<DaySlice>)
    requires
        grid.wf(),
    ensures
        slice_models(slices@) == session_slices(
            start.value(),
            stop.value(),
            grid.model(),
            window_count(grid.model()),
        ),
        forall|i: int|
            0 <= i < slices@.len() ==> start.value() <= (#[trigger] slices@[i]).start
                < slices@[i].end <= stop.value(),
        slices@.len() <= window_count(grid.model()),
        forall|i: int, j: int|
            0 <= i < j < slices@.len() ==> (#[trigger] slices@[i]).day < (#[trigger] slices@[j]).day,
        forall|i: int, j: int|
            0 <= i < slices@.len() && 0 <= j < slices@.len() && (#[trigger] slices@[j]).day == (
            #[trigger] slices@[i]).day + 1 ==> slices@[i].end <= slices@[j].start,
        grid_ascends(grid.model()) ==> forall|i: int, j: int|
            0 <= i < j < slices@.len() ==> (#[trigger] slices@[i]).end <= (
            #[trigger] slices@[j]).start,
        start.value() <= stop.value() && grid_ascends(grid.model()) && grid_covers(
            grid.model(),
            start.value(),
            stop.value(),
        ) ==> slices_length(slice_models(slices@)) == stop.value() - start.value(),
{
    let ghost g = grid.model();
    let begin: i128 = start.to_nanos();
    let finish: i128 = stop.to_nanos();
    let mut slices: Vec<DaySlice> = Vec::new();
    let n: usize = grid.boundaries.len();
    let mut i: usize = 0;
    proof {
        assert(slice_models(slices@) =~= session_slices(start.value(), stop.value(), g, 0));
    }
    while i + 1 < n
        invariant
            n == grid.boundaries@.len(),
            g == grid.model(),
            grid.wf(),
            begin == start.value(),
            finish == stop.value(),
            i <= window_count(g),
            slice_models(slices@) == session_slices(start.value(), stop.value(), g, i as nat),
            slices@.len() <= i,
            forall|k: int|
                0 <= k < slices@.len() ==> start.value() <= (#[trigger] slices@[k]).start
                    < slices@[k].end <= stop.value(),
            forall|k: int| 0 <= k < slices@.len() ==> (#[trigger] slices@[k]).day < grid.first_day + i,
            forall|a: int, b: int|
                0 <= a < b < slices@.len() ==> (#[trigger] slices@[a]).day < (
                #[trigger] slices@[b]).day,
            forall|k: int|
                0 <= k < slices@.len() ==> grid.first_day <= (#[trigger] slices@[k]).day
                    && g.boundaries[slices@[k].day - grid.first_day] <= slices@[k].start
                    && slices@[k].end <= g.boundaries[slices@[k].day - grid.first_day
                    + 1],
            grid_ascends(g) ==> forall|k: int|
                0 <= k < slices@.len() ==> (#[trigger] slices@[k]).end
                    <= g.boundaries[i as int],
            grid_ascends(g) ==> forall|a: int, b: int|
                0 <= a < b < slices@.len() ==> (#[trigger] slices@[a]).end <= (
                #[trigger] slices@[b]).start,
        decreases n - i,
    {
        let low: i128 = grid.boundaries[i];
        let high: i128 = grid.boundaries[i + 1];
        let ghost before = slices@;
        proof {
            assert(g.boundaries[i as int] == low);
            assert(g.boundaries[i + 1] == high);
        }
        let from: i128 = if begin > low {
            begin
        } else {
            low
        };
        let to: i128 = if finish < high {
            finish
        } else {
            high
        };
        proof {
            assert(from == slice_start(start.value(), g, i as int));
            assert(to == slice_end(stop.value(), g, i as int));
        }
        if to > from {
            let slice = DaySlice {
                day: (grid.first_day as i128 + i as i128) as i64,
                start: from,
                end: to,
            };
            slices.push(slice);
            proof {
                assert(slice_models(slices@) =~= slice_models(before).push(slice.model()));
            }
        }
        proof {
            if grid_ascends(g) {
                assert(g.boundaries[i as int] <= g.boundaries[i + 1]);
            }
        }
        i = i + 1;
    }
    proof {
        if start.value() <= stop.value() && grid_ascends(g) && grid_covers(
            g,
            start.value(),
            stop.value(),
        ) {
            lemma_slices_conserve(start.value(), stop.value(), g);
        }
    }
    slices
}

/// How many day beginnings the days from `first` to `last` need: one for
/// each day and one for the end of the last; none when `last` is before
/// `first`.
pub open spec fn boundary_count(first: int, last: int) -> int {
    if last < first {
        0
    } else {
        last - first + 2
    }
}

/// How many day beginnings the days from `first` to `last` need.
pub fn count_boundaries(first: i64, last: i64) -> (count: i64)
    requires
        last - first + 2 <= i64::MAX,
    ensures
        count == boundary_count(first as int, last as int),
{
    if last < first {
        0
    } else {
        last - first + 2
    }
}

/// The run of days that begins with `first_day`, from the instants, in
/// seconds since the epoch, at which its days begin.
pub fn grid_of_starts(first_day: i64, starts: &Vec<i64>) -> (grid: DayGrid)
    ensures
        grid.first_day == first_day,
        grid.boundaries@.len() == starts@.len(),
        forall|k: int|
            0 <= k < starts@.len() ==> #[trigger] grid.boundaries@[k] == starts@[k]
                * 1_000_000_000,
{
    let mut boundaries: Vec<i128> = Vec::new();
    let n: usize = starts.len();
    let mut k: usize = 0;
    while k < n
        invariant
            k <= n,
            n == starts@.len(),
            boundaries@.len() == k,
            forall|j: int|
                0 <= j < k ==> #[trigger] boundaries@[j] == starts@[j] * 1_000_000_000,
        decreases n - k,
    {
        boundaries.push(instant_nanos(starts[k]));
        k = k + 1;
    }
    DayGrid { first_day, boundaries }
}

/// The ledger days that the session `[start, stop)` touches in the host's
/// time zone, from the ledger day of `start` to that of the last nanosecond
/// before `stop`, each with the instant at which it begins. A session that is
/// empty touches no day and asks the zone nothing. Fails with
/// `ConfigurationFatal` when the session reaches out of the range in which
/// the zone can be consulted, or when a day boundary cannot be resolved. Which days
/// and instants come back is the host time zone's answer; whatever it is, the
/// grid starts within a day of the session's ledger day under UTC.
pub fn session_grid(start: Timestamp, stop: Timestamp, day_start_hours: i32) -> (grid: Result<
    DayGrid,
    LedgerError,
>)
    ensures
        grid matches Err(e) ==> e == LedgerError::ConfigurationFatal,
        stop.value() <= start.value() ==> grid is Ok,
        start.value() < stop.value() && (!day_in_reach(start.value(), day_start_hours as int)
            || !day_in_reach(stop.value() - 1, day_start_hours as int)) ==> grid is Err,
        grid matches Ok(g) ==> g.wf() && zone_grid(
            g.model(),
            start.value(),
            stop.value(),
            day_start_hours as int,
        ),
{
    let mut starts: Vec<i64> = Vec::new();
    if stop.to_nanos() <= start.to_nanos() {
        return Ok(grid_of_starts(0, &starts));
    }
    let first: i64 = match ledger_day_of_instant(start.to_nanos(), day_start_hours) {
        Ok(day) => day,
        Err(e) => {
            return Err(e);
        },
    };
    let last: i64 = match ledger_day_of_instant(stop.to_nanos() - 1, day_start_hours) {
        Ok(day) => day,
        Err(e) => {
            return Err(e);
        },
    };
    let count: i64 = count_boundaries(first, last);
    let mut k: i64 = 0;
    while k < count
        invariant
            0 <= k <= count,
            start.value() < stop.value(),
            count == boundary_count(first as int, last as int),
            -200_000_000 <= first <= 200_000_000,
            -200_000_000 <= last <= 200_000_000,
            starts@.len() == k,
            forall|j: int|
                0 <= j < k ==> day_start_local(first + j, day_start_hours as int) - 86_400
                    < #[trigger] starts@[j] < day_start_local(first + j, day_start_hours as int)
                    + 60 * PROBE_MINUTES + 86_400,
        decreases count - k,
    {
        let local = match day_start_local_secs(first + k, day_start_hours) {
            Some(local) => local,
            None => {
                return Err(LedgerError::ConfigurationFatal);
            },
        };
        match local_naive_to_utc_resolved(local) {
            Ok(secs) => {
                starts.push(secs);
            },
            Err(e) => {
                return Err(e);
            },
        }
        k = k + 1;
    }
    let grid = grid_of_starts(first, &starts);
    proof {
        let g = grid.model();
        assert forall|i: int| 0 <= i < g.boundaries.len() implies near_day_start(
            #[trigger] g.boundaries[i],
            g.first_day + i,
            day_start_hours as int,
        ) by {
            assert(g.boundaries[i] == grid.boundaries@[i]);
            assert(grid.boundaries@[i] == starts@[i] * 1_000_000_000);
        }
    }
    Ok(grid)
}

impl DayGrid {
    /// Whether the days of the grid follow one another in time and reach from
    /// `start` to `stop`: what makes the parts of the session `[start, stop)`
    /// in the single days add up to the whole session.
    pub fn tiles(&self, start: Timestamp, stop: Timestamp) -> (tiles: bool)
        ensures
            tiles == (grid_ascends(self.model()) && grid_covers(
                self.model(),
                start.value(),
                stop.value(),
            )),
    {
        let ghost g = self.model();
        let n: usize = self.boundaries.len();
        if n < 2 {
            return false;
        }
        proof {
            assert(g.boundaries[0] == self.boundaries@[0]);
            assert(g.boundaries.last() == self.boundaries@[n - 1]);
        }
        if self.boundaries[0] > start.to_nanos() || stop.to_nanos() > self.boundaries[n - 1] {
            return false;
        }
        let mut i: usize = 1;
        while i < n
            invariant
                1 <= i <= n,
                n == self.boundaries@.len(),
                g == self.model(),
                forall|a: int, b: int| 0 <= a <= b < i ==> g.boundaries[a] <= g.boundaries[b],
            decreases n - i,
        {
            proof {
                assert(g.boundaries[i - 1] == self.boundaries@[i - 1]);
                assert(g.boundaries[i as int] == self.boundaries@[i as int]);
            }
            if self.boundaries[i - 1] > self.boundaries[i] {
                return false;
            }
            proof {
                assert forall|a: int, b: int| 0 <= a <= b < i + 1 implies g.boundaries[a]
                    <= g.boundaries[b] by {
                    if b == i && a < i {
                        assert(g.boundaries[a] <= g.boundaries[i - 1]);
                    }
                }
            }
            i = i + 1;
        }
        true
    }
}

} // verus!
