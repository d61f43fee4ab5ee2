//! The snapshot of a ledger: which tasks are running, and how much time each
//! task has accumulated on each ledger day.

use vstd::prelude::*;
use vstd::relations::{sorted_by, total_ordering};
use vstd::seq_lib::{to_multiset_build, to_multiset_insert};
use crate::error::LedgerError;
use crate::replay::{
    find_active, find_open, open_models, ordered_per_task, session_models, ActiveSession,
    OpenModel, SessionModel, SessionRecord,
};
use crate::time::{EARLIEST_NANOS, LATEST_NANOS};
use crate::slicing::{
    session_grid, session_slices, slice_models, slice_session, window_count, zone_grid, DayGrid,
    DaySlice, GridModel,
};
use crate::text::{
    lemma_text_before_asymmetric, lemma_text_before_connected, lemma_text_before_irreflexive,
    lemma_text_before_transitive, text_before, text_precedes,
};
use crate::totals::{
    add_daily_total, add_slices, distinct_cells, positive_cells, total_of, totals_map, DayTotal,
};

verus! {

/// Whether the row `a`, a task and its total, is listed before the row `b`:
/// the larger total first, and of equal totals the task whose id comes first.
pub open spec fn row_before(a: (Seq<char>, int), b: (Seq<char>, int)) -> bool {
    a.1 > b.1 || (a.1 == b.1 && text_before(a.0, b.0))
}

/// The order of the rows of a day: `a` is listed no later than `b`.
pub open spec fn row_order() -> spec_fn((Seq<char>, int), (Seq<char>, int)) -> bool {
    |a: (Seq<char>, int), b: (Seq<char>, int)| !row_before(b, a)
}

/// The tasks and totals of the cells of `day`, in the order of the cells.
pub open spec fn day_rows(cells: Seq<DayTotal>, day: int) -> Seq<(Seq<char>, int)>
    decreases cells.len(),
{
    if cells.len() == 0 {
        Seq::empty()
    } else if cells.last().day == day {
        day_rows(cells.drop_last(), day).push((cells.last().task_id@, cells.last().total as int))
    } else {
        day_rows(cells.drop_last(), day)
    }
}

/// Rows as mathematical values.
pub open spec fn row_models(rows: Seq<(String, i128)>) -> Seq<(Seq<char>, int)> {
    Seq::new(rows.len(), |i: int| (rows[i].0@, rows[i].1 as int))
}

/// A row that is listed no later than a second, which is listed no later
/// than a third, is listed no later than the third.
pub proof fn lemma_row_order_transitive(
    a: (Seq<char>, int),
    b: (Seq<char>, int),
    c: (Seq<char>, int),
)
    requires
        !row_before(b, a),
        !row_before(c, b),
    ensures
        !row_before(c, a),
{
    if a.1 == b.1 && b.1 == c.1 && text_before(c.0, a.0) {
        if a.0 == b.0 {
        } else {
            lemma_text_before_connected(a.0, b.0);
            lemma_text_before_transitive(c.0, a.0, b.0);
        }
    }
}

/// The order of rows is total: any two rows are comparable, and two rows
/// that are each listed no later than the other are one row. So a day has
/// exactly one sorted list of rows.
pub proof fn lemma_row_order_total()
    ensures
        total_ordering(row_order()),
{
    let r = row_order();
    assert forall|x: (Seq<char>, int)| #[trigger] r(x, x) by {
        lemma_text_before_irreflexive(x.0);
    }
    assert forall|x: (Seq<char>, int), y: (Seq<char>, int)| #[trigger]
        r(x, y) && #[trigger] r(y, x) implies x == y by {
        if x.0 != y.0 {
            lemma_text_before_connected(x.0, y.0);
        }
    }
    assert forall|x: (Seq<char>, int), y: (Seq<char>, int), z: (Seq<char>, int)| #[trigger]
        r(x, y) && #[trigger] r(y, z) implies r(x, z) by {
        lemma_row_order_transitive(x, y, z);
    }
    assert forall|x: (Seq<char>, int), y: (Seq<char>, int)| #[trigger]
        r(x, y) || #[trigger] r(y, x) by {
        if row_before(y, x) && row_before(x, y) {
            lemma_text_before_asymmetric(x.0, y.0);
        }
    }
}

/// A ledger read at one instant: the intervals still open, and the time
/// accumulated per ledger day and task.
#[derive(Clone, Debug)]
pub struct LedgerSnapshot {
    /// The open intervals, one per running task.
    pub active_tasks: Vec<ActiveSession>,
    /// The accumulated time, one cell per day and task.
    pub daily_task_totals: Vec<DayTotal>,
}

impl LedgerSnapshot {
    /// The open intervals.
    pub open spec fn active(self) -> Seq<OpenModel> {
        open_models(self.active_tasks@)
    }

    /// The accumulated time by day and task.
    pub open spec fn totals(self) -> Map<(int, Seq<char>), int> {
        totals_map(self.daily_task_totals@)
    }

    /// The open interval of `task_id`, if the task is running.
    pub fn active_session(&self, task_id: &str) -> (found: Option<&ActiveSession>)
        ensures
            match found {
                Some(interval) => find_open(self.active(), task_id@) matches Some(k)
                    && interval.model() == self.active()[k],
                None => find_open(self.active(), task_id@) is None,
            },
    {
        match find_active(&self.active_tasks, task_id) {
            Some(k) => Some(&self.active_tasks[k]),
            None => None,
        }
    }

    /// The tasks that accumulated time on `day`, each with its total in
    /// nanoseconds: the largest total first, and tasks with equal totals by
    /// ascending id.
    pub fn totals_for_day(&self, day: i64) -> (rows: Vec<(String, i128)>)
        ensures
            sorted_by(row_models(rows@), row_order()),
            row_models(rows@).to_multiset() == day_rows(
                self.daily_task_totals@,
                day as int,
            ).to_multiset(),
    {
        let ghost cells = self.daily_task_totals@;
        let mut rows: Vec<(String, i128)> = Vec::new();
        let n: usize = self.daily_task_totals.len();
        let mut i: usize = 0;
        proof {
            assert(cells.take(0) =~= Seq::<DayTotal>::empty());
            assert(row_models(rows@) =~= day_rows(cells.take(0), day as int));
        }
        while i < n
            invariant
                i <= n,
                n == cells.len(),
                cells == self.daily_task_totals@,
                sorted_by(row_models(rows@), row_order()),
                row_models(rows@).to_multiset() == day_rows(
                    cells.take(i as int),
                    day as int,
                ).to_multiset(),
            decreases n - i,
        {
            let cell = &self.daily_task_totals[i];
            proof {
                assert(cells.take(i + 1).drop_last() =~= cells.take(i as int));
                assert(cells.take(i + 1).last() == *cell);
            }
            if cell.day == day {
                let ghost row = (cell.task_id@, cell.total as int);
                let mut pos: usize = rows.len();
                while pos > 0 && comes_before(
                    cell.task_id.as_str(),
                    cell.total,
                    rows[pos - 1].0.as_str(),
                    rows[pos - 1].1,
                )
                    invariant
                        pos <= rows@.len(),
                        row == (cell.task_id@, cell.total as int),
                        forall|k: int|
                            pos <= k < rows@.len() ==> row_before(
                                row,
                                #[trigger] row_models(rows@)[k],
                            ),
                    decreases pos,
                {
                    pos = pos - 1;
                }
                let ghost before = row_models(rows@);
                rows.insert(pos, (cell.task_id.clone(), cell.total));
                proof {
                    let after = row_models(rows@);
                    assert(after =~= before.insert(pos as int, row));
                    to_multiset_insert(before, pos as int, row);
                    to_multiset_build(day_rows(cells.take(i as int), day as int), row);
                    let r = row_order();
                    assert forall|a: int, b: int| 0 <= a < b < after.len() implies #[trigger] r(
                        after[a],
                        after[b],
                    ) by {
                        if b < pos {
                            assert(r(before[a], before[b]));
                        } else if b == pos {
                            assert(!row_before(row, before[pos - 1]));
                            if a < pos - 1 {
                                assert(r(before[a], before[pos - 1]));
                                lemma_row_order_transitive(before[a], before[pos - 1], row);
                            }
                        } else if a < pos {
                            assert(r(before[a], before[b - 1]));
                        } else if a == pos {
                            assert(row_before(row, before[b - 1]));
                            if row_before(before[b - 1], row) {
                                lemma_text_before_asymmetric(row.0, before[b - 1].0);
                            }
                        } else {
                            assert(r(before[a - 1], before[b - 1]));
                        }
                    }
                }
            }
            i = i + 1;
        }
        proof {
            assert(cells.take(n as int) =~= cells);
        }
        rows
    }

    /// Whether `task_id` is running.
    pub fn is_active(&self, task_id: &str) -> (running: bool)
        ensures
            running == (find_open(self.active(), task_id@) is Some),
    {
        find_active(&self.active_tasks, task_id).is_some()
    }
}

/// Whether the row of `task` with `total` is listed before the row of
/// `other_task` with `other_total`.
pub fn comes_before(task: &str, total: i128, other_task: &str, other_total: i128) -> (before: bool)
    ensures
        before == row_before((task@, total as int), (other_task@, other_total as int)),
{
    total > other_total || (total == other_total && text_precedes(task, other_task))
}

/// The totals after the first `n` of `sessions` have been cut along their
/// grids and added to `totals`.
pub open spec fn totals_after(
    totals: Map<(int, Seq<char>), int>,
    sessions: Seq<SessionModel>,
    grids: Seq<GridModel>,
    n: nat,
) -> Map<(int, Seq<char>), int>
    decreases n,
{
    if n == 0 {
        totals
    } else {
        let session = sessions[n - 1];
        add_slices(
            totals_after(totals, sessions, grids, (n - 1) as nat),
            session.task,
            session_slices(
                session.start,
                session.stop,
                grids[n - 1],
                window_count(grids[n - 1]),
            ),
        )
    }
}

/// Whether `grids` holds, for each of `sessions`, days that a time zone can
/// give for it.
pub open spec fn zone_grids(grids: Seq<GridModel>, sessions: Seq<SessionModel>, day_start_hours: int) -> bool {
    &&& grids.len() == sessions.len()
    &&& forall|i: int|
        0 <= i < grids.len() ==> zone_grid(
            #[trigger] grids[i],
            sessions[i].start,
            sessions[i].stop,
            day_start_hours,
        )
}

/// Adds each of `slices` to the total of `task_id` on its day. The slices
/// are those of one session, no longer than `span` and on different days, so
/// no total grows by more than `span`.
pub(crate) fn accumulate_session(
    cells: &mut Vec<DayTotal>,
    task_id: &str,
    slices: &Vec<DaySlice>,
    Ghost(span): Ghost<int>,
)
    requires
        0 <= span,
        forall|i: int, j: int|
            0 <= i < j < slices@.len() ==> (#[trigger] slices@[i]).day < (#[trigger] slices@[j]).day,
        forall|i: int|
            0 <= i < slices@.len() ==> 0 < (#[trigger] slices@[i]).end
                - slices@[i].start <= span,
        forall|day: int|
            0 <= #[trigger] total_of(totals_map(old(cells)@), day, task_id@) <= i128::MAX - span,
    ensures
        totals_map(final(cells)@) == add_slices(
            totals_map(old(cells)@),
            task_id@,
            slice_models(slices@),
        ),
        distinct_cells(old(cells)@) ==> distinct_cells(final(cells)@),
        positive_cells(old(cells)@) ==> positive_cells(final(cells)@),
        forall|day: int, task: Seq<char>|
            total_of(totals_map(old(cells)@), day, task) <= #[trigger] total_of(
                totals_map(final(cells)@),
                day,
                task,
            ) <= total_of(totals_map(old(cells)@), day, task) + (if task == task_id@ {
                span
            } else {
                0
            }),
{
    let ghost first = totals_map(cells@);
    let ghost was_distinct = distinct_cells(cells@);
    let ghost was_positive = positive_cells(cells@);
    let ghost models = slice_models(slices@);
    let n: usize = slices.len();
    let mut i: usize = 0;
    proof {
        assert(models.take(0) =~= Seq::empty());
    }
    while i < n
        invariant
            i <= n,
            0 <= span,
            n == slices@.len(),
            models == slice_models(slices@),
            forall|a: int, b: int|
                0 <= a < b < slices@.len() ==> (#[trigger] slices@[a]).day < (
                #[trigger] slices@[b]).day,
            forall|a: int|
                0 <= a < slices@.len() ==> 0 < (#[trigger] slices@[a]).end
                    - slices@[a].start <= span,
            forall|day: int| 0 <= #[trigger] total_of(first, day, task_id@) <= i128::MAX - span,
            totals_map(cells@) == add_slices(first, task_id@, models.take(i as int)),
            was_distinct ==> distinct_cells(cells@),
            was_positive ==> positive_cells(cells@),
            forall|day: int, task: Seq<char>|
                total_of(first, day, task) <= #[trigger] total_of(totals_map(cells@), day, task)
                    <= total_of(first, day, task) + (if task == task_id@ {
                    span
                } else {
                    0
                }),
            forall|day: int|
                (i == 0 || day > slices@[i - 1].day) ==> #[trigger] total_of(
                    totals_map(cells@),
                    day,
                    task_id@,
                ) == total_of(first, day, task_id@),
        decreases n - i,
    {
        let slice = slices[i];
        let ghost current = totals_map(cells@);
        proof {
            assert(models.take(i + 1).drop_last() =~= models.take(i as int));
            assert(models.take(i + 1).last() == slice.model());
            if i > 0 {
                assert(slices@[i - 1].day < slices@[i as int].day);
            }
            assert(total_of(current, slice.day as int, task_id@) == total_of(
                first,
                slice.day as int,
                task_id@,
            ));
        }
        add_daily_total(cells, slice.day, task_id, slice.length());
        proof {
            let next = totals_map(cells@);
            assert forall|day: int, task: Seq<char>|
                total_of(first, day, task) <= #[trigger] total_of(next, day, task) <= total_of(
                    first,
                    day,
                    task,
                ) + (if task == task_id@ {
                    span
                } else {
                    0
                }) by {
                assert(total_of(first, day, task) <= total_of(current, day, task));
                if (day, task) == (slice.day as int, task_id@) {
                } else {
                    assert(total_of(next, day, task) == total_of(current, day, task));
                }
            }
            assert forall|day: int| day > slices@[i as int].day implies #[trigger] total_of(
                next,
                day,
                task_id@,
            ) == total_of(first, day, task_id@) by {
                assert(total_of(next, day, task_id@) == total_of(current, day, task_id@));
            }
        }
        i = i + 1;
    }
    proof {
        assert(models.take(n as int) =~= models);
    }
}

/// Grids as mathematical values.
pub open spec fn grid_models(grids: Seq<DayGrid>) -> Seq<GridModel> {
    Seq::new(grids.len(), |i: int| grids[i].model())
}

/// The smaller of two lengths.
pub open spec fn shorter(a: nat, b: nat) -> nat {
    if a <= b {
        a
    } else {
        b
    }
}

/// For each of `sessions`, the ledger days that it touches in the host's time
/// zone. Without sessions the zone is not asked and the call succeeds. Fails
/// with `ConfigurationFatal` when a day boundary cannot be resolved. Which
/// days and boundaries come back is the zone's answer.
pub fn collect_grids(sessions: &Vec<SessionRecord>, day_start_hours: i32) -> (outcome: Result<
    Vec<DayGrid>,
    LedgerError,
>)
    ensures
        sessions@.len() == 0 ==> outcome is Ok,
        outcome matches Err(e) ==> e == LedgerError::ConfigurationFatal,
        outcome matches Ok(grids) ==> zone_grids(
            grid_models(grids@),
            session_models(sessions@),
            day_start_hours as int,
        ) && forall|i: int| 0 <= i < grids@.len() ==> (#[trigger] grids@[i]).wf(),
{
    let ghost models = session_models(sessions@);
    let mut grids: Vec<DayGrid> = Vec::new();
    let n: usize = sessions.len();
    let mut j: usize = 0;
    while j < n
        invariant
            j <= n,
            n == sessions@.len(),
            models == session_models(sessions@),
            grids@.len() == j,
            forall|i: int| 0 <= i < j ==> (#[trigger] grids@[i]).wf(),
            forall|i: int|
                0 <= i < j ==> zone_grid(
                    #[trigger] grid_models(grids@)[i],
                    models[i].start,
                    models[i].stop,
                    day_start_hours as int,
                ),
        decreases n - j,
    {
        let session = &sessions[j];
        let ghost before = grid_models(grids@);
        proof {
            assert(models[j as int] == session.model());
        }
        match session_grid(session.start, session.stop, day_start_hours) {
            Ok(grid) => {
                grids.push(grid);
            },
            Err(e) => {
                return Err(e);
            },
        }
        proof {
            let after = grid_models(grids@);
            assert forall|i: int| 0 <= i < j + 1 implies zone_grid(
                #[trigger] after[i],
                models[i].start,
                models[i].stop,
                day_start_hours as int,
            ) by {
                if i < j {
                    assert(after[i] == before[i]);
                }
            }
        }
        j = j + 1;
    }
    Ok(grids)
}

/// The stop of the last of the first `j` sessions that belongs to `task`, or
/// the earliest instant there is where none does.
pub open spec fn latest_stop(sessions: Seq<SessionRecord>, j: int, task: Seq<char>) -> int
    decreases j,
{
    if j <= 0 {
        EARLIEST_NANOS as int
    } else if sessions[j - 1].task_id@ == task {
        sessions[j - 1].stop.value()
    } else {
        latest_stop(sessions, j - 1, task)
    }
}

/// The latest stop is an instant, and where the sessions of a task follow one
/// another, no later than the start of a later session of the task.
pub proof fn lemma_latest_stop(sessions: Seq<SessionRecord>, j: int, task: Seq<char>)
    requires
        0 <= j <= sessions.len(),
        ordered_per_task(sessions),
    ensures
        EARLIEST_NANOS <= latest_stop(sessions, j, task) <= LATEST_NANOS,
        forall|k: int|
            j <= k < sessions.len() && (#[trigger] sessions[k]).task_id@ == task ==> latest_stop(
                sessions,
                j,
                task,
            ) <= sessions[k].start.value(),
    decreases j,
{
    if j > 0 && sessions[j - 1].task_id@ != task {
        lemma_latest_stop(sessions, j - 1, task);
    }
}

/// Cuts each of `sessions` along its grid and adds up the parts by day and
/// task. A session without a grid adds nothing.
///
/// The sessions of one task follow one another in time, so what a task
/// accumulates on a day is no more than the time from the earliest instant
/// to the task's latest stop, and no total can leave the range of `i128`.
pub(crate) fn accumulate_on_grids(sessions: &Vec<SessionRecord>, grids: &Vec<DayGrid>) -> (cells:
    Vec<DayTotal>)
    requires
        forall|i: int|
            0 <= i < sessions@.len() ==> (#[trigger] sessions@[i]).start.value()
                < sessions@[i].stop.value(),
        ordered_per_task(sessions@),
        forall|i: int| 0 <= i < grids@.len() ==> (#[trigger] grids@[i]).wf(),
    ensures
        distinct_cells(cells@),
        positive_cells(cells@),
        totals_map(cells@) == totals_after(
            Map::empty(),
            session_models(sessions@),
            grid_models(grids@),
            shorter(sessions@.len(), grids@.len()),
        ),
{
    let ghost models = session_models(sessions@);
    let ghost given = grid_models(grids@);
    let mut cells: Vec<DayTotal> = Vec::new();
    let n: usize = if sessions.len() <= grids.len() {
        sessions.len()
    } else {
        grids.len()
    };
    let mut j: usize = 0;
    while j < n
        invariant
            j <= n,
            n == shorter(sessions@.len(), grids@.len()),
            models == session_models(sessions@),
            given == grid_models(grids@),
            forall|i: int|
                0 <= i < sessions@.len() ==> (#[trigger] sessions@[i]).start.value()
                    < sessions@[i].stop.value(),
            ordered_per_task(sessions@),
            forall|i: int| 0 <= i < grids@.len() ==> (#[trigger] grids@[i]).wf(),
            distinct_cells(cells@),
            positive_cells(cells@),
            totals_map(cells@) == totals_after(Map::empty(), models, given, j as nat),
            forall|day: int, task: Seq<char>|
                0 <= #[trigger] total_of(totals_map(cells@), day, task) <= latest_stop(
                    sessions@,
                    j as int,
                    task,
                ) - EARLIEST_NANOS,
        decreases n - j,
    {
        let session = &sessions[j];
        let ghost before = totals_map(cells@);
        let ghost task = session.task_id@;
        let ghost span = session.stop.value() - session.start.value();
        let slices = slice_session(session.start, session.stop, &grids[j]);
        proof {
            assert(models[j as int] == session.model());
            assert(given[j as int] == grids@[j as int].model());
            lemma_latest_stop(sessions@, j as int, task);
            assert(latest_stop(sessions@, j as int, task) <= sessions@[j as int].start.value());
            assert forall|day: int| 0 <= #[trigger] total_of(before, day, task) <= i128::MAX
                - span by {
                assert(total_of(before, day, task) <= latest_stop(sessions@, j as int, task)
                    - EARLIEST_NANOS);
            }
        }
        accumulate_session(&mut cells, session.task_id.as_str(), &slices, Ghost(span));
        proof {
            let after = totals_map(cells@);
            assert forall|day: int, t: Seq<char>|
                0 <= #[trigger] total_of(after, day, t) <= latest_stop(sessions@, j + 1, t)
                    - EARLIEST_NANOS by {
                assert(total_of(before, day, t) <= total_of(after, day, t));
                assert(total_of(before, day, t) <= latest_stop(sessions@, j as int, t)
                    - EARLIEST_NANOS);
            }
        }
        j = j + 1;
    }
    cells
}

} // verus!
