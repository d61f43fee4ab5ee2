//! Accumulated time per ledger day and task.

use vstd::prelude::*;
use crate::slicing::SliceModel;
use crate::text::same_text;

verus! {

/// The time one task has accumulated on one ledger day, in nanoseconds.
#[derive(Clone, Debug)]
pub struct DayTotal {
    pub day: i64,
    pub task_id: String,
    pub total: i128,
}

impl DayTotal {
    /// The day and task the total belongs to.
    pub open spec fn key(self) -> (int, Seq<char>) {
        (self.day as int, self.task_id@)
    }
}

/// The totals that `cells` hold, by day and task. Of two cells for one day
/// and task the later one counts.
pub open spec fn totals_map(cells: Seq<DayTotal>) -> Map<(int, Seq<char>), int>
    decreases cells.len(),
{
    if cells.len() == 0 {
        Map::empty()
    } else {
        totals_map(cells.drop_last()).insert(cells.last().key(), cells.last().total as int)
    }
}

/// No two cells belong to one day and task.
pub open spec fn distinct_cells(cells: Seq<DayTotal>) -> bool {
    forall|i: int, j: int|
        0 <= i < j < cells.len() ==> (#[trigger] cells[i]).key() != (#[trigger] cells[j]).key()
}

/// Every cell holds a positive total.
pub open spec fn positive_cells(cells: Seq<DayTotal>) -> bool {
    forall|i: int| 0 <= i < cells.len() ==> (#[trigger] cells[i]).total > 0
}

/// The total for `day` and `task`: zero where nothing was accumulated.
pub open spec fn total_of(totals: Map<(int, Seq<char>), int>, day: int, task: Seq<char>) -> int {
    if totals.dom().contains((day, task)) {
        totals[(day, task)]
    } else {
        0
    }
}

/// `totals` with `amount` added for `day` and `task`.
pub open spec fn add_amount(
    totals: Map<(int, Seq<char>), int>,
    day: int,
    task: Seq<char>,
    amount: int,
) -> Map<(int, Seq<char>), int> {
    totals.insert((day, task), total_of(totals, day, task) + amount)
}

/// `totals` with the length of each of `slices` added for its day and `task`.
pub open spec fn add_slices(
    totals: Map<(int, Seq<char>), int>,
    task: Seq<char>,
    slices: Seq<SliceModel>,
) -> Map<(int, Seq<char>), int>
    decreases slices.len(),
{
    if slices.len() == 0 {
        totals
    } else {
        add_amount(
            add_slices(totals, task, slices.drop_last()),
            slices.last().day,
            task,
            slices.last().end - slices.last().start,
        )
    }
}

/// Where the last cell with a given key stands decides what the map holds
/// for that key.
pub proof fn lemma_totals_map_lookup(cells: Seq<DayTotal>, key: (int, Seq<char>), p: int)
    requires
        0 <= p < cells.len(),
        cells[p].key() == key,
        forall|j: int| p < j < cells.len() ==> (#[trigger] cells[j]).key() != key,
    ensures
        totals_map(cells).dom().contains(key),
        totals_map(cells)[key] == cells[p].total,
    decreases cells.len(),
{
    if p < cells.len() - 1 {
        let rest = cells.drop_last();
        assert(rest[p] == cells[p]);
        assert forall|j: int| p < j < rest.len() implies (#[trigger] rest[j]).key() != key by {
            assert(rest[j] == cells[j]);
        }
        assert(cells.last().key() != key);
        lemma_totals_map_lookup(rest, key, p);
    }
}

/// A key that no cell has is not in the map.
pub proof fn lemma_totals_map_absent(cells: Seq<DayTotal>, key: (int, Seq<char>))
    requires
        forall|j: int| 0 <= j < cells.len() ==> (#[trigger] cells[j]).key() != key,
    ensures
        !totals_map(cells).dom().contains(key),
    decreases cells.len(),
{
    if cells.len() > 0 {
        let rest = cells.drop_last();
        assert forall|j: int| 0 <= j < rest.len() implies (#[trigger] rest[j]).key() != key by {
            assert(rest[j] == cells[j]);
        }
        assert(cells.last().key() != key);
        lemma_totals_map_absent(rest, key);
    }
}

/// Replacing the last cell of a key by one with another total replaces the
/// total in the map.
pub proof fn lemma_totals_map_update(cells: Seq<DayTotal>, p: int, cell: DayTotal)
    requires
        0 <= p < cells.len(),
        cells[p].key() == cell.key(),
        forall|j: int| p < j < cells.len() ==> (#[trigger] cells[j]).key() != cell.key(),
    ensures
        totals_map(cells.update(p, cell)) == totals_map(cells).insert(
            cell.key(),
            cell.total as int,
        ),
    decreases cells.len(),
{
    let updated = cells.update(p, cell);
    if p == cells.len() - 1 {
        assert(updated.drop_last() =~= cells.drop_last());
        assert(totals_map(updated) =~= totals_map(cells).insert(cell.key(), cell.total as int));
    } else {
        let rest = cells.drop_last();
        assert(rest[p] == cells[p]);
        assert forall|j: int| p < j < rest.len() implies (#[trigger] rest[j]).key()
            != cell.key() by {
            assert(rest[j] == cells[j]);
        }
        assert(cells.last().key() != cell.key());
        lemma_totals_map_update(rest, p, cell);
        assert(updated.drop_last() =~= rest.update(p, cell));
        assert(updated.last() == cells.last());
        assert(totals_map(updated) =~= totals_map(cells).insert(cell.key(), cell.total as int));
    }
}

/// Where the last cell for `day` and `task_id` stands, if there is one.
pub fn find_cell(cells: &Vec<DayTotal>, day: i64, task_id: &str) -> (found: Option<usize>)
    ensures
        match found {
            Some(p) => p < cells@.len() && cells@[p as int].key() == (day as int, task_id@)
                && forall|j: int|
                p < j < cells@.len() ==> (#[trigger] cells@[j]).key() != (day as int, task_id@),
            None => forall|j: int|
                0 <= j < cells@.len() ==> (#[trigger] cells@[j]).key() != (day as int, task_id@),
        },
{
    let mut i: usize = cells.len();
    while i > 0
        invariant
            i <= cells@.len(),
            forall|j: int|
                i <= j < cells@.len() ==> (#[trigger] cells@[j]).key() != (day as int, task_id@),
        decreases i,
    {
        i = i - 1;
        if cells[i].day == day && same_text(cells[i].task_id.as_str(), task_id) {
            return Some(i);
        }
    }
    None
}

/// Adds `amount` nanoseconds to the total of `task_id` on `day`.
pub fn add_daily_total(cells: &mut Vec<DayTotal>, day: i64, task_id: &str, amount: i128)
    requires
        i128::MIN <= total_of(totals_map(old(cells)@), day as int, task_id@) + amount <= i128::MAX,
    ensures
        totals_map(final(cells)@) == add_amount(
            totals_map(old(cells)@),
            day as int,
            task_id@,
            amount as int,
        ),
        distinct_cells(old(cells)@) ==> distinct_cells(final(cells)@),
        amount > 0 && positive_cells(old(cells)@) ==> positive_cells(final(cells)@),
{
    let ghost before = cells@;
    let ghost key = (day as int, task_id@);
    match find_cell(cells, day, task_id) {
        Some(p) => {
            proof {
                lemma_totals_map_lookup(before, key, p as int);
            }
            let cell = DayTotal {
                day,
                task_id: cells[p].task_id.clone(),
                total: cells[p].total + amount,
            };
            cells.set(p, cell);
            proof {
                lemma_totals_map_update(before, p as int, cell);
            }
        },
        None => {
            proof {
                lemma_totals_map_absent(before, key);
            }
            let cell = DayTotal { day, task_id: task_id.to_owned(), total: amount };
            cells.push(cell);
            proof {
                assert(cells@.drop_last() =~= before);
            }
        },
    }
}

} // verus!
