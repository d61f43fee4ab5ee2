use chronos_timeledger::ledger::Ledger;
use chronos_timeledger::slicing::DayGrid;
use chronos_timeledger::time::Timestamp;

const SECOND: i128 = 1_000_000_000;
const HOUR: i128 = 3_600 * SECOND;
const DAY: i128 = 24 * HOUR;

fn at(day: i64, hour: i64, minute: i64) -> Timestamp {
    Timestamp::from_nanos(((day * 24 + hour) * 60 + minute) * 60 * 1_000_000_000)
}

/// Days that begin `offset_hours` after midnight on a clock that shows UTC.
fn grid(first_day: i64, days: i64, offset_hours: i128) -> DayGrid {
    let boundaries =
        (0..=days).map(|i| (first_day + i) as i128 * DAY + offset_hours * HOUR).collect();
    DayGrid { first_day, boundaries }
}

fn ledger_with_tasks(count: usize) -> (Ledger, Vec<String>) {
    let mut ledger = Ledger::new(at(0, 0, 0));
    let project = ledger.add_project("Work".to_string(), None);
    let tasks = (0..count)
        .map(|i| ledger.add_task(project.clone(), None, format!("Task {i}")).unwrap())
        .collect();
    (ledger, tasks)
}

fn cells(ledger: &Ledger, now: Timestamp, grids: &Vec<DayGrid>) -> Vec<(i64, String, i128)> {
    let snapshot = ledger.snapshot_on_grids(now, grids);
    let mut cells: Vec<(i64, String, i128)> = snapshot
        .daily_task_totals
        .into_iter()
        .map(|cell| (cell.day, cell.task_id, cell.total))
        .collect();
    cells.sort();
    cells
}

#[test]
fn parallel_sessions_on_one_day() {
    let (mut ledger, tasks) = ledger_with_tasks(2);
    let (a, b) = (tasks[0].clone(), tasks[1].clone());
    ledger.start_task(&a, at(20_000, 9, 0), None).unwrap();
    ledger.start_task(&b, at(20_000, 9, 30), None).unwrap();
    ledger.stop_task(&a, at(20_000, 10, 0), None).unwrap();
    ledger.stop_task(&b, at(20_000, 10, 30), None).unwrap();
    // sessions in closing order: a, then b
    let grids = vec![grid(20_000, 1, 0), grid(20_000, 1, 0)];
    let mut expected = vec![(20_000, a, HOUR), (20_000, b, HOUR)];
    expected.sort();
    assert_eq!(cells(&ledger, at(20_000, 10, 30), &grids), expected);
}

#[test]
fn session_over_midnight_on_given_days() {
    let (mut ledger, tasks) = ledger_with_tasks(1);
    let task = tasks[0].clone();
    ledger.start_task(&task, at(20_000, 23, 0), None).unwrap();
    ledger.stop_task(&task, at(20_001, 1, 0), None).unwrap();
    let grids = vec![grid(20_000, 2, 0)];
    assert_eq!(
        cells(&ledger, at(20_001, 12, 0), &grids),
        vec![(20_000, task.clone(), HOUR), (20_001, task, HOUR)]
    );
}

#[test]
fn session_across_a_shifted_day_start() {
    let (mut ledger, tasks) = ledger_with_tasks(1);
    let task = tasks[0].clone();
    ledger.header.day_start_offset_hours = 4;
    ledger.start_task(&task, at(20_000, 2, 0), None).unwrap();
    ledger.stop_task(&task, at(20_000, 5, 0), None).unwrap();
    // days run from 04:00 to 04:00: the session begins in day 19_999
    let grids = vec![grid(19_999, 2, 4)];
    assert_eq!(
        cells(&ledger, at(20_000, 6, 0), &grids),
        vec![(19_999, task.clone(), 2 * HOUR), (20_000, task, HOUR)]
    );
}

#[test]
fn several_sessions_of_a_task_add_up() {
    let (mut ledger, tasks) = ledger_with_tasks(2);
    let (a, b) = (tasks[0].clone(), tasks[1].clone());
    ledger.add_manual_session(&a, at(20_000, 8, 0), at(20_000, 9, 0), None).unwrap();
    ledger.add_manual_session(&a, at(20_000, 10, 0), at(20_000, 10, 30), None).unwrap();
    ledger.add_manual_session(&b, at(20_000, 22, 0), at(20_001, 2, 0), None).unwrap();
    ledger.start_task(&a, at(20_001, 1, 0), None).unwrap();
    let now = at(20_001, 1, 15);
    let sessions = ledger.sessions(now);
    assert_eq!(sessions.len(), 4);
    let grids: Vec<DayGrid> = (0..4).map(|_| grid(20_000, 2, 0)).collect();
    let mut expected = vec![
        (20_000, a.clone(), HOUR + HOUR / 2),
        (20_001, a, HOUR / 4),
        (20_000, b.clone(), 2 * HOUR),
        (20_001, b, 2 * HOUR),
    ];
    expected.sort();
    assert_eq!(cells(&ledger, now, &grids), expected);
    let snapshot = ledger.snapshot_on_grids(now, &grids);
    assert_eq!(snapshot.active_tasks.len(), 1);
    assert_eq!(snapshot.active_tasks[0].started_at, at(20_001, 1, 0));
}

#[test]
fn sessions_without_a_grid_add_nothing() {
    let (mut ledger, tasks) = ledger_with_tasks(1);
    let task = tasks[0].clone();
    ledger.add_manual_session(&task, at(20_000, 8, 0), at(20_000, 9, 0), None).unwrap();
    ledger.add_manual_session(&task, at(20_000, 10, 0), at(20_000, 11, 0), None).unwrap();
    assert!(cells(&ledger, at(20_001, 0, 0), &Vec::new()).is_empty());
    let one = vec![grid(20_000, 1, 0)];
    assert_eq!(cells(&ledger, at(20_001, 0, 0), &one), vec![(20_000, task.clone(), HOUR)]);
    // a grid that misses its session adds nothing either
    let off = vec![grid(20_000, 1, 0), grid(10, 3, 0)];
    assert_eq!(cells(&ledger, at(20_001, 0, 0), &off), vec![(20_000, task, HOUR)]);
}

#[test]
fn same_log_and_grids_give_the_same_snapshot() {
    let (mut ledger, tasks) = ledger_with_tasks(1);
    let task = tasks[0].clone();
    ledger.add_manual_session(&task, at(20_000, 20, 0), at(20_002, 3, 0), None).unwrap();
    let grids = vec![grid(20_000, 3, 0)];
    let now = at(20_003, 0, 0);
    let first = cells(&ledger, now, &grids);
    assert_eq!(first, cells(&ledger, now, &grids));
    assert_eq!(first.iter().map(|cell| cell.2).sum::<i128>(), 31 * HOUR);
    // the zone's own grids for these sessions are as many as the sessions
    let grids = ledger.session_grids(now).unwrap();
    assert_eq!(grids.len(), 1);
    assert_eq!(
        ledger.snapshot_on_grids(now, &grids).daily_task_totals.len(),
        ledger.snapshot(now).unwrap().daily_task_totals.len()
    );
}
