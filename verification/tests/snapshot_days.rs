use chrono::{DateTime, Local, NaiveDate, TimeZone, Utc};
use chronos_timeledger::days::{ledger_day_at_offset, ledger_day_bounds_utc, ledger_day_for_timestamp};
use chronos_timeledger::domain::TimeEvent;
use chronos_timeledger::error::LedgerError;
use chronos_timeledger::ledger::Ledger;
use chronos_timeledger::slicing::{session_grid, slice_session, DayGrid};
use chronos_timeledger::time::Timestamp;
use chronos_timeledger::zone::{local_naive_to_utc_resolved, resolve_lookup, LocalLookup};

const HOUR: i128 = 3_600_000_000_000;

fn utc(at: DateTime<Utc>) -> Timestamp {
    Timestamp::from_nanos(at.timestamp_nanos_opt().unwrap())
}

fn local(year: i32, month: u32, day: u32, hour: u32, minute: u32) -> Timestamp {
    let at = Local.with_ymd_and_hms(year, month, day, hour, minute, 0).earliest().unwrap();
    Timestamp::from_nanos(at.timestamp_nanos_opt().unwrap())
}

fn day_number(year: i32, month: u32, day: u32) -> i64 {
    let date = NaiveDate::from_ymd_opt(year, month, day).unwrap();
    date.signed_duration_since(NaiveDate::from_ymd_opt(1970, 1, 1).unwrap()).num_days()
}

fn seconds(at: i64) -> Timestamp {
    Timestamp::from_nanos(at * 1_000_000_000)
}

fn ledger_with_task(offset_hours: i32) -> (Ledger, String) {
    let mut ledger = Ledger::new(seconds(0));
    ledger.header.day_start_offset_hours = offset_hours;
    let project = ledger.add_project("Work".to_string(), None);
    let task = ledger.add_task(project, None, "Task".to_string()).unwrap();
    (ledger, task)
}

fn total_on(ledger: &Ledger, now: Timestamp, day: i64, task: &str) -> Option<i128> {
    let snapshot = ledger.snapshot(now).unwrap();
    snapshot.totals_for_day(day).into_iter().find(|(id, _)| id == task).map(|(_, total)| total)
}

#[test]
fn parallel_tasks_are_counted_independently() {
    let mut ledger = Ledger::new(seconds(0));
    let project = ledger.add_project("Work".to_string(), None);
    let a = ledger.add_task(project.clone(), None, "A".to_string()).unwrap();
    let b = ledger.add_task(project, None, "B".to_string()).unwrap();
    ledger.start_task(&a, local(2026, 3, 3, 9, 0), None).unwrap();
    ledger.start_task(&b, local(2026, 3, 3, 9, 30), None).unwrap();
    ledger.stop_task(&a, local(2026, 3, 3, 10, 0), None).unwrap();
    ledger.stop_task(&b, local(2026, 3, 3, 10, 30), None).unwrap();
    let now = local(2026, 3, 3, 10, 30);
    let day = day_number(2026, 3, 3);
    assert_eq!(ledger.day_for_timestamp(now).unwrap(), day);
    assert_eq!(total_on(&ledger, now, day, &a), Some(HOUR));
    assert_eq!(total_on(&ledger, now, day, &b), Some(HOUR));
    let snapshot = ledger.snapshot(now).unwrap();
    assert!(snapshot.active_tasks.is_empty());
    assert_eq!(snapshot.daily_task_totals.len(), 2);
}

#[test]
fn session_over_midnight_is_split_between_two_days() {
    let (mut ledger, task) = ledger_with_task(0);
    ledger.start_task(&task, local(2026, 1, 10, 23, 0), None).unwrap();
    ledger.stop_task(&task, local(2026, 1, 11, 1, 0), None).unwrap();
    let now = local(2026, 1, 11, 12, 0);
    let day = day_number(2026, 1, 10);
    assert_eq!(total_on(&ledger, now, day, &task), Some(HOUR));
    assert_eq!(total_on(&ledger, now, day + 1, &task), Some(HOUR));
    assert_eq!(total_on(&ledger, now, day + 2, &task), None);
    assert_eq!(total_on(&ledger, now, day - 1, &task), None);
}

#[test]
fn day_start_offset_moves_early_hours_to_the_previous_day() {
    let (mut ledger, task) = ledger_with_task(4);
    let day = day_number(2026, 1, 10);
    // with days running from 04:00 to 04:00, 02:00 still belongs to the day before
    assert_eq!(ledger.day_for_timestamp(local(2026, 1, 10, 2, 0)).unwrap(), day - 1);
    assert_eq!(ledger.day_for_timestamp(local(2026, 1, 10, 3, 59)).unwrap(), day - 1);
    assert_eq!(ledger.day_for_timestamp(local(2026, 1, 10, 4, 0)).unwrap(), day);
    assert_eq!(ledger.day_for_timestamp(local(2026, 1, 10, 5, 0)).unwrap(), day);
    ledger.start_task(&task, local(2026, 1, 10, 2, 0), None).unwrap();
    ledger.stop_task(&task, local(2026, 1, 10, 5, 0), None).unwrap();
    let now = local(2026, 1, 10, 6, 0);
    assert_eq!(total_on(&ledger, now, day - 1, &task), Some(2 * HOUR));
    assert_eq!(total_on(&ledger, now, day, &task), Some(HOUR));
    // a session that ends at the boundary stays in the previous day as a whole
    let (mut ledger, task) = ledger_with_task(4);
    ledger.start_task(&task, local(2026, 1, 10, 2, 0), None).unwrap();
    ledger.stop_task(&task, local(2026, 1, 10, 4, 0), None).unwrap();
    assert_eq!(total_on(&ledger, now, day - 1, &task), Some(2 * HOUR));
    assert_eq!(total_on(&ledger, now, day, &task), None);
}

#[test]
fn day_totals_of_a_long_session_add_up_to_its_length() {
    let (mut ledger, task) = ledger_with_task(0);
    let start = local(2026, 2, 1, 18, 15);
    let stop = local(2026, 2, 5, 7, 45);
    ledger.add_manual_session(&task, start, stop, None).unwrap();
    let snapshot = ledger.snapshot(local(2026, 2, 6, 0, 0)).unwrap();
    let sum: i128 = snapshot.daily_task_totals.iter().map(|cell| cell.total).sum();
    assert_eq!(sum, stop.to_nanos() - start.to_nanos());
    assert_eq!(snapshot.daily_task_totals.len(), 5);
    let first = day_number(2026, 2, 1);
    let days: Vec<i64> = snapshot.daily_task_totals.iter().map(|cell| cell.day).collect();
    assert_eq!(days, vec![first, first + 1, first + 2, first + 3, first + 4]);
}

#[test]
fn slices_follow_a_given_grid() {
    let grid = DayGrid { first_day: 10, boundaries: vec![0, 100, 200, 300] };
    let slices = slice_session(Timestamp::from_nanos(50), Timestamp::from_nanos(250), &grid);
    assert_eq!(slices.len(), 3);
    assert_eq!((slices[0].day, slices[0].start, slices[0].end), (10, 50, 100));
    assert_eq!((slices[1].day, slices[1].start, slices[1].end), (11, 100, 200));
    assert_eq!((slices[2].day, slices[2].start, slices[2].end), (12, 200, 250));
    assert_eq!(slices.iter().map(|s| s.length()).sum::<i128>(), 200);
    // no two slices overlap
    assert!(slices[0].end <= slices[1].start);
    assert!(slices[1].end <= slices[2].start);
    // days that the session does not touch give no slice
    let slices = slice_session(Timestamp::from_nanos(120), Timestamp::from_nanos(130), &grid);
    assert_eq!(slices.len(), 1);
    assert_eq!((slices[0].day, slices[0].start, slices[0].end), (11, 120, 130));
    // a grid that does not reach the session loses what lies outside
    let slices = slice_session(Timestamp::from_nanos(-50), Timestamp::from_nanos(350), &grid);
    assert_eq!(slices.iter().map(|s| s.length()).sum::<i128>(), 300);
    assert!(grid.tiles(Timestamp::from_nanos(50), Timestamp::from_nanos(250)));
    assert!(grid.tiles(Timestamp::from_nanos(0), Timestamp::from_nanos(300)));
    assert!(!grid.tiles(Timestamp::from_nanos(-50), Timestamp::from_nanos(250)));
    assert!(!grid.tiles(Timestamp::from_nanos(50), Timestamp::from_nanos(301)));
    // days that run backwards count what lies between them twice or not at all
    let tangled = DayGrid { first_day: 10, boundaries: vec![0, 200, 100, 300] };
    assert!(!tangled.tiles(Timestamp::from_nanos(50), Timestamp::from_nanos(250)));
    let slices = slice_session(Timestamp::from_nanos(50), Timestamp::from_nanos(250), &tangled);
    assert_eq!(slices.iter().map(|s| s.length()).sum::<i128>(), 300);
    let empty = DayGrid { first_day: 0, boundaries: vec![] };
    assert!(!empty.tiles(Timestamp::from_nanos(0), Timestamp::from_nanos(0)));
    assert!(slice_session(Timestamp::from_nanos(0), Timestamp::from_nanos(9), &empty).is_empty());
    let single = DayGrid { first_day: 0, boundaries: vec![5] };
    assert!(slice_session(Timestamp::from_nanos(0), Timestamp::from_nanos(9), &single).is_empty());
}

#[test]
fn session_grid_covers_the_session() {
    let start = local(2026, 1, 10, 23, 0);
    let stop = local(2026, 1, 12, 1, 0);
    let grid = session_grid(start, stop, 0).unwrap();
    assert_eq!(grid.first_day, day_number(2026, 1, 10));
    assert_eq!(grid.boundaries.len(), 4);
    assert_eq!(grid.boundaries[0], local(2026, 1, 10, 0, 0).to_nanos());
    assert_eq!(grid.boundaries[3], local(2026, 1, 13, 0, 0).to_nanos());
    assert!(grid.boundaries.windows(2).all(|pair| pair[0] < pair[1]));
    assert!(grid.tiles(start, stop));
    let slices = slice_session(start, stop, &grid);
    assert_eq!(slices.len(), 3);
    assert_eq!(
        slices.iter().map(|slice| slice.length()).sum::<i128>(),
        stop.to_nanos() - start.to_nanos()
    );
    let none = session_grid(stop, start, 0).unwrap();
    assert!(none.boundaries.is_empty());
    let none = session_grid(start, start, 0).unwrap();
    assert!(none.boundaries.is_empty());
}

#[test]
fn snapshot_is_the_same_when_taken_twice() {
    let (mut ledger, task) = ledger_with_task(0);
    ledger.start_task(&task, local(2026, 1, 10, 23, 0), None).unwrap();
    ledger.stop_task(&task, local(2026, 1, 11, 1, 0), None).unwrap();
    ledger.start_task(&task, local(2026, 1, 11, 2, 0), Some("again".to_string())).unwrap();
    let now = local(2026, 1, 11, 3, 0);
    let first = ledger.snapshot(now).unwrap();
    let second = ledger.snapshot(now).unwrap();
    assert_eq!(first.active_tasks.len(), 1);
    assert_eq!(first.active_tasks.len(), second.active_tasks.len());
    assert_eq!(first.active_tasks[0].task_id, second.active_tasks[0].task_id);
    assert_eq!(first.active_tasks[0].started_at, second.active_tasks[0].started_at);
    assert_eq!(first.active_tasks[0].note, second.active_tasks[0].note);
    assert_eq!(first.daily_task_totals.len(), second.daily_task_totals.len());
    for (a, b) in first.daily_task_totals.iter().zip(second.daily_task_totals.iter()) {
        assert_eq!((a.day, &a.task_id, a.total), (b.day, &b.task_id, b.total));
    }
}

#[test]
fn running_task_counts_through_now() {
    let (mut ledger, task) = ledger_with_task(0);
    ledger.start_task(&task, local(2026, 1, 10, 9, 0), Some("deep".to_string())).unwrap();
    let day = day_number(2026, 1, 10);
    let now = local(2026, 1, 10, 9, 45);
    let snapshot = ledger.snapshot(now).unwrap();
    assert!(snapshot.is_active(&task));
    let active = snapshot.active_session(&task).unwrap();
    assert_eq!(active.started_at, local(2026, 1, 10, 9, 0));
    assert_eq!(active.note.as_deref(), Some("deep"));
    assert_eq!(active.start_event_index, 0);
    assert_eq!(total_on(&ledger, now, day, &task), Some(HOUR * 3 / 4));
    // read before its start, the task is running but has no time yet
    let early = local(2026, 1, 10, 8, 0);
    let snapshot = ledger.snapshot(early).unwrap();
    assert!(snapshot.is_active(&task));
    assert!(snapshot.daily_task_totals.is_empty());
    assert!(snapshot.active_session("other").is_none());
}

#[test]
fn replay_goes_by_time_and_then_by_log_position() {
    let (mut ledger, task) = ledger_with_task(0);
    // appended out of order: the stop stands before its start in the log
    ledger.add_manual_session(&task, seconds(5_000), seconds(6_000), None).unwrap();
    ledger.add_manual_session(&task, seconds(1_000), seconds(2_000), Some("first".to_string())).unwrap();
    let sessions = ledger.sessions(seconds(10_000));
    assert_eq!(sessions.len(), 2);
    assert_eq!((sessions[0].start, sessions[0].stop), (seconds(1_000), seconds(2_000)));
    assert_eq!(sessions[0].note.as_deref(), Some("first"));
    assert_eq!((sessions[0].start_event_index, sessions[0].stop_event_index), (2, Some(3)));
    assert_eq!((sessions[1].start, sessions[1].stop), (seconds(5_000), seconds(6_000)));
    assert_eq!((sessions[1].start_event_index, sessions[1].stop_event_index), (0, Some(1)));
}

#[test]
fn replay_handles_events_that_break_the_alternation() {
    let (mut ledger, task) = ledger_with_task(0);
    // a stop with nothing open is passed over
    ledger.events.push(TimeEvent::stop(task.clone(), seconds(10), None));
    // of two starts in a row the later one counts
    ledger.events.push(TimeEvent::start(task.clone(), seconds(100), Some("old".to_string())));
    ledger.events.push(TimeEvent::start(task.clone(), seconds(200), Some("new".to_string())));
    ledger.events.push(TimeEvent::stop(task.clone(), seconds(300), None));
    // a start and a stop at one instant leave no session
    ledger.events.push(TimeEvent::start(task.clone(), seconds(400), None));
    ledger.events.push(TimeEvent::stop(task.clone(), seconds(400), None));
    let sessions = ledger.sessions(seconds(1_000));
    assert_eq!(sessions.len(), 1);
    assert_eq!((sessions[0].start, sessions[0].stop), (seconds(200), seconds(300)));
    assert_eq!(sessions[0].note.as_deref(), Some("new"));
    assert_eq!((sessions[0].start_event_index, sessions[0].stop_event_index), (2, Some(3)));
    assert!(!ledger.is_task_running(&task));
    let snapshot = ledger.snapshot(seconds(1_000)).unwrap();
    let total: i128 = snapshot.daily_task_totals.iter().map(|cell| cell.total).sum();
    assert_eq!(total, 100_000_000_000);
}

#[test]
fn ledger_day_under_a_fixed_offset() {
    // 1970-01-02T00:00:00Z
    let at = seconds(86_400);
    assert_eq!(ledger_day_at_offset(at, 0, 0), 1);
    assert_eq!(ledger_day_at_offset(at, 0, -1), 0);
    assert_eq!(ledger_day_at_offset(at, 0, 3_600), 1);
    assert_eq!(ledger_day_at_offset(at, 4, 0), 0);
    assert_eq!(ledger_day_at_offset(at, -4, 0), 1);
    assert_eq!(ledger_day_at_offset(at, 4, 4 * 3_600), 1);
    assert_eq!(ledger_day_at_offset(Timestamp::from_nanos(-1), 0, 0), -1);
    assert_eq!(ledger_day_at_offset(Timestamp::from_nanos(0), 0, 0), 0);
    assert_eq!(ledger_day_at_offset(Timestamp::from_nanos(i64::MAX), 0, 0), 106_751);
    assert_eq!(ledger_day_at_offset(Timestamp::from_nanos(i64::MIN), 0, 0), -106_752);
    // the local day is never more than a day away from the day under UTC
    let day = ledger_day_for_timestamp(at, 0).unwrap();
    assert!((0..=2).contains(&day));
}

#[test]
fn day_bounds_are_a_day_apart() {
    let ledger = Ledger::new(seconds(0));
    let day = day_number(2026, 1, 10);
    let window = ledger.day_bounds_utc(day).unwrap();
    assert_eq!(window.day, day);
    assert_eq!(window.start, local(2026, 1, 10, 0, 0).to_nanos());
    assert_eq!(window.end, local(2026, 1, 11, 0, 0).to_nanos());
    let shifted = ledger_day_bounds_utc(day, 4).unwrap();
    assert_eq!(shifted.start, local(2026, 1, 10, 4, 0).to_nanos());
    assert_eq!(shifted.end, local(2026, 1, 11, 4, 0).to_nanos());
    assert_eq!(ledger.day_start_offset(), 0);
}

#[test]
fn a_day_outside_the_calendar_cannot_be_resolved() {
    assert_eq!(ledger_day_bounds_utc(i64::MAX, 0).unwrap_err(), LedgerError::ConfigurationFatal);
    assert_eq!(ledger_day_bounds_utc(i64::MIN, 0).unwrap_err(), LedgerError::ConfigurationFatal);
    assert_eq!(ledger_day_bounds_utc(200_000_000, 0).unwrap_err(), LedgerError::ConfigurationFatal);
    assert_eq!(
        local_naive_to_utc_resolved(9_000_000_000_000).unwrap_err(),
        LedgerError::ConfigurationFatal
    );
    assert_eq!(
        local_naive_to_utc_resolved(-9_000_000_000_000).unwrap_err(),
        LedgerError::ConfigurationFatal
    );
}

#[test]
fn ambiguous_local_time_resolves_to_the_earlier_instant() {
    assert_eq!(resolve_lookup(LocalLookup::Missing), None);
    assert_eq!(resolve_lookup(LocalLookup::Single(70)), Some(70));
    assert_eq!(resolve_lookup(LocalLookup::Ambiguous(100, 3_700)), Some(100));
    assert_eq!(resolve_lookup(LocalLookup::Ambiguous(3_700, 100)), Some(100));
    assert_eq!(resolve_lookup(LocalLookup::Ambiguous(-5, -5)), Some(-5));
}

#[test]
fn local_time_resolves_as_the_zone_says() {
    let expected = Local.with_ymd_and_hms(2026, 1, 10, 0, 0, 0).earliest().unwrap().timestamp();
    let naive = Utc.with_ymd_and_hms(2026, 1, 10, 0, 0, 0).unwrap().timestamp();
    assert_eq!(local_naive_to_utc_resolved(naive), Ok(expected));
    let window = ledger_day_bounds_utc(day_number(2026, 1, 10), 0).unwrap();
    assert_eq!(window.start, utc(Utc.timestamp_opt(expected, 0).unwrap()).to_nanos());
}
