use chronos_timeledger::corrections::{
    next_start_for_task, previous_stop_for_task, sorted_task_events, TaskEventKind,
};
use chronos_timeledger::domain::{EventKind, TimeEvent};
use chronos_timeledger::error::{ErrorKind, LedgerError};
use chronos_timeledger::ledger::Ledger;
use chronos_timeledger::time::Timestamp;

fn at(seconds: i64) -> Timestamp {
    Timestamp::from_nanos(seconds * 1_000_000_000)
}

/// Task `a`: [100, 200) and [300, 400); task `b`: [150, 350). Log positions:
/// 0 a start, 1 b start, 2 a stop, 3 a start, 4 b stop, 5 a stop.
fn busy_ledger() -> (Ledger, String, String) {
    let mut ledger = Ledger::new(at(0));
    let project = ledger.add_project("Work".to_string(), None);
    let a = ledger.add_task(project.clone(), None, "A".to_string()).unwrap();
    let b = ledger.add_task(project, None, "B".to_string()).unwrap();
    ledger.start_task(&a, at(100), None).unwrap();
    ledger.start_task(&b, at(150), None).unwrap();
    ledger.stop_task(&a, at(200), None).unwrap();
    ledger.start_task(&a, at(300), None).unwrap();
    ledger.stop_task(&b, at(350), None).unwrap();
    ledger.stop_task(&a, at(400), None).unwrap();
    (ledger, a, b)
}

fn instants(ledger: &Ledger) -> Vec<i64> {
    ledger.events.iter().map(|event| (event.timestamp.to_nanos() / 1_000_000_000) as i64).collect()
}

#[test]
fn task_history_is_ordered_by_time_then_position() {
    let (mut ledger, a, b) = busy_ledger();
    let history = sorted_task_events(&ledger.events, &a);
    let read: Vec<(usize, i64, TaskEventKind)> = history
        .iter()
        .map(|entry| (entry.index, (entry.timestamp.to_nanos() / 1_000_000_000) as i64, entry.kind))
        .collect();
    assert_eq!(
        read,
        vec![
            (0, 100, TaskEventKind::Start),
            (2, 200, TaskEventKind::Stop),
            (3, 300, TaskEventKind::Start),
            (5, 400, TaskEventKind::Stop),
        ]
    );
    assert_eq!(sorted_task_events(&ledger.events, &b).len(), 2);
    assert!(sorted_task_events(&ledger.events, "nobody").is_empty());
    // an event appended later but dated earlier is read earlier; ties go by position
    ledger.events.push(TimeEvent::stop(a.clone(), at(100), None));
    ledger.events.push(TimeEvent::start(a.clone(), at(50), None));
    let history = sorted_task_events(&ledger.events, &a);
    let order: Vec<usize> = history.iter().map(|entry| entry.index).collect();
    assert_eq!(order, vec![7, 0, 6, 2, 3, 5]);
}

#[test]
fn neighbours_of_an_event_are_found_in_its_task() {
    let (ledger, a, b) = busy_ledger();
    assert_eq!(previous_stop_for_task(&ledger.events, &a, 0), None);
    assert_eq!(previous_stop_for_task(&ledger.events, &a, 3), Some(at(200)));
    assert_eq!(next_start_for_task(&ledger.events, &a, 2), Some(at(300)));
    assert_eq!(next_start_for_task(&ledger.events, &a, 5), None);
    assert_eq!(previous_stop_for_task(&ledger.events, &b, 1), None);
    assert_eq!(next_start_for_task(&ledger.events, &b, 4), None);
    // a position that holds an event of the other kind or of another task has no neighbour
    assert_eq!(previous_stop_for_task(&ledger.events, &a, 2), None);
    assert_eq!(next_start_for_task(&ledger.events, &a, 3), None);
    assert_eq!(previous_stop_for_task(&ledger.events, &b, 3), None);
    assert_eq!(previous_stop_for_task(&ledger.events, &a, 99), None);
}

#[test]
fn a_start_can_move_within_its_bounds() {
    let (mut ledger, _, _) = busy_ledger();
    ledger.retime_start(3, at(250), at(1_000)).unwrap();
    assert_eq!(instants(&ledger), vec![100, 150, 200, 250, 350, 400]);
    // onto the previous stop is allowed
    ledger.retime_start(3, at(200), at(1_000)).unwrap();
    assert_eq!(instants(&ledger), vec![100, 150, 200, 200, 350, 400]);
    assert!(matches!(&ledger.events[3].kind, EventKind::Start { .. }));
    // the first start of a task has no lower bound
    ledger.retime_start(0, at(-50), at(1_000)).unwrap();
    assert_eq!(instants(&ledger), vec![-50, 150, 200, 200, 350, 400]);
}

#[test]
fn a_start_cannot_cross_its_neighbours() {
    let (mut ledger, _, _) = busy_ledger();
    let before = instants(&ledger);
    let refused = ledger.retime_start(3, at(199), at(1_000)).unwrap_err();
    assert_eq!(refused, LedgerError::OrderingViolation);
    assert_eq!(refused.kind(), ErrorKind::OrderingViolation);
    assert_eq!(instants(&ledger), before);
    let refused = ledger.retime_start(3, at(400), at(1_000)).unwrap_err();
    assert_eq!(refused, LedgerError::InvalidRange);
    assert_eq!(refused.kind(), ErrorKind::InvalidRange);
    assert_eq!(ledger.retime_start(3, at(999), at(1_000)).unwrap_err(), LedgerError::InvalidRange);
    assert_eq!(ledger.retime_start(0, at(200), at(1_000)).unwrap_err(), LedgerError::InvalidRange);
    assert_eq!(instants(&ledger), before);
}

#[test]
fn a_stop_can_move_within_its_bounds() {
    let (mut ledger, _, _) = busy_ledger();
    ledger.retime_stop(2, at(300), at(1_000)).unwrap();
    assert_eq!(instants(&ledger), vec![100, 150, 300, 300, 350, 400]);
    ledger.retime_stop(2, at(101), at(1_000)).unwrap();
    assert_eq!(instants(&ledger), vec![100, 150, 101, 300, 350, 400]);
    // the last stop of a task can move up to now
    ledger.retime_stop(5, at(1_000), at(1_000)).unwrap();
    assert_eq!(instants(&ledger), vec![100, 150, 101, 300, 350, 1_000]);
    assert!(matches!(&ledger.events[5].kind, EventKind::Stop { .. }));
}

#[test]
fn a_stop_cannot_cross_its_neighbours() {
    let (mut ledger, _, _) = busy_ledger();
    let before = instants(&ledger);
    let refused = ledger.retime_stop(2, at(301), at(1_000)).unwrap_err();
    assert_eq!(refused, LedgerError::OrderingViolation);
    assert_eq!(ledger.retime_stop(2, at(100), at(1_000)).unwrap_err(), LedgerError::InvalidRange);
    assert_eq!(ledger.retime_stop(2, at(50), at(1_000)).unwrap_err(), LedgerError::InvalidRange);
    assert_eq!(
        ledger.retime_stop(5, at(1_001), at(1_000)).unwrap_err(),
        LedgerError::OrderingViolation
    );
    assert_eq!(instants(&ledger), before);
}

#[test]
fn retiming_needs_an_event_of_the_right_kind_with_a_session() {
    let (mut ledger, a, _) = busy_ledger();
    let before = instants(&ledger);
    let refused = ledger.retime_start(2, at(250), at(1_000)).unwrap_err();
    assert_eq!(refused, LedgerError::EventNotFound);
    assert_eq!(refused.kind(), ErrorKind::NotFound);
    assert_eq!(ledger.retime_stop(3, at(250), at(1_000)).unwrap_err(), LedgerError::EventNotFound);
    assert_eq!(ledger.retime_start(6, at(250), at(1_000)).unwrap_err(), LedgerError::EventNotFound);
    assert_eq!(ledger.retime_stop(6, at(250), at(1_000)).unwrap_err(), LedgerError::EventNotFound);
    assert_eq!(instants(&ledger), before);
    // a stop that closes nothing belongs to no session
    ledger.events.push(TimeEvent::stop(a.clone(), at(900), None));
    assert_eq!(ledger.retime_stop(6, at(950), at(1_000)).unwrap_err(), LedgerError::EventNotFound);
}

#[test]
fn the_start_of_a_running_session_is_bounded_by_now() {
    let (mut ledger, a, _) = busy_ledger();
    ledger.start_task(&a, at(500), None).unwrap();
    assert_eq!(ledger.retime_start(6, at(600), at(600)).unwrap_err(), LedgerError::InvalidRange);
    assert_eq!(
        ledger.retime_start(6, at(399), at(600)).unwrap_err(),
        LedgerError::OrderingViolation
    );
    ledger.retime_start(6, at(599), at(600)).unwrap();
    assert_eq!(ledger.events[6].timestamp, at(599));
    ledger.retime_start(6, at(400), at(600)).unwrap();
    assert_eq!(ledger.events[6].timestamp, at(400));
}

#[test]
fn deleting_an_interval_removes_its_two_events() {
    let (mut ledger, a, b) = busy_ledger();
    let day = ledger.day_for_timestamp(at(100)).unwrap();
    let before = ledger.snapshot(at(1_000)).unwrap().totals_for_day(day);
    assert_eq!(before.iter().find(|(id, _)| id == &a).unwrap().1, 200_000_000_000);
    assert_eq!(before.iter().find(|(id, _)| id == &b).unwrap().1, 200_000_000_000);
    ledger.delete_interval(0, Some(2)).unwrap();
    assert_eq!(instants(&ledger), vec![150, 300, 350, 400]);
    assert!(matches!(&ledger.events[0].kind, EventKind::Start { task_id, .. } if task_id == &b));
    assert!(matches!(&ledger.events[1].kind, EventKind::Start { task_id, .. } if task_id == &a));
    assert!(matches!(&ledger.events[2].kind, EventKind::Stop { task_id, .. } if task_id == &b));
    assert!(matches!(&ledger.events[3].kind, EventKind::Stop { task_id, .. } if task_id == &a));
    let after = ledger.snapshot(at(1_000)).unwrap().totals_for_day(day);
    assert_eq!(after.iter().find(|(id, _)| id == &a).unwrap().1, 100_000_000_000);
    assert_eq!(after.iter().find(|(id, _)| id == &b).unwrap().1, 200_000_000_000);
    ledger.delete_interval(1, Some(3)).unwrap();
    assert_eq!(instants(&ledger), vec![150, 350]);
    let after = ledger.snapshot(at(1_000)).unwrap().totals_for_day(day);
    assert!(after.iter().all(|(id, _)| id != &a));
    assert_eq!(after.len(), 1);
}

#[test]
fn deleting_a_running_interval_removes_only_its_start() {
    let (mut ledger, a, _) = busy_ledger();
    ledger.start_task(&a, at(500), None).unwrap();
    assert!(ledger.is_task_running(&a));
    ledger.delete_interval(6, None).unwrap();
    assert_eq!(instants(&ledger), vec![100, 150, 200, 300, 350, 400]);
    assert!(!ledger.is_task_running(&a));
}

#[test]
fn deleting_works_when_the_stop_stands_before_the_start() {
    let (mut ledger, a, _) = busy_ledger();
    ledger.events.insert(0, TimeEvent::stop(a.clone(), at(450), None));
    // positions: 0 stop(450), 1 a start(100), 2 b start, 3 a stop(200), ...
    ledger.events.push(TimeEvent::start(a.clone(), at(420), None));
    ledger.delete_interval(7, Some(0)).unwrap();
    assert_eq!(instants(&ledger), vec![100, 150, 200, 300, 350, 400]);
}

#[test]
fn deleting_needs_a_start_and_a_stop() {
    let (mut ledger, _, _) = busy_ledger();
    let before = instants(&ledger);
    let refused = ledger.delete_interval(6, None).unwrap_err();
    assert_eq!(refused, LedgerError::EventNotFound);
    assert_eq!(refused.kind(), ErrorKind::NotFound);
    assert_eq!(ledger.delete_interval(2, None).unwrap_err(), LedgerError::EventNotFound);
    assert_eq!(ledger.delete_interval(0, Some(6)).unwrap_err(), LedgerError::EventNotFound);
    assert_eq!(ledger.delete_interval(0, Some(1)).unwrap_err(), LedgerError::EventNotFound);
    assert_eq!(ledger.delete_interval(0, Some(0)).unwrap_err(), LedgerError::EventNotFound);
    assert_eq!(instants(&ledger), before);
}
