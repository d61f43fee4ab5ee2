use chrono::{DateTime, TimeZone, Utc};
use chronos_timeledger::ledger::Ledger;
use chronos_timeledger::time::{format_duration, Timestamp};

fn instant(at: DateTime<Utc>) -> Timestamp {
    Timestamp::from_nanos(at.timestamp_nanos_opt().unwrap())
}

#[test]
fn computes_parallel_time_independently() {
    let mut ledger = Ledger::new(instant(Utc.with_ymd_and_hms(2026, 1, 1, 8, 0, 0).unwrap()));
    let project = ledger.add_project("Work".to_string(), None);
    let task_a = ledger
        .add_task(project.clone(), None, "Task A".to_string())
        .expect("task should be created");
    let task_b = ledger
        .add_task(project, None, "Task B".to_string())
        .expect("task should be created");

    ledger
        .start_task(
            &task_a,
            instant(Utc.with_ymd_and_hms(2026, 1, 1, 9, 0, 0).unwrap()),
            None,
        )
        .expect("start should work");
    ledger
        .start_task(
            &task_b,
            instant(Utc.with_ymd_and_hms(2026, 1, 1, 9, 30, 0).unwrap()),
            None,
        )
        .expect("start should work");
    ledger
        .stop_task(
            &task_a,
            instant(Utc.with_ymd_and_hms(2026, 1, 1, 10, 0, 0).unwrap()),
            None,
        )
        .expect("stop should work");
    ledger
        .stop_task(
            &task_b,
            instant(Utc.with_ymd_and_hms(2026, 1, 1, 10, 30, 0).unwrap()),
            None,
        )
        .expect("stop should work");

    let now = instant(Utc.with_ymd_and_hms(2026, 1, 1, 10, 30, 0).unwrap());
    let snapshot = ledger.snapshot(now).expect("day boundaries should resolve");
    let day = ledger.day_for_timestamp(now).unwrap();
    let task_totals = snapshot.totals_for_day(day);
    let total_for = |task_id: &str| {
        task_totals
            .iter()
            .find(|(id, _)| id == task_id)
            .map(|(_, duration)| *duration)
            .expect("task total")
    };
    assert_eq!(format_duration(total_for(&task_a)), "01:00:00");
    assert_eq!(format_duration(total_for(&task_b)), "01:00:00");
}
