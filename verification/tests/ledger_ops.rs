use chronos_timeledger::domain::{EventKind, Task};
use chronos_timeledger::error::{ErrorKind, LedgerError};
use chronos_timeledger::ident::generate_id;
use chronos_timeledger::ledger::{Ledger, LedgerHeader};
use chronos_timeledger::time::Timestamp;

fn at(seconds: i64) -> Timestamp {
    Timestamp::from_nanos(seconds * 1_000_000_000)
}

fn ledger_with_task() -> (Ledger, String) {
    let mut ledger = Ledger::new(at(0));
    let project = ledger.add_project("Work".to_string(), None);
    let task = ledger.add_task(project, None, "Task".to_string()).unwrap();
    (ledger, task)
}

#[test]
fn fresh_ledger_is_empty() {
    let ledger = Ledger::new(at(42));
    assert_eq!(ledger.header.schema_version, 1);
    assert_eq!(ledger.header.created_at, at(42));
    assert_eq!(ledger.header.day_start_offset_hours, 0);
    assert!(ledger.header.projects.is_empty());
    assert!(ledger.header.tasks.is_empty());
    assert!(ledger.header.categories.is_empty());
    assert!(ledger.events.is_empty());
    let header = LedgerHeader::new(at(7));
    assert_eq!(header.schema_version, 1);
    assert_eq!(header.created_at, at(7));
}

#[test]
fn generated_ids_are_eight_letters_or_digits() {
    for _ in 0..50 {
        let id = generate_id();
        assert_eq!(id.chars().count(), 8);
        assert!(id.chars().all(|c| c.is_ascii_alphanumeric()));
    }
}

#[test]
fn registers_and_finds_entities() {
    let mut ledger = Ledger::new(at(0));
    let project = ledger.add_project("Work".to_string(), Some("blue".to_string()));
    let category = ledger.add_category("Deep".to_string(), Some("focus".to_string()));
    let task = ledger
        .add_task(project.clone(), Some(category.clone()), "Write\nmore".to_string())
        .unwrap();
    assert_eq!(project.len(), 8);
    let found = ledger.project(&project).unwrap();
    assert_eq!(found.name, "Work");
    assert_eq!(found.color.as_deref(), Some("blue"));
    assert!(!found.archived);
    let found = ledger.category(&category).unwrap();
    assert_eq!(found.name, "Deep");
    assert_eq!(found.description.as_deref(), Some("focus"));
    let found = ledger.task(&task).unwrap();
    assert_eq!(found.project_id, project);
    assert_eq!(found.category_id.as_deref(), Some(category.as_str()));
    assert_eq!(found.description, "Write\nmore");
    assert!(!found.archived);
    assert!(ledger.project("missing").is_none());
    assert!(ledger.category(&project).is_none());
    assert!(ledger.task("").is_none());
}

#[test]
fn lookup_returns_the_first_of_two_with_one_id() {
    let mut ledger = Ledger::new(at(0));
    ledger.header.tasks.push(Task {
        id: "same".to_string(),
        project_id: "p".to_string(),
        category_id: None,
        description: "first".to_string(),
        archived: false,
    });
    ledger.header.tasks.push(Task {
        id: "same".to_string(),
        project_id: "p".to_string(),
        category_id: None,
        description: "second".to_string(),
        archived: false,
    });
    assert_eq!(ledger.task("same").unwrap().description, "first");
}

#[test]
fn add_task_needs_its_project_and_category() {
    let mut ledger = Ledger::new(at(0));
    let project = ledger.add_project("Work".to_string(), None);
    let refused = ledger.add_task("nope".to_string(), None, "x".to_string()).unwrap_err();
    assert_eq!(refused, LedgerError::ProjectNotFound);
    assert_eq!(refused.kind(), ErrorKind::NotFound);
    let refused = ledger
        .add_task(project.clone(), Some("nope".to_string()), "x".to_string())
        .unwrap_err();
    assert_eq!(refused, LedgerError::CategoryNotFound);
    assert_eq!(refused.kind(), ErrorKind::NotFound);
    // an unknown project is reported before an unknown category
    let refused = ledger
        .add_task("nope".to_string(), Some("nope".to_string()), "x".to_string())
        .unwrap_err();
    assert_eq!(refused, LedgerError::ProjectNotFound);
    assert!(ledger.header.tasks.is_empty());
    assert!(ledger.add_task(project, None, "x".to_string()).is_ok());
    assert_eq!(ledger.header.tasks.len(), 1);
}

#[test]
fn start_appends_a_start_event() {
    let (mut ledger, task) = ledger_with_task();
    ledger.start_task(&task, at(100), Some("note".to_string())).unwrap();
    assert_eq!(ledger.events.len(), 1);
    assert_eq!(ledger.events[0].timestamp, at(100));
    match &ledger.events[0].kind {
        EventKind::Start { task_id, note } => {
            assert_eq!(task_id, &task);
            assert_eq!(note.as_deref(), Some("note"));
        }
        EventKind::Stop { .. } => panic!("a start was expected"),
    }
    assert!(ledger.is_task_running(&task));
}

#[test]
fn starting_a_running_task_is_refused() {
    let (mut ledger, task) = ledger_with_task();
    ledger.start_task(&task, at(100), None).unwrap();
    let snapshot = ledger.snapshot(at(200)).unwrap();
    assert!(snapshot.is_active(&task));
    let refused = ledger.start_task(&task, at(200), None).unwrap_err();
    assert_eq!(refused, LedgerError::TaskAlreadyRunning);
    assert_eq!(refused.kind(), ErrorKind::InvalidState);
    assert_eq!(ledger.events.len(), 1);
}

#[test]
fn stopping_an_idle_task_is_refused() {
    let (mut ledger, task) = ledger_with_task();
    let snapshot = ledger.snapshot(at(100)).unwrap();
    assert!(!snapshot.is_active(&task));
    let refused = ledger.stop_task(&task, at(100), None).unwrap_err();
    assert_eq!(refused, LedgerError::TaskNotRunning);
    assert_eq!(refused.kind(), ErrorKind::InvalidState);
    assert!(ledger.events.is_empty());
    ledger.start_task(&task, at(100), None).unwrap();
    ledger.stop_task(&task, at(200), None).unwrap();
    let refused = ledger.stop_task(&task, at(300), None).unwrap_err();
    assert_eq!(refused, LedgerError::TaskNotRunning);
    assert_eq!(ledger.events.len(), 2);
}

#[test]
fn unknown_and_archived_tasks_are_refused() {
    let (mut ledger, task) = ledger_with_task();
    let refused = ledger.start_task("unknown", at(1), None).unwrap_err();
    assert_eq!(refused, LedgerError::TaskNotFound);
    assert_eq!(refused.kind(), ErrorKind::NotFound);
    assert_eq!(ledger.stop_task("unknown", at(1), None).unwrap_err(), LedgerError::TaskNotFound);
    assert_eq!(
        ledger.add_manual_session("unknown", at(1), at(2), None).unwrap_err(),
        LedgerError::TaskNotFound
    );
    ledger.header.tasks[0].archived = true;
    let refused = ledger.start_task(&task, at(1), None).unwrap_err();
    assert_eq!(refused, LedgerError::TaskArchived);
    assert_eq!(refused.kind(), ErrorKind::InvalidState);
    assert!(ledger.events.is_empty());
}

#[test]
fn an_archived_running_task_can_still_be_stopped() {
    let (mut ledger, task) = ledger_with_task();
    ledger.start_task(&task, at(10), None).unwrap();
    ledger.header.tasks[0].archived = true;
    ledger.stop_task(&task, at(20), Some("done".to_string())).unwrap();
    assert_eq!(ledger.events.len(), 2);
    match &ledger.events[1].kind {
        EventKind::Stop { task_id, note } => {
            assert_eq!(task_id, &task);
            assert_eq!(note.as_deref(), Some("done"));
        }
        EventKind::Start { .. } => panic!("a stop was expected"),
    }
}

#[test]
fn manual_session_with_an_empty_range_is_refused() {
    let (mut ledger, task) = ledger_with_task();
    let refused = ledger.add_manual_session(&task, at(200), at(100), None).unwrap_err();
    assert_eq!(refused, LedgerError::InvalidRange);
    assert_eq!(refused.kind(), ErrorKind::InvalidRange);
    let refused = ledger.add_manual_session(&task, at(200), at(200), None).unwrap_err();
    assert_eq!(refused, LedgerError::InvalidRange);
    assert!(ledger.events.is_empty());
}

#[test]
fn manual_session_appends_a_start_and_a_stop() {
    let (mut ledger, task) = ledger_with_task();
    ledger.start_task(&task, at(1_000), None).unwrap();
    // a task that is running can still get a past session logged
    ledger.add_manual_session(&task, at(100), at(200), Some("earlier".to_string())).unwrap();
    assert_eq!(ledger.events.len(), 3);
    assert_eq!(ledger.events[1].timestamp, at(100));
    assert_eq!(ledger.events[2].timestamp, at(200));
    assert!(matches!(&ledger.events[1].kind,
        EventKind::Start { task_id, note } if task_id == &task && note.as_deref() == Some("earlier")));
    assert!(matches!(&ledger.events[2].kind,
        EventKind::Stop { task_id, note } if task_id == &task && note.is_none()));
}
