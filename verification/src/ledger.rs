//! The ledger: the registry of projects, categories and tasks, and the event
//! log, with the operations that extend them.

use vstd::prelude::*;
use crate::days::{
    day_in_reach, day_start_local, ledger_day, near_day_start, ledger_day_bounds_utc, ledger_day_for_timestamp, DayWindow,
    NANOS_PER_HOUR,
};
use crate::domain::{log_model, optional_text, Category, EventModel, Project, Task, TimeEvent};
use crate::error::{ErrorKind, LedgerError};
use crate::ident::{generate_id, is_id};
use crate::replay::{
    collect_sessions, distinct_tasks, find_active, is_running, reconstruct, replay, replay_events,
    session_models, sessions_at, SessionRecord,
};
use crate::slicing::{DayGrid, GridModel};
use crate::snapshot::{
    accumulate_on_grids, collect_grids, grid_models, shorter, totals_after, zone_grids,
    LedgerSnapshot,
};
use crate::text::same_text;
use crate::zone::probe_range;
use crate::time::Timestamp;
use crate::totals::{distinct_cells, positive_cells};

verus! {

/// What a ledger holds besides its event log.
#[derive(Clone, Debug)]
pub struct LedgerHeader {
    pub schema_version: u32,
    pub created_at: Timestamp,
    /// How many hours after local midnight a ledger day begins.
    pub day_start_offset_hours: i32,
    pub projects: Vec<Project>,
    pub tasks: Vec<Task>,
    pub categories: Vec<Category>,
}

/// The registry and the event log of one tracked workspace.
#[derive(Clone, Debug)]
pub struct Ledger {
    pub header: LedgerHeader,
    pub events: Vec<TimeEvent>,
}

/// The first project with the given id.
pub open spec fn lookup_project(projects: Seq<Project>, id: Seq<char>) -> Option<Project>
    decreases projects.len(),
{
    if projects.len() == 0 {
        None
    } else if projects[0].id@ == id {
        Some(projects[0])
    } else {
        lookup_project(projects.drop_first(), id)
    }
}

/// The first category with the given id.
pub open spec fn lookup_category(categories: Seq<Category>, id: Seq<char>) -> Option<Category>
    decreases categories.len(),
{
    if categories.len() == 0 {
        None
    } else if categories[0].id@ == id {
        Some(categories[0])
    } else {
        lookup_category(categories.drop_first(), id)
    }
}

/// The first task with the given id.
pub open spec fn lookup_task(tasks: Seq<Task>, id: Seq<char>) -> Option<Task>
    decreases tasks.len(),
{
    if tasks.len() == 0 {
        None
    } else if tasks[0].id@ == id {
        Some(tasks[0])
    } else {
        lookup_task(tasks.drop_first(), id)
    }
}

/// Where in `projects` the first project with the given id stands.
pub fn project_position(projects: &Vec<Project>, id: &str) -> (found: Option<usize>)
    ensures
        match found {
            Some(k) => k < projects@.len() && lookup_project(projects@, id@) == Some(
                projects@[k as int],
            ) && projects@[k as int].id@ == id@ && forall|j: int|
                0 <= j < k ==> (#[trigger] projects@[j]).id@ != id@,
            None => lookup_project(projects@, id@) is None,
        },
{
    let ghost all = projects@;
    let n: usize = projects.len();
    let mut i: usize = 0;
    proof {
        assert(all.skip(0) =~= all);
    }
    while i < n
        invariant
            i <= n,
            n == all.len(),
            all == projects@,
            lookup_project(all, id@) == lookup_project(all.skip(i as int), id@),
            forall|j: int| 0 <= j < i ==> (#[trigger] all[j]).id@ != id@,
        decreases n - i,
    {
        proof {
            assert(all.skip(i as int).drop_first() =~= all.skip(i + 1));
        }
        if same_text(projects[i].id.as_str(), id) {
            return Some(i);
        }
        i = i + 1;
    }
    None
}

/// Where in `categories` the first category with the given id stands.
pub fn category_position(categories: &Vec<Category>, id: &str) -> (found: Option<usize>)
    ensures
        match found {
            Some(k) => k < categories@.len() && lookup_category(categories@, id@) == Some(
                categories@[k as int],
            ) && categories@[k as int].id@ == id@ && forall|j: int|
                0 <= j < k ==> (#[trigger] categories@[j]).id@ != id@,
            None => lookup_category(categories@, id@) is None,
        },
{
    let ghost all = categories@;
    let n: usize = categories.len();
    let mut i: usize = 0;
    proof {
        assert(all.skip(0) =~= all);
    }
    while i < n
        invariant
            i <= n,
            n == all.len(),
            all == categories@,
            lookup_category(all, id@) == lookup_category(all.skip(i as int), id@),
            forall|j: int| 0 <= j < i ==> (#[trigger] all[j]).id@ != id@,
        decreases n - i,
    {
        proof {
            assert(all.skip(i as int).drop_first() =~= all.skip(i + 1));
        }
        if same_text(categories[i].id.as_str(), id) {
            return Some(i);
        }
        i = i + 1;
    }
    None
}

/// Where in `tasks` the first task with the given id stands.
pub fn task_position(tasks: &Vec<Task>, id: &str) -> (found: Option<usize>)
    ensures
        match found {
            Some(k) => k < tasks@.len() && lookup_task(tasks@, id@) == Some(
                tasks@[k as int],
            ) && tasks@[k as int].id@ == id@ && forall|j: int|
                0 <= j < k ==> (#[trigger] tasks@[j]).id@ != id@,
            None => lookup_task(tasks@, id@) is None,
        },
{
    let ghost all = tasks@;
    let n: usize = tasks.len();
    let mut i: usize = 0;
    proof {
        assert(all.skip(0) =~= all);
    }
    while i < n
        invariant
            i <= n,
            n == all.len(),
            all == tasks@,
            lookup_task(all, id@) == lookup_task(all.skip(i as int), id@),
            forall|j: int| 0 <= j < i ==> (#[trigger] all[j]).id@ != id@,
        decreases n - i,
    {
        proof {
            assert(all.skip(i as int).drop_first() =~= all.skip(i + 1));
        }
        if same_text(tasks[i].id.as_str(), id) {
            return Some(i);
        }
        i = i + 1;
    }
    None
}

/// Why a task cannot be registered, if it cannot: its project is unknown, or
/// it names a category that is unknown.
pub open spec fn add_task_refusal(
    header: LedgerHeader,
    project_id: Seq<char>,
    category_id: Option<Seq<char>>,
) -> Option<LedgerError> {
    if lookup_project(header.projects@, project_id) is None {
        Some(LedgerError::ProjectNotFound)
    } else if category_id is Some && lookup_category(header.categories@, category_id->0) is None {
        Some(LedgerError::CategoryNotFound)
    } else {
        None
    }
}

/// Why a task cannot be started, if it cannot: it is unknown, archived, or
/// already running.
pub open spec fn start_refusal(ledger: Ledger, task: Seq<char>) -> Option<LedgerError> {
    match lookup_task(ledger.header.tasks@, task) {
        None => Some(LedgerError::TaskNotFound),
        Some(t) => if t.archived {
            Some(LedgerError::TaskArchived)
        } else if is_running(log_model(ledger.events@), task) {
            Some(LedgerError::TaskAlreadyRunning)
        } else {
            None
        },
    }
}

/// Why a task cannot be stopped, if it cannot: it is unknown, or not running.
pub open spec fn stop_refusal(ledger: Ledger, task: Seq<char>) -> Option<LedgerError> {
    if lookup_task(ledger.header.tasks@, task) is None {
        Some(LedgerError::TaskNotFound)
    } else if !is_running(log_model(ledger.events@), task) {
        Some(LedgerError::TaskNotRunning)
    } else {
        None
    }
}

/// Why a session cannot be logged by hand, if it cannot: the task is unknown,
/// or the session does not end after it begins.
pub open spec fn manual_refusal(ledger: Ledger, task: Seq<char>, start: int, stop: int) -> Option<
    LedgerError,
> {
    if lookup_task(ledger.header.tasks@, task) is None {
        Some(LedgerError::TaskNotFound)
    } else if stop <= start {
        Some(LedgerError::InvalidRange)
    } else {
        None
    }
}

impl LedgerHeader {
    /// The header of a fresh ledger created at `created_at`: schema version
    /// 1, days starting at local midnight, nothing registered.
    pub fn new(created_at: Timestamp) -> (header: LedgerHeader)
        ensures
            header.schema_version == 1,
            header.created_at == created_at,
            header.day_start_offset_hours == 0,
            header.projects@.len() == 0,
            header.tasks@.len() == 0,
            header.categories@.len() == 0,
    {
        LedgerHeader {
            schema_version: 1,
            created_at,
            day_start_offset_hours: 0,
            projects: Vec::new(),
            tasks: Vec::new(),
            categories: Vec::new(),
        }
    }
}

impl Ledger {
    /// A fresh, empty ledger created at `created_at`.
    pub fn new(created_at: Timestamp) -> (ledger: Ledger)
        ensures
            ledger.header.schema_version == 1,
            ledger.header.created_at == created_at,
            ledger.header.day_start_offset_hours == 0,
            ledger.header.projects@.len() == 0,
            ledger.header.tasks@.len() == 0,
            ledger.header.categories@.len() == 0,
            ledger.events@.len() == 0,
    {
        Ledger { header: LedgerHeader::new(created_at), events: Vec::new() }
    }

    /// The project with the given id: the first one registered under it.
    pub fn project(&self, id: &str) -> (found: Option<&Project>)
        ensures
            match found {
                Some(p) => lookup_project(self.header.projects@, id@) == Some(*p),
                None => lookup_project(self.header.projects@, id@) is None,
            },
    {
        match project_position(&self.header.projects, id) {
            Some(k) => Some(&self.header.projects[k]),
            None => None,
        }
    }

    /// The task with the given id: the first one registered under it.
    pub fn task(&self, id: &str) -> (found: Option<&Task>)
        ensures
            match found {
                Some(t) => lookup_task(self.header.tasks@, id@) == Some(*t),
                None => lookup_task(self.header.tasks@, id@) is None,
            },
    {
        match task_position(&self.header.tasks, id) {
            Some(k) => Some(&self.header.tasks[k]),
            None => None,
        }
    }

    /// The category with the given id: the first one registered under it.
    pub fn category(&self, id: &str) -> (found: Option<&Category>)
        ensures
            match found {
                Some(c) => lookup_category(self.header.categories@, id@) == Some(*c),
                None => lookup_category(self.header.categories@, id@) is None,
            },
    {
        match category_position(&self.header.categories, id) {
            Some(k) => Some(&self.header.categories[k]),
            None => None,
        }
    }

    /// Registers a project under a fresh id and returns the id.
    pub fn add_project(&mut self, name: String, color: Option<String>) -> (id: String)
        ensures
            is_id(id@),
            final(self).header.projects@ == old(self).header.projects@.push(
                Project { id, name, color, archived: false },
            ),
            final(self).header.tasks == old(self).header.tasks,
            final(self).header.categories == old(self).header.categories,
            final(self).header.schema_version == old(self).header.schema_version,
            final(self).header.created_at == old(self).header.created_at,
            final(self).header.day_start_offset_hours == old(self).header.day_start_offset_hours,
            final(self).events == old(self).events,
    {
        let id = generate_id();
        self.header.projects.push(Project { id: id.clone(), name, color, archived: false });
        id
    }

    /// Registers a category under a fresh id and returns the id.
    pub fn add_category(&mut self, name: String, description: Option<String>) -> (id: String)
        ensures
            is_id(id@),
            final(self).header.categories@ == old(self).header.categories@.push(
                Category { id, name, description, archived: false },
            ),
            final(self).header.tasks == old(self).header.tasks,
            final(self).header.projects == old(self).header.projects,
            final(self).header.schema_version == old(self).header.schema_version,
            final(self).header.created_at == old(self).header.created_at,
            final(self).header.day_start_offset_hours == old(self).header.day_start_offset_hours,
            final(self).events == old(self).events,
    {
        let id = generate_id();
        self.header.categories.push(Category { id: id.clone(), name, description, archived: false });
        id
    }

    /// Registers a task under a fresh id and returns the id. The project must
    /// be registered, and so must the category if one is named.
    pub fn add_task(
        &mut self,
        project_id: String,
        category_id: Option<String>,
        description: String,
    ) -> (outcome: Result<String, LedgerError>)
        ensures
            match outcome {
                Ok(id) => {
                    &&& add_task_refusal(old(self).header, project_id@, optional_text(category_id))
                        is None
                    &&& is_id(id@)
                    &&& final(self).header.tasks@ == old(self).header.tasks@.push(
                        Task { id, project_id, category_id, description, archived: false },
                    )
                    &&& final(self).header.projects == old(self).header.projects
                    &&& final(self).header.categories == old(self).header.categories
                    &&& final(self).header.schema_version == old(self).header.schema_version
                    &&& final(self).header.created_at == old(self).header.created_at
                    &&& final(self).header.day_start_offset_hours == old(
                        self,
                    ).header.day_start_offset_hours
                    &&& final(self).events == old(self).events
                },
                Err(e) => {
                    &&& add_task_refusal(old(self).header, project_id@, optional_text(category_id))
                        == Some(e)
                    &&& *final(self) == *old(self)
                },
            },
    {
        if self.project(project_id.as_str()).is_none() {
            return Err(LedgerError::ProjectNotFound);
        }
        match &category_id {
            Some(category) => {
                if self.category(category.as_str()).is_none() {
                    return Err(LedgerError::CategoryNotFound);
                }
            },
            None => {},
        }
        let id = generate_id();
        self.header.tasks.push(
            Task { id: id.clone(), project_id, category_id, description, archived: false },
        );
        Ok(id)
    }

    /// Whether `task_id` has an open interval once the log is replayed.
    pub fn is_task_running(&self, task_id: &str) -> (running: bool)
        ensures
            running == is_running(log_model(self.events@), task_id@),
    {
        let (open, _) = replay_events(&self.events);
        find_active(&open, task_id).is_some()
    }

    /// Starts `task_id` at `timestamp`: appends a start event. Refused with
    /// `TaskNotFound` for an unknown task, `TaskArchived` for an archived one,
    /// and `TaskAlreadyRunning` for one that has an open interval.
    pub fn start_task(&mut self, task_id: &str, timestamp: Timestamp, note: Option<String>) -> (outcome:
        Result<(), LedgerError>)
        ensures
            match outcome {
                Ok(()) => {
                    &&& start_refusal(*old(self), task_id@) is None
                    &&& final(self).header == old(self).header
                    &&& final(self).events@.len() == old(self).events@.len() + 1
                    &&& final(self).events@.drop_last() == old(self).events@
                    &&& final(self).events@.last().model() == (EventModel {
                        at: timestamp.value(),
                        starts: true,
                        task: task_id@,
                        note: optional_text(note),
                    })
                },
                Err(e) => start_refusal(*old(self), task_id@) == Some(e) && *final(self) == *old(
                    self,
                ),
            },
    {
        match self.task(task_id) {
            None => {
                return Err(LedgerError::TaskNotFound);
            },
            Some(task) => {
                if task.archived {
                    return Err(LedgerError::TaskArchived);
                }
            },
        }
        if self.is_task_running(task_id) {
            return Err(LedgerError::TaskAlreadyRunning);
        }
        let ghost before = self.events@;
        self.events.push(TimeEvent::start(task_id.to_owned(), timestamp, note));
        proof {
            assert(self.events@.drop_last() =~= before);
        }
        Ok(())
    }

    /// Stops `task_id` at `timestamp`: appends a stop event. Refused with
    /// `TaskNotFound` for an unknown task and `TaskNotRunning` for one that
    /// has no open interval.
    pub fn stop_task(&mut self, task_id: &str, timestamp: Timestamp, note: Option<String>) -> (outcome:
        Result<(), LedgerError>)
        ensures
            match outcome {
                Ok(()) => {
                    &&& stop_refusal(*old(self), task_id@) is None
                    &&& final(self).header == old(self).header
                    &&& final(self).events@.len() == old(self).events@.len() + 1
                    &&& final(self).events@.drop_last() == old(self).events@
                    &&& final(self).events@.last().model() == (EventModel {
                        at: timestamp.value(),
                        starts: false,
                        task: task_id@,
                        note: optional_text(note),
                    })
                },
                Err(e) => stop_refusal(*old(self), task_id@) == Some(e) && *final(self) == *old(
                    self,
                ),
            },
    {
        if self.task(task_id).is_none() {
            return Err(LedgerError::TaskNotFound);
        }
        if !self.is_task_running(task_id) {
            return Err(LedgerError::TaskNotRunning);
        }
        let ghost before = self.events@;
        self.events.push(TimeEvent::stop(task_id.to_owned(), timestamp, note));
        proof {
            assert(self.events@.drop_last() =~= before);
        }
        Ok(())
    }

    /// Logs a past session of `task_id` by hand: appends a start event at
    /// `start`, which carries the note, and a stop event at `stop`. Whether
    /// the task is running does not matter. Refused with `TaskNotFound` for
    /// an unknown task and `InvalidRange` when `stop` is not after `start`.
    pub fn add_manual_session(
        &mut self,
        task_id: &str,
        start: Timestamp,
        stop: Timestamp,
        note: Option<String>,
    ) -> (outcome: Result<(), LedgerError>)
        ensures
            match outcome {
                Ok(()) => {
                    &&& manual_refusal(*old(self), task_id@, start.value(), stop.value()) is None
                    &&& final(self).header == old(self).header
                    &&& final(self).events@.len() == old(self).events@.len() + 2
                    &&& final(self).events@.take(old(self).events@.len() as int) == old(
                        self,
                    ).events@
                    &&& final(self).events@[old(self).events@.len() as int].model() == (EventModel {
                        at: start.value(),
                        starts: true,
                        task: task_id@,
                        note: optional_text(note),
                    })
                    &&& final(self).events@[old(self).events@.len() as int + 1].model() == (EventModel {
                        at: stop.value(),
                        starts: false,
                        task: task_id@,
                        note: None,
                    })
                },
                Err(e) => manual_refusal(*old(self), task_id@, start.value(), stop.value())
                    == Some(e) && *final(self) == *old(self),
            },
    {
        if self.task(task_id).is_none() {
            return Err(LedgerError::TaskNotFound);
        }
        if stop.to_nanos() <= start.to_nanos() {
            return Err(LedgerError::InvalidRange);
        }
        let ghost before = self.events@;
        self.events.push(TimeEvent::start(task_id.to_owned(), start, note));
        self.events.push(TimeEvent::stop(task_id.to_owned(), stop, None));
        proof {
            assert(self.events@.take(before.len() as int) =~= before);
        }
        Ok(())
    }

    /// The sessions of the log at the instant `now`: the closed ones in the
    /// order in which they were closed, then the running ones, cut at `now`.
    pub fn sessions(&self, now: Timestamp) -> (sessions: Vec<SessionRecord>)
        ensures
            session_models(sessions@) == sessions_at(log_model(self.events@), now.value()),
            forall|i: int|
                0 <= i < sessions@.len() ==> (#[trigger] sessions@[i]).start.value()
                    < sessions@[i].stop.value(),
    {
        collect_sessions(&self.events, now)
    }

    /// For each session of the log at the instant `now`, in the order of
    /// `sessions`, the ledger days that it touches in the host's time zone.
    /// Without sessions the zone is not asked and the call succeeds. Fails
    /// with `ConfigurationFatal` when a day boundary cannot be resolved.
    /// Which days and boundaries come back is the zone's answer.
    pub fn session_grids(&self, now: Timestamp) -> (outcome: Result<Vec<DayGrid>, LedgerError>)
        ensures
            sessions_at(log_model(self.events@), now.value()).len() == 0 ==> outcome is Ok,
            outcome matches Err(e) ==> e == LedgerError::ConfigurationFatal,
            outcome matches Ok(grids) ==> zone_grids(
                grid_models(grids@),
                sessions_at(log_model(self.events@), now.value()),
                self.header.day_start_offset_hours as int,
            ) && forall|i: int| 0 <= i < grids@.len() ==> (#[trigger] grids@[i]).wf(),
    {
        let sessions = collect_sessions(&self.events, now);
        collect_grids(&sessions, self.header.day_start_offset_hours)
    }

    /// The ledger read at the instant `now`, with each session of the log cut
    /// along the grid that `grids` holds for it: the grids stand in the order
    /// of `sessions`, and a session without a grid adds nothing. The running
    /// tasks are those that the replay of the log leaves open.
    pub fn snapshot_on_grids(&self, now: Timestamp, grids: &Vec<DayGrid>) -> (snapshot: LedgerSnapshot)
        requires
            forall|i: int| 0 <= i < grids@.len() ==> (#[trigger] grids@[i]).wf(),
        ensures
            snapshot.active() == replay(log_model(self.events@)).open,
            distinct_tasks(snapshot.active()),
            distinct_cells(snapshot.daily_task_totals@),
            positive_cells(snapshot.daily_task_totals@),
            snapshot.totals() == totals_after(
                Map::empty(),
                sessions_at(log_model(self.events@), now.value()),
                grid_models(grids@),
                shorter(sessions_at(log_model(self.events@), now.value()).len(), grids@.len()),
            ),
    {
        let (active_tasks, sessions) = reconstruct(&self.events, now);
        let daily_task_totals = accumulate_on_grids(&sessions, grids);
        LedgerSnapshot { active_tasks, daily_task_totals }
    }

    /// The ledger read at the instant `now`. The running tasks are those that
    /// the replay of the log leaves open. The totals are those of the log's
    /// sessions at `now`, each cut at the day boundaries that the host's time
    /// zone gave for it. A log without a session at `now` asks the zone
    /// nothing and always gives a snapshot. Fails with `ConfigurationFatal`
    /// when a day boundary cannot be resolved.
    pub fn snapshot(&self, now: Timestamp) -> (outcome: Result<LedgerSnapshot, LedgerError>)
        ensures
            sessions_at(log_model(self.events@), now.value()).len() == 0 ==> outcome is Ok,
            match outcome {
                Ok(snapshot) => {
                    &&& snapshot.active() == replay(log_model(self.events@)).open
                    &&& distinct_tasks(snapshot.active())
                    &&& distinct_cells(snapshot.daily_task_totals@)
                    &&& positive_cells(snapshot.daily_task_totals@)
                    &&& exists|grids: Seq<GridModel>|
                        zone_grids(
                            grids,
                            sessions_at(log_model(self.events@), now.value()),
                            self.header.day_start_offset_hours as int,
                        ) && snapshot.totals() == #[trigger] totals_after(
                            Map::empty(),
                            sessions_at(log_model(self.events@), now.value()),
                            grids,
                            grids.len(),
                        )
                },
                Err(e) => e == LedgerError::ConfigurationFatal,
            },
    {
        let ghost log = log_model(self.events@);
        let (active_tasks, sessions) = reconstruct(&self.events, now);
        let grids = match collect_grids(&sessions, self.header.day_start_offset_hours) {
            Ok(grids) => grids,
            Err(e) => {
                return Err(e);
            },
        };
        let daily_task_totals = accumulate_on_grids(&sessions, &grids);
        let snapshot = LedgerSnapshot { active_tasks, daily_task_totals };
        proof {
            let used = grid_models(grids@);
            assert(snapshot.totals() == totals_after(
                Map::empty(),
                sessions_at(log, now.value()),
                used,
                used.len(),
            ));
        }
        Ok(snapshot)
    }

    /// The day-start offset in nanoseconds.
    pub fn day_start_offset(&self) -> (nanos: i128)
        ensures
            nanos == self.header.day_start_offset_hours * NANOS_PER_HOUR,
    {
        self.header.day_start_offset_hours as i128 * NANOS_PER_HOUR
    }

    /// The ledger day of `timestamp` in the host's time zone, as a count of
    /// days from 1970-01-01. Fails with `ConfigurationFatal` exactly when the
    /// instant, moved back by the day-start offset, is outside the range in
    /// which the zone can be consulted. Whatever the zone, the day is at
    /// most one day away from the ledger day under UTC.
    pub fn day_for_timestamp(&self, timestamp: Timestamp) -> (day: Result<i64, LedgerError>)
        ensures
            day is Ok <==> day_in_reach(
                timestamp.value(),
                self.header.day_start_offset_hours as int,
            ),
            day matches Err(e) ==> e == LedgerError::ConfigurationFatal,
            day matches Ok(d) ==> (exists|offset: int|
                -86_400 < offset < 86_400 && d == #[trigger] ledger_day(
                    timestamp.value(),
                    self.header.day_start_offset_hours as int,
                    offset,
                )) && ledger_day(
                timestamp.value(),
                self.header.day_start_offset_hours as int,
                -86_399,
            ) <= d <= ledger_day(
                timestamp.value(),
                self.header.day_start_offset_hours as int,
                86_399,
            ),
    {
        ledger_day_for_timestamp(timestamp, self.header.day_start_offset_hours)
    }

    /// The ledger day `day` as an interval of UTC instants in the host's time
    /// zone. Fails with `ConfigurationFatal` when the local time at which the
    /// day or the next day begins is out of the zone's range or cannot be
    /// resolved. Which instants come back is the zone's answer; whatever the
    /// zone, each lies near the local time it was found for.
    pub fn day_bounds_utc(&self, day: i64) -> (window: Result<DayWindow, LedgerError>)
        ensures
            window matches Err(e) ==> e == LedgerError::ConfigurationFatal,
            !probe_range(day_start_local(day as int, self.header.day_start_offset_hours as int))
                || !probe_range(
                day_start_local(day + 1, self.header.day_start_offset_hours as int),
            ) ==> window is Err,
            window matches Ok(w) ==> w.day == day && near_day_start(
                w.start as int,
                day as int,
                self.header.day_start_offset_hours as int,
            ) && near_day_start(w.end as int, day + 1, self.header.day_start_offset_hours as int),
    {
        ledger_day_bounds_utc(day, self.header.day_start_offset_hours)
    }
}

/// Determinism: what a snapshot holds is a function of the log, the instant
/// at which it is read and the day boundaries of the time zone. Two logs that
/// read alike, read at one instant, leave the same intervals open and hold
/// the same sessions; cut along the same day grids, they give the same totals.
pub proof fn lemma_snapshot_deterministic(
    first: Seq<TimeEvent>,
    second: Seq<TimeEvent>,
    now: int,
    grids: Seq<GridModel>,
)
    requires
        first.len() == second.len(),
        forall|i: int| 0 <= i < first.len() ==> first[i].model() == second[i].model(),
    ensures
        replay(log_model(first)).open == replay(log_model(second)).open,
        sessions_at(log_model(first), now) == sessions_at(log_model(second), now),
        totals_after(Map::empty(), sessions_at(log_model(first), now), grids, grids.len())
            == totals_after(Map::empty(), sessions_at(log_model(second), now), grids, grids.len()),
{
    assert(log_model(first) =~= log_model(second));
}

/// Mutual exclusion: a registered task that is running cannot be started,
/// and one that is not running cannot be stopped. Both are refused as an
/// invalid state.
pub proof fn lemma_mutual_exclusion(ledger: Ledger, task: Seq<char>)
    requires
        lookup_task(ledger.header.tasks@, task) is Some,
    ensures
        is_running(log_model(ledger.events@), task) ==> start_refusal(ledger, task) is Some
            && start_refusal(ledger, task)->0.spec_kind() == ErrorKind::InvalidState,
        !is_running(log_model(ledger.events@), task) ==> stop_refusal(ledger, task) == Some(
            LedgerError::TaskNotRunning,
        ) && LedgerError::TaskNotRunning.spec_kind() == ErrorKind::InvalidState,
{
}

} // verus!
