//! Corrections to events that the log already holds: moving a start or a stop
//! in time, and deleting an interval.

use vstd::prelude::*;
use crate::domain::{log_model, EventModel, TimeEvent};
use crate::error::LedgerError;
use crate::ledger::Ledger;
use crate::replay::{
    as_positions, collect_sessions, optional_position, replay_order, replay_sequence,
    session_models, sessions_at, SessionModel, SessionRecord,
};
use crate::text::same_text;
use crate::time::Timestamp;

verus! {

/// Whether an entry of a task's history is a start or a stop.
#[derive(Clone, Copy, Debug, PartialEq, Eq, Structural)]
pub enum TaskEventKind {
    Start,
    Stop,
}

/// One event of a task's history: where in the log it stands, when it
/// happened, and what it is.
#[derive(Clone, Copy, Debug, PartialEq, Eq, Structural)]
pub struct TaskEventRef {
    pub index: usize,
    pub timestamp: Timestamp,
    pub kind: TaskEventKind,
}

/// An entry of a task's history as mathematical values.
pub struct HistoryModel {
    pub index: int,
    pub at: int,
    pub starts: bool,
}

impl TaskEventRef {
    pub open spec fn model(self) -> HistoryModel {
        HistoryModel {
            index: self.index as int,
            at: self.timestamp.value(),
            starts: self.kind == TaskEventKind::Start,
        }
    }
}

/// A history as mathematical values.
pub open spec fn history_models(history: Seq<TaskEventRef>) -> Seq<HistoryModel> {
    Seq::new(history.len(), |i: int| history[i].model())
}

/// The events of `task` among the first `n` positions of `order`.
pub open spec fn history_upto(log: Seq<EventModel>, order: Seq<int>, task: Seq<char>, n: nat) -> Seq<
    HistoryModel,
>
    decreases n,
{
    if n == 0 {
        Seq::empty()
    } else {
        let before = history_upto(log, order, task, (n - 1) as nat);
        let index = order[n - 1];
        if log[index].task == task {
            before.push(HistoryModel { index, at: log[index].at, starts: log[index].starts })
        } else {
            before
        }
    }
}

/// The events of `task` in the order in which the replay reads them: by
/// instant, and at one instant by log position.
pub open spec fn task_history(log: Seq<EventModel>, task: Seq<char>) -> Seq<HistoryModel> {
    history_upto(log, replay_order(log), task, log.len())
}

/// Where in `history`, at or after `from`, the event at log position `index`
/// stands, if it is there and is a start (`starts`) or a stop.
pub open spec fn position_from(history: Seq<HistoryModel>, index: int, starts: bool, from: int) -> Option<
    int,
>
    decreases history.len() - from,
{
    if from < 0 || from >= history.len() {
        None
    } else if history[from].index == index && history[from].starts == starts {
        Some(from)
    } else {
        position_from(history, index, starts, from + 1)
    }
}

/// The instant of the last stop among the first `p` entries of `history`.
pub open spec fn last_stop_before(history: Seq<HistoryModel>, p: int) -> Option<int>
    decreases p,
{
    if p <= 0 || p > history.len() {
        None
    } else if !history[p - 1].starts {
        Some(history[p - 1].at)
    } else {
        last_stop_before(history, p - 1)
    }
}

/// The instant of the first start of `history` at or after position `from`.
pub open spec fn first_start_from(history: Seq<HistoryModel>, from: int) -> Option<int>
    decreases history.len() - from,
{
    if from < 0 || from >= history.len() {
        None
    } else if history[from].starts {
        Some(history[from].at)
    } else {
        first_start_from(history, from + 1)
    }
}

/// The instant of the stop of `task` that comes last before the start at log
/// position `start_index`, in the task's history.
pub open spec fn previous_stop(log: Seq<EventModel>, task: Seq<char>, start_index: int) -> Option<
    int,
> {
    let history = task_history(log, task);
    match position_from(history, start_index, true, 0) {
        Some(p) => last_stop_before(history, p),
        None => None,
    }
}

/// The instant of the start of `task` that comes first after the stop at log
/// position `stop_index`, in the task's history.
pub open spec fn next_start(log: Seq<EventModel>, task: Seq<char>, stop_index: int) -> Option<int> {
    let history = task_history(log, task);
    match position_from(history, stop_index, false, 0) {
        Some(p) => first_start_from(history, p + 1),
        None => None,
    }
}

/// An instant, if any, as a mathematical integer.
pub open spec fn optional_instant(at: Option<Timestamp>) -> Option<int> {
    match at {
        Some(t) => Some(t.value()),
        None => None,
    }
}

/// The events of `task_id`, ordered by instant and then by log position.
pub fn sorted_task_events(events: &Vec<TimeEvent>, task_id: &str) -> (history: Vec<TaskEventRef>)
    ensures
        history_models(history@) == task_history(log_model(events@), task_id@),
{
    let ghost log = log_model(events@);
    let order = replay_sequence(events);
    let ghost spec_order = replay_order(log);
    let mut history: Vec<TaskEventRef> = Vec::new();
    let n: usize = order.len();
    let mut k: usize = 0;
    proof {
        assert(history_models(history@) =~= history_upto(log, spec_order, task_id@, 0));
    }
    while k < n
        invariant
            k <= n,
            n == order@.len(),
            n == events@.len(),
            log == log_model(events@),
            spec_order == replay_order(log),
            as_positions(order@) == spec_order,
            forall|j: int| 0 <= j < order@.len() ==> #[trigger] order@[j] < events@.len(),
            history_models(history@) == history_upto(log, spec_order, task_id@, k as nat),
        decreases n - k,
    {
        let index: usize = order[k];
        let event = &events[index];
        let ghost before = history@;
        proof {
            assert(spec_order[k as int] == index as int);
            assert(log[index as int] == event.model());
        }
        if same_text(event.kind.task_id().as_str(), task_id) {
            let kind = if event.kind.starts() {
                TaskEventKind::Start
            } else {
                TaskEventKind::Stop
            };
            let entry = TaskEventRef { index, timestamp: event.timestamp, kind };
            history.push(entry);
            proof {
                assert(history_models(history@) =~= history_models(before).push(entry.model()));
            }
        }
        k = k + 1;
    }
    history
}

/// Where in `history` the event at log position `index` stands, if it is
/// there and of the given kind.
pub fn history_position(history: &Vec<TaskEventRef>, index: usize, kind: TaskEventKind) -> (found:
    Option<usize>)
    ensures
        match found {
            Some(p) => p < history@.len() && position_from(
                history_models(history@),
                index as int,
                kind == TaskEventKind::Start,
                0,
            ) == Some(p as int),
            None => position_from(
                history_models(history@),
                index as int,
                kind == TaskEventKind::Start,
                0,
            ) is None,
        },
{
    let ghost models = history_models(history@);
    let ghost starts = kind == TaskEventKind::Start;
    let n: usize = history.len();
    let mut i: usize = 0;
    while i < n
        invariant
            i <= n,
            n == history@.len(),
            models == history_models(history@),
            starts == (kind == TaskEventKind::Start),
            position_from(models, index as int, starts, 0) == position_from(
                models,
                index as int,
                starts,
                i as int,
            ),
        decreases n - i,
    {
        proof {
            assert(models[i as int] == history@[i as int].model());
        }
        if history[i].index == index && history[i].kind == kind {
            return Some(i);
        }
        i = i + 1;
    }
    None
}

/// The instant of the stop of `task_id` that comes last before the start at
/// log position `start_event_index`.
pub fn previous_stop_for_task(events: &Vec<TimeEvent>, task_id: &str, start_event_index: usize) -> (at:
    Option<Timestamp>)
    ensures
        optional_instant(at) == previous_stop(
            log_model(events@),
            task_id@,
            start_event_index as int,
        ),
{
    let history = sorted_task_events(events, task_id);
    let ghost models = history_models(history@);
    match history_position(&history, start_event_index, TaskEventKind::Start) {
        None => None,
        Some(p) => {
            let mut k: usize = p;
            while k > 0
                invariant
                    k <= p < history@.len(),
                    models == history_models(history@),
                    models == task_history(log_model(events@), task_id@),
                    position_from(models, start_event_index as int, true, 0) == Some(p as int),
                    last_stop_before(models, p as int) == last_stop_before(models, k as int),
                decreases k,
            {
                k = k - 1;
                proof {
                    assert(models[k as int] == history@[k as int].model());
                }
                if history[k].kind == TaskEventKind::Stop {
                    return Some(history[k].timestamp);
                }
            }
            None
        },
    }
}

/// The instant of the start of `task_id` that comes first after the stop at
/// log position `stop_event_index`.
pub fn next_start_for_task(events: &Vec<TimeEvent>, task_id: &str, stop_event_index: usize) -> (at:
    Option<Timestamp>)
    ensures
        optional_instant(at) == next_start(log_model(events@), task_id@, stop_event_index as int),
{
    let history = sorted_task_events(events, task_id);
    let ghost models = history_models(history@);
    match history_position(&history, stop_event_index, TaskEventKind::Stop) {
        None => None,
        Some(p) => {
            let n: usize = history.len();
            let mut k: usize = p + 1;
            while k < n
                invariant
                    p < k <= n,
                    n == history@.len(),
                    models == history_models(history@),
                    models == task_history(log_model(events@), task_id@),
                    position_from(models, stop_event_index as int, false, 0) == Some(p as int),
                    first_start_from(models, p + 1) == first_start_from(models, k as int),
                decreases n - k,
            {
                proof {
                    assert(models[k as int] == history@[k as int].model());
                }
                if history[k].kind == TaskEventKind::Start {
                    return Some(history[k].timestamp);
                }
                k = k + 1;
            }
            None
        },
    }
}

/// The first session at or after position `from` that the start event at log
/// position `index` opened.
pub open spec fn session_started_at(sessions: Seq<SessionModel>, index: int, from: int) -> Option<
    SessionModel,
>
    decreases sessions.len() - from,
{
    if from < 0 || from >= sessions.len() {
        None
    } else if sessions[from].start_index == index {
        Some(sessions[from])
    } else {
        session_started_at(sessions, index, from + 1)
    }
}

/// The first session at or after position `from` that the stop event at log
/// position `index` closed.
pub open spec fn session_stopped_at(sessions: Seq<SessionModel>, index: int, from: int) -> Option<
    SessionModel,
>
    decreases sessions.len() - from,
{
    if from < 0 || from >= sessions.len() {
        None
    } else if sessions[from].stop_index == Some(index) {
        Some(sessions[from])
    } else {
        session_stopped_at(sessions, index, from + 1)
    }
}

/// Why the start event at log position `index` cannot move to `new_at`, if it
/// cannot. `EventNotFound`: the position holds no start event, or the start
/// opened no session of the log read at `now`. `InvalidRange`: the start would
/// not be before the end of its session, which for a running session is
/// `now`. `OrderingViolation`: the start would be before the previous stop of
/// its task.
///
/// A move that would leave the session itself empty or reversed counts as an
/// invalid range, like a session logged by hand that does not end after it
/// begins. Only a move across a neighbouring interval of the task counts as
/// an ordering violation.
pub open spec fn retime_start_refusal(log: Seq<EventModel>, index: int, new_at: int, now: int) -> Option<
    LedgerError,
> {
    if index < 0 || index >= log.len() || !log[index].starts {
        Some(LedgerError::EventNotFound)
    } else {
        match session_started_at(sessions_at(log, now), index, 0) {
            None => Some(LedgerError::EventNotFound),
            Some(session) => {
                let previous = previous_stop(log, session.task, index);
                if new_at >= session.stop {
                    Some(LedgerError::InvalidRange)
                } else if previous is Some && new_at < previous->0 {
                    Some(LedgerError::OrderingViolation)
                } else {
                    None
                }
            },
        }
    }
}

/// Why the stop event at log position `index` cannot move to `new_at`, if it
/// cannot. `EventNotFound`: the position holds no stop event, or the stop
/// closed no session of the log read at `now`. `InvalidRange`: the stop would
/// not be after the start of its session. `OrderingViolation`: the stop would
/// be later than `now`, or later than the next start of its task.
///
/// As for a start, a move that would leave the session itself empty or
/// reversed counts as an invalid range, and only a move past `now` or across
/// a neighbouring interval of the task as an ordering violation.
pub open spec fn retime_stop_refusal(log: Seq<EventModel>, index: int, new_at: int, now: int) -> Option<
    LedgerError,
> {
    if index < 0 || index >= log.len() || log[index].starts {
        Some(LedgerError::EventNotFound)
    } else {
        match session_stopped_at(sessions_at(log, now), index, 0) {
            None => Some(LedgerError::EventNotFound),
            Some(session) => {
                let next = next_start(log, session.task, index);
                if new_at <= session.start {
                    Some(LedgerError::InvalidRange)
                } else if new_at > now {
                    Some(LedgerError::OrderingViolation)
                } else if next is Some && new_at > next->0 {
                    Some(LedgerError::OrderingViolation)
                } else {
                    None
                }
            },
        }
    }
}

/// Why an interval cannot be deleted, if it cannot: the start position holds
/// no start event, or the stop position, if one is given, holds no stop
/// event.
pub open spec fn delete_refusal(log: Seq<EventModel>, start: int, stop: Option<int>) -> Option<
    LedgerError,
> {
    if start < 0 || start >= log.len() || !log[start].starts {
        Some(LedgerError::EventNotFound)
    } else if stop is Some && (stop->0 < 0 || stop->0 >= log.len() || log[stop->0].starts) {
        Some(LedgerError::EventNotFound)
    } else {
        None
    }
}

/// The log without the events at `start` and, if given, at `stop`.
pub open spec fn without_interval(events: Seq<TimeEvent>, start: int, stop: Option<int>) -> Seq<
    TimeEvent,
> {
    match stop {
        Some(i) => if i > start {
            events.remove(i).remove(start)
        } else {
            events.remove(start).remove(i)
        },
        None => events.remove(start),
    }
}

/// The event `event` moved to the instant `at`.
pub open spec fn moved_to(event: TimeEvent, at: Timestamp) -> TimeEvent {
    TimeEvent { timestamp: at, kind: event.kind }
}

/// The first of `sessions` that the start event at `index` opened.
pub fn find_session_by_start(sessions: &Vec<SessionRecord>, index: usize) -> (found: Option<usize>)
    ensures
        match found {
            Some(k) => k < sessions@.len() && session_started_at(
                session_models(sessions@),
                index as int,
                0,
            ) == Some(sessions@[k as int].model()),
            None => session_started_at(session_models(sessions@), index as int, 0) is None,
        },
{
    let ghost models = session_models(sessions@);
    let n: usize = sessions.len();
    let mut i: usize = 0;
    while i < n
        invariant
            i <= n,
            n == sessions@.len(),
            models == session_models(sessions@),
            session_started_at(models, index as int, 0) == session_started_at(
                models,
                index as int,
                i as int,
            ),
        decreases n - i,
    {
        proof {
            assert(models[i as int] == sessions@[i as int].model());
        }
        if sessions[i].start_event_index == index {
            return Some(i);
        }
        i = i + 1;
    }
    None
}

/// The first of `sessions` that the stop event at `index` closed.
pub fn find_session_by_stop(sessions: &Vec<SessionRecord>, index: usize) -> (found: Option<usize>)
    ensures
        match found {
            Some(k) => k < sessions@.len() && session_stopped_at(
                session_models(sessions@),
                index as int,
                0,
            ) == Some(sessions@[k as int].model()),
            None => session_stopped_at(session_models(sessions@), index as int, 0) is None,
        },
{
    let ghost models = session_models(sessions@);
    let n: usize = sessions.len();
    let mut i: usize = 0;
    while i < n
        invariant
            i <= n,
            n == sessions@.len(),
            models == session_models(sessions@),
            session_stopped_at(models, index as int, 0) == session_stopped_at(
                models,
                index as int,
                i as int,
            ),
        decreases n - i,
    {
        proof {
            assert(models[i as int] == sessions@[i as int].model());
        }
        let closes = match sessions[i].stop_event_index {
            Some(at) => at == index,
            None => false,
        };
        if closes {
            return Some(i);
        }
        i = i + 1;
    }
    None
}

impl Ledger {
    /// Moves the start event at log position `start_event_index` to
    /// `timestamp`, with the log read at `now`. The start must stay before
    /// the end of its session and may not move before the previous stop of
    /// its task. A refused move changes nothing.
    pub fn retime_start(&mut self, start_event_index: usize, timestamp: Timestamp, now: Timestamp) -> (outcome:
        Result<(), LedgerError>)
        ensures
            match outcome {
                Ok(()) => {
                    &&& retime_start_refusal(
                        log_model(old(self).events@),
                        start_event_index as int,
                        timestamp.value(),
                        now.value(),
                    ) is None
                    &&& final(self).header == old(self).header
                    &&& final(self).events@ == old(self).events@.update(
                        start_event_index as int,
                        moved_to(old(self).events@[start_event_index as int], timestamp),
                    )
                },
                Err(e) => {
                    &&& retime_start_refusal(
                        log_model(old(self).events@),
                        start_event_index as int,
                        timestamp.value(),
                        now.value(),
                    ) == Some(e)
                    &&& *final(self) == *old(self)
                },
            },
    {
        let ghost log = log_model(self.events@);
        if start_event_index >= self.events.len() {
            return Err(LedgerError::EventNotFound);
        }
        proof {
            assert(log[start_event_index as int] == self.events@[start_event_index as int].model());
        }
        if !self.events[start_event_index].kind.starts() {
            return Err(LedgerError::EventNotFound);
        }
        let sessions = collect_sessions(&self.events, now);
        let found = match find_session_by_start(&sessions, start_event_index) {
            Some(k) => k,
            None => {
                return Err(LedgerError::EventNotFound);
            },
        };
        let session = &sessions[found];
        if timestamp.to_nanos() >= session.stop.to_nanos() {
            return Err(LedgerError::InvalidRange);
        }
        match previous_stop_for_task(&self.events, session.task_id.as_str(), start_event_index) {
            Some(previous) => {
                if timestamp.to_nanos() < previous.to_nanos() {
                    return Err(LedgerError::OrderingViolation);
                }
            },
            None => {},
        }
        let event = self.events[start_event_index].duplicate();
        self.events.set(start_event_index, TimeEvent { timestamp, kind: event.kind });
        Ok(())
    }

    /// Moves the stop event at log position `stop_event_index` to
    /// `timestamp`, with the log read at `now`. The stop must stay after the
    /// start of its session and may move neither past `now` nor past the next
    /// start of its task. A refused move changes nothing.
    pub fn retime_stop(&mut self, stop_event_index: usize, timestamp: Timestamp, now: Timestamp) -> (outcome:
        Result<(), LedgerError>)
        ensures
            match outcome {
                Ok(()) => {
                    &&& retime_stop_refusal(
                        log_model(old(self).events@),
                        stop_event_index as int,
                        timestamp.value(),
                        now.value(),
                    ) is None
                    &&& final(self).header == old(self).header
                    &&& final(self).events@ == old(self).events@.update(
                        stop_event_index as int,
                        moved_to(old(self).events@[stop_event_index as int], timestamp),
                    )
                },
                Err(e) => {
                    &&& retime_stop_refusal(
                        log_model(old(self).events@),
                        stop_event_index as int,
                        timestamp.value(),
                        now.value(),
                    ) == Some(e)
                    &&& *final(self) == *old(self)
                },
            },
    {
        let ghost log = log_model(self.events@);
        if stop_event_index >= self.events.len() {
            return Err(LedgerError::EventNotFound);
        }
        proof {
            assert(log[stop_event_index as int] == self.events@[stop_event_index as int].model());
        }
        if self.events[stop_event_index].kind.starts() {
            return Err(LedgerError::EventNotFound);
        }
        let sessions = collect_sessions(&self.events, now);
        let found = match find_session_by_stop(&sessions, stop_event_index) {
            Some(k) => k,
            None => {
                return Err(LedgerError::EventNotFound);
            },
        };
        let session = &sessions[found];
        if timestamp.to_nanos() <= session.start.to_nanos() {
            return Err(LedgerError::InvalidRange);
        }
        if timestamp.to_nanos() > now.to_nanos() {
            return Err(LedgerError::OrderingViolation);
        }
        match next_start_for_task(&self.events, session.task_id.as_str(), stop_event_index) {
            Some(next) => {
                if timestamp.to_nanos() > next.to_nanos() {
                    return Err(LedgerError::OrderingViolation);
                }
            },
            None => {},
        }
        let event = self.events[stop_event_index].duplicate();
        self.events.set(stop_event_index, TimeEvent { timestamp, kind: event.kind });
        Ok(())
    }

    /// Deletes an interval: removes the start event at `start_event_index`
    /// and, if the interval is closed, the stop event at `stop_event_index`,
    /// and no other event. A refused deletion changes nothing.
    pub fn delete_interval(&mut self, start_event_index: usize, stop_event_index: Option<usize>) -> (outcome:
        Result<(), LedgerError>)
        ensures
            match outcome {
                Ok(()) => {
                    &&& delete_refusal(
                        log_model(old(self).events@),
                        start_event_index as int,
                        optional_position(stop_event_index),
                    ) is None
                    &&& final(self).header == old(self).header
                    &&& final(self).events@ == without_interval(
                        old(self).events@,
                        start_event_index as int,
                        optional_position(stop_event_index),
                    )
                },
                Err(e) => {
                    &&& delete_refusal(
                        log_model(old(self).events@),
                        start_event_index as int,
                        optional_position(stop_event_index),
                    ) == Some(e)
                    &&& *final(self) == *old(self)
                },
            },
    {
        let ghost log = log_model(self.events@);
        if start_event_index >= self.events.len() {
            return Err(LedgerError::EventNotFound);
        }
        proof {
            assert(log[start_event_index as int] == self.events@[start_event_index as int].model());
        }
        if !self.events[start_event_index].kind.starts() {
            return Err(LedgerError::EventNotFound);
        }
        match stop_event_index {
            Some(stop_index) => {
                if stop_index >= self.events.len() {
                    return Err(LedgerError::EventNotFound);
                }
                proof {
                    assert(log[stop_index as int] == self.events@[stop_index as int].model());
                }
                if self.events[stop_index].kind.starts() {
                    return Err(LedgerError::EventNotFound);
                }
                if stop_index > start_event_index {
                    self.events.remove(stop_index);
                    self.events.remove(start_event_index);
                } else {
                    self.events.remove(start_event_index);
                    self.events.remove(stop_index);
                }
            },
            None => {
                self.events.remove(start_event_index);
            },
        }
        Ok(())
    }
}

/// Ordering preservation for starts: a start that belongs to a session is
/// never moved to or past the end of its session, nor before the previous
/// stop of its task.
pub proof fn lemma_start_keeps_order(log: Seq<EventModel>, index: int, new_at: int, now: int)
    requires
        retime_start_refusal(log, index, new_at, now) is None,
    ensures
        session_started_at(sessions_at(log, now), index, 0) matches Some(session) && new_at
            < session.stop && (previous_stop(log, session.task, index) matches Some(previous)
            ==> previous <= new_at),
{
}

/// Ordering preservation for stops: a stop that belongs to a session is never
/// moved to or before the start of its session, nor past the instant at which
/// the log is read, nor past the next start of its task.
pub proof fn lemma_stop_keeps_order(log: Seq<EventModel>, index: int, new_at: int, now: int)
    requires
        retime_stop_refusal(log, index, new_at, now) is None,
    ensures
        session_stopped_at(sessions_at(log, now), index, 0) matches Some(session)
            && session.start < new_at <= now && (next_start(log, session.task, index) matches Some(
            next,
        ) ==> new_at <= next),
{
}

} // verus!
