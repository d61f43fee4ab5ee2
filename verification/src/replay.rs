//! Replaying the event log: the order in which events are read, the
//! intervals they open and close, and the sessions that result.

use vstd::prelude::*;
use vstd::relations::{sorted_by, total_ordering};
use vstd::seq_lib::{lemma_sorted_unique, to_multiset_build};
use crate::domain::{log_model, optional_text, EventKind, EventModel, TimeEvent};
use crate::text::{copy_optional_text, same_text};
use crate::time::Timestamp;

verus! {

/// Whether the event at log position `a` is replayed no later than the one at
/// `b`: the earlier instant first, and of two events at one instant the one
/// that was appended first.
pub open spec fn replays_before(log: Seq<EventModel>, a: int, b: int) -> bool {
    log[a].at < log[b].at || (log[a].at == log[b].at && a <= b)
}

/// `replays_before` as a relation on log positions.
pub open spec fn replay_relation(log: Seq<EventModel>) -> spec_fn(int, int) -> bool {
    |a: int, b: int| replays_before(log, a, b)
}

/// The log positions `0..n` in append order.
pub open spec fn positions(n: nat) -> Seq<int> {
    Seq::new(n, |i: int| i)
}

/// The log positions in the order in which the replay reads them.
pub open spec fn replay_order(log: Seq<EventModel>) -> Seq<int> {
    positions(log.len()).sort_by(replay_relation(log))
}

/// A vector of positions as mathematical integers.
pub open spec fn as_positions(order: Seq<usize>) -> Seq<int> {
    Seq::new(order.len(), |k: int| order[k] as int)
}

/// The replay relation orders all positions totally.
pub proof fn lemma_replay_relation_total(log: Seq<EventModel>)
    ensures
        total_ordering(replay_relation(log)),
{
    let r = replay_relation(log);
    assert forall|x: int, y: int| #[trigger] r(x, y) || #[trigger] r(y, x) by {}
    assert forall|x: int, y: int, z: int| #[trigger] r(x, y) && #[trigger] r(y, z) implies r(
        x,
        z,
    ) by {}
    assert forall|x: int, y: int| #[trigger] r(x, y) && #[trigger] r(y, x) implies x == y by {}
    assert forall|x: int| #[trigger] r(x, x) by {}
}

/// The replay order holds every log position exactly once, earlier instants
/// first and ties in append order.
pub proof fn lemma_replay_order_sorted(log: Seq<EventModel>)
    ensures
        replay_order(log).len() == log.len(),
        replay_order(log).to_multiset() == positions(log.len()).to_multiset(),
        sorted_by(replay_order(log), replay_relation(log)),
        forall|k: int|
            0 <= k < log.len() ==> 0 <= #[trigger] replay_order(log)[k] < log.len(),
        forall|p: int| 0 <= p < log.len() ==> replay_order(log).contains(p),
{
    broadcast use vstd::seq_lib::group_to_multiset_ensures;

    lemma_replay_relation_total(log);
    let base = positions(log.len());
    let sorted = replay_order(log);
    base.lemma_sort_by_ensures(replay_relation(log));
    assert(sorted.to_multiset().len() == base.to_multiset().len());
    assert forall|k: int| 0 <= k < log.len() implies 0 <= #[trigger] sorted[k] < log.len() by {
        let p = sorted[k];
        assert(sorted.contains(p));
        if !base.contains(p) {
            assert(!sorted.contains(p));
        }
        let j = choose|j: int| 0 <= j < base.len() && base[j] == p;
        assert(base[j] == j);
    }
    assert forall|p: int| 0 <= p < log.len() implies sorted.contains(p) by {
        assert(base[p] == p);
        assert(base.contains(p));
        assert(base.to_multiset().count(p) > 0);
        assert(sorted.to_multiset().count(p) > 0);
    }
}

/// Whether the event at position `a` is replayed no later than the one at
/// `b`.
pub fn reads_before(events: &Vec<TimeEvent>, a: usize, b: usize) -> (before: bool)
    requires
        a < events@.len(),
        b < events@.len(),
    ensures
        before == replays_before(log_model(events@), a as int, b as int),
{
    let first: i128 = events[a].timestamp.to_nanos();
    let second: i128 = events[b].timestamp.to_nanos();
    first < second || (first == second && a <= b)
}

/// Merges two runs of positions, each in replay order, into one.
fn merge_positions(events: &Vec<TimeEvent>, left: &Vec<usize>, right: &Vec<usize>) -> (merged: Vec<
    usize,
>)
    requires
        forall|k: int| 0 <= k < left@.len() ==> #[trigger] left@[k] < events@.len(),
        forall|k: int| 0 <= k < right@.len() ==> #[trigger] right@[k] < events@.len(),
        sorted_by(as_positions(left@), replay_relation(log_model(events@))),
        sorted_by(as_positions(right@), replay_relation(log_model(events@))),
        left@.len() + right@.len() <= usize::MAX,
    ensures
        forall|k: int| 0 <= k < merged@.len() ==> #[trigger] merged@[k] < events@.len(),
        sorted_by(as_positions(merged@), replay_relation(log_model(events@))),
        as_positions(merged@).to_multiset() == as_positions(left@).to_multiset().add(
            as_positions(right@).to_multiset(),
        ),
{
    broadcast use {vstd::seq_lib::group_to_multiset_ensures, vstd::multiset::group_multiset_axioms};

    let ghost log = log_model(events@);
    let ghost rel = replay_relation(log);
    let ghost l = as_positions(left@);
    let ghost r = as_positions(right@);
    let ll: usize = left.len();
    let rl: usize = right.len();
    let mut merged: Vec<usize> = Vec::new();
    let mut i: usize = 0;
    let mut j: usize = 0;
    proof {
        assert(l.take(0) =~= Seq::<int>::empty());
        assert(r.take(0) =~= Seq::<int>::empty());
        assert(as_positions(merged@) =~= Seq::<int>::empty());
        assert(as_positions(merged@).to_multiset() =~= l.take(0).to_multiset().add(
            r.take(0).to_multiset(),
        ));
    }
    while i < ll || j < rl
        invariant
            i <= ll,
            j <= rl,
            ll == left@.len(),
            rl == right@.len(),
            ll + rl <= usize::MAX,
            log == log_model(events@),
            rel == replay_relation(log),
            l == as_positions(left@),
            r == as_positions(right@),
            forall|k: int| 0 <= k < left@.len() ==> #[trigger] left@[k] < events@.len(),
            forall|k: int| 0 <= k < right@.len() ==> #[trigger] right@[k] < events@.len(),
            sorted_by(l, rel),
            sorted_by(r, rel),
            merged@.len() == i + j,
            forall|k: int| 0 <= k < merged@.len() ==> #[trigger] merged@[k] < events@.len(),
            sorted_by(as_positions(merged@), rel),
            as_positions(merged@).to_multiset() == l.take(i as int).to_multiset().add(
                r.take(j as int).to_multiset(),
            ),
            forall|k: int, x: int|
                0 <= k < merged@.len() && i <= x < ll ==> replays_before(
                    log,
                    #[trigger] as_positions(merged@)[k],
                    #[trigger] l[x],
                ),
            forall|k: int, y: int|
                0 <= k < merged@.len() && j <= y < rl ==> replays_before(
                    log,
                    #[trigger] as_positions(merged@)[k],
                    #[trigger] r[y],
                ),
        decreases ll - i + rl - j,
    {
        let from_left: bool = if i >= ll {
            false
        } else if j >= rl {
            true
        } else {
            reads_before(events, left[i], right[j])
        };
        let ghost before = as_positions(merged@);
        if from_left {
            let next: usize = left[i];
            merged.push(next);
            proof {
                let after = as_positions(merged@);
                assert(after =~= before.push(next as int));
                assert(l.take(i + 1) =~= l.take(i as int).push(next as int));
                to_multiset_build(before, next as int);
                to_multiset_build(l.take(i as int), next as int);
                assert(after.to_multiset() =~= l.take(i + 1).to_multiset().add(
                    r.take(j as int).to_multiset(),
                ));
                assert(l[i as int] == next);
                assert forall|a: int, b: int| 0 <= a < b < after.len() implies #[trigger] rel(
                    after[a],
                    after[b],
                ) by {
                    if b < before.len() {
                        assert(rel(before[a], before[b]));
                    } else {
                        assert(replays_before(log, before[a], l[i as int]));
                    }
                }
                assert forall|k: int, x: int|
                    0 <= k < after.len() && i + 1 <= x < ll implies replays_before(
                    log,
                    #[trigger] after[k],
                    #[trigger] l[x],
                ) by {
                    if k < before.len() {
                        assert(replays_before(log, before[k], l[x]));
                    } else {
                        assert(rel(l[i as int], l[x]));
                    }
                }
                assert forall|k: int, y: int|
                    0 <= k < after.len() && j <= y < rl implies replays_before(
                    log,
                    #[trigger] after[k],
                    #[trigger] r[y],
                ) by {
                    if k < before.len() {
                        assert(replays_before(log, before[k], r[y]));
                    } else {
                        assert(replays_before(log, next as int, r[j as int]));
                        if y > j {
                            assert(rel(r[j as int], r[y]));
                        }
                    }
                }
            }
            i = i + 1;
        } else {
            let next: usize = right[j];
            merged.push(next);
            proof {
                let after = as_positions(merged@);
                assert(after =~= before.push(next as int));
                assert(r.take(j + 1) =~= r.take(j as int).push(next as int));
                to_multiset_build(before, next as int);
                to_multiset_build(r.take(j as int), next as int);
                assert(after.to_multiset() =~= l.take(i as int).to_multiset().add(
                    r.take(j + 1).to_multiset(),
                ));
                assert(r[j as int] == next);
                assert forall|a: int, b: int| 0 <= a < b < after.len() implies #[trigger] rel(
                    after[a],
                    after[b],
                ) by {
                    if b < before.len() {
                        assert(rel(before[a], before[b]));
                    } else {
                        assert(replays_before(log, before[a], r[j as int]));
                    }
                }
                assert forall|k: int, y: int|
                    0 <= k < after.len() && j + 1 <= y < rl implies replays_before(
                    log,
                    #[trigger] after[k],
                    #[trigger] r[y],
                ) by {
                    if k < before.len() {
                        assert(replays_before(log, before[k], r[y]));
                    } else {
                        assert(rel(r[j as int], r[y]));
                    }
                }
                assert forall|k: int, x: int|
                    0 <= k < after.len() && i <= x < ll implies replays_before(
                    log,
                    #[trigger] after[k],
                    #[trigger] l[x],
                ) by {
                    if k < before.len() {
                        assert(replays_before(log, before[k], l[x]));
                    } else {
                        assert(!replays_before(log, l[i as int], next as int));
                        if x > i {
                            assert(rel(l[i as int], l[x]));
                        }
                    }
                }
            }
            j = j + 1;
        }
    }
    proof {
        assert(l.take(ll as int) =~= l);
        assert(r.take(rl as int) =~= r);
    }
    merged
}

/// Puts positions into replay order by merging sorted halves.
fn sort_positions(events: &Vec<TimeEvent>, items: Vec<usize>) -> (sorted: Vec<usize>)
    requires
        forall|k: int| 0 <= k < items@.len() ==> #[trigger] items@[k] < events@.len(),
    ensures
        sorted@.len() == items@.len(),
        forall|k: int| 0 <= k < sorted@.len() ==> #[trigger] sorted@[k] < events@.len(),
        sorted_by(as_positions(sorted@), replay_relation(log_model(events@))),
        as_positions(sorted@).to_multiset() == as_positions(items@).to_multiset(),
    decreases items@.len(),
{
    broadcast use vstd::seq_lib::group_to_multiset_ensures;

    let n: usize = items.len();
    if n <= 1 {
        return items;
    }
    let ghost all = items@;
    let mut left = items;
    let right = left.split_off(n / 2);
    proof {
        assert(all =~= left@ + right@);
        assert(as_positions(all) =~= as_positions(left@) + as_positions(right@));
        vstd::seq_lib::lemma_multiset_commutative(as_positions(left@), as_positions(right@));
    }
    let left = sort_positions(events, left);
    let right = sort_positions(events, right);
    let sorted = merge_positions(events, &left, &right);
    proof {
        assert(as_positions(sorted@).to_multiset().len() == as_positions(all).to_multiset().len());
    }
    sorted
}

/// The order in which the replay reads `events`.
pub fn replay_sequence(events: &Vec<TimeEvent>) -> (order: Vec<usize>)
    ensures
        as_positions(order@) == replay_order(log_model(events@)),
        order@.len() == events@.len(),
        forall|k: int| 0 <= k < order@.len() ==> #[trigger] order@[k] < events@.len(),
{
    let ghost log = log_model(events@);
    let n: usize = events.len();
    let mut items: Vec<usize> = Vec::new();
    let mut i: usize = 0;
    proof {
        assert(as_positions(items@) =~= positions(0));
    }
    while i < n
        invariant
            i <= n,
            n == events@.len(),
            items@.len() == i,
            forall|k: int| 0 <= k < items@.len() ==> #[trigger] items@[k] < n,
            as_positions(items@) == positions(i as nat),
        decreases n - i,
    {
        let ghost before = as_positions(items@);
        items.push(i);
        proof {
            assert(as_positions(items@) =~= before.push(i as int));
            assert(positions((i + 1) as nat) =~= positions(i as nat).push(i as int));
        }
        i = i + 1;
    }
    let order = sort_positions(events, items);
    proof {
        lemma_replay_relation_total(log);
        lemma_replay_order_sorted(log);
        lemma_sorted_unique(as_positions(order@), replay_order(log), replay_relation(log));
    }
    order
}

/// An interval that a start event opened and no stop event has closed yet.
pub struct OpenModel {
    pub task: Seq<char>,
    pub started_at: int,
    pub note: Option<Seq<char>>,
    pub start_index: int,
}

/// A reconstructed session `[start, stop)` of one task. `stop_index` is
/// `None` for a session that is still running and was cut at the evaluation
/// instant.
pub struct SessionModel {
    pub task: Seq<char>,
    pub start: int,
    pub stop: int,
    pub note: Option<Seq<char>>,
    pub start_index: int,
    pub stop_index: Option<int>,
}

/// What the replay has reconstructed so far: the open intervals, in the order
/// in which their tasks were first opened, and the closed sessions, in the
/// order in which they were closed.
pub struct ReplayModel {
    pub open: Seq<OpenModel>,
    pub closed: Seq<SessionModel>,
}

/// Where in `open` the interval of `task` stands, if it has one.
pub open spec fn find_open(open: Seq<OpenModel>, task: Seq<char>) -> Option<int>
    decreases open.len(),
{
    if open.len() == 0 {
        None
    } else if open.last().task == task {
        Some(open.len() - 1)
    } else {
        find_open(open.drop_last(), task)
    }
}

/// The state after reading `event`, which stands at log position `index`.
/// A start opens an interval for its task, replacing one that is already
/// open. A stop closes the task's open interval, if there is one, and the
/// interval becomes a session when the stop is later than the start.
pub open spec fn replay_step(state: ReplayModel, event: EventModel, index: int) -> ReplayModel {
    let found = find_open(state.open, event.task);
    if event.starts {
        let opened = OpenModel {
            task: event.task,
            started_at: event.at,
            note: event.note,
            start_index: index,
        };
        match found {
            Some(k) => ReplayModel { open: state.open.update(k, opened), closed: state.closed },
            None => ReplayModel { open: state.open.push(opened), closed: state.closed },
        }
    } else {
        match found {
            Some(k) => {
                let interval = state.open[k];
                let session = SessionModel {
                    task: interval.task,
                    start: interval.started_at,
                    stop: event.at,
                    note: interval.note,
                    start_index: interval.start_index,
                    stop_index: Some(index),
                };
                ReplayModel {
                    open: state.open.remove(k),
                    closed: if event.at > interval.started_at {
                        state.closed.push(session)
                    } else {
                        state.closed
                    },
                }
            },
            None => state,
        }
    }
}

/// The state after reading the first `n` positions of `order`.
pub open spec fn replay_prefix(log: Seq<EventModel>, order: Seq<int>, n: nat) -> ReplayModel
    decreases n,
{
    if n == 0 {
        ReplayModel { open: Seq::empty(), closed: Seq::empty() }
    } else {
        let index = order[n - 1];
        replay_step(replay_prefix(log, order, (n - 1) as nat), log[index], index)
    }
}

/// The state after replaying the whole log.
pub open spec fn replay(log: Seq<EventModel>) -> ReplayModel {
    replay_prefix(log, replay_order(log), log.len())
}

/// No task has two open intervals.
pub open spec fn distinct_tasks(open: Seq<OpenModel>) -> bool {
    forall|i: int, j: int|
        0 <= i < j < open.len() ==> (#[trigger] open[i]).task != (#[trigger] open[j]).task
}

/// Whether `task` has an open interval once the whole log is replayed.
pub open spec fn is_running(log: Seq<EventModel>, task: Seq<char>) -> bool {
    find_open(replay(log).open, task) is Some
}

/// `find_open` returns the last position whose task matches.
pub proof fn lemma_find_open(open: Seq<OpenModel>, task: Seq<char>)
    ensures
        match find_open(open, task) {
            Some(k) => 0 <= k < open.len() && open[k].task == task && forall|j: int|
                k < j < open.len() ==> (#[trigger] open[j]).task != task,
            None => forall|j: int| 0 <= j < open.len() ==> (#[trigger] open[j]).task != task,
        },
    decreases open.len(),
{
    if open.len() > 0 && open.last().task != task {
        lemma_find_open(open.drop_last(), task);
        let rest = open.drop_last();
        match find_open(rest, task) {
            Some(k) => {
                assert forall|j: int| k < j < open.len() implies (#[trigger] open[j]).task
                    != task by {
                    if j < rest.len() {
                        assert(rest[j].task != task);
                    }
                }
            },
            None => {
                assert forall|j: int| 0 <= j < open.len() implies (#[trigger] open[j]).task
                    != task by {
                    if j < rest.len() {
                        assert(rest[j].task != task);
                    }
                }
            },
        }
    }
}

/// An interval that is open once the log has been replayed.
#[derive(Clone, Debug)]
pub struct ActiveSession {
    pub task_id: String,
    pub started_at: Timestamp,
    pub note: Option<String>,
    /// The log position of the start event that opened the interval.
    pub start_event_index: usize,
}

/// A reconstructed session of one task.
#[derive(Clone, Debug)]
pub struct SessionRecord {
    pub task_id: String,
    pub start: Timestamp,
    pub stop: Timestamp,
    pub note: Option<String>,
    /// The log position of the start event.
    pub start_event_index: usize,
    /// The log position of the stop event; `None` while the task is running.
    pub stop_event_index: Option<usize>,
}

/// A log position, if any, as a mathematical integer.
pub open spec fn optional_position(index: Option<usize>) -> Option<int> {
    match index {
        Some(i) => Some(i as int),
        None => None,
    }
}

impl ActiveSession {
    pub open spec fn model(self) -> OpenModel {
        OpenModel {
            task: self.task_id@,
            started_at: self.started_at.value(),
            note: optional_text(self.note),
            start_index: self.start_event_index as int,
        }
    }
}

impl SessionRecord {
    pub open spec fn model(self) -> SessionModel {
        SessionModel {
            task: self.task_id@,
            start: self.start.value(),
            stop: self.stop.value(),
            note: optional_text(self.note),
            start_index: self.start_event_index as int,
            stop_index: optional_position(self.stop_event_index),
        }
    }
}

/// Open intervals as the replay reads them.
pub open spec fn open_models(active: Seq<ActiveSession>) -> Seq<OpenModel> {
    Seq::new(active.len(), |i: int| active[i].model())
}

/// Sessions as the replay reads them.
pub open spec fn session_models(sessions: Seq<SessionRecord>) -> Seq<SessionModel> {
    Seq::new(sessions.len(), |i: int| sessions[i].model())
}

/// Where in `active` the interval of `task_id` stands, if it has one.
pub fn find_active(active: &Vec<ActiveSession>, task_id: &str) -> (found: Option<usize>)
    ensures
        optional_position(found) == find_open(open_models(active@), task_id@),
        found matches Some(k) ==> k < active@.len() && active@[k as int].task_id@ == task_id@,
{
    let ghost open = open_models(active@);
    let mut i: usize = active.len();
    while i > 0
        invariant
            i <= active@.len(),
            open == open_models(active@),
            forall|j: int| i <= j < open.len() ==> (#[trigger] open[j]).task != task_id@,
        decreases i,
    {
        i = i - 1;
        if same_text(active[i].task_id.as_str(), task_id) {
            proof {
                lemma_find_open(open, task_id@);
                assert(open[i as int].task == task_id@);
            }
            return Some(i);
        }
    }
    proof {
        lemma_find_open(open, task_id@);
    }
    None
}

/// The sessions of one task follow one another: of two sessions of a task,
/// the earlier in the list has stopped when the later starts.
pub open spec fn ordered_per_task(sessions: Seq<SessionRecord>) -> bool {
    forall|i: int, j: int|
        0 <= i < j < sessions.len() && (#[trigger] sessions[i]).task_id@ == (
        #[trigger] sessions[j]).task_id@ ==> sessions[i].stop.value() <= sessions[j].start.value()
}

/// Every closed session of a task has stopped when the task's open interval
/// starts.
pub open spec fn closed_before_open(closed: Seq<SessionRecord>, open: Seq<ActiveSession>) -> bool {
    forall|i: int, o: int|
        0 <= i < closed.len() && 0 <= o < open.len() && (#[trigger] closed[i]).task_id@ == (
        #[trigger] open[o]).task_id@ ==> closed[i].stop.value() <= open[o].started_at.value()
}

/// Replays `events` and returns the intervals left open and the sessions
/// closed. The sessions of one task follow one another in time.
pub fn replay_events(events: &Vec<TimeEvent>) -> (state: (Vec<ActiveSession>, Vec<SessionRecord>))
    ensures
        open_models(state.0@) == replay(log_model(events@)).open,
        session_models(state.1@) == replay(log_model(events@)).closed,
        distinct_tasks(open_models(state.0@)),
        forall|i: int|
            0 <= i < state.1@.len() ==> (#[trigger] state.1@[i]).start.value()
                < state.1@[i].stop.value(),
        ordered_per_task(state.1@),
        closed_before_open(state.1@, state.0@),
{
    let ghost log = log_model(events@);
    let order = replay_sequence(events);
    let ghost spec_order = replay_order(log);
    proof {
        lemma_replay_order_sorted(log);
        assert forall|a: int, b: int| 0 <= a <= b < log.len() implies log[spec_order[a]].at
            <= log[spec_order[b]].at by {
            if a < b {
                assert(replay_relation(log)(spec_order[a], spec_order[b]));
            }
        }
    }
    let n: usize = order.len();
    let mut open: Vec<ActiveSession> = Vec::new();
    let mut closed: Vec<SessionRecord> = Vec::new();
    let mut k: usize = 0;
    proof {
        assert(open_models(open@) =~= Seq::<OpenModel>::empty());
        assert(session_models(closed@) =~= Seq::<SessionModel>::empty());
    }
    while k < n
        invariant
            k <= n,
            n == order@.len(),
            n == events@.len(),
            log == log_model(events@),
            spec_order == replay_order(log),
            as_positions(order@) == spec_order,
            forall|j: int| 0 <= j < order@.len() ==> #[trigger] order@[j] < events@.len(),
            open_models(open@) == replay_prefix(log, spec_order, k as nat).open,
            session_models(closed@) == replay_prefix(log, spec_order, k as nat).closed,
            distinct_tasks(open_models(open@)),
            forall|i: int|
                0 <= i < closed@.len() ==> (#[trigger] closed@[i]).start.value()
                    < closed@[i].stop.value(),
            forall|a: int, b: int|
                0 <= a <= b < log.len() ==> log[spec_order[a]].at <= log[spec_order[b]].at,
            ordered_per_task(closed@),
            closed_before_open(closed@, open@),
            forall|i: int, m: int|
                0 <= i < closed@.len() && k <= m < n ==> (#[trigger] closed@[i]).stop.value()
                    <= log[#[trigger] spec_order[m]].at,
        decreases n - k,
    {
        let index: usize = order[k];
        let event = &events[index];
        let ghost before = replay_prefix(log, spec_order, k as nat);
        let ghost after = replay_prefix(log, spec_order, (k + 1) as nat);
        let ghost open_before = open@;
        let ghost closed_before = closed@;
        proof {
            assert(spec_order[k as int] == index as int);
            assert(log[index as int] == event.model());
            assert(after == replay_step(before, event.model(), index as int));
            lemma_find_open(open_models(open_before), event.model().task);
        }
        match &event.kind {
            EventKind::Start { task_id, note } => {
                let entry = ActiveSession {
                    task_id: task_id.clone(),
                    started_at: event.timestamp,
                    note: copy_optional_text(note),
                    start_event_index: index,
                };
                match find_active(&open, task_id.as_str()) {
                    Some(p) => {
                        open.set(p, entry);
                        proof {
                            assert(open_models(open@) =~= open_models(open_before).update(
                                p as int,
                                entry.model(),
                            ));
                            assert forall|i: int, o: int|
                                0 <= i < closed@.len() && 0 <= o < open@.len() && (
                                #[trigger] closed@[i]).task_id@ == (#[trigger] open@[o]).task_id@
                                implies closed@[i].stop.value() <= open@[o].started_at.value() by {
                                if o == p {
                                    assert(closed@[i].stop.value() <= log[spec_order[k as int]].at);
                                } else {
                                    assert(open@[o] == open_before[o]);
                                }
                            }
                        }
                    },
                    None => {
                        open.push(entry);
                        proof {
                            assert(open_models(open@) =~= open_models(open_before).push(
                                entry.model(),
                            ));
                            assert forall|i: int, o: int|
                                0 <= i < closed@.len() && 0 <= o < open@.len() && (
                                #[trigger] closed@[i]).task_id@ == (#[trigger] open@[o]).task_id@
                                implies closed@[i].stop.value() <= open@[o].started_at.value() by {
                                if o == open_before.len() {
                                    assert(closed@[i].stop.value() <= log[spec_order[k as int]].at);
                                } else {
                                    assert(open@[o] == open_before[o]);
                                }
                            }
                        }
                    },
                }
            },
            EventKind::Stop { task_id, .. } => {
                match find_active(&open, task_id.as_str()) {
                    Some(p) => {
                        let interval = open.remove(p);
                        proof {
                            assert(open_models(open@) =~= open_models(open_before).remove(p as int));
                            assert(interval.model() == open_models(open_before)[p as int]);
                            assert forall|o: int| 0 <= o < open@.len() implies (#[trigger] open@[o])
                                == open_before[if o < p { o } else { o + 1 }] && open@[o].task_id@
                                != interval.task_id@ by {
                                let from = if o < p { o } else { o + 1 };
                                assert(open@[o] == open_before[from]);
                                assert(open_models(open_before)[from].task != open_models(
                                    open_before,
                                )[p as int].task);
                            }
                            assert forall|i: int, o: int|
                                0 <= i < closed@.len() && 0 <= o < open@.len() && (
                                #[trigger] closed@[i]).task_id@ == (#[trigger] open@[o]).task_id@
                                implies closed@[i].stop.value() <= open@[o].started_at.value() by {
                                assert(open@[o] == open_before[if o < p { o } else { o + 1 }]);
                            }
                        }
                        if event.timestamp.to_nanos() > interval.started_at.to_nanos() {
                            let session = SessionRecord {
                                task_id: interval.task_id,
                                start: interval.started_at,
                                stop: event.timestamp,
                                note: interval.note,
                                start_event_index: interval.start_event_index,
                                stop_event_index: Some(index),
                            };
                            closed.push(session);
                            proof {
                                assert(session_models(closed@) =~= session_models(
                                    closed_before,
                                ).push(session.model()));
                                assert forall|i: int, o: int|
                                    0 <= i < closed@.len() && 0 <= o < open@.len() && (
                                    #[trigger] closed@[i]).task_id@ == (
                                    #[trigger] open@[o]).task_id@ implies closed@[i].stop.value()
                                    <= open@[o].started_at.value() by {
                                    if i < closed_before.len() {
                                        assert(closed@[i] == closed_before[i]);
                                    }
                                }
                            }
                        }
                    },
                    None => {},
                }
            },
        }
        k = k + 1;
    }
    (open, closed)
}

/// The session of an interval that is still open at the instant `now`.
pub open spec fn running_session(interval: OpenModel, now: int) -> SessionModel {
    SessionModel {
        task: interval.task,
        start: interval.started_at,
        stop: now,
        note: interval.note,
        start_index: interval.start_index,
        stop_index: None,
    }
}

/// The sessions of the open intervals, each running through `now`. An
/// interval that starts at or after `now` has no session yet.
pub open spec fn running_sessions(open: Seq<OpenModel>, now: int) -> Seq<SessionModel>
    decreases open.len(),
{
    if open.len() == 0 {
        Seq::empty()
    } else {
        let before = running_sessions(open.drop_last(), now);
        if now > open.last().started_at {
            before.push(running_session(open.last(), now))
        } else {
            before
        }
    }
}

/// Every session that the log holds when it is read at the instant `now`:
/// the closed ones in the order in which they were closed, then the running
/// ones.
pub open spec fn sessions_at(log: Seq<EventModel>, now: int) -> Seq<SessionModel> {
    replay(log).closed + running_sessions(replay(log).open, now)
}

/// The intervals that `events` leave open, and the sessions of `events` at
/// the instant `now`. Each session is non-empty, and the sessions of one task
/// follow one another in time.
pub fn reconstruct(events: &Vec<TimeEvent>, now: Timestamp) -> (state: (
    Vec<ActiveSession>,
    Vec<SessionRecord>,
))
    ensures
        open_models(state.0@) == replay(log_model(events@)).open,
        distinct_tasks(open_models(state.0@)),
        session_models(state.1@) == sessions_at(log_model(events@), now.value()),
        forall|i: int|
            0 <= i < state.1@.len() ==> (#[trigger] state.1@[i]).start.value()
                < state.1@[i].stop.value(),
        ordered_per_task(state.1@),
{
    let ghost log = log_model(events@);
    let (open, closed) = replay_events(events);
    let ghost count = closed@.len();
    let ghost closed_part = session_models(closed@);
    let ghost open_part = open_models(open@);
    let mut sessions = closed;
    let n: usize = open.len();
    let mut j: usize = 0;
    proof {
        assert(open_part.take(0) =~= Seq::<OpenModel>::empty());
        assert(session_models(sessions@) =~= closed_part + running_sessions(
            open_part.take(0),
            now.value(),
        ));
    }
    while j < n
        invariant
            j <= n,
            n == open@.len(),
            open_part == open_models(open@),
            distinct_tasks(open_part),
            count <= sessions@.len() <= count + j,
            ordered_per_task(sessions@),
            forall|a: int, i: int|
                0 <= a < sessions@.len() && j <= i < open@.len() && (
                #[trigger] sessions@[a]).task_id@ == (#[trigger] open@[i]).task_id@
                    ==> sessions@[a].stop.value() <= open@[i].started_at.value(),
            session_models(sessions@) == closed_part + running_sessions(
                open_part.take(j as int),
                now.value(),
            ),
            forall|i: int|
                0 <= i < sessions@.len() ==> (#[trigger] sessions@[i]).start.value()
                    < sessions@[i].stop.value(),
            forall|a: int, i: int|
                count <= a < sessions@.len() && j <= i < open@.len() ==> (
                #[trigger] sessions@[a]).task_id@ != (#[trigger] open@[i]).task_id@,
            forall|a: int, b: int|
                count <= a < b < sessions@.len() ==> (#[trigger] sessions@[a]).task_id@ != (
                #[trigger] sessions@[b]).task_id@,
        decreases n - j,
    {
        let interval = &open[j];
        let ghost before = sessions@;
        proof {
            assert(open_part.take(j + 1).drop_last() =~= open_part.take(j as int));
            assert(open_part.take(j + 1).last() == interval.model());
            assert forall|i: int| j < i < open@.len() implies (#[trigger] open@[i]).task_id@
                != interval.task_id@ by {
                assert(open_part[j as int].task != open_part[i].task);
            }
        }
        if now.to_nanos() > interval.started_at.to_nanos() {
            let session = SessionRecord {
                task_id: interval.task_id.clone(),
                start: interval.started_at,
                stop: now,
                note: copy_optional_text(&interval.note),
                start_event_index: interval.start_event_index,
                stop_event_index: None,
            };
            sessions.push(session);
            proof {
                assert(session_models(sessions@) =~= session_models(before).push(session.model()));
                assert(session.model() == running_session(interval.model(), now.value()));
                assert(closed_part + running_sessions(open_part.take(j + 1), now.value())
                    =~= (closed_part + running_sessions(open_part.take(j as int), now.value())).push(
                    session.model(),
                ));
            }
        }
        j = j + 1;
    }
    proof {
        assert(open_part.take(n as int) =~= open_part);
    }
    (open, sessions)
}

/// The sessions of `events` at the instant `now`: the closed ones in the
/// order in which they were closed, then the running ones, each cut at `now`.
pub fn collect_sessions(events: &Vec<TimeEvent>, now: Timestamp) -> (sessions: Vec<SessionRecord>)
    ensures
        session_models(sessions@) == sessions_at(log_model(events@), now.value()),
        forall|i: int|
            0 <= i < sessions@.len() ==> (#[trigger] sessions@[i]).start.value()
                < sessions@[i].stop.value(),
{
    let (_, sessions) = reconstruct(events, now);
    sessions
}

/// Reading one event leaves at most one open interval per task.
pub proof fn lemma_replay_step_distinct(state: ReplayModel, event: EventModel, index: int)
    requires
        distinct_tasks(state.open),
    ensures
        distinct_tasks(replay_step(state, event, index).open),
{
    lemma_find_open(state.open, event.task);
    let next = replay_step(state, event, index).open;
    match find_open(state.open, event.task) {
        Some(k) => {
            if event.starts {
                assert forall|i: int, j: int| 0 <= i < j < next.len() implies (#[trigger] next[i]).task
                    != (#[trigger] next[j]).task by {
                    assert(next[i].task == state.open[i].task);
                    assert(next[j].task == state.open[j].task);
                }
            } else {
                assert forall|i: int, j: int| 0 <= i < j < next.len() implies (#[trigger] next[i]).task
                    != (#[trigger] next[j]).task by {
                    let a = if i < k { i } else { i + 1 };
                    let b = if j < k { j } else { j + 1 };
                    assert(next[i] == state.open[a]);
                    assert(next[j] == state.open[b]);
                }
            }
        },
        None => {
            if event.starts {
                assert forall|i: int, j: int| 0 <= i < j < next.len() implies (#[trigger] next[i]).task
                    != (#[trigger] next[j]).task by {
                    assert(next[i] == state.open[i]);
                    if j < state.open.len() {
                        assert(next[j] == state.open[j]);
                    }
                }
            }
        },
    }
}

/// However far the replay has read, no task has two open intervals.
pub proof fn lemma_replay_prefix_distinct(log: Seq<EventModel>, order: Seq<int>, n: nat)
    ensures
        distinct_tasks(replay_prefix(log, order, n).open),
    decreases n,
{
    if n > 0 {
        lemma_replay_prefix_distinct(log, order, (n - 1) as nat);
        let index = order[n - 1];
        lemma_replay_step_distinct(replay_prefix(log, order, (n - 1) as nat), log[index], index);
    }
}

/// A task has at most one open interval once the log is replayed.
pub proof fn lemma_replay_open_distinct(log: Seq<EventModel>)
    ensures
        distinct_tasks(replay(log).open),
{
    lemma_replay_prefix_distinct(log, replay_order(log), log.len());
}

} // verus!
