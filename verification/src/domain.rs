//! The entities a ledger holds and the events it records.

use vstd::prelude::*;
use vstd::std_specs::iter::IteratorSpec;
use vstd::string::*;
use crate::text::copy_optional_text;
use crate::time::Timestamp;

verus! {

/// A project that tasks belong to.
#[derive(Clone, Debug)]
pub struct Project {
    pub id: String,
    pub name: String,
    pub color: Option<String>,
    pub archived: bool,
}

/// An optional grouping of tasks across projects.
#[derive(Clone, Debug)]
pub struct Category {
    pub id: String,
    pub name: String,
    pub description: Option<String>,
    pub archived: bool,
}

/// A unit of work whose time is tracked.
#[derive(Clone, Debug)]
pub struct Task {
    pub id: String,
    pub project_id: String,
    pub category_id: Option<String>,
    pub description: String,
    pub archived: bool,
}

/// How many characters of `text` come before its first line feed.
pub open spec fn line_end(text: Seq<char>) -> nat
    decreases text.len(),
{
    if text.len() == 0 || text[0] == '\n' {
        0
    } else {
        1 + line_end(text.drop_first())
    }
}

/// The first line of `text`, without its line ending: a line feed, or a
/// carriage return and a line feed. A carriage return that no line feed
/// follows belongs to the line. Empty text has no line.
pub open spec fn first_line(text: Seq<char>) -> Option<Seq<char>> {
    if text.len() == 0 {
        None
    } else {
        let end = line_end(text) as int;
        if end < text.len() && end > 0 && text[end - 1] == '\r' {
            Some(text.take(end - 1))
        } else {
            Some(text.take(end))
        }
    }
}

/// What stands for the title of a task without a description.
pub open spec fn no_description() -> Seq<char> {
    "(no description)"@
}

/// `line_end` counted from a later position.
pub proof fn lemma_line_end_skip(text: Seq<char>, k: nat)
    requires
        k <= text.len(),
        forall|i: int| 0 <= i < k ==> text[i] != '\n',
    ensures
        line_end(text) == k + line_end(text.skip(k as int)),
    decreases k,
{
    if k > 0 {
        assert(text.drop_first().skip(k - 1) =~= text.skip(k as int));
        assert forall|i: int| 0 <= i < k - 1 implies text.drop_first()[i] != '\n' by {
            assert(text.drop_first()[i] == text[i + 1]);
        }
        lemma_line_end_skip(text.drop_first(), (k - 1) as nat);
    } else {
        assert(text.skip(0) =~= text);
    }
}

impl Task {
    /// The display title of the task: the first line of its description.
    pub fn short_description(&self) -> (title: String)
        ensures
            title@ == match first_line(self.description@) {
                Some(line) => line,
                None => no_description(),
            },
    {
        broadcast use {next_postcondition, axiom_spec_iter};

        let text: &str = self.description.as_str();
        let total: usize = text.unicode_len();
        let mut chars = text.chars();
        let mut end: usize = 0;
        let mut after_return: bool = false;
        let mut found: bool = false;
        let mut done: bool = false;
        while !done
            invariant
                chars.obeys_prophetic_iter_laws(),
                end <= text@.len(),
                total == text@.len(),
                !done ==> chars.remaining() == text@.skip(end as int),
                forall|i: int| 0 <= i < end ==> text@[i] != '\n',
                after_return == (end > 0 && text@[end - 1] == '\r'),
                done ==> line_end(text@) == end && found == (end < text@.len()),
                !done ==> !found,
            decreases (if done { 0 } else { 1 + text@.len() - end }),
        {
            let ghost rest = chars.remaining();
            match chars.next() {
                Some(c) => {
                    proof {
                        assert(rest[0] == text@[end as int]);
                        assert(rest.drop_first() =~= text@.skip(end + 1));
                    }
                    if c == '\n' {
                        proof {
                            lemma_line_end_skip(text@, end as nat);
                        }
                        found = true;
                        done = true;
                    } else {
                        after_return = c == '\r';
                        end = end + 1;
                    }
                },
                None => {
                    proof {
                        lemma_line_end_skip(text@, end as nat);
                        assert(text@.skip(end as int).len() == 0);
                    }
                    done = true;
                },
            }
        }
        if end == 0 && !found {
            return "(no description)".to_owned();
        }
        let stop: usize = if found && after_return {
            end - 1
        } else {
            end
        };
        let line = text.substring_char(0, stop);
        proof {
            assert(text@.subrange(0, stop as int) =~= text@.take(stop as int));
        }
        line.to_owned()
    }
}

/// What an event records.
#[derive(Clone, Debug)]
pub enum EventKind {
    Start { task_id: String, note: Option<String> },
    Stop { task_id: String, note: Option<String> },
}

/// One entry of the event log.
#[derive(Clone, Debug)]
pub struct TimeEvent {
    pub timestamp: Timestamp,
    pub kind: EventKind,
}

/// An event as the replay reads it: an instant, a direction, a task and a
/// note.
pub struct EventModel {
    pub at: int,
    pub starts: bool,
    pub task: Seq<char>,
    pub note: Option<Seq<char>>,
}

/// The text of an optional string.
pub open spec fn optional_text(text: Option<String>) -> Option<Seq<char>> {
    match text {
        Some(s) => Some(s@),
        None => None,
    }
}

impl EventKind {
    pub open spec fn is_start(self) -> bool {
        self is Start
    }

    /// The task the event belongs to.
    pub open spec fn task(self) -> Seq<char> {
        match self {
            EventKind::Start { task_id, .. } => task_id@,
            EventKind::Stop { task_id, .. } => task_id@,
        }
    }

    pub open spec fn note(self) -> Option<Seq<char>> {
        match self {
            EventKind::Start { note, .. } => optional_text(note),
            EventKind::Stop { note, .. } => optional_text(note),
        }
    }

    /// The id of the task the event belongs to.
    pub fn task_id(&self) -> (id: &String)
        ensures
            id@ == self.task(),
    {
        match self {
            EventKind::Start { task_id, .. } => task_id,
            EventKind::Stop { task_id, .. } => task_id,
        }
    }

    /// Whether this is a start event.
    pub fn starts(&self) -> (starts: bool)
        ensures
            starts == self.is_start(),
    {
        match self {
            EventKind::Start { .. } => true,
            EventKind::Stop { .. } => false,
        }
    }
}

impl TimeEvent {
    pub open spec fn model(self) -> EventModel {
        EventModel {
            at: self.timestamp.value(),
            starts: self.kind.is_start(),
            task: self.kind.task(),
            note: self.kind.note(),
        }
    }

    /// A start event for `task_id` at `timestamp`.
    pub fn start(task_id: String, timestamp: Timestamp, note: Option<String>) -> (event: TimeEvent)
        ensures
            event.timestamp == timestamp,
            event.kind == (EventKind::Start { task_id, note }),
    {
        TimeEvent { timestamp, kind: EventKind::Start { task_id, note } }
    }

    /// A stop event for `task_id` at `timestamp`.
    pub fn stop(task_id: String, timestamp: Timestamp, note: Option<String>) -> (event: TimeEvent)
        ensures
            event.timestamp == timestamp,
            event.kind == (EventKind::Stop { task_id, note }),
    {
        TimeEvent { timestamp, kind: EventKind::Stop { task_id, note } }
    }

    /// A copy of this event.
    pub fn duplicate(&self) -> (copy: TimeEvent)
        ensures
            copy == *self,
    {
        match &self.kind {
            EventKind::Start { task_id, note } => TimeEvent {
                timestamp: self.timestamp,
                kind: EventKind::Start { task_id: task_id.clone(), note: copy_optional_text(note) },
            },
            EventKind::Stop { task_id, note } => TimeEvent {
                timestamp: self.timestamp,
                kind: EventKind::Stop { task_id: task_id.clone(), note: copy_optional_text(note) },
            },
        }
    }
}

/// The log as the replay reads it.
pub open spec fn log_model(events: Seq<TimeEvent>) -> Seq<EventModel> {
    Seq::new(events.len(), |i: int| events[i].model())
}

} // verus!
