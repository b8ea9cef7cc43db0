//! The rows of the event store and the mathematical model of its contents.

use crate::text::{push_signed, signed_decimal};
use vstd::prelude::*;
use vstd::string::*;

verus! {

/// The kinds of event that the daemon itself writes into the log.
#[derive(Clone, Copy, Debug, PartialEq, Eq, Structural)]
pub enum SystemEventType {
    Startup,
    Shutdown,
    Ping,
}

/// What an event records: a switch to a task, or an event of the daemon.
#[derive(Clone, Copy, Debug, PartialEq, Eq, Structural)]
pub enum EventKind {
    TaskSwitch(i32),
    System(SystemEventType),
}

/// Why the store could not do what was asked.
#[derive(Clone, Copy, Debug, PartialEq, Eq, Structural)]
pub enum StorageError {
    /// The query found no row.
    NotFound,
    /// The table has handed out its last id.
    IdsExhausted,
}

/// Why an operation of the state engine failed.
#[derive(Clone, Copy, Debug, PartialEq, Eq, Structural)]
pub enum StateError {
    /// The store refused or found nothing.
    Storage(StorageError),
    /// The current task switch names a task that is not registered.
    Resolution(i32),
}

impl StateError {
    /// What the error says.
    pub open spec fn text(self) -> Seq<char> {
        match self {
            StateError::Storage(StorageError::NotFound) => "Record not found"@,
            StateError::Storage(StorageError::IdsExhausted) => "No id left"@,
            StateError::Resolution(task_id) => "No task with id "@ + signed_decimal(
                task_id as int,
            ),
        }
    }

    /// What the error says, as a string.
    pub fn to_string(&self) -> (s: String)
        ensures
            s@ == self.text(),
    {
        match self {
            StateError::Storage(StorageError::NotFound) => String::from_str("Record not found"),
            StateError::Storage(StorageError::IdsExhausted) => String::from_str("No id left"),
            StateError::Resolution(task_id) => {
                let mut s = String::from_str("No task with id ");
                push_signed(&mut s, *task_id as i64);
                s
            },
        }
    }
}

/// An event that is not yet in the log: it has no id.
#[derive(Clone, Copy, Debug, PartialEq, Eq, Structural)]
pub struct NewEvent {
    pub event_timestamp: i32,
    pub kind: EventKind,
}

/// A row of the event log. Timestamps are unix seconds.
#[derive(Clone, Copy, Debug, PartialEq, Eq, Structural)]
pub struct Event {
    pub id: i32,
    pub event_timestamp: i32,
    pub kind: EventKind,
}

/// A task that is not yet registered: it has no id.
#[derive(Debug)]
pub struct NewTask {
    pub name: String,
}

/// A row of the task registry.
#[derive(Debug)]
pub struct Task {
    pub id: i32,
    pub enabled: bool,
    pub name: String,
}

/// A task as contracts see it: its name is a sequence of characters.
pub struct TaskView {
    pub id: int,
    pub enabled: bool,
    pub name: Seq<char>,
}

impl View for Task {
    type V = TaskView;

    open spec fn view(&self) -> TaskView {
        TaskView { id: self.id as int, enabled: self.enabled, name: self.name@ }
    }
}

impl Clone for Task {
    fn clone(&self) -> (copy: Task)
        ensures
            copy == *self,
    {
        Task { id: self.id, enabled: self.enabled, name: self.name.clone() }
    }
}

/// The views of a sequence of tasks, in the same order.
pub open spec fn task_views(tasks: Seq<Task>) -> Seq<TaskView> {
    Seq::new(tasks.len(), |i: int| tasks[i]@)
}

impl SystemEventType {
    /// The name under which the kind is written and shown.
    pub open spec fn name(self) -> Seq<char> {
        match self {
            SystemEventType::Startup => "Startup"@,
            SystemEventType::Shutdown => "Shutdown"@,
            SystemEventType::Ping => "Ping"@,
        }
    }

    /// The name of the kind as a string.
    pub fn to_string(&self) -> (s: String)
        ensures
            s@ == self.name(),
    {
        match self {
            SystemEventType::Startup => String::from_str("Startup"),
            SystemEventType::Shutdown => String::from_str("Shutdown"),
            SystemEventType::Ping => String::from_str("Ping"),
        }
    }
}

/// The kind of system event that a name stands for, if it is one.
pub open spec fn named_kind(name: Seq<char>) -> Option<SystemEventType> {
    if name == SystemEventType::Startup.name() {
        Some(SystemEventType::Startup)
    } else if name == SystemEventType::Shutdown.name() {
        Some(SystemEventType::Shutdown)
    } else if name == SystemEventType::Ping.name() {
        Some(SystemEventType::Ping)
    } else {
        None
    }
}

/// What a row of two nullable columns records: a task switch where only
/// the task is set, a system event where only the name is set and is the
/// name of one. A row with both or neither records nothing.
pub open spec fn kind_of_columns(task_id: Option<i32>, system_event_name: Option<Seq<char>>) -> Option<
    EventKind,
> {
    match (task_id, system_event_name) {
        (Some(task), None) => Some(EventKind::TaskSwitch(task)),
        (None, Some(name)) => match named_kind(name) {
            Some(kind) => Some(EventKind::System(kind)),
            None => None,
        },
        _ => None,
    }
}

impl SystemEventType {
    /// The kind that a name stands for, if it is the name of one.
    pub fn from_name(name: &str) -> (kind: Option<SystemEventType>)
        ensures
            kind == named_kind(name@),
    {
        let name = String::from_str(name);
        if name == String::from_str("Startup") {
            Some(SystemEventType::Startup)
        } else if name == String::from_str("Shutdown") {
            Some(SystemEventType::Shutdown)
        } else if name == String::from_str("Ping") {
            Some(SystemEventType::Ping)
        } else {
            None
        }
    }
}

impl EventKind {
    /// The kind that a row of two nullable columns records, if the row
    /// records one.
    pub fn from_columns(task_id: Option<i32>, system_event_name: Option<&str>) -> (kind: Option<
        EventKind,
    >)
        ensures
            kind == kind_of_columns(
                task_id,
                match system_event_name {
                    Some(name) => Some(name@),
                    None => None,
                },
            ),
    {
        match (task_id, system_event_name) {
            (Some(task), None) => Some(EventKind::TaskSwitch(task)),
            (None, Some(name)) => match SystemEventType::from_name(name) {
                Some(kind) => Some(EventKind::System(kind)),
                None => None,
            },
            _ => None,
        }
    }

    /// The name of the system event, if this is one.
    pub fn system_event_name(&self) -> (name: Option<String>)
        ensures
            match *self {
                EventKind::TaskSwitch(_) => name.is_none(),
                EventKind::System(kind) => name matches Some(n) && n@ == kind.name(),
            },
    {
        match self {
            EventKind::TaskSwitch(_) => None,
            EventKind::System(kind) => Some(kind.to_string()),
        }
    }
}

impl EventKind {
    /// Whether this is the heartbeat row, which no query of the log's
    /// history takes into account.
    pub open spec fn is_ping(self) -> bool {
        self.is_system(SystemEventType::Ping)
    }

    /// Whether this is a system event of the given kind.
    pub open spec fn is_system(self, kind: SystemEventType) -> bool {
        self == EventKind::System(kind)
    }
}

impl Event {
    /// The task that the event switches to, if it is a task switch.
    pub fn task_id(&self) -> (id: Option<i32>)
        ensures
            id == match self.kind {
                EventKind::TaskSwitch(t) => Some(t),
                EventKind::System(_) => None,
            },
    {
        match self.kind {
            EventKind::TaskSwitch(t) => Some(t),
            EventKind::System(_) => None,
        }
    }

    /// The kind of system event, if it is one.
    pub fn system_event(&self) -> (kind: Option<SystemEventType>)
        ensures
            kind == match self.kind {
                EventKind::TaskSwitch(_) => None,
                EventKind::System(k) => Some(k),
            },
    {
        match self.kind {
            EventKind::TaskSwitch(_) => None,
            EventKind::System(k) => Some(k),
        }
    }
}

/// `a` comes before `b` in the log's chronological order: by timestamp,
/// and among equal timestamps by order of insertion.
pub open spec fn precedes(a: Event, b: Event) -> bool {
    a.event_timestamp < b.event_timestamp || (a.event_timestamp == b.event_timestamp && a.id
        < b.id)
}

/// The chronologically last of some events, if there is any.
pub open spec fn latest(events: Seq<Event>) -> Option<Event>
    decreases events.len(),
{
    if events.len() == 0 {
        None
    } else {
        match latest(events.drop_last()) {
            Some(m) => if precedes(events.last(), m) {
                Some(m)
            } else {
                Some(events.last())
            },
            None => Some(events.last()),
        }
    }
}

/// The events that are not system events of one kind, in their order.
pub open spec fn without_kind(events: Seq<Event>, kind: SystemEventType) -> Seq<Event> {
    events.filter(|e: Event| !e.kind.is_system(kind))
}

/// The events that are not heartbeat rows, in their order.
pub open spec fn without_pings(events: Seq<Event>) -> Seq<Event> {
    without_kind(events, SystemEventType::Ping)
}

/// The largest id that the store hands out is one less than this.
pub const ID_LIMIT: i32 = 2147483647;

/// The contents of an event store.
#[verifier::ext_equal]
pub struct StoreModel {
    /// The task registry, by ascending id.
    pub tasks: Seq<TaskView>,
    /// The event log, in order of insertion.
    pub events: Seq<Event>,
    /// The id that the next task receives.
    pub next_task_id: int,
    /// The id that the next event receives.
    pub next_event_id: int,
}

impl StoreModel {
    /// The invariant of a store: ids are positive, below the next id, and
    /// strictly ascending in both tables.
    pub open spec fn wf(self) -> bool {
        &&& 1 <= self.next_task_id <= ID_LIMIT
        &&& 1 <= self.next_event_id <= ID_LIMIT
        &&& forall|i: int|
            0 <= i < self.tasks.len() ==> 1 <= (#[trigger] self.tasks[i]).id < self.next_task_id
        &&& forall|i: int, j: int|
            0 <= i < j < self.tasks.len() ==> (#[trigger] self.tasks[i]).id
                < (#[trigger] self.tasks[j]).id
        &&& forall|i: int|
            0 <= i < self.events.len() ==> 1 <= (#[trigger] self.events[i]).id
                < self.next_event_id
        &&& forall|i: int, j: int|
            0 <= i < j < self.events.len() ==> (#[trigger] self.events[i]).id
                < (#[trigger] self.events[j]).id
    }

    /// The store that holds the given rows, with the next ids behind the
    /// last rows.
    pub open spec fn of_rows(tasks: Seq<TaskView>, events: Seq<Event>) -> StoreModel {
        StoreModel {
            tasks,
            events,
            next_task_id: if tasks.len() == 0 {
                1
            } else {
                tasks.last().id + 1
            },
            next_event_id: if events.len() == 0 {
                1
            } else {
                events.last().id + 1
            },
        }
    }

    /// The store without tasks or events.
    pub open spec fn empty() -> StoreModel {
        StoreModel { tasks: Seq::empty(), events: Seq::empty(), next_task_id: 1, next_event_id: 1 }
    }

    /// Whether the store can take one more event.
    pub open spec fn has_event_id(self) -> bool {
        self.next_event_id < ID_LIMIT
    }

    /// Whether the store can take one more task.
    pub open spec fn has_task_id(self) -> bool {
        self.next_task_id < ID_LIMIT
    }

    /// The store after `event` was appended under the next id.
    pub open spec fn with_event(self, event: NewEvent) -> StoreModel {
        StoreModel {
            events: self.events.push(
                Event {
                    id: self.next_event_id as i32,
                    event_timestamp: event.event_timestamp,
                    kind: event.kind,
                },
            ),
            next_event_id: self.next_event_id + 1,
            ..self
        }
    }

    /// The store after a task of that name was registered, enabled, under
    /// the next id.
    pub open spec fn with_task(self, name: Seq<char>) -> StoreModel {
        StoreModel {
            tasks: self.tasks.push(TaskView { id: self.next_task_id, enabled: true, name }),
            next_task_id: self.next_task_id + 1,
            ..self
        }
    }

    /// The store without the system events of one kind.
    pub open spec fn without_system_events(self, kind: SystemEventType) -> StoreModel {
        StoreModel { events: without_kind(self.events, kind), ..self }
    }

    /// The store after every system event of one kind was moved to the
    /// timestamp `unix_ts`.
    pub open spec fn with_system_events_at(self, kind: SystemEventType, unix_ts: i32) -> StoreModel {
        StoreModel {
            events: self.events.map_values(
                |e: Event|
                    if e.kind.is_system(kind) {
                        Event { event_timestamp: unix_ts, ..e }
                    } else {
                        e
                    },
            ),
            ..self
        }
    }

    /// The store after the flag of every task with that id was set.
    pub open spec fn with_task_enabled(self, task_id: int, enabled: bool) -> StoreModel {
        StoreModel {
            tasks: self.tasks.map_values(
                |t: TaskView|
                    if t.id == task_id {
                        TaskView { enabled, ..t }
                    } else {
                        t
                    },
            ),
            ..self
        }
    }

    /// The number of tasks with that id: none or one in a well-formed store.
    pub open spec fn count_tasks(self, task_id: int) -> nat {
        self.tasks.filter(|t: TaskView| t.id == task_id).len()
    }

    /// The number of system events of one kind.
    pub open spec fn count_system_events(self, kind: SystemEventType) -> nat {
        self.events.filter(|e: Event| e.kind.is_system(kind)).len()
    }

    /// The task registered under `task_id`, if there is one.
    pub open spec fn find_task(self, task_id: int) -> Option<TaskView> {
        if exists|i: int| 0 <= i < self.tasks.len() && self.tasks[i].id == task_id {
            let i = choose|i: int| 0 <= i < self.tasks.len() && self.tasks[i].id == task_id;
            Some(self.tasks[i])
        } else {
            None
        }
    }

    /// The most recent event, heartbeat included.
    pub open spec fn last_event(self) -> Option<Event> {
        latest(self.events)
    }

    /// The most recent event that is not a heartbeat.
    pub open spec fn current_event(self) -> Option<Event> {
        latest(without_pings(self.events))
    }

    /// What the lookup of the current task gives: the registered task that
    /// the most recent event other than a heartbeat switched to, nothing
    /// where that event is a startup or a shutdown, and an error where the
    /// log has no such event or the task is not registered.
    pub open spec fn current_task(self) -> Result<Option<TaskView>, StateError> {
        match self.current_event() {
            Some(e) => match e.kind {
                EventKind::TaskSwitch(t) => match self.find_task(t as int) {
                    Some(task) => Ok(Some(task)),
                    None => Err(StateError::Resolution(t)),
                },
                EventKind::System(_) => Ok(None),
            },
            None => Err(StateError::Storage(StorageError::NotFound)),
        }
    }

    /// The task that the most recent event other than a heartbeat switched
    /// to; none after a startup or a shutdown, and none in an empty log.
    pub open spec fn current_task_id(self) -> Option<i32> {
        match self.current_event() {
            Some(e) => match e.kind {
                EventKind::TaskSwitch(t) => Some(t),
                EventKind::System(_) => None,
            },
            None => None,
        }
    }
}

} // verus!
