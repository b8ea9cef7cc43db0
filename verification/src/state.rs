//! The state engine: task lifecycle, the event log's rules, recovery after
//! an unclean stop, the heartbeat and the resolution of the current task.

use crate::model::{
    task_views, EventKind, NewEvent, NewTask, StateError, StoreModel, SystemEventType, Task,
    TaskView,
};
use crate::store::{
    change_enabled, create_task, current_event, current_task, get_last_event, list_tasks,
    move_system_event, push_event, remove_all_system_events, EventStore,
};
use vstd::prelude::*;

verus! {

/// A snapshot of what the daemon shows: the current task and all tasks.
#[derive(Debug)]
pub struct ExportedState {
    pub current_task: Option<Task>,
    pub all_tasks: Vec<Task>,
}

/// A snapshot as contracts see it.
pub struct ExportedStateView {
    pub current_task: Option<TaskView>,
    pub all_tasks: Seq<TaskView>,
}

impl View for ExportedState {
    type V = ExportedStateView;

    open spec fn view(&self) -> ExportedStateView {
        ExportedStateView {
            current_task: match self.current_task {
                Some(t) => Some(t@),
                None => None,
            },
            all_tasks: task_views(self.all_tasks@),
        }
    }
}

/// A task switch at a timestamp.
pub open spec fn switch_at(task_id: i32, timestamp: i32) -> NewEvent {
    NewEvent { event_timestamp: timestamp, kind: EventKind::TaskSwitch(task_id) }
}

/// A system event at a timestamp.
pub open spec fn system_at(kind: SystemEventType, timestamp: i32) -> NewEvent {
    NewEvent { event_timestamp: timestamp, kind: EventKind::System(kind) }
}

/// The later of two timestamps.
pub open spec fn later_time(a: i32, b: i32) -> i32 {
    if a < b {
        b
    } else {
        a
    }
}

impl StoreModel {
    /// The store after `event` was appended, or unchanged where the ids
    /// are used up.
    pub open spec fn with_event_if_room(self, event: NewEvent) -> StoreModel {
        if self.has_event_id() {
            self.with_event(event)
        } else {
            self
        }
    }

    /// The log closed off after an unclean stop: where its most recent
    /// event is not a shutdown, a shutdown follows it at that event's own
    /// timestamp.
    pub open spec fn closed_off(self) -> StoreModel {
        match self.last_event() {
            Some(e) => if e.kind.is_system(SystemEventType::Shutdown) {
                self
            } else {
                self.with_event_if_room(system_at(SystemEventType::Shutdown, e.event_timestamp))
            },
            None => self,
        }
    }

    /// The store after recovery: closed off, and without heartbeat rows.
    pub open spec fn recovered(self) -> StoreModel {
        self.closed_off().without_system_events(SystemEventType::Ping)
    }

    /// The store after a session was opened at `now`: recovered, then a
    /// startup and a fresh heartbeat row.
    pub open spec fn booted(self, now: i32) -> StoreModel {
        self.recovered().with_event_if_room(
            system_at(SystemEventType::Startup, now),
        ).with_event_if_room(system_at(SystemEventType::Ping, now))
    }

    /// How many events a retroactive switch inserts: the backdated switch
    /// and, where the previous task is kept and there is one, its resumption.
    pub open spec fn retro_inserts(self, keep_previous_task: bool) -> int {
        if keep_previous_task && self.current_task_id().is_some() {
            2
        } else {
            1
        }
    }

    /// The store after a retroactive switch to `task_id` at `timestamp`,
    /// asked for at `now`. The task that was current resumes at `now`, or
    /// at `timestamp` where that is later, if it is to be kept.
    pub open spec fn retro_switched(
        self,
        task_id: i32,
        timestamp: i32,
        keep_previous_task: bool,
        now: i32,
    ) -> StoreModel {
        let backdated = self.with_event(switch_at(task_id, timestamp));
        match self.current_task_id() {
            Some(previous) => if keep_previous_task {
                backdated.with_event(switch_at(previous, later_time(now, timestamp)))
            } else {
                backdated
            },
            None => backdated,
        }
    }
}

/// Brings the log of a store that was not shut down into a state from
/// which a new session can start.
pub fn initialize(store: EventStore) -> (recovered: EventStore)
    requires
        store.wf(),
    ensures
        recovered.wf(),
        recovered@ == store@.recovered(),
{
    let mut store = store;
    match get_last_event(&store) {
        Ok(last) => {
            if last.kind != EventKind::System(SystemEventType::Shutdown) {
                let event = NewEvent {
                    event_timestamp: last.event_timestamp,
                    kind: EventKind::System(SystemEventType::Shutdown),
                };
                let _ = push_event(&mut store, &event);
            }
        },
        Err(_) => {},
    }
    remove_all_system_events(&mut store, SystemEventType::Ping);
    store
}

/// The state engine. It owns the event store.
pub struct State {
    store: EventStore,
}

impl View for State {
    type V = StoreModel;

    closed spec fn view(&self) -> StoreModel {
        self.store@
    }
}

impl State {
    /// The invariant of the engine: that of its store.
    pub open spec fn wf(&self) -> bool {
        self@.wf()
    }

    /// An engine over `store`, after recovery.
    pub fn new(store: EventStore) -> (state: State)
        requires
            store.wf(),
        ensures
            state.wf(),
            state@ == store@.recovered(),
    {
        State { store: initialize(store) }
    }

    /// An engine over `store` with a session opened at `now`: recovery,
    /// then a startup event and a fresh heartbeat row.
    pub fn boot(store: EventStore, now: i32) -> (state: State)
        requires
            store.wf(),
        ensures
            state.wf(),
            state@ == store@.booted(now),
    {
        let mut state = State::new(store);
        let _ = state.system_event(SystemEventType::Startup, now);
        let _ = state.system_event(SystemEventType::Ping, now);
        state
    }

    /// The store that the engine owns.
    pub fn store(&self) -> (store: &EventStore)
        ensures
            store@ == self@,
    {
        &self.store
    }

    /// Registers a task, enabled, and returns its id.
    pub fn new_task(&mut self, name: String) -> (r: Result<i32, StateError>)
        requires
            old(self).wf(),
        ensures
            final(self).wf(),
            match r {
                Ok(id) => old(self)@.has_task_id() && id == old(self)@.next_task_id && final(self)@
                    == old(self)@.with_task(name@),
                Err(e) => e == StateError::Storage(crate::model::StorageError::IdsExhausted)
                    && !old(self)@.has_task_id() && final(self)@ == old(self)@,
            },
    {
        let task = NewTask { name };
        match create_task(&mut self.store, &task) {
            Ok(id) => Ok(id),
            Err(e) => Err(StateError::Storage(e)),
        }
    }

    /// Appends a switch to the task `id` at `now` and returns the event's
    /// id. Whether such a task exists is not looked at.
    pub fn switch_task(&mut self, id: u64, now: i32) -> (r: Result<i32, StateError>)
        requires
            old(self).wf(),
        ensures
            final(self).wf(),
            match r {
                Ok(event_id) => old(self)@.has_event_id() && event_id == old(self)@.next_event_id
                    && final(self)@ == old(self)@.with_event(switch_at(id as i32, now)),
                Err(e) => e == StateError::Storage(crate::model::StorageError::IdsExhausted)
                    && !old(self)@.has_event_id() && final(self)@ == old(self)@,
            },
    {
        let event = NewEvent {
            event_timestamp: now,
            kind: EventKind::TaskSwitch(#[verifier::truncate] (id as i32)),
        };
        match push_event(&mut self.store, &event) {
            Ok(event_id) => Ok(event_id),
            Err(e) => Err(StateError::Storage(e)),
        }
    }

    /// Appends a system event at `now` and returns the event's id.
    pub fn system_event(&mut self, evt: SystemEventType, now: i32) -> (r: Result<i32, StateError>)
        requires
            old(self).wf(),
        ensures
            final(self).wf(),
            final(self)@ == old(self)@.with_event_if_room(system_at(evt, now)),
            match r {
                Ok(event_id) => old(self)@.has_event_id() && event_id == old(self)@.next_event_id,
                Err(e) => e == StateError::Storage(crate::model::StorageError::IdsExhausted)
                    && !old(self)@.has_event_id(),
            },
    {
        let event = NewEvent { event_timestamp: now, kind: EventKind::System(evt) };
        match push_event(&mut self.store, &event) {
            Ok(event_id) => Ok(event_id),
            Err(e) => Err(StateError::Storage(e)),
        }
    }

    /// The heartbeat: moves the heartbeat row, if there is one, to `now`.
    /// It never adds a row.
    pub fn ping(&mut self, now: i32)
        requires
            old(self).wf(),
        ensures
            final(self).wf(),
            final(self)@ == old(self)@.with_system_events_at(SystemEventType::Ping, now),
    {
        move_system_event(&mut self.store, now, SystemEventType::Ping)
    }

    /// All tasks, by ascending id.
    pub fn list_tasks(&self) -> (tasks: Vec<Task>)
        ensures
            task_views(tasks@) == self@.tasks,
    {
        list_tasks(&self.store)
    }

    /// Enables or disables a task. The event log and the current task are
    /// not touched.
    pub fn change_task_enabled_flag(&mut self, id: u64, enabled: bool) -> (changed: usize)
        requires
            old(self).wf(),
        ensures
            final(self).wf(),
            final(self)@ == old(self)@.with_task_enabled((id as i32) as int, enabled),
            changed == old(self)@.count_tasks((id as i32) as int),
    {
        change_enabled(&mut self.store, #[verifier::truncate] (id as i32), enabled)
    }

    /// The task that is current, if there is one.
    pub fn get_current_task(&self) -> (r: Result<Option<Task>, StateError>)
        requires
            self.wf(),
        ensures
            match r {
                Ok(Some(t)) => self@.current_task() == Ok::<Option<TaskView>, StateError>(
                    Some(t@),
                ),
                Ok(None) => self@.current_task() == Ok::<Option<TaskView>, StateError>(None),
                Err(e) => self@.current_task() == Err::<Option<TaskView>, StateError>(e),
            },
    {
        current_task(&self.store)
    }

    /// The timesheet of the log for a zone `utc_offset` seconds east of
    /// UTC: the names of all tasks and, for each day on which any of them
    /// has time, the seconds of each.
    pub fn full_timesheet(&self, utc_offset: i32) -> (sheet: (
        Vec<String>,
        Vec<crate::timesheet::TimesheetPivotRecord>,
    ))
        ensures
            crate::text::texts(sheet.0@) == crate::timesheet::task_names(self@.tasks),
            crate::timesheet::day_rows(sheet.1@) == crate::timesheet::timesheet(
                crate::timesheet::chronological(crate::model::without_pings(self@.events)),
                crate::timesheet::task_ids(self@.tasks),
                utc_offset as int,
            ),
    {
        crate::timesheet::full_timesheet(&self.store, utc_offset)
    }

    /// The snapshot of the current task and all tasks; the error of the
    /// current task's lookup where that fails.
    pub fn get_state(&self) -> (r: Result<ExportedState, StateError>)
        requires
            self.wf(),
        ensures
            match r {
                Ok(snapshot) => self@.current_task() == Ok::<Option<TaskView>, StateError>(
                    snapshot@.current_task,
                ) && snapshot@.all_tasks == self@.tasks,
                Err(e) => self@.current_task() == Err::<Option<TaskView>, StateError>(e),
            },
    {
        match self.get_current_task() {
            Ok(current_task) => Ok(ExportedState { current_task, all_tasks: self.list_tasks() }),
            Err(e) => Err(e),
        }
    }

    /// Inserts a switch to `task_id` backdated to `timestamp`, so that the
    /// time from there to the next event in the log counts for that task.
    /// With `keep_previous_task`, the task that was current before the call
    /// is switched to again at `now` (at `timestamp`, if that is later), so
    /// that time goes on counting for it; without, or where no task was
    /// current, the log ends up with the backdated switch alone. Returns the
    /// id of the backdated event. Fails, and changes nothing, where the
    /// store has not enough ids left for all that is to be inserted.
    pub fn retro_switch_task(
        &mut self,
        task_id: i32,
        timestamp: i32,
        keep_previous_task: bool,
        now: i32,
    ) -> (r: Result<i32, StateError>)
        requires
            old(self).wf(),
        ensures
            final(self).wf(),
            match r {
                Ok(event_id) => old(self)@.next_event_id + old(self)@.retro_inserts(
                    keep_previous_task,
                ) <= crate::model::ID_LIMIT && event_id == old(self)@.next_event_id && final(self)@
                    == old(self)@.retro_switched(task_id, timestamp, keep_previous_task, now),
                Err(e) => e == StateError::Storage(crate::model::StorageError::IdsExhausted)
                    && old(self)@.next_event_id + old(self)@.retro_inserts(keep_previous_task)
                    > crate::model::ID_LIMIT && final(self)@ == old(self)@,
            },
    {
        let previous = match current_event(&self.store) {
            Some(e) => match e.kind {
                EventKind::TaskSwitch(t) => Some(t),
                EventKind::System(_) => None,
            },
            None => None,
        };
        let resume = match previous {
            Some(p) => if keep_previous_task {
                Some(p)
            } else {
                None
            },
            None => None,
        };
        let free: i32 = crate::model::ID_LIMIT - self.store.next_event_id();
        let needed: i32 = if resume.is_some() {
            2
        } else {
            1
        };
        if free < needed {
            return Err(StateError::Storage(crate::model::StorageError::IdsExhausted));
        }
        let backdated = NewEvent {
            event_timestamp: timestamp,
            kind: EventKind::TaskSwitch(task_id),
        };
        let pushed = push_event(&mut self.store, &backdated);
        match resume {
            Some(p) => {
                let at = if now < timestamp {
                    timestamp
                } else {
                    now
                };
                let again = NewEvent { event_timestamp: at, kind: EventKind::TaskSwitch(p) };
                let _ = push_event(&mut self.store, &again);
            },
            None => {},
        }
        match pushed {
            Ok(event_id) => Ok(event_id),
            Err(e) => Err(StateError::Storage(e)),
        }
    }
}

} // verus!
