//! The event store: a task registry and an append-only event log held in
//! memory, with the queries and updates that the state engine makes.

use crate::model::{
    latest, precedes, task_views, without_kind, Event, EventKind, NewEvent, NewTask, StateError, StorageError,
    StoreModel, SystemEventType, Task, TaskView, ID_LIMIT,
};
use vstd::prelude::*;
use vstd::string::*;

verus! {

/// A task registry and an event log. Both hand out ascending ids.
pub struct EventStore {
    tasks: Vec<Task>,
    events: Vec<Event>,
    next_task_id: i32,
    next_event_id: i32,
}

impl View for EventStore {
    type V = StoreModel;

    closed spec fn view(&self) -> StoreModel {
        StoreModel {
            tasks: task_views(self.tasks@),
            events: self.events@,
            next_task_id: self.next_task_id as int,
            next_event_id: self.next_event_id as int,
        }
    }
}

/// Filtering a sequence that was extended by one element.
pub proof fn lemma_filter_push<A>(s: Seq<A>, pred: spec_fn(A) -> bool, x: A)
    ensures
        s.push(x).filter(pred) == if pred(x) {
            s.filter(pred).push(x)
        } else {
            s.filter(pred)
        },
{
    reveal(Seq::filter);
    assert(s.push(x).drop_last() =~= s);
}

/// Filtering keeps events in ascending order of id and within the same
/// range of ids.
pub proof fn lemma_filter_keeps_ids(events: Seq<Event>, pred: spec_fn(Event) -> bool, bound: int)
    requires
        forall|i: int| 0 <= i < events.len() ==> 1 <= (#[trigger] events[i]).id < bound,
        forall|i: int, j: int|
            0 <= i < j < events.len() ==> (#[trigger] events[i]).id < (#[trigger] events[j]).id,
    ensures
        forall|i: int|
            0 <= i < events.filter(pred).len() ==> 1 <= (#[trigger] events.filter(pred)[i]).id
                < bound,
        forall|i: int, j: int|
            0 <= i < j < events.filter(pred).len() ==> (#[trigger] events.filter(pred)[i]).id < (
            #[trigger] events.filter(pred)[j]).id,
        forall|i: int|
            0 <= i < events.filter(pred).len() ==> events.contains(
                #[trigger] events.filter(pred)[i],
            ),
    decreases events.len(),
{
    reveal(Seq::filter);
    if events.len() > 0 {
        let init = events.drop_last();
        lemma_filter_keeps_ids(init, pred, bound);
        let kept = init.filter(pred);
        assert forall|i: int| 0 <= i < kept.len() implies events.contains(#[trigger] kept[i])
            && kept[i].id < events.last().id by {
            assert(init.contains(kept[i]));
            let k = choose|k: int| 0 <= k < init.len() && init[k] == kept[i];
            assert(events[k] == kept[i]);
        }
        if pred(events.last()) {
            assert(events.filter(pred) =~= kept.push(events.last()));
            assert(events[events.len() - 1] == events.last());
        } else {
            assert(events.filter(pred) =~= kept);
        }
    }
}

impl StoreModel {
    /// Appending an event keeps the store well-formed.
    pub proof fn lemma_with_event_wf(self, event: NewEvent)
        requires
            self.wf(),
            self.has_event_id(),
        ensures
            self.with_event(event).wf(),
    {
    }

    /// Registering a task keeps the store well-formed.
    pub proof fn lemma_with_task_wf(self, name: Seq<char>)
        requires
            self.wf(),
            self.has_task_id(),
        ensures
            self.with_task(name).wf(),
    {
    }

    /// Removing system events keeps the store well-formed.
    pub proof fn lemma_without_system_events_wf(self, kind: SystemEventType)
        requires
            self.wf(),
        ensures
            self.without_system_events(kind).wf(),
    {
        lemma_filter_keeps_ids(
            self.events,
            |e: Event| !e.kind.is_system(kind),
            self.next_event_id,
        );
    }

    /// Moving system events keeps the store well-formed.
    pub proof fn lemma_with_system_events_at_wf(self, kind: SystemEventType, unix_ts: i32)
        requires
            self.wf(),
        ensures
            self.with_system_events_at(kind, unix_ts).wf(),
    {
    }

    /// Setting a task's flag keeps the store well-formed.
    pub proof fn lemma_with_task_enabled_wf(self, task_id: int, enabled: bool)
        requires
            self.wf(),
        ensures
            self.with_task_enabled(task_id, enabled).wf(),
    {
    }

    /// In a well-formed store the task at an index is the one that its id
    /// finds.
    pub proof fn lemma_find_task_at(self, i: int)
        requires
            self.wf(),
            0 <= i < self.tasks.len(),
        ensures
            self.find_task(self.tasks[i].id) == Some(self.tasks[i]),
    {
        let id = self.tasks[i].id;
        let k = choose|k: int| 0 <= k < self.tasks.len() && self.tasks[k].id == id;
        if k < i {
            assert(self.tasks[k].id < self.tasks[i].id);
        } else if i < k {
            assert(self.tasks[i].id < self.tasks[k].id);
        }
    }
}

/// Whether `a` comes before `b` in chronological order.
pub fn comes_before(a: &Event, b: &Event) -> (r: bool)
    ensures
        r == precedes(*a, *b),
{
    a.event_timestamp < b.event_timestamp || (a.event_timestamp == b.event_timestamp && a.id
        < b.id)
}

/// The later of the latest event so far and one more event.
fn later_of(best: Option<Event>, e: Event) -> (r: Option<Event>)
    ensures
        r == match best {
            Some(m) => if precedes(e, m) {
                Some(m)
            } else {
                Some(e)
            },
            None => Some(e),
        },
{
    match best {
        Some(m) => if comes_before(&e, &m) {
            Some(m)
        } else {
            Some(e)
        },
        None => Some(e),
    }
}

impl EventStore {
    /// The invariant of the store: that of its contents.
    pub open spec fn wf(&self) -> bool {
        self@.wf()
    }

    /// A store without tasks or events.
    pub fn new() -> (store: EventStore)
        ensures
            store@ == StoreModel::empty(),
            store.wf(),
    {
        let store = EventStore {
            tasks: Vec::new(),
            events: Vec::new(),
            next_task_id: 1,
            next_event_id: 1,
        };
        assert(store@.tasks =~= Seq::<TaskView>::empty());
        store
    }

    /// A store that holds the given rows, if they can be the rows of a
    /// store: with positive ids that ascend strictly and leave room for the
    /// next id.
    pub fn from_rows(tasks: Vec<Task>, events: Vec<Event>) -> (r: Option<EventStore>)
        ensures
            match r {
                Some(store) => store.wf() && store@ == StoreModel::of_rows(
                    task_views(tasks@),
                    events@,
                ),
                None => !StoreModel::of_rows(task_views(tasks@), events@).wf(),
            },
    {
        let ghost wanted = StoreModel::of_rows(task_views(tasks@), events@);
        let mut next_task_id: i32 = 1;
        let mut i: usize = 0;
        while i < tasks.len()
            invariant
                i <= tasks.len(),
                wanted == StoreModel::of_rows(task_views(tasks@), events@),
                1 <= next_task_id <= ID_LIMIT,
                i == 0 ==> next_task_id == 1,
                i > 0 ==> next_task_id == tasks@[i - 1].id + 1,
                forall|k: int| 0 <= k < i ==> 1 <= (#[trigger] tasks@[k]).id < next_task_id,
                forall|k: int, l: int|
                    0 <= k < l < i ==> (#[trigger] tasks@[k]).id < (#[trigger] tasks@[l]).id,
            decreases tasks.len() - i,
        {
            let id = tasks[i].id;
            if id < next_task_id || id >= ID_LIMIT {
                proof {
                    if wanted.wf() {
                        assert(wanted.tasks[i as int].id == id);
                        assert(1 <= wanted.tasks[i as int].id < wanted.next_task_id);
                        if i > 0 {
                            assert(wanted.tasks[i - 1].id == tasks@[i - 1].id);
                            assert(wanted.tasks[i - 1].id < wanted.tasks[i as int].id);
                        }
                    }
                }
                return None;
            }
            next_task_id = id + 1;
            i += 1;
        }
        let mut next_event_id: i32 = 1;
        let mut j: usize = 0;
        while j < events.len()
            invariant
                j <= events.len(),
                wanted == StoreModel::of_rows(task_views(tasks@), events@),
                1 <= next_event_id <= ID_LIMIT,
                j == 0 ==> next_event_id == 1,
                j > 0 ==> next_event_id == events@[j - 1].id + 1,
                forall|k: int| 0 <= k < j ==> 1 <= (#[trigger] events@[k]).id < next_event_id,
                forall|k: int, l: int|
                    0 <= k < l < j ==> (#[trigger] events@[k]).id < (#[trigger] events@[l]).id,
            decreases events.len() - j,
        {
            let id = events[j].id;
            if id < next_event_id || id >= ID_LIMIT {
                proof {
                    if wanted.wf() {
                        assert(1 <= wanted.events[j as int].id < wanted.next_event_id);
                        if j > 0 {
                            assert(wanted.events[j - 1].id < wanted.events[j as int].id);
                        }
                    }
                }
                return None;
            }
            next_event_id = id + 1;
            j += 1;
        }
        let store = EventStore { tasks, events, next_task_id, next_event_id };
        proof {
            assert(store@ =~= wanted);
            assert forall|k: int| 0 <= k < wanted.tasks.len() implies 1 <= (
            #[trigger] wanted.tasks[k]).id < wanted.next_task_id by {
                assert(wanted.tasks[k].id == tasks@[k].id);
                if k < tasks@.len() - 1 {
                    assert(tasks@[k].id < tasks@[tasks@.len() - 1].id);
                }
            }
            assert forall|k: int, l: int| 0 <= k < l < wanted.tasks.len() implies (
            #[trigger] wanted.tasks[k]).id < (#[trigger] wanted.tasks[l]).id by {
                assert(tasks@[k].id < tasks@[l].id);
            }
            assert forall|k: int| 0 <= k < wanted.events.len() implies 1 <= (
            #[trigger] wanted.events[k]).id < wanted.next_event_id by {
                if k < events@.len() - 1 {
                    assert(events@[k].id < events@[events@.len() - 1].id);
                }
            }
        }
        Some(store)
    }

    /// The event log, in order of insertion.
    pub fn events(&self) -> (events: &Vec<Event>)
        ensures
            events@ == self@.events,
    {
        &self.events
    }

    /// The id that the next event receives.
    pub fn next_event_id(&self) -> (id: i32)
        ensures
            id == self@.next_event_id,
    {
        self.next_event_id
    }

    /// The id that the next task receives.
    pub fn next_task_id(&self) -> (id: i32)
        ensures
            id == self@.next_task_id,
    {
        self.next_task_id
    }

    /// The task registry, by ascending id.
    pub fn tasks(&self) -> (tasks: &Vec<Task>)
        ensures
            task_views(tasks@) == self@.tasks,
    {
        &self.tasks
    }
}

/// Appends an event under the next id and returns that id. Fails, and
/// leaves the store as it is, once the ids are used up.
pub fn push_event(store: &mut EventStore, event: &NewEvent) -> (r: Result<i32, StorageError>)
    requires
        old(store).wf(),
    ensures
        final(store).wf(),
        match r {
            Ok(id) => old(store)@.has_event_id() && id == old(store)@.next_event_id && final(store)@ == old(store)@.with_event(*event),
            Err(e) => e == StorageError::IdsExhausted && !old(store)@.has_event_id() && final(store)@ == old(store)@,
        },
{
    if store.next_event_id >= ID_LIMIT {
        return Err(StorageError::IdsExhausted);
    }
    let id = store.next_event_id;
    store.events.push(Event { id, event_timestamp: event.event_timestamp, kind: event.kind });
    store.next_event_id = id + 1;
    proof {
        old(store)@.lemma_with_event_wf(*event);
        assert(store@.events =~= old(store)@.with_event(*event).events);
    }
    Ok(id)
}

/// The most recent event of the log, heartbeat included; `NotFound` in an
/// empty log.
pub fn get_last_event(store: &EventStore) -> (r: Result<Event, StorageError>)
    ensures
        match r {
            Ok(e) => store@.last_event() == Some(e),
            Err(e) => e == StorageError::NotFound && store@.last_event().is_none(),
        },
{
    let mut best: Option<Event> = None;
    let mut i: usize = 0;
    while i < store.events.len()
        invariant
            i <= store.events.len(),
            best == latest(store.events@.take(i as int)),
        decreases store.events.len() - i,
    {
        proof {
            assert(store.events@.take(i as int + 1).drop_last() =~= store.events@.take(i as int));
        }
        best = later_of(best, store.events[i]);
        i += 1;
    }
    proof {
        assert(store.events@.take(i as int) =~= store.events@);
    }
    match best {
        Some(e) => Ok(e),
        None => Err(StorageError::NotFound),
    }
}

/// The events that are not system events of one kind, in their order.
pub fn events_without(events: &Vec<Event>, kind: SystemEventType) -> (kept: Vec<Event>)
    ensures
        kept@ == without_kind(events@, kind),
{
    let ghost pred = |e: Event| !e.kind.is_system(kind);
    let mut kept: Vec<Event> = Vec::new();
    let mut i: usize = 0;
    proof {
        reveal(Seq::filter);
        assert(events@.take(0).filter(pred) =~= Seq::<Event>::empty());
    }
    while i < events.len()
        invariant
            i <= events.len(),
            pred == (|e: Event| !e.kind.is_system(kind)),
            kept@ == events@.take(i as int).filter(pred),
        decreases events.len() - i,
    {
        let e = events[i];
        proof {
            lemma_filter_push(events@.take(i as int), pred, e);
            assert(events@.take(i as int + 1) =~= events@.take(i as int).push(e));
        }
        if e.kind != EventKind::System(kind) {
            kept.push(e);
        }
        i += 1;
    }
    proof {
        assert(events@.take(i as int) =~= events@);
    }
    kept
}

/// Deletes every system event of one kind.
pub fn remove_all_system_events(store: &mut EventStore, kind: SystemEventType)
    requires
        old(store).wf(),
    ensures
        final(store).wf(),
        final(store)@ == old(store)@.without_system_events(kind),
{
    let kept = events_without(&store.events, kind);
    proof {
        old(store)@.lemma_without_system_events_wf(kind);
    }
    store.events = kept;
}

/// Moves every system event of one kind to the timestamp `unix_ts`.
pub fn move_system_event(store: &mut EventStore, unix_ts: i32, kind: SystemEventType)
    requires
        old(store).wf(),
    ensures
        final(store).wf(),
        final(store)@ == old(store)@.with_system_events_at(kind, unix_ts),
{
    let mut i: usize = 0;
    while i < store.events.len()
        invariant
            i <= store.events.len(),
            store.events.len() == old(store).events.len(),
            store.tasks == old(store).tasks,
            store.next_task_id == old(store).next_task_id,
            store.next_event_id == old(store).next_event_id,
            forall|k: int|
                0 <= k < i ==> #[trigger] store.events[k] == old(store)@.with_system_events_at(
                    kind,
                    unix_ts,
                ).events[k],
            forall|k: int| i <= k < store.events.len() ==> store.events[k] == old(store).events[k],
        decreases store.events.len() - i,
    {
        let e = store.events[i];
        if e.kind == EventKind::System(kind) {
            store.events.set(i, Event { id: e.id, event_timestamp: unix_ts, kind: e.kind });
        }
        i += 1;
    }
    proof {
        old(store)@.lemma_with_system_events_at_wf(kind, unix_ts);
        assert(store@.events =~= old(store)@.with_system_events_at(kind, unix_ts).events);
    }
}

/// The most recent event that is not a heartbeat, if the log has one.
pub fn current_event(store: &EventStore) -> (r: Option<Event>)
    ensures
        r == store@.current_event(),
{
    let ghost pred = |e: Event| !e.kind.is_system(SystemEventType::Ping);
    let mut best: Option<Event> = None;
    let mut i: usize = 0;
    proof {
        reveal(Seq::filter);
        assert(store.events@.take(0).filter(pred) =~= Seq::<Event>::empty());
    }
    while i < store.events.len()
        invariant
            i <= store.events.len(),
            pred == (|e: Event| !e.kind.is_system(SystemEventType::Ping)),
            best == latest(store.events@.take(i as int).filter(pred)),
        decreases store.events.len() - i,
    {
        let e = store.events[i];
        proof {
            let kept = store.events@.take(i as int).filter(pred);
            lemma_filter_push(store.events@.take(i as int), pred, e);
            assert(store.events@.take(i as int + 1) =~= store.events@.take(i as int).push(e));
            assert(kept.push(e).drop_last() =~= kept);
        }
        if e.kind != EventKind::System(SystemEventType::Ping) {
            best = later_of(best, e);
        }
        i += 1;
    }
    proof {
        assert(store.events@.take(i as int) =~= store.events@);
    }
    best
}

/// The task registered under `task_id`, if there is one.
pub fn find_task(store: &EventStore, task_id: i32) -> (r: Option<Task>)
    requires
        store.wf(),
    ensures
        match r {
            Some(t) => store@.find_task(task_id as int) == Some(t@),
            None => store@.find_task(task_id as int).is_none(),
        },
{
    let mut i: usize = 0;
    while i < store.tasks.len()
        invariant
            i <= store.tasks.len(),
            store.wf(),
            forall|k: int| 0 <= k < i ==> (#[trigger] store@.tasks[k]).id != task_id,
        decreases store.tasks.len() - i,
    {
        if store.tasks[i].id == task_id {
            proof {
                assert(store@.tasks[i as int] == store.tasks[i as int]@);
                store@.lemma_find_task_at(i as int);
            }
            return Some(store.tasks[i].clone());
        }
        proof {
            assert(store@.tasks[i as int] == store.tasks[i as int]@);
        }
        i += 1;
    }
    None
}

/// The task that is current: the registered task that the most recent
/// event other than a heartbeat switched to. There is none after a
/// startup or a shutdown. Fails with `NotFound` on a log without such an
/// event, and with `Resolution` where the task is not registered.
pub fn current_task(store: &EventStore) -> (r: Result<Option<Task>, StateError>)
    requires
        store.wf(),
    ensures
        match r {
            Ok(Some(t)) => store@.current_task() == Ok::<Option<TaskView>, StateError>(Some(t@)),
            Ok(None) => store@.current_task() == Ok::<Option<TaskView>, StateError>(None),
            Err(e) => store@.current_task() == Err::<Option<TaskView>, StateError>(e),
        },
{
    match current_event(store) {
        Some(e) => match e.kind {
            EventKind::TaskSwitch(t) => match find_task(store, t) {
                Some(task) => Ok(Some(task)),
                None => Err(StateError::Resolution(t)),
            },
            EventKind::System(_) => Ok(None),
        },
        None => Err(StateError::Storage(StorageError::NotFound)),
    }
}

/// Registers a task, enabled, under the next id and returns that id.
/// Fails, and leaves the store as it is, once the ids are used up.
pub fn create_task(store: &mut EventStore, task: &NewTask) -> (r: Result<i32, StorageError>)
    requires
        old(store).wf(),
    ensures
        final(store).wf(),
        match r {
            Ok(id) => old(store)@.has_task_id() && id == old(store)@.next_task_id && final(store)@ == old(store)@.with_task(task.name@),
            Err(e) => e == StorageError::IdsExhausted && !old(store)@.has_task_id() && final(store)@ == old(store)@,
        },
{
    if store.next_task_id >= ID_LIMIT {
        return Err(StorageError::IdsExhausted);
    }
    let id = store.next_task_id;
    store.tasks.push(Task { id, enabled: true, name: task.name.clone() });
    store.next_task_id = id + 1;
    proof {
        old(store)@.lemma_with_task_wf(task.name@);
        assert(store@.tasks =~= old(store)@.with_task(task.name@).tasks);
    }
    Ok(id)
}

/// All tasks, by ascending id.
pub fn list_tasks(store: &EventStore) -> (tasks: Vec<Task>)
    ensures
        task_views(tasks@) == store@.tasks,
{
    let mut tasks: Vec<Task> = Vec::new();
    let mut i: usize = 0;
    while i < store.tasks.len()
        invariant
            i <= store.tasks.len(),
            tasks@ == store.tasks@.take(i as int),
        decreases store.tasks.len() - i,
    {
        tasks.push(store.tasks[i].clone());
        proof {
            assert(tasks@ =~= store.tasks@.take(i as int + 1));
        }
        i += 1;
    }
    proof {
        assert(store.tasks@.take(i as int) =~= store.tasks@);
    }
    tasks
}

/// Sets the flag of the task registered under `task_id` and returns how
/// many rows that changed: none where no such task exists.
pub fn change_enabled(store: &mut EventStore, task_id: i32, new_enabled: bool) -> (changed: usize)
    requires
        old(store).wf(),
    ensures
        final(store).wf(),
        final(store)@ == old(store)@.with_task_enabled(task_id as int, new_enabled),
        changed == old(store)@.count_tasks(task_id as int),
{
    let ghost pred = |t: TaskView| t.id == task_id as int;
    let mut changed: usize = 0;
    let mut i: usize = 0;
    proof {
        reveal(Seq::filter);
        assert(old(store)@.tasks.take(0).filter(pred) =~= Seq::<TaskView>::empty());
    }
    while i < store.tasks.len()
        invariant
            i <= store.tasks.len(),
            store.tasks.len() == old(store).tasks.len(),
            store.events == old(store).events,
            store.next_task_id == old(store).next_task_id,
            store.next_event_id == old(store).next_event_id,
            pred == (|t: TaskView| t.id == task_id as int),
            changed == old(store)@.tasks.take(i as int).filter(pred).len(),
            changed <= i,
            forall|k: int|
                0 <= k < i ==> (#[trigger] store.tasks[k])@ == old(store)@.with_task_enabled(
                    task_id as int,
                    new_enabled,
                ).tasks[k],
            forall|k: int| i <= k < store.tasks.len() ==> store.tasks[k] == old(store).tasks[k],
        decreases store.tasks.len() - i,
    {
        proof {
            let before = old(store)@.tasks;
            lemma_filter_push(before.take(i as int), pred, before[i as int]);
            assert(before.take(i as int + 1) =~= before.take(i as int).push(before[i as int]));
            assert(before[i as int] == old(store).tasks[i as int]@);
        }
        if store.tasks[i].id == task_id {
            let name = store.tasks[i].name.clone();
            store.tasks.set(i, Task { id: task_id, enabled: new_enabled, name });
            changed += 1;
        }
        i += 1;
    }
    proof {
        old(store)@.lemma_with_task_enabled_wf(task_id as int, new_enabled);
        assert(old(store)@.tasks.take(i as int) =~= old(store)@.tasks);
        assert(store@.tasks =~= old(store)@.with_task_enabled(task_id as int, new_enabled).tasks);
    }
    changed
}

} // verus!
