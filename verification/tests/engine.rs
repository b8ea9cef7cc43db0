use oclock::model::{
    Event, EventKind, NewEvent, NewTask, StateError, StorageError, SystemEventType,
};
use oclock::state::State;
use oclock::store::{
    change_enabled, create_task, current_task, get_last_event, list_tasks, move_system_event,
    push_event, remove_all_system_events, EventStore,
};

fn kinds(state: &State) -> Vec<(i32, EventKind)> {
    state.store().events().iter().map(|e| (e.event_timestamp, e.kind)).collect()
}

fn pings(state: &State) -> usize {
    state
        .store()
        .events()
        .iter()
        .filter(|e| e.kind == EventKind::System(SystemEventType::Ping))
        .count()
}

fn store_with(events: &[(i32, EventKind)]) -> EventStore {
    let mut store = EventStore::new();
    for (ts, kind) in events {
        push_event(&mut store, &NewEvent { event_timestamp: *ts, kind: *kind }).unwrap();
    }
    store
}

const STARTUP: EventKind = EventKind::System(SystemEventType::Startup);
const SHUTDOWN: EventKind = EventKind::System(SystemEventType::Shutdown);
const PING: EventKind = EventKind::System(SystemEventType::Ping);

#[test]
fn new_task_gets_id_one_and_is_listed() {
    let mut state = State::new(EventStore::new());
    assert_eq!(state.new_task(String::from("Roboadvisor")), Ok(1));
    let tasks = state.list_tasks();
    assert_eq!(tasks.len(), 1);
    assert_eq!(tasks[0].id, 1);
    assert!(tasks[0].enabled);
    assert_eq!(tasks[0].name, "Roboadvisor");
}

#[test]
fn task_ids_ascend_and_names_may_repeat() {
    let mut state = State::new(EventStore::new());
    assert_eq!(state.new_task(String::from("a")), Ok(1));
    assert_eq!(state.new_task(String::from("a")), Ok(2));
    assert_eq!(state.new_task(String::from("b")), Ok(3));
    let ids: Vec<i32> = state.list_tasks().iter().map(|t| t.id).collect();
    assert_eq!(ids, vec![1, 2, 3]);
}

#[test]
fn switch_makes_the_task_current() {
    let mut state = State::new(EventStore::new());
    state.new_task(String::from("Roboadvisor")).unwrap();
    assert_eq!(state.switch_task(1, 1000), Ok(1));
    let current = state.get_current_task().unwrap().unwrap();
    assert_eq!(current.id, 1);
    assert_eq!(current.name, "Roboadvisor");
}

#[test]
fn the_most_recent_switch_wins() {
    let mut state = State::new(EventStore::new());
    for name in ["a", "b", "c"] {
        state.new_task(String::from(name)).unwrap();
    }
    for (id, now) in [(1u64, 10), (3, 20), (2, 20), (3, 25)] {
        state.switch_task(id, now).unwrap();
        assert_eq!(state.get_current_task().unwrap().unwrap().id, id as i32);
    }
}

#[test]
fn a_switch_in_the_same_second_replaces_the_earlier_one() {
    let mut state = State::new(EventStore::new());
    state.new_task(String::from("a")).unwrap();
    state.new_task(String::from("b")).unwrap();
    state.switch_task(1, 50).unwrap();
    state.switch_task(2, 50).unwrap();
    assert_eq!(state.get_current_task().unwrap().unwrap().id, 2);
}

#[test]
fn a_switch_is_not_checked_against_the_registry() {
    let mut state = State::new(EventStore::new());
    assert_eq!(state.switch_task(7, 5), Ok(1));
    assert_eq!(state.get_current_task().unwrap_err(), StateError::Resolution(7));
}

#[test]
fn an_empty_log_has_no_row_to_resolve() {
    let state = State::new(EventStore::new());
    assert_eq!(
        state.get_current_task().unwrap_err(),
        StateError::Storage(StorageError::NotFound)
    );
    assert!(state.get_state().is_err());
}

#[test]
fn no_task_is_current_after_a_system_event() {
    let mut state = State::new(EventStore::new());
    state.new_task(String::from("a")).unwrap();
    state.system_event(SystemEventType::Startup, 1).unwrap();
    assert!(state.get_current_task().unwrap().is_none());
    state.switch_task(1, 2).unwrap();
    assert!(state.get_current_task().unwrap().is_some());
    state.system_event(SystemEventType::Shutdown, 3).unwrap();
    assert!(state.get_current_task().unwrap().is_none());
}

#[test]
fn the_heartbeat_does_not_hide_the_current_task() {
    let mut state = State::boot(EventStore::new(), 0);
    state.new_task(String::from("a")).unwrap();
    state.switch_task(1, 10).unwrap();
    state.ping(60);
    state.ping(120);
    assert_eq!(state.get_current_task().unwrap().unwrap().id, 1);
    assert_eq!(get_last_event(state.store()).unwrap().kind, PING);
}

#[test]
fn disabling_keeps_the_current_task() {
    let mut state = State::new(EventStore::new());
    state.new_task(String::from("a")).unwrap();
    state.switch_task(1, 1000).unwrap();
    assert_eq!(state.change_task_enabled_flag(1, false), 1);
    let current = state.get_current_task().unwrap().unwrap();
    assert_eq!(current.id, 1);
    assert!(!current.enabled);
    assert_eq!(kinds(&state), vec![(1000, EventKind::TaskSwitch(1))]);
}

#[test]
fn changing_the_flag_of_an_unknown_task_changes_no_row() {
    let mut state = State::new(EventStore::new());
    state.new_task(String::from("a")).unwrap();
    assert_eq!(state.change_task_enabled_flag(9, false), 0);
    assert!(state.list_tasks()[0].enabled);
    assert_eq!(state.change_task_enabled_flag(1, false), 1);
    assert_eq!(state.change_task_enabled_flag(1, true), 1);
    assert!(state.list_tasks()[0].enabled);
}

#[test]
fn ping_never_adds_a_row() {
    let mut state = State::boot(EventStore::new(), 5);
    assert_eq!(pings(&state), 1);
    for now in [60, 120, 180, 240] {
        state.ping(now);
        assert_eq!(pings(&state), 1);
    }
    assert_eq!(kinds(&state), vec![(5, STARTUP), (240, PING)]);
}

#[test]
fn ping_without_a_row_creates_none() {
    let mut state = State::new(EventStore::new());
    state.switch_task(1, 3).unwrap();
    state.ping(60);
    state.ping(61);
    assert_eq!(pings(&state), 0);
    assert_eq!(kinds(&state), vec![(3, EventKind::TaskSwitch(1))]);
}

#[test]
fn recovery_closes_the_log_at_the_last_timestamp() {
    let store = store_with(&[(0, STARTUP), (100, EventKind::TaskSwitch(1))]);
    let state = State::boot(store, 5000);
    assert_eq!(
        kinds(&state),
        vec![
            (0, STARTUP),
            (100, EventKind::TaskSwitch(1)),
            (100, SHUTDOWN),
            (5000, STARTUP),
            (5000, PING)
        ]
    );
}

#[test]
fn recovery_takes_the_heartbeat_as_the_time_of_the_crash() {
    let store = store_with(&[(0, STARTUP), (0, PING), (100, EventKind::TaskSwitch(1))]);
    let mut state = State::new(store);
    assert_eq!(
        kinds(&state),
        vec![(0, STARTUP), (100, EventKind::TaskSwitch(1)), (100, SHUTDOWN)]
    );
    state.system_event(SystemEventType::Startup, 200).unwrap();
    state.system_event(SystemEventType::Ping, 200).unwrap();
    state.switch_task(1, 210).unwrap();
    state.ping(260);
    let again = State::new(store_with(&kinds(&state)));
    assert_eq!(kinds(&again).last(), Some(&(260, SHUTDOWN)));
    assert_eq!(pings(&again), 0);
}

#[test]
fn recovery_after_a_clean_shutdown_adds_nothing() {
    let store = store_with(&[(0, STARTUP), (10, PING), (20, SHUTDOWN)]);
    let state = State::new(store);
    assert_eq!(kinds(&state), vec![(0, STARTUP), (20, SHUTDOWN)]);
}

#[test]
fn recovery_of_an_empty_log_adds_nothing() {
    let state = State::new(EventStore::new());
    assert!(kinds(&state).is_empty());
}

#[test]
fn recovery_twice_is_recovery_once() {
    let store = store_with(&[(0, STARTUP), (0, PING), (100, EventKind::TaskSwitch(1))]);
    let once = State::new(store);
    let log = kinds(&once);
    let twice = State::new(store_with(&log));
    assert_eq!(kinds(&twice), log);
    let shutdowns = log.iter().filter(|(_, k)| *k == SHUTDOWN).count();
    assert_eq!(shutdowns, 1);
}

#[test]
fn two_boots_put_a_startup_between_their_shutdowns() {
    let store = store_with(&[(0, STARTUP), (50, EventKind::TaskSwitch(1))]);
    let first = State::boot(store, 100);
    let second = State::boot(store_with(&kinds(&first)), 200);
    assert_eq!(
        kinds(&second),
        vec![
            (0, STARTUP),
            (50, EventKind::TaskSwitch(1)),
            (50, SHUTDOWN),
            (100, STARTUP),
            (100, SHUTDOWN),
            (200, STARTUP),
            (200, PING)
        ]
    );
}

#[test]
fn retro_switch_without_keeping_leaves_the_new_task_current() {
    let mut state = State::boot(EventStore::new(), 0);
    state.new_task(String::from("a")).unwrap();
    state.new_task(String::from("b")).unwrap();
    state.switch_task(1, 10).unwrap();
    assert_eq!(state.retro_switch_task(2, 500, false, 900), Ok(4));
    assert_eq!(state.get_current_task().unwrap().unwrap().id, 2);
    assert_eq!(kinds(&state).last(), Some(&(500, EventKind::TaskSwitch(2))));
}

#[test]
fn retro_switch_with_keeping_resumes_the_previous_task_at_the_call() {
    let mut state = State::boot(EventStore::new(), 0);
    state.new_task(String::from("a")).unwrap();
    state.new_task(String::from("b")).unwrap();
    state.switch_task(1, 10).unwrap();
    assert_eq!(state.retro_switch_task(2, 500, true, 900), Ok(4));
    let log = kinds(&state);
    assert_eq!(
        &log[log.len() - 2..],
        &[(500, EventKind::TaskSwitch(2)), (900, EventKind::TaskSwitch(1))]
    );
    assert_eq!(state.get_current_task().unwrap().unwrap().id, 1);
}

#[test]
fn retro_switch_into_the_future_resumes_at_its_own_timestamp() {
    let mut state = State::boot(EventStore::new(), 0);
    state.new_task(String::from("a")).unwrap();
    state.new_task(String::from("b")).unwrap();
    state.switch_task(1, 10).unwrap();
    state.retro_switch_task(2, 500, true, 100).unwrap();
    let log = kinds(&state);
    assert_eq!(
        &log[log.len() - 2..],
        &[(500, EventKind::TaskSwitch(2)), (500, EventKind::TaskSwitch(1))]
    );
    assert_eq!(state.get_current_task().unwrap().unwrap().id, 1);
}

#[test]
fn retro_switch_with_no_task_to_keep_inserts_one_event() {
    let mut state = State::boot(EventStore::new(), 0);
    state.new_task(String::from("a")).unwrap();
    let before = kinds(&state).len();
    state.retro_switch_task(1, 5, true, 9).unwrap();
    assert_eq!(kinds(&state).len(), before + 1);
    assert_eq!(state.get_current_task().unwrap().unwrap().id, 1);
}

#[test]
fn retro_switch_before_a_later_event_does_not_change_the_current_task() {
    let mut state = State::boot(EventStore::new(), 0);
    state.new_task(String::from("a")).unwrap();
    state.new_task(String::from("b")).unwrap();
    state.switch_task(1, 100).unwrap();
    state.retro_switch_task(2, 50, false, 200).unwrap();
    assert_eq!(state.get_current_task().unwrap().unwrap().id, 1);
}

#[test]
fn get_state_shows_current_and_all_tasks() {
    let mut state = State::boot(EventStore::new(), 0);
    state.new_task(String::from("a")).unwrap();
    state.new_task(String::from("b")).unwrap();
    let snapshot = state.get_state().unwrap();
    assert!(snapshot.current_task.is_none());
    assert_eq!(snapshot.all_tasks.len(), 2);
    state.switch_task(2, 1).unwrap();
    let snapshot = state.get_state().unwrap();
    assert_eq!(snapshot.current_task.unwrap().name, "b");
    assert_eq!(snapshot.all_tasks[0].name, "a");
}

#[test]
fn store_rows_have_ascending_ids() {
    let mut store = EventStore::new();
    assert_eq!(create_task(&mut store, &NewTask { name: String::from("x") }), Ok(1));
    assert_eq!(create_task(&mut store, &NewTask { name: String::from("y") }), Ok(2));
    assert_eq!(push_event(&mut store, &NewEvent { event_timestamp: 9, kind: STARTUP }), Ok(1));
    assert_eq!(push_event(&mut store, &NewEvent { event_timestamp: 9, kind: PING }), Ok(2));
    assert_eq!(
        push_event(&mut store, &NewEvent { event_timestamp: 3, kind: EventKind::TaskSwitch(2) }),
        Ok(3)
    );
    assert_eq!(
        get_last_event(&store),
        Ok(Event { id: 2, event_timestamp: 9, kind: PING })
    );
    assert!(current_task(&store).unwrap().is_none());
    move_system_event(&mut store, 1, SystemEventType::Ping);
    assert_eq!(
        get_last_event(&store),
        Ok(Event { id: 1, event_timestamp: 9, kind: STARTUP })
    );
    remove_all_system_events(&mut store, SystemEventType::Ping);
    assert_eq!(store.events().len(), 2);
    remove_all_system_events(&mut store, SystemEventType::Startup);
    assert_eq!(current_task(&store).unwrap().map(|t| t.id), Some(2));
    assert_eq!(change_enabled(&mut store, 2, false), 1);
    let tasks = list_tasks(&store);
    assert!(tasks[0].enabled && !tasks[1].enabled);
    assert_eq!(store.next_event_id(), 4);
    assert_eq!(store.next_task_id(), 3);
}

#[test]
fn get_last_event_of_an_empty_log_finds_nothing() {
    assert_eq!(get_last_event(&EventStore::new()), Err(StorageError::NotFound));
}

#[test]
fn error_texts() {
    assert_eq!(StateError::Storage(StorageError::NotFound).to_string(), "Record not found");
    assert_eq!(StateError::Storage(StorageError::IdsExhausted).to_string(), "No id left");
    assert_eq!(StateError::Resolution(-4).to_string(), "No task with id -4");
    assert_eq!(SystemEventType::Startup.to_string(), "Startup");
    assert_eq!(SystemEventType::Shutdown.to_string(), "Shutdown");
    assert_eq!(SystemEventType::Ping.to_string(), "Ping");
}
