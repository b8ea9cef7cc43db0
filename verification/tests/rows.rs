use oclock::calendar::civil_date;
use oclock::command::OClockClientCommand;
use oclock::model::{Event, EventKind, StateError, StorageError, SystemEventType, Task};
use oclock::render::format_time_interval;
use oclock::server::handle_msg;
use oclock::state::State;
use oclock::store::EventStore;
use oclock::timesheet::{day_number, split_by_day};

fn task(id: i32) -> Task {
    Task { id, enabled: true, name: format!("t{}", id) }
}

fn event(id: i32, ts: i32) -> Event {
    Event { id, event_timestamp: ts, kind: EventKind::TaskSwitch(1) }
}

#[test]
fn rows_in_order_make_a_store() {
    let store = EventStore::from_rows(
        vec![task(2), task(5)],
        vec![event(1, 50), event(3, 10), event(9, 10)],
    )
    .unwrap();
    assert_eq!(store.next_task_id(), 6);
    assert_eq!(store.next_event_id(), 10);
    assert_eq!(store.tasks().len(), 2);
    assert_eq!(store.events().len(), 3);
    let mut state = State::new(store);
    assert_eq!(state.new_task(String::from("n")), Ok(6));
    assert_eq!(state.switch_task(6, 60), Ok(11));
}

#[test]
fn no_rows_make_the_empty_store() {
    let store = EventStore::from_rows(vec![], vec![]).unwrap();
    assert_eq!(store.next_task_id(), 1);
    assert_eq!(store.next_event_id(), 1);
}

#[test]
fn rows_out_of_order_make_no_store() {
    assert!(EventStore::from_rows(vec![task(2), task(2)], vec![]).is_none());
    assert!(EventStore::from_rows(vec![task(3), task(2)], vec![]).is_none());
    assert!(EventStore::from_rows(vec![task(0)], vec![]).is_none());
    assert!(EventStore::from_rows(vec![task(-1)], vec![]).is_none());
    assert!(EventStore::from_rows(vec![task(i32::MAX)], vec![]).is_none());
    assert!(EventStore::from_rows(vec![task(i32::MAX - 1)], vec![]).is_some());
    assert!(EventStore::from_rows(vec![], vec![event(1, 0), event(1, 1)]).is_none());
    assert!(EventStore::from_rows(vec![], vec![event(0, 0)]).is_none());
    assert!(EventStore::from_rows(vec![], vec![event(1, 0), event(i32::MAX, 1)]).is_none());
}

#[test]
fn a_full_table_refuses_the_next_row() {
    let store =
        EventStore::from_rows(vec![task(i32::MAX - 1)], vec![event(i32::MAX - 1, 0)]).unwrap();
    let mut state = State::new(store);
    let full = Err(StateError::Storage(StorageError::IdsExhausted));
    assert_eq!(state.new_task(String::from("x")), full);
    assert_eq!(state.switch_task(1, 5), full);
    assert_eq!(state.system_event(SystemEventType::Startup, 5), full);
    assert_eq!(state.retro_switch_task(1, 2, false, 3), full);
    for (command, message) in [
        (
            OClockClientCommand::PushTask { name: String::from("x") },
            "Error during task insert 'No id left'",
        ),
        (
            OClockClientCommand::JsonPushTask { name: String::from("x") },
            "Error during task insert 'No id left'",
        ),
        (OClockClientCommand::SwitchTask { task_id: 1 }, "Error during task switch 'No id left'"),
        (
            OClockClientCommand::JsonSwitchTask { task_id: 1 },
            "Error during task switch 'No id left'",
        ),
        (
            OClockClientCommand::JsonRetroSwitchTask {
                task_id: 1,
                timestamp: 2,
                keep_previous_task: false,
            },
            "Error during retroactive task switch 'No id left'",
        ),
    ] {
        let handled = handle_msg(command, &mut state, 9, 0);
        assert_eq!(handled.reply.unwrap_err(), message);
        assert!(handled.publish.is_none());
    }
    assert_eq!(state.store().events().len(), 1);
    assert_eq!(state.list_tasks().len(), 1);
}

#[test]
fn a_retro_switch_that_has_room_for_one_event_only_inserts_none() {
    let closed = Event {
        id: i32::MAX - 3,
        event_timestamp: 0,
        kind: EventKind::System(SystemEventType::Shutdown),
    };
    let store = EventStore::from_rows(vec![task(1)], vec![closed]).unwrap();
    let mut state = State::new(store);
    assert_eq!(state.switch_task(1, 5), Ok(i32::MAX - 2));
    assert!(state.retro_switch_task(1, 6, true, 7).is_err());
    assert_eq!(state.store().events().len(), 2);
    assert_eq!(state.retro_switch_task(1, 6, false, 7), Ok(i32::MAX - 1));
    assert_eq!(state.store().events().len(), 3);
    assert!(state.retro_switch_task(1, 8, false, 9).is_err());
}

#[test]
fn columns_record_one_thing_or_nothing() {
    assert_eq!(EventKind::from_columns(Some(4), None), Some(EventKind::TaskSwitch(4)));
    assert_eq!(
        EventKind::from_columns(None, Some("Startup")),
        Some(EventKind::System(SystemEventType::Startup))
    );
    assert_eq!(
        EventKind::from_columns(None, Some("Shutdown")),
        Some(EventKind::System(SystemEventType::Shutdown))
    );
    assert_eq!(
        EventKind::from_columns(None, Some("Ping")),
        Some(EventKind::System(SystemEventType::Ping))
    );
    assert_eq!(EventKind::from_columns(None, Some("ping")), None);
    assert_eq!(EventKind::from_columns(None, Some("")), None);
    assert_eq!(EventKind::from_columns(None, None), None);
    assert_eq!(EventKind::from_columns(Some(1), Some("Ping")), None);
    assert_eq!(SystemEventType::from_name("Startup "), None);
}

#[test]
fn kinds_go_back_into_columns() {
    for kind in [SystemEventType::Startup, SystemEventType::Shutdown, SystemEventType::Ping] {
        let name = EventKind::System(kind).system_event_name().unwrap();
        assert_eq!(SystemEventType::from_name(&name), Some(kind));
        let e = Event { id: 1, event_timestamp: 0, kind: EventKind::System(kind) };
        assert_eq!(e.task_id(), None);
        assert_eq!(e.system_event(), Some(kind));
    }
    let e = event(1, 0);
    assert_eq!(e.kind.system_event_name(), None);
    assert_eq!(e.task_id(), Some(1));
    assert_eq!(e.system_event(), None);
}

#[test]
fn durations_agree_with_the_formatter() {
    for i in (-100_000..100_000).step_by(37).chain([i32::MIN, i32::MAX, 359999, 360000]) {
        let expected =
            format!("{:02}:{:02}:{:02}", i / 3600, (i - (i / 3600) * 3600) / 60, i - (i / 60) * 60);
        assert_eq!(format_time_interval(&i), expected);
    }
}

#[test]
fn days_agree_with_euclidean_division() {
    for ts in (-400_000..400_000).step_by(997).chain([i32::MIN, i32::MAX]) {
        for offset in [0, 3600, -3600, 50400, -43200, i32::MIN, i32::MAX] {
            let expected = (ts as i64 + offset as i64).div_euclid(86400);
            assert_eq!(day_number(ts, offset) as i64, expected);
        }
    }
}

#[test]
fn dates_follow_each_other() {
    let mut previous = civil_date(-150_000);
    for day in -149_999..60_000 {
        let date = civil_date(day);
        let (y, m, d) = previous;
        let leap = y % 4 == 0 && (y % 100 != 0 || y % 400 == 0);
        let length = match m {
            2 => {
                if leap {
                    29
                } else {
                    28
                }
            }
            4 | 6 | 9 | 11 => 30,
            _ => 31,
        };
        let expected = if d < length {
            (y, m, d + 1)
        } else if m < 12 {
            (y, m + 1, 1)
        } else {
            (y + 1, 1, 1)
        };
        assert_eq!(date, expected);
        previous = date;
    }
    assert_eq!(civil_date(i32::MAX), (5881580, 7, 11));
    assert_eq!(civil_date(i32::MIN), (-5877641, 6, 23));
}

#[test]
fn splits_add_up() {
    for (from, to, offset) in [
        (0, 1, 0),
        (-5000, 700_000, 3600),
        (i32::MIN, i32::MIN + 200_000, -7200),
        (i32::MAX - 300_000, i32::MAX, 9999),
        (86399, 86401, 0),
    ] {
        let parts = split_by_day(from, to, offset);
        let total: i64 = parts.iter().map(|p| p.1 as i64).sum();
        assert_eq!(total, to as i64 - from as i64);
        for pair in parts.windows(2) {
            assert_eq!(pair[0].0 + 1, pair[1].0);
        }
        assert_eq!(parts[0].0, day_number(from, offset));
        assert_eq!(parts[parts.len() - 1].0, day_number(to - 1, offset));
        assert!(parts.iter().all(|p| p.1 > 0 && p.1 <= 86400));
    }
}
