use oclock::calendar::{civil_date, day_label};
use oclock::model::{Event, EventKind, NewEvent, NewTask, SystemEventType};
use oclock::render::{format_time_interval, timesheet_to_csv, vec_to_csv};
use oclock::state::State;
use oclock::store::{create_task, push_event, EventStore};
use oclock::timesheet::{
    day_number, full_timesheet, in_chronological_order, overlap_seconds, pivot, split_by_day,
    TimesheetPivotRecord,
};

const STARTUP: EventKind = EventKind::System(SystemEventType::Startup);
const SHUTDOWN: EventKind = EventKind::System(SystemEventType::Shutdown);
const PING: EventKind = EventKind::System(SystemEventType::Ping);
const DAY: i32 = 86400;

fn log(events: &[(i32, EventKind)]) -> Vec<Event> {
    events
        .iter()
        .enumerate()
        .map(|(i, (ts, kind))| Event { id: i as i32 + 1, event_timestamp: *ts, kind: *kind })
        .collect()
}

fn rows(records: &[TimesheetPivotRecord]) -> Vec<(i32, Vec<i32>)> {
    records.iter().map(|r| (r.day, r.entries.clone())).collect()
}

fn total(records: &[TimesheetPivotRecord]) -> i64 {
    records.iter().map(|r| r.entries.iter().map(|s| *s as i64).sum::<i64>()).sum()
}

#[test]
fn an_interval_over_midnight_is_split_ten_and_ten() {
    let from = 3 * DAY - 10;
    let to = 3 * DAY + 10;
    assert_eq!(split_by_day(from, to, 0), vec![(2, 10), (3, 10)]);
    let events = log(&[(from, STARTUP), (from, EventKind::TaskSwitch(7)), (to, SHUTDOWN)]);
    let records = pivot(&events, &vec![7], 0);
    assert_eq!(rows(&records), vec![(2, vec![10]), (3, vec![10])]);
}

#[test]
fn the_day_boundary_moves_with_the_zone() {
    let from = 3 * DAY - 10;
    let to = 3 * DAY + 10;
    assert_eq!(split_by_day(from, to, 3600), vec![(3, 20)]);
    assert_eq!(split_by_day(from, to, -10), vec![(2, 20)]);
    assert_eq!(split_by_day(from, to, -5), vec![(2, 15), (3, 5)]);
}

#[test]
fn split_parts_add_up_over_many_days() {
    let parts = split_by_day(100, 5 * DAY + 7, 0);
    assert_eq!(parts.len(), 6);
    assert_eq!(parts[0], (0, DAY - 100));
    assert_eq!(parts[3], (3, DAY));
    assert_eq!(parts[5], (5, 7));
    assert_eq!(parts.iter().map(|p| p.1 as i64).sum::<i64>(), 5 * DAY as i64 + 7 - 100);
}

#[test]
fn split_of_an_interval_that_ends_at_midnight_has_one_part() {
    assert_eq!(split_by_day(DAY - 30, DAY, 0), vec![(0, 30)]);
}

#[test]
fn split_of_an_empty_interval_has_no_part() {
    assert!(split_by_day(50, 50, 0).is_empty());
    assert!(split_by_day(60, 50, 0).is_empty());
}

#[test]
fn split_before_the_epoch() {
    assert_eq!(split_by_day(-10, 10, 0), vec![(-1, 10), (0, 10)]);
    assert_eq!(day_number(-1, 0), -1);
    assert_eq!(day_number(-86400, 0), -1);
    assert_eq!(day_number(-86401, 0), -2);
    assert_eq!(day_number(i32::MIN, i32::MIN), -49711);
    assert_eq!(day_number(i32::MAX, i32::MAX), 49710);
}

#[test]
fn overlap_with_a_day() {
    assert_eq!(overlap_seconds(0, 100, 0, 0), 100);
    assert_eq!(overlap_seconds(0, 100, 1, 0), 0);
    assert_eq!(overlap_seconds(-50, 2 * DAY, 0, 0), DAY);
    assert_eq!(overlap_seconds(100, 0, 0, 0), 0);
}

#[test]
fn a_closed_session_adds_up_to_its_span() {
    let events = log(&[
        (1000, STARTUP),
        (1000, EventKind::TaskSwitch(1)),
        (5000, EventKind::TaskSwitch(2)),
        (DAY + 20, EventKind::TaskSwitch(1)),
        (3 * DAY + 999, EventKind::TaskSwitch(3)),
        (4 * DAY, SHUTDOWN),
    ]);
    let records = pivot(&events, &vec![1, 2, 3], 0);
    assert_eq!(total(&records), 4 * DAY as i64 - 1000);
    assert_eq!(
        rows(&records),
        vec![
            (0, vec![4000, DAY - 5000, 0]),
            (1, vec![DAY - 20, 20, 0]),
            (2, vec![DAY, 0, 0]),
            (3, vec![999, 0, DAY - 999]),
        ]
    );
}

#[test]
fn time_before_the_first_switch_counts_for_no_task() {
    let events = log(&[(0, STARTUP), (10, EventKind::TaskSwitch(1)), (20, SHUTDOWN)]);
    let records = pivot(&events, &vec![1], 0);
    assert_eq!(rows(&records), vec![(0, vec![10])]);
}

#[test]
fn time_outside_a_session_counts_for_no_task() {
    let events = log(&[
        (0, EventKind::TaskSwitch(1)),
        (100, STARTUP),
        (150, EventKind::TaskSwitch(1)),
        (250, SHUTDOWN),
        (300, EventKind::TaskSwitch(1)),
        (400, STARTUP),
        (450, SHUTDOWN),
    ]);
    let records = pivot(&events, &vec![1], 0);
    assert_eq!(rows(&records), vec![(0, vec![100])]);
}

#[test]
fn a_task_that_is_not_listed_has_no_column() {
    let events = log(&[
        (0, STARTUP),
        (0, EventKind::TaskSwitch(9)),
        (10, EventKind::TaskSwitch(1)),
        (30, SHUTDOWN),
    ]);
    let records = pivot(&events, &vec![1, 2], 0);
    assert_eq!(rows(&records), vec![(0, vec![20, 0])]);
}

#[test]
fn days_without_time_have_no_row() {
    let events = log(&[
        (0, STARTUP),
        (0, EventKind::TaskSwitch(1)),
        (10, SHUTDOWN),
        (5 * DAY, STARTUP),
        (5 * DAY, EventKind::TaskSwitch(1)),
        (5 * DAY + 1, SHUTDOWN),
    ]);
    let records = pivot(&events, &vec![1], 0);
    assert_eq!(rows(&records), vec![(0, vec![10]), (5, vec![1])]);
}

#[test]
fn short_logs_have_no_rows() {
    assert!(pivot(&log(&[]), &vec![1], 0).is_empty());
    assert!(pivot(&log(&[(5, STARTUP)]), &vec![1], 0).is_empty());
    assert!(pivot(&log(&[(5, STARTUP), (9, SHUTDOWN)]), &vec![1], 0).is_empty());
}

#[test]
fn chronological_order_is_by_timestamp_then_insertion() {
    let events = log(&[
        (30, EventKind::TaskSwitch(1)),
        (10, STARTUP),
        (30, EventKind::TaskSwitch(2)),
        (20, EventKind::TaskSwitch(3)),
        (10, EventKind::TaskSwitch(4)),
    ]);
    let sorted: Vec<i32> = in_chronological_order(&events).iter().map(|e| e.id).collect();
    assert_eq!(sorted, vec![2, 5, 4, 1, 3]);
}

#[test]
fn the_timesheet_of_a_store_ignores_heartbeats_and_backdating_order() {
    let mut store = EventStore::new();
    create_task(&mut store, &NewTask { name: String::from("a") }).unwrap();
    create_task(&mut store, &NewTask { name: String::from("b") }).unwrap();
    for (ts, kind) in [
        (0, STARTUP),
        (0, PING),
        (0, EventKind::TaskSwitch(1)),
        (1000, SHUTDOWN),
        (400, EventKind::TaskSwitch(2)),
    ] {
        push_event(&mut store, &NewEvent { event_timestamp: ts, kind }).unwrap();
    }
    let (names, records) = full_timesheet(&store, 0);
    assert_eq!(names, vec!["a", "b"]);
    assert_eq!(rows(&records), vec![(0, vec![400, 600])]);
}

#[test]
fn a_retro_switch_takes_the_time_from_its_timestamp_on() {
    let mut state = State::boot(EventStore::new(), 0);
    state.new_task(String::from("a")).unwrap();
    state.new_task(String::from("b")).unwrap();
    state.switch_task(1, 0).unwrap();
    state.retro_switch_task(2, 600, true, 1000).unwrap();
    state.system_event(SystemEventType::Shutdown, 1500).unwrap();
    let (_, records) = state.full_timesheet(0);
    assert_eq!(rows(&records), vec![(0, vec![600 + 500, 400])]);
}

#[test]
fn durations_are_rendered_in_two_digits_at_least() {
    assert_eq!(format_time_interval(&59), "00:00:59");
    assert_eq!(format_time_interval(&3599), "00:59:59");
    assert_eq!(format_time_interval(&86400), "24:00:00");
    assert_eq!(format_time_interval(&360000), "100:00:00");
    assert_eq!(format_time_interval(&i32::MAX), "596523:14:07");
    assert_eq!(format_time_interval(&-1), "00:00:-1");
    assert_eq!(format_time_interval(&-3661), "-1:-1:-1");
    assert_eq!(format_time_interval(&i32::MIN), "-596523:-14:-8");
}

#[test]
fn dates() {
    assert_eq!(civil_date(0), (1970, 1, 1));
    assert_eq!(civil_date(-1), (1969, 12, 31));
    assert_eq!(civil_date(59), (1970, 3, 1));
    assert_eq!(civil_date(789), (1972, 2, 29));
    assert_eq!(civil_date(11016), (2000, 2, 29));
    assert_eq!(civil_date(19782), (2024, 2, 29));
    assert_eq!(civil_date(19783), (2024, 3, 1));
    assert_eq!(civil_date(47541), (2100, 3, 1));
    assert_eq!(civil_date(-25509), (1900, 2, 28));
    assert_eq!(civil_date(-25508), (1900, 3, 1));
    assert_eq!(civil_date(-719528), (0, 1, 1));
    assert_eq!(day_label(0), "1970-01-01");
    assert_eq!(day_label(20389), "2025-10-28");
    assert_eq!(day_label(-719529), "-1-12-31");
}

#[test]
fn the_task_list_as_csv() {
    let mut state = State::new(EventStore::new());
    assert_eq!(vec_to_csv(&state.list_tasks()).unwrap(), "");
    state.new_task(String::from("Roboadvisor")).unwrap();
    state.new_task(String::from("mail, calls")).unwrap();
    state.new_task(String::from("say \"hi\"")).unwrap();
    state.change_task_enabled_flag(2, false);
    assert_eq!(
        vec_to_csv(&state.list_tasks()).unwrap(),
        "id,enabled,name\n1,true,Roboadvisor\n2,false,\"mail, calls\"\n3,true,\"say \"\"hi\"\"\"\n"
    );
}

#[test]
fn the_timesheet_as_csv() {
    let tasks = vec![String::from("a"), String::from("b,c")];
    let records = vec![
        TimesheetPivotRecord { day: 0, entries: vec![60, 0] },
        TimesheetPivotRecord { day: 1, entries: vec![1] },
        TimesheetPivotRecord { day: 366, entries: vec![45296, 86400] },
    ];
    assert_eq!(
        timesheet_to_csv(&tasks, &records).unwrap(),
        "day,a,\"b,c\"\n1970-01-01,00:01:00,00:00:00\n1971-01-02,12:34:56,24:00:00\n"
    );
    assert_eq!(timesheet_to_csv(&tasks, &vec![]).unwrap(), "day,a,\"b,c\"\n");
    assert_eq!(timesheet_to_csv(&vec![], &vec![]).unwrap(), "day\n");
}
