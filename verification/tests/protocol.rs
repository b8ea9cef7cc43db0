use oclock::client::{decode_reply, SrvInvocationError};
use oclock::command::{Commands, OClockClientCommand, OClockClientCommandArg};
use oclock::model::{EventKind, SystemEventType};
use oclock::server::{
    frame_reply, handle_msg, keep_running, minute_number, nanomsg_listen, tick, Agenda, Due,
    Handled, MsgListenerStatus, Reply,
};
use oclock::state::State;
use oclock::store::EventStore;

fn text(handled: &Handled) -> &str {
    match &handled.reply {
        Ok(Reply::Text(text)) => text,
        other => panic!("no text reply: {:?}", other),
    }
}

fn error(handled: &Handled) -> &str {
    match &handled.reply {
        Err(message) => message,
        other => panic!("no error: {:?}", other),
    }
}

fn task_names(handled: &Handled) -> (Option<String>, Vec<String>) {
    match &handled.reply {
        Ok(Reply::State(s)) => (
            s.current_task.as_ref().map(|t| t.name.clone()),
            s.all_tasks.iter().map(|t| t.name.clone()).collect(),
        ),
        other => panic!("no state reply: {:?}", other),
    }
}

fn booted() -> State {
    State::boot(EventStore::new(), 0)
}

#[test]
fn exit_says_goodbye() {
    let mut state = booted();
    let handled = handle_msg(OClockClientCommand::Exit, &mut state, 1, 0);
    assert_eq!(text(&handled), "bye bye...");
    assert!(handled.publish.is_none());
}

#[test]
fn push_task_answers_with_the_id_and_broadcasts() {
    let mut state = booted();
    let handled =
        handle_msg(OClockClientCommand::PushTask { name: String::from("a") }, &mut state, 1, 0);
    assert_eq!(text(&handled), "New task id '1'");
    let published = handled.publish.unwrap();
    assert!(published.current_task.is_none());
    assert_eq!(published.all_tasks.len(), 1);
    let handled =
        handle_msg(OClockClientCommand::PushTask { name: String::from("b") }, &mut state, 1, 0);
    assert_eq!(text(&handled), "New task id '2'");
}

#[test]
fn switch_task_answers_with_the_event_id_and_broadcasts() {
    let mut state = booted();
    handle_msg(OClockClientCommand::PushTask { name: String::from("a") }, &mut state, 1, 0);
    let handled = handle_msg(OClockClientCommand::SwitchTask { task_id: 1 }, &mut state, 7, 0);
    assert_eq!(text(&handled), "New event id '3'");
    assert_eq!(handled.publish.unwrap().current_task.unwrap().id, 1);
    let last = *state.store().events().last().unwrap();
    assert_eq!((last.event_timestamp, last.kind), (7, EventKind::TaskSwitch(1)));
}

#[test]
fn a_switch_to_an_unknown_task_is_accepted_and_not_broadcast() {
    let mut state = booted();
    let handled = handle_msg(OClockClientCommand::SwitchTask { task_id: 5 }, &mut state, 7, 0);
    assert_eq!(text(&handled), "New event id '3'");
    assert!(handled.publish.is_none());
    let handled = handle_msg(OClockClientCommand::CurrentTask, &mut state, 8, 0);
    assert_eq!(error(&handled), "Error while fetching last task switch 'No task with id 5'");
    let handled = handle_msg(OClockClientCommand::JsonState, &mut state, 8, 0);
    assert_eq!(error(&handled), "Error while fetching last task switch 'No task with id 5'");
}

#[test]
fn current_task_answers_with_the_name_or_none() {
    let mut state = booted();
    handle_msg(OClockClientCommand::PushTask { name: String::from("a") }, &mut state, 1, 0);
    let handled = handle_msg(OClockClientCommand::CurrentTask, &mut state, 1, 0);
    assert_eq!(text(&handled), "None");
    assert!(handled.publish.is_none());
    handle_msg(OClockClientCommand::SwitchTask { task_id: 1 }, &mut state, 2, 0);
    let handled = handle_msg(OClockClientCommand::CurrentTask, &mut state, 3, 0);
    assert_eq!(text(&handled), "a");
}

#[test]
fn disable_task_answers_and_broadcasts() {
    let mut state = booted();
    handle_msg(OClockClientCommand::PushTask { name: String::from("a") }, &mut state, 1, 0);
    let handled = handle_msg(OClockClientCommand::DisableTask { task_id: 1 }, &mut state, 2, 0);
    assert_eq!(text(&handled), "Task 1 enabled: false");
    assert!(!handled.publish.unwrap().all_tasks[0].enabled);
}

#[test]
fn list_tasks_answers_with_csv() {
    let mut state = booted();
    handle_msg(OClockClientCommand::PushTask { name: String::from("a") }, &mut state, 1, 0);
    let handled = handle_msg(OClockClientCommand::ListTasks, &mut state, 2, 0);
    assert_eq!(text(&handled), "id,enabled,name\n1,true,a\n");
    assert!(handled.publish.is_none());
}

#[test]
fn timesheet_answers_with_csv() {
    let mut state = booted();
    handle_msg(OClockClientCommand::PushTask { name: String::from("a") }, &mut state, 0, 0);
    handle_msg(OClockClientCommand::PushTask { name: String::from("b") }, &mut state, 0, 0);
    handle_msg(OClockClientCommand::SwitchTask { task_id: 1 }, &mut state, 0, 0);
    handle_msg(OClockClientCommand::SwitchTask { task_id: 2 }, &mut state, 3600, 0);
    state.system_event(SystemEventType::Shutdown, 86400 + 61).unwrap();
    let handled = handle_msg(OClockClientCommand::Timesheet, &mut state, 90000, 0);
    assert_eq!(
        text(&handled),
        "day,a,b\n1970-01-01,01:00:00,23:00:00\n1970-01-02,00:00:00,00:01:01\n"
    );
    let handled = handle_msg(OClockClientCommand::Timesheet, &mut state, 90000, 3600);
    assert_eq!(
        text(&handled),
        "day,a,b\n1970-01-01,01:00:00,22:00:00\n1970-01-02,00:00:00,01:01:01\n"
    );
}

#[test]
fn json_commands_answer_with_the_state_after_the_change() {
    let mut state = booted();
    let handled =
        handle_msg(OClockClientCommand::JsonPushTask { name: String::from("a") }, &mut state, 1, 0);
    assert_eq!(task_names(&handled), (None, vec![String::from("a")]));
    assert!(handled.publish.is_some());
    handle_msg(OClockClientCommand::JsonPushTask { name: String::from("b") }, &mut state, 1, 0);
    let handled = handle_msg(OClockClientCommand::JsonSwitchTask { task_id: 2 }, &mut state, 5, 0);
    assert_eq!(task_names(&handled).0, Some(String::from("b")));
    assert_eq!(handled.publish.unwrap().current_task.unwrap().id, 2);
    let handled =
        handle_msg(OClockClientCommand::JsonDisableTask { task_id: 2 }, &mut state, 6, 0);
    match &handled.reply {
        Ok(Reply::State(s)) => assert!(!s.current_task.as_ref().unwrap().enabled),
        other => panic!("no state reply: {:?}", other),
    }
    let handled = handle_msg(OClockClientCommand::JsonState, &mut state, 7, 0);
    assert_eq!(task_names(&handled).0, Some(String::from("b")));
    assert!(handled.publish.is_none());
}

#[test]
fn json_retro_switch_keeps_or_replaces_the_current_task() {
    let mut state = booted();
    handle_msg(OClockClientCommand::PushTask { name: String::from("a") }, &mut state, 1, 0);
    handle_msg(OClockClientCommand::PushTask { name: String::from("b") }, &mut state, 1, 0);
    handle_msg(OClockClientCommand::SwitchTask { task_id: 1 }, &mut state, 10, 0);
    let handled = handle_msg(
        OClockClientCommand::JsonRetroSwitchTask {
            task_id: 2,
            timestamp: 50,
            keep_previous_task: true,
        },
        &mut state,
        90,
        0,
    );
    assert_eq!(task_names(&handled).0, Some(String::from("a")));
    let handled = handle_msg(
        OClockClientCommand::JsonRetroSwitchTask {
            task_id: 2,
            timestamp: 95,
            keep_previous_task: false,
        },
        &mut state,
        99,
        0,
    );
    assert_eq!(task_names(&handled).0, Some(String::from("b")));
    assert!(handled.publish.is_some());
}

#[test]
fn replies_are_framed_with_their_status() {
    assert_eq!(frame_reply(Ok("bye bye...")), "OK#bye bye...");
    assert_eq!(frame_reply(Err("Invalid message")), "ERR#Invalid message");
    assert_eq!(frame_reply(Ok("")), "OK#");
}

#[test]
fn listening_decides_how_the_loop_goes_on() {
    let mut state = booted();
    let listened = nanomsg_listen(None, &mut state, 1, 0);
    assert_eq!(listened.status, MsgListenerStatus::Continue);
    assert!(listened.handled.is_none());

    let listened = nanomsg_listen(Some(Err(String::from("eof"))), &mut state, 1, 0);
    assert_eq!(listened.status, MsgListenerStatus::Fail);
    assert_eq!(error(&listened.handled.unwrap()), "Invalid message");
    assert!(keep_running(listened.status, false));

    let listened = nanomsg_listen(Some(Ok(OClockClientCommand::JsonState)), &mut state, 1, 0);
    assert_eq!(listened.status, MsgListenerStatus::Continue);
    assert!(listened.handled.unwrap().reply.is_ok());

    let listened = nanomsg_listen(Some(Ok(OClockClientCommand::Exit)), &mut state, 1, 0);
    assert_eq!(listened.status, MsgListenerStatus::Terminate);
    assert_eq!(text(&listened.handled.unwrap()), "bye bye...");
    assert!(!keep_running(listened.status, false));
    assert!(!keep_running(MsgListenerStatus::Continue, true));
    assert!(keep_running(MsgListenerStatus::Continue, false));
}

#[test]
fn the_agenda_polls_each_second_and_beats_each_minute() {
    let mut agenda = Agenda::new(100);
    assert_eq!(agenda.run_pending(100), Due { poll: false, heartbeat: false });
    assert_eq!(agenda.run_pending(101), Due { poll: true, heartbeat: false });
    assert_eq!(agenda.run_pending(101), Due { poll: false, heartbeat: false });
    assert_eq!(agenda.run_pending(119), Due { poll: true, heartbeat: false });
    assert_eq!(agenda.run_pending(120), Due { poll: true, heartbeat: true });
    assert_eq!(agenda.run_pending(121), Due { poll: true, heartbeat: false });
    assert_eq!(agenda.run_pending(90), Due { poll: false, heartbeat: false });
    assert_eq!(agenda.run_pending(400), Due { poll: true, heartbeat: true });
    assert_eq!(agenda, Agenda { last_poll: 400, last_beat: 400 });
    assert_eq!(minute_number(-1), -1);
    assert_eq!(minute_number(-60), -1);
    assert_eq!(minute_number(-61), -2);
    assert_eq!(minute_number(i32::MIN), -35791395);
}

#[test]
fn replies_are_decoded_by_their_prefix() {
    assert_eq!(decode_reply(b"OK#{\"a\":1}").unwrap(), "{\"a\":1}");
    assert_eq!(decode_reply(b"OK#").unwrap(), "");
    assert_eq!(decode_reply("OK#caf\u{e9} \u{1f600}".as_bytes()).unwrap(), "caf\u{e9} \u{1f600}");
    match decode_reply(b"ERR#Not recognized") {
        Err(SrvInvocationError::ServerError(m)) => assert_eq!(m, "Not recognized"),
        other => panic!("{:?}", other),
    }
    for reply in [&b"OK"[..], b"", b"ok#x", b"ERR", b"ER#x", b"#OK#"] {
        match decode_reply(reply) {
            Err(SrvInvocationError::CommunicationError(m)) => {
                assert_eq!(m, "Missing reply prefix")
            }
            other => panic!("{:?}", other),
        }
    }
    for reply in [&b"OK#\xff"[..], b"ERR#\xc3", b"OK#\xed\xa0\x80"] {
        match decode_reply(reply) {
            Err(SrvInvocationError::CommunicationError(m)) => {
                assert_eq!(m, "Malformed reply String")
            }
            other => panic!("{:?}", other),
        }
    }
}

#[test]
fn invocation_errors_say_what_failed() {
    assert_eq!(
        SrvInvocationError::ServerError(String::from("x")).to_string(),
        "Server error - x"
    );
    assert_eq!(
        SrvInvocationError::CommunicationError(String::from("y")).to_string(),
        "Communication Error - y"
    );
}

#[test]
fn command_line_arguments_become_commands() {
    let command = OClockClientCommand::from(OClockClientCommandArg::JsonRetroSwitchTask {
        task_id: 3,
        timestamp: 9,
        keep_previous_task: true,
    });
    match command {
        OClockClientCommand::JsonRetroSwitchTask { task_id, timestamp, keep_previous_task } => {
            assert_eq!((task_id, timestamp, keep_previous_task), (3, 9, true))
        }
        other => panic!("{:?}", other),
    }
    let command: OClockClientCommand =
        OClockClientCommandArg::PushTask { name: String::from("n") }.into();
    assert_eq!(command.kind(), Commands::PushTask);
    match command {
        OClockClientCommand::PushTask { name } => assert_eq!(name, "n"),
        other => panic!("{:?}", other),
    }
    assert_eq!(OClockClientCommand::from(OClockClientCommandArg::Exit).kind(), Commands::Exit);
    assert_eq!(
        OClockClientCommand::from(OClockClientCommandArg::Timesheet).kind(),
        Commands::Timesheet
    );
}

#[test]
fn a_tick_beats_the_heartbeat_once_a_minute() {
    let mut state = State::boot(EventStore::new(), 30);
    let mut agenda = Agenda::new(30);
    let ping = |state: &State| {
        state
            .store()
            .events()
            .iter()
            .find(|e| e.kind == EventKind::System(SystemEventType::Ping))
            .map(|e| e.event_timestamp)
    };
    assert_eq!(tick(&mut agenda, &mut state, 31), Due { poll: true, heartbeat: false });
    assert_eq!(ping(&state), Some(30));
    assert_eq!(tick(&mut agenda, &mut state, 59), Due { poll: true, heartbeat: false });
    assert_eq!(ping(&state), Some(30));
    assert_eq!(tick(&mut agenda, &mut state, 61), Due { poll: true, heartbeat: true });
    assert_eq!(ping(&state), Some(61));
    assert_eq!(tick(&mut agenda, &mut state, 61), Due { poll: false, heartbeat: false });
    assert_eq!(tick(&mut agenda, &mut state, 119), Due { poll: true, heartbeat: false });
    assert_eq!(ping(&state), Some(61));
    assert_eq!(tick(&mut agenda, &mut state, 120), Due { poll: true, heartbeat: true });
    assert_eq!(ping(&state), Some(120));
    assert_eq!(state.store().events().len(), 2);
}
