use oclock::command::{Commands, OClockClientCommand};
use oclock::wire::{command_named, find_sep, parse_command, parse_number};

fn all() -> Vec<(Commands, &'static str)> {
    vec![
        (Commands::Exit, "EXIT"),
        (Commands::PushTask, "PUSH_TASK"),
        (Commands::DisableTask, "DISABLE_TASK"),
        (Commands::SwitchTask, "SWITCH_TASK"),
        (Commands::CurrentTask, "CURRENT_TASK"),
        (Commands::ListTasks, "LIST_TASKS"),
        (Commands::JsonPushTask, "JSON_PUSH_TASK"),
        (Commands::JsonDisableTask, "JSON_DISABLE_TASK"),
        (Commands::JsonSwitchTask, "JSON_SWITCH_TASK"),
        (Commands::JsonRetroSwitchTask, "JSON_RETRO_SWITCH_TASK"),
        (Commands::JsonState, "JSON_STATE"),
        (Commands::Timesheet, "TIMESHEET"),
    ]
}

fn line(command: OClockClientCommand) -> String {
    command.to_string()
}

fn show(r: Result<OClockClientCommand, String>) -> String {
    format!("{:?}", r)
}

#[test]
fn command_names_are_screaming_snake_case() {
    for (kind, name) in all() {
        assert_eq!(kind.to_string(), name);
        assert_eq!(command_named(name), Some(kind));
    }
    assert_eq!(command_named("Exit"), None);
    assert_eq!(command_named("exit"), None);
    assert_eq!(command_named(""), None);
    assert_eq!(command_named("EXIT "), None);
}

#[test]
fn commands_as_lines() {
    assert_eq!(line(OClockClientCommand::Exit), "EXIT");
    assert_eq!(line(OClockClientCommand::PushTask { name: String::from("a#b") }), "PUSH_TASK#a#b");
    assert_eq!(line(OClockClientCommand::DisableTask { task_id: 12 }), "DISABLE_TASK#12");
    assert_eq!(line(OClockClientCommand::SwitchTask { task_id: 0 }), "SWITCH_TASK#0");
    assert_eq!(line(OClockClientCommand::CurrentTask), "CURRENT_TASK");
    assert_eq!(line(OClockClientCommand::ListTasks), "LIST_TASKS");
    assert_eq!(
        line(OClockClientCommand::JsonPushTask { name: String::from("x") }),
        "JSON_PUSH_TASK#x"
    );
    assert_eq!(
        line(OClockClientCommand::JsonDisableTask { task_id: u64::MAX }),
        "JSON_DISABLE_TASK#18446744073709551615"
    );
    assert_eq!(line(OClockClientCommand::JsonSwitchTask { task_id: 7 }), "JSON_SWITCH_TASK#7");
    assert_eq!(
        line(OClockClientCommand::JsonRetroSwitchTask {
            task_id: 3,
            timestamp: 1700000000,
            keep_previous_task: true
        }),
        "JSON_RETRO_SWITCH_TASK#3#1700000000#1"
    );
    assert_eq!(
        line(OClockClientCommand::JsonRetroSwitchTask {
            task_id: 3,
            timestamp: 5,
            keep_previous_task: false
        }),
        "JSON_RETRO_SWITCH_TASK#3#5#0"
    );
    assert_eq!(line(OClockClientCommand::JsonState), "JSON_STATE#null");
    assert_eq!(line(OClockClientCommand::Timesheet), "TIMESHEET");
}

#[test]
fn lines_are_read_back_as_the_commands_they_were() {
    let commands = vec![
        OClockClientCommand::Exit,
        OClockClientCommand::PushTask { name: String::from("mail # calls") },
        OClockClientCommand::PushTask { name: String::new() },
        OClockClientCommand::DisableTask { task_id: 4 },
        OClockClientCommand::SwitchTask { task_id: 18446744073709551615 },
        OClockClientCommand::CurrentTask,
        OClockClientCommand::ListTasks,
        OClockClientCommand::JsonPushTask { name: String::from("caf\u{e9}") },
        OClockClientCommand::JsonDisableTask { task_id: 0 },
        OClockClientCommand::JsonSwitchTask { task_id: 10 },
        OClockClientCommand::JsonRetroSwitchTask {
            task_id: 1,
            timestamp: 2,
            keep_previous_task: true,
        },
        OClockClientCommand::JsonRetroSwitchTask {
            task_id: 1,
            timestamp: 2,
            keep_previous_task: false,
        },
        OClockClientCommand::JsonState,
        OClockClientCommand::Timesheet,
    ];
    for command in commands {
        let text = command.to_string();
        assert_eq!(show(parse_command(&text)), show(Ok(command)));
    }
}

#[test]
fn arguments_of_commands_without_any_are_ignored() {
    assert_eq!(show(parse_command("EXIT#now")), show(Ok(OClockClientCommand::Exit)));
    assert_eq!(show(parse_command("TIMESHEET#")), show(Ok(OClockClientCommand::Timesheet)));
    assert_eq!(
        show(parse_command("JSON_RETRO_SWITCH_TASK#1#2#5#rest")),
        show(Ok(OClockClientCommand::JsonRetroSwitchTask {
            task_id: 1,
            timestamp: 2,
            keep_previous_task: true
        }))
    );
    assert_eq!(
        show(parse_command("PUSH_TASK")),
        show(Ok(OClockClientCommand::PushTask { name: String::new() }))
    );
}

#[test]
fn lines_that_are_no_commands_are_refused() {
    for text in ["", "#", "exit", "PUSH-TASK#x", " EXIT", "EXIT ", "JSON", "\u{e9}"] {
        assert_eq!(parse_command(text).unwrap_err(), "Not recognized");
    }
    for text in [
        "SWITCH_TASK",
        "SWITCH_TASK#",
        "SWITCH_TASK#one",
        "SWITCH_TASK#1#2",
        "SWITCH_TASK#-1",
        "SWITCH_TASK# 1",
        "DISABLE_TASK#18446744073709551616",
        "JSON_DISABLE_TASK#1.0",
        "JSON_SWITCH_TASK#+",
        "JSON_RETRO_SWITCH_TASK#x",
        "JSON_RETRO_SWITCH_TASK#1#",
        "JSON_RETRO_SWITCH_TASK#1#2#",
        "JSON_RETRO_SWITCH_TASK#1#2#true",
        "JSON_RETRO_SWITCH_TASK##2#1",
    ] {
        assert_eq!(parse_command(text).unwrap_err(), "Invalid message", "{}", text);
    }
    for text in
        ["JSON_RETRO_SWITCH_TASK", "JSON_RETRO_SWITCH_TASK#1", "JSON_RETRO_SWITCH_TASK#1#2"]
    {
        assert_eq!(parse_command(text).unwrap_err(), "No task_id parameter found", "{}", text);
    }
}

#[test]
fn numbers() {
    assert_eq!(parse_number("0"), Some(0));
    assert_eq!(parse_number("007"), Some(7));
    assert_eq!(parse_number("+15"), Some(15));
    assert_eq!(parse_number("18446744073709551615"), Some(u64::MAX));
    assert_eq!(parse_number("18446744073709551616"), None);
    assert_eq!(parse_number("99999999999999999999999"), None);
    assert_eq!(parse_number(""), None);
    assert_eq!(parse_number("+"), None);
    assert_eq!(parse_number("++1"), None);
    assert_eq!(parse_number("1+"), None);
    assert_eq!(parse_number("-0"), None);
    assert_eq!(parse_number("12a"), None);
    assert_eq!(parse_number("\u{663}"), None);
    for text in ["0", "12", "+5", "x", "", "340282366920938463463374607431768211456"] {
        assert_eq!(parse_number(text), text.parse::<u64>().ok(), "{}", text);
    }
}

#[test]
fn separators() {
    assert_eq!(find_sep("a#b#c", 0), 1);
    assert_eq!(find_sep("a#b#c", 1), 1);
    assert_eq!(find_sep("a#b#c", 2), 3);
    assert_eq!(find_sep("a#b#c", 4), 5);
    assert_eq!(find_sep("a#b#c", 5), 5);
    assert_eq!(find_sep("\u{e9}\u{e9}#", 0), 2);
    assert_eq!(find_sep("", 0), 0);
}
