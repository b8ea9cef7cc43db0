//! The commands that a client sends to the daemon.

use vstd::prelude::*;
use vstd::std_specs::convert::FromSpecImpl;

verus! {

/// The names of the commands.
#[derive(Clone, Copy, Debug, PartialEq, Eq, Structural)]
pub enum Commands {
    Exit,
    PushTask,
    DisableTask,
    SwitchTask,
    CurrentTask,
    ListTasks,
    JsonPushTask,
    JsonDisableTask,
    JsonSwitchTask,
    JsonRetroSwitchTask,
    JsonState,
    Timesheet,
}

/// A command with its arguments.
#[derive(Debug)]
pub enum OClockClientCommand {
    /// Terminate the server instance
    Exit,
    /// Create a new task
    PushTask { name: String },
    /// Disable the task with the given id
    DisableTask { task_id: u64 },
    /// Switch to the task with the given id
    SwitchTask { task_id: u64 },
    /// Read the current task
    CurrentTask,
    /// List all registered tasks
    ListTasks,
    /// Create a new task and answer with the state
    JsonPushTask { name: String },
    /// Disable the task with the given id and answer with the state
    JsonDisableTask { task_id: u64 },
    /// Switch to the task with the given id and answer with the state
    JsonSwitchTask { task_id: u64 },
    /// Switch to the task with the given id at the given time, and back
    /// to the current task if it is to be kept; answer with the state
    JsonRetroSwitchTask { task_id: u64, timestamp: u64, keep_previous_task: bool },
    /// Read the current state
    JsonState,
    /// Produce the full timesheet
    Timesheet,
}

/// A command as it comes from the command line.
#[derive(Debug)]
pub enum OClockClientCommandArg {
    /// Terminate the server instance
    Exit,
    /// Create a new task
    PushTask { name: String },
    /// Disable the task with the given id
    DisableTask { task_id: u64 },
    /// Switch to the task with the given id
    SwitchTask { task_id: u64 },
    /// Read the current task
    CurrentTask,
    /// List all registered tasks
    ListTasks,
    /// Create a new task and answer with the state
    JsonPushTask { name: String },
    /// Disable the task with the given id and answer with the state
    JsonDisableTask { task_id: u64 },
    /// Switch to the task with the given id and answer with the state
    JsonSwitchTask { task_id: u64 },
    /// Switch to the task with the given id at the given time, and back
    /// to the current task if it is to be kept; answer with the state
    JsonRetroSwitchTask { task_id: u64, timestamp: u64, keep_previous_task: bool },
    /// Read the current state
    JsonState,
    /// Produce the full timesheet
    Timesheet,
}

/// A command as contracts see it: a name is a sequence of characters.
pub enum CommandView {
    Exit,
    PushTask { name: Seq<char> },
    DisableTask { task_id: u64 },
    SwitchTask { task_id: u64 },
    CurrentTask,
    ListTasks,
    JsonPushTask { name: Seq<char> },
    JsonDisableTask { task_id: u64 },
    JsonSwitchTask { task_id: u64 },
    JsonRetroSwitchTask { task_id: u64, timestamp: u64, keep_previous_task: bool },
    JsonState,
    Timesheet,
}

impl View for OClockClientCommand {
    type V = CommandView;

    open spec fn view(&self) -> CommandView {
        match *self {
            OClockClientCommand::Exit => CommandView::Exit,
            OClockClientCommand::PushTask { name } => CommandView::PushTask { name: name@ },
            OClockClientCommand::DisableTask { task_id } => CommandView::DisableTask { task_id },
            OClockClientCommand::SwitchTask { task_id } => CommandView::SwitchTask { task_id },
            OClockClientCommand::CurrentTask => CommandView::CurrentTask,
            OClockClientCommand::ListTasks => CommandView::ListTasks,
            OClockClientCommand::JsonPushTask { name } => CommandView::JsonPushTask {
                name: name@,
            },
            OClockClientCommand::JsonDisableTask { task_id } => CommandView::JsonDisableTask {
                task_id,
            },
            OClockClientCommand::JsonSwitchTask { task_id } => CommandView::JsonSwitchTask {
                task_id,
            },
            OClockClientCommand::JsonRetroSwitchTask {
                task_id,
                timestamp,
                keep_previous_task,
            } => CommandView::JsonRetroSwitchTask { task_id, timestamp, keep_previous_task },
            OClockClientCommand::JsonState => CommandView::JsonState,
            OClockClientCommand::Timesheet => CommandView::Timesheet,
        }
    }
}

impl CommandView {
    /// The name of the command.
    pub open spec fn kind(self) -> Commands {
        match self {
            CommandView::Exit => Commands::Exit,
            CommandView::PushTask { .. } => Commands::PushTask,
            CommandView::DisableTask { .. } => Commands::DisableTask,
            CommandView::SwitchTask { .. } => Commands::SwitchTask,
            CommandView::CurrentTask => Commands::CurrentTask,
            CommandView::ListTasks => Commands::ListTasks,
            CommandView::JsonPushTask { .. } => Commands::JsonPushTask,
            CommandView::JsonDisableTask { .. } => Commands::JsonDisableTask,
            CommandView::JsonSwitchTask { .. } => Commands::JsonSwitchTask,
            CommandView::JsonRetroSwitchTask { .. } => Commands::JsonRetroSwitchTask,
            CommandView::JsonState => Commands::JsonState,
            CommandView::Timesheet => Commands::Timesheet,
        }
    }
}

impl OClockClientCommand {
    /// The name of the command.
    pub fn kind(&self) -> (kind: Commands)
        ensures
            kind == self@.kind(),
    {
        match self {
            OClockClientCommand::Exit => Commands::Exit,
            OClockClientCommand::PushTask { .. } => Commands::PushTask,
            OClockClientCommand::DisableTask { .. } => Commands::DisableTask,
            OClockClientCommand::SwitchTask { .. } => Commands::SwitchTask,
            OClockClientCommand::CurrentTask => Commands::CurrentTask,
            OClockClientCommand::ListTasks => Commands::ListTasks,
            OClockClientCommand::JsonPushTask { .. } => Commands::JsonPushTask,
            OClockClientCommand::JsonDisableTask { .. } => Commands::JsonDisableTask,
            OClockClientCommand::JsonSwitchTask { .. } => Commands::JsonSwitchTask,
            OClockClientCommand::JsonRetroSwitchTask { .. } => Commands::JsonRetroSwitchTask,
            OClockClientCommand::JsonState => Commands::JsonState,
            OClockClientCommand::Timesheet => Commands::Timesheet,
        }
    }
}

impl From<OClockClientCommandArg> for OClockClientCommand {
    fn from(value: OClockClientCommandArg) -> (command: OClockClientCommand) {
        match value {
            OClockClientCommandArg::Exit => OClockClientCommand::Exit,
            OClockClientCommandArg::PushTask { name } => OClockClientCommand::PushTask { name },
            OClockClientCommandArg::DisableTask { task_id } => OClockClientCommand::DisableTask {
                task_id,
            },
            OClockClientCommandArg::SwitchTask { task_id } => OClockClientCommand::SwitchTask {
                task_id,
            },
            OClockClientCommandArg::CurrentTask => OClockClientCommand::CurrentTask,
            OClockClientCommandArg::ListTasks => OClockClientCommand::ListTasks,
            OClockClientCommandArg::JsonPushTask { name } => OClockClientCommand::JsonPushTask {
                name,
            },
            OClockClientCommandArg::JsonDisableTask {
                task_id,
            } => OClockClientCommand::JsonDisableTask { task_id },
            OClockClientCommandArg::JsonSwitchTask {
                task_id,
            } => OClockClientCommand::JsonSwitchTask { task_id },
            OClockClientCommandArg::JsonRetroSwitchTask {
                task_id,
                timestamp,
                keep_previous_task,
            } => OClockClientCommand::JsonRetroSwitchTask {
                task_id,
                timestamp,
                keep_previous_task,
            },
            OClockClientCommandArg::JsonState => OClockClientCommand::JsonState,
            OClockClientCommandArg::Timesheet => OClockClientCommand::Timesheet,
        }
    }
}

impl FromSpecImpl<OClockClientCommandArg> for OClockClientCommand {
    open spec fn obeys_from_spec() -> bool {
        true
    }

    open spec fn from_spec(value: OClockClientCommandArg) -> OClockClientCommand {
        match value {
            OClockClientCommandArg::Exit => OClockClientCommand::Exit,
            OClockClientCommandArg::PushTask { name } => OClockClientCommand::PushTask { name },
            OClockClientCommandArg::DisableTask { task_id } => OClockClientCommand::DisableTask {
                task_id,
            },
            OClockClientCommandArg::SwitchTask { task_id } => OClockClientCommand::SwitchTask {
                task_id,
            },
            OClockClientCommandArg::CurrentTask => OClockClientCommand::CurrentTask,
            OClockClientCommandArg::ListTasks => OClockClientCommand::ListTasks,
            OClockClientCommandArg::JsonPushTask { name } => OClockClientCommand::JsonPushTask {
                name,
            },
            OClockClientCommandArg::JsonDisableTask {
                task_id,
            } => OClockClientCommand::JsonDisableTask { task_id },
            OClockClientCommandArg::JsonSwitchTask {
                task_id,
            } => OClockClientCommand::JsonSwitchTask { task_id },
            OClockClientCommandArg::JsonRetroSwitchTask {
                task_id,
                timestamp,
                keep_previous_task,
            } => OClockClientCommand::JsonRetroSwitchTask {
                task_id,
                timestamp,
                keep_previous_task,
            },
            OClockClientCommandArg::JsonState => OClockClientCommand::JsonState,
            OClockClientCommandArg::Timesheet => OClockClientCommand::Timesheet,
        }
    }
}

} // verus!
