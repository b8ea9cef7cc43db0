//! The daemon's side of the protocol: what each command does to the state
//! and what is answered and broadcast, the framing of replies, and the
//! decisions of the loop that polls for requests and beats the heartbeat.

use crate::command::{CommandView, OClockClientCommand};
use crate::model::{StateError, StorageError, StoreModel};
use crate::render::{csv_lines, tasks_table, timesheet_table, timesheet_to_csv, vec_to_csv};
use crate::state::{switch_at, ExportedState, ExportedStateView, State};
use crate::text::{decimal, push_decimal, push_signed, signed_decimal};
use crate::timesheet::{chronological, task_ids, task_names, timesheet};
use vstd::prelude::*;
use vstd::string::*;

verus! {

/// What the loop does after a look at the request channel.
#[derive(Clone, Copy, Debug, PartialEq, Eq, Structural)]
pub enum MsgListenerStatus {
    Continue,
    Terminate,
    Fail,
}

/// The body of a successful reply: plain text, or a snapshot of the state.
#[derive(Debug)]
pub enum Reply {
    Text(String),
    State(ExportedState),
}

/// The body of a successful reply as contracts see it.
pub enum ReplyView {
    Text(Seq<char>),
    State(ExportedStateView),
}

impl View for Reply {
    type V = ReplyView;

    open spec fn view(&self) -> ReplyView {
        match *self {
            Reply::Text(text) => ReplyView::Text(text@),
            Reply::State(snapshot) => ReplyView::State(snapshot@),
        }
    }
}

/// What a command led to: the reply, or the message of the error, and the
/// snapshot to broadcast to subscribers, if any.
#[derive(Debug)]
pub struct Handled {
    pub reply: Result<Reply, String>,
    pub publish: Option<ExportedState>,
}

/// The outcome of a command as contracts see it.
pub struct HandledView {
    pub reply: Result<ReplyView, Seq<char>>,
    pub publish: Option<ExportedStateView>,
}

impl View for Handled {
    type V = HandledView;

    open spec fn view(&self) -> HandledView {
        HandledView {
            reply: match self.reply {
                Ok(reply) => Ok(reply@),
                Err(message) => Err(message@),
            },
            publish: match self.publish {
                Some(snapshot) => Some(snapshot@),
                None => None,
            },
        }
    }
}

/// The message of a failed operation: what failed, and the error in
/// single quotes.
pub open spec fn failure(what: Seq<char>, error: StateError) -> Seq<char> {
    what + " '"@ + error.text() + "'"@
}

/// The text that reports a new id.
pub open spec fn new_id_text(what: Seq<char>, id: int) -> Seq<char> {
    what + " '"@ + signed_decimal(id) + "'"@
}

/// The text that reports that a task was disabled.
pub open spec fn disabled_text(task_id: u64) -> Seq<char> {
    "Task "@ + decimal(task_id as nat) + " enabled: false"@
}

/// The snapshot of a store: the current task and all tasks, or the error
/// of the current task's lookup.
pub open spec fn snapshot(store: StoreModel) -> Result<ExportedStateView, StateError> {
    match store.current_task() {
        Ok(current_task) => Ok(ExportedStateView { current_task, all_tasks: store.tasks }),
        Err(e) => Err(e),
    }
}

/// The reply that shows the state of a store.
pub open spec fn state_reply(store: StoreModel) -> Result<ReplyView, Seq<char>> {
    match snapshot(store) {
        Ok(s) => Ok(ReplyView::State(s)),
        Err(e) => Err(failure("Error while fetching last task switch"@, e)),
    }
}

/// The snapshot that is broadcast after a change: that of the store, if
/// it can be taken.
pub open spec fn broadcast(store: StoreModel) -> Option<ExportedStateView> {
    match snapshot(store) {
        Ok(s) => Some(s),
        Err(_) => None,
    }
}

/// Whether the store has room for what a command inserts.
pub open spec fn has_room(command: CommandView, store: StoreModel) -> bool {
    match command {
        CommandView::PushTask { .. } | CommandView::JsonPushTask { .. } => store.has_task_id(),
        CommandView::SwitchTask { .. } | CommandView::JsonSwitchTask { .. } => store.has_event_id(),
        CommandView::JsonRetroSwitchTask { keep_previous_task, .. } => store.next_event_id
            + store.retro_inserts(keep_previous_task) <= crate::model::ID_LIMIT,
        _ => true,
    }
}

/// Whether a command changes the state when it succeeds.
pub open spec fn is_mutation(command: CommandView) -> bool {
    match command {
        CommandView::PushTask { .. }
        | CommandView::DisableTask { .. }
        | CommandView::SwitchTask { .. }
        | CommandView::JsonPushTask { .. }
        | CommandView::JsonDisableTask { .. }
        | CommandView::JsonSwitchTask { .. }
        | CommandView::JsonRetroSwitchTask { .. } => true,
        _ => false,
    }
}

/// The store after a command that arrived at `now`. A command for which
/// the store has no room changes nothing.
pub open spec fn store_after(command: CommandView, store: StoreModel, now: i32) -> StoreModel {
    if !has_room(command, store) {
        store
    } else {
        match command {
            CommandView::PushTask { name } | CommandView::JsonPushTask { name } => store.with_task(
                name,
            ),
            CommandView::DisableTask { task_id }
            | CommandView::JsonDisableTask { task_id } => store.with_task_enabled(
                (task_id as i32) as int,
                false,
            ),
            CommandView::SwitchTask { task_id }
            | CommandView::JsonSwitchTask { task_id } => store.with_event(
                switch_at(task_id as i32, now),
            ),
            CommandView::JsonRetroSwitchTask {
                task_id,
                timestamp,
                keep_previous_task,
            } => store.retro_switched(task_id as i32, timestamp as i32, keep_previous_task, now),
            _ => store,
        }
    }
}

/// The snapshot that a command has broadcast: that of the new state after
/// a change that succeeded, none otherwise.
pub open spec fn publish_after(command: CommandView, store: StoreModel, now: i32) -> Option<
    ExportedStateView,
> {
    if is_mutation(command) && has_room(command, store) {
        broadcast(store_after(command, store, now))
    } else {
        None
    }
}

/// The message of a command for which the store has no room.
pub open spec fn no_room_message(command: CommandView) -> Seq<char> {
    let error = StateError::Storage(StorageError::IdsExhausted);
    match command {
        CommandView::PushTask { .. } | CommandView::JsonPushTask { .. } => failure(
            "Error during task insert"@,
            error,
        ),
        CommandView::JsonRetroSwitchTask { .. } => failure(
            "Error during retroactive task switch"@,
            error,
        ),
        _ => failure("Error during task switch"@, error),
    }
}

/// The reply to a command that arrived at `now`, but for the two commands
/// that answer with CSV.
pub open spec fn reply_to(command: CommandView, store: StoreModel, now: i32) -> Result<
    ReplyView,
    Seq<char>,
> {
    let after = store_after(command, store, now);
    if !has_room(command, store) {
        Err(no_room_message(command))
    } else {
        match command {
            CommandView::Exit => Ok(ReplyView::Text("bye bye..."@)),
            CommandView::CurrentTask => match store.current_task() {
                Ok(Some(task)) => Ok(ReplyView::Text(task.name)),
                Ok(None) => Ok(ReplyView::Text("None"@)),
                Err(e) => Err(failure("Error while fetching last task switch"@, e)),
            },
            CommandView::PushTask { .. } => Ok(
                ReplyView::Text(new_id_text("New task id"@, store.next_task_id)),
            ),
            CommandView::DisableTask { task_id } => Ok(ReplyView::Text(disabled_text(task_id))),
            CommandView::SwitchTask { .. } => Ok(
                ReplyView::Text(new_id_text("New event id"@, store.next_event_id)),
            ),
            _ => state_reply(after),
        }
    }
}

/// Whether a reply is the table as CSV, or the error that is answered
/// where the table is not written.
pub open spec fn is_csv_answer(table: Seq<Seq<Seq<char>>>, reply: Result<ReplyView, Seq<char>>) -> bool {
    reply == match csv_lines(table) {
        Some(text) => Ok::<ReplyView, Seq<char>>(ReplyView::Text(text)),
        None => Err::<ReplyView, Seq<char>>("Error generating csv"@),
    }
}

/// Whether `reply` answers a command that arrived at `now`, the timesheet
/// being made for a zone `utc_offset` seconds east of UTC.
pub open spec fn answers(
    command: CommandView,
    store: StoreModel,
    now: i32,
    utc_offset: int,
    reply: Result<ReplyView, Seq<char>>,
) -> bool {
    match command {
        CommandView::ListTasks => is_csv_answer(tasks_table(store.tasks), reply),
        CommandView::Timesheet => is_csv_answer(
            timesheet_table(
                task_names(store.tasks),
                timesheet(
                    chronological(crate::model::without_pings(store.events)),
                    task_ids(store.tasks),
                    utc_offset,
                ),
            ),
            reply,
        ),
        _ => reply == reply_to(command, store, now),
    }
}

/// The reply that carries CSV, or the error where none could be written.
pub fn csv_reply(text: Option<String>) -> (reply: Result<Reply, String>)
    ensures
        match text {
            Some(t) => reply matches Ok(r) && r@ == ReplyView::Text(t@),
            None => reply matches Err(m) && m@ == "Error generating csv"@,
        },
{
    match text {
        Some(t) => Ok(Reply::Text(t)),
        None => Err(String::from_str("Error generating csv")),
    }
}

/// The message of a failed operation.
pub fn failure_message(what: &str, error: &StateError) -> (message: String)
    ensures
        message@ == failure(what@, *error),
{
    let mut message = String::from_str(what);
    message.append(" '");
    message.append(error.to_string().as_str());
    message.append("'");
    proof {
        assert(message@ =~= failure(what@, *error));
    }
    message
}

/// The text that reports a new id.
pub fn new_id_message(what: &str, id: i32) -> (message: String)
    ensures
        message@ == new_id_text(what@, id as int),
{
    let mut message = String::from_str(what);
    message.append(" '");
    push_signed(&mut message, id as i64);
    message.append("'");
    proof {
        assert(message@ =~= new_id_text(what@, id as int));
    }
    message
}

/// The reply that shows the state.
pub fn compute_state(state: &State) -> (reply: Result<Reply, String>)
    requires
        state.wf(),
    ensures
        match reply {
            Ok(r) => state_reply(state@) == Ok::<ReplyView, Seq<char>>(r@),
            Err(m) => state_reply(state@) == Err::<ReplyView, Seq<char>>(m@),
        },
{
    match state.get_state() {
        Ok(snapshot) => {
            proof {
                assert(snapshot@ =~= ExportedStateView {
                    current_task: snapshot@.current_task,
                    all_tasks: state@.tasks,
                });
            }
            Ok(Reply::State(snapshot))
        },
        Err(e) => Err(failure_message("Error while fetching last task switch", &e)),
    }
}

/// The snapshot to broadcast after a change, if it can be taken.
pub fn pub_state(state: &State) -> (snapshot: Option<ExportedState>)
    requires
        state.wf(),
    ensures
        match snapshot {
            Some(s) => broadcast(state@) == Some(s@),
            None => broadcast(state@).is_none(),
        },
{
    match state.get_state() {
        Ok(snapshot) => {
            proof {
                assert(snapshot@ =~= ExportedStateView {
                    current_task: snapshot@.current_task,
                    all_tasks: state@.tasks,
                });
            }
            Some(snapshot)
        },
        Err(_) => None,
    }
}

/// Carries out a command that arrived at `now`. The timesheet is made for
/// a zone `utc_offset` seconds east of UTC.
///
/// A command that changes the state and succeeds has the new state
/// broadcast. The commands whose name begins with `Json` answer with the
/// state as it is after the change; the others answer with plain text.
pub fn handle_msg(msg: OClockClientCommand, state: &mut State, now: i32, utc_offset: i32) -> (handled:
    Handled)
    requires
        old(state).wf(),
    ensures
        final(state).wf(),
        final(state)@ == store_after(msg@, old(state)@, now),
        handled@.publish == publish_after(msg@, old(state)@, now),
        answers(msg@, old(state)@, now, utc_offset as int, handled@.reply),
{
    match msg {
        OClockClientCommand::Exit => Handled {
            reply: Ok(Reply::Text(String::from_str("bye bye..."))),
            publish: None,
        },
        OClockClientCommand::CurrentTask => {
            let reply = match state.get_current_task() {
                Ok(Some(task)) => Ok(Reply::Text(task.name)),
                Ok(None) => Ok(Reply::Text(String::from_str("None"))),
                Err(e) => Err(failure_message("Error while fetching last task switch", &e)),
            };
            Handled { reply, publish: None }
        },
        OClockClientCommand::ListTasks => {
            let tasks = state.list_tasks();
            Handled { reply: csv_reply(vec_to_csv(&tasks)), publish: None }
        },
        OClockClientCommand::Timesheet => {
            let (tasks, records) = state.full_timesheet(utc_offset);
            Handled { reply: csv_reply(timesheet_to_csv(&tasks, &records)), publish: None }
        },
        OClockClientCommand::PushTask { name } => {
            match state.new_task(name) {
                Ok(id) => Handled {
                    reply: Ok(Reply::Text(new_id_message("New task id", id))),
                    publish: pub_state(state),
                },
                Err(e) => Handled {
                    reply: Err(failure_message("Error during task insert", &e)),
                    publish: None,
                },
            }
        },
        OClockClientCommand::DisableTask { task_id } => {
            let _ = state.change_task_enabled_flag(task_id, false);
            let mut text = String::from_str("Task ");
            push_decimal(&mut text, task_id);
            text.append(" enabled: false");
            proof {
                assert(text@ =~= disabled_text(task_id));
            }
            Handled { reply: Ok(Reply::Text(text)), publish: pub_state(state) }
        },
        OClockClientCommand::SwitchTask { task_id } => {
            match state.switch_task(task_id, now) {
                Ok(id) => Handled {
                    reply: Ok(Reply::Text(new_id_message("New event id", id))),
                    publish: pub_state(state),
                },
                Err(e) => Handled {
                    reply: Err(failure_message("Error during task switch", &e)),
                    publish: None,
                },
            }
        },
        OClockClientCommand::JsonPushTask { name } => {
            match state.new_task(name) {
                Ok(_) => Handled { reply: compute_state(state), publish: pub_state(state) },
                Err(e) => Handled {
                    reply: Err(failure_message("Error during task insert", &e)),
                    publish: None,
                },
            }
        },
        OClockClientCommand::JsonDisableTask { task_id } => {
            let _ = state.change_task_enabled_flag(task_id, false);
            Handled { reply: compute_state(state), publish: pub_state(state) }
        },
        OClockClientCommand::JsonSwitchTask { task_id } => {
            match state.switch_task(task_id, now) {
                Ok(_) => Handled { reply: compute_state(state), publish: pub_state(state) },
                Err(e) => Handled {
                    reply: Err(failure_message("Error during task switch", &e)),
                    publish: None,
                },
            }
        },
        OClockClientCommand::JsonRetroSwitchTask { task_id, timestamp, keep_previous_task } => {
            match state.retro_switch_task(
                #[verifier::truncate]
                (task_id as i32),
                #[verifier::truncate]
                (timestamp as i32),
                keep_previous_task,
                now,
            ) {
                Ok(_) => Handled { reply: compute_state(state), publish: pub_state(state) },
                Err(e) => Handled {
                    reply: Err(failure_message("Error during retroactive task switch", &e)),
                    publish: None,
                },
            }
        },
        OClockClientCommand::JsonState => Handled { reply: compute_state(state), publish: None },
    }
}

/// A reply as it goes over the wire: `OK#` before the payload of a
/// success, `ERR#` before the message of a failure.
pub open spec fn framed(outcome: Result<Seq<char>, Seq<char>>) -> Seq<char> {
    match outcome {
        Ok(payload) => "OK#"@ + payload,
        Err(message) => "ERR#"@ + message,
    }
}

/// Frames a reply for the wire.
pub fn frame_reply(outcome: Result<&str, &str>) -> (reply: String)
    ensures
        reply@ == framed(
            match outcome {
                Ok(payload) => Ok(payload@),
                Err(message) => Err(message@),
            },
        ),
{
    match outcome {
        Ok(payload) => {
            let mut reply = String::from_str("OK#");
            reply.append(payload);
            reply
        },
        Err(message) => {
            let mut reply = String::from_str("ERR#");
            reply.append(message);
            reply
        },
    }
}

/// What a look at the request channel led to: what the loop does next,
/// and the outcome of the request, if one arrived.
#[derive(Debug)]
pub struct Listened {
    pub status: MsgListenerStatus,
    pub handled: Option<Handled>,
}

/// Serves what a look at the request channel brought at `now`: nothing, a
/// request that could not be decoded, or a command.
///
/// Without a request nothing happens and the loop continues. A request
/// that cannot be decoded is answered with an error and leaves the state
/// as it is. A command is carried out; `Exit` terminates the loop.
pub fn nanomsg_listen(
    received: Option<Result<OClockClientCommand, String>>,
    state: &mut State,
    now: i32,
    utc_offset: i32,
) -> (listened: Listened)
    requires
        old(state).wf(),
    ensures
        final(state).wf(),
        match received {
            None => {
                &&& listened.status == MsgListenerStatus::Continue
                &&& listened.handled.is_none()
                &&& final(state)@ == old(state)@
            },
            Some(Err(_)) => {
                &&& listened.handled matches Some(h)
                &&& h@ == (HandledView { reply: Err("Invalid message"@), publish: None })
                &&& listened.status == MsgListenerStatus::Fail
                &&& final(state)@ == old(state)@
            },
            Some(Ok(msg)) => {
                &&& listened.handled matches Some(h)
                &&& h@.publish == publish_after(msg@, old(state)@, now)
                &&& answers(msg@, old(state)@, now, utc_offset as int, h@.reply)
                &&& listened.status == if msg@ == CommandView::Exit {
                    MsgListenerStatus::Terminate
                } else {
                    MsgListenerStatus::Continue
                }
                &&& final(state)@ == store_after(msg@, old(state)@, now)
            },
        },
{
    match received {
        None => Listened { status: MsgListenerStatus::Continue, handled: None },
        Some(Err(_)) => Listened {
            status: MsgListenerStatus::Fail,
            handled: Some(
                Handled { reply: Err(String::from_str("Invalid message")), publish: None },
            ),
        },
        Some(Ok(msg)) => {
            let status = match msg {
                OClockClientCommand::Exit => MsgListenerStatus::Terminate,
                _ => MsgListenerStatus::Continue,
            };
            let handled = handle_msg(msg, state, now, utc_offset);
            Listened { status, handled: Some(handled) }
        },
    }
}

/// The minute, counted from the epoch, in which a timestamp falls.
pub open spec fn minute_of(timestamp: int) -> int {
    timestamp / 60
}

/// The times at which the loop last did its two periodic actions: the
/// look at the request channel, due once in every second, and the
/// heartbeat, due once in every minute.
#[derive(Clone, Copy, Debug, PartialEq, Eq, Structural)]
pub struct Agenda {
    pub last_poll: i32,
    pub last_beat: i32,
}

/// Which of the periodic actions are due.
#[derive(Clone, Copy, Debug, PartialEq, Eq, Structural)]
pub struct Due {
    pub poll: bool,
    pub heartbeat: bool,
}

/// The minute in which a timestamp falls.
pub fn minute_number(timestamp: i32) -> (minute: i32)
    ensures
        minute == minute_of(timestamp as int),
{
    let lifted: i64 = timestamp as i64 + 60 * 35791395;
    ((lifted / 60) - 35791395) as i32
}

impl Agenda {
    /// The agenda of a loop that starts at `now`: both actions were just
    /// done.
    pub fn new(now: i32) -> (agenda: Agenda)
        ensures
            agenda == (Agenda { last_poll: now, last_beat: now }),
    {
        Agenda { last_poll: now, last_beat: now }
    }

    /// Which actions are due at `now`.
    pub open spec fn due(self, now: i32) -> Due {
        Due {
            poll: self.last_poll < now,
            heartbeat: minute_of(self.last_beat as int) < minute_of(now as int),
        }
    }

    /// The agenda after the actions that are due at `now` were done.
    pub open spec fn after(self, now: i32) -> Agenda {
        Agenda {
            last_poll: if self.due(now).poll {
                now
            } else {
                self.last_poll
            },
            last_beat: if self.due(now).heartbeat {
                now
            } else {
                self.last_beat
            },
        }
    }

    /// Says which actions are due at `now`, and notes them as done.
    pub fn run_pending(&mut self, now: i32) -> (due: Due)
        ensures
            due == old(self).due(now),
            *final(self) == old(self).after(now),
    {
        let poll = self.last_poll < now;
        let heartbeat = minute_number(self.last_beat) < minute_number(now);
        if poll {
            self.last_poll = now;
        }
        if heartbeat {
            self.last_beat = now;
        }
        Due { poll, heartbeat }
    }
}

/// The start of a tick of the loop at `now`: says which periodic actions
/// are due, and beats the heartbeat if it is due. The look at the request
/// channel is left to the caller.
pub fn tick(agenda: &mut Agenda, state: &mut State, now: i32) -> (due: Due)
    requires
        old(state).wf(),
    ensures
        final(state).wf(),
        due == old(agenda).due(now),
        *final(agenda) == old(agenda).after(now),
        final(state)@ == if due.heartbeat {
            old(state)@.with_system_events_at(crate::model::SystemEventType::Ping, now)
        } else {
            old(state)@
        },
{
    let due = agenda.run_pending(now);
    if due.heartbeat {
        state.ping(now);
    }
    due
}

/// Whether the loop goes on after a tick: until a command terminates it
/// or the process is interrupted. A request that could not be decoded
/// does not stop it.
pub fn keep_running(status: MsgListenerStatus, interrupted: bool) -> (go_on: bool)
    ensures
        go_on == (status != MsgListenerStatus::Terminate && !interrupted),
{
    status != MsgListenerStatus::Terminate && !interrupted
}

} // verus!
