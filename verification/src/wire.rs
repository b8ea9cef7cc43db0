//! Commands as lines of text: the command's name in capitals, then its
//! arguments, each behind a `#`.

use crate::command::{CommandView, Commands, OClockClientCommand};
use crate::text::{decimal, push_decimal};
use vstd::prelude::*;
use vstd::string::*;

verus! {

/// The separator between a command's name and its arguments.
pub const SEP: char = '#';

/// What the `inflector` crate's `to_screaming_snake_case` makes of a text:
/// its words in capitals with underscores between them.
pub uninterp spec fn screaming_snake_case(text: Seq<char>) -> Seq<char>;

/// Calls `inflector::cases::screamingsnakecase::to_screaming_snake_case`.
#[verifier::external_body]
fn to_screaming_snake(text: &str) -> (shouted: String)
    ensures
        shouted@ == screaming_snake_case(text@),
{
    inflector::cases::screamingsnakecase::to_screaming_snake_case(text)
}

/// Serializes the unit value with `serde_json::to_string`, which writes
/// it as `null`.
#[verifier::external_body]
fn json_of_unit() -> (json: String)
    ensures
        json@ == "null"@,
{
    serde_json::to_string(&()).unwrap_or_default()
}

impl Commands {
    /// The name of the variant as it is written in the source.
    pub open spec fn variant(self) -> Seq<char> {
        match self {
            Commands::Exit => "Exit"@,
            Commands::PushTask => "PushTask"@,
            Commands::DisableTask => "DisableTask"@,
            Commands::SwitchTask => "SwitchTask"@,
            Commands::CurrentTask => "CurrentTask"@,
            Commands::ListTasks => "ListTasks"@,
            Commands::JsonPushTask => "JsonPushTask"@,
            Commands::JsonDisableTask => "JsonDisableTask"@,
            Commands::JsonSwitchTask => "JsonSwitchTask"@,
            Commands::JsonRetroSwitchTask => "JsonRetroSwitchTask"@,
            Commands::JsonState => "JsonState"@,
            Commands::Timesheet => "Timesheet"@,
        }
    }

    /// The name of the command on the wire: the variant's name in
    /// capitals with underscores.
    pub open spec fn name(self) -> Seq<char> {
        screaming_snake_case(self.variant())
    }

    /// The name of the command on the wire.
    pub fn to_string(&self) -> (name: String)
        ensures
            name@ == self.name(),
    {
        let variant = match self {
            Commands::Exit => "Exit",
            Commands::PushTask => "PushTask",
            Commands::DisableTask => "DisableTask",
            Commands::SwitchTask => "SwitchTask",
            Commands::CurrentTask => "CurrentTask",
            Commands::ListTasks => "ListTasks",
            Commands::JsonPushTask => "JsonPushTask",
            Commands::JsonDisableTask => "JsonDisableTask",
            Commands::JsonSwitchTask => "JsonSwitchTask",
            Commands::JsonRetroSwitchTask => "JsonRetroSwitchTask",
            Commands::JsonState => "JsonState",
            Commands::Timesheet => "Timesheet",
        };
        to_screaming_snake(variant)
    }
}

impl CommandView {
    /// The command as a line of text.
    pub open spec fn text(self) -> Seq<char> {
        match self {
            CommandView::Exit => "EXIT"@,
            CommandView::PushTask { name } => "PUSH_TASK#"@ + name,
            CommandView::DisableTask { task_id } => "DISABLE_TASK#"@ + decimal(task_id as nat),
            CommandView::SwitchTask { task_id } => "SWITCH_TASK#"@ + decimal(task_id as nat),
            CommandView::CurrentTask => "CURRENT_TASK"@,
            CommandView::ListTasks => "LIST_TASKS"@,
            CommandView::JsonPushTask { name } => "JSON_PUSH_TASK#"@ + name,
            CommandView::JsonDisableTask { task_id } => "JSON_DISABLE_TASK#"@ + decimal(
                task_id as nat,
            ),
            CommandView::JsonSwitchTask { task_id } => "JSON_SWITCH_TASK#"@ + decimal(
                task_id as nat,
            ),
            CommandView::JsonRetroSwitchTask {
                task_id,
                timestamp,
                keep_previous_task,
            } => "JSON_RETRO_SWITCH_TASK#"@ + decimal(task_id as nat) + "#"@ + decimal(
                timestamp as nat,
            ) + "#"@ + (if keep_previous_task {
                "1"@
            } else {
                "0"@
            }),
            CommandView::JsonState => "JSON_STATE#"@ + "null"@,
            CommandView::Timesheet => "TIMESHEET"@,
        }
    }
}

/// A name followed by a number.
fn with_number(head: &str, number: u64) -> (line: String)
    ensures
        line@ == head@ + decimal(number as nat),
{
    let mut line = String::from_str(head);
    push_decimal(&mut line, number);
    line
}

/// A name followed by a text.
fn with_text(head: &str, text: &str) -> (line: String)
    ensures
        line@ == head@ + text@,
{
    let mut line = String::from_str(head);
    line.append(text);
    line
}

impl OClockClientCommand {
    /// The command as a line of text.
    pub fn to_string(&self) -> (line: String)
        ensures
            line@ == self@.text(),
    {
        match self {
            OClockClientCommand::Exit => String::from_str("EXIT"),
            OClockClientCommand::PushTask { name } => with_text("PUSH_TASK#", name.as_str()),
            OClockClientCommand::DisableTask { task_id } => with_number("DISABLE_TASK#", *task_id),
            OClockClientCommand::SwitchTask { task_id } => with_number("SWITCH_TASK#", *task_id),
            OClockClientCommand::CurrentTask => String::from_str("CURRENT_TASK"),
            OClockClientCommand::ListTasks => String::from_str("LIST_TASKS"),
            OClockClientCommand::JsonPushTask { name } => with_text(
                "JSON_PUSH_TASK#",
                name.as_str(),
            ),
            OClockClientCommand::JsonDisableTask { task_id } => with_number(
                "JSON_DISABLE_TASK#",
                *task_id,
            ),
            OClockClientCommand::JsonSwitchTask { task_id } => with_number(
                "JSON_SWITCH_TASK#",
                *task_id,
            ),
            OClockClientCommand::JsonRetroSwitchTask { task_id, timestamp, keep_previous_task } => {
                let mut line = with_number("JSON_RETRO_SWITCH_TASK#", *task_id);
                line.append("#");
                push_decimal(&mut line, *timestamp);
                line.append("#");
                line.append(
                    if *keep_previous_task {
                        "1"
                    } else {
                        "0"
                    },
                );
                line
            },
            OClockClientCommand::JsonState => with_text("JSON_STATE#", json_of_unit().as_str()),
            OClockClientCommand::Timesheet => String::from_str("TIMESHEET"),
        }
    }
}

/// The place of the first separator at or behind `from`, or the length of
/// the text where there is none.
pub open spec fn sep_from(text: Seq<char>, from: int) -> int
    decreases text.len() - from,
{
    if from >= text.len() {
        text.len() as int
    } else if text[from] == SEP {
        from
    } else {
        sep_from(text, from + 1)
    }
}

/// The piece of the text that begins at `from` and ends before the next
/// separator.
pub open spec fn piece(text: Seq<char>, from: int) -> Seq<char> {
    text.subrange(from, sep_from(text, from))
}

/// Where the piece behind the piece at `from` begins, if there is one.
pub open spec fn next_piece(text: Seq<char>, from: int) -> Option<int> {
    if sep_from(text, from) < text.len() {
        Some(sep_from(text, from) + 1)
    } else {
        None
    }
}

/// All of the text behind the first separator; empty where there is none.
pub open spec fn arguments(text: Seq<char>) -> Seq<char> {
    match next_piece(text, 0) {
        Some(from) => text.subrange(from, text.len() as int),
        None => Seq::empty(),
    }
}

/// The value of a decimal digit.
pub open spec fn digit_value(c: char) -> Option<int> {
    if c == '0' {
        Some(0)
    } else if c == '1' {
        Some(1)
    } else if c == '2' {
        Some(2)
    } else if c == '3' {
        Some(3)
    } else if c == '4' {
        Some(4)
    } else if c == '5' {
        Some(5)
    } else if c == '6' {
        Some(6)
    } else if c == '7' {
        Some(7)
    } else if c == '8' {
        Some(8)
    } else if c == '9' {
        Some(9)
    } else {
        None
    }
}

/// The value of a run of decimal digits; of no digit, zero.
pub open spec fn digits_value(digits: Seq<char>) -> Option<int>
    decreases digits.len(),
{
    if digits.len() == 0 {
        Some(0)
    } else {
        match (digits_value(digits.drop_last()), digit_value(digits.last())) {
            (Some(v), Some(d)) => Some(v * 10 + d),
            _ => None,
        }
    }
}

/// The number that a text denotes: decimal digits, at least one, with at
/// most a plus sign before them, of a value that fits in 64 bits.
pub open spec fn number(text: Seq<char>) -> Option<u64> {
    let digits = if text.len() > 0 && text[0] == '+' {
        text.drop_first()
    } else {
        text
    };
    if digits.len() == 0 {
        None
    } else {
        match digits_value(digits) {
            Some(v) => if v <= u64::MAX {
                Some(v as u64)
            } else {
                None
            },
            None => None,
        }
    }
}

/// The command whose name on the wire is `word`, if it is one.
pub open spec fn named_command(word: Seq<char>) -> Option<Commands> {
    if word == Commands::Exit.name() {
        Some(Commands::Exit)
    } else if word == Commands::CurrentTask.name() {
        Some(Commands::CurrentTask)
    } else if word == Commands::ListTasks.name() {
        Some(Commands::ListTasks)
    } else if word == Commands::Timesheet.name() {
        Some(Commands::Timesheet)
    } else if word == Commands::PushTask.name() {
        Some(Commands::PushTask)
    } else if word == Commands::DisableTask.name() {
        Some(Commands::DisableTask)
    } else if word == Commands::SwitchTask.name() {
        Some(Commands::SwitchTask)
    } else if word == Commands::JsonPushTask.name() {
        Some(Commands::JsonPushTask)
    } else if word == Commands::JsonDisableTask.name() {
        Some(Commands::JsonDisableTask)
    } else if word == Commands::JsonSwitchTask.name() {
        Some(Commands::JsonSwitchTask)
    } else if word == Commands::JsonRetroSwitchTask.name() {
        Some(Commands::JsonRetroSwitchTask)
    } else if word == Commands::JsonState.name() {
        Some(Commands::JsonState)
    } else {
        None
    }
}

/// A command that takes a task id, with the id that its argument denotes.
pub open spec fn with_task_id(kind: Commands, argument: Seq<char>) -> Result<
    CommandView,
    Seq<char>,
> {
    match number(argument) {
        Some(task_id) => Ok(
            match kind {
                Commands::DisableTask => CommandView::DisableTask { task_id },
                Commands::SwitchTask => CommandView::SwitchTask { task_id },
                Commands::JsonDisableTask => CommandView::JsonDisableTask { task_id },
                _ => CommandView::JsonSwitchTask { task_id },
            },
        ),
        None => Err("Invalid message"@),
    }
}

/// A retroactive switch with the task, the timestamp and the flag that
/// the first three arguments denote; the flag is set by a number above
/// zero.
pub open spec fn retro_switch(text: Seq<char>) -> Result<CommandView, Seq<char>> {
    match next_piece(text, 0) {
        None => Err("No task_id parameter found"@),
        Some(first) => match number(piece(text, first)) {
            None => Err("Invalid message"@),
            Some(task_id) => match next_piece(text, first) {
                None => Err("No task_id parameter found"@),
                Some(second) => match number(piece(text, second)) {
                    None => Err("Invalid message"@),
                    Some(timestamp) => match next_piece(text, second) {
                        None => Err("No task_id parameter found"@),
                        Some(third) => match number(piece(text, third)) {
                            None => Err("Invalid message"@),
                            Some(flag) => Ok(
                                CommandView::JsonRetroSwitchTask {
                                    task_id,
                                    timestamp,
                                    keep_previous_task: flag > 0,
                                },
                            ),
                        },
                    },
                },
            },
        },
    }
}

/// The command that a line of text denotes, or the message of what is
/// wrong with the line.
pub open spec fn parsed(text: Seq<char>) -> Result<CommandView, Seq<char>> {
    match named_command(piece(text, 0)) {
        None => Err("Not recognized"@),
        Some(kind) => match kind {
            Commands::Exit => Ok(CommandView::Exit),
            Commands::CurrentTask => Ok(CommandView::CurrentTask),
            Commands::ListTasks => Ok(CommandView::ListTasks),
            Commands::Timesheet => Ok(CommandView::Timesheet),
            Commands::JsonState => Ok(CommandView::JsonState),
            Commands::PushTask => Ok(CommandView::PushTask { name: arguments(text) }),
            Commands::JsonPushTask => Ok(CommandView::JsonPushTask { name: arguments(text) }),
            Commands::JsonRetroSwitchTask => retro_switch(text),
            _ => with_task_id(kind, arguments(text)),
        },
    }
}

/// A run of digits that has a value has one at every shorter length, and
/// the value never shrinks as the run grows.
pub proof fn lemma_digits_prefix(digits: Seq<char>, n: int)
    requires
        0 <= n <= digits.len(),
        digits_value(digits).is_some(),
    ensures
        digits_value(digits.take(n)).is_some(),
        0 <= digits_value(digits.take(n)).unwrap() <= digits_value(digits).unwrap(),
    decreases digits.len() - n,
{
    if n == digits.len() {
        assert(digits.take(n) =~= digits);
        lemma_digits_nonnegative(digits);
    } else {
        lemma_digits_prefix(digits.drop_last(), n);
        assert(digits.drop_last().take(n) =~= digits.take(n));
        lemma_digits_nonnegative(digits.drop_last());
    }
}

/// The value of a run of digits is not negative.
pub proof fn lemma_digits_nonnegative(digits: Seq<char>)
    ensures
        digits_value(digits) matches Some(v) ==> v >= 0,
    decreases digits.len(),
{
    if digits.len() > 0 {
        lemma_digits_nonnegative(digits.drop_last());
    }
}

/// The value of a decimal digit.
pub fn digit_of(c: char) -> (d: Option<u64>)
    ensures
        match d {
            Some(v) => digit_value(c) == Some(v as int),
            None => digit_value(c).is_none(),
        },
{
    if c == '0' {
        Some(0)
    } else if c == '1' {
        Some(1)
    } else if c == '2' {
        Some(2)
    } else if c == '3' {
        Some(3)
    } else if c == '4' {
        Some(4)
    } else if c == '5' {
        Some(5)
    } else if c == '6' {
        Some(6)
    } else if c == '7' {
        Some(7)
    } else if c == '8' {
        Some(8)
    } else if c == '9' {
        Some(9)
    } else {
        None
    }
}

/// The number that a text denotes, if it denotes one.
pub fn parse_number(text: &str) -> (n: Option<u64>)
    ensures
        n == number(text@),
{
    let len = text.unicode_len();
    let start: usize = if len > 0 && text.get_char(0) == '+' {
        1
    } else {
        0
    };
    if start == len {
        return None;
    }
    let ghost digits = text@.subrange(start as int, len as int);
    proof {
        if start == 1 {
            assert(digits =~= text@.drop_first());
        } else {
            assert(digits =~= text@);
        }
    }
    let mut value: u64 = 0;
    let mut i: usize = start;
    while i < len
        invariant
            start <= i <= len,
            len == text@.len(),
            digits == text@.subrange(start as int, len as int),
            digits_value(digits.take(i - start)) == Some(value as int),
            number(text@) == match digits_value(digits) {
                Some(v) => if v <= u64::MAX {
                    Some(v as u64)
                } else {
                    None
                },
                None => None,
            },
        decreases len - i,
    {
        let c = text.get_char(i);
        proof {
            assert(digits.take(i - start + 1).drop_last() =~= digits.take(i - start));
            assert(digits.take(i - start + 1).last() == c);
        }
        match digit_of(c) {
            Some(d) => {
                if value > (u64::MAX - d) / 10 {
                    proof {
                        if digits_value(digits).is_some() {
                            lemma_digits_prefix(digits, i - start + 1);
                        }
                    }
                    return None;
                }
                value = value * 10 + d;
            },
            None => {
                proof {
                    if digits_value(digits).is_some() {
                        lemma_digits_prefix(digits, i - start + 1);
                    }
                }
                return None;
            },
        }
        i += 1;
    }
    proof {
        assert(digits.take(i - start) =~= digits);
    }
    Some(value)
}

/// The place of the first separator at or behind `from`.
pub fn find_sep(text: &str, from: usize) -> (at: usize)
    requires
        from <= text@.len(),
    ensures
        at == sep_from(text@, from as int),
        from <= at <= text@.len(),
{
    let len = text.unicode_len();
    let mut i: usize = from;
    while i < len && text.get_char(i) != SEP
        invariant
            from <= i <= len,
            len == text@.len(),
            sep_from(text@, i as int) == sep_from(text@, from as int),
        decreases len - i,
    {
        i += 1;
    }
    i
}

/// The command of that name on the wire, if there is one.
pub fn command_named(word: &str) -> (kind: Option<Commands>)
    ensures
        kind == named_command(word@),
{
    let word = String::from_str(word);
    if word == Commands::Exit.to_string() {
        Some(Commands::Exit)
    } else if word == Commands::CurrentTask.to_string() {
        Some(Commands::CurrentTask)
    } else if word == Commands::ListTasks.to_string() {
        Some(Commands::ListTasks)
    } else if word == Commands::Timesheet.to_string() {
        Some(Commands::Timesheet)
    } else if word == Commands::PushTask.to_string() {
        Some(Commands::PushTask)
    } else if word == Commands::DisableTask.to_string() {
        Some(Commands::DisableTask)
    } else if word == Commands::SwitchTask.to_string() {
        Some(Commands::SwitchTask)
    } else if word == Commands::JsonPushTask.to_string() {
        Some(Commands::JsonPushTask)
    } else if word == Commands::JsonDisableTask.to_string() {
        Some(Commands::JsonDisableTask)
    } else if word == Commands::JsonSwitchTask.to_string() {
        Some(Commands::JsonSwitchTask)
    } else if word == Commands::JsonRetroSwitchTask.to_string() {
        Some(Commands::JsonRetroSwitchTask)
    } else if word == Commands::JsonState.to_string() {
        Some(Commands::JsonState)
    } else {
        None
    }
}

/// The number that the piece at `from` denotes, and where the next piece
/// begins.
fn number_piece(text: &str, from: usize) -> (r: (Option<u64>, Option<usize>))
    requires
        from <= text@.len(),
    ensures
        r.0 == number(piece(text@, from as int)),
        match r.1 {
            Some(next) => next_piece(text@, from as int) == Some(next as int) && next
                <= text@.len(),
            None => next_piece(text@, from as int).is_none(),
        },
{
    let at = find_sep(text, from);
    let n = parse_number(text.substring_char(from, at));
    let next = if at < text.unicode_len() {
        Some(at + 1)
    } else {
        None
    };
    (n, next)
}

/// Reads a retroactive switch from its line.
fn parse_retro_switch(text: &str, first: Option<usize>) -> (r: Result<OClockClientCommand, String>)
    requires
        match first {
            Some(from) => next_piece(text@, 0) == Some(from as int) && from <= text@.len(),
            None => next_piece(text@, 0).is_none(),
        },
    ensures
        match r {
            Ok(command) => retro_switch(text@) == Ok::<CommandView, Seq<char>>(command@),
            Err(message) => retro_switch(text@) == Err::<CommandView, Seq<char>>(message@),
        },
{
    let first = match first {
        Some(from) => from,
        None => {
            return Err(String::from_str("No task_id parameter found"));
        },
    };
    let (task_id, second) = number_piece(text, first);
    let task_id = match task_id {
        Some(n) => n,
        None => {
            return Err(String::from_str("Invalid message"));
        },
    };
    let second = match second {
        Some(from) => from,
        None => {
            return Err(String::from_str("No task_id parameter found"));
        },
    };
    let (timestamp, third) = number_piece(text, second);
    let timestamp = match timestamp {
        Some(n) => n,
        None => {
            return Err(String::from_str("Invalid message"));
        },
    };
    let third = match third {
        Some(from) => from,
        None => {
            return Err(String::from_str("No task_id parameter found"));
        },
    };
    let (flag, _) = number_piece(text, third);
    match flag {
        Some(n) => Ok(
            OClockClientCommand::JsonRetroSwitchTask {
                task_id,
                timestamp,
                keep_previous_task: n > 0,
            },
        ),
        None => Err(String::from_str("Invalid message")),
    }
}

/// Reads a command from a line of text: the name up to the first `#`,
/// then the arguments. A name takes all that follows the first `#`; so does
/// a task id. A retroactive switch takes three numbers with a `#` between
/// them. Fails with `Not recognized` on an unknown name, with `No task_id
/// parameter found` where a retroactive switch lacks an argument, and with
/// `Invalid message` where an argument is not a number.
pub fn parse_command(text: &str) -> (r: Result<OClockClientCommand, String>)
    ensures
        match r {
            Ok(command) => parsed(text@) == Ok::<CommandView, Seq<char>>(command@),
            Err(message) => parsed(text@) == Err::<CommandView, Seq<char>>(message@),
        },
{
    let len = text.unicode_len();
    let at = find_sep(text, 0);
    let kind = match command_named(text.substring_char(0, at)) {
        Some(kind) => kind,
        None => {
            return Err(String::from_str("Not recognized"));
        },
    };
    let first = if at < len {
        Some(at + 1)
    } else {
        None
    };
    let rest: &str = match first {
        Some(from) => text.substring_char(from, len),
        None => "",
    };
    proof {
        reveal_strlit("");
        assert(rest@ =~= arguments(text@));
    }
    match kind {
        Commands::Exit => Ok(OClockClientCommand::Exit),
        Commands::CurrentTask => Ok(OClockClientCommand::CurrentTask),
        Commands::ListTasks => Ok(OClockClientCommand::ListTasks),
        Commands::Timesheet => Ok(OClockClientCommand::Timesheet),
        Commands::JsonState => Ok(OClockClientCommand::JsonState),
        Commands::PushTask => Ok(OClockClientCommand::PushTask { name: String::from_str(rest) }),
        Commands::JsonPushTask => Ok(
            OClockClientCommand::JsonPushTask { name: String::from_str(rest) },
        ),
        Commands::JsonRetroSwitchTask => parse_retro_switch(text, first),
        Commands::DisableTask => match parse_number(rest) {
            Some(task_id) => Ok(OClockClientCommand::DisableTask { task_id }),
            None => Err(String::from_str("Invalid message")),
        },
        Commands::SwitchTask => match parse_number(rest) {
            Some(task_id) => Ok(OClockClientCommand::SwitchTask { task_id }),
            None => Err(String::from_str("Invalid message")),
        },
        Commands::JsonDisableTask => match parse_number(rest) {
            Some(task_id) => Ok(OClockClientCommand::JsonDisableTask { task_id }),
            None => Err(String::from_str("Invalid message")),
        },
        Commands::JsonSwitchTask => match parse_number(rest) {
            Some(task_id) => Ok(OClockClientCommand::JsonSwitchTask { task_id }),
            None => Err(String::from_str("Invalid message")),
        },
    }
}

} // verus!
