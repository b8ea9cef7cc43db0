//! What the daemon shows as text: durations, the task list and the
//! timesheet as CSV.

use crate::calendar::{day_label, day_text};
use crate::model::{task_views, Task, TaskView};
use crate::text::{push_two_digits, signed_to_string, signed_decimal, texts, two_digits};
use crate::timesheet::{day_rows, DayRow, TimesheetPivotRecord};
use vstd::prelude::*;
use vstd::string::*;

verus! {

/// The quotient of `a` by a positive `d`, rounded toward zero.
pub open spec fn toward_zero(a: int, d: int) -> int {
    if a >= 0 {
        a / d
    } else {
        -((-a) / d)
    }
}

/// A number of seconds as hours, minutes and seconds, each in at least
/// two digits, with colons between them.
pub open spec fn time_text(seconds: int) -> Seq<char> {
    let hours = toward_zero(seconds, 3600);
    let minutes = toward_zero(seconds - hours * 3600, 60);
    let rest = seconds - toward_zero(seconds, 60) * 60;
    two_digits(hours) + seq![':'] + two_digits(minutes) + seq![':'] + two_digits(rest)
}

/// Renders a number of seconds as `HH:MM:SS`.
pub fn format_time_interval(i: &i32) -> (text: String)
    ensures
        text@ == time_text(*i as int),
{
    let seconds: i32 = *i;
    let hours: i32 = seconds / 3600;
    let minutes: i32 = (seconds - hours * 3600) / 60;
    let rest: i32 = seconds - (seconds / 60) * 60;
    let mut text = String::new();
    push_two_digits(&mut text, hours as i64);
    text.append(":");
    push_two_digits(&mut text, minutes as i64);
    text.append(":");
    push_two_digits(&mut text, rest as i64);
    proof {
        reveal_strlit(":");
        assert(text@ =~= time_text(seconds as int));
    }
    text
}

/// What the `csv` crate makes of one record with its default settings:
/// the fields, quoted where they need it, with commas between them and a
/// line feed at the end; or nothing, where it does not write the record.
pub uninterp spec fn csv_line(fields: Seq<Seq<char>>) -> Option<Seq<char>>;

/// Writes one record with `csv::Writer::write_record` into a fresh writer
/// over a byte vector, and takes the bytes out with `into_inner`. The
/// writer reads nothing but the fields, so whether the record is written,
/// and as what text, depends on the fields alone.
#[verifier::external_body]
fn csv_record(fields: &Vec<String>) -> (line: Option<String>)
    ensures
        match line {
            Some(text) => csv_line(texts(fields@)) == Some(text@),
            None => csv_line(texts(fields@)).is_none(),
        },
{
    let mut writer = csv::Writer::from_writer(Vec::new());
    writer.write_record(fields.iter()).ok()?;
    let bytes = writer.into_inner().ok()?;
    String::from_utf8(bytes).ok()
}

/// The records of a table, one after the other; nothing where one of
/// them is not written.
pub open spec fn csv_lines(rows: Seq<Seq<Seq<char>>>) -> Option<Seq<char>>
    decreases rows.len(),
{
    if rows.len() == 0 {
        Some(Seq::empty())
    } else {
        match (csv_lines(rows.drop_last()), csv_line(rows.last())) {
            (Some(earlier), Some(line)) => Some(earlier + line),
            _ => None,
        }
    }
}

/// Where the first rows of a table are not written, the table is not.
pub proof fn lemma_csv_lines_prefix(rows: Seq<Seq<Seq<char>>>, n: int)
    requires
        0 <= n <= rows.len(),
        csv_lines(rows.take(n)).is_none(),
    ensures
        csv_lines(rows).is_none(),
    decreases rows.len() - n,
{
    if n == rows.len() {
        assert(rows.take(n) =~= rows);
    } else {
        assert(rows.drop_last().take(n) =~= rows.take(n));
        lemma_csv_lines_prefix(rows.drop_last(), n);
    }
}

/// The fields of the rows of a table.
pub open spec fn table(rows: Seq<Vec<String>>) -> Seq<Seq<Seq<char>>> {
    Seq::new(rows.len(), |i: int| texts(rows[i]@))
}

/// Appends a written record to the text. Where the record could not be
/// written, the text stays as it is and the answer is `false`.
pub fn append_line(text: &mut String, line: Option<String>) -> (written: bool)
    ensures
        written == line.is_some(),
        final(text)@ == match line {
            Some(l) => old(text)@ + l@,
            None => old(text)@,
        },
{
    match line {
        Some(l) => {
            text.append(l.as_str());
            true
        },
        None => false,
    }
}

/// The rows of a table as CSV, each row written as one record; nothing
/// where a record is not written.
pub fn csv_text(rows: &Vec<Vec<String>>) -> (text: Option<String>)
    ensures
        match text {
            Some(t) => csv_lines(table(rows@)) == Some(t@),
            None => csv_lines(table(rows@)).is_none(),
        },
{
    let mut text = String::new();
    let mut i: usize = 0;
    while i < rows.len()
        invariant
            i <= rows.len(),
            csv_lines(table(rows@).take(i as int)) == Some(text@),
        decreases rows.len() - i,
    {
        proof {
            assert(table(rows@).take(i as int + 1).drop_last() =~= table(rows@).take(i as int));
            assert(table(rows@).take(i as int + 1).last() == texts(rows@[i as int]@));
        }
        if !append_line(&mut text, csv_record(&rows[i])) {
            proof {
                lemma_csv_lines_prefix(table(rows@), i as int + 1);
            }
            return None;
        }
        i += 1;
    }
    proof {
        assert(table(rows@).take(i as int) =~= table(rows@));
    }
    Some(text)
}

/// The fields of a task: its id, `true` or `false` for its flag, its name.
pub open spec fn task_fields(task: TaskView) -> Seq<Seq<char>> {
    seq![
        signed_decimal(task.id),
        if task.enabled {
            "true"@
        } else {
            "false"@
        },
        task.name,
    ]
}

/// The table of a task list: a header and a row for each task; no row at
/// all for an empty list.
pub open spec fn tasks_table(tasks: Seq<TaskView>) -> Seq<Seq<Seq<char>>> {
    if tasks.len() == 0 {
        Seq::empty()
    } else {
        seq![seq!["id"@, "enabled"@, "name"@]] + Seq::new(
            tasks.len(),
            |i: int| task_fields(tasks[i]),
        )
    }
}

/// The task list as CSV: a header line, then a line for each task with
/// its id, its flag and its name; the empty text for an empty list.
/// Nothing where a record is not written.
pub fn vec_to_csv(items: &Vec<Task>) -> (text: Option<String>)
    ensures
        match text {
            Some(t) => csv_lines(tasks_table(task_views(items@))) == Some(t@),
            None => csv_lines(tasks_table(task_views(items@))).is_none(),
        },
{
    let mut rows: Vec<Vec<String>> = Vec::new();
    if items.len() > 0 {
        let mut header: Vec<String> = Vec::new();
        header.push(String::from_str("id"));
        header.push(String::from_str("enabled"));
        header.push(String::from_str("name"));
        rows.push(header);
    }
    let mut i: usize = 0;
    while i < items.len()
        invariant
            i <= items.len(),
            items@.len() > 0 ==> rows@.len() == i + 1,
            items@.len() > 0 ==> texts(rows@[0]@) == seq!["id"@, "enabled"@, "name"@],
            items@.len() == 0 ==> rows@.len() == 0,
            forall|k: int| 0 <= k < i ==> texts((#[trigger] rows@[k + 1])@) == task_fields(items@[k]@),
        decreases items.len() - i,
    {
        let mut fields: Vec<String> = Vec::new();
        fields.push(signed_to_string(items[i].id as i64));
        fields.push(
            if items[i].enabled {
                String::from_str("true")
            } else {
                String::from_str("false")
            },
        );
        fields.push(items[i].name.clone());
        proof {
            assert(texts(fields@) =~= task_fields(items@[i as int]@));
        }
        rows.push(fields);
        i += 1;
    }
    proof {
        let wanted = tasks_table(task_views(items@));
        if items@.len() > 0 {
            assert forall|r: int| 0 <= r < wanted.len() implies table(rows@)[r] == wanted[r] by {
                if r > 0 {
                    assert(rows@[r] == rows@[(r - 1) + 1]);
                }
            }
        }
        assert(table(rows@) =~= wanted);
    }
    csv_text(&rows)
}

/// The fields of one day of the timesheet: the date and the time of each
/// task.
pub open spec fn record_fields(row: DayRow) -> Seq<Seq<char>> {
    seq![day_text(row.day)] + Seq::new(row.entries.len(), |j: int| time_text(row.entries[j]))
}

/// The table of a timesheet: a header of `day` and the task names, and a
/// row for each day that has one entry for each task.
pub open spec fn timesheet_table(tasks: Seq<Seq<char>>, rows: Seq<DayRow>) -> Seq<
    Seq<Seq<char>>,
>
    decreases rows.len(),
{
    if rows.len() == 0 {
        seq![seq!["day"@] + tasks]
    } else {
        let earlier = timesheet_table(tasks, rows.drop_last());
        if rows.last().entries.len() == tasks.len() {
            earlier.push(record_fields(rows.last()))
        } else {
            earlier
        }
    }
}

/// The timesheet as CSV: a header line of `day` and the task names, then
/// a line for each day with its date and the time of each task as
/// `HH:MM:SS`. A record that does not have one entry for each task is left
/// out. Nothing where a record is not written.
pub fn timesheet_to_csv(tasks: &Vec<String>, records: &Vec<TimesheetPivotRecord>) -> (text: Option<
    String,
>)
    ensures
        match text {
            Some(t) => csv_lines(timesheet_table(texts(tasks@), day_rows(records@))) == Some(t@),
            None => csv_lines(timesheet_table(texts(tasks@), day_rows(records@))).is_none(),
        },
{
    let mut rows: Vec<Vec<String>> = Vec::new();
    let mut header: Vec<String> = Vec::new();
    header.push(String::from_str("day"));
    let mut j: usize = 0;
    while j < tasks.len()
        invariant
            j <= tasks.len(),
            header@.len() == j + 1,
            header@[0]@ == "day"@,
            forall|k: int| 0 <= k < j ==> (#[trigger] header@[k + 1])@ == tasks@[k]@,
        decreases tasks.len() - j,
    {
        header.push(tasks[j].clone());
        j += 1;
    }
    proof {
        let wanted = seq!["day"@] + texts(tasks@);
        assert forall|k: int| 0 <= k < wanted.len() implies texts(header@)[k] == wanted[k] by {
            if k > 0 {
                assert(header@[k] == header@[(k - 1) + 1]);
            }
        }
        assert(texts(header@) =~= wanted);
    }
    rows.push(header);
    let mut i: usize = 0;
    proof {
        assert(day_rows(records@).take(0) =~= Seq::<DayRow>::empty());
        assert(table(rows@) =~= timesheet_table(texts(tasks@), day_rows(records@).take(0)));
    }
    while i < records.len()
        invariant
            i <= records.len(),
            table(rows@) == timesheet_table(texts(tasks@), day_rows(records@).take(i as int)),
        decreases records.len() - i,
    {
        let record = &records[i];
        let ghost before = table(rows@);
        proof {
            assert(day_rows(records@).take(i as int + 1).drop_last() =~= day_rows(records@).take(
                i as int,
            ));
            assert(day_rows(records@).take(i as int + 1).last() == record@);
        }
        if record.entries.len() == tasks.len() {
            let mut fields: Vec<String> = Vec::new();
            fields.push(day_label(record.day));
            let mut c: usize = 0;
            while c < record.entries.len()
                invariant
                    c <= record.entries.len(),
                    fields@.len() == c + 1,
                    fields@[0]@ == day_text(record.day as int),
                    forall|k: int|
                        0 <= k < c ==> (#[trigger] fields@[k + 1])@ == time_text(
                            record.entries@[k] as int,
                        ),
                decreases record.entries.len() - c,
            {
                fields.push(format_time_interval(&record.entries[c]));
                c += 1;
            }
            proof {
                let wanted = record_fields(record@);
                assert forall|k: int| 0 <= k < wanted.len() implies texts(fields@)[k]
                    == wanted[k] by {
                    if k > 0 {
                        assert(fields@[k] == fields@[(k - 1) + 1]);
                    }
                }
                assert(texts(fields@) =~= wanted);
            }
            rows.push(fields);
            proof {
                assert(table(rows@) =~= before.push(record_fields(record@)));
            }
        }
        i += 1;
    }
    proof {
        assert(day_rows(records@).take(i as int) =~= day_rows(records@));
    }
    csv_text(&rows)
}

} // verus!
