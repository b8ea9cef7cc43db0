//! The timesheet: the seconds that each task was worked on, day by day,
//! computed from the event log.

use crate::model::{precedes, without_pings, Event, EventKind, SystemEventType, TaskView};
use crate::store::{comes_before, events_without, EventStore};
use crate::text::texts;
use vstd::prelude::*;
use vstd::string::*;

verus! {

/// The length of a calendar day in seconds.
pub const SECONDS_PER_DAY: i64 = 86400;

/// The calendar day, counted from the day of the epoch, on which a
/// timestamp falls in a zone `utc_offset` seconds east of UTC.
pub open spec fn day_of(timestamp: int, utc_offset: int) -> int {
    (timestamp + utc_offset) / 86400
}

/// The timestamp at which a calendar day begins.
pub open spec fn day_start(day: int, utc_offset: int) -> int {
    day * 86400 - utc_offset
}

/// The number of seconds of the interval from `from` up to `to` that fall
/// on a calendar day.
pub open spec fn overlap(from: int, to: int, day: int, utc_offset: int) -> int {
    let lo = if from < day_start(day, utc_offset) {
        day_start(day, utc_offset)
    } else {
        from
    };
    let hi = if to < day_start(day + 1, utc_offset) {
        to
    } else {
        day_start(day + 1, utc_offset)
    };
    if lo < hi {
        hi - lo
    } else {
        0
    }
}

/// What the walk over the log knows after an event: whether a session is
/// open, and the task that time counts for.
#[derive(Clone, Copy, Debug, PartialEq, Eq, Structural)]
pub struct Walk {
    pub session_active: bool,
    pub current_task: Option<i32>,
}

impl Walk {
    /// The walk before the first event: no session, no task.
    pub open spec fn start() -> Walk {
        Walk { session_active: false, current_task: None }
    }

    /// The walk after one more event. A startup opens a session and a
    /// shutdown closes it, both without a task; a switch sets the task; a
    /// heartbeat changes nothing.
    pub open spec fn after(self, event: Event) -> Walk {
        match event.kind {
            EventKind::System(SystemEventType::Startup) => Walk {
                session_active: true,
                current_task: None,
            },
            EventKind::System(SystemEventType::Shutdown) => Walk {
                session_active: false,
                current_task: None,
            },
            EventKind::System(SystemEventType::Ping) => self,
            EventKind::TaskSwitch(task) => Walk { current_task: Some(task), ..self },
        }
    }

    /// The task that time counts for: the current task while a session is
    /// open.
    pub open spec fn credited(self) -> Option<i32> {
        if self.session_active {
            self.current_task
        } else {
            None
        }
    }

    /// The walk over no events yet.
    pub fn begin() -> (walk: Walk)
        ensures
            walk == Walk::start(),
    {
        Walk { session_active: false, current_task: None }
    }

    /// The walk after one more event.
    pub fn step(self, event: &Event) -> (walk: Walk)
        ensures
            walk == self.after(*event),
    {
        match event.kind {
            EventKind::System(SystemEventType::Startup) => Walk {
                session_active: true,
                current_task: None,
            },
            EventKind::System(SystemEventType::Shutdown) => Walk {
                session_active: false,
                current_task: None,
            },
            EventKind::System(SystemEventType::Ping) => self,
            EventKind::TaskSwitch(task) => Walk {
                session_active: self.session_active,
                current_task: Some(task),
            },
        }
    }

    /// The task that time counts for.
    pub fn credited_task(&self) -> (task: Option<i32>)
        ensures
            task == self.credited(),
    {
        if self.session_active {
            self.current_task
        } else {
            None
        }
    }
}

/// The walk after the first `k` events of a log.
pub open spec fn walk_after(log: Seq<Event>, k: int) -> Walk
    decreases k,
{
    if k <= 0 {
        Walk::start()
    } else {
        walk_after(log, k - 1).after(log[k - 1])
    }
}

/// The task that the time between event `i` and the next event counts
/// for, if it counts for any.
pub open spec fn credited_task(log: Seq<Event>, i: int) -> Option<i32> {
    walk_after(log, i + 1).credited()
}

/// The seconds on a day that the time between event `i` and the next
/// event adds to a task.
pub open spec fn credit(log: Seq<Event>, utc_offset: int, i: int, day: int, task: i32) -> int {
    if credited_task(log, i) == Some(task) {
        overlap(
            log[i].event_timestamp as int,
            log[i + 1].event_timestamp as int,
            day,
            utc_offset,
        )
    } else {
        0
    }
}

/// The seconds on a day that the first `k` intervals of a log add to a
/// task.
pub open spec fn cell(log: Seq<Event>, utc_offset: int, k: int, day: int, task: i32) -> int
    decreases k,
{
    if k <= 0 {
        0
    } else {
        cell(log, utc_offset, k - 1, day, task) + credit(log, utc_offset, k - 1, day, task)
    }
}

/// The number of intervals between consecutive events of a log.
pub open spec fn intervals(log: Seq<Event>) -> int {
    if log.len() == 0 {
        0
    } else {
        log.len() - 1
    }
}

/// The timestamps of a log never go back.
pub open spec fn in_time_order(log: Seq<Event>) -> bool {
    forall|i: int, j: int|
        0 <= i <= j < log.len() ==> (#[trigger] log[i]).event_timestamp <= (
        #[trigger] log[j]).event_timestamp
}

/// One day of the timesheet: the seconds of each task on that day, in the
/// order of the task list.
#[derive(Debug)]
pub struct TimesheetPivotRecord {
    pub day: i32,
    pub entries: Vec<i32>,
}

/// One day of the timesheet as contracts see it.
pub struct DayRow {
    pub day: int,
    pub entries: Seq<int>,
}

impl View for TimesheetPivotRecord {
    type V = DayRow;

    open spec fn view(&self) -> DayRow {
        DayRow {
            day: self.day as int,
            entries: Seq::new(self.entries@.len(), |j: int| self.entries@[j] as int),
        }
    }
}

/// The views of a sequence of records, in the same order.
pub open spec fn day_rows(records: Seq<TimesheetPivotRecord>) -> Seq<DayRow> {
    Seq::new(records.len(), |i: int| records[i]@)
}

/// The seconds of each task on one day, in the order of `tasks`.
pub open spec fn row_of(log: Seq<Event>, tasks: Seq<i32>, utc_offset: int, day: int) -> Seq<int> {
    Seq::new(tasks.len(), |j: int| cell(log, utc_offset, intervals(log), day, tasks[j]))
}

/// Whether a row holds no time at all.
pub open spec fn is_blank(entries: Seq<int>) -> bool {
    forall|j: int| 0 <= j < entries.len() ==> #[trigger] entries[j] == 0
}

/// The rows of the days from `lo` up to, not including, `hi` that hold
/// any time, by ascending day.
pub open spec fn rows_between(
    log: Seq<Event>,
    tasks: Seq<i32>,
    utc_offset: int,
    lo: int,
    hi: int,
) -> Seq<DayRow>
    decreases hi - lo,
{
    if hi <= lo {
        Seq::empty()
    } else {
        let earlier = rows_between(log, tasks, utc_offset, lo, hi - 1);
        let entries = row_of(log, tasks, utc_offset, hi - 1);
        if is_blank(entries) {
            earlier
        } else {
            earlier.push(DayRow { day: hi - 1, entries })
        }
    }
}

/// The timesheet of a log in time order: for each day on which any task
/// of `tasks` has time, the seconds of each of them, by ascending day.
pub open spec fn timesheet(log: Seq<Event>, tasks: Seq<i32>, utc_offset: int) -> Seq<DayRow> {
    if log.len() == 0 {
        Seq::empty()
    } else {
        rows_between(
            log,
            tasks,
            utc_offset,
            day_of(log.first().event_timestamp as int, utc_offset),
            day_of(log.last().event_timestamp as int, utc_offset) + 1,
        )
    }
}

/// The time of two adjoining intervals on a day is the time of the
/// interval that they make up.
pub proof fn lemma_overlap_adds(a: int, b: int, c: int, day: int, utc_offset: int)
    requires
        a <= b <= c,
    ensures
        overlap(a, b, day, utc_offset) + overlap(b, c, day, utc_offset) == overlap(
            a,
            c,
            day,
            utc_offset,
        ),
        0 <= overlap(a, b, day, utc_offset) <= 86400,
{
}

/// In a log in time order a task has on a day no more seconds than lie
/// between the first and the last event of that day.
pub proof fn lemma_cell_bounded(log: Seq<Event>, utc_offset: int, k: int, day: int, task: i32)
    requires
        in_time_order(log),
        0 <= k <= intervals(log),
    ensures
        0 <= cell(log, utc_offset, k, day, task) <= overlap(
            log[0].event_timestamp as int,
            log[k].event_timestamp as int,
            day,
            utc_offset,
        ) <= 86400,
    decreases k,
{
    if k > 0 {
        lemma_cell_bounded(log, utc_offset, k - 1, day, task);
        lemma_overlap_adds(
            log[0].event_timestamp as int,
            log[k - 1].event_timestamp as int,
            log[k].event_timestamp as int,
            day,
            utc_offset,
        );
    }
}

/// The calendar day of a timestamp.
pub fn day_number(timestamp: i32, utc_offset: i32) -> (day: i32)
    ensures
        day == day_of(timestamp as int, utc_offset as int),
{
    let shifted: i64 = timestamp as i64 + utc_offset as i64;
    let lifted: i64 = shifted + 86400 * 49711;
    let quotient: i64 = lifted / 86400;
    (quotient - 49711) as i32
}

/// The seconds of an interval that fall on a calendar day.
pub fn overlap_seconds(from: i32, to: i32, day: i32, utc_offset: i32) -> (seconds: i32)
    ensures
        seconds == overlap(from as int, to as int, day as int, utc_offset as int),
{
    let start: i64 = day as i64 * 86400 - utc_offset as i64;
    let end: i64 = start + 86400;
    let lo: i64 = if (from as i64) < start {
        start
    } else {
        from as i64
    };
    let hi: i64 = if (to as i64) < end {
        to as i64
    } else {
        end
    };
    if lo < hi {
        (hi - lo) as i32
    } else {
        0
    }
}

/// For each interval of a log, the task that it counts for.
pub fn credited_tasks(log: &Vec<Event>) -> (credited: Vec<Option<i32>>)
    ensures
        credited@.len() == intervals(log@),
        forall|i: int| 0 <= i < credited@.len() ==> #[trigger] credited@[i] == credited_task(log@, i),
{
    let mut credited: Vec<Option<i32>> = Vec::new();
    if log.len() == 0 {
        return credited;
    }
    let mut walk = Walk::begin();
    let mut i: usize = 0;
    while i + 1 < log.len()
        invariant
            i < log.len(),
            walk == walk_after(log@, i as int),
            credited@.len() == i,
            forall|k: int| 0 <= k < i ==> #[trigger] credited@[k] == credited_task(log@, k),
        decreases log.len() - i,
    {
        walk = walk.step(&log[i]);
        credited.push(walk.credited_task());
        i += 1;
    }
    credited
}

/// The seconds of each task on one day.
pub fn day_row(
    log: &Vec<Event>,
    credited: &Vec<Option<i32>>,
    tasks: &Vec<i32>,
    utc_offset: i32,
    day: i32,
) -> (entries: Vec<i32>)
    requires
        in_time_order(log@),
        credited@.len() == intervals(log@),
        forall|i: int| 0 <= i < credited@.len() ==> #[trigger] credited@[i] == credited_task(log@, i),
    ensures
        entries@.len() == tasks@.len(),
        forall|j: int|
            0 <= j < tasks@.len() ==> #[trigger] entries@[j] == cell(
                log@,
                utc_offset as int,
                intervals(log@),
                day as int,
                tasks@[j],
            ),
{
    let mut entries: Vec<i32> = Vec::new();
    let mut j: usize = 0;
    while j < tasks.len()
        invariant
            j <= tasks.len(),
            entries@.len() == j,
            forall|c: int| 0 <= c < j ==> #[trigger] entries@[c] == 0,
        decreases tasks.len() - j,
    {
        entries.push(0);
        j += 1;
    }
    let mut i: usize = 0;
    while i < credited.len()
        invariant
            i <= credited.len(),
            in_time_order(log@),
            credited@.len() == intervals(log@),
            forall|k: int|
                0 <= k < credited@.len() ==> #[trigger] credited@[k] == credited_task(log@, k),
            entries@.len() == tasks@.len(),
            forall|c: int|
                0 <= c < tasks@.len() ==> #[trigger] entries@[c] == cell(
                    log@,
                    utc_offset as int,
                    i as int,
                    day as int,
                    tasks@[c],
                ),
        decreases credited.len() - i,
    {
        let seconds = overlap_seconds(
            log[i].event_timestamp,
            log[i + 1].event_timestamp,
            day,
            utc_offset,
        );
        let task = credited[i];
        let mut c: usize = 0;
        while c < tasks.len()
            invariant
                c <= tasks.len(),
                i < credited.len(),
                in_time_order(log@),
                credited@.len() == intervals(log@),
                task == credited_task(log@, i as int),
                seconds == overlap(
                    log@[i as int].event_timestamp as int,
                    log@[i + 1].event_timestamp as int,
                    day as int,
                    utc_offset as int,
                ),
                entries@.len() == tasks@.len(),
                forall|d: int|
                    0 <= d < c ==> #[trigger] entries@[d] == cell(
                        log@,
                        utc_offset as int,
                        i + 1,
                        day as int,
                        tasks@[d],
                    ),
                forall|d: int|
                    c <= d < tasks@.len() ==> #[trigger] entries@[d] == cell(
                        log@,
                        utc_offset as int,
                        i as int,
                        day as int,
                        tasks@[d],
                    ),
            decreases tasks.len() - c,
        {
            proof {
                lemma_cell_bounded(log@, utc_offset as int, i + 1, day as int, tasks@[c as int]);
            }
            if task == Some(tasks[c]) {
                let sum: i32 = entries[c] + seconds;
                entries.set(c, sum);
            }
            c += 1;
        }
        i += 1;
    }
    entries
}

/// Whether a row holds no time at all.
pub fn row_is_blank(entries: &Vec<i32>) -> (blank: bool)
    ensures
        blank == forall|j: int| 0 <= j < entries@.len() ==> #[trigger] entries@[j] == 0,
{
    let mut j: usize = 0;
    while j < entries.len()
        invariant
            j <= entries.len(),
            forall|c: int| 0 <= c < j ==> #[trigger] entries@[c] == 0,
        decreases entries.len() - j,
    {
        if entries[j] != 0 {
            return false;
        }
        j += 1;
    }
    true
}

/// The timesheet of a log in time order: one record for each day on
/// which a task of `tasks` has time, by ascending day, with the seconds of
/// each task in the order of `tasks`.
pub fn pivot(log: &Vec<Event>, tasks: &Vec<i32>, utc_offset: i32) -> (records: Vec<
    TimesheetPivotRecord,
>)
    requires
        in_time_order(log@),
    ensures
        day_rows(records@) == timesheet(log@, tasks@, utc_offset as int),
{
    let mut records: Vec<TimesheetPivotRecord> = Vec::new();
    if log.len() == 0 {
        assert(day_rows(records@) =~= Seq::<DayRow>::empty());
        return records;
    }
    let credited = credited_tasks(log);
    let first = day_number(log[0].event_timestamp, utc_offset);
    let last = day_number(log[log.len() - 1].event_timestamp, utc_offset);
    assert(first <= last) by {
        assert(log@[0].event_timestamp <= log@[log@.len() - 1].event_timestamp);
    }
    let mut day: i32 = first;
    assert(day_rows(records@) =~= rows_between(
        log@,
        tasks@,
        utc_offset as int,
        first as int,
        day as int,
    ));
    while day <= last
        invariant
            first <= day <= last + 1,
            last < 49711,
            in_time_order(log@),
            credited@.len() == intervals(log@),
            forall|i: int|
                0 <= i < credited@.len() ==> #[trigger] credited@[i] == credited_task(log@, i),
            day_rows(records@) == rows_between(
                log@,
                tasks@,
                utc_offset as int,
                first as int,
                day as int,
            ),
        decreases last + 1 - day,
    {
        let entries = day_row(log, &credited, tasks, utc_offset, day);
        let ghost before = day_rows(records@);
        let ghost row = row_of(log@, tasks@, utc_offset as int, day as int);
        let blank = row_is_blank(&entries);
        proof {
            assert forall|j: int| 0 <= j < row.len() implies row[j] == entries@[j] as int by {}
            assert(blank == is_blank(row)) by {
                if blank {
                    assert forall|j: int| 0 <= j < row.len() implies #[trigger] row[j] == 0 by {
                        assert(entries@[j] == 0);
                    }
                } else {
                    let j = choose|j: int| 0 <= j < entries@.len() && entries@[j] != 0;
                    assert(row[j] != 0);
                }
            }
        }
        if !blank {
            let record = TimesheetPivotRecord { day, entries };
            proof {
                assert(record@.entries =~= row);
            }
            records.push(record);
            proof {
                assert(day_rows(records@) =~= before.push(DayRow { day: day as int, entries: row }));
            }
        }
        day += 1;
    }
    records
}

/// A log in chronological order with one more event put in its place:
/// behind every event that does not come after it.
pub open spec fn inserted(sorted: Seq<Event>, event: Event) -> Seq<Event>
    decreases sorted.len(),
{
    if sorted.len() == 0 || !precedes(event, sorted.last()) {
        sorted.push(event)
    } else {
        inserted(sorted.drop_last(), event).push(sorted.last())
    }
}

/// The events in chronological order: by timestamp, and by order of
/// insertion where timestamps are equal.
pub open spec fn chronological(events: Seq<Event>) -> Seq<Event>
    decreases events.len(),
{
    if events.len() == 0 {
        Seq::empty()
    } else {
        inserted(chronological(events.drop_last()), events.last())
    }
}

/// No event of the log comes before an earlier one of the log.
pub open spec fn in_order(log: Seq<Event>) -> bool {
    forall|i: int, j: int|
        0 <= i < j < log.len() ==> !precedes(#[trigger] log[j], #[trigger] log[i])
}

/// Where the new event's place is known, putting it in its place is
/// inserting it there.
pub proof fn lemma_inserted_at(sorted: Seq<Event>, event: Event, pos: int)
    requires
        0 <= pos <= sorted.len(),
        forall|k: int| pos <= k < sorted.len() ==> precedes(event, #[trigger] sorted[k]),
        pos == 0 || !precedes(event, sorted[pos - 1]),
    ensures
        inserted(sorted, event) == sorted.insert(pos, event),
    decreases sorted.len(),
{
    if pos == sorted.len() {
        assert(sorted.push(event) =~= sorted.insert(pos, event));
    } else {
        assert(precedes(event, sorted[sorted.len() - 1]));
        lemma_inserted_at(sorted.drop_last(), event, pos);
        assert(sorted.drop_last().insert(pos, event).push(sorted.last()) =~= sorted.insert(
            pos,
            event,
        ));
    }
}

/// Putting an event in its place keeps a log in order, adds the event and
/// loses none.
pub proof fn lemma_inserted_in_order(sorted: Seq<Event>, event: Event)
    requires
        in_order(sorted),
    ensures
        in_order(inserted(sorted, event)),
        inserted(sorted, event).len() == sorted.len() + 1,
        inserted(sorted, event).to_multiset() == sorted.to_multiset().insert(event),
        forall|i: int|
            0 <= i < inserted(sorted, event).len() ==> (#[trigger] inserted(sorted, event)[i])
                == event || sorted.contains(inserted(sorted, event)[i]),
    decreases sorted.len(),
{
    broadcast use vstd::seq_lib::group_to_multiset_ensures;

    if sorted.len() == 0 || !precedes(event, sorted.last()) {
        let after = sorted.push(event);
        assert forall|i: int, j: int| 0 <= i < j < after.len() implies !precedes(
            #[trigger] after[j],
            #[trigger] after[i],
        ) by {
            if j == sorted.len() {
                if i < sorted.len() - 1 {
                    assert(!precedes(sorted[sorted.len() - 1], sorted[i]));
                }
            }
        }
        assert forall|i: int| 0 <= i < after.len() implies (#[trigger] after[i]) == event
            || sorted.contains(after[i]) by {
            if i < sorted.len() {
                assert(sorted[i] == after[i]);
            }
        }
    } else {
        let init = sorted.drop_last();
        let last = sorted.last();
        lemma_inserted_in_order(init, event);
        let placed = inserted(init, event);
        let after = placed.push(last);
        assert forall|i: int, j: int| 0 <= i < j < after.len() implies !precedes(
            #[trigger] after[j],
            #[trigger] after[i],
        ) by {
            if j == placed.len() {
                if placed[i] != event {
                    assert(init.contains(placed[i]));
                    let k = choose|k: int| 0 <= k < init.len() && init[k] == placed[i];
                    assert(sorted[k] == placed[i]);
                    assert(!precedes(sorted[sorted.len() - 1], sorted[k]));
                }
            }
        }
        assert forall|i: int| 0 <= i < after.len() implies (#[trigger] after[i]) == event
            || sorted.contains(after[i]) by {
            if i < placed.len() {
                if placed[i] != event {
                    let k = choose|k: int| 0 <= k < init.len() && init[k] == placed[i];
                    assert(sorted[k] == placed[i]);
                }
            } else {
                assert(sorted[sorted.len() - 1] == after[i]);
            }
        }
        assert(sorted =~= init.push(last));
    }
}

/// The chronological order of some events is in order and in time order,
/// and holds the same events, each as often.
pub proof fn lemma_chronological(events: Seq<Event>)
    ensures
        in_order(chronological(events)),
        in_time_order(chronological(events)),
        chronological(events).len() == events.len(),
        chronological(events).to_multiset() == events.to_multiset(),
    decreases events.len(),
{
    broadcast use vstd::seq_lib::group_to_multiset_ensures;

    if events.len() > 0 {
        lemma_chronological(events.drop_last());
        lemma_inserted_in_order(chronological(events.drop_last()), events.last());
        assert(events =~= events.drop_last().push(events.last()));
    }
    let log = chronological(events);
    assert forall|i: int, j: int| 0 <= i <= j < log.len() implies (
    #[trigger] log[i]).event_timestamp <= (#[trigger] log[j]).event_timestamp by {
        if i < j {
            assert(!precedes(log[j], log[i]));
        }
    }
}

/// A log that is in order already is its own chronological order.
pub proof fn lemma_chronological_of_ordered(log: Seq<Event>)
    requires
        in_order(log),
    ensures
        chronological(log) == log,
    decreases log.len(),
{
    if log.len() > 0 {
        let init = log.drop_last();
        assert forall|i: int, j: int| 0 <= i < j < init.len() implies !precedes(
            #[trigger] init[j],
            #[trigger] init[i],
        ) by {
            assert(init[i] == log[i] && init[j] == log[j]);
        }
        lemma_chronological_of_ordered(init);
        if init.len() > 0 {
            assert(init.last() == log[log.len() - 2]);
            assert(log.last() == log[log.len() - 1]);
            assert(!precedes(log[log.len() - 1], log[log.len() - 2]));
        }
        assert(init.push(log.last()) =~= log);
    } else {
        assert(log =~= Seq::<Event>::empty());
    }
}

/// The events in chronological order.
pub fn in_chronological_order(events: &Vec<Event>) -> (log: Vec<Event>)
    ensures
        log@ == chronological(events@),
{
    let mut log: Vec<Event> = Vec::new();
    let mut i: usize = 0;
    while i < events.len()
        invariant
            i <= events.len(),
            log@ == chronological(events@.take(i as int)),
        decreases events.len() - i,
    {
        let event = events[i];
        let mut pos: usize = log.len();
        while pos > 0 && comes_before(&event, &log[pos - 1])
            invariant
                pos <= log.len(),
                forall|k: int| pos <= k < log@.len() ==> precedes(event, #[trigger] log@[k]),
            decreases pos,
        {
            pos -= 1;
        }
        proof {
            lemma_inserted_at(log@, event, pos as int);
            assert(events@.take(i as int + 1).drop_last() =~= events@.take(i as int));
        }
        log.insert(pos, event);
        i += 1;
    }
    proof {
        assert(events@.take(i as int) =~= events@);
    }
    log
}

/// The parts of the interval from `from` up to `to`, one for each
/// calendar day that it touches, by ascending day: the day and the seconds
/// of the interval on it.
pub open spec fn day_parts(from: int, to: int, utc_offset: int) -> Seq<(int, int)> {
    if from < to {
        Seq::new(
            (day_of(to - 1, utc_offset) - day_of(from, utc_offset) + 1) as nat,
            |k: int|
                (
                    day_of(from, utc_offset) + k,
                    overlap(from, to, day_of(from, utc_offset) + k, utc_offset),
                ),
        )
    } else {
        Seq::empty()
    }
}

/// The seconds in the first `n` parts of a split interval.
pub open spec fn parts_total(parts: Seq<(i32, i32)>, n: int) -> int
    decreases n,
{
    if n <= 0 {
        0
    } else {
        parts_total(parts, n - 1) + parts[n - 1].1
    }
}

/// Splits the interval from `from` up to `to` at the boundaries of the
/// calendar days: each day that the interval touches gets the seconds
/// that fall on it, and the parts add up to the interval's length.
pub fn split_by_day(from: i32, to: i32, utc_offset: i32) -> (parts: Vec<(i32, i32)>)
    ensures
        parts@.len() == day_parts(from as int, to as int, utc_offset as int).len(),
        forall|k: int|
            0 <= k < parts@.len() ==> (#[trigger] parts@[k]).0 == day_parts(
                from as int,
                to as int,
                utc_offset as int,
            )[k].0 && parts@[k].1 == day_parts(from as int, to as int, utc_offset as int)[k].1
                && parts@[k].1 > 0,
        from < to ==> parts_total(parts@, parts@.len() as int) == to - from,
        from >= to ==> parts@.len() == 0,
{
    let mut parts: Vec<(i32, i32)> = Vec::new();
    if from >= to {
        return parts;
    }
    let first = day_number(from, utc_offset);
    let last = day_number(to - 1, utc_offset);
    let mut day: i32 = first;
    let ghost covered: int = 0;
    while day <= last
        invariant
            from < to,
            first == day_of(from as int, utc_offset as int),
            last == day_of(to - 1, utc_offset as int),
            first <= day <= last + 1,
            last < 49711,
            parts@.len() == day - first,
            forall|k: int|
                0 <= k < parts@.len() ==> (#[trigger] parts@[k]).0 == first + k && parts@[k].1
                    == overlap(from as int, to as int, first + k, utc_offset as int)
                    && parts@[k].1 > 0,
            parts_total(parts@, parts@.len() as int) == crate::totals::spread(
                from as int,
                to as int,
                utc_offset as int,
                first as int,
                day as int,
            ),
        decreases last + 1 - day,
    {
        let seconds = overlap_seconds(from, to, day, utc_offset);
        let ghost before = parts@;
        parts.push((day, seconds));
        proof {
            lemma_parts_total_prefix(before, parts@, before.len() as int);
        }
        day += 1;
    }
    proof {
        crate::totals::lemma_spread(
            from as int,
            to as int,
            utc_offset as int,
            first as int,
            last + 1,
        );
    }
    parts
}

/// The total of the first parts does not depend on later parts.
pub proof fn lemma_parts_total_prefix(a: Seq<(i32, i32)>, b: Seq<(i32, i32)>, n: int)
    requires
        0 <= n <= a.len(),
        n <= b.len(),
        forall|k: int| 0 <= k < n ==> a[k] == b[k],
    ensures
        parts_total(a, n) == parts_total(b, n),
    decreases n,
{
    if n > 0 {
        lemma_parts_total_prefix(a, b, n - 1);
    }
}

/// The ids of some tasks, in their order.
pub open spec fn task_ids(tasks: Seq<TaskView>) -> Seq<i32> {
    Seq::new(tasks.len(), |j: int| tasks[j].id as i32)
}

/// The names of some tasks, in their order.
pub open spec fn task_names(tasks: Seq<TaskView>) -> Seq<Seq<char>> {
    Seq::new(tasks.len(), |j: int| tasks[j].name)
}

/// The timesheet of a store for a zone `utc_offset` seconds east of UTC:
/// the names of all tasks, by ascending id, and for each day on which any
/// of them has time a record with the seconds of each, by ascending day.
/// The log is read in chronological order and without heartbeat rows.
pub fn full_timesheet(store: &EventStore, utc_offset: i32) -> (sheet: (
    Vec<String>,
    Vec<TimesheetPivotRecord>,
))
    ensures
        texts(sheet.0@) == task_names(store@.tasks),
        day_rows(sheet.1@) == timesheet(
            chronological(without_pings(store@.events)),
            task_ids(store@.tasks),
            utc_offset as int,
        ),
{
    let tasks = store.tasks();
    let mut names: Vec<String> = Vec::new();
    let mut ids: Vec<i32> = Vec::new();
    let mut j: usize = 0;
    while j < tasks.len()
        invariant
            j <= tasks.len(),
            names@.len() == j,
            ids@.len() == j,
            forall|c: int| 0 <= c < j ==> (#[trigger] names@[c])@ == tasks@[c]@.name,
            forall|c: int| 0 <= c < j ==> #[trigger] ids@[c] == tasks@[c].id,
        decreases tasks.len() - j,
    {
        names.push(tasks[j].name.clone());
        ids.push(tasks[j].id);
        j += 1;
    }
    let history = events_without(store.events(), SystemEventType::Ping);
    let log = in_chronological_order(&history);
    proof {
        lemma_chronological(history@);
        assert(texts(names@) =~= task_names(store@.tasks));
        assert(ids@ =~= task_ids(store@.tasks));
    }
    let records = pivot(&log, &ids, utc_offset);
    (names, records)
}

} // verus!
