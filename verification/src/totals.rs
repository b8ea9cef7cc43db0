//! What the timesheet adds up to: every second of an interval lands on
//! exactly one day, and the rows of a log hold exactly the time that the
//! log credits to the listed tasks.

use crate::model::{Event, EventKind, SystemEventType};
use crate::timesheet::{
    cell, credit, credited_task, day_of, day_start, in_time_order, intervals, is_blank, overlap,
    row_of, rows_between, timesheet, walk_after, DayRow, Walk,
};
use vstd::prelude::*;

verus! {

/// The sum of a sequence of integers.
pub open spec fn sum(s: Seq<int>) -> int
    decreases s.len(),
{
    if s.len() == 0 {
        0
    } else {
        sum(s.drop_last()) + s.last()
    }
}

/// All the seconds in some rows of a timesheet.
pub open spec fn rows_total(rows: Seq<DayRow>) -> int
    decreases rows.len(),
{
    if rows.len() == 0 {
        0
    } else {
        rows_total(rows.drop_last()) + sum(rows.last().entries)
    }
}

/// Whether a credited task is one of the listed tasks.
pub open spec fn is_listed(tasks: Seq<i32>, task: Option<i32>) -> bool {
    match task {
        Some(t) => tasks.contains(t),
        None => false,
    }
}

/// The seconds of the first `k` intervals of a log that count for a listed
/// task.
pub open spec fn credited_span(log: Seq<Event>, tasks: Seq<i32>, k: int) -> int
    decreases k,
{
    if k <= 0 {
        0
    } else {
        credited_span(log, tasks, k - 1) + if is_listed(tasks, credited_task(log, k - 1)) {
            log[k].event_timestamp - log[k - 1].event_timestamp
        } else {
            0
        }
    }
}

/// The seconds of an interval that fall on the days from `lo` up to, not
/// including, `hi`, day by day.
pub open spec fn spread(from: int, to: int, utc_offset: int, lo: int, hi: int) -> int
    decreases hi - lo,
{
    if hi <= lo {
        0
    } else {
        spread(from, to, utc_offset, lo, hi - 1) + overlap(from, to, hi - 1, utc_offset)
    }
}

/// The seconds of all listed tasks on one day after `k` intervals.
pub open spec fn day_total(
    log: Seq<Event>,
    tasks: Seq<i32>,
    utc_offset: int,
    k: int,
    day: int,
) -> int {
    sum(Seq::new(tasks.len(), |j: int| cell(log, utc_offset, k, day, tasks[j])))
}

/// The seconds of all listed tasks on the days from `lo` up to, not
/// including, `hi` after `k` intervals.
pub open spec fn range_total(
    log: Seq<Event>,
    tasks: Seq<i32>,
    utc_offset: int,
    k: int,
    lo: int,
    hi: int,
) -> int
    decreases hi - lo,
{
    if hi <= lo {
        0
    } else {
        range_total(log, tasks, utc_offset, k, lo, hi - 1) + day_total(
            log,
            tasks,
            utc_offset,
            k,
            hi - 1,
        )
    }
}

/// A sum of sums, element by element.
pub proof fn lemma_sum_add(a: Seq<int>, b: Seq<int>, c: Seq<int>)
    requires
        a.len() == b.len(),
        a.len() == c.len(),
        forall|j: int| 0 <= j < c.len() ==> #[trigger] c[j] == a[j] + b[j],
    ensures
        sum(c) == sum(a) + sum(b),
    decreases a.len(),
{
    if a.len() > 0 {
        lemma_sum_add(a.drop_last(), b.drop_last(), c.drop_last());
    }
}

/// A sum of zeros.
pub proof fn lemma_sum_zero(a: Seq<int>)
    requires
        forall|j: int| 0 <= j < a.len() ==> #[trigger] a[j] == 0,
    ensures
        sum(a) == 0,
    decreases a.len(),
{
    if a.len() > 0 {
        lemma_sum_zero(a.drop_last());
    }
}

/// A row that is zero but where the task is the chosen one adds up to
/// the value, once, if the task is listed, and to nothing if it is not.
pub proof fn lemma_sum_pick(tasks: Seq<i32>, task: Option<i32>, value: int, s: Seq<int>)
    requires
        tasks.no_duplicates(),
        s.len() == tasks.len(),
        forall|j: int|
            0 <= j < s.len() ==> #[trigger] s[j] == if task == Some(tasks[j]) {
                value
            } else {
                0
            },
    ensures
        sum(s) == if is_listed(tasks, task) {
            value
        } else {
            0
        },
    decreases tasks.len(),
{
    if tasks.len() > 0 {
        let init = tasks.drop_last();
        let n = tasks.len() - 1;
        assert forall|j: int| 0 <= j < init.len() implies #[trigger] s.drop_last()[j] == if task
            == Some(init[j]) {
            value
        } else {
            0
        } by {
            assert(s.drop_last()[j] == s[j]);
            assert(init[j] == tasks[j]);
        }
        lemma_sum_pick(init, task, value, s.drop_last());
        assert(s.last() == s[n]);
        if task == Some(tasks[n]) {
            assert(tasks.contains(tasks[n]));
            if is_listed(init, task) {
                let j = choose|j: int| 0 <= j < init.len() && init[j] == tasks[n];
                assert(tasks[j] == tasks[n]);
            }
        } else {
            if is_listed(tasks, task) {
                let j = choose|j: int| 0 <= j < tasks.len() && tasks[j] == task.unwrap();
                assert(init[j] == tasks[j]);
            }
            if is_listed(init, task) {
                let j = choose|j: int| 0 <= j < init.len() && init[j] == task.unwrap();
                assert(tasks[j] == init[j]);
            }
        }
    }
}

/// Day by day, the seconds of an interval add up to what of the interval
/// lies within the days: no second is counted twice and none is dropped.
pub proof fn lemma_spread(from: int, to: int, utc_offset: int, lo: int, hi: int)
    requires
        lo <= hi,
    ensures
        spread(from, to, utc_offset, lo, hi) == {
            let start = if from < day_start(lo, utc_offset) {
                day_start(lo, utc_offset)
            } else {
                from
            };
            let end = if to < day_start(hi, utc_offset) {
                to
            } else {
                day_start(hi, utc_offset)
            };
            if start < end {
                end - start
            } else {
                0
            }
        },
    decreases hi - lo,
{
    if lo < hi {
        lemma_spread(from, to, utc_offset, lo, hi - 1);
    }
}

/// Split over the days that it touches, an interval keeps its length to
/// the second.
pub proof fn lemma_split_is_exact(from: int, to: int, utc_offset: int)
    requires
        from <= to,
    ensures
        spread(from, to, utc_offset, day_of(from, utc_offset), day_of(to, utc_offset) + 1) == to
            - from,
{
    lemma_spread(from, to, utc_offset, day_of(from, utc_offset), day_of(to, utc_offset) + 1);
}

/// One more interval adds its seconds on a day to the day's total if its
/// task is listed.
pub proof fn lemma_day_total_step(
    log: Seq<Event>,
    tasks: Seq<i32>,
    utc_offset: int,
    k: int,
    day: int,
)
    requires
        tasks.no_duplicates(),
        0 <= k,
    ensures
        day_total(log, tasks, utc_offset, k + 1, day) == day_total(log, tasks, utc_offset, k, day)
            + if is_listed(tasks, credited_task(log, k)) {
            overlap(
                log[k].event_timestamp as int,
                log[k + 1].event_timestamp as int,
                day,
                utc_offset,
            )
        } else {
            0
        },
{
    let before = Seq::new(tasks.len(), |j: int| cell(log, utc_offset, k, day, tasks[j]));
    let after = Seq::new(tasks.len(), |j: int| cell(log, utc_offset, k + 1, day, tasks[j]));
    let added = Seq::new(tasks.len(), |j: int| credit(log, utc_offset, k, day, tasks[j]));
    lemma_sum_add(before, added, after);
    lemma_sum_pick(
        tasks,
        credited_task(log, k),
        overlap(
            log[k].event_timestamp as int,
            log[k + 1].event_timestamp as int,
            day,
            utc_offset,
        ),
        added,
    );
}

/// One more interval adds its seconds on a range of days to the range's
/// total if its task is listed.
pub proof fn lemma_range_total_step(
    log: Seq<Event>,
    tasks: Seq<i32>,
    utc_offset: int,
    k: int,
    lo: int,
    hi: int,
)
    requires
        tasks.no_duplicates(),
        0 <= k,
    ensures
        range_total(log, tasks, utc_offset, k + 1, lo, hi) == range_total(
            log,
            tasks,
            utc_offset,
            k,
            lo,
            hi,
        ) + if is_listed(tasks, credited_task(log, k)) {
            spread(
                log[k].event_timestamp as int,
                log[k + 1].event_timestamp as int,
                utc_offset,
                lo,
                hi,
            )
        } else {
            0
        },
    decreases hi - lo,
{
    if lo < hi {
        lemma_range_total_step(log, tasks, utc_offset, k, lo, hi - 1);
        lemma_day_total_step(log, tasks, utc_offset, k, hi - 1);
    }
}

/// Before the first interval no day holds any time.
pub proof fn lemma_range_total_empty(
    log: Seq<Event>,
    tasks: Seq<i32>,
    utc_offset: int,
    lo: int,
    hi: int,
)
    ensures
        range_total(log, tasks, utc_offset, 0, lo, hi) == 0,
    decreases hi - lo,
{
    if lo < hi {
        lemma_range_total_empty(log, tasks, utc_offset, lo, hi - 1);
        lemma_sum_zero(Seq::new(tasks.len(), |j: int| cell(log, utc_offset, 0, hi - 1, tasks[j])));
    }
}

/// Over days that cover the whole log, the listed tasks hold exactly the
/// seconds that the log credits to them.
pub proof fn lemma_range_total(
    log: Seq<Event>,
    tasks: Seq<i32>,
    utc_offset: int,
    k: int,
    lo: int,
    hi: int,
)
    requires
        in_time_order(log),
        tasks.no_duplicates(),
        0 <= k <= intervals(log),
        lo <= hi,
        log.len() > 0 ==> day_start(lo, utc_offset) <= log.first().event_timestamp,
        log.len() > 0 ==> log.last().event_timestamp <= day_start(hi, utc_offset),
    ensures
        range_total(log, tasks, utc_offset, k, lo, hi) == credited_span(log, tasks, k),
    decreases k,
{
    if k == 0 {
        lemma_range_total_empty(log, tasks, utc_offset, lo, hi);
    } else {
        lemma_range_total(log, tasks, utc_offset, k - 1, lo, hi);
        lemma_range_total_step(log, tasks, utc_offset, k - 1, lo, hi);
        let from = log[k - 1].event_timestamp as int;
        let to = log[k].event_timestamp as int;
        lemma_spread(from, to, utc_offset, lo, hi);
        assert(log[0].event_timestamp <= log[k - 1].event_timestamp);
        assert(log[k - 1].event_timestamp <= log[k].event_timestamp);
        assert(log[k].event_timestamp <= log[log.len() - 1].event_timestamp);
    }
}

/// The rows of a range of days hold the range's total: the days left out
/// hold no time.
pub proof fn lemma_rows_total(
    log: Seq<Event>,
    tasks: Seq<i32>,
    utc_offset: int,
    lo: int,
    hi: int,
)
    ensures
        rows_total(rows_between(log, tasks, utc_offset, lo, hi)) == range_total(
            log,
            tasks,
            utc_offset,
            intervals(log),
            lo,
            hi,
        ),
    decreases hi - lo,
{
    if lo < hi {
        lemma_rows_total(log, tasks, utc_offset, lo, hi - 1);
        let entries = row_of(log, tasks, utc_offset, hi - 1);
        let earlier = rows_between(log, tasks, utc_offset, lo, hi - 1);
        if is_blank(entries) {
            lemma_sum_zero(entries);
        } else {
            let rows = earlier.push(DayRow { day: hi - 1, entries });
            assert(rows.drop_last() =~= earlier);
        }
    }
}

/// All the seconds of a timesheet are exactly the seconds that its log
/// credits to the listed tasks.
pub proof fn lemma_timesheet_total(log: Seq<Event>, tasks: Seq<i32>, utc_offset: int)
    requires
        in_time_order(log),
        tasks.no_duplicates(),
    ensures
        rows_total(timesheet(log, tasks, utc_offset)) == credited_span(
            log,
            tasks,
            intervals(log),
        ),
{
    if log.len() > 0 {
        let lo = day_of(log.first().event_timestamp as int, utc_offset);
        let hi = day_of(log.last().event_timestamp as int, utc_offset) + 1;
        assert(log[0].event_timestamp <= log[log.len() - 1].event_timestamp);
        lemma_rows_total(log, tasks, utc_offset, lo, hi);
        lemma_range_total(log, tasks, utc_offset, intervals(log), lo, hi);
    }
}

/// A log that is one closed session: a startup, then task switches only,
/// then a shutdown.
pub open spec fn is_closed_session(log: Seq<Event>) -> bool {
    &&& log.len() >= 2
    &&& log.first().kind == EventKind::System(SystemEventType::Startup)
    &&& log.last().kind == EventKind::System(SystemEventType::Shutdown)
    &&& forall|i: int| 0 < i < log.len() - 1 ==> (#[trigger] log[i]).kind is TaskSwitch
}

/// Every task that the log switches to is listed.
pub open spec fn switches_listed(log: Seq<Event>, tasks: Seq<i32>) -> bool {
    forall|i: int|
        0 <= i < log.len() ==> match (#[trigger] log[i]).kind {
            EventKind::TaskSwitch(t) => tasks.contains(t),
            EventKind::System(_) => true,
        }
}

/// Within a closed session, from the first switch on, time counts for
/// the task last switched to.
pub proof fn lemma_session_walk(log: Seq<Event>, k: int)
    requires
        is_closed_session(log),
        1 <= k < log.len(),
    ensures
        walk_after(log, k) == if k == 1 {
            Walk { session_active: true, current_task: None }
        } else {
            Walk { session_active: true, current_task: Some(log[k - 1].kind->TaskSwitch_0) }
        },
    decreases k,
{
    if k > 1 {
        lemma_session_walk(log, k - 1);
    } else {
        assert(walk_after(log, 0) == Walk::start());
    }
}

/// In a closed session whose switches all go to listed tasks, the time
/// credited after `k` intervals is the time since the first switch.
pub proof fn lemma_session_span(log: Seq<Event>, tasks: Seq<i32>, k: int)
    requires
        is_closed_session(log),
        switches_listed(log, tasks),
        0 <= k <= intervals(log),
    ensures
        credited_span(log, tasks, k) == if k <= 1 {
            0
        } else {
            log[k].event_timestamp - log[1].event_timestamp
        },
    decreases k,
{
    if k > 0 {
        lemma_session_span(log, tasks, k - 1);
        lemma_session_walk(log, k);
    }
}

/// The timesheet of a closed session holds exactly the time from the
/// session's first task switch to its shutdown, whatever the number of
/// switches and of days.
pub proof fn lemma_session_total(log: Seq<Event>, tasks: Seq<i32>, utc_offset: int)
    requires
        is_closed_session(log),
        in_time_order(log),
        tasks.no_duplicates(),
        switches_listed(log, tasks),
    ensures
        rows_total(timesheet(log, tasks, utc_offset)) == if log.len() == 2 {
            0
        } else {
            log.last().event_timestamp - log[1].event_timestamp
        },
{
    lemma_timesheet_total(log, tasks, utc_offset);
    lemma_session_span(log, tasks, intervals(log));
}

/// The timesheet of a closed session whose first task switch is made at
/// the startup holds exactly the session's span, from startup to shutdown,
/// to the second.
pub proof fn lemma_session_total_is_span(log: Seq<Event>, tasks: Seq<i32>, utc_offset: int)
    requires
        is_closed_session(log),
        in_time_order(log),
        tasks.no_duplicates(),
        switches_listed(log, tasks),
        log.len() >= 3,
        log[1].event_timestamp == log[0].event_timestamp,
    ensures
        rows_total(timesheet(log, tasks, utc_offset)) == log.last().event_timestamp
            - log.first().event_timestamp,
{
    lemma_session_total(log, tasks, utc_offset);
}

/// The timesheet of a well-formed store holds exactly the seconds that
/// its history credits to registered tasks.
pub proof fn lemma_store_timesheet_total(store: crate::model::StoreModel, utc_offset: int)
    requires
        store.wf(),
    ensures
        rows_total(
            timesheet(
                crate::timesheet::chronological(crate::model::without_pings(store.events)),
                crate::timesheet::task_ids(store.tasks),
                utc_offset,
            ),
        ) == credited_span(
            crate::timesheet::chronological(crate::model::without_pings(store.events)),
            crate::timesheet::task_ids(store.tasks),
            intervals(crate::timesheet::chronological(crate::model::without_pings(store.events))),
        ),
{
    let ids = crate::timesheet::task_ids(store.tasks);
    assert forall|i: int, j: int| 0 <= i < ids.len() && 0 <= j < ids.len() && i != j implies ids[i]
        != ids[j] by {
        if i < j {
            assert(store.tasks[i].id < store.tasks[j].id);
        } else {
            assert(store.tasks[j].id < store.tasks[i].id);
        }
    }
    crate::timesheet::lemma_chronological(crate::model::without_pings(store.events));
    lemma_timesheet_total(
        crate::timesheet::chronological(crate::model::without_pings(store.events)),
        ids,
        utc_offset,
    );
}

/// Where the history of a well-formed store is one closed session whose
/// switches go to registered tasks, the first of them made at the startup,
/// its timesheet holds exactly the time from the startup to the shutdown.
pub proof fn lemma_store_session_total(store: crate::model::StoreModel, utc_offset: int)
    requires
        store.wf(),
        is_closed_session(crate::model::without_pings(store.events)),
        crate::timesheet::in_order(crate::model::without_pings(store.events)),
        switches_listed(
            crate::model::without_pings(store.events),
            crate::timesheet::task_ids(store.tasks),
        ),
        crate::model::without_pings(store.events).len() >= 3,
        crate::model::without_pings(store.events)[1].event_timestamp == crate::model::without_pings(
            store.events,
        )[0].event_timestamp,
    ensures
        rows_total(
            timesheet(
                crate::timesheet::chronological(crate::model::without_pings(store.events)),
                crate::timesheet::task_ids(store.tasks),
                utc_offset,
            ),
        ) == crate::model::without_pings(store.events).last().event_timestamp
            - crate::model::without_pings(store.events).first().event_timestamp,
{
    let log = crate::model::without_pings(store.events);
    let ids = crate::timesheet::task_ids(store.tasks);
    crate::timesheet::lemma_chronological_of_ordered(log);
    crate::timesheet::lemma_chronological(log);
    assert forall|i: int, j: int| 0 <= i < ids.len() && 0 <= j < ids.len() && i != j implies ids[i]
        != ids[j] by {
        if i < j {
            assert(store.tasks[i].id < store.tasks[j].id);
        } else {
            assert(store.tasks[j].id < store.tasks[i].id);
        }
    }
    lemma_session_total_is_span(log, ids, utc_offset);
}

} // verus!
