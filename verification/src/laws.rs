//! What holds of the state engine across calls: the most recent switch is
//! current, the heartbeat never adds a row, recovery is idempotent.

use crate::model::{
    latest, precedes, without_pings, Event, EventKind, StateError, StoreModel, SystemEventType,
    TaskView,
};
use crate::state::{switch_at, system_at};
use crate::store::lemma_filter_push;
use crate::timesheet::{chronological, lemma_chronological};
use vstd::prelude::*;

verus! {

/// The ids of the events ascend strictly.
pub open spec fn ascending_ids(events: Seq<Event>) -> bool {
    forall|i: int, j: int|
        0 <= i < j < events.len() ==> (#[trigger] events[i]).id < (#[trigger] events[j]).id
}

/// The latest event is one of the events, and none of them comes after it.
pub proof fn lemma_latest_is_maximum(events: Seq<Event>)
    ensures
        match latest(events) {
            Some(m) => events.contains(m) && forall|i: int|
                0 <= i < events.len() ==> !precedes(m, #[trigger] events[i]),
            None => events.len() == 0,
        },
    decreases events.len(),
{
    if events.len() > 0 {
        let init = events.drop_last();
        lemma_latest_is_maximum(init);
        let last = events.last();
        assert(events[events.len() - 1] == last);
        match latest(init) {
            Some(m) => {
                let k = choose|k: int| 0 <= k < init.len() && init[k] == m;
                assert(events[k] == m);
                assert forall|i: int| 0 <= i < events.len() implies !precedes(
                    latest(events).unwrap(),
                    #[trigger] events[i],
                ) by {
                    if i < init.len() {
                        assert(init[i] == events[i]);
                    }
                }
            },
            None => {
                assert(init.len() == 0);
            },
        }
    }
}

/// Among events with distinct ids, an event that none comes after is the
/// latest.
pub proof fn lemma_maximum_is_latest(events: Seq<Event>, x: Event)
    requires
        ascending_ids(events),
        events.contains(x),
        forall|i: int| 0 <= i < events.len() ==> !precedes(x, #[trigger] events[i]),
    ensures
        latest(events) == Some(x),
{
    lemma_latest_is_maximum(events);
    let m = latest(events).unwrap();
    let i = choose|i: int| 0 <= i < events.len() && events[i] == x;
    let j = choose|j: int| 0 <= j < events.len() && events[j] == m;
    assert(!precedes(x, events[j]));
    assert(!precedes(m, events[i]));
    if i < j {
        assert(events[i].id < events[j].id);
    } else if j < i {
        assert(events[j].id < events[i].id);
    }
}

/// The latest event stays the latest when other events are filtered out.
pub proof fn lemma_latest_survives_filter(events: Seq<Event>, pred: spec_fn(Event) -> bool)
    requires
        ascending_ids(events),
        latest(events).is_some(),
        pred(latest(events).unwrap()),
    ensures
        latest(events.filter(pred)) == latest(events),
{
    let m = latest(events).unwrap();
    let kept = events.filter(pred);
    lemma_latest_is_maximum(events);
    let top = if events.len() > 0 {
        events.last().id + 1
    } else {
        1
    };
    assert forall|i: int| 0 <= i < events.len() implies i32::MIN <= (#[trigger] events[i]).id
        < top by {
        if i < events.len() - 1 {
            assert(events[i].id < events[events.len() - 1].id);
        }
    }
    lemma_filter_keeps_order(events, pred);
    let k = choose|k: int| 0 <= k < events.len() && events[k] == m;
    events.lemma_filter_contains(pred, k);
    assert forall|i: int| 0 <= i < kept.len() implies !precedes(m, #[trigger] kept[i]) by {
        assert(events.contains(kept[i]));
        let j = choose|j: int| 0 <= j < events.len() && events[j] == kept[i];
        assert(!precedes(m, events[j]));
    }
    lemma_maximum_is_latest(kept, m);
}

/// Filtering keeps the ids ascending, and keeps only events that were
/// there.
pub proof fn lemma_filter_keeps_order(events: Seq<Event>, pred: spec_fn(Event) -> bool)
    requires
        ascending_ids(events),
    ensures
        ascending_ids(events.filter(pred)),
        forall|i: int|
            0 <= i < events.filter(pred).len() ==> events.contains(
                #[trigger] events.filter(pred)[i],
            ),
    decreases events.len(),
{
    reveal(Seq::filter);
    if events.len() > 0 {
        let init = events.drop_last();
        lemma_filter_keeps_order(init, pred);
        let kept = init.filter(pred);
        assert forall|i: int| 0 <= i < kept.len() implies events.contains(#[trigger] kept[i])
            && kept[i].id < events.last().id by {
            assert(init.contains(kept[i]));
            let k = choose|k: int| 0 <= k < init.len() && init[k] == kept[i];
            assert(events[k] == kept[i]);
        }
        if pred(events.last()) {
            assert(events.filter(pred) =~= kept.push(events.last()));
            assert(events[events.len() - 1] == events.last());
        } else {
            assert(events.filter(pred) =~= kept);
        }
    }
}

/// Filtering twice by the same predicate is filtering once.
pub proof fn lemma_filter_idempotent<A>(s: Seq<A>, pred: spec_fn(A) -> bool)
    ensures
        s.filter(pred).filter(pred) == s.filter(pred),
    decreases s.len(),
{
    reveal(Seq::filter);
    if s.len() > 0 {
        lemma_filter_idempotent(s.drop_last(), pred);
        if pred(s.last()) {
            lemma_filter_push(s.drop_last().filter(pred), pred, s.last());
        }
    }
}

/// Changing elements in a way that the predicate does not see leaves the
/// number of elements that satisfy it as it was.
pub proof fn lemma_count_after_map<A>(s: Seq<A>, f: spec_fn(A) -> A, pred: spec_fn(A) -> bool)
    requires
        forall|a: A| pred(#[trigger] f(a)) == pred(a),
    ensures
        s.map_values(f).filter(pred).len() == s.filter(pred).len(),
    decreases s.len(),
{
    reveal(Seq::filter);
    if s.len() > 0 {
        lemma_count_after_map(s.drop_last(), f, pred);
        assert(s.map_values(f).drop_last() =~= s.drop_last().map_values(f));
        assert(pred(f(s.last())) == pred(s.last()));
    }
}

/// An event that is appended no earlier than every event of the history
/// becomes the most recent one.
pub proof fn lemma_appended_is_current(store: StoreModel, kind: EventKind, now: i32)
    requires
        store.wf(),
        store.has_event_id(),
        !kind.is_ping(),
        forall|i: int|
            0 <= i < store.events.len() && !store.events[i].kind.is_ping() ==> (
            #[trigger] store.events[i]).event_timestamp <= now,
    ensures
        store.with_event(
            crate::model::NewEvent { event_timestamp: now, kind },
        ).current_event() == Some(
            Event { id: store.next_event_id as i32, event_timestamp: now, kind },
        ),
{
    let pred = |e: Event| !e.kind.is_system(SystemEventType::Ping);
    let e = Event { id: store.next_event_id as i32, event_timestamp: now, kind };
    let history = without_pings(store.events);
    lemma_filter_push(store.events, pred, e);
    assert(without_pings(store.events.push(e)) == history.push(e));
    assert(history.push(e).drop_last() =~= history);
    lemma_latest_is_maximum(history);
    lemma_filter_keeps_order(store.events, pred);
    match latest(history) {
        Some(m) => {
            assert(store.events.contains(m));
            let k = choose|k: int| 0 <= k < store.events.len() && store.events[k] == m;
            let j = choose|j: int| 0 <= j < history.len() && history[j] == m;
            store.events.lemma_filter_pred(pred, j);
            assert(!store.events[k].kind.is_ping());
            assert(!precedes(e, m));
        },
        None => {},
    }
}

/// After a switch made no earlier than every event of the history, the
/// task switched to is current: the lookup returns it if it is registered,
/// and fails on it if it is not.
pub proof fn lemma_switch_is_current(store: StoreModel, task_id: i32, now: i32)
    requires
        store.wf(),
        store.has_event_id(),
        forall|i: int|
            0 <= i < store.events.len() && !store.events[i].kind.is_ping() ==> (
            #[trigger] store.events[i]).event_timestamp <= now,
    ensures
        store.with_event(switch_at(task_id, now)).current_task_id() == Some(task_id),
        store.with_event(switch_at(task_id, now)).current_task() == match store.find_task(
            task_id as int,
        ) {
            Some(task) => Ok::<Option<TaskView>, StateError>(Some(task)),
            None => Err::<Option<TaskView>, StateError>(StateError::Resolution(task_id)),
        },
{
    lemma_appended_is_current(store, EventKind::TaskSwitch(task_id), now);
    let after = store.with_event(switch_at(task_id, now));
    assert(after.tasks == store.tasks);
    assert(after.find_task(task_id as int) == store.find_task(task_id as int));
}

/// The store after a run of task switches, each given by the task and
/// the time of the call.
pub open spec fn after_switches(store: StoreModel, calls: Seq<(i32, i32)>) -> StoreModel
    decreases calls.len(),
{
    if calls.len() == 0 {
        store
    } else {
        after_switches(store, calls.drop_last()).with_event(
            switch_at(calls.last().0, calls.last().1),
        )
    }
}

/// A run of task switches keeps the store well-formed, uses one id per
/// call, and adds no event later than the latest time among the calls.
pub proof fn lemma_after_switches(store: StoreModel, calls: Seq<(i32, i32)>, bound: i32)
    requires
        store.wf(),
        store.next_event_id + calls.len() <= crate::model::ID_LIMIT,
        forall|i: int|
            0 <= i < store.events.len() && !store.events[i].kind.is_ping() ==> (
            #[trigger] store.events[i]).event_timestamp <= bound,
        forall|k: int| 0 <= k < calls.len() ==> (#[trigger] calls[k]).1 <= bound,
    ensures
        after_switches(store, calls).wf(),
        after_switches(store, calls).next_event_id == store.next_event_id + calls.len(),
        after_switches(store, calls).tasks == store.tasks,
        forall|i: int|
            0 <= i < after_switches(store, calls).events.len() && !after_switches(
                store,
                calls,
            ).events[i].kind.is_ping() ==> (#[trigger] after_switches(
                store,
                calls,
            ).events[i]).event_timestamp <= bound,
    decreases calls.len(),
{
    if calls.len() > 0 {
        let init = calls.drop_last();
        assert forall|k: int| 0 <= k < init.len() implies (#[trigger] init[k]).1 <= bound by {
            assert(init[k] == calls[k]);
        }
        lemma_after_switches(store, init, bound);
        let before = after_switches(store, init);
        assert(calls.last() == calls[calls.len() - 1]);
        before.lemma_with_event_wf(switch_at(calls.last().0, calls.last().1));
    }
}

/// After any run of task switches with no system event between them,
/// where no call is timed before an earlier one or before the history,
/// the task of the most recent call is current.
pub proof fn lemma_last_switch_is_current(store: StoreModel, calls: Seq<(i32, i32)>)
    requires
        store.wf(),
        calls.len() > 0,
        store.next_event_id + calls.len() <= crate::model::ID_LIMIT,
        forall|i: int|
            0 <= i < store.events.len() && !store.events[i].kind.is_ping() ==> (
            #[trigger] store.events[i]).event_timestamp <= calls[0].1,
        forall|j: int, k: int| 0 <= j <= k < calls.len() ==> calls[j].1 <= calls[k].1,
    ensures
        after_switches(store, calls).current_task_id() == Some(calls.last().0),
        after_switches(store, calls).current_task() == match store.find_task(
            calls.last().0 as int,
        ) {
            Some(task) => Ok::<Option<TaskView>, StateError>(Some(task)),
            None => Err::<Option<TaskView>, StateError>(StateError::Resolution(calls.last().0)),
        },
{
    let init = calls.drop_last();
    let bound = calls.last().1;
    assert forall|k: int| 0 <= k < init.len() implies (#[trigger] init[k]).1 <= bound by {
        assert(init[k] == calls[k]);
    }
    lemma_after_switches(store, init, bound);
    lemma_switch_is_current(after_switches(store, init), calls.last().0, bound);
}

/// Enabling or disabling a task changes neither the event log nor which
/// task is current.
pub proof fn lemma_flag_keeps_current(store: StoreModel, task_id: int, enabled: bool)
    ensures
        store.with_task_enabled(task_id, enabled).events == store.events,
        store.with_task_enabled(task_id, enabled).current_task_id() == store.current_task_id(),
{
}

/// The heartbeat changes neither the number of heartbeat rows nor the
/// number of events.
pub proof fn lemma_ping_keeps_count(store: StoreModel, now: i32)
    ensures
        store.with_system_events_at(SystemEventType::Ping, now).count_system_events(
            SystemEventType::Ping,
        ) == store.count_system_events(SystemEventType::Ping),
        store.with_system_events_at(SystemEventType::Ping, now).events.len()
            == store.events.len(),
{
    let f = |e: Event|
        if e.kind.is_system(SystemEventType::Ping) {
            Event { event_timestamp: now, ..e }
        } else {
            e
        };
    let pred = |e: Event| e.kind.is_system(SystemEventType::Ping);
    lemma_count_after_map(store.events, f, pred);
}

/// The store after a run of heartbeats at the given times.
pub open spec fn after_pings(store: StoreModel, times: Seq<i32>) -> StoreModel
    decreases times.len(),
{
    if times.len() == 0 {
        store
    } else {
        after_pings(store, times.drop_last()).with_system_events_at(
            SystemEventType::Ping,
            times.last(),
        )
    }
}

/// However many heartbeats run, the log holds as many heartbeat rows as
/// before the first of them.
pub proof fn lemma_pings_keep_count(store: StoreModel, times: Seq<i32>)
    ensures
        after_pings(store, times).count_system_events(SystemEventType::Ping)
            == store.count_system_events(SystemEventType::Ping),
    decreases times.len(),
{
    if times.len() > 0 {
        lemma_pings_keep_count(store, times.drop_last());
        lemma_ping_keeps_count(after_pings(store, times.drop_last()), times.last());
    }
}

/// A session that was opened with room for its two events has exactly one
/// heartbeat row, and heartbeats keep it at one.
pub proof fn lemma_session_has_one_ping(store: StoreModel, now: i32, times: Seq<i32>)
    requires
        store.wf(),
        store.recovered().next_event_id + 2 <= crate::model::ID_LIMIT,
    ensures
        after_pings(store.booted(now), times).count_system_events(SystemEventType::Ping) == 1,
{
    let is_ping = |e: Event| e.kind.is_system(SystemEventType::Ping);
    let not_ping = |e: Event| !e.kind.is_system(SystemEventType::Ping);
    let purged = store.recovered();
    lemma_none_left(store.closed_off().events, SystemEventType::Ping);
    let started = purged.with_event(system_at(SystemEventType::Startup, now));
    lemma_filter_push(purged.events, is_ping, started.events.last());
    lemma_filter_push(started.events, is_ping, store.booted(now).events.last());
    lemma_pings_keep_count(store.booted(now), times);
}

/// After the system events of one kind were removed, none is left.
pub proof fn lemma_none_left(events: Seq<Event>, kind: SystemEventType)
    ensures
        events.filter(|e: Event| !e.kind.is_system(kind)).filter(
            |e: Event| e.kind.is_system(kind),
        ).len() == 0,
    decreases events.len(),
{
    reveal(Seq::filter);
    let keep = |e: Event| !e.kind.is_system(kind);
    let gone = |e: Event| e.kind.is_system(kind);
    if events.len() > 0 {
        lemma_none_left(events.drop_last(), kind);
        if keep(events.last()) {
            lemma_filter_push(events.drop_last().filter(keep), gone, events.last());
        }
    }
}

/// Recovery leaves a log that needs no closing off: a second recovery
/// appends no shutdown and changes nothing. So two recoveries in a row
/// never put two shutdowns next to each other.
pub proof fn lemma_recovery_idempotent(store: StoreModel)
    requires
        store.wf(),
    ensures
        store.recovered().wf(),
        store.recovered().closed_off() == store.recovered(),
        store.recovered().recovered() == store.recovered(),
{
    let keep = |e: Event| !e.kind.is_system(SystemEventType::Ping);
    let closed = store.closed_off();
    let once = store.recovered();
    lemma_latest_is_maximum(store.events);
    assert(closed.wf()) by {
        if closed != store {
            store.lemma_with_event_wf(
                system_at(SystemEventType::Shutdown, store.last_event().unwrap().event_timestamp),
            );
        }
    }
    closed.lemma_without_system_events_wf(SystemEventType::Ping);
    lemma_filter_idempotent(closed.events, keep);
    assert(once.without_system_events(SystemEventType::Ping) =~= once);
    match store.last_event() {
        Some(e) => {
            if e.kind.is_system(SystemEventType::Shutdown) {
                lemma_latest_survives_filter(store.events, keep);
            } else if store.has_event_id() {
                let shutdown = closed.events.last();
                assert(closed.events.drop_last() =~= store.events);
                let k = choose|k: int| 0 <= k < store.events.len() && store.events[k] == e;
                assert(!precedes(shutdown, e));
                assert(latest(closed.events) == Some(shutdown));
                lemma_latest_survives_filter(closed.events, keep);
            } else {
                assert(!once.has_event_id());
            }
        },
        None => {
            reveal(Seq::filter);
            assert(once.events =~= Seq::<Event>::empty());
        },
    }
}

/// The history of a store: its events other than heartbeats, in
/// chronological order.
pub open spec fn history(store: StoreModel) -> Seq<Event> {
    chronological(without_pings(store.events))
}

/// No two shutdowns follow each other directly.
pub open spec fn shutdowns_apart(log: Seq<Event>) -> bool {
    forall|i: int|
        0 <= i < log.len() - 1 ==> !((#[trigger] log[i]).kind.is_system(SystemEventType::Shutdown)
            && log[i + 1].kind.is_system(SystemEventType::Shutdown))
}

/// Where the most recent event of the log is a heartbeat, the history
/// does not end with a shutdown: no heartbeat follows the end of a session.
pub open spec fn ends_quietly(store: StoreModel) -> bool {
    match store.last_event() {
        Some(e) => e.kind.is_ping() ==> match store.current_event() {
            Some(c) => !c.kind.is_system(SystemEventType::Shutdown),
            None => true,
        },
        None => true,
    }
}

/// No event of the store is later than `now`.
pub open spec fn not_after(store: StoreModel, now: i32) -> bool {
    forall|i: int| 0 <= i < store.events.len() ==> (#[trigger] store.events[i]).event_timestamp <= now
}

/// The chronological order of some events ends with the latest of them.
pub proof fn lemma_chronological_ends_with_latest(events: Seq<Event>)
    requires
        ascending_ids(events),
        events.len() > 0,
    ensures
        chronological(events).len() == events.len(),
        chronological(events).last() == latest(events).unwrap(),
{
    broadcast use vstd::seq_lib::group_to_multiset_ensures;

    lemma_chronological(events);
    let log = chronological(events);
    let x = log.last();
    assert(log[log.len() - 1] == x);
    assert(log.contains(x));
    assert(events.to_multiset().count(x) > 0);
    assert(events.contains(x));
    assert forall|i: int| 0 <= i < events.len() implies !precedes(x, #[trigger] events[i]) by {
        assert(events.contains(events[i]));
        assert(log.to_multiset().count(events[i]) > 0);
        assert(log.contains(events[i]));
        let j = choose|j: int| 0 <= j < log.len() && log[j] == events[i];
        if j < log.len() - 1 {
            assert(!precedes(log[log.len() - 1], log[j]));
        }
    }
    lemma_maximum_is_latest(events, x);
}

/// An event that comes before none of the others goes to the end of
/// their chronological order.
pub proof fn lemma_chronological_push_latest(events: Seq<Event>, e: Event)
    requires
        forall|i: int| 0 <= i < events.len() ==> !precedes(e, #[trigger] events[i]),
    ensures
        chronological(events.push(e)) == chronological(events).push(e),
{
    broadcast use vstd::seq_lib::group_to_multiset_ensures;

    lemma_chronological(events);
    let log = chronological(events);
    assert(events.push(e).drop_last() =~= events);
    if log.len() > 0 {
        let x = log.last();
        assert(log[log.len() - 1] == x);
        assert(log.contains(x));
        assert(events.to_multiset().count(x) > 0);
        assert(events.contains(x));
        let k = choose|k: int| 0 <= k < events.len() && events[k] == x;
        assert(!precedes(e, events[k]));
    }
}

/// Recovery adds at most a shutdown at the end of the history, and only
/// behind an event that is not a shutdown: it puts no two shutdowns next
/// to each other.
pub proof fn lemma_recovery_keeps_shutdowns_apart(store: StoreModel)
    requires
        store.wf(),
        shutdowns_apart(history(store)),
        ends_quietly(store),
    ensures
        shutdowns_apart(history(store.recovered())),
        history(store.recovered()) == history(store) || history(store.recovered()) == history(
            store,
        ).push(store.closed_off().events.last()),
        forall|i: int|
            0 <= i < store.recovered().events.len() ==> !(
            #[trigger] store.recovered().events[i]).kind.is_ping(),
{
    let keep = |e: Event| !e.kind.is_system(SystemEventType::Ping);
    let closed = store.closed_off();
    let once = store.recovered();
    let quiet = without_pings(store.events);
    lemma_filter_idempotent(closed.events, keep);
    assert forall|i: int| 0 <= i < once.events.len() implies !(
    #[trigger] once.events[i]).kind.is_ping() by {
        closed.events.lemma_filter_pred(keep, i);
    }
    if closed != store {
        let last = store.last_event().unwrap();
        let shutdown = closed.events.last();
        assert(closed.events =~= store.events.push(shutdown));
        lemma_filter_push(store.events, keep, shutdown);
        assert(without_pings(once.events) == quiet.push(shutdown));
        lemma_latest_is_maximum(store.events);
        lemma_filter_keeps_order(store.events, keep);
        assert forall|i: int| 0 <= i < quiet.len() implies !precedes(
            shutdown,
            #[trigger] quiet[i],
        ) by {
            assert(store.events.contains(quiet[i]));
            let k = choose|k: int| 0 <= k < store.events.len() && store.events[k] == quiet[i];
            assert(!precedes(last, store.events[k]));
        }
        lemma_chronological_push_latest(quiet, shutdown);
        let before = history(store);
        let after = before.push(shutdown);
        assert(history(once) == after);
        if quiet.len() > 0 {
            lemma_chronological_ends_with_latest(quiet);
            if !last.kind.is_ping() {
                lemma_latest_survives_filter(store.events, keep);
            }
            assert(!before.last().kind.is_system(SystemEventType::Shutdown));
        } else {
            lemma_chronological(quiet);
        }
        assert forall|i: int| 0 <= i < after.len() - 1 implies !((#[trigger] after[i]).kind.is_system(
            SystemEventType::Shutdown,
        ) && after[i + 1].kind.is_system(SystemEventType::Shutdown)) by {
            if i < before.len() - 1 {
                assert(after[i] == before[i]);
                assert(after[i + 1] == before[i + 1]);
            } else {
                assert(after[i] == before.last());
            }
        }
    } else {
        assert(without_pings(once.events) == quiet);
    }
}

/// Opening a session at a time that is not before the log's events
/// keeps shutdowns apart: the shutdown that recovery may add is followed
/// by the startup. What is required holds again afterwards, so it holds
/// after any number of sessions opened one after the other.
pub proof fn lemma_boot_keeps_shutdowns_apart(store: StoreModel, now: i32)
    requires
        store.wf(),
        shutdowns_apart(history(store)),
        ends_quietly(store),
        not_after(store, now),
    ensures
        store.booted(now).wf(),
        shutdowns_apart(history(store.booted(now))),
        ends_quietly(store.booted(now)),
        not_after(store.booted(now), now),
{
    let keep = |e: Event| !e.kind.is_system(SystemEventType::Ping);
    let once = store.recovered();
    lemma_recovery_idempotent(store);
    lemma_recovery_keeps_shutdowns_apart(store);
    lemma_latest_is_maximum(store.events);
    let closed = store.closed_off();
    lemma_filter_keeps_order(closed.events, keep);
    assert(not_after(once, now)) by {
        assert forall|i: int| 0 <= i < once.events.len() implies (
        #[trigger] once.events[i]).event_timestamp <= now by {
            assert(closed.events.contains(once.events[i]));
            let k = choose|k: int| 0 <= k < closed.events.len() && closed.events[k]
                == once.events[i];
            if k < store.events.len() {
                assert(closed.events[k] == store.events[k]);
            } else {
                let last = store.last_event().unwrap();
                let j = choose|j: int| 0 <= j < store.events.len() && store.events[j] == last;
                assert(store.events[j].event_timestamp <= now);
            }
        }
    }
    let started = once.with_event_if_room(system_at(SystemEventType::Startup, now));
    let booted = store.booted(now);
    if once.has_event_id() {
        let startup = started.events.last();
        once.lemma_with_event_wf(system_at(SystemEventType::Startup, now));
        lemma_filter_push(once.events, keep, startup);
        let quiet = without_pings(once.events);
        lemma_filter_keeps_order(once.events, keep);
        assert forall|i: int| 0 <= i < quiet.len() implies !precedes(
            startup,
            #[trigger] quiet[i],
        ) by {
            assert(once.events.contains(quiet[i]));
            let k = choose|k: int| 0 <= k < once.events.len() && once.events[k] == quiet[i];
            assert(once.events[k].event_timestamp <= now);
        }
        lemma_chronological_push_latest(quiet, startup);
        let before = history(once);
        let after = before.push(startup);
        assert(history(started) == after);
        assert forall|i: int| 0 <= i < after.len() - 1 implies !((#[trigger] after[i]).kind.is_system(
            SystemEventType::Shutdown,
        ) && after[i + 1].kind.is_system(SystemEventType::Shutdown)) by {
            if i < before.len() - 1 {
                assert(after[i] == before[i]);
                assert(after[i + 1] == before[i + 1]);
            }
        }
        lemma_appended_is_current(once, EventKind::System(SystemEventType::Startup), now);
        if started.has_event_id() {
            let ping = booted.events.last();
            started.lemma_with_event_wf(system_at(SystemEventType::Ping, now));
            lemma_filter_push(started.events, keep, ping);
            assert(without_pings(booted.events) == without_pings(started.events));
            assert(booted.current_event() == started.current_event());
        } else {
            assert(booted == started);
            assert(started.events.drop_last() =~= once.events);
            lemma_latest_is_maximum(once.events);
            match latest(once.events) {
                Some(m) => {
                    let k = choose|k: int| 0 <= k < once.events.len() && once.events[k] == m;
                    assert(!precedes(startup, once.events[k]));
                },
                None => {},
            }
            assert(latest(started.events) == Some(startup));
        }
    } else {
        assert(booted == once);
        lemma_latest_is_maximum(once.events);
        match latest(once.events) {
            Some(m) => {
                let k = choose|k: int| 0 <= k < once.events.len() && once.events[k] == m;
                assert(!once.events[k].kind.is_ping());
            },
            None => {},
        }
    }
}

/// Two sessions opened one after the other, as after two clean starts in
/// a row, leave no two shutdowns next to each other in the history: the
/// startup of the first lies between them.
pub proof fn lemma_boot_twice_keeps_shutdowns_apart(store: StoreModel, first: i32, second: i32)
    requires
        store.wf(),
        shutdowns_apart(history(store)),
        ends_quietly(store),
        not_after(store, first),
        first <= second,
    ensures
        shutdowns_apart(history(store.booted(first).booted(second))),
{
    lemma_boot_keeps_shutdowns_apart(store, first);
    lemma_boot_keeps_shutdowns_apart(store.booted(first), second);
}

/// After a retroactive switch to a time that is not before the history,
/// the task switched to is current if the previous task is not kept or
/// there was none; if the previous task is kept, it is current again.
pub proof fn lemma_retro_switch_current(
    store: StoreModel,
    task_id: i32,
    timestamp: i32,
    keep_previous_task: bool,
    now: i32,
)
    requires
        store.wf(),
        store.next_event_id + store.retro_inserts(keep_previous_task) <= crate::model::ID_LIMIT,
        forall|i: int|
            0 <= i < store.events.len() && !store.events[i].kind.is_ping() ==> (
            #[trigger] store.events[i]).event_timestamp <= timestamp,
    ensures
        store.retro_switched(task_id, timestamp, keep_previous_task, now).current_task_id()
            == if keep_previous_task && store.current_task_id().is_some() {
            store.current_task_id()
        } else {
            Some(task_id)
        },
{
    lemma_appended_is_current(store, EventKind::TaskSwitch(task_id), timestamp);
    if keep_previous_task && store.current_task_id().is_some() {
        let backdated = store.with_event(switch_at(task_id, timestamp));
        let resume = crate::state::later_time(now, timestamp);
        store.lemma_with_event_wf(switch_at(task_id, timestamp));
        assert forall|i: int|
            0 <= i < backdated.events.len() && !backdated.events[i].kind.is_ping() implies (
        #[trigger] backdated.events[i]).event_timestamp <= resume by {
            if i < store.events.len() {
                assert(backdated.events[i] == store.events[i]);
            }
        }
        lemma_appended_is_current(
            backdated,
            EventKind::TaskSwitch(store.current_task_id().unwrap()),
            resume,
        );
    }
}

/// Changing elements that the predicate rejects, in a way that it still
/// rejects them, leaves what it keeps as it was.
pub proof fn lemma_filter_after_map<A>(s: Seq<A>, f: spec_fn(A) -> A, pred: spec_fn(A) -> bool)
    requires
        forall|a: A| pred(a) ==> #[trigger] f(a) == a,
        forall|a: A| !pred(a) ==> !pred(#[trigger] f(a)),
    ensures
        s.map_values(f).filter(pred) == s.filter(pred),
    decreases s.len(),
{
    reveal(Seq::filter);
    if s.len() > 0 {
        lemma_filter_after_map(s.drop_last(), f, pred);
        assert(s.map_values(f).drop_last() =~= s.drop_last().map_values(f));
        assert(s.map_values(f).last() == f(s.last()));
    }
}

/// The heartbeat changes nothing that the engine reads of the history:
/// neither the history nor, with it, the current task and the timesheet.
pub proof fn lemma_ping_keeps_history(store: StoreModel, now: i32)
    ensures
        without_pings(store.with_system_events_at(SystemEventType::Ping, now).events)
            == without_pings(store.events),
        history(store.with_system_events_at(SystemEventType::Ping, now)) == history(store),
        store.with_system_events_at(SystemEventType::Ping, now).current_task() == store.current_task(),
{
    let f = |e: Event|
        if e.kind.is_system(SystemEventType::Ping) {
            Event { event_timestamp: now, ..e }
        } else {
            e
        };
    let keep = |e: Event| !e.kind.is_system(SystemEventType::Ping);
    lemma_filter_after_map(store.events, f, keep);
    let after = store.with_system_events_at(SystemEventType::Ping, now);
    assert(after.tasks == store.tasks);
    assert(after.current_event() == store.current_event());
    match store.current_event() {
        Some(e) => match e.kind {
            EventKind::TaskSwitch(t) => {
                assert(after.find_task(t as int) == store.find_task(t as int));
            },
            EventKind::System(_) => {},
        },
        None => {},
    }
}

} // verus!
