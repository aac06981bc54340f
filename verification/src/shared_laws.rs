//! What holds of the states that a shared storage goes through, and of what is read from it.

use crate::cleanup::CleanupAction;
use crate::guarded::ShardState;
use crate::model::EntryView;
use crate::storage::{Storage, StorageError};
use std::sync::atomic::{AtomicBool, Ordering};
use std::time::Duration;
use tokio::sync::Notify;
use tokio::time::Instant;
use vstd::arithmetic::power2::*;
use vstd::prelude::*;

verus! {

/// What happens to a shard, at a reading of the clock.
pub enum Event {
    /// A value is cached under a key.
    Stored { key: Seq<char>, value: Seq<u8>, now: u128 },
    /// The expired keys are removed.
    CleanedUp { now: u128 },
}

impl Event {
    /// The reading of the clock.
    pub open spec fn time(self) -> u128 {
        match self {
            Event::Stored { now, .. } => now,
            Event::CleanedUp { now } => now,
        }
    }
}

/// Whether an event takes a shard from one state to another.
pub open spec fn is_effect(before: ShardState, after: ShardState, event: Event) -> bool {
    match event {
        Event::Stored { key, value, now } => crate::guarded::is_insertion_at(
            before,
            after,
            key,
            value,
            now,
        ),
        Event::CleanedUp { now } => crate::guarded::is_cleanup_at(before, after, now),
    }
}

/// Whether events take a shard through the given states, in order.
pub open spec fn is_run(states: Seq<ShardState>, events: Seq<Event>) -> bool {
    &&& states.len() == events.len() + 1
    &&& forall|i: int|
        0 <= i < events.len() ==> is_effect(states[i], states[i + 1], #[trigger] events[i])
}

/// What events leave under a key that was not there at first: the value that was last stored under
/// it, until a cleanup at or after the time at which it expires.
pub open spec fn left_by(events: Seq<Event>, ttl: u128, key: Seq<char>) -> Option<EntryView>
    decreases events.len(),
{
    if events.len() == 0 {
        None
    } else {
        let earlier = left_by(events.drop_last(), ttl, key);
        match events.last() {
            Event::Stored { key: stored, value, now } => if stored == key {
                Some(EntryView { value, expiration_time: now + ttl })
            } else {
                earlier
            },
            Event::CleanedUp { now } => match earlier {
                Some(entry) => if now < entry.expiration_time {
                    earlier
                } else {
                    None
                },
                None => None,
            },
        }
    }
}

/// The value of an optional entry.
pub open spec fn value_of(entry: Option<EntryView>) -> Option<Seq<u8>> {
    match entry {
        Some(entry) => Some(entry.value),
        None => None,
    }
}

/// The values that events store under a key, in order.
pub open spec fn values_stored(events: Seq<Event>, key: Seq<char>) -> Seq<Seq<u8>>
    decreases events.len(),
{
    if events.len() == 0 {
        Seq::empty()
    } else {
        let earlier = values_stored(events.drop_last(), key);
        match events.last() {
            Event::Stored { key: stored, value, .. } => if stored == key {
                earlier.push(value)
            } else {
                earlier
            },
            Event::CleanedUp { .. } => earlier,
        }
    }
}

/// The last of some values, if there are any.
pub open spec fn last_of(values: Seq<Seq<u8>>) -> Option<Seq<u8>> {
    if values.len() == 0 {
        None
    } else {
        Some(values.last())
    }
}

/// Whether all events come at or after the time `first`, and before a ttl has passed since then.
pub open spec fn come_within_ttl(events: Seq<Event>, first: u128, ttl: u128) -> bool {
    forall|i: int|
        0 <= i < events.len() ==> first <= (#[trigger] events[i]).time() < first + ttl
}

/// An event that takes a shard from one state to another.
spec fn event_between(before: ShardState, after: ShardState) -> Event {
    choose|event: Event| #[trigger] is_effect(before, after, event)
}

/// The states of a shard are what some events make of its first state: in each of them a value is
/// stored under a key of the shard, or the expired keys are removed, at a reading of the clock.
pub proof fn law_history_is_a_run(storage: Storage, i: int, states: Seq<ShardState>)
    requires
        storage.is_shard_history(i, states),
    ensures
        exists|events: Seq<Event>| #[trigger] is_run(states, events),
{
    let events = Seq::new(
        (states.len() - 1) as nat,
        |j: int| event_between(states[j], states[j + 1]),
    );
    assert forall|j: int| 0 <= j < events.len() implies is_effect(
        states[j],
        states[j + 1],
        #[trigger] events[j],
    ) by {
        assert(crate::guarded::is_step(states[j], states[j + 1]));
        let now = choose|now: u128|
            #![trigger crate::clock::clock_reads(states[j].start, now)]
            crate::guarded::is_step_at(states[j], states[j + 1], now);
        if crate::guarded::is_cleanup_at(states[j], states[j + 1], now) {
            assert(is_effect(states[j], states[j + 1], Event::CleanedUp { now }));
        } else {
            let (key, value) = choose|key: Seq<char>, value: Seq<u8>| #[trigger]
                crate::guarded::is_insertion_at(states[j], states[j + 1], key, value, now);
            assert(is_effect(states[j], states[j + 1], Event::Stored { key, value, now }));
        }
    }
    assert(is_run(states, events));
}

/// Through any run, a shard keeps its ttl, its clock and the keys that belong to it.
pub proof fn law_run_keeps_what_is_fixed(states: Seq<ShardState>, events: Seq<Event>, n: int)
    requires
        is_run(states, events),
        0 <= n < states.len(),
    ensures
        states[n].is_of_one_shard_with(states[0]),
    decreases n,
{
    if n > 0 {
        law_run_keeps_what_is_fixed(states, events, n - 1);
        assert(is_effect(states[n - 1], states[n - 1 + 1], events[n - 1]));
    }
}

/// Every event of the history of a shard comes at a reading of the clock of the storage, and stores
/// under keys of that shard only.
pub proof fn law_events_are_of_the_shard(
    storage: Storage,
    i: int,
    states: Seq<ShardState>,
    events: Seq<Event>,
    j: int,
)
    requires
        storage.wf(),
        0 <= i < storage.num_shards(),
        storage.is_shard_history(i, states),
        is_run(states, events),
        0 <= j < events.len(),
    ensures
        crate::clock::clock_reads(storage.start(), events[j].time()),
        events[j] matches Event::Stored { key, .. } ==> storage.shard_of(key) == i,
        states[j].ttl == storage.ttl(),
{
    crate::storage::lemma_storage(storage);
    law_run_keeps_what_is_fixed(states, events, j);
    assert(is_effect(states[j], states[j + 1], events[j]));
}

/// A shard that holds only keys that belong to it at first holds only such keys ever after.
pub proof fn law_shard_holds_its_own_keys(states: Seq<ShardState>, events: Seq<Event>, n: int)
    requires
        is_run(states, events),
        forall|key: Seq<char>| #[trigger]
            states[0].entries.contains_key(key) ==> states[0].owns(key),
        0 <= n < states.len(),
    ensures
        forall|key: Seq<char>| #[trigger]
            states[n].entries.contains_key(key) ==> states[n].owns(key),
    decreases n,
{
    if n > 0 {
        law_shard_holds_its_own_keys(states, events, n - 1);
        assert(is_effect(states[n - 1], states[n - 1 + 1], events[n - 1]));
        assert forall|key: Seq<char>| #[trigger]
            states[n].entries.contains_key(key) implies states[n].owns(key) by {
            assert(states[n - 1].entries.contains_key(key) || states[n - 1].owns(key));
        }
    }
}

/// What a shard holds under a key is what the events left there.
proof fn lemma_left_by(states: Seq<ShardState>, events: Seq<Event>, key: Seq<char>, n: int)
    requires
        is_run(states, events),
        !states[0].entries.contains_key(key),
        0 <= n < states.len(),
    ensures
        states[n].entries.contains_key(key) <==> left_by(
            events.take(n),
            states[0].ttl,
            key,
        ) is Some,
        states[n].entries.contains_key(key) ==> left_by(events.take(n), states[0].ttl, key) == Some(
            states[n].entries[key],
        ),
    decreases n,
{
    if n > 0 {
        lemma_left_by(states, events, key, n - 1);
        law_run_keeps_what_is_fixed(states, events, n - 1);
        assert(is_effect(states[n - 1], states[n - 1 + 1], events[n - 1]));
        assert(events.take(n).drop_last() =~= events.take(n - 1));
        assert(events.take(n).last() == events[n - 1]);
    }
}

/// Every key belongs to one of the shards of a storage.
proof fn lemma_shard_in_range(storage: Storage, key: Seq<char>)
    requires
        storage.wf(),
    ensures
        0 <= storage.shard_of(key) < storage.num_shards(),
{
    crate::storage::lemma_storage(storage);
    crate::placement::lemma_shift(storage.placement());
    crate::placement::lemma_power_of_two_positive(storage.num_shards() as int);
    crate::placement::lemma_shard_index_in_range(
        storage.placement().hash(key),
        storage.num_shards() as int,
    );
}

/// A request for a key is answered with what the events before it left under the key: the value that
/// was last stored, and 404 if there is none or if a cleanup came at or after the time at which the
/// value expires, one ttl after it was stored.
pub proof fn law_read_gives_what_was_left(
    storage: Storage,
    states: Seq<ShardState>,
    events: Seq<Event>,
    key: Seq<char>,
    read: Option<Seq<u8>>,
)
    requires
        storage.wf(),
        storage.reads_after(states, key, read),
        is_run(states, events),
        !storage.first_state(storage.shard_of(key)).entries.contains_key(key),
    ensures
        read == value_of(left_by(events, storage.ttl(), key)),
        crate::http::get_answer(read) == crate::http::get_answer(
            value_of(left_by(events, storage.ttl(), key)),
        ),
{
    lemma_shard_in_range(storage, key);
    crate::storage::lemma_storage(storage);
    lemma_left_by(states, events, key, events.len() as int);
    assert(events.take(events.len() as int) =~= events);
}

/// A value that is read is one that was stored whole: if the shard of the key did not hold the key
/// at first, one of its changes caches that very value under the key.
pub proof fn law_read_value_was_stored(storage: Storage, key: Seq<char>, value: Seq<u8>)
    requires
        storage.reads(key, Some(value)),
        !storage.first_state(storage.shard_of(key)).entries.contains_key(key),
    ensures
        exists|before: ShardState, after: ShardState|
            {
                &&& #[trigger] storage.shard_changes(storage.shard_of(key)).contains(
                    (before, after),
                )
                &&& crate::guarded::is_insertion(before, after, key, value)
            },
{
    let states = choose|states: Seq<ShardState>| #[trigger]
        storage.reads_after(states, key, Some(value));
    law_history_is_a_run(storage, storage.shard_of(key), states);
    let events = choose|events: Seq<Event>| #[trigger] is_run(states, events);
    lemma_left_by(states, events, key, events.len() as int);
    assert(events.take(events.len() as int) =~= events);
    lemma_left_was_stored(events, states[0].ttl, key);
    let i = choose|i: int| #[trigger] stores_value(events, i, key, value);
    assert(is_effect(states[i], states[i + 1], events[i]));
    assert(crate::clock::clock_reads(states[i].start, events[i].time()));
    assert(storage.shard_changes(storage.shard_of(key)).contains((states[i], states[i + 1])));
}

/// Whether the event at index `i` stores `value` under `key`.
spec fn stores_value(events: Seq<Event>, i: int, key: Seq<char>, value: Seq<u8>) -> bool {
    &&& 0 <= i < events.len()
    &&& events[i] matches Event::Stored { key: stored, value: v, .. } && stored == key && v == value
}

/// What events leave, one of them has stored.
proof fn lemma_left_was_stored(events: Seq<Event>, ttl: u128, key: Seq<char>)
    ensures
        left_by(events, ttl, key) matches Some(entry) ==> exists|i: int| #[trigger]
            stores_value(events, i, key, entry.value),
    decreases events.len(),
{
    if events.len() > 0 {
        let earlier = events.drop_last();
        lemma_left_was_stored(earlier, ttl, key);
        if let Some(entry) = left_by(events, ttl, key) {
            if left_by(earlier, ttl, key) == Some(entry) {
                let i = choose|i: int| #[trigger] stores_value(earlier, i, key, entry.value);
                assert(stores_value(events, i, key, entry.value));
            } else {
                assert(stores_value(events, events.len() - 1, key, entry.value));
            }
        }
    }
}

/// A key that is never set is not found.
pub proof fn law_key_never_set_is_not_found(
    storage: Storage,
    states: Seq<ShardState>,
    events: Seq<Event>,
    key: Seq<char>,
    read: Option<Seq<u8>>,
)
    requires
        storage.wf(),
        storage.reads_after(states, key, read),
        is_run(states, events),
        !storage.first_state(storage.shard_of(key)).entries.contains_key(key),
        forall|i: int|
            0 <= i < events.len() ==> !(#[trigger] events[i] matches Event::Stored {
                key: stored,
                ..
            } && stored == key),
    ensures
        read is None,
        crate::http::get_answer(read).status == 404,
{
    law_read_gives_what_was_left(storage, states, events, key, read);
    lemma_left_was_stored(events, storage.ttl(), key);
    if let Some(value) = read {
        let i = choose|i: int| #[trigger] stores_value(events, i, key, value);
        assert(events[i] is Stored);
    }
}

/// What is left of a key after it is stored, while it is not stored again.
proof fn lemma_left_after_storing(events: Seq<Event>, ttl: u128, key: Seq<char>, j: int, n: int)
    requires
        0 <= j < n <= events.len(),
        events[j] matches Event::Stored { key: stored, .. } && stored == key,
        forall|i: int|
            j < i < n ==> !(#[trigger] events[i] matches Event::Stored { key: stored, .. }
                && stored == key),
    ensures
        ({
            let expiration_time = events[j].time() + ttl;
            let left = left_by(events.take(n), ttl, key);
            &&& (forall|i: int|
                j < i < n && (#[trigger] events[i]) is CleanedUp ==> events[i].time()
                    < expiration_time) ==> left is Some
            &&& (exists|i: int|
                j < i < n && (#[trigger] events[i]) is CleanedUp && expiration_time
                    <= events[i].time()) ==> left is None
            &&& left matches Some(entry) ==> {
                &&& entry.value == events[j]->Stored_value
                &&& entry.expiration_time == expiration_time
            }
        }),
    decreases n,
{
    assert(events.take(n).drop_last() =~= events.take(n - 1));
    assert(events.take(n).last() == events[n - 1]);
    if n - 1 > j {
        lemma_left_after_storing(events, ttl, key, j, n - 1);
    }
}

/// A key lives for exactly one ttl, as a read finds it. Let the event at index `j` be the last one
/// before the read that stores under the key. The read gives that value as long as no cleanup has
/// come since then at or after one ttl from the time of that event, and nothing once one has. So to
/// set a key again resets its ttl: what was stored before, and when, does not matter.
pub proof fn law_read_key_lives_for_its_ttl(
    storage: Storage,
    states: Seq<ShardState>,
    events: Seq<Event>,
    key: Seq<char>,
    read: Option<Seq<u8>>,
    j: int,
    value: Seq<u8>,
    now: u128,
)
    requires
        storage.wf(),
        storage.reads_after(states, key, read),
        is_run(states, events),
        !storage.first_state(storage.shard_of(key)).entries.contains_key(key),
        0 <= j < events.len(),
        events[j] == (Event::Stored { key, value, now }),
        forall|i: int|
            j < i < events.len() ==> !(#[trigger] events[i] matches Event::Stored {
                key: stored,
                ..
            } && stored == key),
    ensures
        (forall|i: int|
            j < i < events.len() && (#[trigger] events[i]) is CleanedUp ==> events[i].time() < now
                + storage.ttl()) ==> read == Some(value),
        (exists|i: int|
            j < i < events.len() && (#[trigger] events[i]) is CleanedUp && now + storage.ttl()
                <= events[i].time()) ==> read is None,
{
    law_read_gives_what_was_left(storage, states, events, key, read);
    lemma_left_after_storing(events, storage.ttl(), key, j, events.len() as int);
    assert(events.take(events.len() as int) =~= events);
}

/// What is left within a ttl is what was last stored.
proof fn lemma_left_within_ttl(events: Seq<Event>, first: u128, ttl: u128, key: Seq<char>)
    requires
        come_within_ttl(events, first, ttl),
    ensures
        value_of(left_by(events, ttl, key)) == last_of(values_stored(events, key)),
        left_by(events, ttl, key) matches Some(entry) ==> first + ttl <= entry.expiration_time,
    decreases events.len(),
{
    if events.len() > 0 {
        let earlier = events.drop_last();
        assert(come_within_ttl(earlier, first, ttl)) by {
            assert forall|i: int| 0 <= i < earlier.len() implies first <= (
            #[trigger] earlier[i]).time() < first + ttl by {
                assert(earlier[i] == events[i]);
            }
        }
        lemma_left_within_ttl(earlier, first, ttl, key);
        let last = events[events.len() - 1];
        assert(first <= last.time() < first + ttl);
    }
}

/// Within a ttl of the first event, a read gives what a plain map gives: the value that was last
/// stored under the key. So the same values, stored in the same order under a key, are read alike
/// from any two storages, whatever their ttl, their numbers of shards, the distribution of their
/// keys, what is stored under other keys and when the expired keys are removed.
pub proof fn law_reads_do_not_depend_on_shards(
    a: Storage,
    a_states: Seq<ShardState>,
    a_events: Seq<Event>,
    a_first: u128,
    a_read: Option<Seq<u8>>,
    b: Storage,
    b_states: Seq<ShardState>,
    b_events: Seq<Event>,
    b_first: u128,
    b_read: Option<Seq<u8>>,
    key: Seq<char>,
)
    requires
        a.wf(),
        a.reads_after(a_states, key, a_read),
        is_run(a_states, a_events),
        come_within_ttl(a_events, a_first, a.ttl()),
        !a.first_state(a.shard_of(key)).entries.contains_key(key),
        b.wf(),
        b.reads_after(b_states, key, b_read),
        is_run(b_states, b_events),
        come_within_ttl(b_events, b_first, b.ttl()),
        !b.first_state(b.shard_of(key)).entries.contains_key(key),
        values_stored(a_events, key) == values_stored(b_events, key),
    ensures
        a_read == last_of(values_stored(a_events, key)),
        b_read == a_read,
{
    law_read_gives_what_was_left(a, a_states, a_events, key, a_read);
    law_read_gives_what_was_left(b, b_states, b_events, key, b_read);
    lemma_left_within_ttl(a_events, a_first, a.ttl(), key);
    lemma_left_within_ttl(b_events, b_first, b.ttl(), key);
}

/// A task stores a value in one exclusive access to the shard of the key: when the access ends, the
/// shard holds the value under the key, and under the other keys what it held when the access began.
pub proof fn law_stored_value_is_held(
    storage: Storage,
    states: Seq<ShardState>,
    key: Seq<char>,
    value: Seq<u8>,
    other: Seq<char>,
)
    requires
        storage.stores_after(states, key, value),
        other != key,
    ensures
        storage.shard_changes(storage.shard_of(key)).contains(
            (states[states.len() - 2], states.last()),
        ),
        crate::model::lookup(states.last().entries, key) == Some(value),
        crate::model::lookup(states.last().entries, other) == crate::model::lookup(
            states[states.len() - 2].entries,
            other,
        ),
{
    let n = states.len() - 2;
    assert(storage.shard_changes(storage.shard_of(key)).contains((states[n], states[n + 1])));
}

/// The shards of a new storage hold no key at first.
pub proof fn law_new_storage_is_empty_at_first(
    made: Result<Storage, StorageError>,
    ttl: u128,
    num_shards: Option<usize>,
    key: Seq<char>,
)
    requires
        crate::storage::is_new_storage(made, ttl, num_shards),
        made is Ok,
    ensures
        !made->Ok_0.first_state(made->Ok_0.shard_of(key)).entries.contains_key(key),
{
    let storage = made->Ok_0;
    assert(storage.first_state(storage.shard_of(key)).entries == Map::<
        Seq<char>,
        EntryView,
    >::empty());
}

/// A key that a shard holds is removed by a cleanup at or after the time at which it expires, and by
/// nothing else.
pub proof fn law_exactly_the_expired_keys_are_removed(
    before: ShardState,
    after: ShardState,
    event: Event,
    key: Seq<char>,
)
    requires
        is_effect(before, after, event),
        before.entries.contains_key(key),
    ensures
        !after.entries.contains_key(key) <==> event is CleanedUp
            && before.entries[key].expiration_time <= event.time(),
{
}

/// A cleanup task that is not told to end goes on: it waits for the first of the keys to expire if
/// there are any, and else for a notification, and no key of the shard has expired.
pub proof fn law_cleanup_task_goes_on(
    storage: Storage,
    states: Seq<ShardState>,
    i: int,
    action: CleanupAction,
)
    requires
        storage.cleans_up_after(states, i, action),
    ensures
        action !is Stop,
        action is AwaitNotification <==> states.last().entries == Map::<
            Seq<char>,
            EntryView,
        >::empty(),
        exists|now: u128|
            {
                &&& #[trigger] crate::clock::clock_reads(states.last().start, now)
                &&& forall|key: Seq<char>| #[trigger]
                    states.last().entries.contains_key(key) ==> now
                        < states.last().entries[key].expiration_time
            },
{
    let before = states[states.len() - 2];
    let now = choose|now: u128|
        #![trigger crate::clock::clock_reads(before.start, now)]
        crate::guarded::is_cleanup_at(before, states.last(), now);
    assert(crate::clock::clock_reads(states.last().start, now));
    if let CleanupAction::SleepUntil(time) = action {
        let key = choose|key: Seq<char>| #[trigger]
            states.last().entries.contains_key(key) && states.last().entries[key].expiration_time
                == time;
        assert(states.last().entries.contains_key(key));
    }
}

/// A cleanup task that sleeps until the first of the keys expires misses none: as long as the clock
/// does not go back, no key that is stored meanwhile expires sooner.
pub proof fn law_sleeping_task_misses_no_key(
    states: Seq<ShardState>,
    events: Seq<Event>,
    since: u128,
    next: u128,
    n: int,
)
    requires
        is_run(states, events),
        crate::model::is_next_expiration(states[0].entries, Some(next)),
        crate::laws::within_ttl(states[0].entries, since, states[0].ttl),
        forall|i: int| 0 <= i < events.len() ==> since <= (#[trigger] events[i]).time(),
        0 <= n < states.len(),
    ensures
        forall|key: Seq<char>| #[trigger]
            states[n].entries.contains_key(key) ==> next <= states[n].entries[key].expiration_time,
    decreases n,
{
    let first = choose|key: Seq<char>| #[trigger]
        states[0].entries.contains_key(key) && states[0].entries[key].expiration_time == next;
    assert(states[0].entries.contains_key(first));
    assert(next <= since + states[0].ttl);
    if n > 0 {
        law_sleeping_task_misses_no_key(states, events, since, next, n - 1);
        law_run_keeps_what_is_fixed(states, events, n - 1);
        assert(is_effect(states[n - 1], states[n - 1 + 1], events[n - 1]));
        assert(since <= events[n - 1].time());
        assert forall|key: Seq<char>| #[trigger] states[n].entries.contains_key(key) implies next
            <= states[n].entries[key].expiration_time by {
            assert(states[n - 1].entries.contains_key(key) || events[n - 1] is Stored);
        }
    }
}

/// A cleanup task that waits for a notification gets one. It waits because its shard is empty, the
/// shard stays empty until the first key is stored, and the task is notified of that key.
pub proof fn law_waiting_task_is_notified_of_the_first_key(
    storage: Storage,
    states: Seq<ShardState>,
    events: Seq<Event>,
    c: int,
    key: Seq<char>,
    value: Seq<u8>,
)
    requires
        storage.stores_after(states, key, value),
        is_run(states, events),
        0 <= c < events.len(),
        crate::cleanup::awaits_next(CleanupAction::AwaitNotification, states[c].entries),
        forall|i: int| c <= i < events.len() - 1 ==> (#[trigger] events[i]) is CleanedUp,
    ensures
        is_notified_of(storage, key),
{
    lemma_stays_empty(states, events, c, events.len() - 1);
}

/// Whether the cleanup task of the shard of a key is notified.
pub open spec fn is_notified_of(storage: Storage, key: Seq<char>) -> bool {
    crate::storage::is_notified(storage.waker(storage.shard_of(key)))
}

/// An empty shard stays empty while nothing is stored in it.
proof fn lemma_stays_empty(states: Seq<ShardState>, events: Seq<Event>, c: int, n: int)
    requires
        is_run(states, events),
        0 <= c <= n < states.len(),
        states[c].entries == Map::<Seq<char>, EntryView>::empty(),
        forall|i: int| c <= i < n ==> (#[trigger] events[i]) is CleanedUp,
    ensures
        states[n].entries == Map::<Seq<char>, EntryView>::empty(),
    decreases n,
{
    if n > c {
        lemma_stays_empty(states, events, c, n - 1);
        assert(is_effect(states[n - 1], states[n - 1 + 1], events[n - 1]));
        assert(events[n - 1] is CleanedUp);
        assert(states[n].entries =~= Map::<Seq<char>, EntryView>::empty());
    }
}

/// A reading of the clock is the whole time that has passed since the start, to the nanosecond.
pub proof fn law_clock_reads_all_the_time_that_passed(start: Instant, now: u128)
    ensures
        crate::clock::clock_reads(start, now) <==> exists|elapsed: Duration|
            {
                &&& #[trigger] call_ensures(Instant::elapsed, (&start,), elapsed)
                &&& now == crate::clock::duration_nanos(elapsed)
                &&& now <= crate::model::MAX_NANOS
            },
{
}

/// To store a value under a key is one exclusive access to the shard of that very key. It puts the
/// value there, to expire one ttl of the storage after the time that has then passed since the clock
/// started, and leaves all other entries as they are. The cleanup task of the shard is notified if
/// the shard held nothing.
pub proof fn law_store_is_one_change(storage: Storage, key: Seq<char>, value: Seq<u8>)
    requires
        storage.wf(),
        storage.stores(key, value),
    ensures
        exists|before: ShardState, after: ShardState, elapsed: Duration|
            {
                &&& #[trigger] storage.shard_changes(storage.shard_of(key)).contains(
                    (before, after),
                )
                &&& #[trigger] call_ensures(Instant::elapsed, (&storage.start(),), elapsed)
                &&& after.entries == before.entries.insert(
                    key,
                    EntryView {
                        value,
                        expiration_time: crate::clock::duration_nanos(elapsed) + storage.ttl(),
                    },
                )
                &&& (forall|other: Seq<char>| !(#[trigger] before.entries.contains_key(other)))
                    ==> call_ensures(
                    Notify::notify_one,
                    (&storage.waker(storage.shard_of(key)),),
                    (),
                )
            },
{
    let states = choose|states: Seq<ShardState>| #[trigger]
        storage.stores_after(states, key, value);
    let n = states.len() - 2;
    let before = states[n];
    let after = states[n + 1];
    lemma_shard_in_range(storage, key);
    crate::storage::lemma_storage(storage);
    crate::guarded::lemma_fixed(states, n);
    let now = choose|now: u128|
        #![trigger crate::clock::clock_reads(before.start, now)]
        crate::guarded::is_insertion_at(before, after, key, value, now);
    let elapsed = choose|elapsed: Duration|
        {
            &&& #[trigger] call_ensures(Instant::elapsed, (&before.start,), elapsed)
            &&& now == crate::clock::duration_nanos(elapsed) <= crate::model::MAX_NANOS
        };
    assert(storage.shard_changes(storage.shard_of(key)).contains((before, after)));
    assert(call_ensures(Instant::elapsed, (&storage.start(),), elapsed));
    if forall|other: Seq<char>| !(#[trigger] before.entries.contains_key(other)) {
        assert(before.entries =~= Map::<Seq<char>, EntryView>::empty());
    }
}

/// To ask for a key is one shared access to the shard of that very key, which gives what the shard
/// then holds under it.
pub proof fn law_read_is_what_the_shard_holds(
    storage: Storage,
    key: Seq<char>,
    value: Option<Seq<u8>>,
)
    requires
        storage.reads(key, value),
    ensures
        exists|states: Seq<ShardState>|
            {
                &&& #[trigger] storage.shard_reads(storage.shard_of(key)).contains(states)
                &&& states.len() > 0
                &&& states[0] == storage.first_state(storage.shard_of(key))
                &&& value is Some <==> states.last().entries.contains_key(key)
                &&& value is Some ==> value->0 == states.last().entries[key].value
            },
{
    let states = choose|states: Seq<ShardState>| #[trigger]
        storage.reads_after(states, key, value);
    assert(storage.shard_reads(storage.shard_of(key)).contains(states));
}

/// To clean up a shard is one exclusive access to it. The keys that it removes are exactly those
/// whose time of expiration is not after the time that has then passed since the clock started. The
/// cleanup task next waits until the first of the remaining keys expires, or for a notification if
/// none remains.
pub proof fn law_cleanup_is_one_change(storage: Storage, i: int, action: CleanupAction)
    requires
        storage.wf(),
        0 <= i < storage.num_shards(),
        storage.cleans_up(i, action),
    ensures
        exists|before: ShardState, after: ShardState, elapsed: Duration|
            {
                &&& #[trigger] storage.shard_changes(i).contains((before, after))
                &&& #[trigger] call_ensures(Instant::elapsed, (&storage.start(),), elapsed)
                &&& keeps_after(before, after, crate::clock::duration_nanos(elapsed))
                &&& match action {
                    CleanupAction::Stop => false,
                    CleanupAction::SleepUntil(time) => {
                        &&& exists|key: Seq<char>| #[trigger]
                            after.entries.contains_key(key) && after.entries[key].expiration_time
                                == time
                        &&& forall|key: Seq<char>| #[trigger]
                            after.entries.contains_key(key) ==> time
                                <= after.entries[key].expiration_time
                    },
                    CleanupAction::AwaitNotification => forall|key: Seq<char>|
                        !(#[trigger] after.entries.contains_key(key)),
                }
            },
{
    let states = choose|states: Seq<ShardState>| #[trigger]
        storage.cleans_up_after(states, i, action);
    let n = states.len() - 2;
    let before = states[n];
    let after = states[n + 1];
    crate::storage::lemma_storage(storage);
    crate::guarded::lemma_fixed(states, n);
    let now = choose|now: u128|
        #![trigger crate::clock::clock_reads(before.start, now)]
        crate::guarded::is_cleanup_at(before, after, now);
    let elapsed = choose|elapsed: Duration|
        {
            &&& #[trigger] call_ensures(Instant::elapsed, (&before.start,), elapsed)
            &&& now == crate::clock::duration_nanos(elapsed) <= crate::model::MAX_NANOS
        };
    assert(storage.shard_changes(i).contains((before, after)));
    assert(call_ensures(Instant::elapsed, (&storage.start(),), elapsed));
}

/// Whether `after` holds those entries of `before` that expire later than `now`, as they are, and
/// nothing else.
pub open spec fn keeps_after(before: ShardState, after: ShardState, now: u128) -> bool {
    &&& forall|key: Seq<char>| #[trigger]
        after.entries.contains_key(key) <==> before.entries.contains_key(key) && now
            < before.entries[key].expiration_time
    &&& forall|key: Seq<char>| #[trigger]
        after.entries.contains_key(key) ==> after.entries[key] == before.entries[key]
}

/// A storage that is made has the ttl that was asked for, whatever it is, and the number of shards
/// that was asked for, which is a power of two. It holds no key at first, and its clock and its
/// flag are new.
pub proof fn law_new_storage_is_as_asked(
    made: Result<Storage, StorageError>,
    ttl: u128,
    num_shards: Option<usize>,
    key: Seq<char>,
)
    requires
        crate::storage::is_new_storage(made, ttl, num_shards),
        made is Ok,
    ensures
        made->Ok_0.ttl() == ttl,
        num_shards == Some(made->Ok_0.num_shards()),
        exists|k: nat| made->Ok_0.num_shards() == #[trigger] pow2(k),
        made->Ok_0.first_state(made->Ok_0.shard_of(key)).ttl == ttl,
        !made->Ok_0.first_state(made->Ok_0.shard_of(key)).entries.contains_key(key),
        call_ensures(AtomicBool::new, (false,), made->Ok_0.flag()),
        call_ensures(Instant::now, (), made->Ok_0.start()),
{
    let storage = made->Ok_0;
    lemma_shard_in_range(storage, key);
    crate::storage::lemma_storage(storage);
    crate::storage::lemma_started(storage);
    crate::placement::lemma_shift(storage.placement());
    assert(storage.first_state(storage.shard_of(key)).entries == Map::<
        Seq<char>,
        EntryView,
    >::empty());
}

/// A storage with a given number of shards is refused exactly if the number is not a power of two.
pub proof fn law_storage_is_refused_iff_not_a_power_of_two(
    made: Result<Storage, StorageError>,
    ttl: u128,
    num_shards: usize,
)
    requires
        crate::storage::is_new_storage(made, ttl, Some(num_shards)),
    ensures
        made is Err <==> forall|k: nat| num_shards != #[trigger] pow2(k),
{
}

/// A value that is read from a new storage was stored under that very key in one of the changes of
/// its shard, to expire one of the asked ttl after the time that had then passed since the clock
/// started.
pub proof fn law_read_from_new_storage_was_stored_for_the_asked_ttl(
    made: Result<Storage, StorageError>,
    ttl: u128,
    num_shards: Option<usize>,
    key: Seq<char>,
    value: Seq<u8>,
)
    requires
        crate::storage::is_new_storage(made, ttl, num_shards),
        made is Ok,
        made->Ok_0.reads(key, Some(value)),
    ensures
        exists|before: ShardState, after: ShardState, elapsed: Duration|
            {
                &&& #[trigger] made->Ok_0.shard_changes(made->Ok_0.shard_of(key)).contains(
                    (before, after),
                )
                &&& #[trigger] call_ensures(Instant::elapsed, (&made->Ok_0.start(),), elapsed)
                &&& after.entries == before.entries.insert(
                    key,
                    EntryView {
                        value,
                        expiration_time: crate::clock::duration_nanos(elapsed) + ttl,
                    },
                )
            },
{
    let storage = made->Ok_0;
    law_new_storage_is_as_asked(made, ttl, num_shards, key);
    let states = choose|states: Seq<ShardState>| #[trigger]
        storage.reads_after(states, key, Some(value));
    law_history_is_a_run(storage, storage.shard_of(key), states);
    let events = choose|events: Seq<Event>| #[trigger] is_run(states, events);
    lemma_left_by(states, events, key, events.len() as int);
    assert(events.take(events.len() as int) =~= events);
    lemma_left_was_stored(events, states[0].ttl, key);
    let i = choose|i: int| #[trigger] stores_value(events, i, key, value);
    assert(is_effect(states[i], states[i + 1], events[i]));
    lemma_shard_in_range(storage, key);
    law_events_are_of_the_shard(storage, storage.shard_of(key), states, events, i);
    let now = events[i].time();
    let elapsed = choose|elapsed: Duration|
        {
            &&& #[trigger] call_ensures(Instant::elapsed, (&storage.start(),), elapsed)
            &&& now == crate::clock::duration_nanos(elapsed) <= crate::model::MAX_NANOS
        };
    assert(storage.shard_changes(storage.shard_of(key)).contains((states[i], states[i + 1])));
    assert(call_ensures(Instant::elapsed, (&storage.start(),), elapsed));
}

/// The cleanup tasks end if an acquire load of the flag gives that they are to end, and are told so
/// by a release store to that flag, and by a notification.
pub proof fn law_flag_is_loaded_and_stored(storage: Storage, shutting_down: bool, waker: Notify)
    ensures
        storage.flag_reads(shutting_down) <==> call_ensures(
            AtomicBool::load,
            (&storage.flag(), Ordering::Acquire),
            shutting_down,
        ),
        storage.flag_is_set_to(shutting_down) <==> call_ensures(
            AtomicBool::store,
            (&storage.flag(), shutting_down, Ordering::Release),
            (),
        ),
        crate::storage::is_notified(waker) <==> call_ensures(Notify::notify_one, (&waker,), ()),
{
    crate::storage::lemma_flag(storage, shutting_down);
}

} // verus!
