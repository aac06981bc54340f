//! A shard as the lock of a shared storage guards it, and how it changes.

use crate::cleanup::{clean_up_shard, CleanupAction};
use crate::clock::read_clock;
use crate::model::{Entries, EntryView, Key, MAX_NANOS};
use crate::placement::Placement;
use crate::shard::Shard;
use bytes::Bytes;
use std::sync::Arc;
use tokio::sync::Notify;
use tokio::time::Instant;
use vstd::prelude::*;

verus! {

/// A state of a guarded shard: its entries, and what never changes. That is the time that an entry
/// lives, when the clock started, what notifies the cleanup task, and which keys belong to the
/// shard: those that the placement puts at its index.
#[verifier::ext_equal]
pub struct ShardState {
    pub entries: Entries,
    pub ttl: u128,
    pub start: Instant,
    pub waker: Notify,
    pub placement: Placement,
    pub index: int,
}

impl ShardState {
    /// Whether a key belongs to the shard.
    pub open spec fn owns(self, key: Seq<char>) -> bool {
        self.placement.shard_of(key) == self.index
    }

    /// Whether two states agree on all that never changes.
    pub open spec fn is_of_one_shard_with(self, other: ShardState) -> bool {
        self == ShardState { entries: self.entries, ..other }
    }
}

/// Whether `after` is `before` with `value` cached under `key`, which belongs to the shard, for one
/// ttl from when the clock reads `now`.
pub open spec fn is_insertion_at(
    before: ShardState,
    after: ShardState,
    key: Seq<char>,
    value: Seq<u8>,
    now: u128,
) -> bool {
    &&& crate::clock::clock_reads(before.start, now)
    &&& before.owns(key)
    &&& after == (ShardState {
        entries: crate::model::with_entry(before.entries, key, value, now + before.ttl),
        ..before
    })
}

/// Whether `after` is `before` with `value` cached under `key`, which belongs to the shard, for one
/// ttl from a reading of the clock on.
pub open spec fn is_insertion(
    before: ShardState,
    after: ShardState,
    key: Seq<char>,
    value: Seq<u8>,
) -> bool {
    exists|now: u128|
        #![trigger crate::clock::clock_reads(before.start, now)]
        is_insertion_at(before, after, key, value, now)
}

/// Whether `after` is `before` without the keys that have expired when the clock reads `now`.
pub open spec fn is_cleanup_at(before: ShardState, after: ShardState, now: u128) -> bool {
    &&& crate::clock::clock_reads(before.start, now)
    &&& after == (ShardState {
        entries: crate::model::unexpired(before.entries, now),
        ..before
    })
}

/// Whether `after` is `before` without the keys that have expired at a reading of the clock, and
/// `action` is to wait for the next key to expire.
pub open spec fn is_cleanup(before: ShardState, after: ShardState, action: CleanupAction) -> bool {
    &&& exists|now: u128|
        #![trigger crate::clock::clock_reads(before.start, now)]
        is_cleanup_at(before, after, now)
    &&& crate::cleanup::awaits_next(action, after.entries)
}

/// Whether `after` is what becomes of `before` when, at the time `now`, a value is cached or the
/// expired keys are removed.
pub open spec fn is_step_at(before: ShardState, after: ShardState, now: u128) -> bool {
    ||| exists|key: Seq<char>, value: Seq<u8>| #[trigger]
        is_insertion_at(before, after, key, value, now)
    ||| is_cleanup_at(before, after, now)
}

/// Whether `after` is what becomes of `before` when a value is cached or the expired keys are
/// removed.
pub open spec fn is_step(before: ShardState, after: ShardState) -> bool {
    exists|now: u128|
        #![trigger crate::clock::clock_reads(before.start, now)]
        is_step_at(before, after, now)
}

/// What never changes of a shard does not change in any number of steps.
pub proof fn lemma_fixed(states: Seq<ShardState>, n: int)
    requires
        0 <= n < states.len(),
        forall|i: int, j: int|
            0 <= i && j == i + 1 && j < states.len() ==> is_step(
                #[trigger] states[i],
                #[trigger] states[j],
            ),
    ensures
        states[n].is_of_one_shard_with(states[0]),
    decreases n,
{
    if n > 0 {
        lemma_fixed(states, n - 1);
        assert(is_step(states[n - 1], states[n - 1 + 1]));
    }
}

/// A shard together with the ttl of its keys, the clock that they expire by and what notifies its
/// cleanup task.
pub struct GuardedShard {
    shard: Shard,
    ttl: u128,
    start: Instant,
    cleanup_waker: Arc<Notify>,
    placement: Ghost<Placement>,
    index: Ghost<int>,
}

impl View for GuardedShard {
    type V = ShardState;

    closed spec fn view(&self) -> ShardState {
        ShardState {
            entries: self.shard@,
            ttl: self.ttl,
            start: self.start,
            waker: *self.cleanup_waker,
            placement: self.placement@,
            index: self.index@,
        }
    }
}

impl GuardedShard {
    /// Guards a shard, for the keys that `placement` puts at `index`.
    pub(crate) fn new(
        shard: Shard,
        ttl: u128,
        start: Instant,
        cleanup_waker: Arc<Notify>,
        placement: Ghost<Placement>,
        index: Ghost<int>,
    ) -> (guarded: GuardedShard)
        ensures
            guarded@ == (ShardState {
                entries: shard@,
                ttl,
                start,
                waker: *cleanup_waker,
                placement: placement@,
                index: index@,
            }),
    {
        GuardedShard { shard, ttl, start, cleanup_waker, placement, index }
    }

    /// Insert a key with an associated value. If the key already exists the value will be
    /// overwritten and the ttl will reset. The cleanup task is notified if the shard was empty.
    ///
    /// The result says whether it was.
    pub(crate) fn insert(&mut self, key: Key, value: Bytes) -> (should_notify: bool)
        requires
            old(self)@.owns(key@),
            old(self)@.ttl <= MAX_NANOS,
        ensures
            is_insertion(old(self)@, final(self)@, key@, crate::payload::contents(value)),
            should_notify == (old(self)@.entries == Map::<Seq<char>, EntryView>::empty()),
            should_notify ==> crate::storage::is_notified(old(self)@.waker),
    {
        let now = read_clock(&self.start);
        let expiration_time = now + self.ttl;
        let ghost name = key@;
        let should_notify = self.shard.insert(key, value, expiration_time);
        assert(crate::clock::clock_reads(old(self)@.start, now));
        assert(is_insertion_at(old(self)@, self@, name, crate::payload::contents(value), now));
        if should_notify {
            self.cleanup_waker.notify_one();
        }
        should_notify
    }

    /// Get the value of a given key
    pub(crate) fn get(&self, key: &Key) -> (value: Option<Bytes>)
        ensures
            crate::payload::contents_of(value) == crate::model::lookup(self@.entries, key@),
    {
        self.shard.get(key)
    }

    /// Removes the expired keys, and says what the cleanup task of the shard does next.
    pub(crate) fn clean_up(&mut self) -> (action: CleanupAction)
        ensures
            is_cleanup(old(self)@, final(self)@, action),
    {
        let now = read_clock(&self.start);
        let action = clean_up_shard(&mut self.shard, now);
        assert(crate::clock::clock_reads(old(self)@.start, now));
        assert(is_cleanup_at(old(self)@, self@, now));
        action
    }
}

} // verus!
