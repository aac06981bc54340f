//! The removal of expired keys.

use crate::model::MAX_NANOS;
use crate::shard::Shard;
use vstd::prelude::*;

verus! {

/// What the cleanup task of a shard does next.
#[derive(Clone, Copy, Debug, PartialEq, Eq, Structural)]
pub enum CleanupAction {
    /// End.
    Stop,
    /// Clean up again once the clock reaches the given time, in nanoseconds, or when notified.
    SleepUntil(u128),
    /// Clean up again when notified.
    AwaitNotification,
}

/// Whether `action` is to wait for the first of the entries to expire, or for a notification if
/// there are no entries.
pub open spec fn awaits_next(action: CleanupAction, entries: crate::model::Entries) -> bool {
    match action {
        CleanupAction::Stop => false,
        CleanupAction::SleepUntil(time) => crate::model::is_next_expiration(entries, Some(time)),
        CleanupAction::AwaitNotification => crate::model::is_next_expiration(entries, None),
    }
}

/// Removes the keys of a shard that have expired at time `now`. The task then waits for the next
/// key to expire, or for a notification if there is no key left.
pub fn clean_up_shard(shard: &mut Shard, now: u128) -> (action: CleanupAction)
    ensures
        final(shard)@ == crate::model::unexpired(old(shard)@, now),
        awaits_next(action, final(shard)@),
        action !is Stop,
        forall|key: Seq<char>| #[trigger]
            final(shard)@.contains_key(key) <==> old(shard)@.contains_key(key) && now < old(
                shard,
            )@[key].expiration_time,
        forall|key: Seq<char>| #[trigger]
            final(shard)@.contains_key(key) ==> final(shard)@[key] == old(shard)@[key],
        action is AwaitNotification <==> forall|key: Seq<char>|
            !(#[trigger] final(shard)@.contains_key(key)),
        action matches CleanupAction::SleepUntil(time) ==> exists|key: Seq<char>| #[trigger]
            final(shard)@.contains_key(key) && final(shard)@[key].expiration_time == time,
        action matches CleanupAction::SleepUntil(time) ==> forall|key: Seq<char>| #[trigger]
            final(shard)@.contains_key(key) ==> time <= final(shard)@[key].expiration_time,
{
    match shard.remove_expired(now) {
        Some(time) => CleanupAction::SleepUntil(time),
        None => CleanupAction::AwaitNotification,
    }
}

/// Splits a time into whole seconds and the nanoseconds that remain, if the seconds fit in a `u64`.
pub fn seconds_and_nanos(time: u128) -> (parts: Option<(u64, u32)>)
    ensures
        match parts {
            Some((seconds, nanos)) => {
                &&& time == seconds * 1_000_000_000 + nanos
                &&& nanos < 1_000_000_000
            },
            None => time > MAX_NANOS,
        },
{
    let seconds: u128 = time / 1_000_000_000;
    if seconds > u64::MAX as u128 {
        return None;
    }
    Some((seconds as u64, (time % 1_000_000_000) as u32))
}

} // verus!
