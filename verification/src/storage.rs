//! The storage of the cache, which many tasks use at the same time.

use crate::cleanup::CleanupAction;
use crate::guarded::{GuardedShard, ShardState};
use crate::model::{EntryView, Key, MAX_NANOS};
use crate::placement::{default_num_shards, Placement};
use crate::shards::Shards;
use bytes::Bytes;
use parking_lot::RwLock;
use std::sync::atomic::{AtomicBool, Ordering};
use std::sync::Arc;
use std::time::Duration;
use tokio::sync::Notify;
use tokio::time::Instant;
use vstd::prelude::*;

verus! {

/// Why a storage cannot be made.
#[derive(Clone, Copy, Debug, PartialEq, Eq, Structural)]
pub enum StorageError {
    /// The number of shards is not a power of two.
    ShardCount,
}

impl StorageError {
    /// A description of the error.
    pub fn message(&self) -> (message: &'static str)
        ensures
            message@ == "Shard count must be a power of two"@,
    {
        "Shard count must be a power of two"
    }
}

/// The number of cores of the machine, as far as the `num_cpus` crate can tell: at least one.
/// Nothing else is claimed of the number, which depends on the machine.
pub assume_specification[ num_cpus::get ]() -> (cpus: usize)
    ensures
        cpus >= 1,
;

/// The lock of the `lock_api` crate: a raw lock and the data that it guards.
#[verifier::external_type_specification]
#[verifier::external_body]
#[verifier::reject_recursive_types(R)]
#[verifier::reject_recursive_types(T)]
pub struct ExRwLock<R, T: ?Sized>(parking_lot::lock_api::RwLock<R, T>);

/// The raw lock of the `parking_lot` crate.
#[verifier::external_type_specification]
#[verifier::external_body]
pub struct ExRawRwLock(parking_lot::RawRwLock);

/// The notification primitive of the `tokio` crate.
#[verifier::external_type_specification]
#[verifier::external_body]
pub struct ExNotify(tokio::sync::Notify);

/// What a lock guards when it is made.
pub uninterp spec fn first_guarded(lock: RwLock<GuardedShard>) -> ShardState;

/// What a lock guards when an exclusive access to it begins, and when that access ends, for every
/// such access from when the lock is made until it is dropped.
pub uninterp spec fn guarded_changes(lock: RwLock<GuardedShard>) -> Set<(ShardState, ShardState)>;

/// For every shared access to a lock from when it is made until it is dropped, all that the lock has
/// guarded up to that access, in order.
pub uninterp spec fn guarded_reads(lock: RwLock<GuardedShard>) -> Set<Seq<ShardState>>;

/// Whether a lock may come to guard the given states, in order: what it guards first, and then what
/// each exclusive access makes of that. All that an exclusive access may do is to cache a value or
/// to remove the expired keys.
pub open spec fn is_history(lock: RwLock<GuardedShard>, states: Seq<ShardState>) -> bool {
    &&& states.len() > 0
    &&& states[0] == first_guarded(lock)
    &&& forall|i: int, j: int|
        0 <= i && j == i + 1 && j < states.len() ==> {
            &&& guarded_changes(lock).contains((#[trigger] states[i], #[trigger] states[j]))
            &&& crate::guarded::is_step(states[i], states[j])
        }
}

/// Makes a lock with `RwLock::new`. It first guards the given shard.
#[verifier::external_body]
fn new_lock(shard: GuardedShard) -> (lock: RwLock<GuardedShard>)
    ensures
        first_guarded(lock) == shard@,
{
    RwLock::new(shard)
}

/// Calls `f` on the shard that the lock at an index guards, with the shared access that `RwLock::read` waits
/// for. The shard is as the exclusive accesses before have left it, each of which was a call of
/// `with_shard_mut`; all that the lock has guarded up to now is handed out in ghost form, beside
/// what `f` returns.
#[verifier::external_body]
fn with_shard<T, F>(locks: &Vec<RwLock<GuardedShard>>, index: usize, f: F) -> (outcome: (
    T,
    Ghost<Seq<ShardState>>,
)) where F: FnOnce(&GuardedShard) -> T
    requires
        index < locks@.len(),
        forall|shard: &GuardedShard| #[trigger] call_requires(f, (shard,)),
    ensures
        guarded_reads(locks@[index as int]).contains(outcome.1@),
        is_history(locks@[index as int], outcome.1@),
        exists|shard: &GuardedShard|
            #[trigger] call_ensures(f, (shard,), outcome.0) && shard@ == outcome.1@.last(),
    opens_invariants none
{
    (f(&locks[index].read()), Ghost(arbitrary()))
}

/// Calls `f` on the shard that the lock at an index guards, with the exclusive access that `RwLock::write`
/// waits for. The shard is as the exclusive accesses before have left it, each of which was a call
/// of this function, and the lock then guards what `f` makes of it, all in one access. All that the
/// lock has guarded up to the end of the access is handed out in ghost form, beside what `f`
/// returns. All that `f`, which does not panic, may do is to cache a value or to remove the expired
/// keys, so it finds the ttl, the clock and the keys of the shard as they were at first. The index
/// of the shard stands in `opens_invariants`, so that a caller has to list it too.
#[verifier::external_body]
fn with_shard_mut<T, F>(locks: &Vec<RwLock<GuardedShard>>, index: usize, f: F) -> (outcome: (
    T,
    Ghost<Seq<ShardState>>,
)) where F: FnOnce(&mut GuardedShard) -> T
    requires
        index < locks@.len(),
        forall|shard: &mut GuardedShard|
            shard@.is_of_one_shard_with(first_guarded(locks@[index as int])) ==> #[trigger] call_requires(
                f,
                (shard,),
            ),
        forall|shard: &mut GuardedShard, result: T|
            shard@.is_of_one_shard_with(first_guarded(locks@[index as int])) && #[trigger] call_ensures(
                f,
                (shard,),
                result,
            ) ==> crate::guarded::is_step(shard@, final(shard)@),
    ensures
        outcome.1@.len() >= 2,
        guarded_changes(locks@[index as int]).contains(
            (outcome.1@[outcome.1@.len() - 2], outcome.1@.last()),
        ),
        is_history(locks@[index as int], outcome.1@),
        exists|shard: &mut GuardedShard|
            {
                &&& #[trigger] call_ensures(f, (shard,), outcome.0)
                &&& shard@ == outcome.1@[outcome.1@.len() - 2]
                &&& final(shard)@ == outcome.1@.last()
            },
    opens_invariants [index as int]
{
    (f(&mut locks[index].write()), Ghost(arbitrary()))
}

/// Makes a notification primitive that nothing waits for.
pub assume_specification[ Notify::new ]() -> Notify;

/// Wakes a task that waits for the notification, or the next one to wait for it. Nothing is
/// claimed of the effect.
pub assume_specification[ Notify::notify_one ](notify: &Notify);

/// Whether a call of `Notify::notify_one` on a waker returns. This is all that is claimed of the
/// call.
pub open spec fn is_notified(waker: Notify) -> bool {
    call_ensures(Notify::notify_one, (&waker,), ())
}

/// The number that stands for no shard.
pub open spec fn no_shard() -> int {
    -1
}

/// The shard that is cleaned up, unless it is time to stop.
pub open spec fn cleaned_shard(shutting_down: bool, index: int) -> int {
    if shutting_down {
        no_shard()
    } else {
        index
    }
}

/// Whether a new storage with the given time to live and number of shards is made: its clock starts,
/// its cleanup tasks are not to end, every key belongs to one of the shards, and all of them are
/// empty at first. There is none if the number is not a power of two, or is absent.
pub open spec fn is_new_storage(
    storage: Result<Storage, StorageError>,
    ttl: u128,
    num_shards: Option<usize>,
) -> bool {
    match (storage, num_shards) {
        (Ok(storage), Some(n)) => {
            &&& crate::placement::is_power_of_two(n as int)
            &&& storage.wf()
            &&& storage.is_started()
            &&& storage.ttl() == ttl
            &&& storage.num_shards() == n
            &&& forall|key: Seq<char>| 0 <= #[trigger] storage.shard_of(key) < n
            &&& forall|i: int|
                0 <= i < n ==> (#[trigger] storage.first_state(i)).entries == Map::<
                    Seq<char>,
                    EntryView,
                >::empty()
        },
        (Ok(_), None) => false,
        (Err(_), Some(n)) => !crate::placement::is_power_of_two(n as int),
        (Err(_), None) => true,
    }
}

/// What is fixed when a storage is made: the distribution of the keys is well formed, and every
/// shard has the ttl and the clock of the storage, a waker of its own, and the keys that are placed
/// at its index.
pub proof fn lemma_storage(storage: Storage)
    requires
        storage.wf(),
    ensures
        storage.placement().wf(),
        forall|i: int|
            0 <= i < storage.num_shards() ==> (#[trigger] storage.first_state(i)) == (ShardState {
                entries: storage.first_state(i).entries,
                ttl: storage.ttl(),
                start: storage.start(),
                waker: storage.waker(i),
                placement: storage.placement(),
                index: i,
            }),
{
}

/// A storage that is started has a new flag, new wakers and a new clock.
pub proof fn lemma_started(storage: Storage)
    requires
        storage.wf(),
        storage.is_started(),
    ensures
        call_ensures(AtomicBool::new, (false,), storage.flag()),
        call_ensures(Instant::now, (), storage.start()),
        forall|i: int|
            0 <= i < storage.num_shards() ==> call_ensures(
                Notify::new,
                (),
                #[trigger] storage.waker(i),
            ),
{
}

/// What is claimed of the flag that ends the cleanup tasks.
pub proof fn lemma_flag(storage: Storage, shutting_down: bool)
    ensures
        storage.flag_reads(shutting_down) <==> call_ensures(
            AtomicBool::load,
            (&storage.flag(), Ordering::Acquire),
            shutting_down,
        ),
        storage.flag_is_set_to(shutting_down) <==> call_ensures(
            AtomicBool::store,
            (&storage.flag(), shutting_down, Ordering::Release),
            (),
        ),
{
}

/// The flag is set before a cleanup task is notified: each is notified by a call that is only made
/// once the flag is set, and there is such a call for every shard.
proof fn law_flag_is_set_before_tasks_are_notified(storage: Storage, i: usize)
    requires
        storage.ends_cleanup_tasks(),
        i < storage.num_shards(),
    ensures
        call_ensures(
            AtomicBool::store,
            (&storage.flag(), true, Ordering::Release),
            (),
        ),
        call_ensures(Storage::end_cleanup_task, (&storage, i), ()),
{
}

/// Each shard has the waker at its index.
proof fn law_wakers_are_those_of_the_shards(storage: Storage, i: int)
    requires
        storage.wf(),
        0 <= i < storage.num_shards(),
    ensures
        storage.waker(i) == *storage.cleanup_wakers@[i],
        storage.first_state(i).waker == *storage.cleanup_wakers@[i],
{
}

/// The storage of the cache service. The storage is built with concurrency in mind and is thus
/// sharded to reduce lock contention. It uses the default std hasher which provides some protection
/// against HashDoS attacks. It will set the same ttl to all keys.
///
/// In the `opens_invariants` clause of a function, the index of a shard stands for exclusive access
/// to that shard. A function that lists a shard may change that shard and no other, and one that
/// lists none changes nothing. Such a function cannot copy a key either, so it stores under a key
/// that it is given at most once.
pub struct Storage {
    placement: Placement,
    shards: Vec<RwLock<GuardedShard>>,
    cleanup_wakers: Vec<Arc<Notify>>,
    ttl: u128,
    start: Instant,
    shutting_down: AtomicBool,
}

impl Storage {
    /// There are as many locks and wakers as shards that the keys are distributed among, and every
    /// shard has the ttl and the clock of the storage, and the keys that are placed at its index.
    #[verifier::type_invariant]
    pub closed spec fn wf(&self) -> bool {
        &&& self.placement.wf()
        &&& self.ttl <= MAX_NANOS
        &&& self.shards@.len() == self.placement.num_shards()
        &&& self.cleanup_wakers@.len() == self.placement.num_shards()
        &&& forall|i: int|
            0 <= i < self.shards@.len() ==> first_guarded(#[trigger] self.shards@[i]) == (
            ShardState {
                entries: first_guarded(self.shards@[i]).entries,
                ttl: self.ttl,
                start: self.start,
                waker: *self.cleanup_wakers@[i],
                placement: self.placement,
                index: i,
            })
    }

    /// The time that an entry lives, in nanoseconds.
    pub closed spec fn ttl(&self) -> u128 {
        self.ttl
    }

    /// The distribution of the keys.
    pub closed spec fn placement(&self) -> Placement {
        self.placement
    }

    /// The number of shards.
    pub open spec fn num_shards(&self) -> usize {
        self.placement().num_shards()
    }

    /// The shard that a key belongs to.
    pub open spec fn shard_of(&self, key: Seq<char>) -> int {
        self.placement().shard_of(key)
    }

    /// The state of the shard at index `i` when the storage is made.
    pub closed spec fn first_state(&self, i: int) -> ShardState {
        first_guarded(self.shards@[i])
    }

    /// The changes of the shard at index `i`: its states when an exclusive access to it begins, and
    /// when that access ends.
    pub closed spec fn shard_changes(&self, i: int) -> Set<(ShardState, ShardState)> {
        guarded_changes(self.shards@[i])
    }

    /// For every shared access to the shard at index `i`, its states up to then, in order.
    pub closed spec fn shard_reads(&self, i: int) -> Set<Seq<ShardState>> {
        guarded_reads(self.shards@[i])
    }

    /// Whether the shard at index `i` may come to have the given states, in order: it is as it was
    /// made, and then each change is a step, in which a value is cached or the expired keys are
    /// removed.
    pub open spec fn is_shard_history(&self, i: int, states: Seq<ShardState>) -> bool {
        &&& states.len() > 0
        &&& states[0] == self.first_state(i)
        &&& forall|j: int, k: int|
            0 <= j && k == j + 1 && k < states.len() ==> {
                &&& self.shard_changes(i).contains((#[trigger] states[j], #[trigger] states[k]))
                &&& crate::guarded::is_step(states[j], states[k])
            }
    }

    /// What notifies the cleanup task of the shard at index `i`.
    pub closed spec fn waker(&self, i: int) -> Notify {
        *self.cleanup_wakers@[i]
    }

    /// The flag that ends the cleanup tasks.
    pub closed spec fn flag(&self) -> AtomicBool {
        self.shutting_down
    }

    /// Whether an acquire load of the flag that ends the cleanup tasks can give `shutting_down`.
    pub closed spec fn flag_reads(&self, shutting_down: bool) -> bool {
        call_ensures(AtomicBool::load, (&self.shutting_down, Ordering::Acquire), shutting_down)
    }

    /// Whether a release store of `shutting_down` to the flag that ends the cleanup tasks returns.
    /// This is all that is claimed of the store.
    pub closed spec fn flag_is_set_to(&self, shutting_down: bool) -> bool {
        call_ensures(
            AtomicBool::store,
            (&self.shutting_down, shutting_down, Ordering::Release),
            (),
        )
    }

    /// Whether the flag is made unset, each waker is made by `Notify::new`, and the clock starts at
    /// what `Instant::now` gives.
    pub closed spec fn is_started(&self) -> bool {
        &&& call_ensures(AtomicBool::new, (false,), self.shutting_down)
        &&& forall|i: int|
            0 <= i < self.cleanup_wakers@.len() ==> call_ensures(
                Notify::new,
                (),
                *#[trigger] self.cleanup_wakers@[i],
            )
        &&& call_ensures(Instant::now, (), self.start)
    }

    /// When the clock of the storage started.
    pub closed spec fn start(&self) -> Instant {
        self.start
    }

    /// Whether a shared access to the shard of `key` comes after the given states of the shard and
    /// finds `value` under the key in the last of them.
    pub open spec fn reads_after(
        &self,
        states: Seq<ShardState>,
        key: Seq<char>,
        value: Option<Seq<u8>>,
    ) -> bool {
        &&& self.shard_reads(self.shard_of(key)).contains(states)
        &&& self.is_shard_history(self.shard_of(key), states)
        &&& value == crate::model::lookup(states.last().entries, key)
    }

    /// Whether a shared access to the shard of `key` finds `value` under the key.
    pub open spec fn reads(&self, key: Seq<char>, value: Option<Seq<u8>>) -> bool {
        exists|states: Seq<ShardState>| #[trigger] self.reads_after(states, key, value)
    }

    /// Whether the last of the given states of the shard of `key` is what one exclusive access makes
    /// of the one before: `value` is cached under `key` for one ttl. The cleanup task of the shard is
    /// notified if the shard held nothing.
    pub open spec fn stores_after(
        &self,
        states: Seq<ShardState>,
        key: Seq<char>,
        value: Seq<u8>,
    ) -> bool {
        &&& states.len() >= 2
        &&& self.is_shard_history(self.shard_of(key), states)
        &&& crate::guarded::is_insertion(states[states.len() - 2], states.last(), key, value)
        &&& states[states.len() - 2].entries == Map::<Seq<char>, EntryView>::empty()
            ==> is_notified(self.waker(self.shard_of(key)))
    }

    /// Whether `value` is cached under `key` for one ttl, in one exclusive access to its shard, and
    /// the cleanup task of the shard is notified if the shard held nothing.
    pub open spec fn stores(&self, key: Seq<char>, value: Seq<u8>) -> bool {
        exists|states: Seq<ShardState>| #[trigger] self.stores_after(states, key, value)
    }

    /// Whether the last of the given states of the shard at index `i` is what one exclusive access
    /// makes of the one before: the expired keys are removed. `action` is to wait for the next key to
    /// expire.
    pub open spec fn cleans_up_after(
        &self,
        states: Seq<ShardState>,
        i: int,
        action: CleanupAction,
    ) -> bool {
        &&& states.len() >= 2
        &&& self.is_shard_history(i, states)
        &&& crate::guarded::is_cleanup(states[states.len() - 2], states.last(), action)
    }

    /// Whether the shard at index `i`, in one exclusive access, loses its expired keys, and `action`
    /// is to wait for the next key to expire.
    pub open spec fn cleans_up(&self, i: int, action: CleanupAction) -> bool {
        exists|states: Seq<ShardState>| #[trigger] self.cleans_up_after(states, i, action)
    }

    /// Whether the flag that ends the cleanup tasks is set, and then each of the tasks is notified.
    pub closed spec fn ends_cleanup_tasks(&self) -> bool {
        &&& self.flag_is_set_to(true)
        &&& forall|i: usize|
            i < self.num_shards() ==> #[trigger] call_ensures(
                Storage::end_cleanup_task,
                (self, i),
                (),
            )
    }

    /// Create a new storage with a given capacity, shard count and ttl. If no shard count is given
    /// it will default to a number based on the number of cores available.
    pub fn new(capacity: usize, ttl: Duration, num_shards: Option<usize>) -> (storage: Result<
        Storage,
        StorageError,
    >)
        ensures
            match num_shards {
                Some(n) => is_new_storage(storage, crate::clock::duration_nanos(ttl), Some(n)),
                None => exists|cpus: usize, n: Option<usize>|
                    {
                        &&& call_ensures(num_cpus::get, (), cpus)
                        &&& #[trigger] crate::placement::is_default_num_shards(cpus, n)
                        &&& is_new_storage(storage, crate::clock::duration_nanos(ttl), n)
                    },
            },
            num_shards matches Some(n) ==> (storage is Ok <==> exists|k: nat|
                n == #[trigger] vstd::arithmetic::power2::pow2(k)),
            num_shards is Some && storage is Ok ==> storage->Ok_0.num_shards() == num_shards->0,
            num_shards is None && storage is Ok ==> exists|cpus: usize|
                {
                    &&& #[trigger] call_ensures(num_cpus::get, (), cpus)
                    &&& 4 * cpus <= storage->Ok_0.num_shards() < 8 * cpus
                },
            num_shards is None && storage is Err ==> exists|cpus: usize|
                {
                    &&& #[trigger] call_ensures(num_cpus::get, (), cpus)
                    &&& cpus > usize::MAX / 8
                },
            storage is Ok ==> {
                &&& storage->Ok_0.ttl() == crate::clock::duration_nanos(ttl)
                &&& forall|key: Seq<char>|
                    !(#[trigger] storage->Ok_0.first_state(
                        storage->Ok_0.shard_of(key),
                    ).entries.contains_key(key))
            },
    {
        let num_shards: usize = match num_shards {
            Some(n) => n,
            None => {
                let cpus = num_cpus::get();
                let default = default_num_shards(cpus);
                proof {
                    if cpus <= usize::MAX / 8 {
                        crate::laws::law_default_num_shards_is_accepted(cpus, default);
                    }
                }
                match default {
                    Some(n) => n,
                    None => return Err(StorageError::ShardCount),
                }
            },
        };
        match Shards::new(capacity, ttl.as_nanos(), num_shards) {
            Ok(shards) => {
                assert forall|i: int| #[trigger] shards.entries_in(i) == Map::<
                    Seq<char>,
                    EntryView,
                >::empty() by {
                    assert(shards.entries_in(i) =~= Map::<Seq<char>, EntryView>::empty());
                }
                Ok(Storage::from_shards(shards))
            },
            Err(error) => Err(error),
        }
    }

    /// Create a storage of the given shards. Its clock starts now.
    pub fn from_shards(shards: Shards) -> (storage: Storage)
        ensures
            storage.wf(),
            storage.is_started(),
            storage.ttl() == shards.ttl(),
            storage.placement() == shards.placement(),
            forall|key: Seq<char>| 0 <= #[trigger] storage.shard_of(key) < storage.num_shards(),
            forall|i: int|
                0 <= i < storage.num_shards() ==> (#[trigger] storage.first_state(i)).entries
                    == shards.entries_in(i),
    {
        let (placement, shards, ttl) = shards.into_parts();
        let start = Instant::now();
        let mut locks: Vec<RwLock<GuardedShard>> = Vec::new();
        let mut cleanup_wakers: Vec<Arc<Notify>> = Vec::new();
        for shard in iter: shards
            invariant
                iter.seq() == shards@,
                locks@.len() == iter.index(),
                cleanup_wakers@.len() == iter.index(),
                forall|i: int|
                    0 <= i < cleanup_wakers@.len() ==> call_ensures(
                        Notify::new,
                        (),
                        *#[trigger] cleanup_wakers@[i],
                    ),
                ttl <= MAX_NANOS,
                forall|i: int|
                    0 <= i < locks@.len() ==> first_guarded(#[trigger] locks@[i]) == (ShardState {
                        entries: shards@[i]@,
                        ttl,
                        start,
                        waker: *cleanup_wakers@[i],
                        placement,
                        index: i,
                    }),
        {
            let index: Ghost<int> = Ghost(iter.index() as int);
            let waker = Arc::new(Notify::new());
            let shard_waker = waker.clone();
            let guarded = GuardedShard::new(
                shard,
                ttl,
                start,
                shard_waker,
                Ghost(placement),
                index,
            );
            locks.push(new_lock(guarded));
            cleanup_wakers.push(waker);
        }
        Storage {
            placement,
            shards: locks,
            cleanup_wakers,
            ttl,
            start,
            shutting_down: AtomicBool::new(false),
        }
    }

    /// The number of shards, which is a power of two.
    pub fn shard_count(&self) -> (count: usize)
        ensures
            count == self.num_shards(),
            crate::placement::is_power_of_two(count as int),
    {
        proof {
            use_type_invariant(self);
            crate::placement::lemma_shift(self.placement);
        }
        self.shards.len()
    }

    /// When the clock of the storage started.
    pub fn started_at(&self) -> (start: Instant)
        ensures
            start == self.start(),
    {
        self.start
    }

    /// Insert a key associated to a given value in to the storage. If already present the value
    /// will be overwritten and the ttl will be reset. The cleanup task of the shard is notified if
    /// the shard was empty.
    pub fn insert(&self, key: Key, value: Bytes)
        ensures
            self.stores(key@, crate::payload::contents(value)),
            exists|before: ShardState, after: ShardState, elapsed: Duration|
                {
                    &&& #[trigger] self.shard_changes(self.shard_of(key@)).contains(
                        (before, after),
                    )
                    &&& #[trigger] call_ensures(Instant::elapsed, (&self.start(),), elapsed)
                    &&& after.entries == before.entries.insert(
                        key@,
                        EntryView {
                            value: crate::payload::contents(value),
                            expiration_time: crate::clock::duration_nanos(elapsed) + self.ttl(),
                        },
                    )
                },
        opens_invariants [self.shard_of(key@)]
    {
        proof {
            use_type_invariant(self);
        }
        let index = self.placement.shard_for(&key);
        let payload = Ghost(crate::payload::contents(value));
        let insert = |shard: &mut GuardedShard| -> (should_notify: bool)
            requires old(shard)@.owns(key@), old(shard)@.ttl <= MAX_NANOS,
            ensures crate::guarded::is_insertion(old(shard)@, final(shard)@, key@, payload@), old(shard)@.entries == Map::<Seq<char>, EntryView>::empty() ==> is_notified(old(shard)@.waker),
        {
            shard.insert(key, value)
        };
        let (should_notify, states) = with_shard_mut(&self.shards, index, insert);
        proof {
            crate::guarded::lemma_fixed(states@, states@.len() - 2);
        }
        assert(self.stores_after(states@, key@, payload@));
        proof {
            crate::shared_laws::law_store_is_one_change(*self, key@, payload@);
        }
    }

    /// Get the value of a key if it's present
    pub fn get(&self, key: &Key) -> (value: Option<Bytes>)
        ensures
            self.reads(key@, crate::payload::contents_of(value)),
            exists|states: Seq<ShardState>|
                {
                    &&& #[trigger] self.shard_reads(self.shard_of(key@)).contains(states)
                    &&& states.len() > 0
                    &&& value is Some <==> states.last().entries.contains_key(key@)
                    &&& value is Some ==> crate::payload::contents(value->0)
                        == states.last().entries[key@].value
                },
        opens_invariants none
    {
        proof {
            use_type_invariant(self);
        }
        let index = self.placement.shard_for(key);
        let get = |shard: &GuardedShard| -> (value: Option<Bytes>)
            ensures crate::payload::contents_of(value) == crate::model::lookup(shard@.entries, key@),
        {
            shard.get(key)
        };
        let (value, states) = with_shard(&self.shards, index, get);
        assert(self.reads_after(states@, key@, crate::payload::contents_of(value)));
        assert(self.shard_reads(self.shard_of(key@)).contains(states@));
        value
    }

    /// Removes the expired keys of the shard at the given index, unless the storage is shutting
    /// down, and says what the cleanup task of the shard does next.
    pub fn clean_up(&self, index: usize) -> (action: CleanupAction)
        requires
            index < self.num_shards(),
        ensures
            exists|shutting_down: bool|
                {
                    &&& #[trigger] self.flag_reads(shutting_down)
                    &&& shutting_down ==> action is Stop
                    &&& !shutting_down ==> self.cleans_up(index as int, action)
                },
    {
        self.clean_up_unless(self.is_shutting_down(), index)
    }

    /// Removes the expired keys of the shard at the given index, unless it is time to stop, and says
    /// what the cleanup task of the shard does next.
    pub fn clean_up_unless(&self, shutting_down: bool, index: usize) -> (action: CleanupAction)
        requires
            index < self.num_shards(),
        ensures
            shutting_down ==> action is Stop,
            !shutting_down ==> self.cleans_up(index as int, action),
            !shutting_down ==> exists|before: ShardState, after: ShardState, elapsed: Duration|
                {
                    &&& #[trigger] self.shard_changes(index as int).contains((before, after))
                    &&& #[trigger] call_ensures(Instant::elapsed, (&self.start(),), elapsed)
                    &&& crate::shared_laws::keeps_after(
                        before,
                        after,
                        crate::clock::duration_nanos(elapsed),
                    )
                    &&& action is AwaitNotification <==> forall|key: Seq<char>|
                        !(#[trigger] after.entries.contains_key(key))
                    &&& action matches CleanupAction::SleepUntil(time) ==> forall|key: Seq<char>|
                        #[trigger] after.entries.contains_key(key) ==> time
                            <= after.entries[key].expiration_time
                },
        opens_invariants [cleaned_shard(shutting_down, index as int)]
    {
        proof {
            use_type_invariant(self);
        }
        if shutting_down {
            return CleanupAction::Stop;
        }
        let clean_up = |shard: &mut GuardedShard| -> (action: CleanupAction)
            ensures crate::guarded::is_cleanup(old(shard)@, final(shard)@, action),
        {
            shard.clean_up()
        };
        let (action, states) = with_shard_mut(&self.shards, index, clean_up);
        assert(self.cleans_up_after(states@, index as int, action));
        proof {
            crate::shared_laws::law_cleanup_is_one_change(*self, index as int, action);
        }
        action
    }

    /// Whether the cleanup tasks are to end.
    fn is_shutting_down(&self) -> (shutting_down: bool)
        ensures
            self.flag_reads(shutting_down),
    {
        self.shutting_down.load(Ordering::Acquire)
    }

    /// Sets the flag that ends the cleanup tasks.
    fn set_shutting_down(&self)
        ensures
            self.flag_is_set_to(true),
    {
        self.shutting_down.store(true, Ordering::Release);
    }

    /// Notifies the cleanup task of the shard at the given index that it is to end. The flag that
    /// says so is set before: a task that finds it unset would wait again.
    fn end_cleanup_task(&self, index: usize)
        requires
            self.flag_is_set_to(true),
            index < self.num_shards(),
        ensures
            is_notified(self.waker(index as int)),
    {
        proof {
            use_type_invariant(self);
        }
        self.cleanup_wakers[index].notify_one();
    }

    /// Tells the cleanup tasks to end: sets the flag, and then notifies every one of them.
    pub fn shut_down(&self)
        ensures
            self.ends_cleanup_tasks(),
            self.flag_is_set_to(true),
            forall|i: int| 0 <= i < self.num_shards() ==> is_notified(#[trigger] self.waker(i)),
    {
        proof {
            use_type_invariant(self);
        }
        self.set_shutting_down();
        let mut i: usize = 0;
        while i < self.cleanup_wakers.len()
            invariant
                i <= self.cleanup_wakers@.len() == self.num_shards(),
                self.flag_is_set_to(true),
                forall|j: usize|
                    j < i ==> #[trigger] call_ensures(Storage::end_cleanup_task, (self, j), ()),
                forall|j: int| 0 <= j < i ==> is_notified(#[trigger] self.waker(j)),
            decreases self.cleanup_wakers@.len() - i,
        {
            self.end_cleanup_task(i);
            assert(call_ensures(Storage::end_cleanup_task, (self, i), ()));
            i += 1;
        }
    }

    /// What notifies the cleanup task of the shard at the given index.
    pub fn cleanup_waker(&self, index: usize) -> (waker: &Notify)
        requires
            index < self.num_shards(),
        ensures
            *waker == self.waker(index as int),
    {
        proof {
            use_type_invariant(self);
        }
        &self.cleanup_wakers[index]
    }
}

} // verus!
