//! The entries of the cache, spread over shards.

use crate::model::{EntryView, Key, MAX_NANOS};
use crate::placement::Placement;
use crate::shard::Shard;
use crate::storage::StorageError;
use bytes::Bytes;
use vstd::prelude::*;

verus! {

/// A number of shards and the distribution of the keys among them. All keys have the same ttl.
pub struct Shards {
    placement: Placement,
    shards: Vec<Shard>,
    ttl: u128,
}

impl View for Shards {
    type V = crate::model::Entries;

    closed spec fn view(&self) -> crate::model::Entries {
        Map::new(
            |key: Seq<char>| self.home(key)@.contains_key(key),
            |key: Seq<char>| self.home(key)@[key],
        )
    }
}

impl Shards {
    /// The shard that a key belongs to.
    spec fn home(&self, key: Seq<char>) -> Shard {
        self.shards@[self.placement.shard_of(key)]
    }

    /// There are as many shards as the keys are distributed among, and each key is in the shard
    /// that it belongs to.
    #[verifier::type_invariant]
    pub closed spec fn wf(&self) -> bool {
        &&& self.placement.wf()
        &&& self.ttl <= MAX_NANOS
        &&& self.shards@.len() == self.placement.num_shards() > 0
        &&& forall|i: int, key: Seq<char>|
            0 <= i < self.shards@.len() && #[trigger] self.shards@[i]@.contains_key(key) ==> i
                == self.placement.shard_of(key)
    }

    /// The time that an entry lives, in nanoseconds.
    pub closed spec fn ttl(&self) -> u128 {
        self.ttl
    }

    /// The distribution of the keys.
    pub closed spec fn placement(&self) -> Placement {
        self.placement
    }

    /// The number of shards.
    pub open spec fn num_shards(&self) -> usize {
        self.placement().num_shards()
    }

    /// The shard that a key belongs to.
    pub open spec fn shard_of(&self, key: Seq<char>) -> int {
        self.placement().shard_of(key)
    }

    /// The entries in the shard at index `i`.
    pub open spec fn entries_in(&self, i: int) -> crate::model::Entries {
        self@.restrict(Set::new(|key: Seq<char>| self.shard_of(key) == i))
    }

    /// The distribution of the keys, the shards, and the time to live.
    pub(crate) fn into_parts(self) -> (parts: (Placement, Vec<Shard>, u128))
        ensures
            parts.0 == self.placement(),
            parts.0.wf(),
            forall|key: Seq<char>| 0 <= #[trigger] parts.0.shard_of(key) < parts.0.num_shards(),
            parts.1@.len() == self.num_shards(),
            forall|i: int|
                0 <= i < parts.1@.len() ==> (#[trigger] parts.1@[i])@ == self.entries_in(i),
            parts.2 == self.ttl() <= MAX_NANOS,
    {
        proof {
            use_type_invariant(&self);
            self.lemma_home_in_range();
            assert forall|i: int| 0 <= i < self.shards@.len() implies (#[trigger] self.shards@[i])@
                == self.entries_in(i) by {
                assert(self.shards@[i]@ =~= self.entries_in(i));
            }
        }
        (self.placement, self.shards, self.ttl)
    }

    /// Every key belongs to one of the shards.
    proof fn lemma_home_in_range(&self)
        requires
            self.wf(),
        ensures
            forall|key: Seq<char>|
                0 <= #[trigger] self.placement.shard_of(key) < self.shards@.len(),
    {
        assert forall|key: Seq<char>|
            0 <= #[trigger] self.placement.shard_of(key) < self.shards@.len() by {
            crate::placement::lemma_shard_index_in_range(
                self.placement.hash(key),
                self.placement.num_shards() as int,
            );
        }
    }

    /// The next expiration of all the entries is that of the shards.
    proof fn lemma_next_of_all(&self, next: Option<u128>)
        requires
            self.wf(),
            is_next_of(self.shards@, next),
        ensures
            crate::model::is_next_expiration(self@, next),
    {
        self.lemma_home_in_range();
        assert forall|key: Seq<char>| #[trigger] self@.contains_key(key) implies expires_in(
            self.shards@,
            self.placement.shard_of(key),
            key,
            self@[key].expiration_time,
        ) by {}
        if let Some(time) = next {
            let (i, key) = choose|i: int, key: Seq<char>|
                #[trigger] expires_in(self.shards@, i, key, time as int);
            assert(self.shards@[i]@.contains_key(key));
            assert(self@.contains_key(key));
        } else {
            assert(self@ =~= Map::<Seq<char>, EntryView>::empty());
        }
    }

    /// Create empty shards with a given capacity, shard count and ttl, in nanoseconds.
    pub fn new(capacity: usize, ttl: u128, num_shards: usize) -> (shards: Result<
        Shards,
        StorageError,
    >)
        requires
            ttl <= MAX_NANOS,
        ensures
            match shards {
                Ok(shards) => {
                    &&& crate::placement::is_power_of_two(num_shards as int)
                    &&& shards.wf()
                    &&& shards@ == Map::<Seq<char>, EntryView>::empty()
                    &&& shards.ttl() == ttl
                    &&& shards.num_shards() == num_shards
                },
                Err(StorageError::ShardCount) => !crate::placement::is_power_of_two(
                    num_shards as int,
                ),
            },
            shards is Ok <==> exists|k: nat|
                num_shards == #[trigger] vstd::arithmetic::power2::pow2(k),
    {
        // num_shards is always a power of two which is important for determining which shard a
        // given key should be distributed to.
        let placement = match Placement::new(num_shards) {
            Some(placement) => placement,
            None => return Err(StorageError::ShardCount),
        };
        proof {
            crate::placement::lemma_power_of_two_positive(num_shards as int);
        }
        let shard_capacity = capacity / num_shards;
        let mut shards: Vec<Shard> = Vec::new();
        while shards.len() < num_shards
            invariant
                shards@.len() <= num_shards,
                forall|i: int|
                    0 <= i < shards@.len() ==> (#[trigger] shards@[i])@ == Map::<
                        Seq<char>,
                        EntryView,
                    >::empty(),
            decreases num_shards - shards@.len(),
        {
            shards.push(Shard::with_capacity(shard_capacity));
        }
        let shards = Shards { placement, shards, ttl };
        proof {
            shards.lemma_home_in_range();
            assert(shards@ =~= Map::<Seq<char>, EntryView>::empty());
        }
        Ok(shards)
    }

    /// A single empty shard, to stand in for others while they are worked on.
    fn of_one() -> (shards: Shards)
        ensures
            shards.wf(),
            shards@ == Map::<Seq<char>, EntryView>::empty(),
            shards.ttl() == 0,
            shards.num_shards() == 1,
    {
        let mut shards: Vec<Shard> = Vec::new();
        shards.push(Shard::with_capacity(0));
        let shards = Shards { placement: Placement::of_one(), shards, ttl: 0 };
        proof {
            shards.lemma_home_in_range();
            assert(shards@ =~= Map::<Seq<char>, EntryView>::empty());
        }
        shards
    }

    /// Insert a key associated to a given value at time `now`. If already present
    /// the value will be overwritten and the ttl will be reset.
    ///
    /// The result says whether the shard of the key was empty before.
    pub fn insert(&mut self, key: Key, value: Bytes, now: u128) -> (should_notify: bool)
        requires
            now <= MAX_NANOS,
        ensures
            final(self).wf(),
            final(self)@ == crate::model::with_entry(
                old(self)@,
                key@,
                crate::payload::contents(value),
                now + old(self).ttl(),
            ),
            final(self)@ == old(self)@.insert(
                key@,
                EntryView {
                    value: crate::payload::contents(value),
                    expiration_time: now + old(self).ttl(),
                },
            ),
            final(self).ttl() == old(self).ttl(),
            final(self).placement() == old(self).placement(),
            should_notify <==> forall|k: Seq<char>| #[trigger]
                old(self)@.contains_key(k) ==> old(self).shard_of(k) != old(self).shard_of(key@),
    {
        proof {
            use_type_invariant(&*self);
        }
        let ghost name = key@;
        let index = self.placement.shard_for(&key);
        let mut taken = Shards::of_one();
        std::mem::swap(&mut taken, self);
        let Shards { placement, shards, ttl } = taken;
        let mut shards = shards;
        let should_notify = shards[index].insert(key, value, now + ttl);
        *self = Shards { placement, shards, ttl };
        proof {
            self.lemma_home_in_range();
            assert(self@ =~= crate::model::with_entry(
                old(self)@,
                name,
                crate::payload::contents(value),
                now + old(self).ttl(),
            ));
            let shard = old(self).shards@[index as int];
            if !should_notify {
                assert(exists|k: Seq<char>| #[trigger] shard@.contains_key(k)) by {
                    if forall|k: Seq<char>| !(#[trigger] shard@.contains_key(k)) {
                        assert(shard@ =~= Map::<Seq<char>, EntryView>::empty());
                    }
                }
                let k = choose|k: Seq<char>| #[trigger] shard@.contains_key(k);
                assert(old(self)@.contains_key(k));
                assert(old(self).shard_of(k) == index);
            }
        }
        should_notify
    }

    /// Get the value of a key if it's present
    pub fn get(&self, key: &Key) -> (value: Option<Bytes>)
        ensures
            crate::payload::contents_of(value) == crate::model::lookup(self@, key@),
            value is Some <==> self@.contains_key(key@),
            value is Some ==> crate::payload::contents(value->0) == self@[key@].value,
    {
        proof {
            use_type_invariant(self);
        }
        let index = self.placement.shard_for(key);
        self.shards[index].get(key)
    }

    /// Remove all keys that have expired at time `now` and return the time when the next key will
    /// expire if there is still keys left.
    pub fn remove_expired(&mut self, now: u128) -> (next: Option<u128>)
        ensures
            final(self).wf(),
            final(self)@ == crate::model::unexpired(old(self)@, now),
            final(self).ttl() == old(self).ttl(),
            final(self).placement() == old(self).placement(),
            crate::model::is_next_expiration(final(self)@, next),
            forall|key: Seq<char>| #[trigger]
                final(self)@.contains_key(key) <==> old(self)@.contains_key(key) && now < old(
                    self,
                )@[key].expiration_time,
            forall|key: Seq<char>| #[trigger]
                final(self)@.contains_key(key) ==> final(self)@[key] == old(self)@[key],
            next is None <==> forall|key: Seq<char>| !(#[trigger] final(self)@.contains_key(key)),
            next matches Some(time) ==> exists|key: Seq<char>| #[trigger]
                final(self)@.contains_key(key) && final(self)@[key].expiration_time == time,
            next matches Some(time) ==> forall|key: Seq<char>| #[trigger]
                final(self)@.contains_key(key) ==> time <= final(self)@[key].expiration_time,
    {
        proof {
            use_type_invariant(&*self);
        }
        let mut taken = Shards::of_one();
        std::mem::swap(&mut taken, self);
        let Shards { placement, shards, ttl } = taken;
        let mut shards = shards;
        let ghost unswept = shards@;
        let mut next: Option<u128> = None;
        let mut i: usize = 0;
        while i < shards.len()
            invariant
                i <= shards@.len() == unswept.len(),
                forall|j: int|
                    0 <= j < i ==> (#[trigger] shards@[j])@ == crate::model::unexpired(
                        unswept[j]@,
                        now,
                    ),
                forall|j: int| i <= j < shards@.len() ==> (#[trigger] shards@[j]) == unswept[j],
                is_next_of(shards@.take(i as int), next),
            decreases shards@.len() - i,
        {
            let ghost before = shards@;
            let shard_next = shards[i].remove_expired(now);
            let ghost earlier = next;
            next = sooner(next, shard_next);
            i += 1;
            proof {
                let swept = shards@.take(i as int);
                assert(swept.drop_last() =~= before.take(i - 1));
                lemma_next_of_more(swept, earlier, shard_next);
            }
        }
        *self = Shards { placement, shards, ttl };
        proof {
            self.lemma_home_in_range();
            assert(self@ =~= crate::model::unexpired(old(self)@, now));
            assert(self.shards@.take(i as int) =~= self.shards@);
            self.lemma_next_of_all(next);
        }
        next
    }
}

/// Whether `key` expires at `time` in the shard at index `i`.
spec fn expires_in(shards: Seq<Shard>, i: int, key: Seq<char>, time: int) -> bool {
    &&& 0 <= i < shards.len()
    &&& shards[i]@.contains_key(key)
    &&& shards[i]@[key].expiration_time == time
}

/// Whether `next` is the time at which the first of the entries of the shards expires.
spec fn is_next_of(shards: Seq<Shard>, next: Option<u128>) -> bool {
    match next {
        Some(time) => {
            &&& exists|i: int, key: Seq<char>| #[trigger] expires_in(shards, i, key, time as int)
            &&& forall|i: int, key: Seq<char>, t: int| #[trigger]
                expires_in(shards, i, key, t) ==> time <= t
        },
        None => forall|i: int, key: Seq<char>, t: int| !(#[trigger] expires_in(shards, i, key, t)),
    }
}

/// The lesser of two times, of which either may be absent.
spec fn sooner_of(a: Option<u128>, b: Option<u128>) -> Option<u128> {
    match (a, b) {
        (Some(x), Some(y)) => Some(
            if x <= y {
                x
            } else {
                y
            },
        ),
        (Some(x), None) => Some(x),
        (None, _) => b,
    }
}

/// The lesser of two times, of which either may be absent.
fn sooner(a: Option<u128>, b: Option<u128>) -> (c: Option<u128>)
    ensures
        c == sooner_of(a, b),
{
    match (a, b) {
        (Some(x), Some(y)) => Some(
            if x <= y {
                x
            } else {
                y
            },
        ),
        (Some(x), None) => Some(x),
        (None, _) => b,
    }
}

/// The next expiration of shards is the sooner of those of the last shard and of the others.
proof fn lemma_next_of_more(shards: Seq<Shard>, others: Option<u128>, last: Option<u128>)
    requires
        shards.len() > 0,
        is_next_of(shards.drop_last(), others),
        crate::model::is_next_expiration(shards.last()@, last),
    ensures
        is_next_of(shards, sooner_of(others, last)),
{
    let n = shards.len() - 1;
    let rest = shards.drop_last();
    assert forall|i: int, key: Seq<char>, t: int| #[trigger]
        expires_in(shards, i, key, t) implies expires_in(rest, i, key, t) || (i == n
        && shards.last()@.contains_key(key) && last is Some && last->0 <= t) by {}
    if let Some(time) = others {
        let (i, key) = choose|i: int, key: Seq<char>|
            #[trigger] expires_in(rest, i, key, time as int);
        assert(expires_in(shards, i, key, time as int));
    }
    if let Some(time) = last {
        let key = choose|key: Seq<char>| #[trigger]
            shards.last()@.contains_key(key) && shards.last()@[key].expiration_time == time;
        assert(expires_in(shards, n, key, time as int));
    }
}

} // verus!
