//! The storage unit of the cache.

use crate::model::{EntryView, Key};
use crate::payload::share_bytes;
use crate::tracker::Tracker;
use bytes::Bytes;
use vstd::hash_map::StringHashMap;
use vstd::prelude::*;

verus! {

/// A single cached entry
pub struct Entry {
    value: Bytes,
    expiration_time: u128,
}

impl View for Entry {
    type V = EntryView;

    closed spec fn view(&self) -> EntryView {
        EntryView {
            value: crate::payload::contents(self.value),
            expiration_time: self.expiration_time as int,
        }
    }
}

/// The entries of a shard, together with the times at which they expire.
struct Contents {
    map: StringHashMap<Entry>,
    ttl_tracker: Tracker,
}

impl Contents {
    /// The tracker holds the expiration time of every entry, and nothing else.
    spec fn wf(&self) -> bool {
        &&& self.ttl_tracker.wf()
        &&& self.map@.dom().finite()
        &&& forall|time: u128, key: Seq<char>| #[trigger]
            self.ttl_tracker@.contains((time, key)) <==> {
                &&& self.map@.contains_key(key)
                &&& self.map@[key].expiration_time == time
            }
    }

    /// The entries by key.
    spec fn entries(&self) -> crate::model::Entries {
        self.map@.map_values(|entry: Entry| entry@)
    }

    /// No entries, with room for `capacity` of them.
    fn with_capacity(capacity: usize) -> (contents: Contents)
        ensures
            contents.wf(),
            contents.entries() == Map::<Seq<char>, EntryView>::empty(),
    {
        let contents = Contents {
            map: StringHashMap::with_capacity(capacity),
            ttl_tracker: Tracker::new(),
        };
        assert(contents.entries() =~= Map::<Seq<char>, EntryView>::empty());
        contents
    }

    /// Caches an entry in place of the one that was cached under the key before.
    fn insert(&mut self, key: Key, entry: Entry)
        requires
            old(self).wf(),
        ensures
            final(self).wf(),
            final(self).entries() == old(self).entries().insert(key@, entry@),
    {
        let replaced: Option<u128> = match self.map.get(key.as_str()) {
            Some(old_entry) => Some(old_entry.expiration_time),
            None => None,
        };
        // Remove the old entry from the ttl tracker to avoid the new key from being removed
        // prematurely
        if let Some(time) = replaced {
            self.ttl_tracker.untrack(time, &key);
        }
        self.ttl_tracker.track(entry.expiration_time, key.clone());
        self.map.insert(key, entry);
        proof {
            assert(self.entries() =~= old(self).entries().insert(key@, entry@));
        }
    }

    /// Removes the entries that have expired at time `now`, and returns the time at which the
    /// next of the others does.
    fn remove_expired(&mut self, now: u128) -> (next: Option<u128>)
        requires
            old(self).wf(),
        ensures
            final(self).wf(),
            final(self).entries() == crate::model::unexpired(old(self).entries(), now),
            crate::model::is_next_expiration(final(self).entries(), next),
    {
        loop
            invariant
                self.wf(),
                crate::model::unexpired(self.entries(), now) == crate::model::unexpired(
                    old(self).entries(),
                    now,
                ),
            decreases self.ttl_tracker.times(),
        {
            let first = self.ttl_tracker.first_time();
            match first {
                None => {
                    proof {
                        lemma_all_unexpired(*self, now, None);
                    }
                    return None;
                },
                Some(time) => {
                    if now < time {
                        proof {
                            lemma_all_unexpired(*self, now, Some(time));
                        }
                        return Some(time);
                    }
                    let ghost before = *self;
                    let keys = self.ttl_tracker.take(time);
                    let ghost after_take = self.ttl_tracker;
                    proof {
                        let pair = choose|pair: (u128, Seq<char>)| #[trigger]
                            before.ttl_tracker@.contains(pair) && pair.0 == time;
                        assert(before.ttl_tracker@.contains((time, pair.1)));
                        assert(keys@.len() > 0);
                    }
                    let mut i: usize = 0;
                    while i < keys.len()
                        invariant
                            i <= keys@.len(),
                            self.ttl_tracker == after_take,
                            self.map@.dom().finite(),
                            forall|key: Seq<char>| #[trigger]
                                self.map@.contains_key(key) <==> {
                                    &&& before.map@.contains_key(key)
                                    &&& forall|j: int|
                                        0 <= j < i ==> (#[trigger] keys@[j])@ != key
                                },
                            forall|key: Seq<char>| #[trigger]
                                self.map@.contains_key(key) ==> self.map@[key] == before.map@[key],
                        decreases keys@.len() - i,
                    {
                        self.map.remove(keys[i].as_str());
                        i += 1;
                    }
                    proof {
                        assert forall|key: Seq<char>| #[trigger]
                            self.map@.contains_key(key) <==> {
                                &&& before.map@.contains_key(key)
                                &&& before.map@[key].expiration_time != time
                            } by {
                            assert(before.ttl_tracker@.contains((time, key)) <==> exists|j: int|
                                0 <= j < keys@.len() && (#[trigger] keys@[j])@ == key);
                        }
                        assert(crate::model::unexpired(self.entries(), now)
                            =~= crate::model::unexpired(before.entries(), now));
                    }
                },
            }
        }
    }
}

/// Nothing has expired at time `now` if the first time on record is later.
proof fn lemma_all_unexpired(contents: Contents, now: u128, first: Option<u128>)
    requires
        contents.wf(),
        crate::tracker::is_first_time(contents.ttl_tracker@, first),
        first matches Some(time) ==> now < time,
    ensures
        contents.entries() == crate::model::unexpired(contents.entries(), now),
        crate::model::is_next_expiration(contents.entries(), first),
{
    let entries = contents.entries();
    assert forall|key: Seq<char>| #[trigger] entries.contains_key(key) implies first is Some
        && first->0 <= entries[key].expiration_time by {
        let time = contents.map@[key].expiration_time;
        assert(contents.ttl_tracker@.contains((time, key)));
    }
    if let Some(time) = first {
        let pair = choose|pair: (u128, Seq<char>)| #[trigger]
            contents.ttl_tracker@.contains(pair) && pair.0 == time;
        assert(contents.ttl_tracker@.contains((pair.0, pair.1)));
        assert(entries.contains_key(pair.1));
    } else {
        assert(entries =~= Map::<Seq<char>, EntryView>::empty());
    }
    assert(entries =~= crate::model::unexpired(entries, now));
}

/// A Shard is the final storage unit of the cache: it contains a hashmap of all the entries and
/// also keeps track of the expiration times of all of the keys stored in the shard.
///
/// Times are clock readings in nanoseconds.
pub struct Shard {
    contents: Contents,
}

impl View for Shard {
    type V = crate::model::Entries;

    closed spec fn view(&self) -> crate::model::Entries {
        self.contents.entries()
    }
}

impl Shard {
    /// The expiration time of every entry is tracked, and nothing else is.
    #[verifier::type_invariant]
    pub closed spec fn wf(&self) -> bool {
        self.contents.wf()
    }

    /// The expiration times that are tracked, each with the key that expires at it.
    pub closed spec fn expirations(&self) -> Set<(u128, Seq<char>)> {
        self.contents.ttl_tracker@
    }

    /// Create a shard with pre allocated capacity
    pub fn with_capacity(capacity: usize) -> (shard: Shard)
        ensures
            shard.wf(),
            shard@ == Map::<Seq<char>, EntryView>::empty(),
    {
        Shard { contents: Contents::with_capacity(capacity) }
    }

    /// Insert a key with an associated value that expires at the given time. If the key already
    /// exists the value will be overwritten and the expiration time will reset.
    ///
    /// The cleanup task waits for the first key to expire. It only needs to be notified if the
    /// shard was previously empty: the result says whether it was.
    pub fn insert(&mut self, key: Key, value: Bytes, expiration_time: u128) -> (should_notify: bool)
        ensures
            final(self).wf(),
            final(self)@ == crate::model::with_entry(
                old(self)@,
                key@,
                crate::payload::contents(value),
                expiration_time as int,
            ),
            final(self)@ == old(self)@.insert(
                key@,
                EntryView {
                    value: crate::payload::contents(value),
                    expiration_time: expiration_time as int,
                },
            ),
            should_notify == (old(self)@ == Map::<Seq<char>, EntryView>::empty()),
    {
        proof {
            use_type_invariant(&*self);
        }
        let mut contents = Contents::with_capacity(0);
        std::mem::swap(&mut contents, &mut self.contents);
        let should_notify = contents.ttl_tracker.is_empty();
        proof {
            lemma_empty(contents);
        }
        contents.insert(key, Entry { value, expiration_time });
        std::mem::swap(&mut contents, &mut self.contents);
        should_notify
    }

    /// Get the value of a given key
    pub fn get(&self, key: &Key) -> (value: Option<Bytes>)
        ensures
            crate::payload::contents_of(value) == crate::model::lookup(self@, key@),
            value is Some <==> self@.contains_key(key@),
            value is Some ==> crate::payload::contents(value->0) == self@[key@].value,
    {
        match self.contents.map.get(key.as_str()) {
            // The clone is very cheap and is not a deep copy
            Some(entry) => Some(share_bytes(&entry.value)),
            None => None,
        }
    }

    /// Remove all keys from the shard storage that have expired at time `now` and return the time
    /// when the next key will expire if there is still keys left in the storage.
    pub fn remove_expired(&mut self, now: u128) -> (next: Option<u128>)
        ensures
            final(self).wf(),
            final(self)@ == crate::model::unexpired(old(self)@, now),
            crate::model::is_next_expiration(final(self)@, next),
            forall|key: Seq<char>| #[trigger]
                final(self)@.contains_key(key) <==> old(self)@.contains_key(key) && now < old(
                    self,
                )@[key].expiration_time,
            forall|key: Seq<char>| #[trigger]
                final(self)@.contains_key(key) ==> final(self)@[key] == old(self)@[key],
            next is None <==> forall|key: Seq<char>| !(#[trigger] final(self)@.contains_key(key)),
            next matches Some(time) ==> exists|key: Seq<char>| #[trigger]
                final(self)@.contains_key(key) && final(self)@[key].expiration_time == time,
            next matches Some(time) ==> forall|key: Seq<char>| #[trigger]
                final(self)@.contains_key(key) ==> time <= final(self)@[key].expiration_time,
    {
        proof {
            use_type_invariant(&*self);
        }
        let mut contents = Contents::with_capacity(0);
        std::mem::swap(&mut contents, &mut self.contents);
        let next = contents.remove_expired(now);
        std::mem::swap(&mut contents, &mut self.contents);
        next
    }
}

/// What a shard tracks is the expiration time of each of its entries.
pub proof fn lemma_tracked(shard: Shard)
    requires
        shard.wf(),
    ensures
        forall|time: u128, key: Seq<char>| #[trigger]
            shard.expirations().contains((time, key)) <==> {
                &&& shard@.contains_key(key)
                &&& shard@[key].expiration_time == time
            },
        shard@.dom().finite(),
        shard.expirations().finite(),
        shard.expirations().len() == shard@.dom().len(),
{
    let map = shard.contents.map@;
    let pair = |key: Seq<char>| (map[key].expiration_time, key);
    assert(shard@.dom() =~= map.dom());
    assert forall|p: (u128, Seq<char>)| #[trigger] shard.expirations().contains(p) implies map.dom().map(
        pair,
    ).contains(p) by {
        assert(shard.expirations().contains((p.0, p.1)));
        assert(pair(p.1) == p);
    }
    assert forall|p: (u128, Seq<char>)| #[trigger]
        map.dom().map(pair).contains(p) implies shard.expirations().contains(p) by {
        assert(shard.expirations().contains((p.0, p.1)));
    }
    assert(map.dom().map(pair) =~= shard.expirations());
    vstd::set_lib::lemma_map_size(map.dom(), shard.expirations(), pair);
}

/// The tracker is empty exactly if there are no entries.
proof fn lemma_empty(contents: Contents)
    requires
        contents.wf(),
    ensures
        contents.ttl_tracker@ == Set::<(u128, Seq<char>)>::empty() <==> contents.entries() == Map::<
            Seq<char>,
            EntryView,
        >::empty(),
{
    if contents.ttl_tracker@ == Set::<(u128, Seq<char>)>::empty() {
        assert forall|key: Seq<char>| !(#[trigger] contents.entries().contains_key(key)) by {
            assert(!contents.ttl_tracker@.contains((contents.map@[key].expiration_time, key)));
        }
        assert(contents.entries() =~= Map::<Seq<char>, EntryView>::empty());
    }
    if contents.entries() == Map::<Seq<char>, EntryView>::empty() {
        assert forall|pair: (u128, Seq<char>)| !(#[trigger] contents.ttl_tracker@.contains(pair)) by {
            assert(contents.ttl_tracker@.contains((pair.0, pair.1)) ==> contents.entries().contains_key(
                pair.1,
            ));
        }
        assert(contents.ttl_tracker@ =~= Set::<(u128, Seq<char>)>::empty());
    }
}

} // verus!
