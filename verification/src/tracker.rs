//! Which key expires when.

use crate::model::Key;
use std::collections::BTreeMap;
use vstd::prelude::*;

verus! {

/// The expiration times of a set of keys, ordered by time.
///
/// A tracker is a set of pairs of an expiration time, in nanoseconds, and a key. Any number of
/// keys may expire at the same time.
pub struct Tracker {
    expirations: BTreeMap<u128, Vec<Key>>,
}

/// Whether `key` is one of `keys`.
spec fn listed(keys: Seq<Key>, key: Seq<char>) -> bool {
    exists|i: int| 0 <= i < keys.len() && (#[trigger] keys[i])@ == key
}

/// Whether no key occurs twice in `keys`.
spec fn distinct(keys: Seq<Key>) -> bool {
    forall|i: int, j: int|
        0 <= i < j < keys.len() ==> (#[trigger] keys[i])@ != (#[trigger] keys[j])@
}

/// Whether the pair of `time` and `key` is in the map of keys by time.
spec fn has_pair(expirations: Map<u128, Vec<Key>>, time: u128, key: Seq<char>) -> bool {
    expirations.contains_key(time) && listed(expirations[time]@, key)
}

impl View for Tracker {
    type V = Set<(u128, Seq<char>)>;

    closed spec fn view(&self) -> Set<(u128, Seq<char>)> {
        Set::new(|pair: (u128, Seq<char>)| has_pair(self.expirations@, pair.0, pair.1))
    }
}

impl Tracker {
    /// Every time on record has at least one key, and no key twice.
    pub closed spec fn wf(&self) -> bool {
        forall|time: u128| #[trigger]
            self.expirations@.contains_key(time) ==> {
                &&& self.expirations@[time]@.len() > 0
                &&& distinct(self.expirations@[time]@)
            }
    }

    /// The number of different times on record.
    pub closed spec fn times(&self) -> nat {
        self.expirations@.dom().len()
    }

    /// A tracker of no keys.
    pub fn new() -> (tracker: Tracker)
        ensures
            tracker.wf(),
            tracker@ == Set::<(u128, Seq<char>)>::empty(),
    {
        let tracker = Tracker { expirations: BTreeMap::new() };
        assert(tracker@ =~= Set::<(u128, Seq<char>)>::empty());
        tracker
    }

    /// Whether no key is tracked.
    pub fn is_empty(&self) -> (empty: bool)
        requires
            self.wf(),
        ensures
            empty == (self@ == Set::<(u128, Seq<char>)>::empty()),
    {
        let empty = self.expirations.is_empty();
        proof {
            if empty {
                assert(self@ =~= Set::<(u128, Seq<char>)>::empty());
            } else {
                let time = choose|time: u128| self.expirations@.contains_key(time);
                assert(self.expirations@.dom() != Set::<u128>::empty());
                assert(exists|time: u128| self.expirations@.contains_key(time));
                assert(listed(self.expirations@[time]@, self.expirations@[time]@[0]@));
                assert(self@.contains((time, self.expirations@[time]@[0]@)));
            }
        }
        empty
    }

    /// Tracks that `key` expires at `time`.
    pub fn track(&mut self, time: u128, key: Key)
        requires
            old(self).wf(),
            !old(self)@.contains((time, key@)),
        ensures
            final(self).wf(),
            final(self)@ == old(self)@.insert((time, key@)),
    {
        let ghost before = self.expirations@;
        let ghost name = key@;
        let removed = self.expirations.remove(&time);
        let mut keys: Vec<Key> = match removed {
            Some(keys) => keys,
            None => Vec::new(),
        };
        let ghost earlier = keys@;
        keys.push(key);
        self.expirations.insert(time, keys);
        proof {
            assert(keys@ == earlier.push(key));
            assert(self.expirations@ =~= before.insert(time, keys));
            assert forall|k: Seq<char>| listed(keys@, k) <==> (listed(earlier, k) || k == name) by {
                if listed(earlier, k) {
                    let i = choose|i: int| 0 <= i < earlier.len() && (#[trigger] earlier[i])@ == k;
                    assert(keys@[i]@ == k);
                }
                if k == name {
                    assert(keys@[earlier.len() as int]@ == k);
                }
                if listed(keys@, k) {
                    let i = choose|i: int| 0 <= i < keys@.len() && (#[trigger] keys@[i])@ == k;
                    if i < earlier.len() {
                        assert(earlier[i]@ == k);
                    }
                }
            }
            assert(!listed(earlier, name)) by {
                if before.contains_key(time) {
                    assert(!has_pair(before, time, name));
                }
            }
            assert(distinct(keys@)) by {
                assert forall|i: int, j: int| 0 <= i < j < keys@.len() implies (
                #[trigger] keys@[i])@ != (#[trigger] keys@[j])@ by {
                    if j == earlier.len() {
                        assert(earlier[i]@ != name);
                    } else {
                        assert(before.contains_key(time));
                        assert(earlier[i]@ != earlier[j]@);
                    }
                }
            }
            assert(self@ =~= old(self)@.insert((time, name)));
        }
    }

    /// Stops tracking that `key` expires at `time`.
    pub fn untrack(&mut self, time: u128, key: &Key)
        requires
            old(self).wf(),
        ensures
            final(self).wf(),
            final(self)@ == old(self)@.remove((time, key@)),
    {
        let ghost before = self.expirations@;
        let removed = self.expirations.remove(&time);
        match removed {
            None => {
                assert(self@ =~= old(self)@.remove((time, key@)));
            },
            Some(keys) => {
                let mut keys = keys;
                let ghost earlier = keys@;
                let mut i: usize = 0;
                while i < keys.len() && keys[i] != *key
                    invariant
                        i <= keys@.len(),
                        forall|j: int| 0 <= j < i ==> (#[trigger] keys@[j])@ != key@,
                    decreases keys@.len() - i,
                {
                    i += 1;
                }
                if i < keys.len() {
                    let dropped = keys.remove(i);
                }
                proof {
                    lemma_listed_after_removal(earlier, i as int, key@, keys@);
                }
                if keys.len() > 0 {
                    self.expirations.insert(time, keys);
                }
                assert(self@ =~= old(self)@.remove((time, key@))) by {
                    assert forall|t: u128, k: Seq<char>|
                        has_pair(self.expirations@, t, k) <==> (has_pair(before, t, k) && !(t == time
                            && k == key@)) by {
                        if t == time {
                            assert(listed(keys@, k) <==> (listed(earlier, k) && k != key@));
                        }
                    }
                }
            },
        }
    }

    /// The earliest time at which a tracked key expires.
    pub fn first_time(&self) -> (first: Option<u128>)
        requires
            self.wf(),
        ensures
            is_first_time(self@, first),
    {
        for item in iter: self.expirations.iter()
            invariant
                self.wf(),
                iter.index() == 0,
                vstd::std_specs::btree::increasing_seq(
                    iter.seq().map_values(|item: (&u128, &Vec<Key>)| *item.0),
                ),
        {
            let time: u128 = *item.0;
            proof {
                let items = iter.seq();
                let times = items.map_values(|item: (&u128, &Vec<Key>)| *item.0);
                assert(time == times[0]);
                assert(self.expirations@.contains_key(*items[0].0));
                let key = self.expirations@[time]@[0]@;
                assert(listed(self.expirations@[time]@, key));
                assert(has_pair(self.expirations@, time, key));
                assert forall|pair: (u128, Seq<char>)| #[trigger]
                    self@.contains(pair) implies time <= pair.0 by {
                    assert(self.expirations@.contains_key(pair.0));
                    assert(items.contains((&pair.0, &self.expirations@[pair.0])));
                    let i = items.index_of((&pair.0, &self.expirations@[pair.0]));
                    assert(times[i] == pair.0);
                    if i > 0 {
                        assert(vstd::std_specs::cmp::OrdSpec::cmp_spec(&times[0], &times[i]) is Less);
                    }
                }
                assert(self@.contains((time, key)));
            }
            return Some(time);
        }
        proof {
            assert forall|pair: (u128, Seq<char>)| !(#[trigger] self@.contains(pair)) by {
                if self@.contains(pair) {
                    assert(self.expirations@.contains_key(pair.0));
                }
            }
            assert(self@ =~= Set::<(u128, Seq<char>)>::empty());
        }
        None
    }

    /// Stops tracking all the keys that expire at `time`, and hands them out.
    pub fn take(&mut self, time: u128) -> (keys: Vec<Key>)
        requires
            old(self).wf(),
        ensures
            final(self).wf(),
            final(self)@ == old(self)@.filter(|pair: (u128, Seq<char>)| pair.0 != time),
            forall|key: Seq<char>| #[trigger]
                old(self)@.contains((time, key)) <==> exists|i: int|
                    0 <= i < keys@.len() && (#[trigger] keys@[i])@ == key,
            keys@.len() > 0 ==> final(self).times() < old(self).times(),
    {
        let ghost before = self.expirations@;
        let removed = self.expirations.remove(&time);
        let keys: Vec<Key> = match removed {
            Some(keys) => keys,
            None => Vec::new(),
        };
        proof {
            assert(self@ =~= old(self)@.filter(|pair: (u128, Seq<char>)| pair.0 != time));
            assert forall|key: Seq<char>| #[trigger]
                old(self)@.contains((time, key)) <==> listed(keys@, key) by {}
        }
        keys
    }
}

/// Whether `first` is the earliest expiration time among `pairs`, and absent if there are none.
pub open spec fn is_first_time(pairs: Set<(u128, Seq<char>)>, first: Option<u128>) -> bool {
    match first {
        Some(time) => {
            &&& exists|pair: (u128, Seq<char>)| #[trigger] pairs.contains(pair) && pair.0 == time
            &&& forall|pair: (u128, Seq<char>)| #[trigger] pairs.contains(pair) ==> time <= pair.0
        },
        None => pairs == Set::<(u128, Seq<char>)>::empty(),
    }
}

/// What is listed in `rest`, which is `keys` without its first occurrence `i` of `key`.
proof fn lemma_listed_after_removal(keys: Seq<Key>, i: int, key: Seq<char>, rest: Seq<Key>)
    requires
        distinct(keys),
        0 <= i <= keys.len(),
        forall|j: int| 0 <= j < i ==> (#[trigger] keys[j])@ != key,
        i < keys.len() ==> keys[i]@ == key && rest == keys.remove(i),
        i == keys.len() ==> rest == keys,
    ensures
        distinct(rest),
        forall|k: Seq<char>| #[trigger] listed(rest, k) <==> (listed(keys, k) && k != key),
{
    assert forall|k: Seq<char>| #[trigger] listed(rest, k) implies listed(keys, k) && k != key by {
        let j = choose|j: int| 0 <= j < rest.len() && (#[trigger] rest[j])@ == k;
        if j < i {
            assert(keys[j]@ == k);
        } else {
            assert(keys[j + 1]@ == k);
            assert(keys[i]@ != keys[j + 1]@);
        }
    }
    assert forall|k: Seq<char>| listed(keys, k) && k != key implies #[trigger] listed(rest, k) by {
        let j = choose|j: int| 0 <= j < keys.len() && (#[trigger] keys[j])@ == k;
        if j < i {
            assert(rest[j]@ == k);
        } else {
            assert(rest[j - 1]@ == k);
        }
    }
    assert forall|a: int, b: int| 0 <= a < b < rest.len() implies (#[trigger] rest[a])@ != (
    #[trigger] rest[b])@ by {
        let a2 = if a < i { a } else { a + 1 };
        let b2 = if b < i { b } else { b + 1 };
        assert(rest[a] == keys[a2] && rest[b] == keys[b2]) by {
            if i >= keys.len() {
                assert(a < i && b < i);
            }
        }
    }
}

} // verus!
