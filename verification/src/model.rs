//! What a cache holds, as a mathematical map.

use vstd::prelude::*;

verus! {

/// Cache key type
pub type Key = String;

/// The longest span of time that a clock reading or a time to live can be, in nanoseconds: a
/// little less than 2^64 seconds.
pub const MAX_NANOS: u128 = 18_446_744_073_709_551_615_999_999_999;

/// A cached entry: its payload, and the time, in nanoseconds, at which it expires.
#[verifier::ext_equal]
pub struct EntryView {
    pub value: Seq<u8>,
    pub expiration_time: int,
}

/// The entries of a cache by key.
pub type Entries = Map<Seq<char>, EntryView>;

/// The payload cached under `key`, if there is one.
pub open spec fn lookup(entries: Entries, key: Seq<char>) -> Option<Seq<u8>> {
    if entries.contains_key(key) {
        Some(entries[key].value)
    } else {
        None
    }
}

/// The entries once `value` is cached under `key` until `expiration_time`, in place of whatever
/// was cached under it before.
pub open spec fn with_entry(
    entries: Entries,
    key: Seq<char>,
    value: Seq<u8>,
    expiration_time: int,
) -> Entries {
    entries.insert(key, EntryView { value, expiration_time })
}

/// The entries that have not expired at time `now`.
pub open spec fn unexpired(entries: Entries, now: u128) -> Entries {
    entries.restrict(
        Set::new(|key: Seq<char>| entries.contains_key(key) && now < entries[key].expiration_time),
    )
}

/// Whether `next` is the time at which the first of the entries expires, and absent if there are
/// no entries.
pub open spec fn is_next_expiration(entries: Entries, next: Option<u128>) -> bool {
    match next {
        Some(time) => {
            &&& exists|key: Seq<char>| #[trigger]
                entries.contains_key(key) && entries[key].expiration_time == time
            &&& forall|key: Seq<char>| #[trigger]
                entries.contains_key(key) ==> time <= entries[key].expiration_time
        },
        None => entries == Map::<Seq<char>, EntryView>::empty(),
    }
}

} // verus!
