//! What holds of the cache as a whole.

use crate::config::{ConfigError, MemsterConfig, SizeError};
use crate::model::{Entries, EntryView, Key};
use crate::shard::Shard;
use crate::shards::Shards;
use crate::storage::{Storage, StorageError};
use bytes::Bytes;
use vstd::arithmetic::div_mod::*;
use vstd::arithmetic::power2::*;
use vstd::prelude::*;

verus! {

/// A request for a key is answered with the value that was last associated to it.
pub proof fn law_get_after_set(
    entries: Entries,
    key: Seq<char>,
    value: Seq<u8>,
    expiration_time: int,
)
    ensures
        ({
            let after = crate::model::with_entry(entries, key, value, expiration_time);
            &&& crate::model::lookup(after, key) == Some(value)
            &&& crate::http::get_answer(crate::model::lookup(after, key)) == (
            crate::http::ResponseView { status: 200, body: value })
        }),
{
}

/// To set a key leaves the values of the other keys as they are.
pub proof fn law_set_keeps_other_keys(
    entries: Entries,
    key: Seq<char>,
    value: Seq<u8>,
    expiration_time: int,
    other: Seq<char>,
)
    requires
        other != key,
    ensures
        ({
            let after = crate::model::with_entry(entries, key, value, expiration_time);
            &&& crate::model::lookup(after, other) == crate::model::lookup(entries, other)
            &&& after.contains_key(other) ==> after[other] == entries[other]
        }),
{
}

/// To set a key that is already present overwrites its value and resets its ttl: nothing is left
/// of the earlier entry.
pub proof fn law_set_overwrites(
    entries: Entries,
    key: Seq<char>,
    earlier: EntryView,
    later: EntryView,
)
    ensures
        crate::model::with_entry(
            crate::model::with_entry(entries, key, earlier.value, earlier.expiration_time),
            key,
            later.value,
            later.expiration_time,
        ) == crate::model::with_entry(entries, key, later.value, later.expiration_time),
{
    assert(crate::model::with_entry(
        crate::model::with_entry(entries, key, earlier.value, earlier.expiration_time),
        key,
        later.value,
        later.expiration_time,
    ) =~= crate::model::with_entry(entries, key, later.value, later.expiration_time));
}

/// A request for a key is answered with 404 if and only if the key is not present, and else with
/// 200.
pub proof fn law_not_found_iff_absent(entries: Entries, key: Seq<char>)
    ensures
        ({
            let status = crate::http::get_answer(crate::model::lookup(entries, key)).status;
            &&& status == 404 <==> !entries.contains_key(key)
            &&& status == 200 <==> entries.contains_key(key)
        }),
{
}

/// A key that is set at time `now` is present until the ttl has passed, and gone once the expired
/// keys are removed after that.
pub proof fn law_key_lives_for_its_ttl(
    entries: Entries,
    key: Seq<char>,
    value: Seq<u8>,
    now: u128,
    ttl: u128,
    later: u128,
)
    ensures
        ({
            let after = crate::model::with_entry(entries, key, value, now + ttl);
            let cleaned = crate::model::unexpired(after, later);
            crate::model::lookup(cleaned, key) == if later < now + ttl {
                Some(value)
            } else {
                None
            }
        }),
{
}

/// A key that is set again lives for a whole ttl from then on, whenever it was set before and
/// whichever times the expired keys were removed at in between.
pub proof fn law_set_resets_ttl(
    entries: Entries,
    key: Seq<char>,
    earlier: EntryView,
    value: Seq<u8>,
    between: u128,
    now: u128,
    ttl: u128,
    later: u128,
)
    requires
        later < now + ttl,
    ensures
        ({
            let first = crate::model::with_entry(
                entries,
                key,
                earlier.value,
                earlier.expiration_time,
            );
            let second = crate::model::with_entry(
                crate::model::unexpired(first, between),
                key,
                value,
                now + ttl,
            );
            crate::model::lookup(crate::model::unexpired(second, later), key) == Some(value)
        }),
{
}

/// The removal of expired keys removes the keys whose time has come, all of them, and leaves the
/// entries of the others as they are.
pub proof fn law_cleanup_removes_exactly_the_expired(entries: Entries, now: u128, key: Seq<char>)
    ensures
        ({
            let cleaned = crate::model::unexpired(entries, now);
            &&& cleaned.contains_key(key) <==> entries.contains_key(key) && now
                < entries[key].expiration_time
            &&& cleaned.contains_key(key) ==> cleaned[key] == entries[key]
        }),
{
}

/// To remove the expired keys at two times is to remove them at the later of the two, in either
/// order. In particular, to do it twice at one time is to do it once.
pub proof fn law_cleanups_combine(entries: Entries, a: u128, b: u128)
    requires
        a <= b,
    ensures
        crate::model::unexpired(crate::model::unexpired(entries, a), b) == crate::model::unexpired(
            entries,
            b,
        ),
        crate::model::unexpired(crate::model::unexpired(entries, b), a) == crate::model::unexpired(
            entries,
            b,
        ),
{
    assert(crate::model::unexpired(crate::model::unexpired(entries, a), b)
        =~= crate::model::unexpired(entries, b));
    assert(crate::model::unexpired(crate::model::unexpired(entries, b), a)
        =~= crate::model::unexpired(entries, b));
}

/// The cleanup task has nothing to do before the time that it sleeps until, and something to do
/// then: that time is yet to come, no key expires sooner, and one expires at it.
pub proof fn law_cleanup_sleeps_until_next_expiration(
    entries: Entries,
    now: u128,
    next: u128,
    later: u128,
)
    requires
        crate::model::is_next_expiration(crate::model::unexpired(entries, now), Some(next)),
    ensures
        now < next,
        later < next ==> crate::model::unexpired(crate::model::unexpired(entries, now), later)
            == crate::model::unexpired(entries, now),
        crate::model::unexpired(crate::model::unexpired(entries, now), next)
            != crate::model::unexpired(entries, now),
{
    let cleaned = crate::model::unexpired(entries, now);
    let key = choose|key: Seq<char>| #[trigger]
        cleaned.contains_key(key) && cleaned[key].expiration_time == next;
    assert(!crate::model::unexpired(cleaned, next).contains_key(key));
    if later < next {
        assert(crate::model::unexpired(cleaned, later) =~= cleaned);
    }
}

/// Whether no entry lives longer than the ttl from time `now` on.
pub open spec fn within_ttl(entries: Entries, now: u128, ttl: u128) -> bool {
    forall|key: Seq<char>| #[trigger]
        entries.contains_key(key) ==> entries[key].expiration_time <= now + ttl
}

/// All keys have the same ttl, so no entry ever lives longer than that from the present on: there
/// is none at first, and to set a key, to remove the expired keys and to let time pass keeps it so.
pub proof fn law_entries_stay_within_ttl(
    entries: Entries,
    key: Seq<char>,
    value: Seq<u8>,
    now: u128,
    later: u128,
    ttl: u128,
)
    requires
        within_ttl(entries, now, ttl),
        now <= later,
    ensures
        within_ttl(Map::<Seq<char>, EntryView>::empty(), now, ttl),
        within_ttl(entries, later, ttl),
        within_ttl(crate::model::with_entry(entries, key, value, later + ttl), later, ttl),
        within_ttl(crate::model::unexpired(entries, later), later, ttl),
{
    let after = crate::model::with_entry(entries, key, value, later + ttl);
    assert forall|k: Seq<char>| #[trigger] after.contains_key(k) implies after[k].expiration_time
        <= later + ttl by {
        if k != key {
            assert(entries.contains_key(k));
        }
    }
    assert forall|k: Seq<char>| #[trigger]
        crate::model::unexpired(entries, later).contains_key(k) implies crate::model::unexpired(
        entries,
        later,
    )[k].expiration_time <= later + ttl by {
        assert(entries.contains_key(k));
    }
}

/// The cleanup task only needs to be notified of a new key if there was none before: a task that
/// sleeps until the first of the entries expires does not miss a key that is set meanwhile.
pub proof fn law_notification_only_if_empty(
    entries: Entries,
    next: u128,
    key: Seq<char>,
    value: Seq<u8>,
    now: u128,
    ttl: u128,
)
    requires
        crate::model::is_next_expiration(entries, Some(next)),
        within_ttl(entries, now, ttl),
    ensures
        ({
            let after = crate::model::with_entry(entries, key, value, now + ttl);
            forall|k: Seq<char>| #[trigger]
                after.contains_key(k) ==> next <= after[k].expiration_time
        }),
{
    let first = choose|k: Seq<char>| #[trigger]
        entries.contains_key(k) && entries[k].expiration_time == next;
    assert(next <= now + ttl);
    let after = crate::model::with_entry(entries, key, value, now + ttl);
    assert forall|k: Seq<char>| #[trigger] after.contains_key(k) implies next
        <= after[k].expiration_time by {
        if k != key {
            assert(entries.contains_key(k));
        }
    }
}

/// Every key of a shard is tracked exactly once, at the time at which it expires, and nothing else
/// is tracked. Any number of keys may expire at one time.
pub proof fn law_every_key_is_tracked(shard: Shard)
    requires
        shard.wf(),
    ensures
        forall|time: u128, key: Seq<char>| #[trigger]
            shard.expirations().contains((time, key)) <==> {
                &&& shard@.contains_key(key)
                &&& shard@[key].expiration_time == time
            },
        shard@.dom().finite(),
        shard.expirations().finite(),
        shard.expirations().len() == shard@.dom().len(),
{
    crate::shard::lemma_tracked(shard);
}

/// To set a key tracks it at its new expiration time and at no other, and leaves what is tracked of
/// the other keys as it is, even those that expire at the same time.
pub proof fn law_set_tracks_the_new_time(
    before: Shard,
    after: Shard,
    key: Seq<char>,
    value: Seq<u8>,
    expiration_time: u128,
)
    requires
        before.wf(),
        after.wf(),
        after@ == crate::model::with_entry(before@, key, value, expiration_time as int),
    ensures
        after.expirations() == before.expirations().filter(
            |pair: (u128, Seq<char>)| pair.1 != key,
        ).insert((expiration_time, key)),
{
    crate::shard::lemma_tracked(before);
    crate::shard::lemma_tracked(after);
    let expected = before.expirations().filter(|pair: (u128, Seq<char>)| pair.1 != key).insert(
        (expiration_time, key),
    );
    assert forall|pair: (u128, Seq<char>)| #[trigger]
        after.expirations().contains(pair) <==> expected.contains(pair) by {
        assert(after.expirations().contains((pair.0, pair.1)) <==> {
            &&& after@.contains_key(pair.1)
            &&& after@[pair.1].expiration_time == pair.0
        });
        assert(before.expirations().contains((pair.0, pair.1)) <==> {
            &&& before@.contains_key(pair.1)
            &&& before@[pair.1].expiration_time == pair.0
        });
    }
    assert(after.expirations() =~= expected);
}

/// The number of shards of a storage is a power of two for as long as it lives: two to the power of
/// the bits that are left of a hash once it is shifted.
pub proof fn law_shard_count_is_a_power_of_two(storage: Storage)
    requires
        storage.wf(),
    ensures
        crate::placement::is_power_of_two(storage.num_shards() as int),
        storage.placement().shift() <= usize::BITS,
        storage.num_shards() == pow2((usize::BITS - storage.placement().shift()) as nat),
{
    crate::storage::lemma_storage(storage);
    crate::placement::lemma_shift(storage.placement());
}

/// The hash of a key depends on the distribution of the keys, which no operation changes, and on
/// the characters of the key alone. So equal keys belong to one shard at all times.
pub proof fn law_equal_keys_hash_equally(
    storage: Storage,
    before: Shards,
    after: Shards,
    a: Key,
    b: Key,
)
    requires
        after.placement() == before.placement(),
        a@ == b@,
    ensures
        storage.placement().hash(a@) == storage.placement().hash(b@),
        storage.shard_of(a@) == storage.shard_of(b@),
        before.placement().hash(a@) == after.placement().hash(b@),
        before.shard_of(a@) == after.shard_of(b@),
{
}

/// Every key belongs to one of the shards.
pub proof fn law_shard_index_in_range(hash: usize, num_shards: int)
    requires
        num_shards > 0,
    ensures
        0 <= crate::placement::shard_index(hash, num_shards) < num_shards,
{
    crate::placement::lemma_shard_index_in_range(hash, num_shards);
}

/// The seven topmost bits of a hash play no part in the choice of a shard.
pub proof fn law_shard_ignores_metadata_bits(a: usize, b: usize, num_shards: int)
    requires
        a as int % (crate::placement::hash_range() / 128) == b as int % (
        crate::placement::hash_range() / 128),
    ensures
        crate::placement::shard_index(a, num_shards) == crate::placement::shard_index(
            b,
            num_shards,
        ),
{
    let range = crate::placement::hash_range();
    assert(range == 128 * (range / 128)) by {
        lemma2_to64();
        lemma2_to64_rest();
    }
    lemma_truncate_middle(a as int, 128, range / 128);
    lemma_truncate_middle(b as int, 128, range / 128);
}

/// Every shard has hashes that belong to it, as long as there are hashes enough without their seven
/// topmost bits.
pub proof fn law_every_shard_is_used(num_shards: int, i: int)
    requires
        crate::placement::is_power_of_two(num_shards),
        num_shards * 128 <= crate::placement::hash_range(),
        0 <= i < num_shards,
    ensures
        exists|hash: usize| #[trigger] crate::placement::shard_index(hash, num_shards) == i,
{
    let range = crate::placement::hash_range();
    let bits = usize::BITS as nat;
    let k = choose|k: nat| num_shards == #[trigger] pow2(k);
    lemma2_to64();
    lemma2_to64_rest();
    lemma_pow2_adds(k, 7);
    if k + 7 > bits {
        lemma_pow2_strictly_increases(bits, k + 7);
    }
    let width = pow2((bits - k - 7) as nat) as int;
    lemma_pow2_pos((bits - k - 7) as nat);
    lemma_pow2_adds(k + 7, (bits - k - 7) as nat);
    assert(range == num_shards * 128 * width);
    assert(0 <= i * width && i * width * 128 < range) by (nonlinear_arith)
        requires
            range == num_shards * 128 * width,
            0 <= i < num_shards,
            width > 0,
    ;
    let hash = (i * width) as usize;
    assert(hash * 128 * num_shards == i * range) by (nonlinear_arith)
        requires
            hash == i * width,
            range == num_shards * 128 * width,
    ;
    lemma_small_mod((hash * 128) as nat, range as nat);
    lemma_div_multiples_vanish(i, range);
    assert(range * i == i * range) by (nonlinear_arith);
    assert(crate::placement::shard_index(hash, num_shards) == i);
}

/// To set a key changes the shard that the key belongs to, and no other.
pub proof fn law_set_touches_one_shard(
    before: Shards,
    after: Shards,
    key: Seq<char>,
    value: Seq<u8>,
    expiration_time: int,
    i: int,
)
    requires
        after@ == crate::model::with_entry(before@, key, value, expiration_time),
        after.placement() == before.placement(),
    ensures
        i == before.shard_of(key) ==> after.entries_in(i) == crate::model::with_entry(
            before.entries_in(i),
            key,
            value,
            expiration_time,
        ),
        i != before.shard_of(key) ==> after.entries_in(i) == before.entries_in(i),
{
    if i == before.shard_of(key) {
        assert(after.entries_in(i) =~= crate::model::with_entry(
            before.entries_in(i),
            key,
            value,
            expiration_time,
        ));
    } else {
        assert(after.entries_in(i) =~= before.entries_in(i));
    }
}

/// A key is found where it belongs: the shard of a key alone decides what is cached under it.
pub proof fn law_key_is_in_its_shard(shards: Shards, key: Seq<char>)
    ensures
        crate::model::lookup(shards@, key) == crate::model::lookup(
            shards.entries_in(shards.shard_of(key)),
            key,
        ),
        shards.entries_in(shards.shard_of(key)).contains_key(key) <==> shards@.contains_key(key),
        shards@.contains_key(key) ==> shards.entries_in(shards.shard_of(key))[key] == shards@[key],
        forall|i: int|
            i != shards.shard_of(key) ==> !(#[trigger] shards.entries_in(i)).contains_key(key),
{
}

/// To remove the expired keys shard by shard is to remove them all.
pub proof fn law_cleanup_shard_by_shard(before: Shards, after: Shards, now: u128, i: int)
    requires
        after@ == crate::model::unexpired(before@, now),
        after.placement() == before.placement(),
    ensures
        after.entries_in(i) == crate::model::unexpired(before.entries_in(i), now),
{
    assert(after.entries_in(i) =~= crate::model::unexpired(before.entries_in(i), now));
}

/// A call that one task makes on shards that it has to itself.
pub enum Call {
    /// Set a key at a time.
    Insert { key: Seq<char>, value: Seq<u8>, now: u128 },
    /// Ask for the value of a key.
    Get { key: Seq<char> },
    /// Remove the expired keys at a time.
    RemoveExpired { now: u128 },
}

/// Whether a call takes shards from one state to another, and gives `value` if it asks for one.
pub open spec fn makes_call(
    before: Shards,
    after: Shards,
    call: Call,
    value: Option<Seq<u8>>,
) -> bool {
    &&& after.ttl() == before.ttl()
    &&& match call {
        Call::Insert { key, value, now } => after@ == crate::model::with_entry(
            before@,
            key,
            value,
            now + before.ttl(),
        ),
        Call::Get { key } => after@ == before@ && value == crate::model::lookup(before@, key),
        Call::RemoveExpired { now } => after@ == crate::model::unexpired(before@, now),
    }
}

/// Whether calls take shards, which are empty at first, through the given states, and give the given
/// values.
pub open spec fn makes_calls(
    states: Seq<Shards>,
    calls: Seq<Call>,
    values: Seq<Option<Seq<u8>>>,
) -> bool {
    &&& states.len() == calls.len() + 1
    &&& values.len() == calls.len()
    &&& states[0]@ == Map::<Seq<char>, EntryView>::empty()
    &&& forall|i: int|
        0 <= i < calls.len() ==> makes_call(
            states[i],
            states[i + 1],
            #[trigger] calls[i],
            values[i],
        )
}

/// Whether no call is made before the time `first`, and none after a ttl has passed since then.
pub open spec fn are_within_ttl(calls: Seq<Call>, first: u128, ttl: u128) -> bool {
    forall|i: int|
        0 <= i < calls.len() ==> match #[trigger] calls[i] {
            Call::Insert { now, .. } => first <= now < first + ttl,
            Call::Get { .. } => true,
            Call::RemoveExpired { now } => first <= now < first + ttl,
        }
}

/// A plain map of keys to values after the same calls: each key has the value that it was last set
/// to.
pub open spec fn plain_map(calls: Seq<Call>) -> Map<Seq<char>, Seq<u8>>
    decreases calls.len(),
{
    if calls.len() == 0 {
        Map::empty()
    } else {
        match calls.last() {
            Call::Insert { key, value, .. } => plain_map(calls.drop_last()).insert(key, value),
            _ => plain_map(calls.drop_last()),
        }
    }
}

/// Within a ttl of the first call, shards hold what a plain map holds after the same calls, no
/// matter how many shards there are, which key belongs to which and when the expired keys are
/// removed. In particular, to ask for a value changes nothing.
pub proof fn law_shards_are_a_plain_map(
    states: Seq<Shards>,
    calls: Seq<Call>,
    values: Seq<Option<Seq<u8>>>,
    first: u128,
    n: int,
)
    requires
        makes_calls(states, calls, values),
        are_within_ttl(calls, first, states[0].ttl()),
        0 <= n <= calls.len(),
    ensures
        states[n].ttl() == states[0].ttl(),
        forall|key: Seq<char>| #[trigger]
            states[n]@.contains_key(key) <==> plain_map(calls.take(n)).contains_key(key),
        forall|key: Seq<char>| #[trigger]
            states[n]@.contains_key(key) ==> {
                &&& states[n]@[key].value == plain_map(calls.take(n))[key]
                &&& first + states[0].ttl() <= states[n]@[key].expiration_time
            },
    decreases n,
{
    if n > 0 {
        law_shards_are_a_plain_map(states, calls, values, first, n - 1);
        assert(makes_call(states[n - 1], states[n - 1 + 1], calls[n - 1], values[n - 1]));
        assert(calls.take(n).drop_last() =~= calls.take(n - 1));
        assert(calls.take(n).last() == calls[n - 1]);
    }
}

/// The same calls give the same values on any two sets of shards, whatever their numbers and however
/// the keys are distributed: those of a plain map.
pub proof fn law_values_do_not_depend_on_shards(
    a: Seq<Shards>,
    b: Seq<Shards>,
    calls: Seq<Call>,
    a_values: Seq<Option<Seq<u8>>>,
    b_values: Seq<Option<Seq<u8>>>,
    first: u128,
    i: int,
    key: Seq<char>,
)
    requires
        makes_calls(a, calls, a_values),
        makes_calls(b, calls, b_values),
        are_within_ttl(calls, first, a[0].ttl()),
        are_within_ttl(calls, first, b[0].ttl()),
        0 <= i < calls.len(),
        calls[i] == (Call::Get { key }),
    ensures
        a_values[i] == b_values[i],
        a_values[i] == if plain_map(calls.take(i)).contains_key(key) {
            Some(plain_map(calls.take(i))[key])
        } else {
            None
        },
{
    law_shards_are_a_plain_map(a, calls, a_values, first, i);
    law_shards_are_a_plain_map(b, calls, b_values, first, i);
    assert(makes_call(a[i], a[i + 1], calls[i], a_values[i]));
    assert(makes_call(b[i], b[i + 1], calls[i], b_values[i]));
    assert(a[i]@.contains_key(key) <==> b[i]@.contains_key(key));
}

/// The default number of shards is one that a storage accepts, unless the machine has more cores
/// than an eighth of what a machine word can count.
pub proof fn law_default_num_shards_is_accepted(cpus: usize, num_shards: Option<usize>)
    requires
        crate::placement::is_default_num_shards(cpus, num_shards),
        cpus <= usize::MAX / 8,
    ensures
        num_shards is Some,
        crate::placement::is_power_of_two(num_shards->0 as int),
        4 * cpus <= num_shards->0,
        cpus > 0 ==> 4 <= num_shards->0 < 8 * cpus,
{
    lemma_power_of_two_between(4 * cpus);
}

/// A storage without a given number of shards is made, with the default number, unless the machine
/// has more cores than an eighth of what a machine word can count.
pub proof fn law_default_storage_is_made(
    made: Result<Storage, StorageError>,
    ttl: u128,
    cpus: usize,
    num_shards: Option<usize>,
)
    requires
        crate::placement::is_default_num_shards(cpus, num_shards),
        crate::storage::is_new_storage(made, ttl, num_shards),
        cpus <= usize::MAX / 8,
    ensures
        made is Ok,
        num_shards == Some(made->Ok_0.num_shards()),
{
    law_default_num_shards_is_accepted(cpus, num_shards);
}

/// There is a power of two that is not less than `n`: one if `n` is zero, and else one that is less
/// than twice `n`.
proof fn lemma_power_of_two_between(n: int)
    requires
        n >= 0,
    ensures
        exists|k: nat|
            n <= #[trigger] pow2(k) && if n == 0 {
                pow2(k) == 1
            } else {
                pow2(k) < 2 * n
            },
    decreases n,
{
    lemma2_to64();
    if n <= 1 {
        assert(n <= pow2(0));
    } else {
        let half = (n + 1) / 2;
        lemma_power_of_two_between(half);
        let k = choose|k: nat| half <= #[trigger] pow2(k) && pow2(k) < 2 * half;
        lemma_pow2_adds(1, k);
        assert(n <= pow2(k + 1));
        assert(pow2(k + 1) < 2 * n + 2);
    }
}

/// Every key that is not empty and has no slash can be set and requested: `/set/<key>` and
/// `/get/<key>` are for that key.
pub proof fn law_every_key_has_its_paths(key: Seq<char>)
    requires
        key.len() > 0,
        !key.contains('/'),
    ensures
        crate::http::gets("GET"@, "/get/"@ + key, key),
        crate::http::sets("POST"@, "/set/"@ + key, key),
{
    reveal_strlit("/get/");
    reveal_strlit("/set/");
    reveal_strlit("get");
    reveal_strlit("set");
    let none = Seq::<char>::empty();
    assert(crate::http::relative("/get/"@ + key) =~= "get"@ + seq!['/'] + key + none);
    assert(crate::http::relative("/set/"@ + key) =~= "set"@ + seq!['/'] + key + none);
}

/// A request asks for at most one thing: no two keys are the key that it is for, and it is not
/// both for the value of a key and to set a key.
pub proof fn law_request_asks_for_one_thing(
    method: Seq<char>,
    path: Seq<char>,
    a: Seq<char>,
    b: Seq<char>,
)
    ensures
        crate::http::gets(method, path, a) && crate::http::gets(method, path, b) ==> a == b,
        crate::http::sets(method, path, a) && crate::http::sets(method, path, b) ==> a == b,
        !(crate::http::gets(method, path, a) && crate::http::sets(method, path, b)),
{
    crate::http::lemma_one_request(method, path, a, b);
}

/// The `Content-Length` of a response says the size of its body.
pub proof fn law_decimal_digits_say_the_number(number: nat)
    ensures
        crate::config::digits_value(crate::text::decimal_digits(number)) == number,
    decreases number,
{
    let text = crate::text::decimal_digits(number);
    crate::text::lemma_decimal_digits(number);
    if number < 10 {
        assert(text.drop_last() =~= Seq::<char>::empty());
        assert(crate::config::digits_value(text.drop_last()) == 0);
    } else {
        law_decimal_digits_say_the_number(number / 10);
        assert(text.drop_last() =~= crate::text::decimal_digits(number / 10));
    }
}

/// What is found under a key is the value of the entry under that very key, and nothing is found
/// exactly if there is no such entry.
pub proof fn law_lookup_finds_the_entry(entries: Entries, key: Seq<char>, value: Seq<u8>)
    ensures
        crate::model::lookup(entries, key) == Some(value) <==> entries.contains_key(key)
            && entries[key].value == value,
        crate::model::lookup(entries, key) is None <==> !entries.contains_key(key),
{
}

/// To cache a value changes the entry under that very key, and no other.
pub proof fn law_caching_changes_one_entry(
    entries: Entries,
    key: Seq<char>,
    value: Seq<u8>,
    expiration_time: int,
)
    ensures
        crate::model::with_entry(entries, key, value, expiration_time) == entries.insert(
            key,
            EntryView { value, expiration_time },
        ),
        crate::model::with_entry(entries, key, value, expiration_time).remove(key)
            == entries.remove(key),
{
    assert(crate::model::with_entry(entries, key, value, expiration_time).remove(key)
        =~= entries.remove(key));
}

/// The next expiration is the least of the times at which entries expire.
pub proof fn law_next_expiration_is_the_least(entries: Entries, next: Option<u128>)
    requires
        crate::model::is_next_expiration(entries, next),
    ensures
        next is None <==> forall|key: Seq<char>| !(#[trigger] entries.contains_key(key)),
        next matches Some(time) ==> exists|key: Seq<char>| #[trigger]
            entries.contains_key(key) && entries[key].expiration_time == time,
        next matches Some(time) ==> forall|key: Seq<char>| #[trigger]
            entries.contains_key(key) ==> time <= entries[key].expiration_time,
{
    if next is None {
        assert(forall|key: Seq<char>| !(#[trigger] entries.contains_key(key)));
    } else {
        let key = choose|key: Seq<char>| #[trigger]
            entries.contains_key(key) && entries[key].expiration_time == next->0;
        assert(entries.contains_key(key));
    }
}

/// What a cleanup task waits for is the next expiration, or a notification if nothing expires.
pub proof fn law_cleanup_waits_for_the_least(entries: Entries, action: crate::cleanup::CleanupAction)
    requires
        crate::cleanup::awaits_next(action, entries),
    ensures
        action !is Stop,
        action is AwaitNotification <==> forall|key: Seq<char>|
            !(#[trigger] entries.contains_key(key)),
        action matches crate::cleanup::CleanupAction::SleepUntil(time) ==> exists|key: Seq<char>|
            #[trigger] entries.contains_key(key) && entries[key].expiration_time == time,
        action matches crate::cleanup::CleanupAction::SleepUntil(time) ==> forall|key: Seq<char>|
            #[trigger] entries.contains_key(key) ==> time <= entries[key].expiration_time,
{
    match action {
        crate::cleanup::CleanupAction::Stop => {},
        crate::cleanup::CleanupAction::SleepUntil(time) => {
            law_next_expiration_is_the_least(entries, Some(time));
        },
        crate::cleanup::CleanupAction::AwaitNotification => {
            law_next_expiration_is_the_least(entries, None);
        },
    }
}

/// The longest span of time is a nanosecond short of 2^64 seconds.
pub proof fn law_longest_span_of_time()
    ensures
        crate::model::MAX_NANOS + 1 == 0x1_0000_0000_0000_0000 * 1_000_000_000,
{
}

/// A response is its status code and all the bytes of its body.
pub proof fn law_response_is_status_and_body(response: crate::http::Response)
    ensures
        response@.status == response.status,
        response@.body == crate::payload::contents(response.body),
{
}

/// What an optional buffer holds is all that the buffer holds.
pub proof fn law_optional_buffer_holds_the_buffer(bytes: Bytes)
    ensures
        crate::payload::contents_of(Some(bytes)) == Some(crate::payload::contents(bytes)),
        crate::payload::contents_of(None) is None,
{
}

/// One is a power of two, and a positive number is one exactly if its double is. No other odd number
/// is, nor is one that is not positive.
pub proof fn law_powers_of_two(n: int)
    ensures
        crate::placement::is_power_of_two(1),
        n > 0 ==> (crate::placement::is_power_of_two(2 * n) <==> crate::placement::is_power_of_two(
            n,
        )),
        n > 1 && n % 2 == 1 ==> !crate::placement::is_power_of_two(n),
        n <= 0 ==> !crate::placement::is_power_of_two(n),
{
    lemma2_to64();
    assert(1 == pow2(0));
    if crate::placement::is_power_of_two(n) {
        let k = choose|k: nat| n == #[trigger] pow2(k);
        lemma_pow2_pos(k);
        lemma_pow2_adds(1, k);
        assert(2 * n == pow2(1 + k));
        if k > 0 {
            lemma_pow2_adds(1, (k - 1) as nat);
            assert(n == 2 * pow2((k - 1) as nat));
        }
    }
    if n > 0 && crate::placement::is_power_of_two(2 * n) {
        let k = choose|k: nat| 2 * n == #[trigger] pow2(k);
        if k > 0 {
            lemma_pow2_adds(1, (k - 1) as nat);
            assert(n == pow2((k - 1) as nat));
        }
    }
}

/// The shard of a hash is to the number of shards as the hash without its seven topmost bits is to
/// the range of such hashes, rounded down.
pub proof fn law_shard_index_scales(hash: usize, num_shards: int)
    ensures
        crate::placement::shard_index(hash, num_shards) * (usize::MAX + 1) <= ((hash * 128) % (
        usize::MAX + 1)) * num_shards < (crate::placement::shard_index(hash, num_shards) + 1) * (
        usize::MAX + 1),
{
    crate::placement::lemma_shard_index_scales(hash, num_shards);
}

/// A request is for the value of a key exactly if its method is `GET` and its path is `/get/`, the
/// key, which is not empty and has no slash, and then nothing or a slash and anything. The leading
/// slash may be missing.
pub proof fn law_get_requests(method: Seq<char>, path: Seq<char>, key: Seq<char>)
    ensures
        crate::http::gets(method, path, key) <==> {
            &&& method == "GET"@
            &&& key.len() > 0
            &&& !key.contains('/')
            &&& exists|tail: Seq<char>|
                #![trigger key + tail]
                {
                    &&& tail.len() == 0 || tail[0] == '/'
                    &&& path == "/get/"@ + (key + tail) || path == "get/"@ + (key + tail)
                }
        },
{
    reveal_strlit("get");
    reveal_strlit("/get/");
    reveal_strlit("get/");
    assert("/get/"@ =~= seq!['/'] + "get"@ + seq!['/']);
    assert("get/"@ =~= "get"@ + seq!['/']);
    lemma_paths(path, "get"@, "/get/"@, "get/"@, key);
}

/// A request is to set a key exactly if its method is `POST` and its path is `/set/`, the key, which
/// is not empty and has no slash, and then nothing or a slash and anything. The leading slash may be
/// missing.
pub proof fn law_set_requests(method: Seq<char>, path: Seq<char>, key: Seq<char>)
    ensures
        crate::http::sets(method, path, key) <==> {
            &&& method == "POST"@
            &&& key.len() > 0
            &&& !key.contains('/')
            &&& exists|tail: Seq<char>|
                #![trigger key + tail]
                {
                    &&& tail.len() == 0 || tail[0] == '/'
                    &&& path == "/set/"@ + (key + tail) || path == "set/"@ + (key + tail)
                }
        },
{
    reveal_strlit("set");
    reveal_strlit("/set/");
    reveal_strlit("set/");
    assert("/set/"@ =~= seq!['/'] + "set"@ + seq!['/']);
    assert("set/"@ =~= "set"@ + seq!['/']);
    lemma_paths(path, "set"@, "/set/"@, "set/"@, key);
}

/// The paths that address a key at an endpoint begin with the name of the endpoint between slashes,
/// of which the first may be missing.
proof fn lemma_paths(
    path: Seq<char>,
    endpoint: Seq<char>,
    between_slashes: Seq<char>,
    before_slash: Seq<char>,
    key: Seq<char>,
)
    requires
        endpoint.len() > 0,
        endpoint[0] != '/',
        between_slashes == seq!['/'] + endpoint + seq!['/'],
        before_slash == endpoint + seq!['/'],
    ensures
        crate::http::addresses(path, endpoint, key) <==> {
            &&& key.len() > 0
            &&& !key.contains('/')
            &&& exists|tail: Seq<char>|
                #![trigger key + tail]
                {
                    &&& tail.len() == 0 || tail[0] == '/'
                    &&& path == between_slashes + (key + tail) || path == before_slash + (key
                        + tail)
                }
        },
{
    if crate::http::addresses(path, endpoint, key) {
        let tail = choose|tail: Seq<char>|
            {
                &&& crate::http::relative(path) == #[trigger] (endpoint + seq!['/'] + key + tail)
                &&& tail.len() == 0 || tail[0] == '/'
            };
        let rest = endpoint + seq!['/'] + key + tail;
        assert(rest =~= before_slash + (key + tail));
        if path.len() > 0 && path[0] == '/' {
            assert(path =~= seq!['/'] + path.skip(1));
            assert(path =~= between_slashes + (key + tail));
        }
        let whole = key + tail;
        assert(path == between_slashes + whole || path == before_slash + whole);
    }
    if key.len() > 0 && !key.contains('/') && exists|tail: Seq<char>|
        #![trigger key + tail]
        {
            &&& tail.len() == 0 || tail[0] == '/'
            &&& path == between_slashes + (key + tail) || path == before_slash + (key + tail)
        } {
        let tail = choose|tail: Seq<char>|
            #![trigger key + tail]
            {
                &&& tail.len() == 0 || tail[0] == '/'
                &&& path == between_slashes + (key + tail) || path == before_slash + (key + tail)
            };
        let rest = endpoint + seq!['/'] + key + tail;
        if path == before_slash + (key + tail) {
            assert(path[0] == endpoint[0]);
            assert(crate::http::relative(path) =~= rest);
        } else {
            assert(path[0] == '/');
            assert(crate::http::relative(path) =~= rest);
        }
    }
}

/// A request has an endpoint exactly if it is for the value of some key, or to set some key.
pub proof fn law_requests_with_an_endpoint(method: Seq<char>, path: Seq<char>, key: Seq<char>)
    ensures
        crate::http::gets(method, path, key) ==> crate::http::is_routed(method, path),
        crate::http::sets(method, path, key) ==> crate::http::is_routed(method, path),
        crate::http::is_routed(method, path) && (forall|other: Seq<char>|
            !(#[trigger] crate::http::gets(method, path, other))) ==> exists|other: Seq<char>|
            #[trigger] crate::http::sets(method, path, other),
{
}

/// The answers: 200 and the value to a request for a key that is present, 404 and nothing to one for
/// a key that is not, 200 and nothing to a request to set a key, and 405 and a text to any other.
pub proof fn law_answers(value: Seq<u8>, i: int)
    ensures
        crate::http::get_answer(Some(value)).status == 200,
        crate::http::get_answer(Some(value)).body == value,
        crate::http::get_answer(None).status == 404,
        crate::http::get_answer(None).body.len() == 0,
        crate::http::set_answer().status == 200,
        crate::http::set_answer().body.len() == 0,
        crate::http::not_allowed_answer().status == 405,
        crate::http::not_allowed_answer().body.len() == "HTTP method not allowed"@.len(),
        0 <= i < "HTTP method not allowed"@.len() ==> crate::http::not_allowed_answer().body[i]
            == "HTTP method not allowed"@[i] as u8,
{
}

/// A number in decimal notation is made of digits, does not begin with a zero unless it is zero, and
/// has the value of the number. The same holds of its bytes in a `Content-Length`.
pub proof fn law_decimal_notation(number: nat)
    ensures
        ({
            let text = crate::text::decimal_digits(number);
            &&& text.len() > 0
            &&& forall|i: int| 0 <= i < text.len() ==> '0' <= #[trigger] text[i] <= '9'
            &&& number > 0 ==> text[0] != '0'
            &&& text.fold_left(0int, |acc: int, c: char| acc * 10 + (c as int - 48)) == number
            &&& crate::http::ascii(text).len() == text.len()
            &&& forall|i: int|
                0 <= i < text.len() ==> #[trigger] crate::http::ascii(text)[i] == text[i] as u8
        }),
    decreases number,
{
    let text = crate::text::decimal_digits(number);
    let f = |acc: int, c: char| acc * 10 + (c as int - 48);
    crate::text::lemma_decimal_digits(number);
    if number < 10 {
        assert(text.drop_last() =~= Seq::<char>::empty());
        assert(text.drop_last().fold_left(0int, f) == 0);
        assert(text.fold_left(0int, f) == f(text.drop_last().fold_left(0int, f), text.last()));
    } else {
        law_decimal_notation(number / 10);
        assert(text.drop_last() =~= crate::text::decimal_digits(number / 10));
        assert(text.fold_left(0int, f) == f(text.drop_last().fold_left(0int, f), text.last()));
        assert(text[0] == crate::text::decimal_digits(number / 10)[0]);
    }
}

/// To load a configuration keeps every setting as it is set, and reads the number of bytes to
/// allocate up front: that number if the size is one that the memory can be, and an error that says
/// why if it is not.
pub proof fn law_loading_keeps_the_settings(
    config: MemsterConfig,
    size: Result<u64, SizeError>,
    loaded: Result<MemsterConfig, ConfigError>,
)
    requires
        config.is_loaded(size, loaded),
    ensures
        loaded is Ok <==> size is Ok && size->Ok_0 <= usize::MAX,
        loaded is Ok ==> {
            &&& loaded->Ok_0._pre_allocated == config._pre_allocated
            &&& loaded->Ok_0.port == config.port
            &&& loaded->Ok_0.host == config.host
            &&& loaded->Ok_0.ttl == config.ttl
            &&& loaded->Ok_0.json_logging == config.json_logging
            &&& loaded->Ok_0.num_shards == config.num_shards
            &&& loaded->Ok_0.pre_allocted_bytes == size->Ok_0
        },
        size is Err ==> loaded is Err && loaded->Err_0 == ConfigError::PreAllocated(size->Err_0),
        size is Ok && size->Ok_0 > usize::MAX ==> loaded is Err && loaded->Err_0
            == ConfigError::TooLarge,
{
}

/// The value of the digits of a text is that of a number in decimal notation, from left to right.
pub proof fn law_digits_value(text: Seq<char>)
    ensures
        crate::config::digits_value(text) == text.fold_left(
            0int,
            |acc: int, c: char|
                if '0' <= c <= '9' {
                    acc * 10 + (c as int - 48)
                } else {
                    acc
                },
        ),
    decreases text.len(),
{
    let f = |acc: int, c: char|
        if '0' <= c <= '9' {
            acc * 10 + (c as int - 48)
        } else {
            acc
        };
    if text.len() > 0 {
        law_digits_value(text.drop_last());
        assert(text.fold_left(0int, f) == f(text.drop_last().fold_left(0int, f), text.last()));
    }
}

/// A size is not read only if it is longer than an `i32` can count, or if it has a digit that rounds
/// up a number whose digits come to the largest `u64`. The number is made of digits, underscores,
/// spaces and at most one point, which follows a digit.
pub proof fn law_unreadable_sizes(text: Seq<char>)
    ensures
        crate::config::is_readable_size(text) <==> {
            &&& text.len() <= 0x7fff_ffff
            &&& forall|i: int|
                0 <= i < text.len() && '5' <= #[trigger] text[i] <= '9' && (forall|j: int|
                    0 <= j < i ==> {
                        ||| '0' <= #[trigger] text[j] <= '9'
                        ||| text[j] == '_'
                        ||| text[j] == ' '
                        ||| text[j] == '.'
                    }) && (forall|j: int|
                    0 <= j < i && #[trigger] text[j] == '.' ==> {
                        &&& exists|k: int| 0 <= k < j && '0' <= #[trigger] text[k] <= '9'
                        &&& forall|k: int| 0 <= k < j ==> #[trigger] text[k] != '.'
                    }) ==> crate::config::digits_value(text.take(i)) != u64::MAX
        },
{
    assert forall|i: int| 0 <= i < text.len() implies (crate::config::begins_number(text.take(i))
        <==> {
        &&& forall|j: int|
            0 <= j < i ==> {
                ||| '0' <= #[trigger] text[j] <= '9'
                ||| text[j] == '_'
                ||| text[j] == ' '
                ||| text[j] == '.'
            }
        &&& forall|j: int|
            0 <= j < i && #[trigger] text[j] == '.' ==> {
                &&& exists|k: int| 0 <= k < j && '0' <= #[trigger] text[k] <= '9'
                &&& forall|k: int| 0 <= k < j ==> #[trigger] text[k] != '.'
            }
    }) by {
        lemma_begins_number(text, i);
    }
    if crate::config::is_readable_size(text) {
        assert forall|i: int| 0 <= i < text.len() && '5' <= #[trigger] text[i] <= '9'
            && crate::config::begins_number(text.take(i)) implies crate::config::digits_value(
            text.take(i),
        ) != u64::MAX by {
            assert(!crate::config::rounds_up_maximum(text, i));
        }
    } else if text.len() <= 0x7fff_ffff {
        let i = choose|i: int|
            0 <= i < text.len() && #[trigger] crate::config::rounds_up_maximum(text, i);
        assert('5' <= text[i] <= '9');
    }
}

/// What it means that a text begins with the beginning of a number.
proof fn lemma_begins_number(text: Seq<char>, i: int)
    requires
        0 <= i < text.len(),
    ensures
        crate::config::begins_number(text.take(i)) <==> {
            &&& forall|j: int|
                0 <= j < i ==> {
                    ||| '0' <= #[trigger] text[j] <= '9'
                    ||| text[j] == '_'
                    ||| text[j] == ' '
                    ||| text[j] == '.'
                }
            &&& forall|j: int|
                0 <= j < i && #[trigger] text[j] == '.' ==> {
                    &&& exists|k: int| 0 <= k < j && '0' <= #[trigger] text[k] <= '9'
                    &&& forall|k: int| 0 <= k < j ==> #[trigger] text[k] != '.'
                }
        },
{
    let start = text.take(i);
    assert forall|j: int| 0 <= j < i implies #[trigger] start[j] == text[j] by {}
    assert forall|j: int| 0 <= j < i implies #[trigger] text[j] == start[j] by {}
    if crate::config::begins_number(start) {
        assert forall|j: int| 0 <= j < i && #[trigger] text[j] == '.' implies {
            &&& exists|k: int| 0 <= k < j && '0' <= #[trigger] text[k] <= '9'
            &&& forall|k: int| 0 <= k < j ==> #[trigger] text[k] != '.'
        } by {
            assert(start[j] == '.');
            let k = choose|k: int|
                0 <= k < j && crate::config::is_digit(#[trigger] start[k]);
            assert('0' <= text[k] <= '9');
            assert(forall|k: int| 0 <= k < j ==> #[trigger] text[k] == start[k]);
        }
    }
    if (forall|j: int|
        0 <= j < i ==> {
            ||| '0' <= #[trigger] text[j] <= '9'
            ||| text[j] == '_'
            ||| text[j] == ' '
            ||| text[j] == '.'
        }) && (forall|j: int|
        0 <= j < i && #[trigger] text[j] == '.' ==> {
            &&& exists|k: int| 0 <= k < j && '0' <= #[trigger] text[k] <= '9'
            &&& forall|k: int| 0 <= k < j ==> #[trigger] text[k] != '.'
        }) {
        assert forall|j: int| 0 <= j < start.len() && #[trigger] start[j] == '.' implies {
            &&& exists|k: int| 0 <= k < j && crate::config::is_digit(#[trigger] start[k])
            &&& forall|k: int| 0 <= k < j ==> #[trigger] start[k] != '.'
        } by {
            assert(text[j] == '.');
            let k = choose|k: int| 0 <= k < j && '0' <= #[trigger] text[k] <= '9';
            assert(crate::config::is_digit(start[k]));
            assert(forall|k: int| 0 <= k < j ==> #[trigger] start[k] == text[k]);
        }
        assert(crate::config::begins_number(start));
    }
}

} // verus!
