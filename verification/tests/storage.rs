use bytes::Bytes;
use memster::cleanup::{clean_up_shard, seconds_and_nanos, CleanupAction};
use memster::model::MAX_NANOS;
use memster::placement::{default_num_shards, exponent_of_two, next_power_of_two, Placement};
use memster::shard::Shard;
use memster::shards::Shards;
use memster::storage::{Storage, StorageError};
use std::time::Duration;

fn key(text: &str) -> String {
    text.to_owned()
}

fn bytes(text: &str) -> Bytes {
    Bytes::from(text.to_owned())
}

#[test]
fn get_after_insert() {
    let mut shards = Shards::new(0, 100, 4).unwrap();
    assert_eq!(None, shards.get(&key("a")));
    shards.insert(key("a"), bytes("1"), 0);
    assert_eq!(Some(bytes("1")), shards.get(&key("a")));
    assert_eq!(None, shards.get(&key("b")));
}

#[test]
fn insert_keeps_other_keys() {
    let mut shards = Shards::new(0, 100, 1).unwrap();
    shards.insert(key("a"), bytes("1"), 0);
    shards.insert(key("b"), bytes("2"), 1);
    assert_eq!(Some(bytes("1")), shards.get(&key("a")));
    assert_eq!(Some(bytes("2")), shards.get(&key("b")));
}

#[test]
fn insert_overwrites_and_resets_ttl() {
    let mut shards = Shards::new(0, 100, 2).unwrap();
    shards.insert(key("a"), bytes("1"), 0);
    shards.insert(key("a"), bytes("2"), 50);
    assert_eq!(Some(bytes("2")), shards.get(&key("a")));
    assert_eq!(Some(150), shards.remove_expired(100));
    assert_eq!(Some(bytes("2")), shards.get(&key("a")));
    assert_eq!(None, shards.remove_expired(150));
    assert_eq!(None, shards.get(&key("a")));
}

#[test]
fn key_lives_for_its_ttl() {
    let mut shards = Shards::new(0, 100, 4).unwrap();
    shards.insert(key("a"), bytes("1"), 7);
    assert_eq!(Some(107), shards.remove_expired(106));
    assert_eq!(Some(bytes("1")), shards.get(&key("a")));
    assert_eq!(None, shards.remove_expired(107));
    assert_eq!(None, shards.get(&key("a")));
}

#[test]
fn expired_key_stays_until_removed() {
    let mut shards = Shards::new(0, 1, 1).unwrap();
    shards.insert(key("a"), bytes("1"), 0);
    shards.insert(key("b"), bytes("2"), 1_000);
    assert_eq!(Some(bytes("1")), shards.get(&key("a")));
}

#[test]
fn cleanups_combine() {
    let mut once = Shards::new(0, 100, 4).unwrap();
    let mut twice = Shards::new(0, 100, 4).unwrap();
    for i in 0..50u128 {
        once.insert(format!("key-{}", i), bytes("v"), i);
        twice.insert(format!("key-{}", i), bytes("v"), i);
    }
    twice.remove_expired(110);
    assert_eq!(once.remove_expired(120), twice.remove_expired(120));
    assert_eq!(Some(121), twice.remove_expired(110));
    for i in 0..50u128 {
        assert_eq!(
            once.get(&format!("key-{}", i)),
            twice.get(&format!("key-{}", i))
        );
        assert_eq!(i > 20, once.get(&format!("key-{}", i)).is_some());
    }
}

#[test]
fn next_expiration_is_the_first_of_all_shards() {
    let mut shards = Shards::new(0, 100, 16).unwrap();
    assert_eq!(None, shards.remove_expired(0));
    for i in 0..50u128 {
        shards.insert(format!("key-{}", i), bytes("v"), 50 - i);
    }
    assert_eq!(Some(101), shards.remove_expired(0));
    assert_eq!(Some(102), shards.remove_expired(101));
    assert_eq!(None, shards.get(&key("key-49")));
    assert_eq!(Some(bytes("v")), shards.get(&key("key-48")));
}

#[test]
fn no_ttl_expires_at_once() {
    let mut shards = Shards::new(0, 0, 1).unwrap();
    shards.insert(key("a"), bytes("1"), 5);
    assert_eq!(None, shards.remove_expired(5));
    assert_eq!(None, shards.get(&key("a")));
}

#[test]
fn longest_ttl() {
    let mut shards = Shards::new(0, MAX_NANOS, 1).unwrap();
    shards.insert(key("a"), bytes("1"), MAX_NANOS);
    assert_eq!(Some(2 * MAX_NANOS), shards.remove_expired(MAX_NANOS));
    assert_eq!(Some(bytes("1")), shards.get(&key("a")));
}

#[test]
fn insert_notifies_if_the_shard_was_empty() {
    let mut shards = Shards::new(0, 100, 1).unwrap();
    assert!(shards.insert(key("a"), bytes("1"), 0));
    assert!(!shards.insert(key("b"), bytes("2"), 1));
    assert!(!shards.insert(key("a"), bytes("3"), 2));
    shards.remove_expired(200);
    assert!(shards.insert(key("a"), bytes("4"), 200));
}

#[test]
fn shard_count_must_be_a_power_of_two() {
    for num_shards in [0, 3, 5, 6, 7, 12, 100, usize::MAX] {
        let error = match Storage::new(0, Duration::from_nanos(100), Some(num_shards)) {
            Ok(_) => panic!("{} shards", num_shards),
            Err(error) => error,
        };
        assert_eq!(StorageError::ShardCount, error);
        assert_eq!("Shard count must be a power of two", error.message());
    }
    for num_shards in [1, 2, 4, 64, 1024] {
        assert!(Storage::new(0, Duration::from_nanos(100), Some(num_shards)).is_ok());
        assert!(Shards::new(10_000, 100, num_shards).is_ok());
    }
}

#[test]
fn default_shard_count_is_accepted() {
    let storage = Storage::new(1_000, Duration::from_secs(100), None).unwrap();
    let count = storage.shard_count();
    assert!(count >= 4);
    assert!(count.is_power_of_two());
    for i in 0..100 {
        storage.insert(format!("key-{}", i), bytes("v"));
    }
    for i in 0..100 {
        assert_eq!(Some(bytes("v")), storage.get(&format!("key-{}", i)));
    }
}

#[test]
fn default_num_shards_is_four_per_core_rounded_up() {
    assert_eq!(Some(1), default_num_shards(0));
    assert_eq!(Some(4), default_num_shards(1));
    assert_eq!(Some(8), default_num_shards(2));
    assert_eq!(Some(16), default_num_shards(3));
    assert_eq!(Some(16), default_num_shards(4));
    assert_eq!(Some(32), default_num_shards(5));
    assert_eq!(Some(256), default_num_shards(64));
    assert_eq!(None, default_num_shards(usize::MAX));
    assert_eq!(None, default_num_shards(usize::MAX / 4));
    assert_eq!(Some(usize::MAX / 2 + 1), default_num_shards(usize::MAX / 8));
}

#[test]
fn powers_of_two() {
    assert_eq!(None, exponent_of_two(0));
    assert_eq!(Some(0), exponent_of_two(1));
    assert_eq!(Some(1), exponent_of_two(2));
    assert_eq!(None, exponent_of_two(3));
    assert_eq!(Some(10), exponent_of_two(1024));
    assert_eq!(None, exponent_of_two(1025));
    assert_eq!(Some(usize::BITS - 1), exponent_of_two(usize::MAX / 2 + 1));
    assert_eq!(None, exponent_of_two(usize::MAX));
    assert_eq!(Some(1), next_power_of_two(0));
    assert_eq!(Some(1), next_power_of_two(1));
    assert_eq!(Some(4), next_power_of_two(3));
    assert_eq!(Some(64), next_power_of_two(64));
    assert_eq!(Some(128), next_power_of_two(65));
    assert_eq!(None, next_power_of_two(usize::MAX));
}

#[test]
fn placement_spreads_keys() {
    assert!(Placement::new(3).is_none());
    let placement = Placement::new(16).unwrap();
    let mut counts: Vec<usize> = vec![0; 16];
    for i in 0..2_000 {
        let name = format!("key-{}", i);
        let index = placement.shard_for(&name);
        assert!(index < 16);
        assert_eq!(index, placement.shard_for(&name));
        counts[index] += 1;
    }
    // Every shard gets some of the keys, and none gets most of them
    for count in counts {
        assert!(count > 0);
        assert!(count < 1_000);
    }
}

#[test]
fn one_shard_takes_every_key() {
    let placement = Placement::new(1).unwrap();
    for i in 0..100 {
        assert_eq!(0, placement.shard_for(&format!("key-{}", i)));
    }
}

#[test]
fn hasher_is_seeded_randomly() {
    let a = Placement::new(1024).unwrap();
    let b = Placement::new(1024).unwrap();
    let differs = (0..100).any(|i| {
        let name = format!("key-{}", i);
        a.shard_for(&name) != b.shard_for(&name)
    });
    assert!(differs);
}

#[test]
fn shard_removes_keys_of_one_instant() {
    let mut shard = Shard::with_capacity(10);
    assert!(shard.insert(key("a"), bytes("1"), 10));
    assert!(!shard.insert(key("b"), bytes("2"), 10));
    assert!(!shard.insert(key("c"), bytes("3"), 20));
    assert!(!shard.insert(key("b"), bytes("4"), 10));
    assert_eq!(Some(10), shard.remove_expired(9));
    assert_eq!(Some(bytes("1")), shard.get(&key("a")));
    assert_eq!(Some(bytes("4")), shard.get(&key("b")));
    assert_eq!(Some(20), shard.remove_expired(10));
    assert_eq!(None, shard.get(&key("a")));
    assert_eq!(None, shard.get(&key("b")));
    assert_eq!(Some(bytes("3")), shard.get(&key("c")));
    assert_eq!(None, shard.remove_expired(20));
    assert_eq!(None, shard.get(&key("c")));
}

#[test]
fn shard_keeps_a_key_that_takes_over_an_instant() {
    let mut shard = Shard::with_capacity(0);
    shard.insert(key("a"), bytes("1"), 10);
    shard.insert(key("b"), bytes("2"), 20);
    shard.insert(key("a"), bytes("3"), 20);
    assert_eq!(Some(20), shard.remove_expired(10));
    assert_eq!(Some(bytes("3")), shard.get(&key("a")));
    assert_eq!(Some(bytes("2")), shard.get(&key("b")));
}

#[test]
fn shard_cleanup_says_what_to_wait_for() {
    let mut shard = Shard::with_capacity(0);
    assert_eq!(CleanupAction::AwaitNotification, clean_up_shard(&mut shard, 5));
    shard.insert(key("a"), bytes("1"), 10);
    assert_eq!(CleanupAction::SleepUntil(10), clean_up_shard(&mut shard, 9));
    assert_eq!(CleanupAction::AwaitNotification, clean_up_shard(&mut shard, 10));
}

#[test]
fn values_share_their_memory() {
    let mut shard = Shard::with_capacity(0);
    let value = bytes("a value");
    let address = value.as_ptr();
    shard.insert(key("a"), value, 10);
    let read = shard.get(&key("a")).unwrap();
    assert_eq!(address, read.as_ptr());
}

#[test]
fn times_in_seconds_and_nanos() {
    assert_eq!(Some((0, 0)), seconds_and_nanos(0));
    assert_eq!(Some((0, 999_999_999)), seconds_and_nanos(999_999_999));
    assert_eq!(Some((1, 0)), seconds_and_nanos(1_000_000_000));
    assert_eq!(Some((601, 5)), seconds_and_nanos(601_000_000_005));
    assert_eq!(
        Some((u64::MAX, 999_999_999)),
        seconds_and_nanos(MAX_NANOS)
    );
    assert_eq!(None, seconds_and_nanos(MAX_NANOS + 1));
}

#[test]
fn equal_keys_hash_equally() {
    let placement = Placement::new(16).unwrap();
    let hash = placement.hash_usize(&key("some-key"));
    placement.shard_for(&key("other-key"));
    assert_eq!(hash, placement.hash_usize(&format!("some-{}", "key")));
    assert_ne!(hash, placement.hash_usize(&key("other-key")));
    assert_eq!(
        placement.determine_shard(hash),
        placement.shard_for(&key("some-key"))
    );
}

#[test]
fn shard_is_in_the_bits_below_the_topmost_seven() {
    let placement = Placement::new(16).unwrap();
    let bits = usize::BITS;
    assert_eq!(0, placement.determine_shard(0));
    assert_eq!(8, placement.determine_shard(1 << (bits - 8)));
    assert_eq!(1, placement.determine_shard(1 << (bits - 11)));
    assert_eq!(0, placement.determine_shard(1 << (bits - 12)));
    assert_eq!(0, placement.determine_shard(127 << (bits - 7)));
    assert_eq!(15, placement.determine_shard(usize::MAX));
}

#[test]
fn values_do_not_depend_on_the_number_of_shards() {
    let mut few = Shards::new(0, 1_000, 2).unwrap();
    let mut many = Shards::new(500, 1_000, 64).unwrap();
    let mut plain = std::collections::HashMap::new();
    for i in 0..300u128 {
        let name = format!("key-{}", i * 7 % 40);
        let value = Bytes::from(format!("value-{}", i));
        few.insert(name.clone(), value.clone(), i);
        many.insert(name.clone(), value.clone(), i);
        plain.insert(name, value);
        if i % 50 == 0 {
            few.remove_expired(i);
        }
        for j in 0..50 {
            let name = format!("key-{}", j);
            assert_eq!(plain.get(&name).cloned(), few.get(&name));
            assert_eq!(plain.get(&name).cloned(), many.get(&name));
        }
    }
}

#[test]
fn key_lives_for_its_ttl_through_other_calls() {
    let mut shards = Shards::new(0, 100, 1).unwrap();
    shards.insert(key("a"), bytes("1"), 5);
    for now in 6..105u128 {
        shards.insert(format!("other-{}", now), bytes("v"), now);
        shards.remove_expired(now);
        assert_eq!(Some(bytes("1")), shards.get(&key("a")));
    }
    shards.insert(key("b"), bytes("2"), 200);
    assert_eq!(Some(bytes("1")), shards.get(&key("a")));
    assert_eq!(Some(106), shards.remove_expired(105));
    assert_eq!(None, shards.get(&key("a")));
    shards.remove_expired(50);
    assert_eq!(None, shards.get(&key("a")));
}
