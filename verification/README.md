# Memster in-memory cache

An in-memory cache with two endpoints, whose logic is verified with Verus:

* `POST /set/<key>` sets the given key associated to the payload
* `GET /get/<key>` returns the value associated to the given key, or 404 if it is not present

Keys expire after 30 days by default. Every other request is answered with 405.

## Layout

* `src/` is the verified library.
  * `model.rs` says what a cache holds, as a mathematical map from keys to payloads and expiration
    times. All contracts speak of it.
  * `tracker.rs` orders the keys by the time at which they expire, `shard.rs` keeps entries and
    tracker in step, `placement.rs` decides which shard a key belongs to, and `shards.rs` puts the
    three together.
  * `storage.rs` is what tasks share: each shard is under a lock of its own. `guarded.rs` is what
    such a lock guards, `clock.rs` reads the time, and `cleanup.rs` says what the cleanup task of a
    shard does next.
  * `http.rs` routes requests and answers them, `config.rs` holds the configuration, and `text.rs`
    writes numbers.
  * `payload.rs` describes the byte buffers that the cache stores.
  * `laws.rs` and `shared_laws.rs` state and prove what holds of the cache as a whole, and of what
    is read from a shared storage.
* `app/` is the service around the library: the server, the cleanup tasks, the configuration file
  and the logs.
* `tests/` runs the library.

## What is taken on trust

The library calls the crates `bytes`, `hyper`, `num_cpus`, `parking_lot`, `parse-size` and `tokio`,
and the hasher of the standard library. What the proofs use of them stands in the doc comment and
the contract of each item marked `external_body` or `assume_specification`.

Tasks may change a shared storage at any time. So the contracts of `Storage` speak of the history of
a shard: the states that it has gone through up to an access, from the first on. Every exclusive
access is proved to cache a value or to remove the expired keys, at a reading of the clock, and
nothing else; a read gives what the last state of such a history holds. The order between the calls
of different tasks is not stated. The contracts of `Shard` and `Shards`, which one task has to
itself, are exact.
