use bytes::Bytes;
use memster::cleanup::CleanupAction;
use memster::http::{
    get_handler, handle, method_not_allowed, set_handler, value_response, Response,
};
use memster::shards::Shards;
use memster::storage::Storage;
use std::future::Future;
use std::time::Duration;

const TTL: Duration = Duration::from_secs(600);

/// Runs a test under a clock that only moves when the test moves it.
fn run<F: Future<Output = ()>>(test: F) {
    tokio::runtime::Builder::new_current_thread()
        .enable_time()
        .start_paused(true)
        .build()
        .expect("Failed to build the runtime")
        .block_on(test)
}

struct MemsterClient {
    storage: Storage,
}

impl MemsterClient {
    fn set(&self, key: String, value: Bytes) -> Response {
        handle("POST", &format!("/set/{}", key), value, &self.storage)
    }

    fn get(&self, key: String) -> Response {
        handle("GET", &format!("/get/{}", key), Bytes::new(), &self.storage)
    }

    /// Moves forward in time, and lets every shard clean up.
    async fn time_travel(&self, duration: Duration) {
        tokio::time::advance(duration).await;
        for index in 0..self.storage.shard_count() {
            self.storage.clean_up(index);
        }
    }
}

fn setup_server() -> MemsterClient {
    let storage = Storage::new(0, TTL, None).unwrap();
    MemsterClient { storage }
}

fn with_shards(num_shards: usize) -> Storage {
    Storage::new(0, TTL, Some(num_shards)).unwrap()
}

fn text(response: Response) -> String {
    String::from_utf8(response.body.to_vec()).unwrap()
}

#[test]
fn insert() {
    run(async {
        let client = setup_server();
        let response = client.set("some-key".into(), Bytes::from("Some value"));
        assert_eq!(200, response.status);
        let response = client.get("some-key".into());
        assert_eq!(200, response.status);
        assert_eq!("Some value".to_owned(), text(response));
    });
}

#[test]
fn update() {
    run(async {
        let client = setup_server();
        let response = client.set("some-key".into(), Bytes::from("Some value"));
        assert_eq!(200, response.status);
        let response = client.set("some-key".into(), Bytes::from("Some other value"));
        assert_eq!(200, response.status);
        let response = client.get("some-key".into());
        assert_eq!(200, response.status);
        assert_eq!("Some other value".to_owned(), text(response));
    });
}

#[test]
fn non_existent_key() {
    run(async {
        let client = setup_server();
        let response = client.get("non-existing-key".into());
        assert_eq!(404, response.status);
    });
}

#[test]
fn simple_ttl() {
    run(async {
        let client = setup_server();
        let response = client.set("some-key".into(), Bytes::from("Some value"));
        assert_eq!(200, response.status);
        let response = client.get("some-key".into());
        assert_eq!(200, response.status);
        assert_eq!("Some value".to_owned(), text(response));
        client.time_travel(TTL).await;
        let response = client.get("some-key".into());
        assert_eq!(404, response.status);
    });
}

#[test]
fn complex_ttl() {
    run(async {
        let client = setup_server();
        // Insert some data
        for i in 0..1000 {
            let response = client.set(format!("some-key-{}", i), Bytes::from("Some value"));
            assert_eq!(200, response.status);
        }
        // Time travel
        client.time_travel(TTL / 2).await;
        // make sure it's present
        for i in 0..1000 {
            let response = client.get(format!("some-key-{}", i));
            assert_eq!(200, response.status);
            assert_eq!("Some value".to_owned(), text(response));
        }
        // Insert some more data
        for i in 1001..1010 {
            let response = client.set(format!("some-key-{}", i), Bytes::from("Some value"));
            assert_eq!(200, response.status);
        }
        // make all old expire
        client.time_travel(TTL / 2).await;
        // Make sure old keys have been deleted while the newer remains
        for i in 0..1010 {
            let response = client.get(format!("some-key-{}", i));
            if i > 1000 {
                assert_eq!(200, response.status);
                assert_eq!("Some value".to_owned(), text(response));
            } else {
                assert_eq!(404, response.status);
            }
        }
    });
}

#[test]
fn ttl_is_updated() {
    run(async {
        let client = setup_server();
        // Insert some data
        let response = client.set("some-key".into(), Bytes::from("Some value"));
        assert_eq!(200, response.status);
        // Time travel
        client.time_travel(TTL - Duration::from_secs(5)).await;
        // Update the key which should reset the ttl
        let response = client.set("some-key".into(), Bytes::from("Some other value"));
        assert_eq!(200, response.status);
        client.time_travel(Duration::from_secs(6)).await;
        // Make sure the key is still present
        let response = client.get("some-key".into());
        assert_eq!(200, response.status);
        assert_eq!("Some other value".to_string(), text(response));
        // Time travel again to the final ttl of the key
        client.time_travel(TTL).await;
        // Check that it's no longer present
        let response = client.get("some-key".into());
        assert_eq!(404, response.status);
    });
}

#[test]
fn keys_of_one_instant_all_expire() {
    run(async {
        let client = MemsterClient {
            storage: with_shards(1),
        };
        // The clock stands still, so all of the keys expire at the same time
        for i in 0..10 {
            client.set(format!("key-{}", i), Bytes::from("value"));
        }
        client.time_travel(TTL - Duration::from_nanos(1)).await;
        for i in 0..10 {
            assert_eq!(200, client.get(format!("key-{}", i)).status);
        }
        client.time_travel(Duration::from_nanos(1)).await;
        for i in 0..10 {
            assert_eq!(404, client.get(format!("key-{}", i)).status);
        }
    });
}

#[test]
fn other_requests_are_not_allowed() {
    run(async {
        let client = setup_server();
        client.set("key".into(), Bytes::from("value"));
        for (method, path) in [
            ("POST", "/get/key"),
            ("GET", "/set/key"),
            ("PUT", "/set/key"),
            ("HEAD", "/get/key"),
            ("get", "/get/key"),
            ("GET", "/"),
            ("GET", "/get"),
            ("GET", "/get/"),
            ("GET", "/other/key"),
        ] {
            let response = handle(method, path, Bytes::from("other"), &client.storage);
            assert_eq!(405, response.status);
            assert_eq!("HTTP method not allowed".to_owned(), text(response));
        }
        assert_eq!("value".to_owned(), text(client.get("key".into())));
    });
}

#[test]
fn responses_have_their_bodies() {
    let response = value_response(Some(Bytes::from("value")));
    assert_eq!(200, response.status);
    assert_eq!(Bytes::from("value"), response.body);
    let response = value_response(None);
    assert_eq!(404, response.status);
    assert_eq!(Bytes::new(), response.body);
    let response = method_not_allowed();
    assert_eq!(405, response.status);
    assert_eq!(Bytes::from("HTTP method not allowed"), response.body);
}

#[test]
fn handlers_read_and_write_the_storage() {
    run(async {
        let storage = with_shards(4);
        assert_eq!(404, get_handler("key".to_owned(), &storage).status);
        let response = set_handler("key".to_owned(), Bytes::from("value"), &storage);
        assert_eq!(200, response.status);
        assert_eq!(Bytes::new(), response.body);
        let response = get_handler("key".to_owned(), &storage);
        assert_eq!(200, response.status);
        assert_eq!(Bytes::from("value"), response.body);
        assert_eq!(
            Some(Bytes::from("value")),
            storage.get(&"key".to_owned())
        );
        assert_eq!(None, storage.get(&"other".to_owned()));
    });
}

#[test]
fn payloads_may_be_any_bytes() {
    run(async {
        let storage = with_shards(2);
        let payload: Vec<u8> = (0..=255).collect();
        storage.insert("bytes".to_owned(), Bytes::from(payload.clone()));
        storage.insert("nothing".to_owned(), Bytes::new());
        assert_eq!(
            Some(Bytes::from(payload)),
            storage.get(&"bytes".to_owned())
        );
        assert_eq!(Some(Bytes::new()), storage.get(&"nothing".to_owned()));
    });
}

#[test]
fn cleanup_waits_for_the_next_key() {
    run(async {
        let storage = with_shards(1);
        assert_eq!(1, storage.shard_count());
        assert_eq!(CleanupAction::AwaitNotification, storage.clean_up(0));
        tokio::time::advance(Duration::from_secs(1)).await;
        storage.insert("first".to_owned(), Bytes::from("1"));
        tokio::time::advance(Duration::from_secs(1)).await;
        storage.insert("second".to_owned(), Bytes::from("2"));
        assert_eq!(
            CleanupAction::SleepUntil(601_000_000_000),
            storage.clean_up(0)
        );
        tokio::time::advance(TTL - Duration::from_secs(1)).await;
        assert_eq!(
            CleanupAction::SleepUntil(602_000_000_000),
            storage.clean_up(0)
        );
        assert_eq!(None, storage.get(&"first".to_owned()));
        assert_eq!(Some(Bytes::from("2")), storage.get(&"second".to_owned()));
        tokio::time::advance(Duration::from_secs(1)).await;
        assert_eq!(CleanupAction::AwaitNotification, storage.clean_up(0));
        assert_eq!(None, storage.get(&"second".to_owned()));
    });
}

#[test]
fn cleanup_stops_on_shutdown() {
    run(async {
        let storage = with_shards(2);
        storage.insert("key".to_owned(), Bytes::from("value"));
        tokio::time::advance(TTL).await;
        for index in 0..2 {
            assert_eq!(
                CleanupAction::Stop,
                storage.clean_up_unless(true, index)
            );
        }
        assert_eq!(Some(Bytes::from("value")), storage.get(&"key".to_owned()));
        storage.shut_down();
        for index in 0..2 {
            assert_eq!(CleanupAction::Stop, storage.clean_up(index));
            // Every task is told
            assert!(is_notified(&storage, index).await);
        }
        assert_eq!(
            CleanupAction::AwaitNotification,
            storage.clean_up_unless(false, 0)
        );
        assert_eq!(
            CleanupAction::AwaitNotification,
            storage.clean_up_unless(false, 1)
        );
        assert_eq!(None, storage.get(&"key".to_owned()));
    });
}

async fn is_notified(storage: &Storage, index: usize) -> bool {
    let notified = storage.cleanup_waker(index).notified();
    tokio::time::timeout(Duration::from_millis(1), notified)
        .await
        .is_ok()
}

#[test]
fn cleanup_is_notified_of_the_first_key() {
    run(async {
        let storage = with_shards(1);
        assert!(!is_notified(&storage, 0).await);
        storage.insert("first".to_owned(), Bytes::from("1"));
        assert!(is_notified(&storage, 0).await);
        storage.insert("second".to_owned(), Bytes::from("2"));
        assert!(!is_notified(&storage, 0).await);
    });
}

#[test]
fn clock_starts_with_the_storage() {
    run(async {
        tokio::time::advance(Duration::from_secs(7)).await;
        let before = tokio::time::Instant::now();
        let storage = with_shards(1);
        assert_eq!(before, storage.started_at());
    });
}

#[test]
fn storage_keeps_what_its_shards_hold() {
    run(async {
        let mut shards = Shards::new(0, TTL.as_nanos(), 8).unwrap();
        for i in 0..100 {
            shards.insert(format!("key-{}", i), Bytes::from(format!("value-{}", i)), 0);
        }
        let storage = Storage::from_shards(shards);
        assert_eq!(8, storage.shard_count());
        for i in 0..100 {
            assert_eq!(
                Some(Bytes::from(format!("value-{}", i))),
                storage.get(&format!("key-{}", i))
            );
        }
    });
}
