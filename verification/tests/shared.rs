use std::sync::{Arc, Mutex};

use simple_redis::{request_handler, Backend, BulkString, RespArray, RespFrame, SimpleString};

fn request(words: &[&str]) -> RespFrame {
    RespArray::new(words.iter().map(|w| BulkString::new(*w).into()).collect()).into()
}

#[test]
fn concurrent_writers_to_distinct_keys_lose_nothing() {
    let store = Arc::new(Mutex::new(Backend::new()));
    let runtime = tokio::runtime::Builder::new_multi_thread().worker_threads(4).build().unwrap();
    runtime.block_on(async {
        let writers: Vec<_> = (0..8)
            .map(|w| {
                let store = Arc::clone(&store);
                tokio::spawn(async move {
                    for i in 0..50 {
                        let key = format!("writer-{}-key-{}", w, i);
                        let value = format!("value-{}-{}", w, i);
                        let reply = request_handler(
                            request(&["set", &key, &value]),
                            &mut store.lock().unwrap(),
                        );
                        assert_eq!(reply, SimpleString::new("OK").into());
                        tokio::task::yield_now().await;
                    }
                })
            })
            .collect();
        for writer in writers {
            writer.await.unwrap();
        }
    });
    let mut store = store.lock().unwrap();
    assert_eq!(store.len(), 400);
    for w in 0..8 {
        for i in 0..50 {
            let key = format!("writer-{}-key-{}", w, i);
            let value = format!("value-{}-{}", w, i);
            assert_eq!(
                request_handler(request(&["get", &key]), &mut store),
                BulkString::new(value).into()
            );
        }
    }
}

#[test]
fn concurrent_writers_to_one_key_leave_one_of_their_values() {
    let store = Arc::new(Mutex::new(Backend::new()));
    let runtime = tokio::runtime::Builder::new_multi_thread().worker_threads(4).build().unwrap();
    runtime.block_on(async {
        let writers: Vec<_> = (0..8)
            .map(|w| {
                let store = Arc::clone(&store);
                tokio::spawn(async move {
                    let value = format!("value-of-writer-{}", w);
                    request_handler(
                        request(&["set", "shared", &value]),
                        &mut store.lock().unwrap(),
                    );
                })
            })
            .collect();
        for writer in writers {
            writer.await.unwrap();
        }
    });
    let mut store = store.lock().unwrap();
    assert_eq!(store.len(), 1);
    let reply = request_handler(request(&["get", "shared"]), &mut store);
    let written: Vec<RespFrame> =
        (0..8).map(|w| BulkString::new(format!("value-of-writer-{}", w)).into()).collect();
    assert!(written.contains(&reply), "{:?}", reply);
}
