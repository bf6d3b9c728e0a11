//! The key-value engine on its own, and the threaded stress case: many
//! concurrent writers to distinct keys lose nothing.

use miniredis::store::Store;

#[test]
fn get_of_absent_key_is_none() {
    let mut store = Store::new();
    assert_eq!(store.get_and_expire(b"missing", 0), None);
}

#[test]
fn put_then_get_returns_value() {
    let mut store = Store::new();
    store.put(b"k".to_vec(), b"v".to_vec(), None);
    assert_eq!(store.get_and_expire(b"k", 12345), Some(b"v".to_vec()));
}

#[test]
fn expired_entry_is_removed_on_read() {
    let mut store = Store::new();
    store.put(b"k".to_vec(), b"v".to_vec(), Some(10));
    assert_eq!(store.get_and_expire(b"k", 9), Some(b"v".to_vec()));
    assert_eq!(store.get_and_expire(b"k", 10), None);
    assert_eq!(store.get_and_expire(b"k", 10), None);
}

#[test]
fn overwrite_replaces_value_and_expiry() {
    let mut store = Store::new();
    store.put(b"k".to_vec(), b"old".to_vec(), Some(10));
    store.put(b"k".to_vec(), b"new".to_vec(), None);
    assert_eq!(store.get_and_expire(b"k", 1_000_000), Some(b"new".to_vec()));
}

#[test]
fn distinct_keys_are_independent() {
    let mut store = Store::new();
    store.put(b"a".to_vec(), b"1".to_vec(), None);
    store.put(b"b".to_vec(), b"2".to_vec(), Some(5));
    assert_eq!(store.get_and_expire(b"b", 100), None);
    assert_eq!(store.get_and_expire(b"a", 100), Some(b"1".to_vec()));
}

#[test]
fn concurrent_writers_to_distinct_keys_lose_nothing() {
    let rt = tokio::runtime::Runtime::new().unwrap();
    let store = std::sync::Arc::new(std::sync::Mutex::new(Store::new()));
    rt.block_on(async {
        let mut handles = Vec::new();
        for i in 0..64u8 {
            let shared = std::sync::Arc::clone(&store);
            handles.push(tokio::spawn(async move {
                let key = vec![b'k', i];
                let value = vec![b'v', i];
                shared.lock().unwrap().put(key, value, None);
            }));
        }
        for h in handles {
            h.await.unwrap();
        }
    });
    let mut store = std::sync::Arc::try_unwrap(store)
        .ok()
        .expect("all writers finished")
        .into_inner()
        .unwrap();
    for i in 0..64u8 {
        let key = vec![b'k', i];
        assert_eq!(store.get_and_expire(&key, 0), Some(vec![b'v', i]));
    }
}
