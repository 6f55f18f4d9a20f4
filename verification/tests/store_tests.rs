use my_redis::server::store::Store;
use my_redis::server::store::Value;

const NOW: u128 = 1_700_000_000_000;

#[test]
fn set_then_get_round_trip() {
    let mut store = Store::new();
    store.set("k".to_string(), Value::Text("v".to_string()), None, NOW);
    let got = store.get("k", NOW + 5);
    assert_eq!(got, Some(Value::Text("v".to_string())));
}

#[test]
fn round_trip_all_value_kinds() {
    let mut store = Store::new();
    store.set("t".to_string(), Value::Text("hello".to_string()), None, NOW);
    store.set("b".to_string(), Value::Bytes(vec![1, 2, 3]), None, NOW);
    store.set("i".to_string(), Value::Integer(-7), None, NOW);
    store.set("f".to_string(), Value::Boolean(false), None, NOW);
    assert_eq!(store.get("t", NOW), Some(Value::Text("hello".to_string())));
    assert_eq!(store.get("b", NOW), Some(Value::Bytes(vec![1, 2, 3])));
    assert_eq!(store.get("i", NOW), Some(Value::Integer(-7)));
    assert_eq!(store.get("f", NOW), Some(Value::Boolean(false)));
}

#[test]
fn expiration_boundary() {
    let mut store = Store::new();
    store.set("k".to_string(), Value::Text("v".to_string()), Some(1000), NOW);
    // deadline is NOW + 1000; alive strictly before it
    assert_eq!(
        store.get("k", NOW + 999),
        Some(Value::Text("v".to_string()))
    );
    // at the deadline the entry is expired and removed
    assert_eq!(store.get("k", NOW + 1000), None);
    // and stays absent afterwards
    assert_eq!(store.get("k", NOW + 1001), None);
    assert_eq!(store.get_time_to_live("k"), None);
}

#[test]
fn expired_key_reports_absent_every_read() {
    let mut store = Store::new();
    store.set("k".to_string(), Value::Integer(1), Some(10), NOW);
    assert_eq!(store.get("k", NOW + 10), None);
    assert_eq!(store.get("k", NOW + 20), None);
}

#[test]
fn delete_absent_returns_none() {
    let mut store = Store::new();
    assert_eq!(store.delete("missing"), None);
    assert_eq!(store.get("missing", NOW), None);
}

#[test]
fn delete_twice_after_one_insert() {
    let mut store = Store::new();
    store.set("k".to_string(), Value::Text("v".to_string()), None, NOW);
    assert_eq!(store.delete("k"), Some(Value::Text("v".to_string())));
    assert_eq!(store.delete("k"), None);
    assert_eq!(store.get("k", NOW), None);
}

#[test]
fn delete_retracts_deadline() {
    let mut store = Store::new();
    store.set("k".to_string(), Value::Text("v".to_string()), Some(500), NOW);
    assert_eq!(store.delete("k"), Some(Value::Text("v".to_string())));
    assert_eq!(store.get_time_to_live("k"), None);
    // a fresh entry under the same key carries only its own deadline
    store.set("k".to_string(), Value::Text("w".to_string()), None, NOW);
    assert_eq!(store.get("k", NOW + 600), Some(Value::Text("w".to_string())));
}

#[test]
fn overwrite_clears_expiration() {
    let mut store = Store::new();
    store.set("k".to_string(), Value::Text("v1".to_string()), Some(1000), NOW);
    store.set("k".to_string(), Value::Text("v2".to_string()), None, NOW);
    assert_eq!(store.get_time_to_live("k"), None);
    // far past the old deadline the second value is still there
    assert_eq!(
        store.get("k", NOW + 10_000),
        Some(Value::Text("v2".to_string()))
    );
}

#[test]
fn overwrite_replaces_value_and_deadline() {
    let mut store = Store::new();
    store.set("k".to_string(), Value::Integer(1), None, NOW);
    store.set("k".to_string(), Value::Integer(2), Some(100), NOW);
    assert_eq!(store.get_time_to_live("k"), Some(NOW + 100));
    assert_eq!(store.get("k", NOW), Some(Value::Integer(2)));
}

#[test]
fn set_expiration_on_existing_key() {
    let mut store = Store::new();
    store.set("k".to_string(), Value::Text("v".to_string()), None, NOW);
    assert!(store.set_expiration("k", NOW + 2000));
    assert_eq!(store.get_time_to_live("k"), Some(NOW + 2000));
    assert_eq!(store.get("k", NOW + 2000), None);
}

#[test]
fn set_expiration_replaces_old_deadline() {
    let mut store = Store::new();
    store.set("k".to_string(), Value::Text("v".to_string()), Some(100), NOW);
    assert!(store.set_expiration("k", NOW + 5000));
    assert_eq!(store.get_time_to_live("k"), Some(NOW + 5000));
    // the old, earlier deadline no longer applies
    assert_eq!(
        store.get("k", NOW + 200),
        Some(Value::Text("v".to_string()))
    );
}

#[test]
fn set_expiration_on_absent_key_fails() {
    let mut store = Store::new();
    assert!(!store.set_expiration("missing", NOW + 1000));
    assert_eq!(store.get("missing", NOW), None);
    assert_eq!(store.get_time_to_live("missing"), None);
}

#[test]
fn ttl_does_not_expire_the_key() {
    let mut store = Store::new();
    store.set("k".to_string(), Value::Text("v".to_string()), Some(10), NOW);
    // reading the deadline after it passed does not remove the entry
    assert_eq!(store.get_time_to_live("k"), Some(NOW + 10));
    assert_eq!(store.get_time_to_live("k"), Some(NOW + 10));
    // only a get enforces expiration
    assert_eq!(store.get("k", NOW + 11), None);
    assert_eq!(store.get_time_to_live("k"), None);
}

#[test]
fn many_distinct_keys_no_lost_updates() {
    let mut store = Store::new();
    for i in 0..200u64 {
        store.set(
            format!("key-{}", i),
            Value::Integer(i as i64),
            Some(1000 + i as u128),
            NOW,
        );
    }
    for i in 0..200u64 {
        let key = format!("key-{}", i);
        assert_eq!(store.get(&key, NOW), Some(Value::Integer(i as i64)));
        assert_eq!(store.get_time_to_live(&key), Some(NOW + 1000 + i as u128));
    }
}

#[test]
fn clock_reads_after_epoch() {
    let store = Store::new();
    let a = store.current_time_millis();
    let b = store.current_time_millis();
    assert!(a > 0);
    assert!(b > 0);
}

#[test]
fn concurrent_sets_on_distinct_keys() {
    let rt = tokio::runtime::Builder::new_multi_thread()
        .worker_threads(4)
        .build()
        .unwrap();
    let store = std::sync::Arc::new(tokio::sync::Mutex::new(Store::new()));
    rt.block_on(async {
        let mut handles = Vec::new();
        for i in 0..50u64 {
            let store = std::sync::Arc::clone(&store);
            handles.push(tokio::spawn(async move {
                let mut s = store.lock().await;
                s.set(
                    format!("k{}", i),
                    Value::Integer(i as i64),
                    Some(1000),
                    NOW,
                );
            }));
        }
        for h in handles {
            h.await.unwrap();
        }
        // no update was lost and every deadline is recorded
        for i in 0..50u64 {
            let mut s = store.lock().await;
            let key = format!("k{}", i);
            assert_eq!(s.get(&key, NOW), Some(Value::Integer(i as i64)));
            assert_eq!(s.get_time_to_live(&key), Some(NOW + 1000));
        }
    });
}
