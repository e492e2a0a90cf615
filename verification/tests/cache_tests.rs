use web3_proxy::cache::ResponseCache;

fn key(head: u64, method: &str) -> (u64, String, Option<String>) {
    (head, method.to_string(), Some("[]".to_string()))
}

#[test]
fn insert_then_get_returns_the_value() {
    let mut cache = ResponseCache::new(16);
    cache.insert(key(100, "eth_blockNumber"), "\"0x64\"".to_string());
    let got = cache.get(&key(100, "eth_blockNumber"));
    assert_eq!(got.map(|s| s.as_str()), Some("\"0x64\""));
    // a different head block is a different key
    assert!(cache.get(&key(101, "eth_blockNumber")).is_none());
    assert!(cache.get(&key(100, "eth_getBalance")).is_none());
}

#[test]
fn reads_are_idempotent() {
    let mut cache = ResponseCache::new(16);
    cache.insert(key(1, "a"), "\"x\"".to_string());
    let k = key(1, "a");
    assert_eq!(cache.get(&k), cache.get(&k));
    let missing = key(2, "b");
    assert_eq!(cache.get(&missing), cache.get(&missing));
}

#[test]
fn reinsert_replaces_the_value() {
    let mut cache = ResponseCache::new(16);
    cache.insert(key(1, "a"), "\"x\"".to_string());
    cache.insert(key(1, "a"), "\"y\"".to_string());
    assert_eq!(cache.len(), 1);
    assert_eq!(cache.get(&key(1, "a")).map(|s| s.as_str()), Some("\"y\""));
}

#[test]
fn overflow_evicts_the_oldest_entry() {
    let mut cache = ResponseCache::new(2);
    cache.insert(key(1, "a"), "\"1\"".to_string());
    cache.insert(key(2, "b"), "\"2\"".to_string());
    cache.insert(key(3, "c"), "\"3\"".to_string());
    assert_eq!(cache.len(), 2);
    assert!(cache.get(&key(1, "a")).is_none());
    assert_eq!(cache.get(&key(2, "b")).map(|s| s.as_str()), Some("\"2\""));
    assert_eq!(cache.get(&key(3, "c")).map(|s| s.as_str()), Some("\"3\""));
}

#[test]
fn reinsert_refreshes_the_insertion_position() {
    // reinserting a key moves it to the back, so it outlives an eviction
    let mut cache = ResponseCache::new(2);
    cache.insert(key(1, "a"), "\"1\"".to_string());
    cache.insert(key(2, "b"), "\"2\"".to_string());
    cache.insert(key(1, "a"), "\"1b\"".to_string());
    cache.insert(key(3, "c"), "\"3\"".to_string());
    assert!(cache.get(&key(2, "b")).is_none());
    assert_eq!(cache.get(&key(1, "a")).map(|s| s.as_str()), Some("\"1b\""));
}

#[test]
fn params_distinguish_keys() {
    let mut cache = ResponseCache::new(4);
    cache.insert((1, "a".to_string(), None), "\"none\"".to_string());
    cache.insert((1, "a".to_string(), Some("[1]".to_string())), "\"one\"".to_string());
    assert_eq!(cache.len(), 2);
    assert_eq!(
        cache.get(&(1, "a".to_string(), None)).map(|s| s.as_str()),
        Some("\"none\"")
    );
    assert_eq!(
        cache
            .get(&(1, "a".to_string(), Some("[1]".to_string())))
            .map(|s| s.as_str()),
        Some("\"one\"")
    );
}
