use srv_rs::Cache;
use std::time::{SystemTime, UNIX_EPOCH};

fn now_millis() -> u64 {
    SystemTime::now().duration_since(UNIX_EPOCH).unwrap().as_millis() as u64
}

#[test]
fn default_is_invalid() {
    assert!(!Cache::<()>::default().valid());
}

#[test]
fn empty_is_invalid() {
    let cache = Cache::<()>::new(vec![], now_millis() + 1000);
    assert!(!cache.valid());
}

#[test]
fn expired_is_invalid() {
    let cache = Cache::new(vec![()], now_millis() - 1000);
    assert!(!cache.valid());
}

#[test]
fn nonempty_and_fresh_is_valid() {
    let cache = Cache::new(vec![()], now_millis() + 1000);
    assert!(cache.valid());
}

#[test]
fn valid_at_expiration_instant() {
    let cache = Cache::new(vec![1u8, 2], 5000);
    assert!(cache.valid_at(4999));
    assert!(cache.valid_at(5000));
    assert!(!cache.valid_at(5001));
}

#[test]
fn empty_cache_never_valid_at() {
    let cache = Cache::<u8>::new(vec![], 5000);
    assert!(!cache.valid_at(0));
    assert!(!cache.valid_at(5000));
}

#[test]
fn cache_keeps_items_in_order() {
    let cache = Cache::new(vec![3u8, 1, 2], 7);
    assert_eq!(cache.items(), &[3u8, 1, 2]);
    assert_eq!(cache.valid_until(), 7);
    let empty = Cache::<u8>::default();
    assert!(empty.items().is_empty());
    assert_eq!(empty.valid_until(), 0);
}
