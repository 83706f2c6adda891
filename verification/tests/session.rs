use docs_bot::session::SessionCache;

#[test]
fn new_cache_is_empty() {
    let mut cache: SessionCache<String> = SessionCache::new(1_000);
    assert_eq!(cache.ttl(), 1_000);
    assert_eq!(cache.len(), 0);
    assert_eq!(cache.get("s-1", 0), None);
    assert!(cache.peek("s-1", 0).is_none());
}

#[test]
fn stored_session_is_found_within_the_ttl() {
    let mut cache = SessionCache::new(1_000);
    cache.put("s-1".to_string(), "hello".to_string(), 5_000);
    assert_eq!(cache.get("s-1", 5_000), Some(&"hello".to_string()));
    assert_eq!(cache.get("s-1", 5_999), Some(&"hello".to_string()));
    assert_eq!(cache.get("s-2", 5_000), None);
}

#[test]
fn session_is_found_exactly_at_the_ttl() {
    let mut cache = SessionCache::new(1_000);
    cache.put("s-1".to_string(), 7u32, 5_000);
    assert_eq!(cache.get("s-1", 6_000), Some(&7));
}

#[test]
fn session_is_gone_after_the_ttl() {
    let mut cache = SessionCache::new(1_000);
    cache.put("s-1".to_string(), 7u32, 5_000);
    assert_eq!(cache.len(), 1);
    assert_eq!(cache.get("s-1", 6_001), None);
    assert_eq!(cache.len(), 0);
    assert_eq!(cache.get("s-1", 5_000), None);
}

#[test]
fn lookup_refreshes_the_last_access() {
    let mut cache = SessionCache::new(1_000);
    cache.put("s-1".to_string(), 7u32, 0);
    assert_eq!(cache.get("s-1", 900), Some(&7));
    assert_eq!(cache.get("s-1", 1_800), Some(&7));
    assert_eq!(cache.peek("s-1", 1_800).map(|s| (s.created_at, s.last_access)), Some((0, 1_800)));
    assert_eq!(cache.get("s-1", 2_801), None);
}

#[test]
fn peek_does_not_count_as_a_use() {
    let mut cache = SessionCache::new(1_000);
    cache.put("s-1".to_string(), 7u32, 0);
    assert_eq!(cache.peek("s-1", 900).map(|s| s.state), Some(7));
    assert_eq!(cache.peek("s-1", 900).map(|s| s.last_access), Some(0));
    assert!(cache.peek("s-1", 1_001).is_none());
    assert_eq!(cache.len(), 1);
    assert_eq!(cache.get("s-1", 1_001), None);
}

#[test]
fn put_replaces_the_state_and_refreshes() {
    let mut cache = SessionCache::new(1_000);
    cache.put("s-1".to_string(), "a".to_string(), 100);
    cache.put("s-1".to_string(), "b".to_string(), 600);
    assert_eq!(cache.len(), 1);
    let session = cache.peek("s-1", 600).unwrap();
    assert_eq!(session.key, "s-1");
    assert_eq!(session.state, "b");
    assert_eq!(session.created_at, 100);
    assert_eq!(session.last_access, 600);
    assert_eq!(cache.get("s-1", 1_600), Some(&"b".to_string()));
}

#[test]
fn put_over_an_expired_session_starts_afresh() {
    let mut cache = SessionCache::new(1_000);
    cache.put("s-1".to_string(), "a".to_string(), 100);
    cache.put("s-1".to_string(), "b".to_string(), 5_000);
    assert_eq!(cache.len(), 1);
    let session = cache.peek("s-1", 5_000).unwrap();
    assert_eq!(session.state, "b");
    assert_eq!(session.created_at, 5_000);
    assert_eq!(session.last_access, 5_000);
}

#[test]
fn a_clock_that_steps_back_expires_nothing() {
    let mut cache = SessionCache::new(10);
    cache.put("s-1".to_string(), 1u8, 1_000);
    assert_eq!(cache.get("s-1", 500), Some(&1));
    assert_eq!(cache.peek("s-1", 500).map(|s| s.last_access), Some(1_000));
    assert_eq!(cache.sweep(0), 0);
}

#[test]
fn sweep_drops_the_expired_and_keeps_the_live() {
    let mut cache = SessionCache::new(1_000);
    cache.put("old".to_string(), 1u8, 0);
    cache.put("mid".to_string(), 2u8, 1_000);
    cache.put("older".to_string(), 3u8, 10);
    cache.put("new".to_string(), 4u8, 2_000);
    assert_eq!(cache.len(), 4);
    assert_eq!(cache.sweep(2_000), 2);
    assert_eq!(cache.len(), 2);
    assert!(cache.peek("old", 0).is_none());
    assert!(cache.peek("older", 10).is_none());
    assert_eq!(cache.peek("mid", 2_000).map(|s| s.state), Some(2));
    assert_eq!(cache.peek("new", 2_000).map(|s| s.state), Some(4));
    assert_eq!(cache.sweep(2_000), 0);
    assert_eq!(cache.sweep(u64::MAX), 2);
    assert_eq!(cache.len(), 0);
}

#[test]
fn zero_ttl_keeps_a_session_for_the_instant() {
    let mut cache = SessionCache::new(0);
    cache.put("s".to_string(), 1u8, 42);
    assert_eq!(cache.get("s", 42), Some(&1));
    assert_eq!(cache.get("s", 43), None);
}

#[test]
fn keys_are_told_apart_exactly() {
    let mut cache = SessionCache::new(100);
    cache.put("a".to_string(), 1u8, 0);
    cache.put("A".to_string(), 2u8, 0);
    cache.put("".to_string(), 3u8, 0);
    assert_eq!(cache.len(), 3);
    assert_eq!(cache.get("a", 1), Some(&1));
    assert_eq!(cache.get("A", 1), Some(&2));
    assert_eq!(cache.get("", 1), Some(&3));
    assert_eq!(cache.get("a ", 1), None);
}

#[test]
fn times_near_the_end_of_the_range_do_not_overflow() {
    let mut cache = SessionCache::new(u64::MAX);
    cache.put("s".to_string(), 1u8, 0);
    assert_eq!(cache.get("s", u64::MAX), Some(&1));
    let mut short = SessionCache::new(1);
    short.put("s".to_string(), 1u8, u64::MAX - 1);
    assert_eq!(short.get("s", u64::MAX), Some(&1));
    short.put("t".to_string(), 2u8, 0);
    assert_eq!(short.get("t", u64::MAX), None);
}
