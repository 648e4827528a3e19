use atlas::agent::cache::ToolResultCache;
use atlas::agent::json::Json;
use atlas::agent::protocol::ToolResult;

const SECOND: u64 = 1_000_000_000;
const MILLISECOND: u64 = 1_000_000;

fn make_result(value: &str) -> ToolResult {
    ToolResult::success(Json::text(value))
}

#[test]
fn cache_test_cache_hit() {
    let mut cache = ToolResultCache::new(60 * SECOND, 10);
    cache.set("read_file:path=a.rs".into(), make_result("content_a"), 0);

    let hit = cache.get("read_file:path=a.rs", 0);
    assert!(hit.is_some());
    let r = hit.unwrap();
    assert!(r.success);
    assert_eq!(r.value.as_str(), Some("content_a"));
}

#[test]
fn test_cache_miss() {
    let mut cache = ToolResultCache::new(60 * SECOND, 10);
    cache.set("read_file:path=a.rs".into(), make_result("content_a"), 0);

    assert!(cache.get("read_file:path=b.rs", 0).is_none());
}

#[test]
fn test_cache_overwrite() {
    let mut cache = ToolResultCache::new(60 * SECOND, 10);
    cache.set("key".into(), make_result("v1"), 0);
    cache.set("key".into(), make_result("v2"), 0);

    let hit = cache.get("key", 0).unwrap();
    assert_eq!(hit.value.as_str(), Some("v2"));
}

#[test]
fn test_ttl_expiration() {
    let mut cache = ToolResultCache::new(50 * MILLISECOND, 10);
    cache.set("key".into(), make_result("value"), 0);

    assert!(cache.get("key", 0).is_some());
    assert!(cache.get("key", 80 * MILLISECOND).is_none());
}

#[test]
fn test_lru_eviction() {
    let mut cache = ToolResultCache::new(60 * SECOND, 2);
    cache.set("k1".into(), make_result("v1"), 0);
    cache.set("k2".into(), make_result("v2"), 0);
    cache.set("k3".into(), make_result("v3"), 0);

    assert!(cache.get("k1", 0).is_none());
    assert!(cache.get("k2", 0).is_some());
    assert!(cache.get("k3", 0).is_some());
}

#[test]
fn test_lru_access_refreshes_order() {
    let mut cache = ToolResultCache::new(60 * SECOND, 2);
    cache.set("k1".into(), make_result("v1"), 0);
    cache.set("k2".into(), make_result("v2"), 0);

    let _ = cache.get("k1", 0);

    cache.set("k3".into(), make_result("v3"), 0);

    assert!(cache.get("k1", 0).is_some());
    assert!(cache.get("k2", 0).is_none());
    assert!(cache.get("k3", 0).is_some());
}

#[test]
fn cache_test_clear() {
    let mut cache = ToolResultCache::new(60 * SECOND, 10);
    cache.set("a".into(), make_result("1"), 0);
    cache.set("b".into(), make_result("2"), 0);
    assert_eq!(cache.len(), 2);

    cache.clear();
    assert_eq!(cache.len(), 0);
    assert!(cache.is_empty());
}

#[test]
fn test_default() {
    let mut cache = ToolResultCache::default();
    assert!(cache.is_empty());
    cache.set("x".into(), make_result("y"), 0);
    assert_eq!(cache.len(), 1);
}

#[test]
fn test_error_results_cached() {
    let mut cache = ToolResultCache::new(60 * SECOND, 10);
    let err = ToolResult::error("file not found");
    cache.set("read_file:path=missing.rs".into(), err, 0);

    let hit = cache.get("read_file:path=missing.rs", 0).unwrap();
    assert!(!hit.success);
}

#[test]
fn test_min_capacity_is_one() {
    let mut cache = ToolResultCache::new(60 * SECOND, 0);
    cache.set("k".into(), make_result("v"), 0);
    assert!(cache.get("k", 0).is_some());
}

#[test]
fn an_entry_lives_as_long_as_it_may() {
    let mut cache = ToolResultCache::new(50 * MILLISECOND, 10);
    cache.set("key".into(), make_result("value"), 7);
    assert!(cache.get("key", 7 + 50 * MILLISECOND).is_some());
    assert!(cache.get("key", 8 + 50 * MILLISECOND).is_none());
    assert_eq!(cache.len(), 0);
}

#[test]
fn the_default_holds_for_five_minutes() {
    let mut cache = ToolResultCache::default();
    cache.set("key".into(), make_result("value"), 0);
    assert!(cache.get("key", 300 * SECOND).is_some());
    assert!(cache.get("key", 301 * SECOND).is_none());
}
