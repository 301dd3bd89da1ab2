use turbo_ncu::cache::Cache;

const PATH: &str = "turbo-ncu-test-cache.json";

#[test]
fn test_cache_set_and_get() {
    let mut cache = Cache::new(PATH, 600);
    cache.set("lodash", vec!["4.17.21".to_string()]);

    let result = cache.get("lodash");
    assert!(result.is_some());
    assert_eq!(result.unwrap().versions, vec!["4.17.21"]);
}

#[test]
fn test_cache_miss() {
    let cache = Cache::new(PATH, 600);
    assert!(cache.get("nonexistent").is_none());
}

#[test]
fn test_cache_save_and_reload() {
    let mut cache = Cache::new(PATH, 600);
    cache.set("express", vec!["4.18.0".to_string(), "4.19.0".to_string()]);
    let reloaded = Cache::from_entries(PATH, 600, cache.entries());
    let result = reloaded.get("express");
    assert!(result.is_some());
    assert_eq!(result.unwrap().versions.len(), 2);
}

#[test]
fn test_cache_expired() {
    let mut cache = Cache::new(PATH, 0);
    cache.set_at("old-pkg", vec!["1.0.0".to_string()], 1_000);
    assert!(cache.get_at("old-pkg", 1_000).is_some());
    assert!(cache.get_at("old-pkg", 1_001).is_none());
}

#[test]
fn test_cache_clear() {
    let mut cache = Cache::new(PATH, 600);
    cache.set("pkg", vec!["1.0.0".to_string()]);
    cache.clear();
    assert!(cache.get("pkg").is_none());
    assert!(cache.entries().is_empty());
}

#[test]
fn set_overwrites_and_prune_drops_old() {
    let mut cache = Cache::new(PATH, 10);
    cache.set_at("a", vec!["1.0.0".to_string()], 100);
    cache.set_at("b", vec!["2.0.0".to_string()], 50);
    cache.set_at("a", vec!["1.1.0".to_string()], 100);
    assert_eq!(cache.entries().len(), 2);
    assert_eq!(cache.get_at("a", 105).unwrap().versions, vec!["1.1.0"]);
    cache.prune_at(105);
    assert_eq!(cache.entries().len(), 1);
    assert!(cache.get_at("b", 50).is_none());
    assert_eq!(cache.file_path(), PATH);
    assert_eq!(cache.ttl_seconds(), 10);
}

#[test]
fn clock_behind_entry_is_fresh() {
    let mut cache = Cache::new(PATH, 0);
    cache.set_at("pkg", vec!["1.0.0".to_string()], 500);
    assert!(cache.get_at("pkg", 400).is_some());
}
