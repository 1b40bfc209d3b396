use nyc_train_cal::cache::CalendarCache;

#[test]
fn read_after_write_returns_exact_content() {
    let mut cache = CalendarCache::new(100, 30000);
    cache.put("Q", "BEGIN:VCALENDAR Q".to_string(), 1000);
    assert_eq!(cache.get("Q", 1000), Some("BEGIN:VCALENDAR Q".to_string()));
}

#[test]
fn entry_live_until_ttl_elapses() {
    let mut cache = CalendarCache::new(100, 30000);
    cache.put("A", "calendar A".to_string(), 5000);
    assert_eq!(cache.get("A", 5000), Some("calendar A".to_string()));
    assert_eq!(cache.get("A", 34999), Some("calendar A".to_string()));
}

#[test]
fn expired_entry_behaves_as_absent_but_still_exists() {
    let mut cache = CalendarCache::new(100, 30000);
    cache.put("A", "calendar A".to_string(), 5000);
    assert_eq!(cache.get("A", 35000), None);
    assert_eq!(cache.get("A", 99999), None);
    // the entry may still physically occupy a slot
    assert_eq!(cache.len(), 1);
}

#[test]
fn miss_on_empty_cache() {
    let cache = CalendarCache::new(100, 30000);
    assert_eq!(cache.get("A", 0), None);
}

#[test]
fn miss_on_other_key() {
    let mut cache = CalendarCache::new(100, 30000);
    cache.put("A", "calendar A".to_string(), 0);
    assert_eq!(cache.get("C", 1), None);
}

#[test]
fn insert_replaces_never_duplicates() {
    let mut cache = CalendarCache::new(100, 30000);
    cache.put("A", "first".to_string(), 0);
    cache.put("A", "second".to_string(), 10);
    assert_eq!(cache.len(), 1);
    assert_eq!(cache.get("A", 20), Some("second".to_string()));
}

#[test]
fn capacity_is_never_exceeded() {
    let mut cache = CalendarCache::new(3, 30000);
    cache.put("A", "a".to_string(), 0);
    cache.put("B", "b".to_string(), 1);
    cache.put("C", "c".to_string(), 2);
    cache.put("D", "d".to_string(), 3);
    cache.put("E", "e".to_string(), 4);
    assert!(cache.len() <= 3);
}

#[test]
fn eviction_removes_earliest_expiry_entry() {
    let mut cache = CalendarCache::new(3, 30000);
    cache.put("A", "a".to_string(), 0);
    cache.put("B", "b".to_string(), 1);
    cache.put("C", "c".to_string(), 2);
    // at capacity: inserting D evicts A, the earliest-expiry entry
    cache.put("D", "d".to_string(), 3);
    assert_eq!(cache.len(), 3);
    assert_eq!(cache.get("A", 4), None);
    assert_eq!(cache.get("B", 4), Some("b".to_string()));
    assert_eq!(cache.get("C", 4), Some("c".to_string()));
    assert_eq!(cache.get("D", 4), Some("d".to_string()));
}

#[test]
fn overwrite_at_capacity_evicts_nothing() {
    let mut cache = CalendarCache::new(2, 30000);
    cache.put("A", "a".to_string(), 0);
    cache.put("B", "b".to_string(), 1);
    cache.put("A", "a2".to_string(), 2);
    assert_eq!(cache.len(), 2);
    assert_eq!(cache.get("A", 3), Some("a2".to_string()));
    assert_eq!(cache.get("B", 3), Some("b".to_string()));
}
