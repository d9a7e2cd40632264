use updates::{CacheEntry, CacheRecord, ResultCache, UpdateResult};

fn outcome(available: &str) -> UpdateResult {
    UpdateResult::new("pkg".to_string(), "1.0.0".to_string(), available.to_string(), None)
}

fn available(r: Option<Option<UpdateResult>>) -> Option<Option<String>> {
    r.map(|o| o.map(|u| u.available_version))
}

#[test]
fn put_then_get_is_fresh() {
    let mut c = ResultCache::new();
    c.put("pkg", "1.0.0", Some(outcome("1.2.0")), 1000);
    assert_eq!(available(c.get("pkg", "1.0.0", 1000)), Some(Some("1.2.0".to_string())));
    assert_eq!(available(c.get("pkg", "1.0.0", 4599)), Some(Some("1.2.0".to_string())));
}

#[test]
fn get_after_expiry_is_empty_but_entry_stays() {
    let mut c = ResultCache::new();
    c.put("pkg", "1.0.0", Some(outcome("1.2.0")), 1000);
    assert!(c.get("pkg", "1.0.0", 4600).is_none());
    assert_eq!(c.snapshot().len(), 1);
}

#[test]
fn absent_outcome_is_cached_too() {
    let mut c = ResultCache::new();
    c.put("pkg", "1.0.0", None, 1000);
    assert_eq!(available(c.get("pkg", "1.0.0", 1001)), Some(None));
}

#[test]
fn other_keys_miss() {
    let mut c = ResultCache::new();
    c.put("pkg", "1.0.0", None, 1000);
    assert!(c.get("pkg", "1.0.1", 1000).is_none());
    assert!(c.get("other", "1.0.0", 1000).is_none());
    assert!(ResultCache::new().get("pkg", "1.0.0", 0).is_none());
}

#[test]
fn entry_from_the_future_is_fresh() {
    let mut c = ResultCache::new();
    c.put("pkg", "1.0.0", None, 5000);
    assert_eq!(available(c.get("pkg", "1.0.0", 10)), Some(None));
}

#[test]
fn put_overwrites() {
    let mut c = ResultCache::new();
    c.put("pkg", "1.0.0", Some(outcome("1.2.0")), 1000);
    c.put("pkg", "1.0.0", Some(outcome("1.3.0")), 2000);
    assert_eq!(c.snapshot().len(), 1);
    assert_eq!(available(c.get("pkg", "1.0.0", 5000)), Some(Some("1.3.0".to_string())));
}

#[test]
fn snapshot_restore_round_trip() {
    let mut c = ResultCache::new();
    c.put("a", "1.0.0", Some(outcome("1.2.0")), 1000);
    c.put("b", "2.0.0", None, 2000);
    let back = ResultCache::restore(c.snapshot());
    let snap = back.snapshot();
    assert_eq!(snap.len(), 2);
    assert_eq!(snap[0].crate_name, "a");
    assert_eq!(snap[0].entry.timestamp, 1000);
    assert_eq!(snap[1].crate_version, "2.0.0");
    assert_eq!(snap[1].entry.timestamp, 2000);
    assert_eq!(available(back.get("a", "1.0.0", 1500)), Some(Some("1.2.0".to_string())));
    assert_eq!(available(back.get("b", "2.0.0", 2500)), Some(None));
}

#[test]
fn restore_keeps_the_later_duplicate() {
    let record = |t: u64, v: &str| CacheRecord {
        crate_name: "pkg".to_string(),
        crate_version: "1.0.0".to_string(),
        entry: CacheEntry { timestamp: t, result: Some(outcome(v)) },
    };
    let c = ResultCache::restore(vec![record(100, "1.1.0"), record(200, "1.2.0")]);
    assert_eq!(c.snapshot().len(), 1);
    assert_eq!(available(c.get("pkg", "1.0.0", 300)), Some(Some("1.2.0".to_string())));
}
